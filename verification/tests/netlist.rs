use trace2power::netlist::{Cell, Module, ModuleLookupError, Netlist};

fn cell(cell_type: &str) -> Cell {
    Cell { cell_type: cell_type.to_string() }
}

fn module(cells: &[(&str, &str)]) -> Module {
    let mut module = Module::new();
    for (name, cell_type) in cells {
        module.add_cell(name.to_string(), cell(cell_type));
    }
    module
}

fn netlist() -> Netlist {
    let mut netlist = Netlist::new();
    netlist.add_module("top".to_string(), module(&[("u_alu", "alu"), ("u_inv", "sky130_inv_1")]));
    netlist.add_module("alu".to_string(), module(&[("u_add", "adder")]));
    netlist.add_module("adder".to_string(), module(&[]));
    // A later definition replaces an earlier one.
    netlist.add_module("adder".to_string(), module(&[]));
    netlist
}

#[test]
fn cell_finds_its_module() {
    let netlist = netlist();
    let found = cell("alu").get_module(&netlist).unwrap();
    assert!(found.cells.contains_key("u_add"));
    assert_eq!(found.cells.len(), 1);
    assert!(cell("sky130_inv_1").get_module(&netlist).is_none());
    assert!(cell("").get_module(&netlist).is_none());
}

#[test]
fn module_of_cell_is_resolved() {
    let netlist = netlist();
    let top = netlist.modules.get("top").unwrap();
    let alu = match top.get_module_of_cell(&netlist, "u_alu") {
        Ok(module) => module,
        Err(_) => panic!("not resolved"),
    };
    assert!(alu.cells.contains_key("u_add"));
    let adder = match alu.get_module_of_cell(&netlist, "u_add") {
        Ok(module) => module,
        Err(_) => panic!("not resolved"),
    };
    assert!(adder.cells.is_empty());
}

#[test]
fn undeclared_cell_is_not_found() {
    let netlist = netlist();
    let top = netlist.modules.get("top").unwrap();
    match top.get_module_of_cell(&netlist, "u_mul") {
        Err(e) => assert_eq!(e, ModuleLookupError::CellNotFound),
        Ok(_) => panic!("resolved"),
    }
    // The name of a module type is no cell name.
    match top.get_module_of_cell(&netlist, "alu") {
        Err(e) => assert_eq!(e, ModuleLookupError::CellNotFound),
        Ok(_) => panic!("resolved"),
    }
}

#[test]
fn cell_of_undefined_type_is_module_undefined() {
    let netlist = netlist();
    let top = netlist.modules.get("top").unwrap();
    match top.get_module_of_cell(&netlist, "u_inv") {
        Err(e) => assert_eq!(e, ModuleLookupError::ModuleUndefined),
        Ok(_) => panic!("resolved"),
    }
}
