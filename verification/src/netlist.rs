use vstd::hash_map::StringHashMap;
use vstd::prelude::*;

verus! {

/// An instantiated cell: the name of the module type it instantiates.
pub struct Cell {
    pub cell_type: String,
}

/// A module definition: its cells, by instance name.
pub struct Module {
    pub cells: StringHashMap<Cell>,
}

/// A structural netlist: its module definitions, by type name.
pub struct Netlist {
    pub modules: StringHashMap<Module>,
}

/// Why a cell of a module could not be resolved to a module definition.
#[derive(Copy, Clone, Debug, PartialEq, Eq, Structural)]
pub enum ModuleLookupError {
    /// The module declares no cell of that name.
    CellNotFound,
    /// The cell is declared, but the netlist defines no module of its type.
    ModuleUndefined,
}

/// What resolving the cell `cell_name` of `module` against `netlist` yields.
pub open spec fn module_of_cell<'n>(
    module: &Module,
    netlist: &'n Netlist,
    cell_name: Seq<char>,
) -> Result<&'n Module, ModuleLookupError> {
    if !module.cells@.contains_key(cell_name) {
        Err(ModuleLookupError::CellNotFound)
    } else if !netlist.modules@.contains_key(module.cells@[cell_name].cell_type@) {
        Err(ModuleLookupError::ModuleUndefined)
    } else {
        Ok(&netlist.modules@[module.cells@[cell_name].cell_type@])
    }
}

impl Cell {
    /// The module definition that this cell instantiates, if the netlist has one.
    pub fn get_module<'n>(&self, netlist: &'n Netlist) -> (module: Option<&'n Module>)
        ensures
            module == (if netlist.modules@.contains_key(self.cell_type@) {
                Some(&netlist.modules@[self.cell_type@])
            } else {
                None
            }),
    {
        netlist.modules.get(self.cell_type.as_str())
    }
}

impl Netlist {
    /// A netlist without modules.
    pub fn new() -> (netlist: Self)
        ensures
            netlist.modules@ == Map::<Seq<char>, Module>::empty(),
    {
        Netlist { modules: StringHashMap::new() }
    }

    /// Defines the module type `name` as `module`, in place of an earlier definition if
    /// there is one.
    pub fn add_module(&mut self, name: String, module: Module)
        ensures
            final(self).modules@ == old(self).modules@.insert(name@, module),
    {
        self.modules.insert(name, module);
    }
}

impl Module {
    /// A module without cells.
    pub fn new() -> (module: Self)
        ensures
            module.cells@ == Map::<Seq<char>, Cell>::empty(),
    {
        Module { cells: StringHashMap::new() }
    }

    /// Declares the cell instance `name` as `cell`, in place of an earlier declaration if
    /// there is one.
    pub fn add_cell(&mut self, name: String, cell: Cell)
        ensures
            final(self).cells@ == old(self).cells@.insert(name@, cell),
    {
        self.cells.insert(name, cell);
    }

    /// Resolves the cell instance `cell_name` of this module to the module that it
    /// instantiates. A cell that the module does not declare is `CellNotFound`; a declared
    /// cell whose type the netlist does not define is `ModuleUndefined`.
    pub fn get_module_of_cell<'s>(&self, netlist: &'s Netlist, cell_name: &str) -> (result: Result<
        &'s Module,
        ModuleLookupError,
    >)
        ensures
            result == module_of_cell(self, netlist, cell_name@),
    {
        match self.cells.get(cell_name) {
            None => Err(ModuleLookupError::CellNotFound),
            Some(cell) => match cell.get_module(netlist) {
                None => Err(ModuleLookupError::ModuleUndefined),
                Some(module) => Ok(module),
            },
        }
    }
}

} // verus!
