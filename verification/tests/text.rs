use trace2power::exporters::ExportError;
use trace2power::hierarchy::{get_scope_by_full_name, scope_var_refs, split_on, VarRefsIter};
use trace2power::output_format::OutputFormat;
use trace2power::text::{
    push_decimal, push_indent, push_joined, push_replaced, push_signed_decimal, reads, same_texts,
};
use trace2power::waveform::{bit_name, indexed_name, Hierarchy, Net, NetIndex, Scope};

fn decimal(n: u64) -> String {
    let mut out = String::from("n=");
    push_decimal(&mut out, n);
    out
}

fn signed(n: i64) -> String {
    let mut out = String::new();
    push_signed_decimal(&mut out, n);
    out
}

fn strings(names: &[&str]) -> Vec<String> {
    names.iter().map(|name| name.to_string()).collect()
}

fn net(name: &str, number: usize) -> Net {
    Net { name: name.to_string(), index: None, var: number, signal: number }
}

fn scope(name: &str, nets: Vec<Net>, scopes: Vec<Scope>) -> Scope {
    Scope { name: name.to_string(), nets, scopes }
}

fn tree() -> Hierarchy {
    let c = scope("c", vec![net("n4", 4)], vec![]);
    let b = scope("b", vec![net("n2", 2), net("n3", 3)], vec![c]);
    let b_again = scope("b", vec![net("n5", 5)], vec![scope("d", vec![], vec![])]);
    let a = scope("a", vec![net("n1", 1)], vec![b, b_again]);
    let e = scope("e", vec![net("n6", 6)], vec![]);
    Hierarchy { nets: vec![net("n0", 0)], scopes: vec![a, e] }
}

#[test]
fn decimal_numerals() {
    assert_eq!(decimal(0), "n=0");
    assert_eq!(decimal(7), "n=7");
    assert_eq!(decimal(10), "n=10");
    assert_eq!(decimal(1234567890), "n=1234567890");
    assert_eq!(decimal(u64::MAX), "n=18446744073709551615");
}

#[test]
fn signed_decimal_numerals() {
    assert_eq!(signed(0), "0");
    assert_eq!(signed(42), "42");
    assert_eq!(signed(-1), "-1");
    assert_eq!(signed(-305), "-305");
    assert_eq!(signed(i64::MAX), "9223372036854775807");
    assert_eq!(signed(i64::MIN), "-9223372036854775808");
}

#[test]
fn replacing_characters() {
    let mut out = String::from(">");
    push_replaced(&mut out, "a[1][2]", '[', "\\[");
    assert_eq!(out, ">a\\[1]\\[2]");
    let mut out = String::new();
    push_replaced(&mut out, "a\\b\\", '\\', "");
    assert_eq!(out, "ab");
    let mut out = String::new();
    push_replaced(&mut out, "", 'x', "y");
    assert_eq!(out, "");
    let mut out = String::new();
    push_replaced(&mut out, "häx", 'x', "xx");
    assert_eq!(out, "häxx");
}

#[test]
fn indentation_is_two_blanks_per_level() {
    let mut out = String::from("|");
    push_indent(&mut out, 0);
    assert_eq!(out, "|");
    push_indent(&mut out, 3);
    assert_eq!(out, "|      ");
}

#[test]
fn joining_names() {
    let mut out = String::from(":");
    push_joined(&mut out, &strings(&[]), ".");
    assert_eq!(out, ":");
    push_joined(&mut out, &strings(&["a"]), ".");
    assert_eq!(out, ":a");
    let mut out = String::new();
    push_joined(&mut out, &strings(&["a", "", "c"]), ", ");
    assert_eq!(out, "a, , c");
}

#[test]
fn comparing_names() {
    assert!(reads(&"VGND".to_string(), "VGND"));
    assert!(!reads(&"VGND".to_string(), "VGN"));
    assert!(same_texts(&strings(&["a", "b"]), &strings(&["a", "b"])));
    assert!(!same_texts(&strings(&["a", "b"]), &strings(&["a"])));
    assert!(!same_texts(&strings(&["a", "b"]), &strings(&["a", "c"])));
    assert!(same_texts(&strings(&[]), &strings(&[])));
}

#[test]
fn splitting_at_dots() {
    assert_eq!(split_on("a.b.c", '.'), strings(&["a", "b", "c"]));
    assert_eq!(split_on("abc", '.'), strings(&["abc"]));
    assert_eq!(split_on("", '.'), strings(&[""]));
    assert_eq!(split_on(".a..", '.'), strings(&["", "a", "", ""]));
}

#[test]
fn names_of_nets_and_bits() {
    let mut variable = net("data", 0);
    assert_eq!(indexed_name("data".to_string(), &variable), "data");
    variable.index = Some(NetIndex { msb: 7, lsb: 4 });
    assert_eq!(indexed_name("data".to_string(), &variable), "data[4]");
    variable.index = Some(NetIndex { msb: 0, lsb: -2 });
    assert_eq!(indexed_name("top.data".to_string(), &variable), "top.data[-2]");
    assert_eq!(bit_name("bus", 0), "bus[0]");
    assert_eq!(bit_name("bus", 31), "bus[31]");
}

#[test]
fn scopes_are_found_by_full_name() {
    let hier = tree();
    assert_eq!(get_scope_by_full_name(&hier, "a"), Some(vec![0]));
    assert_eq!(get_scope_by_full_name(&hier, "e"), Some(vec![1]));
    // Of two scopes of one name the first is taken.
    assert_eq!(get_scope_by_full_name(&hier, "a.b"), Some(vec![0, 0]));
    assert_eq!(get_scope_by_full_name(&hier, "a.b.c"), Some(vec![0, 0, 0]));
    assert_eq!(get_scope_by_full_name(&hier, "a.b.d"), None);
    assert_eq!(get_scope_by_full_name(&hier, "b"), None);
    assert_eq!(get_scope_by_full_name(&hier, ""), None);
    assert_eq!(get_scope_by_full_name(&hier, "a."), None);
    assert_eq!(hier.lookup_scope(&strings(&[])), None);
    assert_eq!(hier.lookup_scope(&strings(&["a", "b"])), Some(vec![0, 0]));
}

#[test]
fn scopes_are_reached_by_steps() {
    let hier = tree();
    assert_eq!(hier.scope(&vec![0, 1]).unwrap().nets[0].name, "n5");
    assert_eq!(hier.scope(&vec![1]).unwrap().name, "e");
    assert!(hier.scope(&vec![]).is_none());
    assert!(hier.scope(&vec![2]).is_none());
    assert!(hier.scope(&vec![0, 0, 0, 0]).is_none());
    assert_eq!(hier.scope_names(&vec![0, 1, 0]), Some(strings(&["a", "b", "d"])));
    assert_eq!(hier.scope_names(&vec![]), Some(strings(&[])));
    assert_eq!(hier.scope_names(&vec![0, 2]), None);
}

#[test]
fn all_nets_are_listed_depth_first() {
    let hier = tree();
    let names: Vec<&str> = hier.var_refs_iter().iter().map(|net| net.name.as_str()).collect();
    assert_eq!(names, vec!["n0", "n1", "n2", "n3", "n4", "n5", "n6"]);
    let below: Vec<usize> = scope_var_refs(&hier.scopes[0].scopes[0]).iter().map(|net| net.var).collect();
    assert_eq!(below, vec![2, 3, 4]);
}

#[test]
fn output_formats_are_read_in_any_case() {
    assert_eq!(OutputFormat::from_str("tcl"), Ok(OutputFormat::Tcl));
    assert_eq!(OutputFormat::from_str("TCL"), Ok(OutputFormat::Tcl));
    assert_eq!(OutputFormat::from_str("Saif"), Ok(OutputFormat::Saif));
    assert_eq!(OutputFormat::from_str("vcd"), Err(ExportError::UnknownFormat));
    assert_eq!(OutputFormat::from_str(""), Err(ExportError::UnknownFormat));
    assert_eq!(OutputFormat::from_lowercase("saif"), Ok(OutputFormat::Saif));
    assert_eq!(OutputFormat::from_lowercase("SAIF"), Err(ExportError::UnknownFormat));
}
