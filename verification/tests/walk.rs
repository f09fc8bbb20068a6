use trace2power::context::{build_table, count_windows};
use trace2power::exporters::saif::{write_lines, DisplayTimescaleUnit, SaifAgent, SaifLine};
use trace2power::exporters::tcl::{TclAgent, TclStat};
use trace2power::exporters::{
    get_child_module_reference, visit_hierarchy, visit_scope, ExportError, LookupPoint, ModuleRef,
    TraceVisitCtx, TraceVisitorAgent,
};
use trace2power::netlist::{Cell, Module, Netlist};
use trace2power::stats::{PackedStats, SignalStats};
use trace2power::waveform::{
    Hierarchy, Logic, Net, Sample, Scope, Signal, Timescale, TimescaleUnit, Waveform,
};

fn strings(names: &[&str]) -> Vec<String> {
    names.iter().map(|name| name.to_string()).collect()
}

fn net(name: &str, number: usize) -> Net {
    Net { name: name.to_string(), index: None, var: number, signal: number }
}

fn scope(name: &str, nets: Vec<Net>, scopes: Vec<Scope>) -> Scope {
    Scope { name: name.to_string(), nets, scopes }
}

fn stat(high_time: u64, clean: u64) -> SignalStats {
    SignalStats {
        trans_count_doubled: 2 * clean,
        clean_trans_count: clean,
        glitch_trans_count: 0,
        high_time,
        low_time: 100 - high_time,
        x_time: 0,
        z_time: 0,
    }
}

fn netlist() -> Netlist {
    let mut top = Module::new();
    top.add_cell("u1".to_string(), Cell { cell_type: "inv".to_string() });
    top.add_cell("u2".to_string(), Cell { cell_type: "sub".to_string() });
    let mut netlist = Netlist::new();
    netlist.add_module("top_mod".to_string(), top);
    netlist.add_module("sub".to_string(), Module::new());
    netlist
}

fn settings<'n>(netlist: Option<&'n Netlist>, root: &[&str]) -> TraceVisitCtx<'n> {
    TraceVisitCtx {
        netlist_root: strings(root),
        top_module: "top_mod".to_string(),
        netlist,
        blackboxes_only: false,
        remove_virtual_pins: false,
    }
}

fn kind(module: Result<ModuleRef, ExportError>) -> &'static str {
    match module {
        Ok(ModuleRef::OutsideNetlist) => "outside",
        Ok(ModuleRef::Netlist(_)) => "netlist",
        Ok(ModuleRef::BlackBox) => "black box",
        Err(ExportError::TopModuleNotFound) => "no top module",
        Err(ExportError::CellNotFound) => "no cell",
        Err(ExportError::BlackBoxDescent) => "below black box",
        Err(_) => "other error",
    }
}

fn text_of(lines: &Vec<SaifLine>, indent: usize) -> String {
    let mut out = String::new();
    write_lines(&mut out, lines, indent);
    out
}

#[test]
fn module_reference_without_netlist_is_outside() {
    let ctx = settings(None, &["tb"]);
    let tb = scope("tb", vec![], vec![]);
    assert_eq!(
        kind(get_child_module_reference(&ctx, &strings(&["tb"]), &tb, ModuleRef::OutsideNetlist)),
        "outside"
    );
    assert_eq!(
        kind(get_child_module_reference(&ctx, &strings(&["tb"]), &tb, ModuleRef::BlackBox)),
        "outside"
    );
}

#[test]
fn module_reference_follows_the_netlist() {
    let netlist = netlist();
    let ctx = settings(Some(&netlist), &["tb", "dut"]);
    let dut = scope("dut", vec![], vec![]);
    let outside = ModuleRef::OutsideNetlist;
    assert_eq!(kind(get_child_module_reference(&ctx, &strings(&["tb"]), &dut, outside)), "outside");
    assert_eq!(
        kind(get_child_module_reference(&ctx, &strings(&["tb", "dut"]), &dut, outside)),
        "netlist"
    );
    assert_eq!(
        kind(get_child_module_reference(&ctx, &strings(&["tb", "dut", "x"]), &dut, outside)),
        "outside"
    );
    let top = match get_child_module_reference(&ctx, &strings(&["tb", "dut"]), &dut, outside) {
        Ok(module) => module,
        Err(_) => panic!("not resolved"),
    };
    let path = strings(&["tb", "dut", "u"]);
    assert_eq!(kind(get_child_module_reference(&ctx, &path, &scope("u1", vec![], vec![]), top)), "black box");
    assert_eq!(kind(get_child_module_reference(&ctx, &path, &scope("u2", vec![], vec![]), top)), "netlist");
    assert_eq!(kind(get_child_module_reference(&ctx, &path, &scope("u3", vec![], vec![]), top)), "no cell");
    assert_eq!(
        kind(get_child_module_reference(&ctx, &path, &scope("u1", vec![], vec![]), ModuleRef::BlackBox)),
        "below black box"
    );
}

#[test]
fn empty_root_matches_no_scope() {
    let netlist = netlist();
    let ctx = settings(Some(&netlist), &[]);
    let tb = scope("tb", vec![], vec![]);
    assert_eq!(
        kind(get_child_module_reference(&ctx, &strings(&["tb"]), &tb, ModuleRef::OutsideNetlist)),
        "outside"
    );
}

#[test]
fn missing_top_module_is_an_error() {
    let netlist = netlist();
    let mut ctx = settings(Some(&netlist), &["tb"]);
    ctx.top_module = "other".to_string();
    let tb = scope("tb", vec![], vec![]);
    assert_eq!(
        kind(get_child_module_reference(&ctx, &strings(&["tb"]), &tb, ModuleRef::OutsideNetlist)),
        "no top module"
    );
}

#[test]
fn instances_open_only_for_records() {
    // a { (no nets) b { n0 } c { } } with a table that holds a record for n0 only.
    let tree = scope(
        "a",
        vec![],
        vec![scope("b", vec![net("n0", 0)], vec![]), scope("c", vec![net("n1", 1)], vec![])],
    );
    let table = vec![vec![PackedStats::OneBit(stat(40, 1))], vec![PackedStats::Vector(vec![])]];
    let ctx = settings(None, &[]);
    let mut agent = SaifAgent::new(&table, 0);
    let mut prefix = Vec::new();
    assert_eq!(visit_scope(&mut agent, &ctx, &mut prefix, &tree, ModuleRef::OutsideNetlist), Ok(()));
    assert!(prefix.is_empty());
    assert!(agent.scope_ctx.is_empty());
    assert_eq!(
        text_of(&agent.lines, 0),
        "(INSTANCE a\n  (INSTANCE b\n    (NET\n      (n0 (T0 60) (T1 40) (TX 0) (TZ 0) (TC 1) (IG 0))\n    )\n  )\n)\n"
    );
    assert!(agent.glitches.is_empty());
}

#[test]
fn scopes_without_records_write_nothing() {
    let tree = scope("a", vec![net("n1", 1)], vec![scope("b", vec![], vec![scope("c", vec![], vec![])])]);
    let table = vec![vec![], vec![PackedStats::Vector(vec![])]];
    let ctx = settings(None, &[]);
    let mut agent = SaifAgent::new(&table, 0);
    let mut prefix = strings(&["tb"]);
    assert_eq!(visit_scope(&mut agent, &ctx, &mut prefix, &tree, ModuleRef::OutsideNetlist), Ok(()));
    assert_eq!(prefix, strings(&["tb"]));
    assert!(agent.lines.is_empty());
}

#[test]
fn agent_steps_one_by_one() {
    let table = vec![vec![PackedStats::Vector(vec![stat(10, 0), stat(20, 2)])]];
    let mut agent = SaifAgent::new(&table, 0);
    let outer = scope("outer", vec![], vec![]);
    let inner = scope("in[1]", vec![], vec![]);
    assert_eq!(agent.enter_scope(&outer), Ok(()));
    assert_eq!(agent.end_nets(), Ok(()));
    assert_eq!(agent.enter_scope(&inner), Ok(()));
    assert!(agent.lines.is_empty());
    assert_eq!(agent.scope_ctx.len(), 2);
    assert_eq!(agent.scope_ctx[1].name_escaped, "in\\[1\\]");
    assert!(agent.scope_ctx[1].instance_empty);
    assert_eq!(agent.enter_net(&net("bus", 0)), Ok(()));
    assert_eq!(agent.lines.len(), 5);
    assert!(!agent.scope_ctx[0].instance_empty);
    assert!(!agent.scope_ctx[1].instance_empty);
    assert_eq!(agent.enter_net(&net("bus", 0)), Ok(()));
    assert_eq!(agent.lines.len(), 7);
    assert_eq!(agent.enter_net(&net("none", 1)), Err(ExportError::MissingStats));
    assert_eq!(agent.end_nets(), Ok(()));
    assert_eq!(agent.end_scopes(), Ok(()));
    assert_eq!(agent.exit_scope(&inner), Ok(()));
    assert_eq!(agent.end_scopes(), Ok(()));
    assert_eq!(agent.exit_scope(&outer), Ok(()));
    // Leaving once more than entering changes nothing.
    assert_eq!(agent.exit_scope(&outer), Ok(()));
    assert_eq!(agent.glitches, strings(&["bus[1]", "bus[1]"]));
    let record0 = "(bus[0] (T0 90) (T1 10) (TX 0) (TZ 0) (TC 0) (IG 0))\n";
    let record1 = "(bus[1] (T0 80) (T1 20) (TX 0) (TZ 0) (TC 2) (IG 0))\n";
    let expected = format!(
        "  (INSTANCE outer\n    (INSTANCE in\\[1\\]\n      (NET\n        {r0}        {r1}        {r0}        {r1}      )\n    )\n  )\n",
        r0 = record0,
        r1 = record1
    );
    assert_eq!(text_of(&agent.lines, 1), expected);
}

#[test]
fn closing_line_never_goes_left_of_the_margin() {
    let lines = vec![SaifLine::Close, SaifLine::Net, SaifLine::Close, SaifLine::Close];
    assert_eq!(text_of(&lines, 0), ")\n(NET\n)\n)\n");
    assert_eq!(text_of(&lines, 1), ")\n(NET\n)\n)\n");
    assert_eq!(text_of(&lines, 2), "  )\n  (NET\n  )\n)\n");
    assert_eq!(text_of(&Vec::new(), 3), "");
}

#[test]
fn tcl_agent_groups_in_order_of_first_appearance() {
    let table = vec![
        vec![PackedStats::OneBit(stat(10, 1))],
        vec![PackedStats::OneBit(stat(20, 1))],
        vec![PackedStats::Vector(vec![stat(10, 1), stat(30, 0), stat(20, 1)])],
    ];
    let tree = scope(
        "a",
        vec![net("x", 0), net("y", 1)],
        vec![scope("b", vec![net("v", 2)], vec![])],
    );
    let hier = Hierarchy { nets: vec![], scopes: vec![tree] };
    let ctx = settings(None, &[]);
    let mut agent = TclAgent::new(&table, 0);
    assert_eq!(visit_hierarchy(&mut agent, &LookupPoint::Top, &hier, &ctx), Ok(()));
    assert!(agent.scope.is_empty());
    let groups: Vec<(u64, u64, Vec<String>)> = agent
        .grouped_stats
        .iter()
        .map(|group| (group.stat.high_time, group.stat.trans_count_doubled, group.pins.clone()))
        .collect();
    assert_eq!(
        groups,
        vec![
            (10, 2, strings(&["a/x", "a.b/v[0]"])),
            (20, 2, strings(&["a/y", "a.b/v[2]"])),
            (30, 0, strings(&["a.b/v[1]"])),
        ]
    );
    let mut agent = TclAgent::new(&table, 0);
    assert_eq!(
        visit_hierarchy(&mut agent, &LookupPoint::Scope(vec![0, 0]), &hier, &ctx),
        Ok(())
    );
    assert_eq!(agent.grouped_stats.len(), 3);
    assert_eq!(agent.grouped_stats[0].pins, strings(&["b/v[0]"]));
    let mut agent = TclAgent::new(&table, 1);
    assert_eq!(
        visit_hierarchy(&mut agent, &LookupPoint::Top, &hier, &ctx),
        Err(ExportError::MissingStats)
    );
}

#[test]
fn tcl_stat_is_taken_from_signal_stats() {
    let from = TclStat::from(&stat(33, 4));
    assert_eq!(from, TclStat { high_time: 33, trans_count_doubled: 8 });
}

#[test]
fn timescale_units_have_suffix_and_exponent() {
    assert_eq!(DisplayTimescaleUnit(TimescaleUnit::FemtoSeconds).fmt(), Some("fs"));
    assert_eq!(DisplayTimescaleUnit(TimescaleUnit::Seconds).fmt(), Some("s"));
    assert_eq!(DisplayTimescaleUnit(TimescaleUnit::Unknown).fmt(), None);
    assert_eq!(TimescaleUnit::FemtoSeconds.to_exponent(), Some(-15));
    assert_eq!(TimescaleUnit::PicoSeconds.to_exponent(), Some(-12));
    assert_eq!(TimescaleUnit::NanoSeconds.to_exponent(), Some(-9));
    assert_eq!(TimescaleUnit::MicroSeconds.to_exponent(), Some(-6));
    assert_eq!(TimescaleUnit::MilliSeconds.to_exponent(), Some(-3));
    assert_eq!(TimescaleUnit::Seconds.to_exponent(), Some(0));
    assert_eq!(TimescaleUnit::Unknown.to_exponent(), None);
}

#[test]
fn windows_are_counted() {
    assert_eq!(count_windows(100, None), Ok(1));
    assert_eq!(count_windows(100, Some(100)), Ok(1));
    assert_eq!(count_windows(100, Some(10)), Ok(10));
    assert_eq!(count_windows(100, Some(30)), Ok(3));
    assert_eq!(count_windows(100, Some(51)), Ok(1));
    assert_eq!(count_windows(100, Some(0)), Err(ExportError::InvalidSpan));
    assert_eq!(count_windows(100, Some(101)), Err(ExportError::InvalidSpan));
    assert_eq!(count_windows(0, None), Err(ExportError::InvalidSpan));
    assert_eq!(count_windows(u64::MAX, Some(u64::MAX)), Err(ExportError::InvalidSpan));
    assert_eq!(count_windows(u64::MAX, Some(1 << 62)), Ok(3));
    assert_eq!(count_windows(i64::MAX as u64, None), Ok(1));
}

#[test]
fn table_is_keyed_by_net_number() {
    let sample = |time: u64, bit: Logic| Sample { time, bits: vec![bit] };
    let wave = Waveform {
        hierarchy: Hierarchy { nets: vec![], scopes: vec![] },
        signals: vec![
            Signal::BitVector(vec![sample(0, Logic::Zero), sample(4, Logic::One)]),
            Signal::Real,
        ],
        timescale: Some(Timescale { factor: 1, unit: TimescaleUnit::NanoSeconds }),
        end_time: 10,
    };
    let far = Net { name: "far".to_string(), index: None, var: 3, signal: 0 };
    let real = Net { name: "real".to_string(), index: None, var: 1, signal: 1 };
    let again = Net { name: "again".to_string(), index: None, var: 3, signal: 1 };
    let table = match build_table(&wave, &vec![&far, &real], false, None, 2) {
        Ok(table) => table,
        Err(e) => panic!("no table: {:?}", e),
    };
    assert_eq!(table.len(), 4);
    assert!(table[0].is_empty());
    assert_eq!(table[1], vec![PackedStats::Vector(vec![]), PackedStats::Vector(vec![])]);
    assert!(table[2].is_empty());
    assert_eq!(table[3].len(), 2);
    match &table[3][0] {
        PackedStats::OneBit(stat) => assert_eq!((stat.low_time, stat.high_time), (4, 1)),
        PackedStats::Vector(_) => panic!("a vector"),
    }
    match &table[3][1] {
        PackedStats::OneBit(stat) => assert_eq!((stat.low_time, stat.high_time), (0, 5)),
        PackedStats::Vector(_) => panic!("a vector"),
    }
    // Of two nets with one number the later one counts.
    let table = match build_table(&wave, &vec![&far, &again], false, None, 1) {
        Ok(table) => table,
        Err(e) => panic!("no table: {:?}", e),
    };
    assert_eq!(table[3], vec![PackedStats::Vector(vec![])]);
    let lost = Net { name: "lost".to_string(), index: None, var: 0, signal: 2 };
    assert_eq!(
        build_table(&wave, &vec![&far, &lost], false, None, 1),
        Err(ExportError::SignalNotFound)
    );
}

#[test]
fn failed_step_leaves_the_agent_as_it_was() {
    let table = vec![vec![PackedStats::OneBit(stat(40, 1))]];
    let mut agent = SaifAgent::new(&table, 0);
    assert_eq!(agent.enter_scope(&scope("a", vec![], vec![])), Ok(()));
    assert_eq!(agent.enter_net(&net("n0", 0)), Ok(()));
    assert_eq!(agent.lines.len(), 3);
    assert_eq!(agent.enter_net(&net("n1", 1)), Err(ExportError::MissingStats));
    assert_eq!(agent.lines.len(), 3);
    assert_eq!(agent.scope_ctx.len(), 1);
    assert!(agent.glitches.is_empty());
    let mut agent = TclAgent::new(&table, 1);
    assert_eq!(agent.enter_scope(&scope("a", vec![], vec![])), Ok(()));
    assert_eq!(agent.enter_net(&net("n0", 0)), Err(ExportError::MissingStats));
    assert!(agent.grouped_stats.is_empty());
    assert_eq!(agent.scope, strings(&["a"]));
}

#[test]
fn nothing_is_told_after_a_failure() {
    // a { n0; b { n1 (no statistics) }; c { n0 } }
    let tree = scope(
        "a",
        vec![net("n0", 0)],
        vec![scope("b", vec![net("n1", 1)], vec![]), scope("c", vec![net("n0", 0)], vec![])],
    );
    let table = vec![vec![PackedStats::OneBit(stat(40, 1))]];
    let ctx = settings(None, &[]);
    let mut agent = SaifAgent::new(&table, 0);
    let mut prefix = strings(&["tb"]);
    assert_eq!(
        visit_scope(&mut agent, &ctx, &mut prefix, &tree, ModuleRef::OutsideNetlist),
        Err(ExportError::MissingStats)
    );
    // The path is as it was, and the agent is where the failing net left it: inside a and
    // b, with the nets of a written and closed, and no scope left.
    assert_eq!(prefix, strings(&["tb"]));
    assert_eq!(agent.scope_ctx.len(), 2);
    assert_eq!(agent.scope_ctx[0].name_escaped, "a");
    assert_eq!(agent.scope_ctx[1].name_escaped, "b");
    assert!(agent.scope_ctx[1].instance_empty);
    assert_eq!(
        text_of(&agent.lines, 0),
        "(INSTANCE a\n  (NET\n    (n0 (T0 60) (T1 40) (TX 0) (TZ 0) (TC 1) (IG 0))\n  )\n"
    );
    let mut agent = TclAgent::new(&table, 0);
    let hier = Hierarchy { nets: vec![], scopes: vec![tree] };
    assert_eq!(
        visit_hierarchy(&mut agent, &LookupPoint::Top, &hier, &ctx),
        Err(ExportError::MissingStats)
    );
    assert_eq!(agent.scope, strings(&["a", "b"]));
    assert_eq!(agent.grouped_stats.len(), 1);
    assert_eq!(agent.grouped_stats[0].pins, strings(&["a/n0"]));
}
