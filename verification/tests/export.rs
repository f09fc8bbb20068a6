use trace2power::context::{Args, Context};
use trace2power::exporters::saif::{export, export_dated};
use trace2power::exporters::tcl;
use trace2power::exporters::{ExportError, LookupPoint};
use trace2power::netlist::{Cell, Module, Netlist};
use trace2power::waveform::{
    Hierarchy, Logic, Net, NetIndex, Sample, Scope, Signal, Timescale, TimescaleUnit, Waveform,
};

fn bits(text: &str) -> Vec<Logic> {
    text.chars().map(|c| Logic::from_char(c).unwrap()).collect()
}

fn signal(points: &[(u64, &str)]) -> Signal {
    Signal::BitVector(
        points.iter().map(|(time, value)| Sample { time: *time, bits: bits(value) }).collect(),
    )
}

fn net(name: &str, number: usize) -> Net {
    Net { name: name.to_string(), index: None, var: number, signal: number }
}

fn scope(name: &str, nets: Vec<Net>, scopes: Vec<Scope>) -> Scope {
    Scope { name: name.to_string(), nets, scopes }
}

/// tb { clk; dut { a[3], bus[1:0]; u1 { A, Y, VGND, VPWR; inner { n } }; u2 { } } }
fn design() -> Waveform {
    let mut a = net("a", 1);
    a.index = Some(NetIndex { msb: 3, lsb: 3 });
    let mut bus = net("bus", 2);
    bus.index = Some(NetIndex { msb: 1, lsb: 0 });
    let inner = scope("inner", vec![net("n", 7)], vec![]);
    let u1 = scope(
        "u1",
        vec![net("A", 3), net("Y", 4), net("VGND", 5), net("VPWR", 6)],
        vec![inner],
    );
    let u2 = scope("u2", vec![], vec![]);
    let dut = scope("dut", vec![a, bus], vec![u1, u2]);
    let tb = scope("tb", vec![net("clk", 0)], vec![dut]);
    Waveform {
        hierarchy: Hierarchy { nets: vec![], scopes: vec![tb] },
        signals: vec![
            signal(&[(0, "0"), (10, "1"), (20, "0")]),
            signal(&[(0, "1")]),
            signal(&[(0, "01"), (15, "11")]),
            signal(&[(0, "0")]),
            signal(&[(0, "1")]),
            signal(&[(0, "0")]),
            signal(&[(0, "1")]),
            signal(&[(0, "x")]),
        ],
        timescale: Some(Timescale { factor: 1, unit: TimescaleUnit::NanoSeconds }),
        end_time: 30,
    }
}

/// top_mod { u1: inv (not defined), u2: sub }, sub { }
fn netlist() -> Netlist {
    let mut top = Module::new();
    top.add_cell("u1".to_string(), Cell { cell_type: "inv".to_string() });
    top.add_cell("u2".to_string(), Cell { cell_type: "sub".to_string() });
    let mut netlist = Netlist::new();
    netlist.add_module("top_mod".to_string(), top);
    netlist.add_module("sub".to_string(), Module::new());
    netlist
}

fn plain_args() -> Args {
    Args {
        limit_scope: None,
        top: None,
        top_scope: None,
        blackboxes_only: false,
        remove_virtual_pins: false,
        span: None,
        glitches_only: false,
        clk_signal: None,
    }
}

fn netlist_args() -> Args {
    let mut args = plain_args();
    args.top = Some("top_mod".to_string());
    args.top_scope = Some("tb.dut".to_string());
    args
}

fn build(wave: Waveform, netlist: Option<Netlist>, args: &Args) -> Context {
    match Context::build_from_args(wave, netlist, args) {
        Ok(ctx) => ctx,
        Err(e) => panic!("no context: {:?}", e),
    }
}

fn build_error(wave: Waveform, netlist: Option<Netlist>, args: &Args) -> ExportError {
    match Context::build_from_args(wave, netlist, args) {
        Ok(_) => panic!("a context"),
        Err(e) => e,
    }
}

fn saif(ctx: &Context, iteration: usize) -> String {
    match export_dated(ctx, "trace2power", "0.1.0", "Mon Jan 1 00:00:00 2024", iteration) {
        Ok(report) => report.text,
        Err(e) => panic!("no report: {:?}", e),
    }
}

fn saif_error(ctx: &Context, iteration: usize) -> ExportError {
    match export_dated(ctx, "trace2power", "0.1.0", "Mon Jan 1 00:00:00 2024", iteration) {
        Ok(_) => panic!("a report"),
        Err(e) => e,
    }
}

fn header(duration: u64) -> String {
    format!(
        "(SAIFILE\n  (SAIFVERSION \"2.0\")\n  (DIRECTION \"backward\")\n  (DESIGN )\n  (DATE \"Mon Jan 1 00:00:00 2024\")\n  (PROGRAM_NAME \"trace2power\")\n  (VERSION \"0.1.0\")\n  (DIVIDER / )\n  (TIMESCALE 1ns)\n  (DURATION {})\n",
        duration
    )
}

fn record(indent: usize, name: &str, t0: u64, t1: u64, tx: u64, tc: u64) -> String {
    format!(
        "{}({} (T0 {}) (T1 {}) (TX {}) (TZ 0) (TC {}) (IG 0))\n",
        "  ".repeat(indent),
        name,
        t0,
        t1,
        tx,
        tc
    )
}

fn tcl_entries(ctx: &Context, iteration: usize) -> Vec<(u64, u64, String)> {
    match tcl::export(ctx, iteration) {
        Ok(report) => report
            .entries
            .into_iter()
            .map(|entry| (entry.stat.high_time, entry.stat.trans_count_doubled, entry.pins))
            .collect(),
        Err(e) => panic!("no report: {:?}", e),
    }
}

#[test]
fn saif_of_whole_hierarchy_without_netlist() {
    let ctx = build(design(), None, &plain_args());
    let expected = header(30)
        + "  (INSTANCE tb\n"
        + "    (NET\n"
        + &record(3, "clk", 20, 10, 0, 2)
        + "    )\n"
        + "    (INSTANCE dut\n"
        + "      (NET\n"
        + &record(4, "a[3]", 0, 30, 0, 0)
        + &record(4, "bus[0]", 0, 30, 0, 0)
        + &record(4, "bus[1]", 15, 15, 0, 1)
        + "      )\n"
        + "      (INSTANCE u1\n"
        + "        (NET\n"
        + &record(5, "A", 30, 0, 0, 0)
        + &record(5, "Y", 0, 30, 0, 0)
        + &record(5, "VGND", 30, 0, 0, 0)
        + &record(5, "VPWR", 0, 30, 0, 0)
        + "        )\n"
        + "        (INSTANCE inner\n"
        + "          (NET\n"
        + &record(6, "n", 0, 0, 30, 0)
        + "          )\n"
        + "        )\n"
        + "      )\n"
        + "    )\n"
        + "  )\n"
        + ")\n";
    assert_eq!(saif(&ctx, 0), expected);
}

#[test]
fn saif_with_netlist_does_not_descend_black_boxes() {
    let ctx = build(design(), Some(netlist()), &netlist_args());
    let text = saif(&ctx, 0);
    assert!(text.contains("(INSTANCE u1\n"));
    assert!(!text.contains("inner"));
    assert!(!text.contains("u2"));
    let expected = header(30)
        + "  (INSTANCE tb\n"
        + "    (NET\n"
        + &record(3, "clk", 20, 10, 0, 2)
        + "    )\n"
        + "    (INSTANCE dut\n"
        + "      (NET\n"
        + &record(4, "a[3]", 0, 30, 0, 0)
        + &record(4, "bus[0]", 0, 30, 0, 0)
        + &record(4, "bus[1]", 15, 15, 0, 1)
        + "      )\n"
        + "      (INSTANCE u1\n"
        + "        (NET\n"
        + &record(5, "A", 30, 0, 0, 0)
        + &record(5, "Y", 0, 30, 0, 0)
        + &record(5, "VGND", 30, 0, 0, 0)
        + &record(5, "VPWR", 0, 30, 0, 0)
        + "        )\n"
        + "      )\n"
        + "    )\n"
        + "  )\n"
        + ")\n";
    assert_eq!(text, expected);
}

#[test]
fn blackboxes_only_emits_only_the_unresolved_instance() {
    let mut args = netlist_args();
    args.blackboxes_only = true;
    let ctx = build(design(), Some(netlist()), &args);
    let expected = header(30)
        + "  (INSTANCE tb\n"
        + "    (INSTANCE dut\n"
        + "      (INSTANCE u1\n"
        + "        (NET\n"
        + &record(5, "A", 30, 0, 0, 0)
        + &record(5, "Y", 0, 30, 0, 0)
        + &record(5, "VGND", 30, 0, 0, 0)
        + &record(5, "VPWR", 0, 30, 0, 0)
        + "        )\n"
        + "      )\n"
        + "    )\n"
        + "  )\n"
        + ")\n";
    assert_eq!(saif(&ctx, 0), expected);
}

#[test]
fn virtual_pins_are_removed_from_black_boxes_only() {
    let mut args = netlist_args();
    args.blackboxes_only = true;
    args.remove_virtual_pins = true;
    let ctx = build(design(), Some(netlist()), &args);
    let expected = header(30)
        + "  (INSTANCE tb\n"
        + "    (INSTANCE dut\n"
        + "      (INSTANCE u1\n"
        + "        (NET\n"
        + &record(5, "A", 30, 0, 0, 0)
        + &record(5, "Y", 0, 30, 0, 0)
        + "        )\n"
        + "      )\n"
        + "    )\n"
        + "  )\n"
        + ")\n";
    assert_eq!(saif(&ctx, 0), expected);
    // Outside a black box the supply pins stay.
    let mut args = plain_args();
    args.remove_virtual_pins = true;
    let ctx = build(design(), None, &args);
    assert!(saif(&ctx, 0).contains("(VGND "));
}

#[test]
fn blackboxes_only_without_black_box_writes_no_instance() {
    let mut args = plain_args();
    args.blackboxes_only = true;
    let ctx = build(design(), None, &args);
    assert_eq!(saif(&ctx, 0), header(30) + ")\n");
}

#[test]
fn saif_from_an_inner_scope() {
    let mut args = netlist_args();
    args.limit_scope = Some("tb.dut.u1".to_string());
    let ctx = build(design(), Some(netlist()), &args);
    assert_eq!(ctx.scope_prefix_length, 10);
    let expected = header(30)
        + "  (INSTANCE u1\n"
        + "    (NET\n"
        + &record(3, "A", 30, 0, 0, 0)
        + &record(3, "Y", 0, 30, 0, 0)
        + &record(3, "VGND", 30, 0, 0, 0)
        + &record(3, "VPWR", 0, 30, 0, 0)
        + "    )\n"
        + "  )\n"
        + ")\n";
    assert_eq!(saif(&ctx, 0), expected);
}

#[test]
fn start_at_the_netlist_root_resolves_the_top_module() {
    let mut args = netlist_args();
    args.limit_scope = Some("tb.dut".to_string());
    args.blackboxes_only = true;
    let ctx = build(design(), Some(netlist()), &args);
    let expected = header(30)
        + "  (INSTANCE dut\n"
        + "    (INSTANCE u1\n"
        + "      (NET\n"
        + &record(4, "A", 30, 0, 0, 0)
        + &record(4, "Y", 0, 30, 0, 0)
        + &record(4, "VGND", 30, 0, 0, 0)
        + &record(4, "VPWR", 0, 30, 0, 0)
        + "      )\n"
        + "    )\n"
        + "  )\n"
        + ")\n";
    assert_eq!(saif(&ctx, 0), expected);
}

#[test]
fn start_below_a_black_box_is_refused() {
    let mut args = netlist_args();
    args.limit_scope = Some("tb.dut.u1.inner".to_string());
    let ctx = build(design(), Some(netlist()), &args);
    assert_eq!(saif_error(&ctx, 0), ExportError::BlackBoxDescent);
    match tcl::export(&ctx, 0) {
        Err(e) => assert_eq!(e, ExportError::BlackBoxDescent),
        Ok(_) => panic!("a report"),
    }
}

#[test]
fn missing_top_module_is_refused() {
    let mut args = netlist_args();
    args.top = Some("nothing".to_string());
    let ctx = build(design(), Some(netlist()), &args);
    assert_eq!(saif_error(&ctx, 0), ExportError::TopModuleNotFound);
}

#[test]
fn scope_that_is_no_cell_is_refused() {
    let mut wave = design();
    wave.hierarchy.scopes[0].scopes[0].scopes.push(scope("u3", vec![], vec![]));
    let ctx = build(wave, Some(netlist()), &netlist_args());
    assert_eq!(saif_error(&ctx, 0), ExportError::CellNotFound);
}

#[test]
fn unknown_scopes_are_refused_when_building() {
    let mut args = plain_args();
    args.limit_scope = Some("tb.nothing".to_string());
    assert_eq!(build_error(design(), None, &args), ExportError::ScopeNotFound);
    let mut args = plain_args();
    args.top_scope = Some("dut".to_string());
    assert_eq!(build_error(design(), None, &args), ExportError::ScopeNotFound);
    let mut args = plain_args();
    args.limit_scope = Some("".to_string());
    assert_eq!(build_error(design(), None, &args), ExportError::ScopeNotFound);
}

#[test]
fn steps_that_lead_nowhere_are_refused() {
    let mut ctx = build(design(), None, &plain_args());
    ctx.lookup_point = LookupPoint::Scope(vec![0, 5]);
    assert_eq!(saif_error(&ctx, 0), ExportError::ScopeNotFound);
    ctx.lookup_point = LookupPoint::Scope(vec![]);
    assert_eq!(saif_error(&ctx, 0), ExportError::ScopeNotFound);
    ctx.lookup_point = LookupPoint::Top;
    ctx.top_scope = Some(vec![3]);
    assert_eq!(saif_error(&ctx, 0), ExportError::ScopeNotFound);
}

#[test]
fn invalid_spans_are_refused() {
    let mut args = plain_args();
    args.span = Some(0);
    assert_eq!(build_error(design(), None, &args), ExportError::InvalidSpan);
    args.span = Some(31);
    assert_eq!(build_error(design(), None, &args), ExportError::InvalidSpan);
    let mut wave = design();
    wave.end_time = 0;
    assert_eq!(build_error(wave, None, &plain_args()), ExportError::InvalidSpan);
    let mut wave = design();
    wave.end_time = u64::MAX;
    assert_eq!(build_error(wave, None, &plain_args()), ExportError::InvalidSpan);
}

#[test]
fn bad_signals_are_refused_when_building() {
    let mut wave = design();
    wave.signals.pop();
    assert_eq!(build_error(wave, None, &plain_args()), ExportError::SignalNotFound);
    let mut wave = design();
    wave.signals[2] = signal(&[(5, "01"), (5, "11")]);
    assert_eq!(build_error(wave, None, &plain_args()), ExportError::MalformedSignal);
    // A net that the export does not reach is not looked at.
    let mut wave = design();
    wave.signals[0] = signal(&[(5, "0"), (5, "1")]);
    let mut args = plain_args();
    args.limit_scope = Some("tb.dut".to_string());
    let ctx = build(wave, None, &args);
    assert_eq!(saif_error(&ctx, 1), ExportError::MissingStats);
}

#[test]
fn unknown_timescale_is_refused() {
    let mut wave = design();
    wave.timescale = None;
    let ctx = build(wave, None, &plain_args());
    assert_eq!(saif_error(&ctx, 0), ExportError::UnknownTimescale);
    let mut wave = design();
    wave.timescale = Some(Timescale { factor: 1, unit: TimescaleUnit::Unknown });
    let ctx = build(wave, None, &plain_args());
    assert_eq!(saif_error(&ctx, 0), ExportError::UnknownTimescale);
    match tcl::export(&ctx, 0) {
        Err(e) => assert_eq!(e, ExportError::UnknownTimescale),
        Ok(_) => panic!("a report"),
    }
}

#[test]
fn window_without_stats_is_refused() {
    let ctx = build(design(), None, &plain_args());
    assert_eq!(saif_error(&ctx, 1), ExportError::MissingStats);
    let mut ctx = build(design(), None, &plain_args());
    ctx.num_of_iterations = 0;
    assert_eq!(saif_error(&ctx, 0), ExportError::MissingStats);
    let mut ctx = build(design(), None, &plain_args());
    ctx.stats.truncate(3);
    assert_eq!(saif_error(&ctx, 0), ExportError::MissingStats);
}

#[test]
fn timescale_units_are_written_as_suffixes() {
    for (unit, suffix) in [
        (TimescaleUnit::FemtoSeconds, "fs"),
        (TimescaleUnit::PicoSeconds, "ps"),
        (TimescaleUnit::NanoSeconds, "ns"),
        (TimescaleUnit::MicroSeconds, "us"),
        (TimescaleUnit::MilliSeconds, "ms"),
        (TimescaleUnit::Seconds, "s"),
    ] {
        let mut wave = design();
        wave.timescale = Some(Timescale { factor: 100, unit });
        let ctx = build(wave, None, &plain_args());
        assert!(saif(&ctx, 0).contains(&format!("  (TIMESCALE 100{})\n", suffix)));
    }
}

#[test]
fn saif_per_window() {
    let mut args = plain_args();
    args.limit_scope = Some("tb".to_string());
    args.blackboxes_only = false;
    args.span = Some(10);
    let mut wave = design();
    wave.hierarchy.scopes[0].scopes.clear();
    let ctx = build(wave, None, &args);
    assert_eq!(ctx.num_of_iterations, 3);
    // The changes at 10 and at 20 are at the borders of the windows.
    let expected: [(u64, u64, u64); 3] = [(10, 0, 0), (0, 10, 0), (10, 0, 0)];
    for (iteration, (t0, t1, tc)) in expected.iter().enumerate() {
        let text = header(10)
            + "  (INSTANCE tb\n"
            + "    (NET\n"
            + &record(3, "clk", *t0, *t1, 0, *tc)
            + "    )\n"
            + "  )\n"
            + ")\n";
        assert_eq!(saif(&ctx, iteration), text);
    }
}

#[test]
fn names_are_escaped() {
    let mut wave = design();
    wave.hierarchy.scopes[0].name = "gen[0].blk".to_string();
    wave.hierarchy.scopes[0].nets[0].name = "\\clk$x ".to_string();
    wave.hierarchy.scopes[0].scopes.clear();
    let ctx = build(wave, None, &plain_args());
    let text = header(30)
        + "  (INSTANCE gen\\[0\\].blk\n"
        + "    (NET\n"
        + &record(3, "\\\\clk$x ", 20, 10, 0, 2)
        + "    )\n"
        + "  )\n"
        + ")\n";
    assert_eq!(saif(&ctx, 0), text);
    assert_eq!(tcl_entries(&ctx, 0), vec![(10, 4, "gen[0].blk/\\\\clk\\$x ".to_string())]);
}

#[test]
fn glitches_are_reported_beside_the_text() {
    let ctx = build(design(), None, &plain_args());
    match export_dated(&ctx, "p", "v", "d", 0) {
        Ok(report) => assert_eq!(report.glitches, vec!["clk".to_string()]),
        Err(e) => panic!("no report: {:?}", e),
    }
}

#[test]
fn export_is_dated_now() {
    let ctx = build(design(), None, &plain_args());
    let text = match export(&ctx, "trace2power", "0.1.0", 0) {
        Ok(report) => report.text,
        Err(e) => panic!("no report: {:?}", e),
    };
    let line = text.lines().find(|line| line.starts_with("  (DATE \"")).unwrap();
    let date = &line["  (DATE \"".len()..line.len() - 2];
    let fields: Vec<&str> = date.split(' ').collect();
    assert_eq!(fields.len(), 5);
    assert!(["Mon", "Tue", "Wed", "Thu", "Fri", "Sat", "Sun"].contains(&fields[0]));
    assert_eq!(fields[3].len(), 8);
    assert!(fields[4].parse::<u32>().unwrap() >= 2024);
    let dated = saif(&ctx, 0);
    assert_eq!(
        text.replace(date, "Mon Jan 1 00:00:00 2024"),
        dated
    );
}

#[test]
fn tcl_groups_pins_by_high_time_and_transitions() {
    let ctx = build(design(), None, &plain_args());
    assert_eq!(
        tcl_entries(&ctx, 0),
        vec![
            (10, 4, "tb/clk".to_string()),
            (30, 0, "tb.dut/a tb.dut/bus[0] tb.dut.u1/Y tb.dut.u1/VPWR".to_string()),
            (15, 2, "tb.dut/bus[1]".to_string()),
            (0, 0, "tb.dut.u1/A tb.dut.u1/VGND tb.dut.u1.inner/n".to_string()),
        ]
    );
    match tcl::export(&ctx, 0) {
        Ok(report) => {
            assert_eq!(report.duration, 30);
            assert_eq!(report.factor, 1);
            assert_eq!(report.exponent, -9);
        },
        Err(e) => panic!("no report: {:?}", e),
    }
}

#[test]
fn tcl_from_an_inner_scope_strips_the_prefix() {
    let mut args = netlist_args();
    args.limit_scope = Some("tb.dut".to_string());
    args.remove_virtual_pins = true;
    let ctx = build(design(), Some(netlist()), &args);
    assert_eq!(ctx.scope_prefix_length, 7);
    assert_eq!(
        tcl_entries(&ctx, 0),
        vec![
            (30, 0, "a bus[0] u1/Y".to_string()),
            (15, 2, "bus[1]".to_string()),
            (0, 0, "u1/A".to_string()),
        ]
    );
}

#[test]
fn tcl_window_duration_and_exponent() {
    let mut args = plain_args();
    args.span = Some(7);
    let mut wave = design();
    wave.timescale = Some(Timescale { factor: 10, unit: TimescaleUnit::PicoSeconds });
    let ctx = build(wave, None, &args);
    assert_eq!(ctx.num_of_iterations, 4);
    match tcl::export(&ctx, 3) {
        Ok(report) => {
            assert_eq!(report.duration, 7);
            assert_eq!(report.factor, 10);
            assert_eq!(report.exponent, -12);
        },
        Err(e) => panic!("no report: {:?}", e),
    }
    match tcl::export(&ctx, 4) {
        Err(e) => assert_eq!(e, ExportError::MissingStats),
        Ok(_) => panic!("a report"),
    }
}

#[test]
fn tcl_pin_names_escape_backslash_and_dollar() {
    let mut wave = design();
    wave.hierarchy.scopes[0].name = "t\\b".to_string();
    wave.hierarchy.scopes[0].nets[0].name = "a\\b$c$\\".to_string();
    wave.hierarchy.scopes[0].scopes.clear();
    let ctx = build(wave, None, &plain_args());
    assert_eq!(
        tcl_entries(&ctx, 0),
        vec![(10, 4, "t\\\\b/a\\\\b\\$c\\$\\\\".to_string())]
    );
}
