use crate::exporters::saif::table_of;
use crate::exporters::{ExportError, LookupPoint, Settings, TraceVisitCtx};
use crate::hierarchy::{
    get_scope_by_full_name, hierarchy_nets, lookup_steps, path_names, refs_of, scope_at,
    scope_nets, scope_var_refs, split_text, VarRefsIter,
};
use crate::netlist::Netlist;
use crate::stats::{
    calc_stats_for_each_time_span, signal_activity, span_length, PackedActivity, PackedStats,
};
use crate::text::texts;
use crate::waveform::{Net, Signal, Waveform};
use vstd::prelude::*;
use vstd::string::StrSliceExecFns;

verus! {

/// All that an export works from: the trace, the statistics computed from it, and the
/// settings of the run.
pub struct Context {
    pub wave: Waveform,
    /// The statistics of each net, by its number, for each window.
    pub stats: Vec<Vec<PackedStats>>,
    /// The number of equal windows that the trace is cut into.
    pub num_of_iterations: u64,
    pub lookup_point: LookupPoint,
    /// The number of characters that the export strips from the front of each pin name.
    pub scope_prefix_length: usize,
    pub netlist: Option<Netlist>,
    /// The name of the netlist's top module.
    pub top: String,
    /// The steps that lead to the scope that is the netlist's top module, if one is.
    pub top_scope: Option<Vec<usize>>,
    pub blackboxes_only: bool,
    pub remove_virtual_pins: bool,
}

impl Context {
    /// The settings of a walk for this context; none if `top_scope` leads nowhere.
    pub open spec fn settings(&self) -> Option<Settings<'_>> {
        let netlist_root = match self.top_scope {
            Some(steps) => path_names(self.wave.hierarchy.scopes@, steps@),
            None => Some(Seq::empty()),
        };
        match netlist_root {
            None => None,
            Some(names) => Some(
                Settings {
                    netlist_root: names,
                    top_module: self.top@,
                    netlist: match self.netlist {
                        Some(netlist) => Some(&netlist),
                        None => None,
                    },
                    blackboxes_only: self.blackboxes_only,
                    remove_virtual_pins: self.remove_virtual_pins,
                },
            ),
        }
    }

    /// Makes the settings of a walk. A `top_scope` that leads nowhere is `ScopeNotFound`.
    pub fn visit_ctx(&self) -> (result: Result<TraceVisitCtx<'_>, ExportError>)
        ensures
            match self.settings() {
                Some(settings) => result is Ok && result->Ok_0@ == settings,
                None => result is Err && result->Err_0 == ExportError::ScopeNotFound,
            },
    {
        let netlist_root = match &self.top_scope {
            Some(steps) => match self.wave.hierarchy.scope_names(steps) {
                Some(names) => names,
                None => {
                    return Err(ExportError::ScopeNotFound);
                },
            },
            None => {
                let names: Vec<String> = Vec::new();
                assert(texts(names@) =~= Seq::<Seq<char>>::empty());
                names
            },
        };
        let netlist = match &self.netlist {
            Some(netlist) => Some(netlist),
            None => None,
        };
        Ok(
            TraceVisitCtx {
                netlist_root,
                top_module: self.top.clone(),
                netlist,
                blackboxes_only: self.blackboxes_only,
                remove_virtual_pins: self.remove_virtual_pins,
            },
        )
    }
}


/// The settings of a run, as plain values.
pub struct Args {
    /// The scope to which the export is limited, as its names joined by dots.
    pub limit_scope: Option<String>,
    /// The name of the netlist's top module.
    pub top: Option<String>,
    /// The scope that is the netlist's top module, as its names joined by dots.
    pub top_scope: Option<String>,
    pub blackboxes_only: bool,
    pub remove_virtual_pins: bool,
    /// The length of one window; the whole trace if there is none.
    pub span: Option<u64>,
    /// Keep only the activity that looks like a glitch.
    pub glitches_only: bool,
    /// The number of the clock's signal, if one is named.
    pub clk_signal: Option<usize>,
}

/// The number of windows that a trace of the length `end_time` is cut into: as many as
/// spans of the length `span` fit into it, and one if no span is given. No window may last
/// more than `i64::MAX` steps of time.
pub open spec fn window_count(end_time: u64, span: Option<u64>) -> Result<u64, ExportError> {
    let length = match span {
        Some(length) => length,
        None => end_time,
    };
    if length == 0 || length > end_time {
        Err(ExportError::InvalidSpan)
    } else if span_length(end_time as int, (end_time / length) as int) > i64::MAX {
        Err(ExportError::InvalidSpan)
    } else {
        Ok((end_time / length) as u64)
    }
}

/// Computes `window_count`.
pub fn count_windows(end_time: u64, span: Option<u64>) -> (count: Result<u64, ExportError>)
    ensures
        count == window_count(end_time, span),
        count matches Ok(n) ==> n > 0,
{
    let length: u64 = match span {
        Some(length) => length,
        None => end_time,
    };
    if length == 0 || length > end_time {
        return Err(ExportError::InvalidSpan);
    }
    let count: u64 = end_time / length;
    assert(count > 0) by (nonlinear_arith)
        requires
            0 < length <= end_time,
            count == end_time / length,
    ;
    if end_time / count > 0x7fff_ffff_ffff_ffff {
        return Err(ExportError::InvalidSpan);
    }
    Ok(count)
}

/// The statistics of a signal over each of `count` equal windows of a trace of the length
/// `end_time`.
pub open spec fn spans_activity(
    signal: Signal,
    glitches_only: bool,
    is_clock: bool,
    end_time: int,
    count: int,
) -> Seq<PackedActivity> {
    Seq::new(
        count as nat,
        |i: int|
            signal_activity(
                signal,
                glitches_only,
                is_clock,
                i * span_length(end_time, count),
                (i + 1) * span_length(end_time, count),
            ),
    )
}

/// The table `table` with `entry` as the entry of net number `var`; nets up to that number
/// that had no entry get an empty one.
pub open spec fn with_entry(
    table: Seq<Seq<PackedActivity>>,
    var: int,
    entry: Seq<PackedActivity>,
) -> Seq<Seq<PackedActivity>> {
    if var < table.len() {
        table.update(var, entry)
    } else {
        (table + Seq::new((var - table.len()) as nat, |i: int| Seq::empty())).push(entry)
    }
}

/// The statistics table of the nets `nets`: for each net, under its number, the statistics
/// of its signal over each window. Where two nets have one number the later one counts.
///
/// A net whose signal the trace does not hold is `SignalNotFound`, and one whose signal is
/// not well formed is `MalformedSignal`; the first such net decides.
pub open spec fn table_for(
    wave: Waveform,
    nets: Seq<Net>,
    glitches_only: bool,
    clk_signal: Option<usize>,
    count: u64,
) -> Result<Seq<Seq<PackedActivity>>, ExportError>
    decreases nets.len(),
{
    if nets.len() == 0 {
        Ok(Seq::empty())
    } else {
        match table_for(wave, nets.drop_last(), glitches_only, clk_signal, count) {
            Err(e) => Err(e),
            Ok(table) => {
                let net = nets.last();
                if net.signal >= wave.signals.len() {
                    Err(ExportError::SignalNotFound)
                } else if !wave.signals[net.signal as int].wf() {
                    Err(ExportError::MalformedSignal)
                } else {
                    Ok(
                        with_entry(
                            table,
                            net.var as int,
                            spans_activity(
                                wave.signals[net.signal as int],
                                glitches_only,
                                clk_signal == Some(net.signal),
                                wave.end_time as int,
                                count as int,
                            ),
                        ),
                    )
                }
            },
        }
    }
}

/// Computes the statistics table of the nets `nets` for `count` windows.
pub fn build_table(
    wave: &Waveform,
    nets: &Vec<&Net>,
    glitches_only: bool,
    clk_signal: Option<usize>,
    count: u64,
) -> (result: Result<Vec<Vec<PackedStats>>, ExportError>)
    requires
        count > 0,
        span_length(wave.end_time as int, count as int) <= i64::MAX,
    ensures
        match table_for(*wave, refs_of(nets@), glitches_only, clk_signal, count) {
            Ok(table) => result is Ok && table_of(result->Ok_0@) == table,
            Err(e) => result is Err && result->Err_0 == e,
        },
{
    let ghost all = refs_of(nets@);
    let mut table: Vec<Vec<PackedStats>> = Vec::new();
    let mut i: usize = 0;
    proof {
        assert(all.take(0) =~= Seq::<Net>::empty());
        assert(table_of(table@) =~= Seq::<Seq<PackedActivity>>::empty());
    }
    while i < nets.len()
        invariant
            i <= nets.len(),
            all == refs_of(nets@),
            count > 0,
            span_length(wave.end_time as int, count as int) <= i64::MAX,
            table_for(*wave, all.take(i as int), glitches_only, clk_signal, count) == Ok::<
                Seq<Seq<PackedActivity>>,
                ExportError,
            >(table_of(table@)),
        decreases nets.len() - i,
    {
        let net: &Net = nets[i];
        proof {
            assert(all.take(i + 1).drop_last() =~= all.take(i as int));
            assert(all.take(i + 1).last() == *net);
            lemma_table_error_stays(
                *wave,
                all,
                glitches_only,
                clk_signal,
                count,
                i + 1,
                nets.len() as int,
            );
            assert(all.take(nets.len() as int) =~= all);
        }
        if net.signal >= wave.signals.len() {
            assert(table_for(*wave, all.take(i + 1), glitches_only, clk_signal, count) == Err::<
                Seq<Seq<PackedActivity>>,
                ExportError,
            >(ExportError::SignalNotFound));
            return Err(ExportError::SignalNotFound);
        }
        if !wave.signals[net.signal].is_well_formed() {
            assert(table_for(*wave, all.take(i + 1), glitches_only, clk_signal, count) == Err::<
                Seq<Seq<PackedActivity>>,
                ExportError,
            >(ExportError::MalformedSignal));
            return Err(ExportError::MalformedSignal);
        }
        let spans = calc_stats_for_each_time_span(
            wave,
            glitches_only,
            clk_signal,
            net.signal,
            count,
        );
        let ghost entry = spans_activity(
            wave.signals[net.signal as int],
            glitches_only,
            clk_signal == Some(net.signal),
            wave.end_time as int,
            count as int,
        );
        proof {
            assert(spans@.map_values(|packed: PackedStats| packed@) =~= entry);
        }
        let ghost before = table_of(table@);
        if net.var < table.len() {
            table.set(net.var, spans);
            proof {
                assert(table_of(table@) =~= before.update(net.var as int, entry));
            }
        } else {
            while table.len() < net.var
                invariant
                    before.len() <= table.len() <= net.var,
                    table_of(table@) == before + Seq::new(
                        (table.len() - before.len()) as nat,
                        |i: int| Seq::<PackedActivity>::empty(),
                    ),
                decreases net.var - table.len(),
            {
                let ghost padded = table@;
                let blank: Vec<PackedStats> = Vec::new();
                proof {
                    assert(blank@.map_values(|packed: PackedStats| packed@) =~= Seq::<
                        PackedActivity,
                    >::empty());
                }
                table.push(blank);
                proof {
                    assert(table_of(table@) =~= table_of(padded).push(Seq::empty()));
                    assert(table_of(table@) =~= before + Seq::new(
                        (table.len() - before.len()) as nat,
                        |i: int| Seq::<PackedActivity>::empty(),
                    ));
                }
            }
            let ghost padded = table@;
            table.push(spans);
            proof {
                assert(table_of(table@) =~= table_of(padded).push(entry));
            }
        }
        i += 1;
    }
    proof {
        assert(all.take(nets.len() as int) =~= all);
    }
    Ok(table)
}

/// An error among the first `from` nets is the error of any more of them.
proof fn lemma_table_error_stays(
    wave: Waveform,
    nets: Seq<Net>,
    glitches_only: bool,
    clk_signal: Option<usize>,
    count: u64,
    from: int,
    upto: int,
)
    requires
        0 <= from <= upto <= nets.len(),
    ensures
        table_for(wave, nets.take(from), glitches_only, clk_signal, count) is Err ==> table_for(
            wave,
            nets.take(upto),
            glitches_only,
            clk_signal,
            count,
        ) == table_for(wave, nets.take(from), glitches_only, clk_signal, count),
    decreases upto - from,
{
    if from < upto {
        lemma_table_error_stays(wave, nets, glitches_only, clk_signal, count, from, upto - 1);
        assert(nets.take(upto).drop_last() =~= nets.take(upto - 1));
    }
}


/// The steps to the scope with the full name `name`, if `name` is given; `ScopeNotFound` if
/// it is given and the hierarchy has no such scope.
pub open spec fn steps_to(wave: Waveform, name: Option<String>) -> Result<
    Option<Seq<usize>>,
    ExportError,
> {
    match name {
        None => Ok(None),
        Some(name) => match lookup_steps(wave.hierarchy.scopes@, split_text(name@, '.')) {
            Some(steps) => Ok(Some(steps)),
            None => Err(ExportError::ScopeNotFound),
        },
    }
}

/// The nets that an export from `lookup` reaches: all of the hierarchy from the top, and
/// those of the scope and of all below it from a scope.
pub open spec fn selected_nets(wave: Waveform, lookup: Option<Seq<usize>>) -> Seq<Net> {
    match lookup {
        None => hierarchy_nets(wave.hierarchy),
        Some(steps) => match scope_at(wave.hierarchy.scopes@, steps) {
            Some(scope) => scope_nets(scope),
            None => Seq::empty(),
        },
    }
}

/// The number of characters that the export strips from the front of each pin name: none
/// from the top, and else the full name of the scope and the separator after it.
pub open spec fn prefix_length(limit_scope: Option<String>) -> usize {
    match limit_scope {
        None => 0,
        Some(name) => if name@.len() < usize::MAX {
            (name@.len() + 1) as usize
        } else {
            usize::MAX
        },
    }
}

/// Whether `ctx` is the context of a run on `wave` and `netlist` with the settings `args`.
pub open spec fn built_from(
    ctx: Context,
    wave: Waveform,
    netlist: Option<Netlist>,
    args: Args,
) -> bool {
    &&& ctx.wave == wave
    &&& ctx.netlist == netlist
    &&& steps_to(wave, args.limit_scope) matches Ok(lookup)
    &&& match lookup {
        None => ctx.lookup_point is Top,
        Some(steps) => ctx.lookup_point matches LookupPoint::Scope(found) && found@ == steps,
    }
    &&& ctx.scope_prefix_length == prefix_length(args.limit_scope)
    &&& window_count(wave.end_time, args.span) == Ok::<u64, ExportError>(ctx.num_of_iterations)
    &&& table_for(
        wave,
        selected_nets(wave, lookup),
        args.glitches_only,
        args.clk_signal,
        ctx.num_of_iterations,
    ) == Ok::<Seq<Seq<PackedActivity>>, ExportError>(table_of(ctx.stats@))
    &&& steps_to(wave, args.top_scope) matches Ok(root)
    &&& match root {
        None => ctx.top_scope is None,
        Some(steps) => ctx.top_scope matches Some(found) && found@ == steps,
    }
    &&& ctx.top@ == match args.top {
        Some(name) => name@,
        None => Seq::empty(),
    }
    &&& ctx.blackboxes_only == args.blackboxes_only
    &&& ctx.remove_virtual_pins == args.remove_virtual_pins
}

/// Why no context can be built, if none can: the scope to limit the export to is not found;
/// the span is not valid; a net that the export reaches has no signal, or one that is not
/// well formed; the scope of the top module is not found. The first of these decides.
pub open spec fn build_fault(wave: Waveform, args: Args) -> Option<ExportError> {
    match steps_to(wave, args.limit_scope) {
        Err(e) => Some(e),
        Ok(lookup) => match window_count(wave.end_time, args.span) {
            Err(e) => Some(e),
            Ok(count) => match table_for(
                wave,
                selected_nets(wave, lookup),
                args.glitches_only,
                args.clk_signal,
                count,
            ) {
                Err(e) => Some(e),
                Ok(_) => match steps_to(wave, args.top_scope) {
                    Err(e) => Some(e),
                    Ok(_) => None,
                },
            },
        },
    }
}

fn find_steps(wave: &Waveform, name: &Option<String>) -> (result: Result<
    Option<Vec<usize>>,
    ExportError,
>)
    ensures
        match steps_to(*wave, *name) {
            Err(e) => result is Err && result->Err_0 == e,
            Ok(None) => result matches Ok(None),
            Ok(Some(steps)) => result matches Ok(Some(found)) && found@ == steps,
        },
{
    match name {
        None => Ok(None),
        Some(name) => match get_scope_by_full_name(&wave.hierarchy, name.as_str()) {
            Some(steps) => Ok(Some(steps)),
            None => Err(ExportError::ScopeNotFound),
        },
    }
}

impl Context {
    /// Builds the context of a run on the trace `wave` and the netlist `netlist` with the
    /// settings `args`: finds the scopes that the settings name, cuts the trace into
    /// windows, and computes the statistics of every net that the export reaches.
    pub fn build_from_args(wave: Waveform, netlist: Option<Netlist>, args: &Args) -> (result:
        Result<Context, ExportError>)
        ensures
            match build_fault(wave, *args) {
                Some(e) => result is Err && result->Err_0 == e,
                None => result is Ok && built_from(result->Ok_0, wave, netlist, *args),
            },
    {
        let lookup = match find_steps(&wave, &args.limit_scope) {
            Ok(lookup) => lookup,
            Err(e) => {
                return Err(e);
            },
        };
        let scope_prefix_length: usize = match &args.limit_scope {
            None => 0,
            Some(name) => {
                let length: usize = name.as_str().unicode_len();
                if length < usize::MAX {
                    length + 1
                } else {
                    length
                }
            },
        };
        let num_of_iterations: u64 = match count_windows(wave.end_time, args.span) {
            Ok(count) => count,
            Err(e) => {
                return Err(e);
            },
        };
        let ghost chosen: Option<Seq<usize>> = match &lookup {
            Some(steps) => Some(steps@),
            None => None,
        };
        let table = {
            let nets: Vec<&Net> = match &lookup {
                None => wave.hierarchy.var_refs_iter(),
                Some(steps) => match wave.hierarchy.scope(steps) {
                    Some(scope) => scope_var_refs(scope),
                    None => {
                        let none: Vec<&Net> = Vec::new();
                        assert(refs_of(none@) =~= Seq::<Net>::empty());
                        none
                    },
                },
            };
            assert(refs_of(nets@) == selected_nets(wave, chosen));
            build_table(&wave, &nets, args.glitches_only, args.clk_signal, num_of_iterations)
        };
        let stats = match table {
            Ok(stats) => stats,
            Err(e) => {
                return Err(e);
            },
        };
        let top_scope = match find_steps(&wave, &args.top_scope) {
            Ok(top_scope) => top_scope,
            Err(e) => {
                return Err(e);
            },
        };
        let top = match &args.top {
            Some(name) => name.clone(),
            None => String::new(),
        };
        let lookup_point = match lookup {
            Some(steps) => LookupPoint::Scope(steps),
            None => LookupPoint::Top,
        };
        Ok(
            Context {
                wave,
                stats,
                num_of_iterations,
                lookup_point,
                scope_prefix_length,
                netlist,
                top,
                top_scope,
                blackboxes_only: args.blackboxes_only,
                remove_virtual_pins: args.remove_virtual_pins,
            },
        )
    }
}

} // verus!
