use crate::context::Context;
use crate::exporters::{
    hierarchy_trail, run_events, run_trail, visit_hierarchy, ExportError, TraceVisitorAgent,
    VisitEvent,
};
use crate::stats::{Activity, PackedActivity, PackedStats, SignalStats};
use crate::text::{
    decimal, indentation, push_decimal, push_indent, push_replaced, replace_char, texts,
};
use crate::waveform::{
    bit_name, bit_name_text, indexed_name, indexed_name_text, Net, Scope, Timescale,
    TimescaleUnit,
};
use vstd::prelude::*;
use vstd::string::StringExecFns;

verus! {

/// The SAIF exporter's state for one scope that the walk is in.
pub struct ScopeCtx {
    pub name_escaped: String,
    /// Whether nothing has been written for the scope yet, not even its opening line.
    pub instance_empty: bool,
}

/// One line of the body of a SAIF report.
pub enum SaifLine {
    /// Opens the block of the instance of that name.
    Instance(String),
    /// Opens the block of an instance's nets.
    Net,
    /// The record of one net or of one bit of a net.
    Record(String, SignalStats),
    /// Closes the block that was opened last and is still open.
    Close,
}

/// The mathematical content of a `ScopeCtx`.
pub struct Frame {
    pub name: Seq<char>,
    pub opened: bool,
}

/// The mathematical content of a `SaifLine`.
pub enum Line {
    Instance(Seq<char>),
    Net,
    Record(Seq<char>, Activity),
    Close,
}

impl View for ScopeCtx {
    type V = Frame;

    open spec fn view(&self) -> Frame {
        Frame { name: self.name_escaped@, opened: !self.instance_empty }
    }
}

impl View for SaifLine {
    type V = Line;

    open spec fn view(&self) -> Line {
        match self {
            SaifLine::Instance(name) => Line::Instance(name@),
            SaifLine::Net => Line::Net,
            SaifLine::Record(name, stat) => Line::Record(name@, stat@),
            SaifLine::Close => Line::Close,
        }
    }
}

/// The frames that a stack of scope states holds.
pub open spec fn frames(stack: Seq<ScopeCtx>) -> Seq<Frame> {
    stack.map_values(|ctx: ScopeCtx| ctx@)
}

/// The lines that a list of lines holds.
pub open spec fn lines_of(lines: Seq<SaifLine>) -> Seq<Line> {
    lines.map_values(|line: SaifLine| line@)
}

/// The statistics that a table holds: for each net, by its number, those of each window.
pub open spec fn table_of(stats: Seq<Vec<PackedStats>>) -> Seq<Seq<PackedActivity>> {
    stats.map_values(|spans: Vec<PackedStats>| spans@.map_values(|packed: PackedStats| packed@))
}

/// The name of a scope as the report writes it: with a backslash before each square bracket.
pub open spec fn bracket_escaped(name: Seq<char>) -> Seq<char> {
    replace_char(replace_char(name, '[', seq!['\\', '[']), ']', seq!['\\', ']'])
}

/// The records of the net `net` with the statistics `stats`: one for a net of width 1,
/// under its indexed name, and one per bit for any other, under the name of the bit.
pub open spec fn net_records(net: Net, stats: PackedActivity) -> Seq<Line> {
    match stats {
        PackedActivity::OneBit(activity) => seq![
            Line::Record(indexed_name_text(net.name@, net.index), activity),
        ],
        PackedActivity::Vector(bits) => Seq::new(
            bits.len(),
            |k: int| Line::Record(bit_name_text(net.name@, k as nat), bits[k]),
        ),
    }
}

/// The names among the records `records` whose clean-transition count is above one.
pub open spec fn glitch_names(records: Seq<Line>) -> Seq<Seq<char>>
    decreases records.len(),
{
    if records.len() == 0 {
        Seq::empty()
    } else {
        glitch_names(records.drop_last()) + match records.last() {
            Line::Record(name, activity) => if activity.clean_trans_count > 1 {
                seq![name]
            } else {
                Seq::empty()
            },
            _ => Seq::empty(),
        }
    }
}

/// The opening lines that are still due for the scopes of `stack`, outermost first.
pub open spec fn pending_opens(stack: Seq<Frame>) -> Seq<Line>
    decreases stack.len(),
{
    if stack.len() == 0 {
        Seq::empty()
    } else {
        pending_opens(stack.drop_last()) + if stack.last().opened {
            Seq::empty()
        } else {
            seq![Line::Instance(stack.last().name)]
        }
    }
}

/// The stack `stack` once every scope of it has been opened.
pub open spec fn all_opened(stack: Seq<Frame>) -> Seq<Frame> {
    stack.map_values(|frame: Frame| Frame { name: frame.name, opened: true })
}

/// What the SAIF renderer has got so far.
pub struct SaifState {
    /// The statistics table that it renders from.
    pub stats: Seq<Seq<PackedActivity>>,
    /// The window that it renders.
    pub span_index: nat,
    /// The scopes that the walk is in, outermost first.
    pub stack: Seq<Frame>,
    /// The lines written.
    pub lines: Seq<Line>,
    /// The names of the records written whose clean-transition count is above one.
    pub glitches: Seq<Seq<char>>,
}

impl SaifState {
    /// The state after the records `records` of one net are written: nothing changes if
    /// there are none. Otherwise every scope of the stack that is not open yet is opened
    /// first, outermost first, and the block of nets after the innermost one if that was not
    /// open either.
    pub open spec fn with_records(self, records: Seq<Line>) -> SaifState {
        if records.len() == 0 {
            self
        } else {
            SaifState {
                stack: all_opened(self.stack),
                lines: self.lines + pending_opens(self.stack) + (if self.stack.len() > 0
                    && !self.stack.last().opened {
                    seq![Line::Net]
                } else {
                    Seq::empty()
                }) + records,
                glitches: self.glitches + glitch_names(records),
                ..self
            }
        }
    }

    /// The state after `event`.
    ///
    /// Entering a scope puts it on the stack and writes nothing. A net writes its records.
    /// At the end of the nets the block of nets is closed if the scope is open, and on
    /// leaving the scope its own block is. A net for which the table has no statistics for
    /// the window is `MissingStats`.
    pub open spec fn after(self, event: VisitEvent) -> Result<SaifState, ExportError> {
        match event {
            VisitEvent::EnterScope(scope) => Ok(
                SaifState {
                    stack: self.stack.push(
                        Frame { name: bracket_escaped(scope.name@), opened: false },
                    ),
                    ..self
                },
            ),
            VisitEvent::EnterNet(net) => if net.var < self.stats.len() && self.span_index
                < self.stats[net.var as int].len() {
                Ok(
                    self.with_records(
                        net_records(net, self.stats[net.var as int][self.span_index as int]),
                    ),
                )
            } else {
                Err(ExportError::MissingStats)
            },
            VisitEvent::EndNets => if self.stack.len() > 0 && self.stack.last().opened {
                Ok(SaifState { lines: self.lines.push(Line::Close), ..self })
            } else {
                Ok(self)
            },
            VisitEvent::EndScopes => Ok(self),
            VisitEvent::ExitScope(_) => if self.stack.len() == 0 {
                Ok(self)
            } else if self.stack.last().opened {
                Ok(
                    SaifState {
                        stack: self.stack.drop_last(),
                        lines: self.lines.push(Line::Close),
                        ..self
                    },
                )
            } else {
                Ok(SaifState { stack: self.stack.drop_last(), ..self })
            },
        }
    }
}

/// Renders one window of a statistics table as the body of a SAIF report, driven by a walk.
pub struct SaifAgent<'a> {
    pub stats: &'a Vec<Vec<PackedStats>>,
    pub span_index: usize,
    pub scope_ctx: Vec<ScopeCtx>,
    pub lines: Vec<SaifLine>,
    pub glitches: Vec<String>,
}

impl<'a> SaifAgent<'a> {
    /// A renderer of window `span_index` of `stats` that has written nothing yet.
    pub fn new(stats: &'a Vec<Vec<PackedStats>>, span_index: usize) -> (agent: Self)
        ensures
            agent.state() == (SaifState {
                stats: table_of(stats@),
                span_index: span_index as nat,
                stack: Seq::empty(),
                lines: Seq::empty(),
                glitches: Seq::empty(),
            }),
    {
        let agent = Self {
            stats,
            span_index,
            scope_ctx: Vec::new(),
            lines: Vec::new(),
            glitches: Vec::new(),
        };
        proof {
            assert(agent.state().stack =~= Seq::<Frame>::empty());
            assert(agent.state().lines =~= Seq::<Line>::empty());
            assert(agent.state().glitches =~= Seq::<Seq<char>>::empty());
        }
        agent
    }

    /// Opens every scope of the stack that is not open yet, outermost first, and the block
    /// of nets after the innermost one if that was not open either.
    fn begin_scope(&mut self)
        ensures
            final(self).stats == old(self).stats,
            final(self).span_index == old(self).span_index,
            final(self).glitches == old(self).glitches,
            frames(final(self).scope_ctx@) == all_opened(frames(old(self).scope_ctx@)),
            lines_of(final(self).lines@) == lines_of(old(self).lines@) + pending_opens(
                frames(old(self).scope_ctx@),
            ) + (if old(self).scope_ctx.len() > 0 && old(self).scope_ctx@.last().instance_empty {
                seq![Line::Net]
            } else {
                Seq::empty()
            }),
    {
        let ghost stack0 = frames(self.scope_ctx@);
        let ghost lines0 = lines_of(self.lines@);
        let n: usize = self.scope_ctx.len();
        let innermost_empty = n > 0 && self.scope_ctx[n - 1].instance_empty;
        let mut i: usize = 0;
        while i < n
            invariant
                i <= n,
                n == self.scope_ctx.len(),
                self.stats == old(self).stats,
                self.span_index == old(self).span_index,
                self.glitches == old(self).glitches,
                stack0.len() == n,
                forall|j: int| 0 <= j < i ==> (#[trigger] self.scope_ctx@[j])@ == (Frame {
                    name: stack0[j].name,
                    opened: true,
                }),
                forall|j: int| i <= j < n ==> (#[trigger] self.scope_ctx@[j])@ == stack0[j],
                lines_of(self.lines@) == lines0 + pending_opens(stack0.take(i as int)),
            decreases n - i,
        {
            proof {
                assert(stack0.take(i + 1).drop_last() =~= stack0.take(i as int));
            }
            if self.scope_ctx[i].instance_empty {
                let name = self.scope_ctx[i].name_escaped.clone();
                let ghost before = self.lines@;
                self.lines.push(SaifLine::Instance(name));
                self.scope_ctx[i].instance_empty = false;
                proof {
                    assert(lines_of(self.lines@) =~= lines_of(before).push(
                        Line::Instance(stack0[i as int].name),
                    ));
                    assert(lines_of(self.lines@) =~= lines0 + pending_opens(
                        stack0.take(i + 1),
                    ));
                }
            }
            i += 1;
        }
        proof {
            assert(stack0.take(n as int) =~= stack0);
            assert(frames(self.scope_ctx@) =~= all_opened(stack0));
        }
        if innermost_empty {
            let ghost before = self.lines@;
            self.lines.push(SaifLine::Net);
            proof {
                assert(lines_of(self.lines@) =~= lines_of(before).push(Line::Net));
                assert(lines_of(self.lines@) =~= lines0 + pending_opens(stack0) + seq![Line::Net]);
            }
        } else {
            assert(lines_of(self.lines@) =~= lines0 + pending_opens(stack0) + Seq::<
                Line,
            >::empty());
        }
    }

    /// Closes the block that was opened last.
    fn end_scope(&mut self)
        ensures
            final(self).stats == old(self).stats,
            final(self).span_index == old(self).span_index,
            final(self).glitches == old(self).glitches,
            final(self).scope_ctx == old(self).scope_ctx,
            lines_of(final(self).lines@) == lines_of(old(self).lines@).push(Line::Close),
    {
        self.lines.push(SaifLine::Close);
        assert(lines_of(self.lines@) =~= lines_of(old(self).lines@).push(Line::Close));
    }

    /// Writes the record of one net or bit, and notes its name if its clean-transition
    /// count is above one.
    fn write_net_stat(&mut self, name: String, stat: &SignalStats)
        ensures
            final(self).stats == old(self).stats,
            final(self).span_index == old(self).span_index,
            final(self).scope_ctx == old(self).scope_ctx,
            lines_of(final(self).lines@) == lines_of(old(self).lines@).push(
                Line::Record(name@, stat@),
            ),
            texts(final(self).glitches@) == texts(old(self).glitches@) + (if stat@.clean_trans_count
                > 1 {
                seq![name@]
            } else {
                Seq::empty()
            }),
    {
        if stat.clean_trans_count > 1 {
            self.glitches.push(name.clone());
            assert(texts(self.glitches@) =~= texts(old(self).glitches@) + seq![name@]);
        } else {
            assert(texts(self.glitches@) =~= texts(old(self).glitches@) + Seq::<
                Seq<char>,
            >::empty());
        }
        self.lines.push(SaifLine::Record(name, *stat));
        assert(lines_of(self.lines@) =~= lines_of(old(self).lines@).push(
            Line::Record(name@, stat@),
        ));
    }
}


impl<'a> TraceVisitorAgent for SaifAgent<'a> {
    type State = SaifState;

    open spec fn state(&self) -> SaifState {
        SaifState {
            stats: table_of(self.stats@),
            span_index: self.span_index as nat,
            stack: frames(self.scope_ctx@),
            lines: lines_of(self.lines@),
            glitches: texts(self.glitches@),
        }
    }

    open spec fn step(state: SaifState, event: VisitEvent) -> Result<SaifState, ExportError> {
        state.after(event)
    }

    fn enter_scope(&mut self, scope: &Scope) -> (result: Result<(), ExportError>) {
        let mut once = String::new();
        push_replaced(&mut once, scope.name.as_str(), '[', "\\[");
        let mut name_escaped = String::new();
        push_replaced(&mut name_escaped, once.as_str(), ']', "\\]");
        proof {
            reveal_strlit("\\[");
            reveal_strlit("\\]");
            assert("\\["@ =~= seq!['\\', '[']);
            assert("\\]"@ =~= seq!['\\', ']']);
            assert(once@ =~= replace_char(scope.name@, '[', seq!['\\', '[']));
            assert(name_escaped@ =~= bracket_escaped(scope.name@));
        }
        self.scope_ctx.push(ScopeCtx { name_escaped, instance_empty: true });
        proof {
            assert(frames(self.scope_ctx@) =~= frames(old(self).scope_ctx@).push(
                Frame { name: bracket_escaped(scope.name@), opened: false },
            ));
        }
        Ok(())
    }

    fn exit_scope(&mut self, scope: &Scope) -> (result: Result<(), ExportError>) {
        match self.scope_ctx.pop() {
            None => {},
            Some(ctx) => {
                proof {
                    assert(frames(self.scope_ctx@) =~= frames(old(self).scope_ctx@).drop_last());
                }
                if !ctx.instance_empty {
                    self.end_scope();
                }
            },
        }
        Ok(())
    }

    fn end_scopes(&mut self) -> (result: Result<(), ExportError>) {
        Ok(())
    }

    fn enter_net(&mut self, net: &Net) -> (result: Result<(), ExportError>) {
        if net.var >= self.stats.len() {
            return Err(ExportError::MissingStats);
        }
        let spans = &self.stats[net.var];
        if self.span_index >= spans.len() {
            return Err(ExportError::MissingStats);
        }
        let ghost before = self.state();
        let ghost records = net_records(*net, spans@[self.span_index as int]@);
        match &spans[self.span_index] {
            PackedStats::OneBit(stat) => {
                self.begin_scope();
                let name = indexed_name(net.name.clone(), net);
                self.write_net_stat(name, stat);
                proof {
                    assert(records =~= seq![
                        Line::Record(indexed_name_text(net.name@, net.index), stat@),
                    ]);
                    assert(records.drop_last() =~= Seq::<Line>::empty());
                    assert(glitch_names(records.drop_last()) =~= Seq::<Seq<char>>::empty());
                    assert(self.state().lines =~= before.with_records(records).lines);
                    assert(self.state().glitches =~= before.with_records(records).glitches);
                }
            },
            PackedStats::Vector(bits) => {
                if bits.len() > 0 {
                    self.begin_scope();
                    let ghost opened = self.state();
                    let mut idx: usize = 0;
                    while idx < bits.len()
                        invariant
                            idx <= bits.len(),
                            records.len() == bits.len(),
                            forall|k: int|
                                0 <= k < bits.len() ==> #[trigger] records[k] == Line::Record(
                                    bit_name_text(net.name@, k as nat),
                                    bits@[k]@,
                                ),
                            self.stats == old(self).stats,
                            self.span_index == old(self).span_index,
                            frames(self.scope_ctx@) == opened.stack,
                            lines_of(self.lines@) == opened.lines + records.take(idx as int),
                            texts(self.glitches@) == opened.glitches + glitch_names(
                                records.take(idx as int),
                            ),
                        decreases bits.len() - idx,
                    {
                        let name = bit_name(net.name.as_str(), idx);
                        proof {
                            assert(records.take(idx + 1).drop_last() =~= records.take(idx as int));
                            assert(records.take(idx + 1).last() == records[idx as int]);
                        }
                        self.write_net_stat(name, &bits[idx]);
                        proof {
                            assert(lines_of(self.lines@) =~= opened.lines + records.take(idx + 1));
                            assert(texts(self.glitches@) =~= opened.glitches + glitch_names(
                                records.take(idx + 1),
                            ));
                        }
                        idx += 1;
                    }
                    proof {
                        assert(records.take(bits.len() as int) =~= records);
                        assert(self.state().lines =~= before.with_records(records).lines);
                    }
                }
            },
        }
        Ok(())
    }

    fn end_nets(&mut self) -> (result: Result<(), ExportError>) {
        let n: usize = self.scope_ctx.len();
        if n > 0 && !self.scope_ctx[n - 1].instance_empty {
            self.end_scope();
        }
        Ok(())
    }
}


/// The line of one record: the name, with each backslash doubled, and the six fields.
pub open spec fn record_text(name: Seq<char>, activity: Activity) -> Seq<char> {
    "("@ + replace_char(name, '\\', "\\\\"@) + " (T0 "@ + decimal(activity.low_time as nat)
        + ") (T1 "@ + decimal(activity.high_time as nat) + ") (TX "@ + decimal(
        activity.x_time as nat,
    ) + ") (TZ "@ + decimal(activity.z_time as nat) + ") (TC "@ + decimal(
        activity.clean_trans_count as nat,
    ) + ") (IG "@ + decimal(activity.glitch_trans_count as nat) + "))\n"@
}

/// The depth of nesting after `line` at depth `depth`: a closing line never goes above the
/// outermost level.
pub open spec fn depth_after(line: Line, depth: nat) -> nat {
    match line {
        Line::Instance(_) => depth + 1,
        Line::Net => depth + 1,
        Line::Record(_, _) => depth,
        Line::Close => if depth > 0 {
            (depth - 1) as nat
        } else {
            0
        },
    }
}

/// The text of `line` at depth `depth`, indented by two blanks per level. A closing line
/// stands at the depth of the line that opened the block.
pub open spec fn line_text(line: Line, depth: nat) -> Seq<char> {
    match line {
        Line::Instance(name) => indentation(depth) + "(INSTANCE "@ + name + "\n"@,
        Line::Net => indentation(depth) + "(NET\n"@,
        Line::Record(name, activity) => indentation(depth) + record_text(name, activity),
        Line::Close => indentation(depth_after(line, depth)) + ")\n"@,
    }
}

/// The text of the lines `lines`, the first of them at depth `depth`.
pub open spec fn lines_text(lines: Seq<Line>, depth: nat) -> Seq<char>
    decreases lines.len(),
{
    if lines.len() == 0 {
        Seq::empty()
    } else {
        line_text(lines[0], depth) + lines_text(lines.drop_first(), depth_after(lines[0], depth))
    }
}

fn push_record(out: &mut String, name: &str, stat: &SignalStats)
    ensures
        final(out)@ == old(out)@ + record_text(name@, stat@),
{
    let ghost before = out@;
    out.append("(");
    push_replaced(out, name, '\\', "\\\\");
    out.append(" (T0 ");
    push_decimal(out, stat.low_time);
    out.append(") (T1 ");
    push_decimal(out, stat.high_time);
    out.append(") (TX ");
    push_decimal(out, stat.x_time);
    out.append(") (TZ ");
    push_decimal(out, stat.z_time);
    out.append(") (TC ");
    push_decimal(out, stat.clean_trans_count);
    out.append(") (IG ");
    push_decimal(out, stat.glitch_trans_count);
    out.append("))\n");
    assert(out@ =~= before + record_text(name@, stat@));
}

/// Appends the text of `lines` to `out`, the first of them at depth `indent`.
pub fn write_lines(out: &mut String, lines: &Vec<SaifLine>, indent: usize)
    ensures
        final(out)@ == old(out)@ + lines_text(lines_of(lines@), indent as nat),
{
    let ghost before = out@;
    let ghost all = lines_of(lines@);
    let mut margin = String::new();
    push_indent(&mut margin, indent);
    let ghost mut depth: nat = indent as nat;
    let mut i: usize = 0;
    proof {
        assert(all.skip(0) =~= all);
        assert(margin@ =~= indentation(depth));
    }
    while i < lines.len()
        invariant
            i <= lines.len(),
            all == lines_of(lines@),
            margin@ == indentation(depth),
            out@ + lines_text(all.skip(i as int), depth) == before + lines_text(
                all,
                indent as nat,
            ),
        decreases lines.len() - i,
    {
        let ghost here = all.skip(i as int);
        let ghost so_far = out@;
        let ghost line = lines@[i as int]@;
        proof {
            assert(here[0] == line);
            assert(here.drop_first() =~= all.skip(i + 1));
        }
        match &lines[i] {
            SaifLine::Instance(name) => {
                out.append(margin.as_str());
                out.append("(INSTANCE ");
                out.append(name.as_str());
                out.append("\n");
                margin.push(' ');
                margin.push(' ');
                proof {
                    assert(out@ =~= so_far + line_text(line, depth));
                    assert(margin@ =~= indentation(depth + 1));
                }
            },
            SaifLine::Net => {
                out.append(margin.as_str());
                out.append("(NET\n");
                margin.push(' ');
                margin.push(' ');
                proof {
                    assert(out@ =~= so_far + line_text(line, depth));
                    assert(margin@ =~= indentation(depth + 1));
                }
            },
            SaifLine::Record(name, stat) => {
                out.append(margin.as_str());
                push_record(out, name.as_str(), stat);
                proof {
                    assert(out@ =~= so_far + line_text(line, depth));
                }
            },
            SaifLine::Close => {
                margin.pop();
                margin.pop();
                proof {
                    if depth > 0 {
                        assert(indentation(depth).drop_last().drop_last() =~= indentation(
                            (depth - 1) as nat,
                        ));
                    }
                    assert(margin@ =~= indentation(depth_after(line, depth)));
                }
                out.append(margin.as_str());
                out.append(")\n");
                proof {
                    assert(out@ =~= so_far + line_text(line, depth));
                }
            },
        }
        proof {
            assert(so_far + (line_text(line, depth) + lines_text(
                all.skip(i + 1),
                depth_after(line, depth),
            )) =~= out@ + lines_text(all.skip(i + 1), depth_after(line, depth)));
            depth = depth_after(line, depth);
        }
        i += 1;
    }
    proof {
        assert(all.skip(lines.len() as int).len() == 0);
        assert(out@ + Seq::<char>::empty() =~= out@);
    }
}

/// The suffix that stands for a unit of time; an unknown unit has none.
pub open spec fn unit_suffix(unit: TimescaleUnit) -> Option<Seq<char>> {
    match unit {
        TimescaleUnit::FemtoSeconds => Some("fs"@),
        TimescaleUnit::PicoSeconds => Some("ps"@),
        TimescaleUnit::NanoSeconds => Some("ns"@),
        TimescaleUnit::MicroSeconds => Some("us"@),
        TimescaleUnit::MilliSeconds => Some("ms"@),
        TimescaleUnit::Seconds => Some("s"@),
        TimescaleUnit::Unknown => None,
    }
}

/// A unit of time as a SAIF report writes it.
pub struct DisplayTimescaleUnit(pub TimescaleUnit);

impl DisplayTimescaleUnit {
    /// The suffix of the unit; an unknown unit has none.
    pub fn fmt(&self) -> (suffix: Option<&'static str>)
        ensures
            match unit_suffix(self.0) {
                Some(text) => suffix is Some && suffix->0@ == text,
                None => suffix is None,
            },
    {
        match self.0 {
            TimescaleUnit::FemtoSeconds => Some("fs"),
            TimescaleUnit::PicoSeconds => Some("ps"),
            TimescaleUnit::NanoSeconds => Some("ns"),
            TimescaleUnit::MicroSeconds => Some("us"),
            TimescaleUnit::MilliSeconds => Some("ms"),
            TimescaleUnit::Seconds => Some("s"),
            TimescaleUnit::Unknown => None,
        }
    }
}

/// The head of a SAIF report: the fixed lines, the date, the program's name and version,
/// the time scale as `factor` and the unit's suffix, and the duration.
pub open spec fn header_text(
    date: Seq<char>,
    program_name: Seq<char>,
    program_version: Seq<char>,
    factor: nat,
    suffix: Seq<char>,
    duration: nat,
) -> Seq<char> {
    "(SAIFILE\n  (SAIFVERSION \"2.0\")\n  (DIRECTION \"backward\")\n  (DESIGN )\n  (DATE \""@
        + date + "\")\n  (PROGRAM_NAME \""@ + program_name + "\")\n  (VERSION \""@
        + program_version + "\")\n  (DIVIDER / )\n  (TIMESCALE "@ + decimal(factor) + suffix
        + ")\n  (DURATION "@ + decimal(duration) + ")\n"@
}

fn push_header(
    out: &mut String,
    date: &str,
    program_name: &str,
    program_version: &str,
    factor: u32,
    suffix: &str,
    duration: u64,
)
    ensures
        final(out)@ == old(out)@ + header_text(
            date@,
            program_name@,
            program_version@,
            factor as nat,
            suffix@,
            duration as nat,
        ),
{
    let ghost before = out@;
    out.append(
        "(SAIFILE\n  (SAIFVERSION \"2.0\")\n  (DIRECTION \"backward\")\n  (DESIGN )\n  (DATE \"",
    );
    out.append(date);
    out.append("\")\n  (PROGRAM_NAME \"");
    out.append(program_name);
    out.append("\")\n  (VERSION \"");
    out.append(program_version);
    out.append("\")\n  (DIVIDER / )\n  (TIMESCALE ");
    push_decimal(out, factor as u64);
    out.append(suffix);
    out.append(")\n  (DURATION ");
    push_decimal(out, duration);
    out.append(")\n");
    assert(out@ =~= before + header_text(
        date@,
        program_name@,
        program_version@,
        factor as nat,
        suffix@,
        duration as nat,
    ));
}


/// A SAIF report, and the names of the records in it whose clean-transition count is above
/// one: those are worth a diagnostic.
pub struct SaifReport {
    pub text: String,
    pub glitches: Vec<String>,
}

/// What the SAIF renderer has got at the end of the walk of `ctx` for window `iteration`, or
/// the error that ended the walk.
pub open spec fn export_state<'a>(ctx: &'a Context, iteration: nat) -> Result<
    SaifState,
    ExportError,
> {
    match ctx.settings() {
        None => Err(ExportError::ScopeNotFound),
        Some(settings) => run_trail::<SaifAgent<'a>>(
            SaifState {
                stats: table_of(ctx.stats@),
                span_index: iteration,
                stack: Seq::empty(),
                lines: Seq::empty(),
                glitches: Seq::empty(),
            },
            hierarchy_trail(settings, ctx.wave.hierarchy, ctx.lookup_point),
        ),
    }
}

/// The SAIF report of window `iteration`, dated `date`: the head, the body that the walk
/// gives, indented by one level, and the closing bracket.
///
/// A trace without a time scale, or with one in an unknown unit, is `UnknownTimescale`, and
/// one that is cut into no windows is `MissingStats`; then come the errors of the walk.
pub open spec fn export_text(
    ctx: &Context,
    program_name: Seq<char>,
    program_version: Seq<char>,
    date: Seq<char>,
    iteration: nat,
) -> Result<Seq<char>, ExportError> {
    match ctx.wave.timescale {
        None => Err(ExportError::UnknownTimescale),
        Some(timescale) => match unit_suffix(timescale.unit) {
            None => Err(ExportError::UnknownTimescale),
            Some(suffix) => if ctx.num_of_iterations == 0 {
                Err(ExportError::MissingStats)
            } else {
                match export_state(ctx, iteration) {
                    Err(e) => Err(e),
                    Ok(state) => Ok(
                        header_text(
                            date,
                            program_name,
                            program_version,
                            timescale.factor as nat,
                            suffix,
                            (ctx.wave.end_time / ctx.num_of_iterations) as nat,
                        ) + lines_text(state.lines, 1) + ")\n"@,
                    ),
                }
            },
        },
    }
}

/// How a report writes its date: weekday, month, day, time and year.
pub const DATE_FORMAT: &'static str = "%a %b %-d %T %Y";

/// `chrono::Utc::now` and `chrono::DateTime::format`: the date and time of the call in UTC,
/// written as `DATE_FORMAT` says. It depends on the clock, so nothing is claimed of the text.
/// `Utc::now` panics where the system clock stands before 1970.
#[verifier::external_body]
fn utc_date() -> (date: String) {
    chrono::Utc::now().format(DATE_FORMAT).to_string()
}

/// Renders window `iteration` of the statistics of `ctx` as a SAIF report dated `date`.
pub fn export_dated(
    ctx: &Context,
    program_name: &str,
    program_version: &str,
    date: &str,
    iteration: usize,
) -> (result: Result<SaifReport, ExportError>)
    ensures
        match export_text(ctx, program_name@, program_version@, date@, iteration as nat) {
            Ok(text) => result is Ok && result->Ok_0.text@ == text && texts(
                result->Ok_0.glitches@,
            ) == export_state(ctx, iteration as nat)->Ok_0.glitches,
            Err(e) => result is Err && result->Err_0 == e,
        },
{
    let timescale: Timescale = match ctx.wave.timescale {
        Some(timescale) => timescale,
        None => {
            return Err(ExportError::UnknownTimescale);
        },
    };
    let suffix = match DisplayTimescaleUnit(timescale.unit).fmt() {
        Some(suffix) => suffix,
        None => {
            return Err(ExportError::UnknownTimescale);
        },
    };
    if ctx.num_of_iterations == 0 {
        return Err(ExportError::MissingStats);
    }
    let mut text = String::new();
    push_header(
        &mut text,
        date,
        program_name,
        program_version,
        timescale.factor,
        suffix,
        ctx.wave.end_time / ctx.num_of_iterations,
    );
    let visitor_ctx = match ctx.visit_ctx() {
        Ok(visitor_ctx) => visitor_ctx,
        Err(e) => {
            return Err(e);
        },
    };
    let mut agent = SaifAgent::new(&ctx.stats, iteration);
    match visit_hierarchy(&mut agent, &ctx.lookup_point, &ctx.wave.hierarchy, &visitor_ctx) {
        Ok(_) => {},
        Err(e) => {
            return Err(e);
        },
    }
    write_lines(&mut text, &agent.lines, 1);
    text.append(")\n");
    Ok(SaifReport { text, glitches: agent.glitches })
}

/// Renders window `iteration` of the statistics of `ctx` as a SAIF report dated now.
pub fn export(
    ctx: &Context,
    program_name: &str,
    program_version: &str,
    iteration: usize,
) -> (result: Result<SaifReport, ExportError>)
    ensures
        exists|date: Seq<char>|
            match #[trigger] export_text(
                ctx,
                program_name@,
                program_version@,
                date,
                iteration as nat,
            ) {
                Ok(text) => result is Ok && result->Ok_0.text@ == text && texts(
                    result->Ok_0.glitches@,
                ) == export_state(ctx, iteration as nat)->Ok_0.glitches,
                Err(e) => result is Err && result->Err_0 == e,
            },
{
    let date = utc_date();
    export_dated(ctx, program_name, program_version, date.as_str(), iteration)
}


/// Whether no block among the lines `lines` is empty: the line after one that opens an
/// instance opens its nets or a child instance, and the line after one that opens the nets
/// is a record.
pub open spec fn populated(lines: Seq<Line>) -> bool {
    forall|i: int|
        0 <= i < lines.len() ==> match #[trigger] lines[i] {
            Line::Instance(_) => i + 1 < lines.len() && (lines[i + 1] is Net || lines[i
                + 1] is Instance),
            Line::Net => i + 1 < lines.len() && lines[i + 1] is Record,
            _ => true,
        }
}

/// Whether the scopes of `stack` that are open are the outer ones.
pub open spec fn opened_from_outside(stack: Seq<Frame>) -> bool {
    forall|i: int, j: int|
        0 <= i < j < stack.len() && (#[trigger] stack[j]).opened ==> (#[trigger] stack[i]).opened
}

impl SaifState {
    /// Whether the state is one that a walk can lead to: no block written is empty, and a
    /// scope is open only if those around it are.
    pub open spec fn tidy(self) -> bool {
        populated(self.lines) && opened_from_outside(self.stack)
    }
}

/// The opening lines that are due open instances only, and as long as the innermost scope is
/// open none is due.
proof fn lemma_pending_opens(stack: Seq<Frame>)
    requires
        opened_from_outside(stack),
    ensures
        forall|i: int|
            0 <= i < pending_opens(stack).len() ==> (#[trigger] pending_opens(
                stack,
            )[i]) is Instance,
        stack.len() > 0 && stack.last().opened ==> pending_opens(stack).len() == 0,
        stack.len() == 0 ==> pending_opens(stack).len() == 0,
    decreases stack.len(),
{
    if stack.len() > 0 {
        let rest = stack.drop_last();
        assert(opened_from_outside(rest)) by {
            assert forall|i: int, j: int|
                0 <= i < j < rest.len() && (#[trigger] rest[j]).opened implies (
            #[trigger] rest[i]).opened by {
                assert(stack[j].opened);
                assert(stack[i].opened);
            }
        }
        lemma_pending_opens(rest);
        if stack.last().opened && rest.len() > 0 {
            assert(stack[stack.len() - 1].opened);
            assert(stack[rest.len() - 1].opened);
            assert(rest.last().opened);
        }
    }
}

/// Writing the records of a net leaves no block empty.
proof fn lemma_records_keep_tidy(state: SaifState, records: Seq<Line>)
    requires
        state.tidy(),
        forall|i: int| 0 <= i < records.len() ==> (#[trigger] records[i]) is Record,
    ensures
        state.with_records(records).tidy(),
{
    if records.len() > 0 {
        lemma_pending_opens(state.stack);
        let opens = pending_opens(state.stack);
        let after = state.with_records(records);
        let net: Seq<Line> = if state.stack.len() > 0 && !state.stack.last().opened {
            seq![Line::Net]
        } else {
            Seq::empty()
        };
        assert(after.lines == state.lines + opens + net + records);
        assert(opens.len() > 0 ==> net.len() == 1);
        assert forall|i: int| 0 <= i < after.lines.len() implies match #[trigger] after.lines[i] {
            Line::Instance(_) => i + 1 < after.lines.len() && (after.lines[i + 1] is Net
                || after.lines[i + 1] is Instance),
            Line::Net => i + 1 < after.lines.len() && after.lines[i + 1] is Record,
            _ => true,
        } by {
            let a = state.lines.len() as int;
            let b = a + opens.len();
            let c = b + net.len();
            if i < a {
                assert(after.lines[i] == state.lines[i]);
                if state.lines[i] is Instance || state.lines[i] is Net {
                    assert(i + 1 < a);
                    assert(after.lines[i + 1] == state.lines[i + 1]);
                }
            } else if i < b {
                assert(after.lines[i] == opens[i - a]);
                if i + 1 < b {
                    assert(after.lines[i + 1] == opens[i + 1 - a]);
                } else {
                    assert(after.lines[i + 1] == net[0]);
                }
            } else if i < c {
                assert(after.lines[i] == net[0]);
                assert(after.lines[i + 1] == records[0]);
            } else {
                assert(after.lines[i] == records[i - c]);
            }
        }
    }
}

/// The records of a net are records.
proof fn lemma_net_records(net: Net, stats: PackedActivity)
    ensures
        forall|i: int|
            0 <= i < net_records(net, stats).len() ==> (#[trigger] net_records(
                net,
                stats,
            )[i]) is Record,
{
}

/// No step of the renderer leaves a block empty.
pub proof fn lemma_step_keeps_tidy(state: SaifState, event: VisitEvent)
    requires
        state.tidy(),
    ensures
        state.after(event) matches Ok(next) ==> next.tidy(),
{
    match event {
        VisitEvent::EnterScope(scope) => {},
        VisitEvent::EnterNet(net) => {
            if net.var < state.stats.len() && state.span_index < state.stats[net.var as int].len() {
                let stats = state.stats[net.var as int][state.span_index as int];
                lemma_net_records(net, stats);
                lemma_records_keep_tidy(state, net_records(net, stats));
            }
        },
        VisitEvent::EndNets => {},
        VisitEvent::EndScopes => {},
        VisitEvent::ExitScope(_) => {},
    }
}

/// A SAIF report has no empty block: whatever the walk tells the renderer, every instance
/// that it opens holds a block of nets or a child instance, and every block of nets holds a
/// record.
pub proof fn lemma_no_empty_block<'a>(state: SaifState, events: Seq<VisitEvent>)
    requires
        state.tidy(),
    ensures
        run_events::<SaifAgent<'a>>(state, events) matches Ok(after) ==> after.tidy(),
    decreases events.len(),
{
    if events.len() > 0 {
        lemma_step_keeps_tidy(state, events[0]);
        match state.after(events[0]) {
            Err(_) => {},
            Ok(next) => {
                lemma_no_empty_block(next, events.drop_first());
            },
        }
    }
}

/// The body of the report that an export writes has no empty block.
pub proof fn lemma_export_has_no_empty_block(ctx: &Context, iteration: nat)
    ensures
        export_state(ctx, iteration) matches Ok(state) ==> populated(state.lines),
{
    match ctx.settings() {
        None => {},
        Some(settings) => {
            let start = SaifState {
                stats: table_of(ctx.stats@),
                span_index: iteration,
                stack: Seq::empty(),
                lines: Seq::empty(),
                glitches: Seq::empty(),
            };
            lemma_no_empty_block(
                start,
                hierarchy_trail(settings, ctx.wave.hierarchy, ctx.lookup_point).events,
            );
        },
    }
}

} // verus!
