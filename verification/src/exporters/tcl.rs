use crate::context::Context;
use crate::exporters::saif::table_of;
use crate::exporters::{
    hierarchy_trail, run_events, run_trail, visit_hierarchy, ExportError, LookupPoint,
    TraceVisitorAgent, VisitEvent,
};
use crate::hierarchy::path_names;
use crate::stats::{Activity, PackedActivity, PackedStats, SignalStats};
use crate::text::{join, push_joined, push_replaced, replace_char, texts};
use crate::waveform::{bit_name, bit_name_text, exponent_of, Net, Scope};
use vstd::prelude::*;
use vstd::std_specs::convert::FromSpecImpl;
use vstd::string::StringExecFns;

verus! {

/// What the duty and the activity of a pin are computed from. Pins that agree in it form
/// one group.
#[derive(Copy, Clone, Debug, PartialEq, Eq, Hash, Structural)]
pub struct TclStat {
    pub high_time: u64,
    pub trans_count_doubled: u64,
}

impl<'a> From<&'a SignalStats> for TclStat {
    fn from(value: &'a SignalStats) -> (stat: Self) {
        Self { high_time: value.high_time, trans_count_doubled: value.trans_count_doubled }
    }
}

impl<'a> FromSpecImpl<&'a SignalStats> for TclStat {
    open spec fn obeys_from_spec() -> bool {
        true
    }

    open spec fn from_spec(value: &'a SignalStats) -> Self {
        Self { high_time: value.high_time, trans_count_doubled: value.trans_count_doubled }
    }
}

/// The mathematical content of a `TclStat`.
pub struct GroupKey {
    pub high_time: int,
    pub trans_count_doubled: int,
}

impl View for TclStat {
    type V = GroupKey;

    open spec fn view(&self) -> GroupKey {
        GroupKey {
            high_time: self.high_time as int,
            trans_count_doubled: self.trans_count_doubled as int,
        }
    }
}

/// The key of the group that a bit with the activity `activity` belongs to.
pub open spec fn key_of(activity: Activity) -> GroupKey {
    GroupKey {
        high_time: activity.high_time,
        trans_count_doubled: activity.trans_count_doubled,
    }
}

/// The pins that share one `TclStat`, in the order in which the walk came to them.
pub struct TclGroup {
    pub stat: TclStat,
    pub pins: Vec<String>,
}

/// The mathematical content of a `TclGroup`.
pub struct Group {
    pub key: GroupKey,
    pub pins: Seq<Seq<char>>,
}

impl View for TclGroup {
    type V = Group;

    open spec fn view(&self) -> Group {
        Group { key: self.stat@, pins: texts(self.pins@) }
    }
}

/// The groups that a list of groups holds.
pub open spec fn groups_of(groups: Seq<TclGroup>) -> Seq<Group> {
    groups.map_values(|group: TclGroup| group@)
}

/// A pin and the key of its group.
pub struct Pin {
    pub key: GroupKey,
    pub name: Seq<char>,
}

/// The position of the group with the key `key` among the first `upto` of `groups`, if
/// there is one.
pub open spec fn group_index(groups: Seq<Group>, key: GroupKey, upto: int) -> Option<int>
    decreases upto,
{
    if upto <= 0 {
        None
    } else {
        match group_index(groups, key, upto - 1) {
            Some(i) => Some(i),
            None => if groups[upto - 1].key == key {
                Some(upto - 1)
            } else {
                None
            },
        }
    }
}

/// The groups with `pin` added: at the end of the group with its key if there is one, else
/// as a new group of its own after all others.
pub open spec fn with_pin(groups: Seq<Group>, pin: Pin) -> Seq<Group> {
    match group_index(groups, pin.key, groups.len() as int) {
        Some(i) => groups.update(i, Group { key: pin.key, pins: groups[i].pins.push(pin.name) }),
        None => groups.push(Group { key: pin.key, pins: seq![pin.name] }),
    }
}

/// The groups with the pins `pins` added one after the other.
pub open spec fn with_pins(groups: Seq<Group>, pins: Seq<Pin>) -> Seq<Group>
    decreases pins.len(),
{
    if pins.len() == 0 {
        groups
    } else {
        with_pin(with_pins(groups, pins.drop_last()), pins.last())
    }
}

/// The name of a net in the scope with the path `scope`: the names of the scopes joined by
/// dots, a slash, and the net's own name.
pub open spec fn pin_name(scope: Seq<Seq<char>>, net: Seq<char>) -> Seq<char> {
    join(scope, "."@) + "/"@ + net
}

/// The pins of the net called `fname` with the statistics `stats`: one for a net of width
/// 1, and one per bit for any other, under the name of the bit.
pub open spec fn net_pins(fname: Seq<char>, stats: PackedActivity) -> Seq<Pin> {
    match stats {
        PackedActivity::OneBit(activity) => seq![Pin { key: key_of(activity), name: fname }],
        PackedActivity::Vector(bits) => Seq::new(
            bits.len(),
            |k: int| Pin { key: key_of(bits[k]), name: bit_name_text(fname, k as nat) },
        ),
    }
}

/// What the Tcl renderer has got so far.
pub struct TclState {
    /// The statistics table that it renders from.
    pub stats: Seq<Seq<PackedActivity>>,
    /// The window that it renders.
    pub span_index: nat,
    /// The groups of pins, in the order in which the first pin of each was found.
    pub groups: Seq<Group>,
    /// The names of the scopes that the walk is in, outermost first.
    pub scope: Seq<Seq<char>>,
}

impl TclState {
    /// The state after `event`.
    ///
    /// Entering a scope puts its name on the path and leaving it takes the name off. A net
    /// adds its pins to their groups. A net for which the table has no statistics for the
    /// window is `MissingStats`.
    pub open spec fn after(self, event: VisitEvent) -> Result<TclState, ExportError> {
        match event {
            VisitEvent::EnterScope(scope) => Ok(
                TclState { scope: self.scope.push(scope.name@), ..self },
            ),
            VisitEvent::EnterNet(net) => if net.var < self.stats.len() && self.span_index
                < self.stats[net.var as int].len() {
                Ok(
                    TclState {
                        groups: with_pins(
                            self.groups,
                            net_pins(
                                pin_name(self.scope, net.name@),
                                self.stats[net.var as int][self.span_index as int],
                            ),
                        ),
                        ..self
                    },
                )
            } else {
                Err(ExportError::MissingStats)
            },
            VisitEvent::EndNets => Ok(self),
            VisitEvent::EndScopes => Ok(self),
            VisitEvent::ExitScope(_) => if self.scope.len() == 0 {
                Ok(self)
            } else {
                Ok(TclState { scope: self.scope.drop_last(), ..self })
            },
        }
    }
}

/// Groups the pins of one window of a statistics table by what their duty and activity are
/// computed from, driven by a walk.
pub struct TclAgent<'a> {
    pub stats: &'a Vec<Vec<PackedStats>>,
    pub span_index: usize,
    pub grouped_stats: Vec<TclGroup>,
    pub scope: Vec<String>,
}

impl<'a> TclAgent<'a> {
    /// A renderer of window `span_index` of `stats` that has found no pin yet.
    pub fn new(stats: &'a Vec<Vec<PackedStats>>, span_index: usize) -> (agent: Self)
        ensures
            agent.state() == (TclState {
                stats: table_of(stats@),
                span_index: span_index as nat,
                groups: Seq::empty(),
                scope: Seq::empty(),
            }),
            agent.scope@.len() == 0,
    {
        let agent = Self { stats, span_index, grouped_stats: Vec::new(), scope: Vec::new() };
        proof {
            assert(agent.state().groups =~= Seq::<Group>::empty());
            assert(agent.state().scope =~= Seq::<Seq<char>>::empty());
        }
        agent
    }

    /// Adds the pin `name` to the group of `stat`.
    fn add_pin(&mut self, stat: TclStat, name: String)
        ensures
            final(self).stats == old(self).stats,
            final(self).span_index == old(self).span_index,
            final(self).scope == old(self).scope,
            groups_of(final(self).grouped_stats@) == with_pin(
                groups_of(old(self).grouped_stats@),
                Pin { key: stat@, name: name@ },
            ),
    {
        let ghost groups = groups_of(self.grouped_stats@);
        let n: usize = self.grouped_stats.len();
        let mut i: usize = 0;
        while i < n
            invariant
                i <= n,
                n == self.grouped_stats.len(),
                self.stats == old(self).stats,
                self.span_index == old(self).span_index,
                self.scope == old(self).scope,
                self.grouped_stats == old(self).grouped_stats,
                groups == groups_of(self.grouped_stats@),
                group_index(groups, stat@, i as int) is None,
            decreases n - i,
        {
            let same = self.grouped_stats[i].stat.high_time == stat.high_time
                && self.grouped_stats[i].stat.trans_count_doubled == stat.trans_count_doubled;
            if same {
                proof {
                    assert(groups[i as int].key == stat@);
                    lemma_group_index_stays(groups, stat@, i + 1, n as int);
                }
                let ghost pins = self.grouped_stats@[i as int].pins@;
                self.grouped_stats[i].pins.push(name);
                proof {
                    assert(texts(self.grouped_stats@[i as int].pins@) =~= texts(pins).push(name@));
                    assert(groups_of(self.grouped_stats@) =~= with_pin(
                        groups,
                        Pin { key: stat@, name: name@ },
                    ));
                }
                return ;
            }
            i += 1;
        }
        let mut pins: Vec<String> = Vec::new();
        pins.push(name);
        self.grouped_stats.push(TclGroup { stat, pins });
        proof {
            assert(texts(pins@) =~= seq![name@]);
            assert(groups_of(self.grouped_stats@) =~= with_pin(
                groups,
                Pin { key: stat@, name: name@ },
            ));
        }
    }
}

/// A group found among the first `from` groups is the one found among more.
proof fn lemma_group_index_stays(groups: Seq<Group>, key: GroupKey, from: int, upto: int)
    requires
        0 <= from <= upto,
        group_index(groups, key, from) is Some,
    ensures
        group_index(groups, key, upto) == group_index(groups, key, from),
    decreases upto - from,
{
    if from < upto {
        lemma_group_index_stays(groups, key, from, upto - 1);
    }
}

impl<'a> TraceVisitorAgent for TclAgent<'a> {
    type State = TclState;

    open spec fn state(&self) -> TclState {
        TclState {
            stats: table_of(self.stats@),
            span_index: self.span_index as nat,
            groups: groups_of(self.grouped_stats@),
            scope: texts(self.scope@),
        }
    }

    open spec fn step(state: TclState, event: VisitEvent) -> Result<TclState, ExportError> {
        state.after(event)
    }

    fn enter_scope(&mut self, scope: &Scope) -> (result: Result<(), ExportError>) {
        self.scope.push(scope.name.clone());
        proof {
            assert(texts(self.scope@) =~= texts(old(self).scope@).push(scope.name@));
        }
        Ok(())
    }

    fn exit_scope(&mut self, scope: &Scope) -> (result: Result<(), ExportError>) {
        self.scope.pop();
        proof {
            if old(self).scope.len() > 0 {
                assert(texts(self.scope@) =~= texts(old(self).scope@).drop_last());
            }
        }
        Ok(())
    }

    fn end_scopes(&mut self) -> (result: Result<(), ExportError>) {
        Ok(())
    }

    fn enter_net(&mut self, net: &Net) -> (result: Result<(), ExportError>) {
        if net.var >= self.stats.len() {
            return Err(ExportError::MissingStats);
        }
        let stats: &'a Vec<Vec<PackedStats>> = self.stats;
        let spans = &stats[net.var];
        if self.span_index >= spans.len() {
            return Err(ExportError::MissingStats);
        }
        let mut fname = String::new();
        push_joined(&mut fname, &self.scope, ".");
        fname.append("/");
        fname.append(net.name.as_str());
        let ghost before = self.state();
        let ghost pins = net_pins(fname@, spans@[self.span_index as int]@);
        proof {
            assert(fname@ =~= pin_name(before.scope, net.name@));
        }
        match &spans[self.span_index] {
            PackedStats::OneBit(stat) => {
                let ghost name = fname@;
                self.add_pin(TclStat::from(stat), fname);
                proof {
                    assert(pins =~= seq![Pin { key: key_of(stat@), name }]);
                    assert(pins.drop_last() =~= Seq::<Pin>::empty());
                    assert(with_pins(before.groups, pins.drop_last()) == before.groups);
                    assert(pins.last() == Pin { key: key_of(stat@), name });
                    assert(groups_of(self.grouped_stats@) == with_pins(before.groups, pins));
                }
            },
            PackedStats::Vector(bits) => {
                let mut idx: usize = 0;
                while idx < bits.len()
                    invariant
                        idx <= bits.len(),
                        pins.len() == bits.len(),
                        forall|k: int|
                            0 <= k < bits.len() ==> #[trigger] pins[k] == (Pin {
                                key: key_of(bits@[k]@),
                                name: bit_name_text(fname@, k as nat),
                            }),
                        self.stats == old(self).stats,
                        self.span_index == old(self).span_index,
                        self.scope == old(self).scope,
                        groups_of(self.grouped_stats@) == with_pins(
                            before.groups,
                            pins.take(idx as int),
                        ),
                    decreases bits.len() - idx,
                {
                    proof {
                        assert(pins.take(idx + 1).drop_last() =~= pins.take(idx as int));
                        assert(pins.take(idx + 1).last() == pins[idx as int]);
                    }
                    let name = bit_name(fname.as_str(), idx);
                    self.add_pin(TclStat::from(&bits[idx]), name);
                    idx += 1;
                }
                proof {
                    assert(pins.take(bits.len() as int) =~= pins);
                    assert(groups_of(self.grouped_stats@) == with_pins(before.groups, pins));
                }
            },
        }
        Ok(())
    }

    fn end_nets(&mut self) -> (result: Result<(), ExportError>) {
        Ok(())
    }
}


/// The text `name` without its first `count` characters; nothing is left of a text that has
/// no more than that.
pub open spec fn strip_front(name: Seq<char>, count: nat) -> Seq<char> {
    if count <= name.len() {
        name.skip(count as int)
    } else {
        Seq::empty()
    }
}

/// The name of a pin as the script writes it: without its first `count` characters, and
/// escaped: each backslash is doubled, and a backslash stands before each dollar sign.
pub open spec fn pin_text(name: Seq<char>, count: nat) -> Seq<char> {
    replace_char(replace_char(strip_front(name, count), '\\', "\\\\"@), '$', "\\$"@)
}

/// The names of the pins `pins` as the script writes them, with a blank between each two.
pub open spec fn pins_text(pins: Seq<Seq<char>>, count: nat) -> Seq<char> {
    join(pins.map_values(|name: Seq<char>| pin_text(name, count)), " "@)
}

fn strip_chars(name: &str, count: usize) -> (rest: String)
    ensures
        rest@ == strip_front(name@, count as nat),
{
    let mut rest = String::new();
    let mut seen: usize = 0;
    for c in it: name.chars()
        invariant
            it.seq() == name@,
            seen <= count,
            seen <= it.index(),
            seen == count || seen == it.index(),
            rest@ == strip_front(name@.take(it.index() as int), count as nat),
    {
        proof {
            let i = it.index() as int;
            if count <= i {
                assert(name@.take(i + 1).skip(count as int) =~= name@.take(i).skip(
                    count as int,
                ).push(c));
            } else if count == i + 1 {
                assert(name@.take(i + 1).skip(count as int) =~= Seq::<char>::empty());
            }
        }
        if seen < count {
            seen += 1;
        } else {
            rest.push(c);
        }
    }
    proof {
        assert(name@.take(name@.len() as int) =~= name@);
    }
    rest
}

fn write_pin(out: &mut String, name: &str, count: usize)
    ensures
        final(out)@ == old(out)@ + pin_text(name@, count as nat),
{
    let rest = strip_chars(name, count);
    let mut doubled = String::new();
    push_replaced(&mut doubled, rest.as_str(), '\\', "\\\\");
    proof {
        assert(doubled@ =~= replace_char(rest@, '\\', "\\\\"@));
    }
    push_replaced(out, doubled.as_str(), '$', "\\$");
}

/// One line of the script: what the duty and the activity of its pins are computed from,
/// and the names of the pins.
pub struct TclEntry {
    pub stat: TclStat,
    pub pins: String,
}

/// The mathematical content of a `TclEntry`.
pub struct Entry {
    pub key: GroupKey,
    pub pins: Seq<char>,
}

impl View for TclEntry {
    type V = Entry;

    open spec fn view(&self) -> Entry {
        Entry { key: self.stat@, pins: self.pins@ }
    }
}

/// The entries that a list of entries holds.
pub open spec fn entries_of(entries: Seq<TclEntry>) -> Seq<Entry> {
    entries.map_values(|entry: TclEntry| entry@)
}

/// The entry of each of the groups `groups`, in their order.
pub open spec fn group_entries(groups: Seq<Group>, count: nat) -> Seq<Entry> {
    groups.map_values(|group: Group| Entry { key: group.key, pins: pins_text(group.pins, count) })
}

fn group_entry(group: &TclGroup, count: usize) -> (entry: TclEntry)
    ensures
        entry@ == (Entry { key: group.stat@, pins: pins_text(texts(group.pins@), count as nat) }),
{
    let ghost names = texts(group.pins@);
    let ghost written = names.map_values(|name: Seq<char>| pin_text(name, count as nat));
    let mut pins = String::new();
    let mut i: usize = 0;
    proof {
        assert(written.take(0) =~= Seq::<Seq<char>>::empty());
    }
    while i < group.pins.len()
        invariant
            i <= group.pins.len(),
            names == texts(group.pins@),
            written == names.map_values(|name: Seq<char>| pin_text(name, count as nat)),
            pins@ == join(written.take(i as int), " "@),
        decreases group.pins.len() - i,
    {
        proof {
            assert(written.take(i + 1).drop_last() =~= written.take(i as int));
            assert(written.take(i + 1).last() == pin_text(group.pins@[i as int]@, count as nat));
            if i == 0 {
                assert(written.take(0).len() == 0);
            }
        }
        if i > 0 {
            pins.append(" ");
        }
        write_pin(&mut pins, group.pins[i].as_str(), count);
        proof {
            if i == 0 {
                assert(pins@ =~= written.take(1)[0]);
            }
        }
        i += 1;
    }
    proof {
        assert(written.take(group.pins.len() as int) =~= written);
    }
    TclEntry { stat: group.stat, pins }
}

/// What a script of duties and activities is written from.
pub struct TclReport {
    /// The length of one window.
    pub duration: u64,
    /// The time scale of the trace: `factor` times ten to the power of `exponent` seconds.
    pub factor: u32,
    pub exponent: i8,
    /// One entry per group of pins, in the order in which the first pin of each was found.
    pub entries: Vec<TclEntry>,
}

/// The names of the scopes above the one that a walk starts from; none if the steps to it
/// lead nowhere.
pub open spec fn scope_above(ctx: &Context) -> Option<Seq<Seq<char>>> {
    match ctx.lookup_point {
        LookupPoint::Top => Some(Seq::empty()),
        LookupPoint::Scope(steps) => match path_names(ctx.wave.hierarchy.scopes@, steps@) {
            None => None,
            Some(names) => if names.len() > 0 {
                Some(names.drop_last())
            } else {
                Some(names)
            },
        },
    }
}

/// What the Tcl renderer has got at the end of the walk of `ctx` for window `iteration`, or
/// the error that ended the walk.
pub open spec fn export_state<'a>(ctx: &'a Context, iteration: nat) -> Result<
    TclState,
    ExportError,
> {
    match ctx.settings() {
        None => Err(ExportError::ScopeNotFound),
        Some(settings) => match scope_above(ctx) {
            None => Err(ExportError::ScopeNotFound),
            Some(scope) => run_trail::<TclAgent<'a>>(
                TclState {
                    stats: table_of(ctx.stats@),
                    span_index: iteration,
                    groups: Seq::empty(),
                    scope,
                },
                hierarchy_trail(settings, ctx.wave.hierarchy, ctx.lookup_point),
            ),
        },
    }
}

/// The entries of the script for window `iteration`.
///
/// A trace without a time scale, or with one in an unknown unit, is `UnknownTimescale`, and
/// one that is cut into no windows is `MissingStats`; then come the errors of the walk.
pub open spec fn export_entries(ctx: &Context, iteration: nat) -> Result<Seq<Entry>, ExportError> {
    match ctx.wave.timescale {
        None => Err(ExportError::UnknownTimescale),
        Some(timescale) => if exponent_of(timescale.unit) is None {
            Err(ExportError::UnknownTimescale)
        } else if ctx.num_of_iterations == 0 {
            Err(ExportError::MissingStats)
        } else {
            match export_state(ctx, iteration) {
                Err(e) => Err(e),
                Ok(state) => Ok(group_entries(state.groups, ctx.scope_prefix_length as nat)),
            }
        },
    }
}

/// Groups the pins of window `iteration` of the statistics of `ctx` for a script of duties
/// and activities. The duty of a group is its `high_time` by `duration`; its activity is
/// half its `trans_count_doubled` by the number of clock periods in `duration`.
pub fn export(ctx: &Context, iteration: usize) -> (result: Result<TclReport, ExportError>)
    ensures
        match export_entries(ctx, iteration as nat) {
            Ok(entries) => {
                &&& result is Ok
                &&& entries_of(result->Ok_0.entries@) == entries
                &&& result->Ok_0.duration == ctx.wave.end_time / ctx.num_of_iterations
                &&& result->Ok_0.factor == ctx.wave.timescale->0.factor
                &&& Some(result->Ok_0.exponent) == exponent_of(
                    ctx.wave.timescale->0.unit,
                )
            },
            Err(e) => result is Err && result->Err_0 == e,
        },
{
    let timescale = match ctx.wave.timescale {
        Some(timescale) => timescale,
        None => {
            return Err(ExportError::UnknownTimescale);
        },
    };
    let exponent: i8 = match timescale.unit.to_exponent() {
        Some(exponent) => exponent,
        None => {
            return Err(ExportError::UnknownTimescale);
        },
    };
    if ctx.num_of_iterations == 0 {
        return Err(ExportError::MissingStats);
    }
    let visitor_ctx = match ctx.visit_ctx() {
        Ok(visitor_ctx) => visitor_ctx,
        Err(e) => {
            return Err(e);
        },
    };
    let mut agent = TclAgent::new(&ctx.stats, iteration);
    match &ctx.lookup_point {
        LookupPoint::Top => {},
        LookupPoint::Scope(steps) => {
            match ctx.wave.hierarchy.scope_names(steps) {
                None => {
                    return Err(ExportError::ScopeNotFound);
                },
                Some(names) => {
                    let mut scope = names;
                    let ghost all = texts(scope@);
                    scope.pop();
                    proof {
                        if all.len() > 0 {
                            assert(texts(scope@) =~= all.drop_last());
                        }
                    }
                    agent.scope = scope;
                },
            }
        },
    }
    match visit_hierarchy(&mut agent, &ctx.lookup_point, &ctx.wave.hierarchy, &visitor_ctx) {
        Ok(_) => {},
        Err(e) => {
            return Err(e);
        },
    }
    let ghost groups = groups_of(agent.grouped_stats@);
    let ghost count = ctx.scope_prefix_length as nat;
    let mut entries: Vec<TclEntry> = Vec::new();
    let mut i: usize = 0;
    while i < agent.grouped_stats.len()
        invariant
            i <= agent.grouped_stats.len(),
            groups == groups_of(agent.grouped_stats@),
            count == ctx.scope_prefix_length,
            entries_of(entries@) == group_entries(groups, count).take(i as int),
        decreases agent.grouped_stats.len() - i,
    {
        let ghost before = entries@;
        entries.push(group_entry(&agent.grouped_stats[i], ctx.scope_prefix_length));
        proof {
            assert(entries_of(entries@) =~= entries_of(before).push(
                group_entries(groups, count)[i as int],
            ));
            assert(entries_of(entries@) =~= group_entries(groups, count).take(i + 1));
        }
        i += 1;
    }
    proof {
        assert(group_entries(groups, count).take(agent.grouped_stats.len() as int)
            =~= group_entries(groups, count));
    }
    Ok(
        TclReport {
            duration: ctx.wave.end_time / ctx.num_of_iterations,
            factor: timescale.factor,
            exponent,
            entries,
        },
    )
}


/// Whether no two of the groups `groups` have the same key.
pub open spec fn distinct_keys(groups: Seq<Group>) -> bool {
    forall|i: int, j: int|
        0 <= i < j < groups.len() ==> (#[trigger] groups[i]).key != (#[trigger] groups[j]).key
}

/// Where no group with a key is found, none has it; where one is found, it has it.
proof fn lemma_group_index(groups: Seq<Group>, key: GroupKey, upto: int)
    requires
        0 <= upto <= groups.len(),
    ensures
        match group_index(groups, key, upto) {
            Some(i) => 0 <= i < upto && groups[i].key == key,
            None => forall|i: int| 0 <= i < upto ==> (#[trigger] groups[i]).key != key,
        },
    decreases upto,
{
    if upto > 0 {
        lemma_group_index(groups, key, upto - 1);
    }
}

/// Adding a pin keeps the keys of the groups distinct.
pub proof fn lemma_pin_keeps_keys_distinct(groups: Seq<Group>, pin: Pin)
    requires
        distinct_keys(groups),
    ensures
        distinct_keys(with_pin(groups, pin)),
{
    lemma_group_index(groups, pin.key, groups.len() as int);
    let after = with_pin(groups, pin);
    assert forall|i: int, j: int| 0 <= i < j < after.len() implies (#[trigger] after[i]).key != (
    #[trigger] after[j]).key by {
        match group_index(groups, pin.key, groups.len() as int) {
            Some(k) => {
                assert(after[i].key == groups[i].key);
                assert(after[j].key == groups[j].key);
            },
            None => {
                if j < groups.len() {
                    assert(after[i] == groups[i]);
                    assert(after[j] == groups[j]);
                } else {
                    assert(after[i] == groups[i]);
                }
            },
        }
    }
}

proof fn lemma_pins_keep_keys_distinct(groups: Seq<Group>, pins: Seq<Pin>)
    requires
        distinct_keys(groups),
    ensures
        distinct_keys(with_pins(groups, pins)),
    decreases pins.len(),
{
    if pins.len() > 0 {
        lemma_pins_keep_keys_distinct(groups, pins.drop_last());
        lemma_pin_keeps_keys_distinct(with_pins(groups, pins.drop_last()), pins.last());
    }
}

/// Each group stands for one pair of high time and transition count: whatever the walk
/// tells the renderer, no two groups that it forms have the same key.
pub proof fn lemma_groups_have_distinct_keys<'a>(state: TclState, events: Seq<VisitEvent>)
    requires
        distinct_keys(state.groups),
    ensures
        run_events::<TclAgent<'a>>(state, events) matches Ok(after)
            ==> distinct_keys(after.groups),
    decreases events.len(),
{
    if events.len() > 0 {
        match state.after(events[0]) {
            Err(_) => {},
            Ok(next) => {
                match events[0] {
                    VisitEvent::EnterNet(net) => {
                        lemma_pins_keep_keys_distinct(
                            state.groups,
                            net_pins(
                                pin_name(state.scope, net.name@),
                                state.stats[net.var as int][state.span_index as int],
                            ),
                        );
                    },
                    _ => {},
                }
                lemma_groups_have_distinct_keys(next, events.drop_first());
            },
        }
    }
}

/// The entries of a script stand for distinct pairs of high time and transition count.
pub proof fn lemma_export_has_distinct_keys(ctx: &Context, iteration: nat)
    ensures
        export_state(ctx, iteration) matches Ok(state) ==> distinct_keys(state.groups),
{
    match ctx.settings() {
        None => {},
        Some(settings) => match scope_above(ctx) {
            None => {},
            Some(scope) => {
                let start = TclState {
                    stats: table_of(ctx.stats@),
                    span_index: iteration,
                    groups: Seq::empty(),
                    scope,
                };
                lemma_groups_have_distinct_keys(
                    start,
                    hierarchy_trail(settings, ctx.wave.hierarchy, ctx.lookup_point).events,
                );
            },
        },
    }
}

} // verus!
