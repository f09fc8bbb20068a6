pub mod report;
pub mod saif;
pub mod tcl;

use crate::netlist::{module_of_cell, Module, ModuleLookupError, Netlist};
use crate::text::{reads, same_texts, texts};
use crate::waveform::{Hierarchy, Net, Scope};
use vstd::prelude::*;

verus! {

/// How a scope of the hierarchy relates to the netlist.
#[derive(Copy, Clone)]
pub enum ModuleRef<'n> {
    /// The scope lies outside the part of the hierarchy that the netlist describes.
    OutsideNetlist,
    /// The scope is an instance of this module of the netlist.
    Netlist(&'n Module),
    /// The scope is an instance of a type that the netlist does not define.
    BlackBox,
}

/// Why an export was given up.
#[derive(Copy, Clone, Debug, PartialEq, Eq, Structural)]
pub enum ExportError {
    /// The netlist has no module of the name given for the top module.
    TopModuleNotFound,
    /// A scope inside a module of the netlist is no cell of that module.
    CellNotFound,
    /// The walk was asked to go below a black box.
    BlackBoxDescent,
    /// The scope to start from is not in the hierarchy.
    ScopeNotFound,
    /// The statistics table has no entry for a net and window that the walk came to.
    MissingStats,
    /// The trace has no time scale, or one in a unit that is not known.
    UnknownTimescale,
    /// The span is zero or longer than the trace, or a window would last more than
    /// `i64::MAX` steps of time.
    InvalidSpan,
    /// A net refers to a signal that the trace does not hold.
    SignalNotFound,
    /// The samples of a signal are not in the order of time, or differ in width.
    MalformedSignal,
    /// The output format is none that is known.
    UnknownFormat,
}

/// Where in the hierarchy a walk starts.
pub enum LookupPoint {
    /// At the top: every top-level scope is walked.
    Top,
    /// At one scope, given by the position of each scope on the way to it among its
    /// siblings, from the top level down.
    Scope(Vec<usize>),
}

/// The settings of a walk.
pub struct TraceVisitCtx<'n> {
    /// The names of the scopes from the top of the hierarchy down to the one that is the
    /// netlist's top module. Empty: no scope is.
    pub netlist_root: Vec<String>,
    /// The name of the netlist's top module.
    pub top_module: String,
    pub netlist: Option<&'n Netlist>,
    /// Announce only the nets of black boxes.
    pub blackboxes_only: bool,
    /// Leave out the supply pins of black boxes.
    pub remove_virtual_pins: bool,
}

/// The mathematical content of a `TraceVisitCtx`.
pub struct Settings<'n> {
    pub netlist_root: Seq<Seq<char>>,
    pub top_module: Seq<char>,
    pub netlist: Option<&'n Netlist>,
    pub blackboxes_only: bool,
    pub remove_virtual_pins: bool,
}

impl<'n> View for TraceVisitCtx<'n> {
    type V = Settings<'n>;

    open spec fn view(&self) -> Settings<'n> {
        Settings {
            netlist_root: texts(self.netlist_root@),
            top_module: self.top_module@,
            netlist: self.netlist,
            blackboxes_only: self.blackboxes_only,
            remove_virtual_pins: self.remove_virtual_pins,
        }
    }
}

/// What a walk tells the renderer, in the order in which it does.
pub enum VisitEvent {
    EnterScope(Scope),
    EnterNet(Net),
    EndNets,
    EndScopes,
    ExitScope(Scope),
}

/// A renderer that a walk drives. Its state changes by `step` with each event. A step may
/// fail, and then it leaves the state as it was.
pub trait TraceVisitorAgent: Sized {
    /// What the renderer has got so far.
    type State;

    spec fn state(&self) -> Self::State;

    /// The state after `event`, or why the renderer gave up at it.
    spec fn step(state: Self::State, event: VisitEvent) -> Result<Self::State, ExportError>;

    /// Called upon entering a scope, before any of its nets.
    fn enter_scope(&mut self, scope: &Scope) -> (result: Result<(), ExportError>)
        ensures
            match Self::step(old(self).state(), VisitEvent::EnterScope(*scope)) {
                Ok(next) => result is Ok && final(self).state() == next,
                Err(e) => result == Err::<(), ExportError>(e) && final(self).state() == old(
                    self,
                ).state(),
            },
    ;

    /// Called upon leaving a scope, after all that is below it.
    fn exit_scope(&mut self, scope: &Scope) -> (result: Result<(), ExportError>)
        ensures
            match Self::step(old(self).state(), VisitEvent::ExitScope(*scope)) {
                Ok(next) => result is Ok && final(self).state() == next,
                Err(e) => result == Err::<(), ExportError>(e) && final(self).state() == old(
                    self,
                ).state(),
            },
    ;

    /// Called once all child scopes of the current scope have been visited.
    fn end_scopes(&mut self) -> (result: Result<(), ExportError>)
        ensures
            match Self::step(old(self).state(), VisitEvent::EndScopes) {
                Ok(next) => result is Ok && final(self).state() == next,
                Err(e) => result == Err::<(), ExportError>(e) && final(self).state() == old(
                    self,
                ).state(),
            },
    ;

    /// Called for each net of the current scope that is to be exported.
    fn enter_net(&mut self, net: &Net) -> (result: Result<(), ExportError>)
        ensures
            match Self::step(old(self).state(), VisitEvent::EnterNet(*net)) {
                Ok(next) => result is Ok && final(self).state() == next,
                Err(e) => result == Err::<(), ExportError>(e) && final(self).state() == old(
                    self,
                ).state(),
            },
    ;

    /// Called once all nets of the current scope have been visited.
    fn end_nets(&mut self) -> (result: Result<(), ExportError>)
        ensures
            match Self::step(old(self).state(), VisitEvent::EndNets) {
                Ok(next) => result is Ok && final(self).state() == next,
                Err(e) => result == Err::<(), ExportError>(e) && final(self).state() == old(
                    self,
                ).state(),
            },
    ;
}


/// The module reference of the scope called `name`, whose path from the top of the
/// hierarchy is `path`, below a parent with the reference `parent`.
///
/// Without a netlist every scope is outside it. Outside the netlist, the scope whose path is
/// the netlist's root is the top module, which the netlist must define. Inside a module the
/// scope is one of its cells, which the module must declare: a cell of a type that the
/// netlist defines is that module, any other a black box. Nothing is below a black box.
pub open spec fn child_module<'n>(
    ctx: Settings<'n>,
    path: Seq<Seq<char>>,
    name: Seq<char>,
    parent: ModuleRef<'n>,
) -> Result<ModuleRef<'n>, ExportError> {
    match ctx.netlist {
        None => Ok(ModuleRef::OutsideNetlist),
        Some(netlist) => match parent {
            ModuleRef::OutsideNetlist => if path == ctx.netlist_root {
                if netlist.modules@.contains_key(ctx.top_module) {
                    Ok(ModuleRef::Netlist(&netlist.modules@[ctx.top_module]))
                } else {
                    Err(ExportError::TopModuleNotFound)
                }
            } else {
                Ok(ModuleRef::OutsideNetlist)
            },
            ModuleRef::Netlist(module) => match module_of_cell(module, netlist, name) {
                Ok(child) => Ok(ModuleRef::Netlist(child)),
                Err(ModuleLookupError::ModuleUndefined) => Ok(ModuleRef::BlackBox),
                Err(ModuleLookupError::CellNotFound) => Err(ExportError::CellNotFound),
            },
            ModuleRef::BlackBox => Err(ExportError::BlackBoxDescent),
        },
    }
}

/// Retrieves the module reference of `scope` from that of its parent. `path` holds the
/// names of the scopes from the top of the hierarchy down to `scope` itself.
pub fn get_child_module_reference<'n>(
    ctx: &TraceVisitCtx<'n>,
    path: &Vec<String>,
    scope: &Scope,
    parent_module: ModuleRef<'n>,
) -> (result: Result<ModuleRef<'n>, ExportError>)
    ensures
        result == child_module(ctx@, texts(path@), scope.name@, parent_module),
{
    match ctx.netlist {
        None => Ok(ModuleRef::OutsideNetlist),
        Some(netlist) => match parent_module {
            ModuleRef::OutsideNetlist => {
                if same_texts(path, &ctx.netlist_root) {
                    match netlist.modules.get(ctx.top_module.as_str()) {
                        Some(module) => Ok(ModuleRef::Netlist(module)),
                        None => Err(ExportError::TopModuleNotFound),
                    }
                } else {
                    Ok(ModuleRef::OutsideNetlist)
                }
            },
            ModuleRef::Netlist(parent) => match parent.get_module_of_cell(
                netlist,
                scope.name.as_str(),
            ) {
                Ok(module) => Ok(ModuleRef::Netlist(module)),
                Err(ModuleLookupError::ModuleUndefined) => Ok(ModuleRef::BlackBox),
                Err(ModuleLookupError::CellNotFound) => Err(ExportError::CellNotFound),
            },
            ModuleRef::BlackBox => Err(ExportError::BlackBoxDescent),
        },
    }
}

/// Whether `name` is the name of a supply pin: ground, substrate or power rail.
pub open spec fn is_virtual_pin(name: Seq<char>) -> bool {
    name == "VGND"@ || name == "VNB"@ || name == "VPB"@ || name == "VPWR"@
}

/// Whether the walk announces the net `net` of a scope with the module reference `module`.
///
/// With `blackboxes_only` only the nets of black boxes are announced. With
/// `remove_virtual_pins` the supply pins of a black box are not.
pub open spec fn announces(ctx: Settings, module: ModuleRef, net: Net) -> bool {
    &&& !ctx.blackboxes_only || module is BlackBox
    &&& !(module is BlackBox && ctx.remove_virtual_pins && is_virtual_pin(net.name@))
}

fn is_announced(ctx: &TraceVisitCtx, module: ModuleRef, net: &Net) -> (yes: bool)
    ensures
        yes == announces(ctx@, module, *net),
{
    let black_box = match module {
        ModuleRef::BlackBox => true,
        _ => false,
    };
    if ctx.blackboxes_only && !black_box {
        return false;
    }
    if black_box && ctx.remove_virtual_pins {
        if reads(&net.name, "VGND") || reads(&net.name, "VNB") || reads(&net.name, "VPB") || reads(
            &net.name,
            "VPWR",
        ) {
            return false;
        }
    }
    true
}

/// What a walk does: the events that it tells the renderer, and the error that ends it
/// after them, if one does.
pub struct Trail {
    pub events: Seq<VisitEvent>,
    pub fault: Option<ExportError>,
}

impl Trail {
    /// The walk that does nothing.
    pub open spec fn empty() -> Trail {
        Trail { events: Seq::empty(), fault: None }
    }

    /// The walk that tells `event` and goes on.
    pub open spec fn tell(event: VisitEvent) -> Trail {
        Trail { events: seq![event], fault: None }
    }

    /// The walk that ends at once with the error `e`.
    pub open spec fn fail(e: ExportError) -> Trail {
        Trail { events: Seq::empty(), fault: Some(e) }
    }

    /// This walk, and `next` after it unless this one ends with an error.
    pub open spec fn followed_by(self, next: Trail) -> Trail {
        match self.fault {
            Some(_) => self,
            None => Trail { events: self.events + next.events, fault: next.fault },
        }
    }
}

/// The walk over the nets `nets` of a scope with the module reference `module`: each net
/// that is announced is told, in order.
pub open spec fn nets_trail(ctx: Settings, module: ModuleRef, nets: Seq<Net>) -> Trail
    decreases nets.len(),
{
    if nets.len() == 0 {
        Trail::empty()
    } else if announces(ctx, module, nets[0]) {
        Trail::tell(VisitEvent::EnterNet(nets[0])).followed_by(
            nets_trail(ctx, module, nets.drop_first()),
        )
    } else {
        nets_trail(ctx, module, nets.drop_first())
    }
}

/// The walk of `scope` and all below it, depth first. `prefix` holds the names of the
/// scopes above it, from the top down, and `parent` is the module reference of its parent.
///
/// The scope is entered and its module reference found. Then its nets are announced, then
/// each child scope is walked in turn, then the scope is left. The scopes below a black box
/// are not walked.
pub open spec fn scope_trail<'n>(
    ctx: Settings<'n>,
    prefix: Seq<Seq<char>>,
    scope: Scope,
    parent: ModuleRef<'n>,
) -> Trail
    decreases scope, 1int,
{
    let path = prefix.push(scope.name@);
    Trail::tell(VisitEvent::EnterScope(scope)).followed_by(
        match child_module(ctx, path, scope.name@, parent) {
            Err(e) => Trail::fail(e),
            Ok(module) => nets_trail(ctx, module, scope.nets@).followed_by(
                Trail::tell(VisitEvent::EndNets).followed_by(
                    (if module is BlackBox {
                        Trail::empty()
                    } else {
                        children_trail(ctx, path, scope.scopes@, module)
                    }).followed_by(
                        Trail::tell(VisitEvent::EndScopes).followed_by(
                            Trail::tell(VisitEvent::ExitScope(scope)),
                        ),
                    ),
                ),
            ),
        },
    )
}

/// The walks of the scopes `children` one after the other, up to the first error. `path`
/// holds the names of the scopes from the top down to their parent, whose module reference
/// is `module`.
pub open spec fn children_trail<'n>(
    ctx: Settings<'n>,
    path: Seq<Seq<char>>,
    children: Seq<Scope>,
    module: ModuleRef<'n>,
) -> Trail
    decreases children, 0int,
{
    if children.len() == 0 {
        Trail::empty()
    } else {
        scope_trail(ctx, path, children[0], module).followed_by(
            children_trail(ctx, path, children.drop_first(), module),
        )
    }
}

/// The state of a renderer after the events `events`, or the error of the first step that
/// fails.
pub open spec fn run_events<A: TraceVisitorAgent>(
    state: A::State,
    events: Seq<VisitEvent>,
) -> Result<A::State, ExportError>
    decreases events.len(),
{
    if events.len() == 0 {
        Ok(state)
    } else {
        match A::step(state, events[0]) {
            Err(e) => Err(e),
            Ok(next) => run_events::<A>(next, events.drop_first()),
        }
    }
}

/// The state of a renderer after the walk `trail`, or the error that ended the walk: that
/// of the renderer if it fails at one of the events, else the walk's own.
pub open spec fn run_trail<A: TraceVisitorAgent>(state: A::State, trail: Trail) -> Result<
    A::State,
    ExportError,
> {
    match run_events::<A>(state, trail.events) {
        Err(e) => Err(e),
        Ok(after) => match trail.fault {
            Some(e) => Err(e),
            None => Ok(after),
        },
    }
}

/// The state in which the events `events` leave a renderer: that after all of them, or, if a
/// step fails, that after the events before it, since nothing is told after a failure.
pub open spec fn reached_by_events<A: TraceVisitorAgent>(
    state: A::State,
    events: Seq<VisitEvent>,
) -> A::State
    decreases events.len(),
{
    if events.len() == 0 {
        state
    } else {
        match A::step(state, events[0]) {
            Err(_) => state,
            Ok(next) => reached_by_events::<A>(next, events.drop_first()),
        }
    }
}

/// The state in which the walk `trail` leaves a renderer, whether it ends with an error or
/// not.
pub open spec fn reached_by<A: TraceVisitorAgent>(state: A::State, trail: Trail) -> A::State {
    reached_by_events::<A>(state, trail.events)
}

/// Running two lists of events in a row is running the second from where the first ends.
pub proof fn lemma_run_events_concat<A: TraceVisitorAgent>(
    state: A::State,
    first: Seq<VisitEvent>,
    second: Seq<VisitEvent>,
)
    ensures
        run_events::<A>(state, first + second) == match run_events::<A>(state, first) {
            Err(e) => Err(e),
            Ok(mid) => run_events::<A>(mid, second),
        },
        reached_by_events::<A>(state, first + second) == match run_events::<A>(state, first) {
            Err(_) => reached_by_events::<A>(state, first),
            Ok(mid) => reached_by_events::<A>(mid, second),
        },
    decreases first.len(),
{
    if first.len() == 0 {
        assert(first + second =~= second);
    } else {
        assert((first + second).drop_first() =~= first.drop_first() + second);
        assert((first + second)[0] == first[0]);
        match A::step(state, first[0]) {
            Err(e) => {},
            Ok(next) => {
                lemma_run_events_concat::<A>(next, first.drop_first(), second);
            },
        }
    }
}

/// Running one walk and then another is running the second from where the first ends.
pub proof fn lemma_run_followed_by<A: TraceVisitorAgent>(
    state: A::State,
    first: Trail,
    second: Trail,
)
    ensures
        run_trail::<A>(state, first.followed_by(second)) == match run_trail::<A>(state, first) {
            Err(e) => Err(e),
            Ok(mid) => run_trail::<A>(mid, second),
        },
        reached_by::<A>(state, first.followed_by(second)) == match run_trail::<A>(state, first) {
            Err(_) => reached_by::<A>(state, first),
            Ok(mid) => reached_by::<A>(mid, second),
        },
{
    lemma_run_events_concat::<A>(state, first.events, second.events);
}

/// Running a walk that tells one event is taking that step.
pub proof fn lemma_run_tell<A: TraceVisitorAgent>(state: A::State, event: VisitEvent)
    ensures
        run_trail::<A>(state, Trail::tell(event)) == A::step(state, event),
        reached_by::<A>(state, Trail::tell(event)) == match A::step(state, event) {
            Err(_) => state,
            Ok(next) => next,
        },
{
    assert(seq![event].drop_first() =~= Seq::<VisitEvent>::empty());
    match A::step(state, event) {
        Err(e) => {},
        Ok(next) => {
            assert(run_events::<A>(next, Seq::<VisitEvent>::empty()) == Ok::<
                A::State,
                ExportError,
            >(next));
            assert(reached_by_events::<A>(next, Seq::<VisitEvent>::empty()) == next);
        },
    }
}

/// How walks are grouped does not matter.
pub proof fn lemma_followed_by_assoc(a: Trail, b: Trail, c: Trail)
    ensures
        a.followed_by(b).followed_by(c) == a.followed_by(b.followed_by(c)),
{
    if a.fault is None && b.fault is None {
        assert((a.events + b.events) + c.events =~= a.events + (b.events + c.events));
    }
}


/// Running a walk that starts with `event` is taking that step and running the rest.
pub proof fn lemma_run_first<A: TraceVisitorAgent>(
    state: A::State,
    event: VisitEvent,
    rest: Trail,
)
    ensures
        run_trail::<A>(state, Trail::tell(event).followed_by(rest)) == match A::step(
            state,
            event,
        ) {
            Err(e) => Err(e),
            Ok(next) => run_trail::<A>(next, rest),
        },
        reached_by::<A>(state, Trail::tell(event).followed_by(rest)) == match A::step(
            state,
            event,
        ) {
            Err(_) => state,
            Ok(next) => reached_by::<A>(next, rest),
        },
{
    lemma_run_followed_by::<A>(state, Trail::tell(event), rest);
    lemma_run_tell::<A>(state, event);
}

/// Doing nothing first changes nothing.
pub proof fn lemma_empty_first(rest: Trail)
    ensures
        Trail::empty().followed_by(rest) == rest,
{
    assert(Seq::<VisitEvent>::empty() + rest.events =~= rest.events);
}

/// Visits `scope` and all below it, depth first, and drives `agent` with what it finds.
///
/// `prefix` holds the names of the scopes above `scope`, from the top of the hierarchy
/// down; `parent_module` is the module reference of its parent. The walk ends with the
/// first error, its own or the renderer's, and tells the renderer nothing after it.
#[verifier::loop_isolation(false)]
pub fn visit_scope<'n, A: TraceVisitorAgent>(
    agent: &mut A,
    ctx: &TraceVisitCtx<'n>,
    prefix: &mut Vec<String>,
    scope: &Scope,
    parent_module: ModuleRef<'n>,
) -> (result: Result<(), ExportError>)
    ensures
        texts(final(prefix)@) == texts(old(prefix)@),
        match run_trail::<A>(
            old(agent).state(),
            scope_trail(ctx@, texts(old(prefix)@), *scope, parent_module),
        ) {
            Ok(after) => result is Ok && final(agent).state() == after,
            Err(e) => result == Err::<(), ExportError>(e),
        },
        final(agent).state() == reached_by::<A>(
            old(agent).state(),
            scope_trail(ctx@, texts(old(prefix)@), *scope, parent_module),
        ),
    decreases scope,
{
    let ghost above = texts(prefix@);
    let ghost path = above.push(scope.name@);
    let ghost leave = Trail::tell(VisitEvent::EndScopes).followed_by(
        Trail::tell(VisitEvent::ExitScope(*scope)),
    );
    let ghost whole = run_trail::<A>(
        agent.state(),
        scope_trail(ctx@, above, *scope, parent_module),
    );
    let ghost end = reached_by::<A>(
        agent.state(),
        scope_trail(ctx@, above, *scope, parent_module),
    );
    proof {
        lemma_run_first::<A>(
            agent.state(),
            VisitEvent::EnterScope(*scope),
            match child_module(ctx@, path, scope.name@, parent_module) {
                Err(e) => Trail::fail(e),
                Ok(module) => nets_trail(ctx@, module, scope.nets@).followed_by(
                    Trail::tell(VisitEvent::EndNets).followed_by(
                        (if module is BlackBox {
                            Trail::empty()
                        } else {
                            children_trail(ctx@, path, scope.scopes@, module)
                        }).followed_by(leave),
                    ),
                ),
            },
        );
    }
    match agent.enter_scope(scope) {
        Err(e) => {
            return Err(e);
        },
        Ok(_) => {},
    }
    prefix.push(scope.name.clone());
    assert(texts(prefix@) =~= path);
    assert(texts(prefix@).drop_last() =~= above);
    let module = match get_child_module_reference(ctx, prefix, scope, parent_module) {
        Err(e) => {
            assert(run_events::<A>(agent.state(), Seq::<VisitEvent>::empty()) == Ok::<
                A::State,
                ExportError,
            >(agent.state()));
            restore(prefix);
            return Err(e);
        },
        Ok(module) => module,
    };
    let ghost below = if module is BlackBox {
        Trail::empty()
    } else {
        children_trail(ctx@, path, scope.scopes@, module)
    };
    let ghost after_nets = Trail::tell(VisitEvent::EndNets).followed_by(
        below.followed_by(leave),
    );

    assert(scope.nets@.skip(0) =~= scope.nets@);
    let mut i: usize = 0;
    while i < scope.nets.len()
        invariant
            i <= scope.nets.len(),
            texts(prefix@) == path,
            whole == run_trail::<A>(
                agent.state(),
                nets_trail(ctx@, module, scope.nets@.skip(i as int)).followed_by(after_nets),
            ),
            end == reached_by::<A>(
                agent.state(),
                nets_trail(ctx@, module, scope.nets@.skip(i as int)).followed_by(after_nets),
            ),
        decreases scope.nets.len() - i,
    {
        let net = &scope.nets[i];
        proof {
            let here = scope.nets@.skip(i as int);
            assert(here.drop_first() =~= scope.nets@.skip(i + 1));
            assert(here[0] == scope.nets@[i as int]);
        }
        if is_announced(ctx, module, net) {
            proof {
                let later = nets_trail(ctx@, module, scope.nets@.skip(i + 1));
                lemma_followed_by_assoc(
                    Trail::tell(VisitEvent::EnterNet(*net)),
                    later,
                    after_nets,
                );
                lemma_run_first::<A>(
                    agent.state(),
                    VisitEvent::EnterNet(*net),
                    later.followed_by(after_nets),
                );
            }
            match agent.enter_net(net) {
                Err(e) => {
                    restore(prefix);
                    return Err(e);
                },
                Ok(_) => {},
            }
        }
        i += 1;
    }
    proof {
        assert(scope.nets@.skip(scope.nets.len() as int).len() == 0);
        lemma_empty_first(after_nets);
        lemma_run_first::<A>(agent.state(), VisitEvent::EndNets, below.followed_by(leave));
    }
    match agent.end_nets() {
        Err(e) => {
            restore(prefix);
            return Err(e);
        },
        Ok(_) => {},
    }
    match module {
        ModuleRef::BlackBox => {},
        _ => {
            assert(scope.scopes@.skip(0) =~= scope.scopes@);
            let mut k: usize = 0;
            while k < scope.scopes.len()
                invariant
                    k <= scope.scopes.len(),
                    texts(prefix@) == path,
                    whole == run_trail::<A>(
                        agent.state(),
                        children_trail(
                            ctx@,
                            path,
                            scope.scopes@.skip(k as int),
                            module,
                        ).followed_by(leave),
                    ),
                    end == reached_by::<A>(
                        agent.state(),
                        children_trail(
                            ctx@,
                            path,
                            scope.scopes@.skip(k as int),
                            module,
                        ).followed_by(leave),
                    ),
                decreases scope.scopes.len() - k,
            {
                let child = &scope.scopes[k];
                proof {
                    let here = scope.scopes@.skip(k as int);
                    assert(here.drop_first() =~= scope.scopes@.skip(k + 1));
                    assert(here[0] == scope.scopes@[k as int]);
                    let later = children_trail(ctx@, path, scope.scopes@.skip(k + 1), module);
                    lemma_followed_by_assoc(
                        scope_trail(ctx@, path, *child, module),
                        later,
                        leave,
                    );
                    lemma_run_followed_by::<A>(
                        agent.state(),
                        scope_trail(ctx@, path, *child, module),
                        later.followed_by(leave),
                    );
                }
                match visit_scope(agent, ctx, prefix, child, module) {
                    Err(e) => {
                        restore(prefix);
                        return Err(e);
                    },
                    Ok(_) => {},
                }
                k += 1;
            }
            proof {
                assert(scope.scopes@.skip(scope.scopes.len() as int).len() == 0);
            }
        },
    }
    proof {
        lemma_empty_first(leave);
        lemma_run_first::<A>(
            agent.state(),
            VisitEvent::EndScopes,
            Trail::tell(VisitEvent::ExitScope(*scope)),
        );
    }
    match agent.end_scopes() {
        Err(e) => {
            restore(prefix);
            return Err(e);
        },
        Ok(_) => {},
    }
    proof {
        lemma_run_tell::<A>(agent.state(), VisitEvent::ExitScope(*scope));
    }
    match agent.exit_scope(scope) {
        Err(e) => {
            restore(prefix);
            return Err(e);
        },
        Ok(_) => {},
    }
    restore(prefix);
    Ok(())
}

/// Takes the name of the scope that is left off the path.
fn restore(prefix: &mut Vec<String>)
    requires
        old(prefix).len() > 0,
    ensures
        texts(final(prefix)@) == texts(old(prefix)@).drop_last(),
{
    prefix.pop();
    assert(texts(prefix@) =~= texts(old(prefix)@).drop_last());
}

/// The walk that starts at the scope to which `steps` lead from among `scopes`: `steps[0]`
/// is the position of a scope among `scopes`, `steps[1]` that of one of its children, and so
/// on. The scopes on the way are not walked, but the module reference of each is found from
/// that of its parent, as in a walk, and the same errors end it. Steps that lead nowhere are
/// `ScopeNotFound`.
pub open spec fn descent_trail<'n>(
    ctx: Settings<'n>,
    prefix: Seq<Seq<char>>,
    scopes: Seq<Scope>,
    steps: Seq<usize>,
    parent: ModuleRef<'n>,
) -> Trail
    decreases steps.len(),
{
    if steps.len() == 0 || steps[0] >= scopes.len() {
        Trail::fail(ExportError::ScopeNotFound)
    } else {
        let scope = scopes[steps[0] as int];
        if steps.len() == 1 {
            scope_trail(ctx, prefix, scope, parent)
        } else {
            let path = prefix.push(scope.name@);
            match child_module(ctx, path, scope.name@, parent) {
                Err(e) => Trail::fail(e),
                Ok(module) => descent_trail(ctx, path, scope.scopes@, steps.drop_first(), module),
            }
        }
    }
}

/// The walk of the hierarchy `hier` from `lookup_point`.
pub open spec fn hierarchy_trail<'n>(
    ctx: Settings<'n>,
    hier: Hierarchy,
    lookup_point: LookupPoint,
) -> Trail {
    match lookup_point {
        LookupPoint::Top => children_trail(
            ctx,
            Seq::empty(),
            hier.scopes@,
            ModuleRef::OutsideNetlist,
        ),
        LookupPoint::Scope(steps) => descent_trail(
            ctx,
            Seq::empty(),
            hier.scopes@,
            steps@,
            ModuleRef::OutsideNetlist,
        ),
    }
}

/// Visits the hierarchy `hier` from `lookup_point` and drives `agent` with what it finds.
///
/// From the top, each top-level scope is walked in turn. From a scope further down, the
/// module references on the way to it are found first, and the walk starts at that scope.
#[verifier::loop_isolation(false)]
pub fn visit_hierarchy<'n, A: TraceVisitorAgent>(
    agent: &mut A,
    lookup_point: &LookupPoint,
    hier: &Hierarchy,
    ctx: &TraceVisitCtx<'n>,
) -> (result: Result<(), ExportError>)
    ensures
        match run_trail::<A>(old(agent).state(), hierarchy_trail(ctx@, *hier, *lookup_point)) {
            Ok(after) => result is Ok && final(agent).state() == after,
            Err(e) => result == Err::<(), ExportError>(e),
        },
        final(agent).state() == reached_by::<A>(
            old(agent).state(),
            hierarchy_trail(ctx@, *hier, *lookup_point),
        ),
{
    let ghost whole = run_trail::<A>(
        agent.state(),
        hierarchy_trail(ctx@, *hier, *lookup_point),
    );
    let ghost end = reached_by::<A>(agent.state(), hierarchy_trail(ctx@, *hier, *lookup_point));
    let mut prefix: Vec<String> = Vec::new();
    assert(texts(prefix@) =~= Seq::<Seq<char>>::empty());
    match lookup_point {
        LookupPoint::Top => {
            let ghost none = Seq::<Seq<char>>::empty();
            assert(hier.scopes@.skip(0) =~= hier.scopes@);
            let mut k: usize = 0;
            while k < hier.scopes.len()
                invariant
                    k <= hier.scopes.len(),
                    texts(prefix@) == none,
                    whole == run_trail::<A>(
                        agent.state(),
                        children_trail(
                            ctx@,
                            none,
                            hier.scopes@.skip(k as int),
                            ModuleRef::OutsideNetlist,
                        ),
                    ),
                    end == reached_by::<A>(
                        agent.state(),
                        children_trail(
                            ctx@,
                            none,
                            hier.scopes@.skip(k as int),
                            ModuleRef::OutsideNetlist,
                        ),
                    ),
                decreases hier.scopes.len() - k,
            {
                let scope = &hier.scopes[k];
                proof {
                    let here = hier.scopes@.skip(k as int);
                    assert(here.drop_first() =~= hier.scopes@.skip(k + 1));
                    assert(here[0] == hier.scopes@[k as int]);
                    lemma_run_followed_by::<A>(
                        agent.state(),
                        scope_trail(ctx@, none, *scope, ModuleRef::OutsideNetlist),
                        children_trail(
                            ctx@,
                            none,
                            hier.scopes@.skip(k + 1),
                            ModuleRef::OutsideNetlist,
                        ),
                    );
                }
                match visit_scope(agent, ctx, &mut prefix, scope, ModuleRef::OutsideNetlist) {
                    Err(e) => {
                        return Err(e);
                    },
                    Ok(_) => {},
                }
                k += 1;
            }
            proof {
                assert(hier.scopes@.skip(hier.scopes.len() as int).len() == 0);
                assert(run_events::<A>(agent.state(), Seq::<VisitEvent>::empty()) == Ok::<
                    A::State,
                    ExportError,
                >(agent.state()));
            }
            Ok(())
        },
        LookupPoint::Scope(steps) => {
            let mut scopes: &Vec<Scope> = &hier.scopes;
            let mut module: ModuleRef<'n> = ModuleRef::OutsideNetlist;
            let mut k: usize = 0;
            assert(steps@.skip(0) =~= steps@);
            assert(run_events::<A>(agent.state(), Seq::<VisitEvent>::empty()) == Ok::<
                A::State,
                ExportError,
            >(agent.state()));
            loop
                invariant
                    k <= steps.len(),
                    agent.state() == old(agent).state(),
                    whole == run_trail::<A>(
                        agent.state(),
                        descent_trail(
                            ctx@,
                            texts(prefix@),
                            scopes@,
                            steps@.skip(k as int),
                            module,
                        ),
                    ),
                    end == reached_by::<A>(
                        agent.state(),
                        descent_trail(
                            ctx@,
                            texts(prefix@),
                            scopes@,
                            steps@.skip(k as int),
                            module,
                        ),
                    ),
                decreases steps.len() - k,
            {
                if k >= steps.len() {
                    return Err(ExportError::ScopeNotFound);
                }
                let step: usize = steps[k];
                proof {
                    let here = steps@.skip(k as int);
                    assert(here.drop_first() =~= steps@.skip(k + 1));
                    assert(here[0] == steps@[k as int]);
                }
                if step >= scopes.len() {
                    return Err(ExportError::ScopeNotFound);
                }
                let scope = &scopes[step];
                if k + 1 == steps.len() {
                    return visit_scope(agent, ctx, &mut prefix, scope, module);
                }
                let ghost above = texts(prefix@);
                prefix.push(scope.name.clone());
                assert(texts(prefix@) =~= above.push(scope.name@));
                match get_child_module_reference(ctx, &prefix, scope, module) {
                    Err(e) => {
                        return Err(e);
                    },
                    Ok(child) => {
                        module = child;
                    },
                }
                scopes = &scope.scopes;
                k += 1;
            }
        },
    }
}


/// The walk over the nets of a scope tells nets only, as many as it likes, and never fails.
pub proof fn lemma_nets_trail(ctx: Settings, module: ModuleRef, nets: Seq<Net>)
    ensures
        nets_trail(ctx, module, nets).fault is None,
        forall|i: int|
            0 <= i < nets_trail(ctx, module, nets).events.len() ==> (#[trigger] nets_trail(
                ctx,
                module,
                nets,
            ).events[i]) is EnterNet,
    decreases nets.len(),
{
    if nets.len() > 0 {
        lemma_nets_trail(ctx, module, nets.drop_first());
    }
}

/// Nothing below a black box is walked: the walk of a scope that is a black box enters the
/// scope, tells those of its nets that are announced, and leaves it again, whatever scopes
/// the trace holds below it.
pub proof fn lemma_black_box_is_a_leaf<'n>(
    ctx: Settings<'n>,
    prefix: Seq<Seq<char>>,
    scope: Scope,
    parent: ModuleRef<'n>,
)
    requires
        child_module(ctx, prefix.push(scope.name@), scope.name@, parent) == Ok::<
            ModuleRef<'n>,
            ExportError,
        >(ModuleRef::BlackBox),
    ensures
        scope_trail(ctx, prefix, scope, parent) == (Trail {
            events: seq![VisitEvent::EnterScope(scope)] + nets_trail(
                ctx,
                ModuleRef::BlackBox,
                scope.nets@,
            ).events + seq![
                VisitEvent::EndNets,
                VisitEvent::EndScopes,
                VisitEvent::ExitScope(scope),
            ],
            fault: None,
        }),
{
    lemma_nets_trail(ctx, ModuleRef::BlackBox, scope.nets@);
    let nets = nets_trail(ctx, ModuleRef::BlackBox, scope.nets@);
    let leave = Trail::tell(VisitEvent::EndScopes).followed_by(
        Trail::tell(VisitEvent::ExitScope(scope)),
    );
    lemma_empty_first(leave);
    let walk = scope_trail(ctx, prefix, scope, parent);
    assert(walk.events =~= seq![VisitEvent::EnterScope(scope)] + nets.events + seq![
        VisitEvent::EndNets,
        VisitEvent::EndScopes,
        VisitEvent::ExitScope(scope),
    ]);
}

} // verus!
