use crate::context::Context;
use crate::exporters::saif::{
    all_opened, bracket_escaped, export_state, net_records, pending_opens, table_of, Frame, Line,
    SaifAgent, SaifState,
};
use crate::exporters::{
    announces, child_module, children_trail, descent_trail, lemma_run_first,
    lemma_run_followed_by, lemma_run_tell, nets_trail, run_events, run_trail, scope_trail,
    ExportError, LookupPoint, ModuleRef, Settings, Trail, VisitEvent,
};
use crate::stats::PackedActivity;
use crate::waveform::{Net, Scope};
use vstd::prelude::*;

verus! {

/// What a SAIF report holds of one scope: its name, the records of its nets, and what the
/// report holds of the scopes below it.
pub struct Instance {
    pub name: Seq<char>,
    pub records: Seq<Line>,
    pub children: Seq<Instance>,
}

/// The lines of the block of `instance`: the opening line, the block of its nets if it has
/// records, the blocks of its children, and the closing line.
pub open spec fn instance_lines(instance: Instance) -> Seq<Line>
    decreases instance, 1int,
{
    seq![Line::Instance(instance.name)] + (if instance.records.len() > 0 {
        seq![Line::Net] + instance.records + seq![Line::Close]
    } else {
        Seq::empty()
    }) + instances_lines(instance.children) + seq![Line::Close]
}

/// The lines of the blocks of `instances`, one after the other.
pub open spec fn instances_lines(instances: Seq<Instance>) -> Seq<Line>
    decreases instances, 0int,
{
    if instances.len() == 0 {
        Seq::empty()
    } else {
        instance_lines(instances[0]) + instances_lines(instances.drop_first())
    }
}

/// The records of the nets `nets` of a scope with the module reference `module`, for the
/// window `span` of the table `table`: those of each net that is announced, in order.
pub open spec fn nets_records(
    ctx: Settings,
    table: Seq<Seq<PackedActivity>>,
    span: nat,
    module: ModuleRef,
    nets: Seq<Net>,
) -> Seq<Line>
    decreases nets.len(),
{
    if nets.len() == 0 {
        Seq::empty()
    } else {
        (if announces(ctx, module, nets[0]) && nets[0].var < table.len() && span
            < table[nets[0].var as int].len() {
            net_records(nets[0], table[nets[0].var as int][span as int])
        } else {
            Seq::empty()
        }) + nets_records(ctx, table, span, module, nets.drop_first())
    }
}

/// What the report holds of `scope`: nothing if neither the scope nor any scope below it
/// has a record, and else the records of its nets and what the report holds of its child
/// scopes. Nothing below a black box is in the report.
pub open spec fn scope_report<'n>(
    ctx: Settings<'n>,
    table: Seq<Seq<PackedActivity>>,
    span: nat,
    prefix: Seq<Seq<char>>,
    scope: Scope,
    parent: ModuleRef<'n>,
) -> Option<Instance>
    decreases scope, 1int,
{
    let path = prefix.push(scope.name@);
    match child_module(ctx, path, scope.name@, parent) {
        Err(_) => None,
        Ok(module) => {
            let records = nets_records(ctx, table, span, module, scope.nets@);
            let children = if module is BlackBox {
                Seq::empty()
            } else {
                children_reports(ctx, table, span, path, scope.scopes@, module)
            };
            if records.len() == 0 && children.len() == 0 {
                None
            } else {
                Some(Instance { name: bracket_escaped(scope.name@), records, children })
            }
        },
    }
}

/// What the report holds of each of the scopes `children` of which it holds anything.
pub open spec fn children_reports<'n>(
    ctx: Settings<'n>,
    table: Seq<Seq<PackedActivity>>,
    span: nat,
    path: Seq<Seq<char>>,
    children: Seq<Scope>,
    module: ModuleRef<'n>,
) -> Seq<Instance>
    decreases children, 0int,
{
    if children.len() == 0 {
        Seq::empty()
    } else {
        (match scope_report(ctx, table, span, path, children[0], module) {
            Some(instance) => seq![instance],
            None => Seq::empty(),
        }) + children_reports(ctx, table, span, path, children.drop_first(), module)
    }
}

/// Whether the renderer got from the state `before` to the state `after` by writing the
/// lines `added`: if there are none, nothing has changed; else the scopes that waited to be
/// opened were opened first.
pub open spec fn wrote(before: SaifState, after: SaifState, added: Seq<Line>) -> bool {
    &&& after.stats == before.stats
    &&& after.span_index == before.span_index
    &&& if added.len() == 0 {
        after.stack == before.stack && after.lines == before.lines
    } else {
        after.stack == all_opened(before.stack) && after.lines == before.lines + pending_opens(
            before.stack,
        ) + added
    }
}

/// The line that opens the block of nets, if the innermost scope of `stack` is not open.
pub open spec fn net_line(stack: Seq<Frame>) -> Seq<Line> {
    if stack.len() > 0 && !stack.last().opened {
        seq![Line::Net]
    } else {
        Seq::empty()
    }
}

proof fn lemma_all_opened(stack: Seq<Frame>)
    ensures
        all_opened(all_opened(stack)) == all_opened(stack),
        pending_opens(all_opened(stack)) == Seq::<Line>::empty(),
        net_line(all_opened(stack)) == Seq::<Line>::empty(),
        all_opened(stack).len() == stack.len(),
    decreases stack.len(),
{
    assert(all_opened(all_opened(stack)) =~= all_opened(stack));
    if stack.len() > 0 {
        lemma_all_opened(stack.drop_last());
        assert(all_opened(stack).drop_last() =~= all_opened(stack.drop_last()));
        assert(pending_opens(all_opened(stack)) =~= Seq::<Line>::empty());
    } else {
        assert(all_opened(stack) =~= stack);
    }
}

/// Writing one lot of lines and then another is writing both.
proof fn lemma_wrote_both(
    before: SaifState,
    mid: SaifState,
    after: SaifState,
    first: Seq<Line>,
    second: Seq<Line>,
)
    requires
        wrote(before, mid, first),
        wrote(mid, after, second),
    ensures
        wrote(before, after, first + second),
{
    lemma_all_opened(before.stack);
    if first.len() == 0 {
        assert(first + second =~= second);
    } else if second.len() == 0 {
        assert(first + second =~= first);
    } else {
        assert(after.lines =~= before.lines + pending_opens(before.stack) + (first + second));
    }
}

/// What the walk over the nets of a scope makes the renderer write: the records of the nets,
/// after the opening lines that are due.
proof fn lemma_nets_write_records<'a>(
    ctx: Settings,
    module: ModuleRef,
    nets: Seq<Net>,
    state: SaifState,
)
    ensures
        run_trail::<SaifAgent<'a>>(state, nets_trail(ctx, module, nets)) matches Ok(after) ==> {
            let records = nets_records(ctx, state.stats, state.span_index, module, nets);
            &&& after.stats == state.stats
            &&& after.span_index == state.span_index
            &&& after.stack == state.with_records(records).stack
            &&& after.lines == state.with_records(records).lines
        },
    decreases nets.len(),
{
    let whole = run_trail::<SaifAgent<'a>>(state, nets_trail(ctx, module, nets));
    let records = nets_records(ctx, state.stats, state.span_index, module, nets);
    if nets.len() == 0 {
        assert(run_events::<SaifAgent<'a>>(state, Seq::<VisitEvent>::empty()) == Ok::<
            SaifState,
            ExportError,
        >(state));
    } else {
        let rest = nets.drop_first();
        let later = nets_records(ctx, state.stats, state.span_index, module, rest);
        if announces(ctx, module, nets[0]) {
            let event = VisitEvent::EnterNet(nets[0]);
            lemma_run_first::<SaifAgent<'a>>(state, event, nets_trail(ctx, module, rest));
            match state.after(event) {
                Err(_) => {},
                Ok(next) => {
                    let first = net_records(
                        nets[0],
                        state.stats[nets[0].var as int][state.span_index as int],
                    );
                    assert(next == state.with_records(first));
                    lemma_nets_write_records(ctx, module, rest, next);
                    lemma_records_twice(state, first, later);
                },
            }
        } else {
            lemma_nets_write_records(ctx, module, rest, state);
            assert(records =~= later);
        }
    }
}

/// Writing the records of one net and then those of more is writing them all.
proof fn lemma_records_twice(state: SaifState, first: Seq<Line>, second: Seq<Line>)
    ensures
        state.with_records(first).with_records(second).stack == state.with_records(
            first + second,
        ).stack,
        state.with_records(first).with_records(second).lines == state.with_records(
            first + second,
        ).lines,
{
    lemma_all_opened(state.stack);
    if first.len() == 0 {
        assert(first + second =~= second);
    } else if second.len() == 0 {
        assert(first + second =~= first);
    } else {
        let mid = state.with_records(first);
        assert(mid.with_records(second).lines =~= state.with_records(first + second).lines);
    }
}


/// The lines that the report holds of `scope`: those of its block, or none.
pub open spec fn scope_lines<'n>(
    ctx: Settings<'n>,
    table: Seq<Seq<PackedActivity>>,
    span: nat,
    prefix: Seq<Seq<char>>,
    scope: Scope,
    parent: ModuleRef<'n>,
) -> Seq<Line> {
    match scope_report(ctx, table, span, prefix, scope, parent) {
        Some(instance) => instance_lines(instance),
        None => Seq::empty(),
    }
}

/// The walk of a scope makes the renderer write the block of the scope as the report holds
/// it, after the opening lines of the scopes around it that waited to be opened; if the
/// report holds nothing of the scope, the renderer is left as it was.
pub proof fn lemma_scope_walk_writes_report<'a, 'n>(
    ctx: Settings<'n>,
    prefix: Seq<Seq<char>>,
    scope: Scope,
    parent: ModuleRef<'n>,
    state: SaifState,
)
    ensures
        run_trail::<SaifAgent<'a>>(state, scope_trail(ctx, prefix, scope, parent)) matches Ok(
            after,
        ) ==> wrote(
            state,
            after,
            scope_lines(ctx, state.stats, state.span_index, prefix, scope, parent),
        ),
    decreases scope, 1int,
{
    let path = prefix.push(scope.name@);
    let enter = VisitEvent::EnterScope(scope);
    let leave = Trail::tell(VisitEvent::EndScopes).followed_by(
        Trail::tell(VisitEvent::ExitScope(scope)),
    );
    match child_module(ctx, path, scope.name@, parent) {
        Err(e) => {
            lemma_run_first::<SaifAgent<'a>>(state, enter, Trail::fail(e));
        },
        Ok(module) => {
            let nets = nets_trail(ctx, module, scope.nets@);
            let below = if module is BlackBox {
                Trail::empty()
            } else {
                children_trail(ctx, path, scope.scopes@, module)
            };
            let after_nets = Trail::tell(VisitEvent::EndNets).followed_by(
                below.followed_by(leave),
            );
            lemma_run_first::<SaifAgent<'a>>(state, enter, nets.followed_by(after_nets));
            let frame = Frame { name: bracket_escaped(scope.name@), opened: false };
            let s1 = SaifState { stack: state.stack.push(frame), ..state };
            assert(state.after(enter) == Ok::<SaifState, ExportError>(s1));
            lemma_run_followed_by::<SaifAgent<'a>>(s1, nets, after_nets);
            lemma_nets_write_records(ctx, module, scope.nets@, s1);
            match run_trail::<SaifAgent<'a>>(s1, nets) {
                Err(_) => {},
                Ok(s2) => {
                    let records = nets_records(
                        ctx,
                        state.stats,
                        state.span_index,
                        module,
                        scope.nets@,
                    );
                    lemma_run_first::<SaifAgent<'a>>(
                        s2,
                        VisitEvent::EndNets,
                        below.followed_by(leave),
                    );
                    lemma_all_opened(s1.stack);
                    assert(s1.stack.drop_last() =~= state.stack);
                    assert(all_opened(s1.stack).drop_last() =~= all_opened(state.stack));
                    assert(pending_opens(s1.stack) =~= pending_opens(state.stack) + seq![
                        Line::Instance(frame.name),
                    ]);
                    match s2.after(VisitEvent::EndNets) {
                        Err(_) => {},
                        Ok(s3) => {
                            lemma_run_followed_by::<SaifAgent<'a>>(s3, below, leave);
                            let reports = if module is BlackBox {
                                Seq::empty()
                            } else {
                                children_reports(
                                    ctx,
                                    state.stats,
                                    state.span_index,
                                    path,
                                    scope.scopes@,
                                    module,
                                )
                            };
                            let kids = instances_lines(reports);
                            if module is BlackBox {
                                assert(run_events::<SaifAgent<'a>>(
                                    s3,
                                    Seq::<VisitEvent>::empty(),
                                ) == Ok::<SaifState, ExportError>(s3));
                            } else {
                                lemma_children_walk_writes_reports(
                                    ctx,
                                    path,
                                    scope.scopes@,
                                    module,
                                    s3,
                                );
                            }
                            match run_trail::<SaifAgent<'a>>(s3, below) {
                                Err(_) => {},
                                Ok(s4) => {
                                    assert(wrote(s3, s4, kids));
                                    lemma_run_first::<SaifAgent<'a>>(
                                        s4,
                                        VisitEvent::EndScopes,
                                        Trail::tell(VisitEvent::ExitScope(scope)),
                                    );
                                    lemma_run_tell::<SaifAgent<'a>>(
                                        s4,
                                        VisitEvent::ExitScope(scope),
                                    );
                                    lemma_instances_lines(reports);
                                    let after = s4.after(VisitEvent::ExitScope(scope))->Ok_0;
                                    let block = scope_lines(
                                        ctx,
                                        state.stats,
                                        state.span_index,
                                        prefix,
                                        scope,
                                        parent,
                                    );
                                    lemma_all_opened(s3.stack);
                                    if records.len() > 0 {
                                        assert(s3.stack == all_opened(s1.stack));
                                        assert(s4.stack == all_opened(s1.stack));
                                        assert(after.lines =~= state.lines + pending_opens(
                                            state.stack,
                                        ) + block);
                                        assert(after.stack =~= all_opened(state.stack));
                                    } else if kids.len() > 0 {
                                        assert(s3.stack == s1.stack);
                                        assert(s4.stack == all_opened(s1.stack));
                                        assert(after.lines =~= state.lines + pending_opens(
                                            state.stack,
                                        ) + block);
                                        assert(after.stack =~= all_opened(state.stack));
                                    } else {
                                        assert(s4.stack == s1.stack);
                                        assert(after.stack =~= state.stack);
                                        assert(block =~= Seq::<Line>::empty());
                                    }
                                },
                            }
                        },
                    }
                },
            }
        },
    }
}

/// The blocks of instances are empty only where there are no instances.
proof fn lemma_instances_lines(instances: Seq<Instance>)
    ensures
        instances.len() > 0 <==> instances_lines(instances).len() > 0,
{
    if instances.len() > 0 {
        let first = instances[0];
        assert(instance_lines(first).len() >= 2);
    }
}

/// The walks of the child scopes of a scope make the renderer write the blocks of those of
/// which the report holds anything, one after the other.
pub proof fn lemma_children_walk_writes_reports<'a, 'n>(
    ctx: Settings<'n>,
    path: Seq<Seq<char>>,
    children: Seq<Scope>,
    module: ModuleRef<'n>,
    state: SaifState,
)
    ensures
        run_trail::<SaifAgent<'a>>(state, children_trail(ctx, path, children, module)) matches Ok(
            after,
        ) ==> wrote(
            state,
            after,
            instances_lines(
                children_reports(ctx, state.stats, state.span_index, path, children, module),
            ),
        ),
    decreases children, 0int,
{
    if children.len() == 0 {
        assert(run_events::<SaifAgent<'a>>(state, Seq::<VisitEvent>::empty()) == Ok::<
            SaifState,
            ExportError,
        >(state));
    } else {
        let first = scope_trail(ctx, path, children[0], module);
        let rest = children_trail(ctx, path, children.drop_first(), module);
        lemma_run_followed_by::<SaifAgent<'a>>(state, first, rest);
        lemma_scope_walk_writes_report(ctx, path, children[0], module, state);
        match run_trail::<SaifAgent<'a>>(state, first) {
            Err(_) => {},
            Ok(mid) => {
                lemma_children_walk_writes_reports(
                    ctx,
                    path,
                    children.drop_first(),
                    module,
                    mid,
                );
                match run_trail::<SaifAgent<'a>>(mid, rest) {
                    Err(_) => {},
                    Ok(after) => {
                        let head = scope_lines(
                            ctx,
                            state.stats,
                            state.span_index,
                            path,
                            children[0],
                            module,
                        );
                        let later = children_reports(
                            ctx,
                            state.stats,
                            state.span_index,
                            path,
                            children.drop_first(),
                            module,
                        );
                        lemma_wrote_both(state, mid, after, head, instances_lines(later));
                        let all = children_reports(
                            ctx,
                            state.stats,
                            state.span_index,
                            path,
                            children,
                            module,
                        );
                        match scope_report(
                            ctx,
                            state.stats,
                            state.span_index,
                            path,
                            children[0],
                            module,
                        ) {
                            Some(instance) => {
                                assert(all =~= seq![instance] + later);
                                assert(all.drop_first() =~= later);
                            },
                            None => {
                                assert(all =~= later);
                                assert(head + instances_lines(later) =~= instances_lines(later));
                            },
                        }
                    },
                }
            },
        }
    }
}


/// What the report holds of the scope to which `steps` lead from among `scopes`, found as
/// the walk finds it.
pub open spec fn descent_reports<'n>(
    ctx: Settings<'n>,
    table: Seq<Seq<PackedActivity>>,
    span: nat,
    prefix: Seq<Seq<char>>,
    scopes: Seq<Scope>,
    steps: Seq<usize>,
    parent: ModuleRef<'n>,
) -> Seq<Instance>
    decreases steps.len(),
{
    if steps.len() == 0 || steps[0] >= scopes.len() {
        Seq::empty()
    } else {
        let scope = scopes[steps[0] as int];
        if steps.len() == 1 {
            match scope_report(ctx, table, span, prefix, scope, parent) {
                Some(instance) => seq![instance],
                None => Seq::empty(),
            }
        } else {
            let path = prefix.push(scope.name@);
            match child_module(ctx, path, scope.name@, parent) {
                Err(_) => Seq::empty(),
                Ok(module) => descent_reports(
                    ctx,
                    table,
                    span,
                    path,
                    scope.scopes@,
                    steps.drop_first(),
                    module,
                ),
            }
        }
    }
}

/// What the report of window `iteration` holds: the top-level instances of its body.
pub open spec fn export_report(ctx: &Context, iteration: nat) -> Seq<Instance> {
    match ctx.settings() {
        None => Seq::empty(),
        Some(settings) => match ctx.lookup_point {
            LookupPoint::Top => children_reports(
                settings,
                table_of(ctx.stats@),
                iteration,
                Seq::empty(),
                ctx.wave.hierarchy.scopes@,
                ModuleRef::OutsideNetlist,
            ),
            LookupPoint::Scope(steps) => descent_reports(
                settings,
                table_of(ctx.stats@),
                iteration,
                Seq::empty(),
                ctx.wave.hierarchy.scopes@,
                steps@,
                ModuleRef::OutsideNetlist,
            ),
        },
    }
}

proof fn lemma_descent_writes_report<'a, 'n>(
    ctx: Settings<'n>,
    prefix: Seq<Seq<char>>,
    scopes: Seq<Scope>,
    steps: Seq<usize>,
    parent: ModuleRef<'n>,
    state: SaifState,
)
    ensures
        run_trail::<SaifAgent<'a>>(
            state,
            descent_trail(ctx, prefix, scopes, steps, parent),
        ) matches Ok(after) ==> wrote(
            state,
            after,
            instances_lines(
                descent_reports(
                    ctx,
                    state.stats,
                    state.span_index,
                    prefix,
                    scopes,
                    steps,
                    parent,
                ),
            ),
        ),
    decreases steps.len(),
{
    if steps.len() == 0 || steps[0] >= scopes.len() {
    } else {
        let scope = scopes[steps[0] as int];
        if steps.len() == 1 {
            lemma_scope_walk_writes_report(ctx, prefix, scope, parent, state);
            match scope_report(ctx, state.stats, state.span_index, prefix, scope, parent) {
                Some(instance) => {
                    let one = seq![instance];
                    assert(one.drop_first() =~= Seq::<Instance>::empty());
                    assert(instances_lines(one.drop_first()) =~= Seq::<Line>::empty());
                    assert(instances_lines(one) =~= instance_lines(instance));
                },
                None => {},
            }
        } else {
            let path = prefix.push(scope.name@);
            match child_module(ctx, path, scope.name@, parent) {
                Err(_) => {},
                Ok(module) => {
                    lemma_descent_writes_report(
                        ctx,
                        path,
                        scope.scopes@,
                        steps.drop_first(),
                        module,
                        state,
                    );
                },
            }
        }
    }
}

/// The body of the report that an export writes is the blocks of the instances that the
/// report holds: each scope that the walk reaches and that has a record in it or below it,
/// nested as the scopes are.
pub proof fn lemma_export_writes_report(ctx: &Context, iteration: nat)
    ensures
        export_state(ctx, iteration) matches Ok(state) ==> state.lines == instances_lines(
            export_report(ctx, iteration),
        ),
{
    match ctx.settings() {
        None => {},
        Some(settings) => {
            let start = SaifState {
                stats: table_of(ctx.stats@),
                span_index: iteration,
                stack: Seq::empty(),
                lines: Seq::empty(),
                glitches: Seq::empty(),
            };
            let reports = export_report(ctx, iteration);
            match ctx.lookup_point {
                LookupPoint::Top => {
                    lemma_children_walk_writes_reports(
                        settings,
                        Seq::empty(),
                        ctx.wave.hierarchy.scopes@,
                        ModuleRef::OutsideNetlist,
                        start,
                    );
                },
                LookupPoint::Scope(steps) => {
                    lemma_descent_writes_report(
                        settings,
                        Seq::empty(),
                        ctx.wave.hierarchy.scopes@,
                        steps@,
                        ModuleRef::OutsideNetlist,
                        start,
                    );
                },
            }
            match export_state(ctx, iteration) {
                Err(_) => {},
                Ok(state) => {
                    assert(wrote(start, state, instances_lines(reports)));
                    assert(pending_opens(start.stack) =~= Seq::<Line>::empty());
                    assert(state.lines =~= instances_lines(reports));
                },
            }
        },
    }
}

/// Whether `instance` and every instance inside it holds something: a record, or an
/// instance inside it.
pub open spec fn holds_something(instance: Instance) -> bool
    decreases instance,
{
    &&& instance.records.len() > 0 || instance.children.len() > 0
    &&& forall|i: int|
        0 <= i < instance.children.len() ==> holds_something(#[trigger] instance.children[i])
}

/// No instance of a report is empty: each holds a record or an instance, and so does each
/// instance inside it.
pub proof fn lemma_report_holds_something<'n>(
    ctx: Settings<'n>,
    table: Seq<Seq<PackedActivity>>,
    span: nat,
    prefix: Seq<Seq<char>>,
    scope: Scope,
    parent: ModuleRef<'n>,
)
    ensures
        scope_report(ctx, table, span, prefix, scope, parent) matches Some(instance)
            ==> holds_something(instance),
    decreases scope, 1int,
{
    let path = prefix.push(scope.name@);
    match child_module(ctx, path, scope.name@, parent) {
        Err(_) => {},
        Ok(module) => {
            if !(module is BlackBox) {
                lemma_reports_hold_something(ctx, table, span, path, scope.scopes@, module);
            }
            match scope_report(ctx, table, span, prefix, scope, parent) {
                None => {},
                Some(instance) => {
                    assert forall|i: int| 0 <= i < instance.children.len() implies holds_something(
                        #[trigger] instance.children[i],
                    ) by {
                        assert(instance.children[i] == children_reports(
                            ctx,
                            table,
                            span,
                            path,
                            scope.scopes@,
                            module,
                        )[i]);
                    }
                    assert(holds_something(instance));
                },
            }
        },
    }
}

/// No instance of the reports of child scopes is empty.
pub proof fn lemma_reports_hold_something<'n>(
    ctx: Settings<'n>,
    table: Seq<Seq<PackedActivity>>,
    span: nat,
    path: Seq<Seq<char>>,
    children: Seq<Scope>,
    module: ModuleRef<'n>,
)
    ensures
        forall|i: int|
            0 <= i < children_reports(ctx, table, span, path, children, module).len()
                ==> holds_something(
                #[trigger] children_reports(ctx, table, span, path, children, module)[i],
            ),
    decreases children, 0int,
{
    if children.len() > 0 {
        lemma_report_holds_something(ctx, table, span, path, children[0], module);
        lemma_reports_hold_something(ctx, table, span, path, children.drop_first(), module);
        let all = children_reports(ctx, table, span, path, children, module);
        let later = children_reports(ctx, table, span, path, children.drop_first(), module);
        assert forall|i: int| 0 <= i < all.len() implies holds_something(#[trigger] all[i]) by {
            match scope_report(ctx, table, span, path, children[0], module) {
                Some(instance) => {
                    assert(all =~= seq![instance] + later);
                    if i > 0 {
                        assert(all[i] == later[i - 1]);
                    }
                },
                None => {
                    assert(all =~= later);
                },
            }
        }
    }
}

/// A black box has no instance inside it: what the report holds of a scope that is a black
/// box has no children, whatever scopes the trace holds below it.
pub proof fn lemma_black_box_report_has_no_children<'n>(
    ctx: Settings<'n>,
    table: Seq<Seq<PackedActivity>>,
    span: nat,
    prefix: Seq<Seq<char>>,
    scope: Scope,
    parent: ModuleRef<'n>,
)
    requires
        child_module(ctx, prefix.push(scope.name@), scope.name@, parent) == Ok::<
            ModuleRef<'n>,
            ExportError,
        >(ModuleRef::BlackBox),
    ensures
        scope_report(ctx, table, span, prefix, scope, parent) matches Some(instance)
            ==> instance.children.len() == 0,
{
}


proof fn lemma_descent_reports_hold_something<'n>(
    ctx: Settings<'n>,
    table: Seq<Seq<PackedActivity>>,
    span: nat,
    prefix: Seq<Seq<char>>,
    scopes: Seq<Scope>,
    steps: Seq<usize>,
    parent: ModuleRef<'n>,
)
    ensures
        forall|i: int|
            0 <= i < descent_reports(ctx, table, span, prefix, scopes, steps, parent).len()
                ==> holds_something(
                #[trigger] descent_reports(ctx, table, span, prefix, scopes, steps, parent)[i],
            ),
    decreases steps.len(),
{
    let found = descent_reports(ctx, table, span, prefix, scopes, steps, parent);
    if steps.len() == 0 || steps[0] >= scopes.len() {
        assert(found.len() == 0);
    } else {
        let scope = scopes[steps[0] as int];
        if steps.len() == 1 {
            lemma_report_holds_something(ctx, table, span, prefix, scope, parent);
            match scope_report(ctx, table, span, prefix, scope, parent) {
                Some(instance) => {
                    assert(found =~= seq![instance]);
                    assert(found[0] == instance);
                },
                None => {
                    assert(found.len() == 0);
                },
            }
        } else {
            let path = prefix.push(scope.name@);
            match child_module(ctx, path, scope.name@, parent) {
                Err(_) => {
                    assert(found.len() == 0);
                },
                Ok(module) => {
                    lemma_descent_reports_hold_something(
                        ctx,
                        table,
                        span,
                        path,
                        scope.scopes@,
                        steps.drop_first(),
                        module,
                    );
                    assert(found == descent_reports(
                        ctx,
                        table,
                        span,
                        path,
                        scope.scopes@,
                        steps.drop_first(),
                        module,
                    ));
                },
            }
        }
    }
    assert forall|i: int| 0 <= i < found.len() implies holds_something(#[trigger] found[i]) by {}
}

/// A SAIF report has no empty instance: every instance in the body that an export writes
/// holds a record of a net or an instance that is not empty either.
pub proof fn lemma_export_has_no_empty_instance(ctx: &Context, iteration: nat)
    ensures
        export_state(ctx, iteration) matches Ok(state) ==> state.lines == instances_lines(
            export_report(ctx, iteration),
        ),
        forall|i: int|
            0 <= i < export_report(ctx, iteration).len() ==> holds_something(
                #[trigger] export_report(ctx, iteration)[i],
            ),
{
    lemma_export_writes_report(ctx, iteration);
    match ctx.settings() {
        None => {},
        Some(settings) => {
            let table = table_of(ctx.stats@);
            match ctx.lookup_point {
                LookupPoint::Top => {
                    lemma_reports_hold_something(
                        settings,
                        table,
                        iteration,
                        Seq::empty(),
                        ctx.wave.hierarchy.scopes@,
                        ModuleRef::OutsideNetlist,
                    );
                },
                LookupPoint::Scope(steps) => {
                    lemma_descent_reports_hold_something(
                        settings,
                        table,
                        iteration,
                        Seq::empty(),
                        ctx.wave.hierarchy.scopes@,
                        steps@,
                        ModuleRef::OutsideNetlist,
                    );
                },
            }
        },
    }
}

} // verus!
