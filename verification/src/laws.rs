//! What holds of every state that the evaluator reaches.

use vstd::prelude::*;
use crate::color::Color;
use crate::graph::{with_edge, with_node, without_edges};
use crate::key::KeySpec;
use crate::machine::{must_recompute, parent_of, ActionSpec, Control, FrameSpec, MachineSpec, Mode};
use crate::output::OutputSpec;
use crate::shape::{
    lemma_deliver_shaped, lemma_first_open, lemma_pop_ok, lemma_produced_shaped,
    lemma_query_shaped, lemma_scan_shaped, lemma_validate_not_bottom, shaped,
};

verus! {

/// What happens to the evaluator from outside.
pub enum EventSpec {
    /// A query arrives.
    Query(KeySpec),
    /// The producer that was asked for reports its output.
    Produced(OutputSpec),
    /// The evaluator is stepped.
    Resume,
    /// The producer that was asked for is refused, for this reason.
    Refused(Seq<char>),
}

/// Whether the event may happen in the state: queries and reports come only
/// while the evaluator waits, and a report only while a producer runs.
pub open spec fn admits(s: MachineSpec, event: EventSpec) -> bool {
    match event {
        EventSpec::Query(_) => s.accepting(),
        EventSpec::Produced(_) => s.accepting() && s.stack.len() > 0,
        EventSpec::Resume => true,
        EventSpec::Refused(_) => s.accepting() && s.stack.len() > 0,
    }
}

/// The state and the action after the event.
pub open spec fn step(s: MachineSpec, event: EventSpec) -> (MachineSpec, ActionSpec) {
    match event {
        EventSpec::Query(key) => s.query(key),
        EventSpec::Produced(output) => s.produced(output),
        EventSpec::Resume => s.resume(),
        EventSpec::Refused(reason) => s.refuse(reason),
    }
}

/// Whether the producer of `key` is running: asked for, and not yet heard from.
pub open spec fn in_flight(stack: Seq<FrameSpec>, key: KeySpec) -> bool {
    exists|i: int| 0 <= i < stack.len() && #[trigger] stack[i] == FrameSpec::Producing(key)
}

/// The facts that tie colors, cache, graph and stack together, but for the
/// key `skip` where `skipping` is set: that key may be a node that has no
/// color yet and whose producer is not yet asked for.
pub open spec fn tied(s: MachineSpec, skipping: bool, skip: KeySpec) -> bool {
    &&& forall|k: KeySpec| #[trigger]
        s.colors.contains_key(k) ==> s.cache.contains_key(k) || in_flight(s.stack, k)
            || s.refusals.contains(k)
    &&& forall|k: KeySpec| #[trigger]
        s.graph.contains_key(k) ==> s.colors.contains_key(k) || in_flight(s.stack, k)
            || s.refusals.contains(k) || (skipping && k == skip)
    &&& forall|i: int|
        0 <= i < s.stack.len() && (#[trigger] s.stack[i]) is Validate ==> s.graph.contains_key(
            s.stack[i]->Validate_key,
        )
    &&& forall|i: int|
        0 <= i < s.stack.len() && (#[trigger] s.stack[i]) is Producing ==> s.graph.contains_key(
            s.stack[i]->Producing_0,
        )
    &&& forall|i: int|
        0 <= i < s.stack.len() && (#[trigger] s.stack[i]) is Query ==> s.colors.contains_key(
            s.stack[i]->Query_0,
        )
    &&& forall|k: KeySpec| #[trigger] s.cache.contains_key(k) ==> s.graph.contains_key(k)
    &&& forall|k: KeySpec, j: int|
        s.graph.contains_key(k) && 0 <= j < s.graph[k].len() ==> s.graph.contains_key(
            #[trigger] s.graph[k][j],
        )
}

/// The invariant: the stack has its shape; every key with a color has an
/// output in the cache, is being produced, or was refused once; every node of
/// the graph has a color, is being produced, or was refused once; every key under validation, in production or
/// with an output is a node; every key that a query waits for has a color;
/// and every dependency is a node.
pub open spec fn sound(s: MachineSpec) -> bool {
    shaped(s) && tied(s, false, arbitrary())
}

/// A frame more is in flight exactly where it is a producer's.
pub proof fn lemma_in_flight_push(stack: Seq<FrameSpec>, frame: FrameSpec, key: KeySpec)
    ensures
        in_flight(stack.push(frame), key) <==> in_flight(stack, key) || frame
            == FrameSpec::Producing(key),
{
    let pushed = stack.push(frame);
    if in_flight(stack, key) {
        let i = choose|i: int| 0 <= i < stack.len() && #[trigger] stack[i] == FrameSpec::Producing(key);
        assert(pushed[i] == FrameSpec::Producing(key));
    }
    if frame == FrameSpec::Producing(key) {
        assert(pushed[stack.len() as int] == FrameSpec::Producing(key));
    }
    if in_flight(pushed, key) {
        let i = choose|i: int|
            0 <= i < pushed.len() && #[trigger] pushed[i] == FrameSpec::Producing(key);
        if i < stack.len() {
            assert(stack[i] == FrameSpec::Producing(key));
        }
    }
}

/// What is in flight after the innermost frame is gone.
pub proof fn lemma_in_flight_pop(stack: Seq<FrameSpec>, key: KeySpec)
    requires
        stack.len() > 0,
    ensures
        in_flight(stack, key) <==> in_flight(stack.drop_last(), key) || stack.last()
            == FrameSpec::Producing(key),
{
    assert(stack.drop_last().push(stack.last()) =~= stack);
    lemma_in_flight_push(stack.drop_last(), stack.last(), key);
}

/// The parent of a query is in flight.
pub proof fn lemma_parent_in_flight(stack: Seq<FrameSpec>)
    ensures
        parent_of(stack) matches Some(parent) ==> in_flight(stack, parent),
    decreases stack.len(),
{
    if stack.len() > 0 {
        match stack.last() {
            FrameSpec::Producing(key) => {
                assert(stack[stack.len() - 1] == FrameSpec::Producing(key));
            },
            _ => {
                lemma_parent_in_flight(stack.drop_last());
                match parent_of(stack.drop_last()) {
                    Some(parent) => {
                        lemma_in_flight_pop(stack, parent);
                    },
                    None => {},
                }
            },
        }
    }
}

/// Putting a frame on the stack that is no validation, or the validation of a
/// node, keeps the ties.
pub proof fn lemma_push_tied(s: MachineSpec, frame: FrameSpec, skipping: bool, skip: KeySpec)
    requires
        tied(s, skipping, skip),
        frame is Validate ==> s.graph.contains_key(frame->Validate_key),
        frame is Producing ==> s.graph.contains_key(frame->Producing_0),
        frame is Query ==> s.colors.contains_key(frame->Query_0),
    ensures
        tied(s.push(frame), skipping, skip),
        frame == FrameSpec::Producing(skip) ==> tied(s.push(frame), false, skip),
{
    let t = s.push(frame);
    assert forall|k: KeySpec| in_flight(s.stack, k) implies in_flight(t.stack, k) by {
        lemma_in_flight_push(s.stack, frame, k);
    }
    if frame == FrameSpec::Producing(skip) {
        lemma_in_flight_push(s.stack, frame, skip);
    }
}

/// Taking a frame that is no producer's off the stack keeps the ties.
pub proof fn lemma_pop_tied(s: MachineSpec, skipping: bool, skip: KeySpec)
    requires
        tied(s, skipping, skip),
        s.stack.len() > 0,
        !(s.stack.last() is Producing),
    ensures
        tied(s.pop(), skipping, skip),
{
    let t = s.pop();
    assert forall|k: KeySpec| in_flight(s.stack, k) implies in_flight(t.stack, k) by {
        lemma_in_flight_pop(s.stack, k);
    }
}

/// Starting to run a key again keeps the ties, and ties the key.
pub proof fn lemma_recompute_tied(s: MachineSpec, key: KeySpec, skipping: bool)
    requires
        tied(s, skipping, key),
    ensures
        tied(s.recompute(key).0, false, key),
{
    let cleared = MachineSpec { graph: without_edges(s.graph, key), ..s };
    assert(tied(cleared, true, key));
    lemma_push_tied(cleared, FrameSpec::Producing(key), true, key);
    assert(s.recompute(key).0 == cleared.push(FrameSpec::Producing(key)).with_control(Control::Idle));
}

/// Starting to validate a key keeps the ties.
pub proof fn lemma_validate_tied(s: MachineSpec, key: KeySpec)
    requires
        tied(s, false, key),
    ensures
        tied(s.validate(key).0, false, key),
{
    if s.can_validate(key) {
        let frame = FrameSpec::Validate { key, deps: s.graph[key], next: 0, mode: Mode::Scanning };
        lemma_push_tied(s, frame, false, key);
        assert(s.validate(key).0 == s.push(frame).with_control(Control::Scan));
    }
}

/// Taking up a query keeps the ties, and ties the key.
pub proof fn lemma_enter_tied(s: MachineSpec, key: KeySpec, skipping: bool)
    requires
        tied(s, skipping, key),
    ensures
        tied(s.enter(key).0, false, key),
{
    if must_recompute(s, key) {
        lemma_recompute_tied(s, key, skipping);
    } else {
        assert(tied(s, false, key));
        lemma_push_tied(s, FrameSpec::Query(key), false, key);
        lemma_validate_tied(s.push(FrameSpec::Query(key)), key);
    }
}

/// Recording the edge to a query keeps the ties, but for the key of the query.
pub proof fn lemma_record_tied(s: MachineSpec, key: KeySpec)
    requires
        tied(s, false, key),
    ensures
        tied(s.record(key), true, key),
{
    lemma_parent_in_flight(s.stack);
}

/// Answering a query keeps the ties.
pub proof fn lemma_finish_tied(s: MachineSpec, key: KeySpec, output: OutputSpec)
    requires
        tied(s, false, key),
    ensures
        tied(s.finish(key, output).0, false, key),
{
    if s.stack.len() > 0 && s.stack.last() is Validate {
        let frame = s.stack.last();
        lemma_pop_tied(s, false, key);
        if s.colors.contains_key(key) && s.colors[key].0 == Color::Green {
            let moved = FrameSpec::Validate {
                key: frame->Validate_key,
                deps: frame->deps,
                next: frame->next + 1,
                mode: Mode::Scanning,
            };
            assert(s.graph.contains_key(s.stack[s.stack.len() - 1]->Validate_key));
            lemma_push_tied(s.pop(), moved, false, key);
            assert(s.finish(key, output).0 == s.pop().push(moved).with_control(Control::Scan));
        }
    }
}

/// A query from outside keeps the invariant.
pub proof fn lemma_query_sound(s: MachineSpec, key: KeySpec)
    requires
        sound(s),
        s.accepting(),
    ensures
        sound(s.query(key).0),
{
    lemma_query_shaped(s, key);
    assert(tied(s, false, key));
    lemma_record_tied(s, key);
    lemma_enter_tied(s.record(key), key, true);
}

/// The report of a producer keeps the invariant.
pub proof fn lemma_produced_sound(s: MachineSpec, output: OutputSpec)
    requires
        sound(s),
        s.accepting(),
        s.stack.len() > 0,
    ensures
        sound(s.produced(output).0),
{
    lemma_produced_shaped(s, output);
    let key = s.stack.last()->Producing_0;
    let next = s.take(output);
    assert(tied(s, false, key));
    assert forall|k: KeySpec| k != key && in_flight(s.stack, k) implies in_flight(next.stack, k) by {
        lemma_in_flight_pop(s.stack, k);
    }
    assert(tied(next, false, key));
    lemma_finish_tied(next, key, output);
}

/// Forcing a query for a dependency keeps the ties.
pub proof fn lemma_force_tied(s: MachineSpec, key: KeySpec, deps: Seq<KeySpec>, next: nat)
    requires
        tied(s, false, key),
        s.stack.len() > 0,
        s.stack.last() is Validate,
        s.stack.last()->Validate_key == key,
    ensures
        tied(s.force(key, deps, next).0, false, key),
{
    let frame = FrameSpec::Validate { key, deps, next, mode: Mode::Forcing };
    let dep = deps[next as int];
    lemma_pop_tied(s, false, key);
    assert(s.graph.contains_key(s.stack[s.stack.len() - 1]->Validate_key));
    lemma_push_tied(s.pop(), frame, false, key);
    let forced = MachineSpec { stack: s.stack.drop_last().push(frame), ..s };
    assert(forced == s.pop().push(frame));
    assert(tied(forced, false, dep));
    lemma_record_tied(forced, dep);
    lemma_enter_tied(forced.record(dep), dep, true);
}

/// Handing a verdict on keeps the invariant.
pub proof fn lemma_deliver_sound(s: MachineSpec, color: Color)
    requires
        sound(s),
        s.control == Control::Verdict(color),
    ensures
        sound(s.deliver(color).0),
{
    lemma_deliver_shaped(s, color);
    match s.stack.last() {
        FrameSpec::Query(key) => {
            assert(tied(s, false, key));
            lemma_pop_tied(s, false, key);
            if color == Color::Green {
                if s.cache.contains_key(key) {
                    lemma_finish_tied(s.pop(), key, s.cache[key]);
                }
            } else {
                lemma_recompute_tied(s.pop(), key, false);
            }
        },
        FrameSpec::Validate { key, deps, next, mode } => {
            assert(tied(s, false, key));
            if color == Color::Green {
                let moved = FrameSpec::Validate { key, deps, next: next + 1, mode: Mode::Scanning };
                lemma_pop_tied(s, false, key);
                assert(s.graph.contains_key(s.stack[s.stack.len() - 1]->Validate_key));
                lemma_push_tied(s.pop(), moved, false, key);
                assert(s.deliver(color).0 == s.pop().push(moved).with_control(Control::Scan));
            } else {
                lemma_force_tied(s, key, deps, next);
            }
        },
        FrameSpec::Producing(_) => {},
    }
}

/// Going on with a validation keeps the invariant.
pub proof fn lemma_scan_sound(s: MachineSpec)
    requires
        sound(s),
        s.control == Control::Scan,
    ensures
        sound(s.scan().0),
{
    lemma_scan_shaped(s);
    let key = s.stack.last()->Validate_key;
    let deps = s.stack.last()->deps;
    let at = s.first_open(deps, s.stack.last()->next);
    assert(tied(s, false, key));
    assert(s.graph.contains_key(s.stack[s.stack.len() - 1]->Validate_key));
    lemma_pop_tied(s, false, key);
    if at >= deps.len() {
        let popped = s.pop();
        assert forall|k: KeySpec| in_flight(s.stack, k) implies in_flight(popped.stack, k) by {
            lemma_in_flight_pop(s.stack, k);
        }
        assert(tied(popped.mark(key, Color::Green), false, key));
    } else if s.fails(deps[at as int]) {
    } else if deps[at as int].is_input() {
        lemma_force_tied(s, key, deps, at);
    } else {
        let frame = FrameSpec::Validate { key, deps, next: at, mode: Mode::Probing };
        lemma_push_tied(s.pop(), frame, false, key);
        let probing = MachineSpec { stack: s.stack.drop_last().push(frame), ..s };
        assert(probing == s.pop().push(frame));
        assert(tied(probing, false, deps[at as int]));
        lemma_validate_tied(probing, deps[at as int]);
    }
}

/// Refusing the producer that runs keeps the invariant.
pub proof fn lemma_refuse_sound(s: MachineSpec, reason: Seq<char>)
    requires
        sound(s),
        s.accepting(),
        s.stack.len() > 0,
    ensures
        sound(s.refuse(reason).0),
{
    crate::shape::lemma_refuse_shaped(s, reason);
    let key = s.stack.last()->Producing_0;
    let lower = s.stack.drop_last();
    let t = s.refuse(reason).0;
    crate::shape::lemma_unwound(lower);
    assert(tied(s, false, key));
    assert forall|k: KeySpec| in_flight(s.stack, k) implies in_flight(t.stack, k) || k == key by {
        let i = choose|i: int| 0 <= i < s.stack.len() && #[trigger] s.stack[i] == FrameSpec::Producing(k);
        if i < lower.len() {
            assert(lower[i] == s.stack[i]);
            assert(i < t.stack.len());
            assert(t.stack[i] == FrameSpec::Producing(k));
        }
    }
    assert forall|i: int| 0 <= i < t.stack.len() implies #[trigger] t.stack[i] == s.stack[i] by {
        assert(lower[i] == s.stack[i]);
    }
    assert(tied(t, false, key));
}

/// A refused producer leaves no trace in cache or colors, nor in the graph:
/// what it was refused for is not cached, and the query ends with the reason.
pub proof fn lemma_refused_is_not_cached(s: MachineSpec, reason: Seq<char>)
    ensures
        s.refuse(reason).0.cache == s.cache,
        s.refuse(reason).0.colors == s.colors,
        s.refuse(reason).0.graph == s.graph,
        s.refuse(reason).0.revision == s.revision,
        s.refuse(reason).1 == ActionSpec::Refused(reason),
        s.refuse(reason).0.control == Control::Idle,
{
}

/// A query for a key whose producer stands refused is never answered from
/// the cache: the producer is asked for again, at once or with the next step.
pub proof fn lemma_refused_runs_again(s: MachineSpec, key: KeySpec)
    requires
        s.refusals.contains(key),
    ensures
        s.query(key).1 == ActionSpec::Produce(key) || (s.query(key).1 == ActionSpec::Continue
            && s.query(key).0.resume().1 == ActionSpec::Produce(key)),
{
    let recorded = s.record(key);
    assert(recorded.refusals == s.refusals);
    if !must_recompute(recorded, key) {
        let asking = recorded.push(FrameSpec::Query(key));
        let t = asking.validate(key).0;
        assert(t.control == Control::Verdict(Color::Red));
        assert(t.stack.last() == FrameSpec::Query(key));
    }
}

/// Every event that the state admits keeps the invariant.
pub proof fn lemma_step_sound(s: MachineSpec, event: EventSpec)
    requires
        sound(s),
        admits(s, event),
    ensures
        sound(step(s, event).0),
{
    match event {
        EventSpec::Query(key) => {
            lemma_query_sound(s, key);
        },
        EventSpec::Produced(output) => {
            lemma_produced_sound(s, output);
        },
        EventSpec::Refused(reason) => {
            lemma_refuse_sound(s, reason);
        },
        EventSpec::Resume => {
            match s.control {
                Control::Idle => {},
                Control::Scan => {
                    lemma_scan_sound(s);
                },
                Control::Verdict(color) => {
                    lemma_deliver_sound(s, color);
                },
            }
        },
    }
}

/// The state of a new evaluator has the invariant.
pub proof fn lemma_empty_sound(s: MachineSpec)
    requires
        s.colors == Map::<KeySpec, (Color, usize)>::empty(),
        s.cache == Map::<KeySpec, OutputSpec>::empty(),
        s.graph == Map::<KeySpec, Seq<KeySpec>>::empty(),
        s.stack == Seq::<FrameSpec>::empty(),
        s.control == Control::Idle,
    ensures
        sound(s),
{
}

/// A new revision keeps the invariant.
pub proof fn lemma_revision_sound(s: MachineSpec, revision: usize)
    requires
        sound(s),
    ensures
        sound(MachineSpec { revision, ..s }),
{
    let t = MachineSpec { revision, ..s };
    assert(tied(t, false, arbitrary()));
}

/// A key that the evaluator has given a color has an output in the cache,
/// unless its producer is running at this moment or was refused once. In
/// particular a key that is green while no query is under way, and whose
/// producer was never refused, has an output.
pub proof fn lemma_colored_is_cached(s: MachineSpec, key: KeySpec)
    requires
        sound(s),
        s.colors.contains_key(key),
    ensures
        s.cache.contains_key(key) || in_flight(s.stack, key) || s.refusals.contains(key),
        s.stack.len() == 0 && !s.refusals.contains(key) ==> s.cache.contains_key(key),
{
}

/// A query that was verified up to date is found without an output only
/// while the producer of its own key is running (a producer asks for the key
/// that it produces), or after that producer was refused.
pub proof fn lemma_missing_is_in_flight(s: MachineSpec, event: EventSpec, key: KeySpec)
    requires
        sound(s),
        admits(s, event),
        step(s, event).1 == ActionSpec::Missing(key),
    ensures
        in_flight(s.stack, key) || s.refusals.contains(key),
        event is Resume,
{
    match event {
        EventSpec::Query(k) => {
            lemma_enter_graph(s.record(k), k);
        },
        EventSpec::Produced(output) => {
            let k = s.stack.last()->Producing_0;
            let next = s.take(output);
            lemma_finish_graph(next, k, output);
        },
        EventSpec::Refused(_) => {},
        EventSpec::Resume => {
            match s.control {
                Control::Idle => {},
                Control::Scan => {
                    let owner = s.stack.last()->Validate_key;
                    let deps = s.stack.last()->deps;
                    let at = s.first_open(deps, s.stack.last()->next);
                    if at < deps.len() && !s.fails(deps[at as int]) {
                        if deps[at as int].is_input() {
                            let frame = FrameSpec::Validate { key: owner, deps, next: at, mode: Mode::Forcing };
                            let forced = MachineSpec { stack: s.stack.drop_last().push(frame), ..s };
                            lemma_enter_graph(forced.record(deps[at as int]), deps[at as int]);
                        }
                    }
                },
                Control::Verdict(color) => {
                    match s.stack.last() {
                        FrameSpec::Query(k) => {
                            if color == Color::Green {
                                if s.cache.contains_key(k) {
                                    lemma_finish_graph(s.pop(), k, s.cache[k]);
                                } else {
                                    assert(s.stack[s.stack.len() - 1] is Query);
                                    assert(s.colors.contains_key(k));
                                }
                            } else {
                            }
                        },
                        FrameSpec::Validate { key: owner, deps, next, mode } => {
                            if color != Color::Green {
                                let frame = FrameSpec::Validate { key: owner, deps, next, mode: Mode::Forcing };
                                let forced = MachineSpec { stack: s.stack.drop_last().push(frame), ..s };
                                lemma_enter_graph(forced.record(deps[next as int]), deps[next as int]);
                            }
                        },
                        FrameSpec::Producing(_) => {},
                    }
                },
            }
        },
    }
}

/// The key for which the event makes the evaluator take up a query, if it
/// does: the key of a query from outside, or the dependency that a validation
/// forces.
pub open spec fn asked(s: MachineSpec, event: EventSpec) -> Option<KeySpec> {
    match event {
        EventSpec::Query(key) => Some(key),
        EventSpec::Produced(_) => None,
        EventSpec::Refused(_) => None,
        EventSpec::Resume => match s.control {
            Control::Idle => None,
            Control::Scan => {
                let deps = s.stack.last()->deps;
                let at = s.first_open(deps, s.stack.last()->next);
                if at < deps.len() && !s.fails(deps[at as int]) && deps[at as int].is_input() {
                    Some(deps[at as int])
                } else {
                    None
                }
            },
            Control::Verdict(color) => {
                if color != Color::Green && s.stack.last() is Validate {
                    Some(s.stack.last()->deps[s.stack.last()->next as int])
                } else {
                    None
                }
            },
        },
    }
}

/// The graph after the event. Where a query is taken up while a producer
/// runs, the edge from that producer's key to the query's is recorded. Where
/// the step asks for a producer, the key of that producer loses its edges.
/// Nothing else touches the graph.
pub open spec fn graph_after(s: MachineSpec, event: EventSpec) -> Map<KeySpec, Seq<KeySpec>> {
    let recorded = match (parent_of(s.stack), asked(s, event)) {
        (Some(parent), Some(key)) => with_edge(s.graph, parent, key),
        _ => s.graph,
    };
    match step(s, event).1 {
        ActionSpec::Produce(key) => without_edges(recorded, key),
        _ => recorded,
    }
}

/// A validation on top of the stack does not change who the parent is.
pub proof fn lemma_parent_under_validation(stack: Seq<FrameSpec>, frame: FrameSpec)
    requires
        stack.len() > 0,
        stack.last() is Validate,
        frame is Validate,
    ensures
        parent_of(stack.drop_last().push(frame)) == parent_of(stack),
{
    let replaced = stack.drop_last().push(frame);
    assert(replaced.drop_last() =~= stack.drop_last());
}

/// What taking up a query does to the graph.
pub proof fn lemma_enter_graph(s: MachineSpec, key: KeySpec)
    ensures
        s.enter(key).0.graph == (match s.enter(key).1 {
            ActionSpec::Produce(k) => without_edges(s.graph, k),
            _ => s.graph,
        }),
        s.enter(key).1 is Produce ==> s.enter(key).1 == ActionSpec::Produce(key),
        !(s.enter(key).1 is Missing),
        !(s.enter(key).1 is Done),
{
}

/// What answering a query does to the graph: nothing.
pub proof fn lemma_finish_graph(s: MachineSpec, key: KeySpec, output: OutputSpec)
    ensures
        s.finish(key, output).0.graph == s.graph,
        !(s.finish(key, output).1 is Produce),
        !(s.finish(key, output).1 is Missing),
{
}

/// What forcing a query does to the graph.
pub proof fn lemma_force_graph(s: MachineSpec, key: KeySpec, deps: Seq<KeySpec>, next: nat)
    requires
        s.stack.len() > 0,
        s.stack.last() is Validate,
    ensures
        ({
            let recorded = match parent_of(s.stack) {
                Some(parent) => with_edge(s.graph, parent, deps[next as int]),
                None => s.graph,
            };
            s.force(key, deps, next).0.graph == (match s.force(key, deps, next).1 {
                ActionSpec::Produce(k) => without_edges(recorded, k),
                _ => recorded,
            })
        }),
{
    let frame = FrameSpec::Validate { key, deps, next, mode: Mode::Forcing };
    lemma_parent_under_validation(s.stack, frame);
    let forced = MachineSpec { stack: s.stack.drop_last().push(frame), ..s };
    lemma_enter_graph(forced.record(deps[next as int]), deps[next as int]);
}

/// The graph changes only as `graph_after` says: edges appear only from the
/// key of the running producer to the key that it, or a validation on its
/// behalf, asks for; and edges go only from a key whose producer is started.
pub proof fn lemma_step_graph(s: MachineSpec, event: EventSpec)
    requires
        shaped(s),
        admits(s, event),
    ensures
        step(s, event).0.graph == graph_after(s, event),
{
    match event {
        EventSpec::Query(key) => {
            lemma_enter_graph(s.record(key), key);
        },
        EventSpec::Produced(output) => {
            let key = s.stack.last()->Producing_0;
            let next = s.take(output);
            lemma_finish_graph(next, key, output);
        },
        EventSpec::Refused(_) => {},
        EventSpec::Resume => {
            match s.control {
                Control::Idle => {},
                Control::Scan => {
                    let key = s.stack.last()->Validate_key;
                    let deps = s.stack.last()->deps;
                    let at = s.first_open(deps, s.stack.last()->next);
                    if at >= deps.len() {
                    } else if s.fails(deps[at as int]) {
                    } else if deps[at as int].is_input() {
                        lemma_force_graph(s, key, deps, at);
                    } else {
                    }
                },
                Control::Verdict(color) => {
                    match s.stack.last() {
                        FrameSpec::Query(key) => {
                            if color == Color::Green {
                                if s.cache.contains_key(key) {
                                    lemma_finish_graph(s.pop(), key, s.cache[key]);
                                }
                            }
                        },
                        FrameSpec::Validate { key, deps, next, mode } => {
                            if color != Color::Green {
                                lemma_force_graph(s, key, deps, next);
                            }
                        },
                        FrameSpec::Producing(_) => {},
                    }
                },
            }
        },
    }
}

/// Whether the edge from `from` to `to` is in the graph.
pub open spec fn has_edge(graph: Map<KeySpec, Seq<KeySpec>>, from: KeySpec, to: KeySpec) -> bool {
    graph.contains_key(from) && graph[from].contains(to)
}

/// An edge that a step adds runs from the key of the producer that is running
/// to the key that the step takes up a query for: the producer read that key.
pub proof fn lemma_new_edge_is_a_read(s: MachineSpec, event: EventSpec, from: KeySpec, to: KeySpec)
    requires
        shaped(s),
        admits(s, event),
        has_edge(step(s, event).0.graph, from, to),
        !has_edge(s.graph, from, to),
    ensures
        parent_of(s.stack) == Some(from),
        asked(s, event) == Some(to),
{
    lemma_step_graph(s, event);
    match (parent_of(s.stack), asked(s, event)) {
        (Some(parent), Some(key)) => {
            let nodes = with_node(with_node(s.graph, parent), key);
            if !(from == parent && to == key) {
                assert(has_edge(nodes, from, to) ==> has_edge(s.graph, from, to));
                if from == parent && nodes[parent].contains(to) == false {
                    let list = seq![key] + nodes[parent];
                    if list.contains(to) {
                        let j = choose|j: int| 0 <= j < list.len() && list[j] == to;
                        assert(j > 0);
                        assert(nodes[parent][j - 1] == to);
                    }
                }
            }
        },
        _ => {},
    }
}

/// When a step asks for the producer of a key, that key has no edges: the
/// edges that it has when its producer reports are those recorded meanwhile.
pub proof fn lemma_producer_starts_without_edges(s: MachineSpec, event: EventSpec, key: KeySpec)
    requires
        shaped(s),
        admits(s, event),
        step(s, event).1 == ActionSpec::Produce(key),
    ensures
        step(s, event).0.graph.contains_key(key),
        step(s, event).0.graph[key] == Seq::<KeySpec>::empty(),
{
    lemma_step_graph(s, event);
}

/// Whether every key that the evaluator knows is green, has an output and is
/// a node, and the graph names no other keys.
pub open spec fn known(s: MachineSpec) -> bool {
    &&& forall|k: KeySpec| #[trigger]
        s.colors.contains_key(k) ==> s.colors[k].0 == Color::Green && s.cache.contains_key(k)
            && s.graph.contains_key(k)
    &&& forall|k: KeySpec| #[trigger] s.graph.contains_key(k) ==> s.colors.contains_key(k)
    &&& forall|k: KeySpec, j: int|
        s.graph.contains_key(k) && 0 <= j < s.graph[k].len() ==> s.colors.contains_key(
            #[trigger] s.graph[k][j],
        )
}

/// Whether every key that the frame names has a color.
pub open spec fn frame_known(colors: Map<KeySpec, (Color, usize)>, frame: FrameSpec) -> bool {
    match frame {
        FrameSpec::Producing(key) => colors.contains_key(key),
        FrameSpec::Query(key) => colors.contains_key(key),
        FrameSpec::Validate { key, deps, .. } => colors.contains_key(key) && forall|j: int|
            0 <= j < deps.len() ==> colors.contains_key(#[trigger] deps[j]),
    }
}

/// Whether every key that the stack names has a color.
pub open spec fn frames_known(colors: Map<KeySpec, (Color, usize)>, stack: Seq<FrameSpec>) -> bool {
    forall|i: int| 0 <= i < stack.len() ==> frame_known(colors, #[trigger] stack[i])
}

/// Whether no producer runs.
pub open spec fn none_producing(stack: Seq<FrameSpec>) -> bool {
    forall|i: int| 0 <= i < stack.len() ==> !((#[trigger] stack[i]) is Producing)
}

/// Whether no producer runs but, at most, the innermost.
pub open spec fn calm(stack: Seq<FrameSpec>) -> bool {
    stack.len() > 0 ==> none_producing(stack.drop_last())
}

/// Whether nothing has changed, as far as the evaluator can tell: every key
/// that it knows is green, has an output and is a node; the graph and the
/// stack name no other keys; no producer runs but the innermost; and no
/// validation has failed; and no producer stands refused.
pub open spec fn settled(s: MachineSpec) -> bool {
    &&& shaped(s)
    &&& s.control != Control::Verdict(Color::Red)
    &&& known(s)
    &&& frames_known(s.colors, s.stack)
    &&& calm(s.stack)
    &&& forall|k: KeySpec| !s.refusals.contains(k)
}

/// Whether the event is one of a run in which nothing outside has changed:
/// queries come from nobody and for keys that are known, and every producer
/// reports an output with the digest of the one in the cache.
pub open spec fn unchanged(s: MachineSpec, event: EventSpec) -> bool {
    match event {
        EventSpec::Query(key) => s.accepting() && s.stack.len() == 0 && s.colors.contains_key(key),
        EventSpec::Produced(output) => s.accepting() && s.stack.len() > 0 && crate::cache::output_digest(
            output,
        ) == crate::cache::output_digest(s.cache[s.stack.last()->Producing_0]),
        EventSpec::Resume => true,
        EventSpec::Refused(_) => false,
    }
}

/// Where no producer runs, a query has no parent.
pub proof fn lemma_no_parent(stack: Seq<FrameSpec>)
    requires
        none_producing(stack),
    ensures
        parent_of(stack) == None::<KeySpec>,
    decreases stack.len(),
{
    if stack.len() > 0 {
        assert(!(stack[stack.len() - 1] is Producing));
        assert forall|i: int| 0 <= i < stack.drop_last().len() implies !((
        #[trigger] stack.drop_last()[i]) is Producing) by {
            assert(!(stack[i] is Producing));
        }
        lemma_no_parent(stack.drop_last());
    }
}

/// A frame more with known keys, on a stack with known keys.
pub proof fn lemma_push_known(colors: Map<KeySpec, (Color, usize)>, stack: Seq<FrameSpec>, frame: FrameSpec)
    requires
        frames_known(colors, stack),
        frame_known(colors, frame),
    ensures
        frames_known(colors, stack.push(frame)),
        none_producing(stack) ==> calm(stack.push(frame)),
        none_producing(stack) && !(frame is Producing) ==> none_producing(stack.push(frame)),
{
    let pushed = stack.push(frame);
    assert forall|i: int| 0 <= i < pushed.len() implies frame_known(colors, #[trigger] pushed[i]) by {
        if i < stack.len() {
            assert(frame_known(colors, stack[i]));
        }
    }
    assert(pushed.drop_last() =~= stack);
    if none_producing(stack) && !(frame is Producing) {
        assert forall|i: int| 0 <= i < pushed.len() implies !((#[trigger] pushed[i]) is Producing) by {
            if i < stack.len() {
                assert(!(stack[i] is Producing));
            }
        }
    }
}

/// A frame less, on a stack with known keys.
pub proof fn lemma_pop_known(colors: Map<KeySpec, (Color, usize)>, stack: Seq<FrameSpec>)
    requires
        frames_known(colors, stack),
        calm(stack),
        stack.len() > 0,
    ensures
        frames_known(colors, stack.drop_last()),
        none_producing(stack.drop_last()),
        frame_known(colors, stack.last()),
{
    assert forall|i: int| 0 <= i < stack.drop_last().len() implies frame_known(
        colors,
        #[trigger] stack.drop_last()[i],
    ) by {
        assert(frame_known(colors, stack[i]));
    }
    assert(frame_known(colors, stack[stack.len() - 1]));
}

/// The keys of a stack stay known when a known key gets another color.
pub proof fn lemma_recolor_known(
    colors: Map<KeySpec, (Color, usize)>,
    stack: Seq<FrameSpec>,
    key: KeySpec,
    verdict: (Color, usize),
)
    requires
        frames_known(colors, stack),
    ensures
        frames_known(colors.insert(key, verdict), stack),
{
    assert forall|i: int| 0 <= i < stack.len() implies frame_known(
        colors.insert(key, verdict),
        #[trigger] stack[i],
    ) by {
        assert(frame_known(colors, stack[i]));
    }
}

/// Taking up a query for a known key, while no producer runs and nothing has
/// changed, asks for no producer but that of a key that observes the outside.
pub proof fn lemma_enter_settled(s: MachineSpec, key: KeySpec)
    requires
        crate::shape::stack_ok(s.stack),
        crate::shape::open_for_query(s.stack),
        known(s),
        frames_known(s.colors, s.stack),
        none_producing(s.stack),
        s.colors.contains_key(key),
        forall|k: KeySpec| !s.refusals.contains(k),
    ensures
        settled(s.enter(key).0),
        s.enter(key).1 matches ActionSpec::Produce(k) ==> k.is_input(),
        !(s.enter(key).1 is Missing),
{
    crate::shape::lemma_enter_shaped(s, key);
    if must_recompute(s, key) {
        lemma_push_known(s.colors, s.stack, FrameSpec::Producing(key));
        let t = s.recompute(key).0;
        assert(known(t));
    } else {
        let asks = FrameSpec::Query(key);
        lemma_push_known(s.colors, s.stack, asks);
        let frame = FrameSpec::Validate { key, deps: s.graph[key], next: 0, mode: Mode::Scanning };
        assert(s.graph.contains_key(key));
        assert(frame_known(s.colors, frame));
        lemma_push_known(s.colors, s.stack.push(asks), frame);
        assert((s.stack.push(asks).push(frame)).drop_last() =~= s.stack.push(asks));
    }
}

/// Answering a query for a key that is green, while no producer runs and
/// nothing has changed, keeps things so.
pub proof fn lemma_finish_settled(s: MachineSpec, key: KeySpec, output: OutputSpec)
    requires
        crate::shape::stack_ok(s.stack),
        crate::shape::open_for_query(s.stack),
        known(s),
        frames_known(s.colors, s.stack),
        none_producing(s.stack),
        s.colors.contains_key(key),
        forall|k: KeySpec| !s.refusals.contains(k),
    ensures
        settled(s.finish(key, output).0),
        !(s.finish(key, output).1 is Produce),
        !(s.finish(key, output).1 is Missing),
{
    crate::shape::lemma_finish_shaped(s, key, output);
    if s.stack.len() > 0 && s.stack.last() is Validate {
        let frame = s.stack.last();
        let moved = FrameSpec::Validate {
            key: frame->Validate_key,
            deps: frame->deps,
            next: frame->next + 1,
            mode: Mode::Scanning,
        };
        assert(frame_known(s.colors, s.stack[s.stack.len() - 1]));
        assert forall|i: int| 0 <= i < s.stack.drop_last().len() implies frame_known(
            s.colors,
            #[trigger] s.stack.drop_last()[i],
        ) && !(s.stack.drop_last()[i] is Producing) by {
            assert(frame_known(s.colors, s.stack[i]));
            assert(!(s.stack[i] is Producing));
        }
        lemma_push_known(s.colors, s.stack.drop_last(), moved);
    } else {
        if s.stack.len() > 0 {
            assert forall|i: int| 0 <= i < s.stack.drop_last().len() implies !((
            #[trigger] s.stack.drop_last()[i]) is Producing) by {
                assert(!(s.stack[i] is Producing));
            }
        }
    }
}

/// Forcing a query for a known dependency, while nothing has changed, asks
/// for no producer but that of a key that observes the outside.
pub proof fn lemma_force_settled(s: MachineSpec, key: KeySpec, deps: Seq<KeySpec>, next: nat)
    requires
        settled(s),
        s.stack.len() > 1,
        s.stack.last() is Validate,
        s.stack.last()->Validate_key == key,
        s.stack.last()->deps == deps,
        next < deps.len(),
    ensures
        settled(s.force(key, deps, next).0),
        s.force(key, deps, next).1 matches ActionSpec::Produce(k) ==> k.is_input(),
        !(s.force(key, deps, next).1 is Missing),
{
    let frame = FrameSpec::Validate { key, deps, next, mode: Mode::Forcing };
    let dep = deps[next as int];
    lemma_pop_known(s.colors, s.stack);
    lemma_pop_ok(s.stack);
    crate::shape::lemma_replace_ok(s.stack, frame);
    assert(frame_known(s.colors, frame));
    lemma_push_known(s.colors, s.stack.drop_last(), frame);
    let forced = MachineSpec { stack: s.stack.drop_last().push(frame), ..s };
    lemma_no_parent(forced.stack);
    assert(forced.record(dep) == forced);
    assert(s.colors.contains_key(deps[next as int]));
    lemma_enter_settled(forced, dep);
}

/// In a run in which nothing outside has changed, things stay so, and the
/// evaluator asks for no producer but those of keys that observe the outside:
/// everything derived is answered from the cache.
pub proof fn lemma_nothing_changed(s: MachineSpec, event: EventSpec)
    requires
        settled(s),
        unchanged(s, event),
    ensures
        settled(step(s, event).0),
        step(s, event).1 matches ActionSpec::Produce(key) ==> key.is_input(),
        !(step(s, event).1 is Missing),
{
    match event {
        EventSpec::Query(key) => {
            assert(s.stack =~= Seq::<FrameSpec>::empty());
            assert(s.record(key) == s);
            lemma_enter_settled(s, key);
        },
        EventSpec::Produced(output) => {
            let key = s.stack.last()->Producing_0;
            lemma_pop_known(s.colors, s.stack);
            lemma_pop_ok(s.stack);
            let next = s.take(output);
            assert(next.colors == s.colors.insert(key, (Color::Green, s.revision)));
            lemma_recolor_known(s.colors, s.stack.drop_last(), key, (Color::Green, s.revision));
            assert(known(next));
            lemma_finish_settled(next, key, output);
        },
        EventSpec::Refused(_) => {},
        EventSpec::Resume => {
            match s.control {
                Control::Idle => {},
                Control::Scan => {
                    let key = s.stack.last()->Validate_key;
                    let deps = s.stack.last()->deps;
                    let at = s.first_open(deps, s.stack.last()->next);
                    lemma_scan_shaped(s);
                    lemma_first_open(s, deps, s.stack.last()->next);
                    lemma_validate_not_bottom(s.stack);
                    lemma_pop_known(s.colors, s.stack);
                    lemma_pop_ok(s.stack);
                    if at >= deps.len() {
                        lemma_recolor_known(
                            s.colors,
                            s.stack.drop_last(),
                            key,
                            (Color::Green, s.revision),
                        );
                        let t = s.pop().mark(key, Color::Green);
                        assert(known(t));
                        assert(none_producing(t.stack));
                        assert(calm(t.stack)) by {
                            if t.stack.len() > 0 {
                                assert forall|i: int| 0 <= i < t.stack.drop_last().len() implies !((
                                #[trigger] t.stack.drop_last()[i]) is Producing) by {
                                    assert(!(t.stack[i] is Producing));
                                }
                            }
                        }
                    } else {
                        assert(s.colors.contains_key(deps[at as int]));
                        assert(!s.fails(deps[at as int]));
                        if deps[at as int].is_input() {
                            lemma_force_settled(s, key, deps, at);
                        } else {
                            let dep = deps[at as int];
                            let frame = FrameSpec::Validate { key, deps, next: at, mode: Mode::Probing };
                            assert(frame_known(s.colors, frame));
                            lemma_push_known(s.colors, s.stack.drop_last(), frame);
                            let probing = MachineSpec {
                                stack: s.stack.drop_last().push(frame),
                                ..s
                            };
                            assert(s.graph.contains_key(dep));
                            let inner = FrameSpec::Validate {
                                key: dep,
                                deps: s.graph[dep],
                                next: 0,
                                mode: Mode::Scanning,
                            };
                            assert(frame_known(s.colors, inner));
                            lemma_push_known(s.colors, probing.stack, inner);
                            assert(probing.stack.push(inner).drop_last() =~= probing.stack);
                        }
                    }
                },
                Control::Verdict(color) => {
                    lemma_deliver_shaped(s, color);
                    lemma_pop_known(s.colors, s.stack);
                    lemma_pop_ok(s.stack);
                    match s.stack.last() {
                        FrameSpec::Query(key) => {
                            lemma_finish_settled(s.pop(), key, s.cache[key]);
                        },
                        FrameSpec::Validate { key, deps, next, mode } => {
                            lemma_validate_not_bottom(s.stack);
                            let moved = FrameSpec::Validate {
                                key,
                                deps,
                                next: next + 1,
                                mode: Mode::Scanning,
                            };
                            assert(frame_known(s.colors, moved));
                            lemma_push_known(s.colors, s.stack.drop_last(), moved);
                        },
                        FrameSpec::Producing(_) => {},
                    }
                },
            }
        },
    }
}

/// After a restore nothing has changed yet: the restored state is settled
/// wherever every key of the graph and every dependency has an output.
pub proof fn lemma_restored_settled(s: MachineSpec)
    requires
        s.stack == Seq::<FrameSpec>::empty(),
        s.control == Control::Idle,
        forall|k: KeySpec| #[trigger] s.colors.contains_key(k) <==> s.cache.contains_key(k),
        forall|k: KeySpec| #[trigger] s.colors.contains_key(k) ==> s.colors[k].0 == Color::Green,
        forall|k: KeySpec| #[trigger] s.graph.contains_key(k) <==> s.cache.contains_key(k),
        forall|k: KeySpec, j: int|
            s.graph.contains_key(k) && 0 <= j < s.graph[k].len() ==> s.graph.contains_key(
                #[trigger] s.graph[k][j],
            ),
        forall|k: KeySpec| !s.refusals.contains(k),
    ensures
        settled(s),
{
}

/// While no query is under way, a state in which no key is red and no
/// producer was ever refused is one in which nothing has changed: such is the
/// state after a first run.
pub proof fn lemma_idle_settled(s: MachineSpec)
    requires
        sound(s),
        s.stack.len() == 0,
        forall|k: KeySpec| #[trigger] s.colors.contains_key(k) ==> s.colors[k].0 == Color::Green,
        forall|k: KeySpec| !s.refusals.contains(k),
    ensures
        settled(s),
{
    assert forall|k: KeySpec| !in_flight(s.stack, k) by {}
}

/// A new revision changes nothing but what is stale.
pub proof fn lemma_revision_settled(s: MachineSpec, revision: usize)
    requires
        settled(s),
    ensures
        settled(MachineSpec { revision, ..s }),
{
}

/// A query for a key without a color, or for a stale observation of the
/// outside, asks for its producer at once, and the key starts without edges.
pub proof fn lemma_query_recomputes(s: MachineSpec, key: KeySpec)
    requires
        must_recompute(s, key),
    ensures
        s.query(key).1 == ActionSpec::Produce(key),
        s.query(key).0.stack == s.stack.push(FrameSpec::Producing(key)),
        s.query(key).0.graph[key] == Seq::<KeySpec>::empty(),
        s.query(key).0.cache == s.cache,
        s.query(key).0.colors == s.colors,
{
    assert(must_recompute(s.record(key), key));
}

/// What the report of a producer does to its key: the cache holds the new
/// output; the key is green as of this revision where there was no output
/// before or the old one has the same digest, and red as of this revision
/// where the digests differ; no other key changes. A producer that was asked
/// for from outside is answered with the output.
pub proof fn lemma_produced_colors(s: MachineSpec, output: OutputSpec)
    requires
        shaped(s),
        s.accepting(),
        s.stack.len() > 0,
    ensures
        ({
            let key = s.stack.last()->Producing_0;
            let t = s.produced(output).0;
            let same = !s.cache.contains_key(key) || crate::cache::output_digest(s.cache[key])
                == crate::cache::output_digest(output);
            &&& t.cache == s.cache.insert(key, output)
            &&& t.colors == s.colors.insert(
                key,
                (if same {
                    Color::Green
                } else {
                    Color::Red
                }, s.revision),
            )
            &&& t.graph == s.graph
            &&& (s.stack.len() == 1 || s.stack[s.stack.len() - 2] is Producing)
                ==> s.produced(output).1 == ActionSpec::Done(output) && t.stack == s.stack.drop_last()
        }),
{
    let next = s.take(output);
    if s.stack.len() > 1 {
        assert(next.stack.last() == s.stack[s.stack.len() - 2]);
    }
}

/// What the report of a producer does to the validation that forced it: on
/// an output with the digest of the old one the dependency is green as of
/// this revision and the validation goes on behind it; on a changed output
/// the dependency is red and the validation ends with the verdict red, its
/// key neither marked nor run.
pub proof fn lemma_forced_dependency(s: MachineSpec, output: OutputSpec)
    requires
        shaped(s),
        s.accepting(),
        s.stack.len() > 1,
        s.stack[s.stack.len() - 2] is Validate,
    ensures
        ({
            let dep = s.stack.last()->Producing_0;
            let frame = s.stack[s.stack.len() - 2];
            let (t, action) = s.produced(output);
            let same = !s.cache.contains_key(dep) || crate::cache::output_digest(s.cache[dep])
                == crate::cache::output_digest(output);
            &&& action == ActionSpec::Continue
            &&& same ==> t.control == Control::Scan && t.colors[dep] == (Color::Green, s.revision)
                && t.stack == s.stack.drop_last().drop_last().push(
                FrameSpec::Validate {
                    key: frame->Validate_key,
                    deps: frame->deps,
                    next: frame->next + 1,
                    mode: Mode::Scanning,
                },
            )
            &&& !same ==> t.control == Control::Verdict(Color::Red) && t.colors[dep] == (
                Color::Red,
                s.revision,
            ) && t.stack == s.stack.drop_last().drop_last() && (frame->Validate_key != dep
                ==> (t.colors.contains_key(frame->Validate_key) == s.colors.contains_key(
                frame->Validate_key,
            ) && (s.colors.contains_key(frame->Validate_key) ==> t.colors[frame->Validate_key]
                == s.colors[frame->Validate_key])))
        }),
{
    let next = s.take(output);
    assert(next.stack.last() == s.stack[s.stack.len() - 2]);
}

/// The verdict of a scan. It is green, at this step, exactly where every
/// dependency from the scan's place on is green as of this revision; the key
/// is then green as of this revision, and no producer is asked for. Where the
/// first dependency that is not so is red, the verdict is red, and colors,
/// cache and graph stay as they are.
pub proof fn lemma_scan_verdict(s: MachineSpec)
    requires
        shaped(s),
        s.control == Control::Scan,
    ensures
        ({
            let key = s.stack.last()->Validate_key;
            let deps = s.stack.last()->deps;
            let next = s.stack.last()->next;
            let (t, action) = s.scan();
            let all_pass = forall|i: int| next <= i < deps.len() ==> s.passes(#[trigger] deps[i]);
            &&& t.control == Control::Verdict(Color::Green) <==> all_pass
            &&& all_pass ==> action == ActionSpec::Continue && t.colors == s.colors.insert(
                key,
                (Color::Green, s.revision),
            ) && t.cache == s.cache && t.graph == s.graph && t.stack == s.stack.drop_last()
            &&& !all_pass && s.fails(deps[s.first_open(deps, next) as int]) ==> t.control
                == Control::Verdict(Color::Red) && action == ActionSpec::Continue && t.colors
                == s.colors && t.cache == s.cache && t.graph == s.graph && t.stack
                == s.stack.drop_last()
        }),
{
    let key = s.stack.last()->Validate_key;
    let deps = s.stack.last()->deps;
    let next = s.stack.last()->next;
    let at = s.first_open(deps, next);
    lemma_first_open(s, deps, next);
    lemma_validate_not_bottom(s.stack);
    let all_pass = forall|i: int| next <= i < deps.len() ==> s.passes(#[trigger] deps[i]);
    if at < deps.len() {
        assert(!s.passes(deps[at as int]));
        assert(!all_pass);
        if !s.fails(deps[at as int]) {
            if deps[at as int].is_input() {
                let frame = FrameSpec::Validate { key, deps, next: at, mode: Mode::Forcing };
                let forced = MachineSpec { stack: s.stack.drop_last().push(frame), ..s };
                let dep = deps[at as int];
                let entered = forced.record(dep);
                if !must_recompute(entered, dep) {
                    let asking = entered.push(FrameSpec::Query(dep));
                    assert(asking.validate(dep).0.control != Control::Verdict(Color::Green));
                }
            } else {
                let frame = FrameSpec::Validate { key, deps, next: at, mode: Mode::Probing };
                let probing = MachineSpec { stack: s.stack.drop_last().push(frame), ..s };
                assert(probing.validate(deps[at as int]).0.control != Control::Verdict(
                    Color::Green,
                ));
            }
        }
    }
}

} // verus!
