//! The shape that the machine's stack keeps: which frame may stand on which,
//! and what the machine may be about to do with the innermost one.

use vstd::prelude::*;
use crate::color::Color;
use crate::key::KeySpec;
use crate::machine::{unwound, ActionSpec, Control, FrameSpec, MachineSpec, Mode};
use crate::output::OutputSpec;

verus! {

/// A validation has not looked past its dependencies, and one that waits for
/// a dependency has that dependency.
pub open spec fn frame_ok(frame: FrameSpec) -> bool {
    frame matches FrameSpec::Validate { deps, next, mode, .. } ==> next <= deps.len() && (mode
        != Mode::Scanning ==> next < deps.len())
}

/// Whether `upper` may stand directly on `lower`.
pub open spec fn may_stand_on(lower: FrameSpec, upper: FrameSpec) -> bool {
    match lower {
        FrameSpec::Producing(_) => upper is Producing || upper is Query,
        FrameSpec::Query(_) => upper is Validate,
        FrameSpec::Validate { mode, .. } => match mode {
            Mode::Scanning => false,
            Mode::Probing => upper is Validate,
            Mode::Forcing => upper is Producing || upper is Query,
        },
    }
}

/// Whether the stack may rest as it is, given a frame is about to be put on it
/// or has just been taken off it: every frame is in order and stands on what
/// it may stand on.
pub open spec fn stack_ok(stack: Seq<FrameSpec>) -> bool {
    &&& forall|i: int| 0 <= i < stack.len() ==> frame_ok(#[trigger] stack[i])
    &&& forall|i: int| 0 <= i < stack.len() - 1 ==> may_stand_on(#[trigger] stack[i], stack[i + 1])
    &&& stack.len() > 0 ==> !(stack[0] is Validate)
}

/// Whether what the machine is about to do fits the innermost frame.
pub open spec fn control_ok(stack: Seq<FrameSpec>, control: Control) -> bool {
    match control {
        Control::Idle => stack.len() == 0 || stack.last() is Producing,
        Control::Scan => stack.len() > 0 && (stack.last() matches FrameSpec::Validate { mode, .. }
            && mode == Mode::Scanning),
        Control::Verdict(_) => stack.len() > 0 && (stack.last() is Query || (
        stack.last() matches FrameSpec::Validate { mode, .. } && mode == Mode::Probing)),
    }
}

/// The shape of a state between two steps.
pub open spec fn shaped(s: MachineSpec) -> bool {
    stack_ok(s.stack) && control_ok(s.stack, s.control)
}

/// Whether a frame may be put on the stack as it is: on an empty stack, on a
/// producer, or on a validation that forces a query.
pub open spec fn open_for_query(stack: Seq<FrameSpec>) -> bool {
    stack.len() == 0 || stack.last() is Producing || (stack.last() matches FrameSpec::Validate {
        mode,
        ..
    } && mode == Mode::Forcing)
}

/// Putting a frame on a stack in order, where it may stand, leaves the stack in order.
pub proof fn lemma_push_ok(stack: Seq<FrameSpec>, frame: FrameSpec)
    requires
        stack_ok(stack),
        frame_ok(frame),
        stack.len() > 0 ==> may_stand_on(stack.last(), frame),
        stack.len() == 0 ==> !(frame is Validate),
    ensures
        stack_ok(stack.push(frame)),
{
    let pushed = stack.push(frame);
    assert forall|i: int| 0 <= i < pushed.len() - 1 implies may_stand_on(
        #[trigger] pushed[i],
        pushed[i + 1],
    ) by {
        if i < stack.len() - 1 {
            assert(may_stand_on(stack[i], stack[i + 1]));
        }
    }
}

/// Taking the innermost frame off a stack in order leaves the stack in order.
pub proof fn lemma_pop_ok(stack: Seq<FrameSpec>)
    requires
        stack_ok(stack),
        stack.len() > 0,
    ensures
        stack_ok(stack.drop_last()),
        stack.len() > 1 ==> may_stand_on(stack.drop_last().last(), stack.last()),
{
    let popped = stack.drop_last();
    assert forall|i: int| 0 <= i < popped.len() - 1 implies may_stand_on(
        #[trigger] popped[i],
        popped[i + 1],
    ) by {
        assert(may_stand_on(stack[i], stack[i + 1]));
    }
    if stack.len() > 1 {
        assert(may_stand_on(stack[stack.len() - 2], stack[stack.len() - 2 + 1]));
    }
}

/// Putting another frame in the place of the innermost one leaves the stack in
/// order, where the new frame may stand there.
pub proof fn lemma_replace_ok(stack: Seq<FrameSpec>, frame: FrameSpec)
    requires
        stack_ok(stack),
        stack.len() > 0,
        frame_ok(frame),
        stack.len() > 1 ==> may_stand_on(stack[stack.len() - 2], frame),
        stack.len() == 1 ==> !(frame is Validate),
    ensures
        stack_ok(stack.drop_last().push(frame)),
{
    lemma_pop_ok(stack);
    lemma_push_ok(stack.drop_last(), frame);
}

/// Starting to run a key again keeps the shape.
pub proof fn lemma_recompute_shaped(s: MachineSpec, key: KeySpec)
    requires
        stack_ok(s.stack),
        open_for_query(s.stack),
    ensures
        shaped(s.recompute(key).0),
        s.recompute(key).1 == ActionSpec::Produce(key),
{
    lemma_push_ok(s.stack, FrameSpec::Producing(key));
}

/// Starting to validate a key keeps the shape, where a frame that waits for
/// the verdict is innermost.
pub proof fn lemma_validate_shaped(s: MachineSpec, key: KeySpec)
    requires
        stack_ok(s.stack),
        s.stack.len() > 0,
        s.stack.last() is Query || (s.stack.last() matches FrameSpec::Validate { mode, .. } && mode
            == Mode::Probing),
    ensures
        shaped(s.validate(key).0),
        s.validate(key).1 == ActionSpec::Continue,
{
    if s.can_validate(key) {
        lemma_push_ok(
            s.stack,
            FrameSpec::Validate { key, deps: s.graph[key], next: 0, mode: Mode::Scanning },
        );
    }
}

/// Taking up a query keeps the shape.
pub proof fn lemma_enter_shaped(s: MachineSpec, key: KeySpec)
    requires
        stack_ok(s.stack),
        open_for_query(s.stack),
    ensures
        shaped(s.enter(key).0),
{
    if crate::machine::must_recompute(s, key) {
        lemma_recompute_shaped(s, key);
    } else {
        lemma_push_ok(s.stack, FrameSpec::Query(key));
        lemma_validate_shaped(s.push(FrameSpec::Query(key)), key);
    }
}

/// A query from outside keeps the shape.
pub proof fn lemma_query_shaped(s: MachineSpec, key: KeySpec)
    requires
        shaped(s),
        s.accepting(),
    ensures
        shaped(s.query(key).0),
{
    lemma_enter_shaped(s.record(key), key);
}

/// Answering a query keeps the shape.
pub proof fn lemma_finish_shaped(s: MachineSpec, key: KeySpec, output: OutputSpec)
    requires
        stack_ok(s.stack),
        open_for_query(s.stack),
    ensures
        shaped(s.finish(key, output).0),
{
    if s.stack.len() > 0 && s.stack.last() is Validate {
        let frame = s.stack.last();
        lemma_pop_ok(s.stack);
        if s.colors.contains_key(key) && s.colors[key].0 == Color::Green {
            let moved = FrameSpec::Validate {
                key: frame->Validate_key,
                deps: frame->deps,
                next: frame->next + 1,
                mode: Mode::Scanning,
            };
            lemma_push_ok(s.stack.drop_last(), moved);
        }
    }
}

/// The report of a producer keeps the shape.
pub proof fn lemma_produced_shaped(s: MachineSpec, output: OutputSpec)
    requires
        shaped(s),
        s.accepting(),
        s.stack.len() > 0,
    ensures
        shaped(s.produced(output).0),
{
    lemma_pop_ok(s.stack);
    let key = s.stack.last()->Producing_0;
    let next = s.take(output);
    lemma_finish_shaped(next, key, output);
}

/// Forcing a query for a dependency keeps the shape.
pub proof fn lemma_force_shaped(s: MachineSpec, key: KeySpec, deps: Seq<KeySpec>, next: nat)
    requires
        stack_ok(s.stack),
        s.stack.len() > 1,
        s.stack.last() is Validate,
        next < deps.len(),
    ensures
        shaped(s.force(key, deps, next).0),
{
    let frame = FrameSpec::Validate { key, deps, next, mode: Mode::Forcing };
    lemma_pop_ok(s.stack);
    lemma_replace_ok(s.stack, frame);
    let forced = MachineSpec { stack: s.stack.drop_last().push(frame), ..s };
    lemma_enter_shaped(forced.record(deps[next as int]), deps[next as int]);
}

/// A validation never stands at the bottom of a stack in order.
pub proof fn lemma_validate_not_bottom(stack: Seq<FrameSpec>)
    requires
        stack_ok(stack),
        stack.len() > 0,
        stack.last() is Validate,
    ensures
        stack.len() > 1,
{
}

/// Handing a verdict on keeps the shape.
pub proof fn lemma_deliver_shaped(s: MachineSpec, color: Color)
    requires
        shaped(s),
        s.control == Control::Verdict(color),
    ensures
        shaped(s.deliver(color).0),
{
    lemma_pop_ok(s.stack);
    match s.stack.last() {
        FrameSpec::Query(key) => {
            if color == Color::Green {
                if s.cache.contains_key(key) {
                    lemma_finish_shaped(s.pop(), key, s.cache[key]);
                }
            } else {
                lemma_recompute_shaped(s.pop(), key);
            }
        },
        FrameSpec::Validate { key, deps, next, mode } => {
            lemma_validate_not_bottom(s.stack);
            if color == Color::Green {
                lemma_replace_ok(
                    s.stack,
                    FrameSpec::Validate { key, deps, next: next + 1, mode: Mode::Scanning },
                );
            } else {
                lemma_force_shaped(s, key, deps, next);
            }
        },
        FrameSpec::Producing(_) => {},
    }
}

/// The first open dependency lies between where the scan starts and the end,
/// and every dependency before it passes.
pub proof fn lemma_first_open(s: MachineSpec, deps: Seq<KeySpec>, next: nat)
    requires
        next <= deps.len(),
    ensures
        next <= s.first_open(deps, next) <= deps.len(),
        forall|i: int| next <= i < s.first_open(deps, next) ==> s.passes(#[trigger] deps[i]),
        s.first_open(deps, next) < deps.len() ==> !s.passes(deps[s.first_open(deps, next) as int]),
    decreases deps.len() - next,
{
    if next < deps.len() && s.passes(deps[next as int]) {
        lemma_first_open(s, deps, next + 1);
    }
}

/// Going on with a validation keeps the shape.
pub proof fn lemma_scan_shaped(s: MachineSpec)
    requires
        shaped(s),
        s.control == Control::Scan,
    ensures
        shaped(s.scan().0),
{
    let key = s.stack.last()->Validate_key;
    let deps = s.stack.last()->deps;
    let at = s.first_open(deps, s.stack.last()->next);
    lemma_first_open(s, deps, s.stack.last()->next);
    lemma_pop_ok(s.stack);
    lemma_validate_not_bottom(s.stack);
    if at >= deps.len() {
    } else if s.fails(deps[at as int]) {
    } else if deps[at as int].is_input() {
        lemma_force_shaped(s, key, deps, at);
    } else {
        let frame = FrameSpec::Validate { key, deps, next: at, mode: Mode::Probing };
        lemma_replace_ok(s.stack, frame);
        let probing = MachineSpec { stack: s.stack.drop_last().push(frame), ..s };
        lemma_validate_shaped(probing, deps[at as int]);
    }
}

/// The lower part of a stack in order is in order.
pub proof fn lemma_prefix_ok(stack: Seq<FrameSpec>, n: int)
    requires
        stack_ok(stack),
        0 <= n <= stack.len(),
    ensures
        stack_ok(stack.subrange(0, n)),
{
    let prefix = stack.subrange(0, n);
    assert forall|i: int| 0 <= i < prefix.len() implies frame_ok(#[trigger] prefix[i]) by {
        assert(frame_ok(stack[i]));
    }
    assert forall|i: int| 0 <= i < prefix.len() - 1 implies may_stand_on(
        #[trigger] prefix[i],
        prefix[i + 1],
    ) by {
        assert(may_stand_on(stack[i], stack[i + 1]));
    }
    if prefix.len() > 0 {
        assert(prefix[0] == stack[0]);
    }
}

/// What is left of a stack that is unwound is its lower part up to the
/// innermost producer; what goes is no producer's.
pub proof fn lemma_unwound(stack: Seq<FrameSpec>)
    ensures
        unwound(stack).len() <= stack.len(),
        unwound(stack) == stack.subrange(0, unwound(stack).len() as int),
        unwound(stack).len() == 0 || unwound(stack).last() is Producing,
        forall|i: int| unwound(stack).len() <= i < stack.len() ==> !((#[trigger] stack[i]) is Producing),
    decreases stack.len(),
{
    if stack.len() == 0 || stack.last() is Producing {
        assert(stack.subrange(0, stack.len() as int) =~= stack);
    } else {
        let lower = stack.drop_last();
        lemma_unwound(lower);
        let n = unwound(lower).len() as int;
        assert(lower.subrange(0, n) =~= stack.subrange(0, n));
        assert forall|i: int| n <= i < stack.len() implies !((#[trigger] stack[i]) is Producing) by {
            if i < lower.len() {
                assert(lower[i] == stack[i]);
            }
        }
    }
}

/// Refusing the producer that runs keeps the shape.
pub proof fn lemma_refuse_shaped(s: MachineSpec, reason: Seq<char>)
    requires
        shaped(s),
        s.accepting(),
        s.stack.len() > 0,
    ensures
        shaped(s.refuse(reason).0),
{
    lemma_pop_ok(s.stack);
    lemma_unwound(s.stack.drop_last());
    lemma_prefix_ok(s.stack.drop_last(), unwound(s.stack.drop_last()).len() as int);
}

} // verus!
