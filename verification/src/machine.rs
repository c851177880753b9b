//! The evaluator as a mathematical machine: its states, and what each step
//! does to a state.
//!
//! A query is answered in steps. Between two steps the machine either waits
//! for the outside (for a new query, or for the producer that it asked to
//! run), or has work of its own left (a validation to go on with). The stack
//! holds what is unfinished, the innermost last.

use vstd::prelude::*;
use crate::cache::output_digest;
use crate::color::Color;
use crate::graph::{with_edge, without_edges};
use crate::key::KeySpec;
use crate::output::OutputSpec;

verus! {

/// How far the validation of one query has come with its current dependency.
#[derive(Copy, Clone, PartialEq, Eq, Debug, Structural)]
pub enum Mode {
    /// The dependencies from `next` on are still to be looked at.
    Scanning,
    /// The dependency at `next` is being validated in its turn.
    Probing,
    /// The dependency at `next` is being queried, to settle its color.
    Forcing,
}

/// One unfinished piece of work.
pub enum FrameSpec {
    /// The producer of this key is running outside.
    Producing(KeySpec),
    /// A query for this key waits for the verdict of its validation.
    Query(KeySpec),
    /// The validation of `key`: its dependencies, and how many have passed.
    Validate { key: KeySpec, deps: Seq<KeySpec>, next: nat, mode: Mode },
}

/// What the machine does next when it is stepped.
#[derive(Copy, Clone, PartialEq, Eq, Debug, Structural)]
pub enum Control {
    /// Nothing: it waits for a query, or for the producer that it asked for.
    Idle,
    /// It goes on with the validation on top of the stack.
    Scan,
    /// It hands this verdict to the frame on top of the stack.
    Verdict(Color),
}

/// What a step tells the outside.
pub enum ActionSpec {
    /// Run the producer of this key, then report what it produced.
    Produce(KeySpec),
    /// The query that was asked last is answered with this output.
    Done(OutputSpec),
    /// Step again.
    Continue,
    /// A query was verified up to date, but the cache holds no output for it.
    /// The machine stays where it is: there is nothing to answer with.
    Missing(KeySpec),
    /// The query that was asked last ends without an answer: its producer, or
    /// one that it waited for, was refused, for this reason.
    Refused(Seq<char>),
}

/// A state of the machine.
pub struct MachineSpec {
    pub colors: Map<KeySpec, (Color, usize)>,
    pub cache: Map<KeySpec, OutputSpec>,
    pub graph: Map<KeySpec, Seq<KeySpec>>,
    pub revision: usize,
    pub stack: Seq<FrameSpec>,
    pub control: Control,
    /// The keys whose producer was refused and has not produced since.
    pub refusals: Set<KeySpec>,
}

/// What is left of a stack when the query that the innermost producer still
/// running asked for is given up: that producer's frame on top, or nothing.
pub open spec fn unwound(stack: Seq<FrameSpec>) -> Seq<FrameSpec>
    decreases stack.len(),
{
    if stack.len() == 0 || stack.last() is Producing {
        stack
    } else {
        unwound(stack.drop_last())
    }
}

/// The key of the innermost producer that is running, if any: the parent of
/// the queries that arrive now.
pub open spec fn parent_of(stack: Seq<FrameSpec>) -> Option<KeySpec>
    decreases stack.len(),
{
    if stack.len() == 0 {
        None
    } else {
        match stack.last() {
            FrameSpec::Producing(key) => Some(key),
            _ => parent_of(stack.drop_last()),
        }
    }
}

/// Whether `key` has to be run again without an attempt to validate it: it has
/// no verdict yet, or it observes the outside and its verdict is of an earlier
/// revision.
pub open spec fn must_recompute(s: MachineSpec, key: KeySpec) -> bool {
    !s.colors.contains_key(key) || (key.is_input() && s.colors[key].1 < s.revision)
}

impl MachineSpec {
    /// Whether the machine waits for the outside.
    pub open spec fn accepting(self) -> bool {
        self.control == Control::Idle
    }

    /// Whether the machine waits for the producer of `key`.
    pub open spec fn producing(self, key: KeySpec) -> bool {
        self.control == Control::Idle && self.stack.len() > 0 && self.stack.last()
            == FrameSpec::Producing(key)
    }

    /// The state with one frame more on the stack.
    pub open spec fn push(self, frame: FrameSpec) -> MachineSpec {
        MachineSpec { stack: self.stack.push(frame), ..self }
    }

    /// The state without the innermost frame.
    pub open spec fn pop(self) -> MachineSpec {
        MachineSpec { stack: self.stack.drop_last(), ..self }
    }

    /// The state in which the machine does `control` next.
    pub open spec fn with_control(self, control: Control) -> MachineSpec {
        MachineSpec { control, ..self }
    }

    /// The state in which `key` has the verdict `color` of this revision.
    pub open spec fn mark(self, key: KeySpec, color: Color) -> MachineSpec {
        MachineSpec { colors: self.colors.insert(key, (color, self.revision)), ..self }
    }

    /// Starts to run `key` again: its old edges go, and its producer is asked for.
    pub open spec fn recompute(self, key: KeySpec) -> (MachineSpec, ActionSpec) {
        (
            MachineSpec {
                graph: without_edges(self.graph, key),
                stack: self.stack.push(FrameSpec::Producing(key)),
                control: Control::Idle,
                ..self
            },
            ActionSpec::Produce(key),
        )
    }

    /// Whether the dependencies of `key` can tell whether it is up to date:
    /// the graph has seen it, and its producer was not refused since it last
    /// produced.
    pub open spec fn can_validate(self, key: KeySpec) -> bool {
        self.graph.contains_key(key) && !self.refusals.contains(key)
    }

    /// Starts to validate `key`: a key that the graph has never seen, or
    /// whose producer was refused, is stale at once; for any other, its
    /// dependencies are laid out to be scanned.
    pub open spec fn validate(self, key: KeySpec) -> (MachineSpec, ActionSpec) {
        if self.can_validate(key) {
            (
                MachineSpec {
                    stack: self.stack.push(
                        FrameSpec::Validate {
                            key,
                            deps: self.graph[key],
                            next: 0,
                            mode: Mode::Scanning,
                        },
                    ),
                    control: Control::Scan,
                    ..self
                },
                ActionSpec::Continue,
            )
        } else {
            (self.with_control(Control::Verdict(Color::Red)), ActionSpec::Continue)
        }
    }

    /// Takes up a query for `key`, after its edge from the parent is recorded:
    /// either runs it again at once, or tries to validate it first.
    pub open spec fn enter(self, key: KeySpec) -> (MachineSpec, ActionSpec) {
        if must_recompute(self, key) {
            self.recompute(key)
        } else {
            self.push(FrameSpec::Query(key)).validate(key)
        }
    }

    /// The state after the edge from the running producer, if there is one, to
    /// `key` has been recorded.
    pub open spec fn record(self, key: KeySpec) -> MachineSpec {
        match parent_of(self.stack) {
            Some(parent) => MachineSpec { graph: with_edge(self.graph, parent, key), ..self },
            None => self,
        }
    }

    /// A query for `key` arrives from outside: from the producer that runs, or
    /// from nobody.
    pub open spec fn query(self, key: KeySpec) -> (MachineSpec, ActionSpec) {
        self.record(key).enter(key)
    }

    /// A query has been answered with `output`. Where a validation forced that
    /// query, the validation looks at the color that the query left; otherwise
    /// the answer goes outside.
    pub open spec fn finish(self, key: KeySpec, output: OutputSpec) -> (MachineSpec, ActionSpec) {
        if self.stack.len() > 0 && self.stack.last() is Validate {
            let frame = self.stack.last();
            if self.colors.contains_key(key) && self.colors[key].0 == Color::Green {
                (
                    MachineSpec {
                        stack: self.stack.drop_last().push(
                            FrameSpec::Validate {
                                key: frame->Validate_key,
                                deps: frame->deps,
                                next: frame->next + 1,
                                mode: Mode::Scanning,
                            },
                        ),
                        control: Control::Scan,
                        ..self
                    },
                    ActionSpec::Continue,
                )
            } else {
                (self.pop().with_control(Control::Verdict(Color::Red)), ActionSpec::Continue)
            }
        } else {
            (self.with_control(Control::Idle), ActionSpec::Done(output))
        }
    }

    /// The producer of the innermost frame reports `output`: the cache takes
    /// it, the key turns red where the output changed and green where it did
    /// not, and the query is answered.
    pub open spec fn produced(self, output: OutputSpec) -> (MachineSpec, ActionSpec) {
        self.take(output).finish(self.stack.last()->Producing_0, output)
    }

    /// The state after the cache has taken `output` from the producer of the
    /// innermost frame: the key is red where the output changed and green
    /// where it did not, its producer runs no more, and an earlier refusal of
    /// it is forgotten.
    pub open spec fn take(self, output: OutputSpec) -> MachineSpec {
        let key = self.stack.last()->Producing_0;
        let changed = self.cache.contains_key(key) && output_digest(self.cache[key])
            != output_digest(output);
        MachineSpec {
            cache: self.cache.insert(key, output),
            colors: self.colors.insert(
                key,
                (if changed {
                    Color::Red
                } else {
                    Color::Green
                }, self.revision),
            ),
            stack: self.stack.drop_last(),
            refusals: self.refusals.remove(key),
            ..self
        }
    }

    /// Hands the verdict `color` to the innermost frame. A query that waited
    /// for it is answered from the cache on green and run again on red. A
    /// validation that waited for it moves on to its next dependency on green
    /// and forces a query for the dependency on red.
    pub open spec fn deliver(self, color: Color) -> (MachineSpec, ActionSpec) {
        match self.stack.last() {
            FrameSpec::Query(key) => {
                if color == Color::Green {
                    if self.cache.contains_key(key) {
                        self.pop().finish(key, self.cache[key])
                    } else {
                        (self, ActionSpec::Missing(key))
                    }
                } else {
                    self.pop().recompute(key)
                }
            },
            FrameSpec::Validate { key, deps, next, mode } => {
                if color == Color::Green {
                    (
                        MachineSpec {
                            stack: self.stack.drop_last().push(
                                FrameSpec::Validate { key, deps, next: next + 1, mode: Mode::Scanning },
                            ),
                            control: Control::Scan,
                            ..self
                        },
                        ActionSpec::Continue,
                    )
                } else {
                    self.force(key, deps, next)
                }
            },
            FrameSpec::Producing(_) => (self, ActionSpec::Continue),
        }
    }

    /// The validation on top of the stack forces a query for its dependency at
    /// `next`, on behalf of the running producer.
    pub open spec fn force(self, key: KeySpec, deps: Seq<KeySpec>, next: nat) -> (
        MachineSpec,
        ActionSpec,
    ) {
        MachineSpec {
            stack: self.stack.drop_last().push(
                FrameSpec::Validate { key, deps, next, mode: Mode::Forcing },
            ),
            ..self
        }.record(deps[next as int]).enter(deps[next as int])
    }

    /// Whether the dependency `dep` passes as it stands: green in this revision.
    pub open spec fn passes(self, dep: KeySpec) -> bool {
        self.colors.contains_key(dep) && self.colors[dep] == (Color::Green, self.revision)
    }

    /// Whether the dependency `dep` fails as it stands: red, of any revision.
    pub open spec fn fails(self, dep: KeySpec) -> bool {
        self.colors.contains_key(dep) && self.colors[dep].0 == Color::Red
    }

    /// The first dependency from `next` on that does not pass as it stands, or
    /// the number of dependencies where all pass.
    pub open spec fn first_open(self, deps: Seq<KeySpec>, next: nat) -> nat
        decreases deps.len() - next,
    {
        if next >= deps.len() {
            deps.len()
        } else if self.passes(deps[next as int]) {
            self.first_open(deps, next + 1)
        } else {
            next
        }
    }

    /// Goes on with the validation on top of the stack. Dependencies that are
    /// green in this revision pass. The first that is red ends the validation
    /// with the verdict red. The first that is neither is forced where it
    /// observes the outside, and validated in its turn where it does not. Where
    /// all pass, the key turns green in this revision.
    pub open spec fn scan(self) -> (MachineSpec, ActionSpec) {
        let key = self.stack.last()->Validate_key;
        let deps = self.stack.last()->deps;
        let at = self.first_open(deps, self.stack.last()->next);
        if at >= deps.len() {
            (self.pop().mark(key, Color::Green).with_control(Control::Verdict(Color::Green)), ActionSpec::Continue)
        } else if self.fails(deps[at as int]) {
            (self.pop().with_control(Control::Verdict(Color::Red)), ActionSpec::Continue)
        } else if deps[at as int].is_input() {
            self.force(key, deps, at)
        } else {
            MachineSpec {
                stack: self.stack.drop_last().push(
                    FrameSpec::Validate { key, deps, next: at, mode: Mode::Probing },
                ),
                ..self
            }.validate(deps[at as int])
        }
    }

    /// One step of the machine's own work.
    pub open spec fn resume(self) -> (MachineSpec, ActionSpec) {
        match self.control {
            Control::Idle => (self, ActionSpec::Continue),
            Control::Scan => self.scan(),
            Control::Verdict(color) => self.deliver(color),
        }
    }

    /// The producer of the innermost frame is refused: it ends without an
    /// output. Cache and colors stay as they are; the key is noted; and the
    /// query that led to the producer is given up, so that the machine waits
    /// for the producer that asked for it, or for nobody.
    pub open spec fn refuse(self, reason: Seq<char>) -> (MachineSpec, ActionSpec) {
        (
            MachineSpec {
                stack: unwound(self.stack.drop_last()),
                control: Control::Idle,
                refusals: self.refusals.insert(self.stack.last()->Producing_0),
                ..self
            },
            ActionSpec::Refused(reason),
        )
    }

    /// Up to `limit` steps of the machine's own work: it stops as soon as a
    /// step tells the outside anything but to step again, or leaves the
    /// machine waiting for the outside.
    pub open spec fn run(self, limit: nat) -> (MachineSpec, ActionSpec)
        decreases limit,
    {
        if limit == 0 || self.control == Control::Idle {
            (self, ActionSpec::Continue)
        } else {
            let (next, action) = self.resume();
            if action is Continue {
                next.run((limit - 1) as nat)
            } else {
                (next, action)
            }
        }
    }
}

} // verus!
