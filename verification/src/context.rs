//! The evaluator: answers queries from the cache where validation shows them
//! up to date, and asks for their producers where it does not.
//!
//! Producers run outside. The evaluator therefore works in steps: each call
//! takes an event (a query, a producer's report, or leave to go on), changes
//! the state as the machine of `machine` says, and returns what is to happen
//! next.

use vstd::prelude::*;
use crate::color::Color;
use crate::db::Database;
use crate::graph::DepGraph;
use crate::key::{KeySpec, QueryKey};
use crate::machine::{ActionSpec, Control, FrameSpec, MachineSpec, Mode};
use crate::object::Object;
use crate::output::{output_fits, AnyOutput};
use crate::shape::{
    lemma_deliver_shaped, lemma_finish_shaped, lemma_first_open, lemma_force_shaped, lemma_pop_ok,
    lemma_produced_shaped, lemma_push_ok,
    lemma_recompute_shaped, lemma_replace_ok, lemma_scan_shaped, lemma_validate_not_bottom,
    lemma_validate_shaped, open_for_query, shaped, stack_ok,
};

verus! {

/// The views of keys, each in its place.
pub open spec fn keys_view(keys: Seq<QueryKey>) -> Seq<KeySpec> {
    Seq::new(keys.len(), |i: int| keys[i]@)
}

/// One unfinished piece of work.
pub enum Frame {
    /// The producer of this key is running outside.
    Producing(QueryKey),
    /// A query for this key waits for the verdict of its validation.
    Query(QueryKey),
    /// The validation of `key`: its dependencies, and how many have passed.
    Validate { key: QueryKey, deps: Vec<QueryKey>, next: usize, mode: Mode },
}

impl View for Frame {
    type V = FrameSpec;

    open spec fn view(&self) -> FrameSpec {
        match self {
            Frame::Producing(key) => FrameSpec::Producing(key@),
            Frame::Query(key) => FrameSpec::Query(key@),
            Frame::Validate { key, deps, next, mode } => FrameSpec::Validate {
                key: key@,
                deps: keys_view(deps@),
                next: *next as nat,
                mode: *mode,
            },
        }
    }
}

/// The views of frames, each in its place.
pub open spec fn frames_view(frames: Seq<Frame>) -> Seq<FrameSpec> {
    Seq::new(frames.len(), |i: int| frames[i]@)
}

/// What a step tells the caller to do next.
pub enum Action {
    /// Run the producer of this key, then call `produced` with its output.
    Produce(QueryKey),
    /// The query that was asked last is answered with this output.
    Done(AnyOutput),
    /// Call `resume`.
    Continue,
    /// A query was verified up to date, but the cache holds no output for it.
    Missing(QueryKey),
    /// The query that was asked last ends without an answer: its producer, or
    /// one that it waited for, was refused, with this error.
    Refused(crate::error::Error),
}

impl View for Action {
    type V = ActionSpec;

    open spec fn view(&self) -> ActionSpec {
        match self {
            Action::Produce(key) => ActionSpec::Produce(key@),
            Action::Done(output) => ActionSpec::Done(output@),
            Action::Continue => ActionSpec::Continue,
            Action::Missing(key) => ActionSpec::Missing(key@),
            Action::Refused(error) => ActionSpec::Refused(error@),
        }
    }
}

/// The evaluator and all that it keeps between queries.
pub struct QueryContext {
    db: Database,
    dep_graph: DepGraph,
    stack: Vec<Frame>,
    control: Control,
    /// For each key, whether its producer was refused and has not produced since.
    refusals: crate::table::Table<bool>,
}

/// The keys that a table of flags marks.
pub open spec fn marked(flags: Map<KeySpec, bool>) -> Set<KeySpec> {
    Set::new(|key: KeySpec| flags.contains_key(key) && flags[key])
}

impl View for QueryContext {
    type V = MachineSpec;

    closed spec fn view(&self) -> MachineSpec {
        MachineSpec {
            colors: self.db.colors@,
            cache: self.db.cache@,
            graph: self.dep_graph@,
            revision: self.db.revision,
            stack: frames_view(self.stack@),
            control: self.control,
            refusals: marked(self.refusals.map()),
        }
    }
}

impl QueryContext {
    /// The parts are in order and the state has the invariant of `laws`.
    pub closed spec fn wf(&self) -> bool {
        &&& self.db.wf()
        &&& self.dep_graph.wf()
        &&& self.refusals.wf()
        &&& crate::laws::sound(self@)
    }

    /// The parts are in order and the stack has its shape.
    closed spec fn fit(&self) -> bool {
        &&& self.db.wf()
        &&& self.dep_graph.wf()
        &&& self.refusals.wf()
        &&& shaped(self@)
    }

    /// What the object store holds.
    pub closed spec fn objects(&self) -> Map<Seq<u8>, Seq<u8>> {
        self.db.objects@
    }

    /// The parts are in order; the stack is in order too, but the machine may
    /// be in the middle of a step.
    closed spec fn parts_wf(&self) -> bool {
        &&& self.db.wf()
        &&& self.dep_graph.wf()
        &&& self.refusals.wf()
        &&& stack_ok(self@.stack)
    }

    /// An evaluator that has seen nothing, at revision 0.
    pub fn new() -> (ctx: Self)
        ensures
            ctx.wf(),
            ctx@.colors == Map::<KeySpec, (Color, usize)>::empty(),
            ctx@.cache == Map::<KeySpec, crate::output::OutputSpec>::empty(),
            ctx@.graph == Map::<KeySpec, Seq<KeySpec>>::empty(),
            ctx@.revision == 0,
            ctx@.stack == Seq::<FrameSpec>::empty(),
            ctx@.control == Control::Idle,
            ctx@.refusals == Set::<KeySpec>::empty(),
            ctx.objects() == Map::<Seq<u8>, Seq<u8>>::empty(),
    {
        let ctx = QueryContext {
            db: Database::new(),
            dep_graph: DepGraph::new(),
            stack: Vec::new(),
            control: Control::Idle,
            refusals: crate::table::Table::new(),
        };
        assert(ctx@.stack =~= Seq::<FrameSpec>::empty());
        assert(ctx@.refusals =~= Set::<KeySpec>::empty());
        proof {
            crate::laws::lemma_empty_sound(ctx@);
        }
        ctx
    }

    /// Whether no query is under way.
    pub fn is_idle(&self) -> (idle: bool)
        ensures
            idle == (self@.control == Control::Idle && self@.stack.len() == 0),
    {
        matches!(self.control, Control::Idle) && self.stack.len() == 0
    }

    /// Whether the evaluator waits for the outside: for a query, or for the
    /// report of the producer that it asked for.
    pub fn is_accepting(&self) -> (accepting: bool)
        ensures
            accepting == self@.accepting(),
    {
        matches!(self.control, Control::Idle)
    }

    /// Whether the evaluator waits for the report of a producer.
    pub fn is_producing(&self) -> (producing: bool)
        ensures
            producing == (self@.accepting() && self@.stack.len() > 0),
    {
        matches!(self.control, Control::Idle) && self.stack.len() > 0
    }

    /// The current revision.
    pub fn revision(&self) -> (revision: usize)
        ensures
            revision == self@.revision,
    {
        self.db.revision
    }

    /// Begins a new revision: every observation of the outside is stale from
    /// now on. Nothing else changes.
    pub fn new_revision(&mut self)
        requires
            old(self).wf(),
            old(self)@.revision < usize::MAX,
        ensures
            final(self).wf(),
            final(self)@ == (MachineSpec { revision: (old(self)@.revision + 1) as usize, ..old(self)@ }),
            final(self).objects() == old(self).objects(),
    {
        proof {
            crate::laws::lemma_revision_sound(self@, (self@.revision + 1) as usize);
        }
        self.db.revision = self.db.revision + 1;
    }

    /// Stores `contents` and returns the object that names them. The
    /// evaluator's own state stays as it is.
    pub fn store(&mut self, contents: Vec<u8>) -> (object: Object)
        requires
            old(self).wf(),
        ensures
            final(self).wf(),
            final(self)@ == old(self)@,
            object@ == crate::to_hash::sha256(contents@),
            final(self).objects() == (if old(self).objects().contains_key(object@) {
                old(self).objects()
            } else {
                old(self).objects().insert(object@, contents@)
            }),
    {
        self.db.objects.store(contents)
    }

    /// The bytes stored under `object`, if there are any.
    pub fn contents(&self, object: &Object) -> (contents: Option<&Vec<u8>>)
        requires
            self.wf(),
        ensures
            contents.is_some() == self.objects().contains_key(object@),
            contents matches Some(bytes) ==> bytes@ == self.objects()[object@],
    {
        self.db.objects.get(object)
    }

    /// Every blob that the evaluator's store holds sits under its own SHA-256.
    pub proof fn lemma_content_addressed(&self, object: Seq<u8>)
        requires
            self.wf(),
            self.objects().contains_key(object),
        ensures
            crate::to_hash::sha256(self.objects()[object]) == object,
    {
        self.db.objects.lemma_content_addressed(object);
    }

    /// The verdict on `key` and the revision it was given in, if `key` has one.
    pub fn color(&self, key: &QueryKey) -> (verdict: Option<(Color, usize)>)
        requires
            self.wf(),
        ensures
            verdict == (if self@.colors.contains_key(key@) {
                Some(self@.colors[key@])
            } else {
                None
            }),
    {
        self.db.colors.get(key)
    }

    /// A copy of the output that the cache holds for `key`, if it holds one.
    pub fn cached(&self, key: &QueryKey) -> (output: Option<AnyOutput>)
        requires
            self.wf(),
        ensures
            output.is_some() == self@.cache.contains_key(key@),
            output matches Some(value) ==> value@ == self@.cache[key@],
    {
        self.db.cache.get(key)
    }

    /// The queries that `key` depends on, the one recorded last first; `None`
    /// where the graph has never seen `key`.
    pub fn dependencies(&self, key: &QueryKey) -> (deps: Option<Vec<QueryKey>>)
        requires
            self.wf(),
        ensures
            deps.is_some() == self@.graph.contains_key(key@),
            deps matches Some(list) ==> keys_view(list@) == self@.graph[key@],
    {
        match self.dep_graph.dependencies(key) {
            Some(list) => {
                assert(keys_view(list@) =~= self@.graph[key@]);
                Some(list)
            },
            None => None,
        }
    }

    /// Every key with a color has an output in the cache, unless its
    /// producer is running at this moment or was refused once; while no query
    /// is under way every key with a color, green or red, whose producer was
    /// never refused has one.
    pub proof fn lemma_colored_is_cached(&self, key: KeySpec)
        requires
            self.wf(),
            self@.colors.contains_key(key),
        ensures
            self@.cache.contains_key(key) || crate::laws::in_flight(self@.stack, key)
                || self@.refusals.contains(key),
            self@.stack.len() == 0 && !self@.refusals.contains(key) ==> self@.cache.contains_key(key),
    {
        crate::laws::lemma_colored_is_cached(self@, key);
    }

    /// The state of a well-formed evaluator has the invariant.
    pub proof fn lemma_sound(&self)
        requires
            self.wf(),
        ensures
            crate::laws::sound(self@),
    {
    }

    /// The key whose producer is running innermost, if one is running.
    fn parent(&self) -> (parent: Option<QueryKey>)
        ensures
            match parent {
                Some(key) => crate::machine::parent_of(self@.stack) == Some(key@),
                None => crate::machine::parent_of(self@.stack) == None::<KeySpec>,
            },
    {
        let mut i: usize = self.stack.len();
        assert(self@.stack.subrange(0, i as int) =~= self@.stack);
        while i > 0
            invariant
                i <= self.stack@.len(),
                crate::machine::parent_of(self@.stack) == crate::machine::parent_of(
                    self@.stack.subrange(0, i as int),
                ),
            decreases i,
        {
            let ghost prefix = self@.stack.subrange(0, i as int);
            assert(prefix.last() == self.stack@[i - 1]@);
            assert(prefix.drop_last() =~= self@.stack.subrange(0, i - 1));
            match &self.stack[i - 1] {
                Frame::Producing(key) => {
                    return Some(key.clone());
                },
                _ => {},
            }
            i -= 1;
        }
        assert(self@.stack.subrange(0, 0).len() == 0);
        None
    }

    /// Records the edge from the running producer, if there is one, to `key`.
    fn record(&mut self, key: &QueryKey)
        requires
            old(self).parts_wf(),
        ensures
            final(self).parts_wf(),
            final(self)@ == old(self)@.record(key@),
            final(self).objects() == old(self).objects(),
    {
        assert(self@.stack.subrange(0, self@.stack.len() as int) =~= self@.stack);
        match self.parent() {
            Some(parent) => {
                self.dep_graph.add_dependency(parent, key.clone());
            },
            None => {},
        }
    }

    /// Starts to run `key` again.
    fn recompute(&mut self, key: QueryKey) -> (action: Action)
        requires
            old(self).parts_wf(),
            open_for_query(old(self)@.stack),
        ensures
            final(self).fit(),
            (final(self)@, action@) == old(self)@.recompute(key@),
            final(self).objects() == old(self).objects(),
    {
        proof {
            lemma_recompute_shaped(self@, key@);
        }
        self.dep_graph.remove_all_dependencies(key.clone());
        self.stack.push(Frame::Producing(key.clone()));
        self.control = Control::Idle;
        assert(self@.stack =~= old(self)@.stack.push(FrameSpec::Producing(key@)));
        Action::Produce(key)
    }

    /// Starts to validate `key`.
    fn validate(&mut self, key: &QueryKey) -> (action: Action)
        requires
            old(self).parts_wf(),
            old(self)@.stack.len() > 0,
            old(self)@.stack.last() is Query || (old(self)@.stack.last() matches FrameSpec::Validate {
                mode,
                ..
            } && mode == Mode::Probing),
        ensures
            final(self).fit(),
            (final(self)@, action@) == old(self)@.validate(key@),
            final(self).objects() == old(self).objects(),
    {
        proof {
            lemma_validate_shaped(self@, key@);
        }
        let refused = match self.refusals.get(key) {
            Some(flag) => *flag,
            None => false,
        };
        let known = if refused {
            None
        } else {
            self.dep_graph.dependencies(key)
        };
        match known {
            Some(deps) => {
                assert(keys_view(deps@) =~= self@.graph[key@]);
                self.stack.push(Frame::Validate { key: key.clone(), deps, next: 0, mode: Mode::Scanning });
                self.control = Control::Scan;
                assert(self@.stack =~= old(self)@.stack.push(
                    FrameSpec::Validate {
                        key: key@,
                        deps: old(self)@.graph[key@],
                        next: 0,
                        mode: Mode::Scanning,
                    },
                ));
            },
            None => {
                self.control = Control::Verdict(Color::Red);
            },
        }
        Action::Continue
    }

    /// Takes up a query for `key`, whose edge from the parent is recorded.
    fn enter(&mut self, key: QueryKey) -> (action: Action)
        requires
            old(self).parts_wf(),
            open_for_query(old(self)@.stack),
        ensures
            final(self).fit(),
            (final(self)@, action@) == old(self)@.enter(key@),
            final(self).objects() == old(self).objects(),
    {
        let stale = match self.db.colors.get(&key) {
            None => true,
            Some((_, revision)) => key.is_input() && revision < self.db.revision,
        };
        if stale {
            self.recompute(key)
        } else {
            proof {
                lemma_push_ok(self@.stack, FrameSpec::Query(key@));
            }
            self.stack.push(Frame::Query(key.clone()));
            assert(self@.stack =~= old(self)@.stack.push(FrameSpec::Query(key@)));
            self.validate(&key)
        }
    }

    /// Takes a query for `key` from outside: from the running producer, which
    /// then depends on `key`, or from nobody. The state changes and the action
    /// comes out as the machine's `query` says.
    pub fn query(&mut self, key: QueryKey) -> (action: Action)
        requires
            old(self).wf(),
            old(self)@.accepting(),
        ensures
            final(self).wf(),
            (final(self)@, action@) == old(self)@.query(key@),
            final(self).objects() == old(self).objects(),
    {
        proof {
            crate::laws::lemma_query_sound(self@, key@);
        }
        self.record(&key);
        self.enter(key)
    }

    /// Puts the validation that is innermost back with one dependency more
    /// passed, to be scanned on.
    fn advance(&mut self)
        requires
            old(self).parts_wf(),
            old(self)@.stack.len() > 1,
            old(self)@.stack.last() matches FrameSpec::Validate { mode, .. } && mode != Mode::Scanning,
        ensures
            final(self).fit(),
            final(self)@ == (MachineSpec {
                stack: old(self)@.stack.drop_last().push(
                    FrameSpec::Validate {
                        key: old(self)@.stack.last()->Validate_key,
                        deps: old(self)@.stack.last()->deps,
                        next: old(self)@.stack.last()->next + 1,
                        mode: Mode::Scanning,
                    },
                ),
                control: Control::Scan,
                ..old(self)@
            }),
            final(self).objects() == old(self).objects(),
    {
        let ghost top = old(self)@.stack.last();
        proof {
            assert(self.stack@[self.stack@.len() - 1]@ == top);
            assert(crate::shape::frame_ok(self@.stack[self@.stack.len() - 1]));
            assert(crate::shape::frame_ok(top));
            lemma_pop_ok(self@.stack);
            lemma_replace_ok(
                self@.stack,
                FrameSpec::Validate {
                    key: top->Validate_key,
                    deps: top->deps,
                    next: top->next + 1,
                    mode: Mode::Scanning,
                },
            );
        }
        let frame = self.stack.pop();
        match frame {
            Some(Frame::Validate { key, deps, next, mode }) => {
                proof {
                    assert(frame->Some_0@ == top);
                    assert(crate::shape::frame_ok(top));
                    assert(keys_view(deps@).len() == deps@.len());
                    assert(top->mode == mode);
                    assert(mode != Mode::Scanning);
                    assert(top->next == next as nat);
                    assert(next < deps@.len());
                    assert(deps@.len() == deps.len());
                }
                self.stack.push(Frame::Validate { key, deps, next: next + 1, mode: Mode::Scanning });
            },
            _ => {
                assert(frame matches Some(popped) && popped@ == top);
                vstd::pervasive::unreached()
            },
        }
        self.control = Control::Scan;
        assert(self@.stack =~= old(self)@.stack.drop_last().push(
            FrameSpec::Validate {
                key: top->Validate_key,
                deps: top->deps,
                next: top->next + 1,
                mode: Mode::Scanning,
            },
        ));
    }

    /// Takes the innermost frame off the stack.
    fn drop_frame(&mut self)
        requires
            old(self).parts_wf(),
            old(self)@.stack.len() > 0,
        ensures
            final(self).parts_wf(),
            final(self)@ == old(self)@.pop(),
            final(self).objects() == old(self).objects(),
    {
        proof {
            lemma_pop_ok(self@.stack);
        }
        self.stack.pop();
        assert(self@.stack =~= old(self)@.stack.drop_last());
    }

    /// Whether the innermost frame is a validation.
    fn top_is_validation(&self) -> (validation: bool)
        ensures
            validation == (self@.stack.len() > 0 && self@.stack.last() is Validate),
    {
        if self.stack.len() == 0 {
            false
        } else {
            assert(self.stack@[self.stack@.len() - 1]@ == self@.stack.last());
            matches!(self.stack[self.stack.len() - 1], Frame::Validate { .. })
        }
    }

    /// Answers a query for `key` with `output`.
    fn finish(&mut self, key: &QueryKey, output: AnyOutput) -> (action: Action)
        requires
            old(self).parts_wf(),
            open_for_query(old(self)@.stack),
        ensures
            final(self).fit(),
            (final(self)@, action@) == old(self)@.finish(key@, output@),
            final(self).objects() == old(self).objects(),
    {
        proof {
            lemma_finish_shaped(self@, key@, output@);
        }
        if self.top_is_validation() {
            proof {
                lemma_validate_not_bottom(self@.stack);
            }
            let green = match self.db.colors.get(key) {
                Some((Color::Green, _)) => true,
                _ => false,
            };
            if green {
                self.advance();
            } else {
                self.drop_frame();
                self.control = Control::Verdict(Color::Red);
            }
            Action::Continue
        } else {
            self.control = Control::Idle;
            Action::Done(output)
        }
    }

    /// Takes the report of the producer that was asked for last: the cache
    /// takes `output`, the key turns red where the output changed and green
    /// where it did not, and the query is answered.
    pub fn produced(&mut self, output: AnyOutput) -> (action: Action)
        requires
            old(self).wf(),
            old(self)@.accepting(),
            old(self)@.stack.len() > 0,
            output_fits(old(self)@.stack.last()->Producing_0, output@),
        ensures
            final(self).wf(),
            (final(self)@, action@) == old(self)@.produced(output@),
            final(self).objects() == old(self).objects(),
    {
        proof {
            crate::laws::lemma_produced_sound(self@, output@);
            lemma_produced_shaped(self@, output@);
            lemma_pop_ok(self@.stack);
        }
        let frame = self.stack.pop();
        assert(self@.stack =~= old(self)@.stack.drop_last());
        match frame {
            Some(Frame::Producing(key)) => {
                let changed = self.db.cache.insert(key.clone(), output.clone());
                if changed {
                    self.db.colors.mark_red(&key, self.db.revision);
                } else {
                    self.db.colors.mark_green(&key, self.db.revision);
                }
                self.refusals.insert(key.clone(), false);
                assert(self@.refusals =~= old(self)@.refusals.remove(key@));
                assert(self@ == old(self)@.take(output@));
                self.finish(&key, output)
            },
            _ => {
                assert(frame matches Some(popped) && popped@ == old(self)@.stack.last());
                vstd::pervasive::unreached()
            },
        }
    }

    /// Ends the producer that was asked for last without an output: what it
    /// was refused for is no output to keep. Cache, colors and graph stay as
    /// they are, the query that led to the producer is given up, and the
    /// evaluator waits for the producer that asked for it, or for nobody. The
    /// action hands `reason` on to that caller.
    pub fn refuse(&mut self, reason: crate::error::Error) -> (action: Action)
        requires
            old(self).wf(),
            old(self)@.accepting(),
            old(self)@.stack.len() > 0,
        ensures
            final(self).wf(),
            (final(self)@, action@) == old(self)@.refuse(reason@),
            final(self).objects() == old(self).objects(),
    {
        proof {
            crate::laws::lemma_refuse_sound(self@, reason@);
        }
        let frame = self.stack.pop();
        assert(self@.stack =~= old(self)@.stack.drop_last());
        match frame {
            Some(Frame::Producing(key)) => {
                self.refusals.insert(key, true);
                assert(self@.refusals =~= old(self)@.refusals.insert(
                    old(self)@.stack.last()->Producing_0,
                ));
            },
            _ => {
                assert(frame matches Some(popped) && popped@ == old(self)@.stack.last());
                vstd::pervasive::unreached()
            },
        }
        let ghost lower = self@.stack;
        while self.stack.len() > 0 && !matches!(self.stack[self.stack.len() - 1], Frame::Producing(_))
            invariant
                self.db == old(self).db,
                self.dep_graph == old(self).dep_graph,
                self.control == old(self).control,
                self.refusals.wf(),
                self@.refusals == old(self)@.refusals.insert(old(self)@.stack.last()->Producing_0),
                crate::machine::unwound(self@.stack) == crate::machine::unwound(lower),
            decreases self.stack@.len(),
        {
            let ghost before = self@.stack;
            assert(self.stack@[self.stack@.len() - 1]@ == before.last());
            self.stack.pop();
            assert(self@.stack =~= before.drop_last());
        }
        proof {
            if self.stack@.len() > 0 {
                assert(self.stack@[self.stack@.len() - 1]@ == self@.stack.last());
            }
            assert(crate::machine::unwound(self@.stack) == self@.stack);
        }
        self.control = Control::Idle;
        Action::Refused(reason)
    }

    /// Takes how the producer that was asked for last ended: an output is
    /// reported as by `produced`, a refusal as by `refuse`.
    pub fn concluded(&mut self, outcome: crate::output::Outcome) -> (action: Action)
        requires
            old(self).wf(),
            old(self)@.accepting(),
            old(self)@.stack.len() > 0,
            outcome matches crate::output::Outcome::Output(output) ==> output_fits(
                old(self)@.stack.last()->Producing_0,
                output@,
            ),
        ensures
            final(self).wf(),
            final(self).objects() == old(self).objects(),
            match outcome {
                crate::output::Outcome::Output(output) => (final(self)@, action@) == old(self)@.produced(output@),
                crate::output::Outcome::Refused(reason) => (final(self)@, action@) == old(self)@.refuse(reason@),
            },
    {
        match outcome {
            crate::output::Outcome::Output(output) => self.produced(output),
            crate::output::Outcome::Refused(reason) => self.refuse(reason),
        }
    }

    /// The validation on top of the stack forces a query for its dependency.
    fn force(&mut self, key: QueryKey, deps: Vec<QueryKey>, next: usize) -> (action: Action)
        requires
            old(self).parts_wf(),
            old(self)@.stack.len() > 1,
            old(self)@.stack.last() is Validate,
            next < deps@.len(),
        ensures
            final(self).fit(),
            (final(self)@, action@) == old(self)@.force(key@, keys_view(deps@), next as nat),
            final(self).objects() == old(self).objects(),
    {
        proof {
            lemma_force_shaped(self@, key@, keys_view(deps@), next as nat);
            lemma_replace_ok(
                self@.stack,
                FrameSpec::Validate { key: key@, deps: keys_view(deps@), next: next as nat, mode: Mode::Forcing },
            );
            lemma_pop_ok(self@.stack);
        }
        let dep = deps[next].clone();
        self.stack.pop();
        self.stack.push(Frame::Validate { key, deps, next, mode: Mode::Forcing });
        assert(self@.stack =~= old(self)@.stack.drop_last().push(
            FrameSpec::Validate { key: key@, deps: keys_view(deps@), next: next as nat, mode: Mode::Forcing },
        ));
        self.record(&dep);
        self.enter(dep)
    }

    /// Hands the verdict `color` to the innermost frame.
    fn deliver(&mut self, color: Color) -> (action: Action)
        requires
            old(self).fit(),
            old(self)@.control == Control::Verdict(color),
        ensures
            final(self).fit(),
            (final(self)@, action@) == old(self)@.deliver(color),
            final(self).objects() == old(self).objects(),
    {
        proof {
            lemma_deliver_shaped(self@, color);
            lemma_pop_ok(self@.stack);
        }
        let green = matches!(color, Color::Green);
        let top = self.stack.len() - 1;
        match &self.stack[top] {
            Frame::Query(key) => {
                let key = key.clone();
                if green {
                    match self.db.cache.get(&key) {
                        Some(output) => {
                            self.stack.pop();
                            assert(self@.stack =~= old(self)@.stack.drop_last());
                            self.finish(&key, output)
                        },
                        None => Action::Missing(key),
                    }
                } else {
                    self.stack.pop();
                    assert(self@.stack =~= old(self)@.stack.drop_last());
                    self.recompute(key)
                }
            },
            Frame::Validate { .. } => {
                proof {
                    lemma_validate_not_bottom(self@.stack);
                }
                if green {
                    self.advance();
                    Action::Continue
                } else {
                    let (key, deps, next) = self.top_validation();
                    self.force(key, deps, next)
                }
            },
            Frame::Producing(_) => Action::Continue,
        }
    }

    /// A copy of what the validation on top of the stack holds.
    fn top_validation(&self) -> (parts: (QueryKey, Vec<QueryKey>, usize))
        requires
            self@.stack.len() > 0,
            self@.stack.last() is Validate,
        ensures
            parts.0@ == self@.stack.last()->Validate_key,
            keys_view(parts.1@) == self@.stack.last()->deps,
            parts.2 == self@.stack.last()->next,
    {
        match &self.stack[self.stack.len() - 1] {
            Frame::Validate { key, deps, next, .. } => {
                let mut copy: Vec<QueryKey> = Vec::new();
                let mut i: usize = 0;
                while i < deps.len()
                    invariant
                        i <= deps.len(),
                        copy@.len() == i,
                        forall|j: int| 0 <= j < i ==> copy@[j]@ == deps@[j]@,
                    decreases deps.len() - i,
                {
                    copy.push(deps[i].clone());
                    i += 1;
                }
                assert(keys_view(copy@) =~= keys_view(deps@));
                (key.clone(), copy, *next)
            },
            _ => {
                assert(self.stack@[self.stack@.len() - 1]@ == self@.stack.last());
                vstd::pervasive::unreached()
            },
        }
    }

    /// Goes on with the validation on top of the stack: tries to show its key
    /// up to date by showing that of each of its dependencies.
    fn try_mark_green(&mut self) -> (action: Action)
        requires
            old(self).fit(),
            old(self)@.control == Control::Scan,
        ensures
            final(self).fit(),
            (final(self)@, action@) == old(self)@.scan(),
            final(self).objects() == old(self).objects(),
    {
        proof {
            lemma_scan_shaped(self@);
            lemma_pop_ok(self@.stack);
            lemma_validate_not_bottom(self@.stack);
        }
        let (key, deps, next) = self.top_validation();
        let ghost spec_deps = keys_view(deps@);
        proof {
            lemma_first_open(self@, spec_deps, next as nat);
        }
        let mut at: usize = next;
        let mut failed = false;
        while at < deps.len()
            invariant_except_break
                !failed,
            invariant
                self.db.wf(),
                next <= at <= deps@.len(),
                spec_deps == keys_view(deps@),
                self@.first_open(spec_deps, at as nat) == self@.first_open(spec_deps, next as nat),
            ensures
                next <= at <= deps@.len(),
                at == self@.first_open(spec_deps, next as nat),
                failed == (at < deps@.len() && self@.fails(spec_deps[at as int])),
            decreases deps@.len() - at,
        {
            match self.db.colors.get(&deps[at]) {
                Some((Color::Green, revision)) => {
                    if revision == self.db.revision {
                        at += 1;
                    } else {
                        break;
                    }
                },
                Some((Color::Red, _)) => {
                    failed = true;
                    break;
                },
                None => {
                    break;
                },
            }
        }
        if at >= deps.len() {
            self.stack.pop();
            assert(self@.stack =~= old(self)@.stack.drop_last());
            self.db.colors.mark_green(&key, self.db.revision);
            self.control = Control::Verdict(Color::Green);
            Action::Continue
        } else if failed {
            self.stack.pop();
            assert(self@.stack =~= old(self)@.stack.drop_last());
            self.control = Control::Verdict(Color::Red);
            Action::Continue
        } else if deps[at].is_input() {
            self.force(key, deps, at)
        } else {
            proof {
                lemma_replace_ok(
                    self@.stack,
                    FrameSpec::Validate { key: key@, deps: spec_deps, next: at as nat, mode: Mode::Probing },
                );
            }
            let dep = deps[at].clone();
            self.stack.pop();
            self.stack.push(Frame::Validate { key, deps, next: at, mode: Mode::Probing });
            assert(self@.stack =~= old(self)@.stack.drop_last().push(
                FrameSpec::Validate { key: key@, deps: spec_deps, next: at as nat, mode: Mode::Probing },
            ));
            self.validate(&dep)
        }
    }

    /// Does one step of the evaluator's own work, after a step that returned
    /// `Continue`. Where it waits for the outside, nothing happens.
    pub fn resume(&mut self) -> (action: Action)
        requires
            old(self).wf(),
        ensures
            final(self).wf(),
            (final(self)@, action@) == old(self)@.resume(),
            final(self).objects() == old(self).objects(),
    {
        proof {
            crate::laws::lemma_step_sound(self@, crate::laws::EventSpec::Resume);
        }
        match self.control {
            Control::Idle => Action::Continue,
            Control::Scan => self.try_mark_green(),
            Control::Verdict(color) => self.deliver(color),
        }
    }

    /// Does steps of the evaluator's own work, `limit` at most, until one tells
    /// the caller something else than to step again, or until the evaluator
    /// waits for the outside. `Continue` comes back where the steps ran out or
    /// the evaluator waits.
    pub fn run(&mut self, limit: usize) -> (action: Action)
        requires
            old(self).wf(),
        ensures
            final(self).wf(),
            (final(self)@, action@) == old(self)@.run(limit as nat),
            final(self).objects() == old(self).objects(),
    {
        let mut left: usize = limit;
        while left > 0 && !self.is_accepting()
            invariant
                self.wf(),
                self.objects() == old(self).objects(),
                self@.run(left as nat) == old(self)@.run(limit as nat),
            decreases left,
        {
            let action = self.resume();
            match action {
                Action::Continue => {},
                _ => {
                    return action;
                },
            }
            left -= 1;
        }
        Action::Continue
    }

    /// The keys that have an output, in the order in which they first got one.
    pub closed spec fn cache_keys(&self) -> Seq<KeySpec> {
        self.db.cache.keys()
    }

    /// The nodes of the graph, in the order in which the graph first saw them.
    pub closed spec fn graph_nodes(&self) -> Seq<KeySpec> {
        self.dep_graph.nodes()
    }

    /// The stored objects, each with its bytes, in the order of arrival.
    pub closed spec fn object_list(&self) -> Seq<(Seq<u8>, Seq<u8>)> {
        Seq::new(
            self.db.objects.spec_len(),
            |i: int| (self.db.objects.entry_at(i).0@, self.db.objects.entry_at(i).1@),
        )
    }

    /// The three lists name what the evaluator holds: each key once, the graph
    /// closed under its edges, every blob under its own SHA-256, every output
    /// of the type that its key's kind returns.
    pub proof fn lemma_lists(&self)
        requires
            self.wf(),
        ensures
            crate::persist::lists_keys(self@.cache, self.cache_keys()),
            crate::persist::lists_keys(self@.graph, self.graph_nodes()),
            self.graph_nodes().no_duplicates(),
            crate::persist::closed_graph(self@.graph),
            crate::persist::map_of(self.object_list()) == self.objects(),
            crate::persist::hashes_match(self.object_list()),
            crate::persist::outputs_fit(
                crate::persist::entries_of(self@.cache, self.cache_keys()),
            ),
    {
        self.db.cache.lemma_keys();
        self.dep_graph.lemma_nodes();
        self.db.objects.lemma_entries();
        let list = self.object_list();
        let keys = Seq::new(list.len(), |i: int| list[i].0);
        assert forall|key: Seq<u8>| #[trigger] self.objects().contains_key(key) implies keys.contains(
            key,
        ) by {
            let i = choose|i: int|
                0 <= i < self.db.objects.spec_len() && (#[trigger] self.db.objects.entry_at(i)).0@
                    == key;
            assert(keys[i] == key);
        }
        assert forall|i: int| 0 <= i < keys.len() implies self.objects().contains_key(
            #[trigger] keys[i],
        ) by {
            assert(self.objects().contains_pair(
                self.db.objects.entry_at(i).0@,
                self.db.objects.entry_at(i).1@,
            ));
        }
        assert(crate::persist::entries_of(self.objects(), keys) =~= list) by {
            assert forall|i: int| 0 <= i < list.len() implies crate::persist::entries_of(
                self.objects(),
                keys,
            )[i] == list[i] by {
                assert(self.objects().contains_pair(
                    self.db.objects.entry_at(i).0@,
                    self.db.objects.entry_at(i).1@,
                ));
            }
        }
        crate::persist::lemma_map_round_trip(self.objects(), keys);
        assert forall|i: int| 0 <= i < list.len() implies crate::to_hash::sha256(
            (#[trigger] list[i]).1,
        ) == list[i].0 by {
            assert(self.objects().contains_pair(
                self.db.objects.entry_at(i).0@,
                self.db.objects.entry_at(i).1@,
            ));
            self.db.objects.lemma_content_addressed(list[i].0);
        }
        let entries = crate::persist::entries_of(self@.cache, self.cache_keys());
        assert forall|i: int| 0 <= i < entries.len() implies output_fits(
            (#[trigger] entries[i]).0,
            entries[i].1,
        ) by {
            self.db.cache.lemma_outputs_fit(self.cache_keys()[i]);
        }
    }

    /// The nodes of the graph, each with its dependencies.
    pub fn graph_list(&self) -> (graph: Vec<(QueryKey, Vec<QueryKey>)>)
        requires
            self.wf(),
        ensures
            crate::persist::graph_entries(graph@) == crate::persist::entries_of(
                self@.graph,
                self.graph_nodes(),
            ),
    {
        proof {
            self.dep_graph.lemma_nodes();
        }
        let mut graph: Vec<(QueryKey, Vec<QueryKey>)> = Vec::new();
        let count = self.dep_graph.node_count();
        let mut n: usize = 0;
        while n < count
            invariant
                self.dep_graph.wf(),
                n <= count,
                count == self.dep_graph.nodes().len(),
                forall|j: int|
                    0 <= j < self.dep_graph.nodes().len() ==> self.dep_graph@.contains_key(
                        #[trigger] self.dep_graph.nodes()[j],
                    ),
                graph@.len() == n,
                forall|j: int|
                    0 <= j < n ==> (#[trigger] graph@[j]).0@ == self.dep_graph.nodes()[j]
                        && keys_view(graph@[j].1@) == self.dep_graph@[self.dep_graph.nodes()[j]],
            decreases count - n,
        {
            let key = self.dep_graph.node_key(n);
            assert(self.dep_graph@.contains_key(self.dep_graph.nodes()[n as int]));
            match self.dep_graph.dependencies(&key) {
                Some(deps) => {
                    assert(keys_view(deps@) =~= self.dep_graph@[key@]);
                    graph.push((key, deps));
                },
                None => {},
            }
            n += 1;
        }
        assert(crate::persist::graph_entries(graph@) =~= crate::persist::entries_of(
            self@.graph,
            self.graph_nodes(),
        ));
        graph
    }

    /// The dependency graph written out: each node on a line of its own,
    /// followed by its dependencies, indented, the one recorded last first.
    pub fn display_dep_graph(&self) -> (text: String)
        requires
            self.wf(),
        ensures
            text@ == crate::text::graph_text(
                crate::persist::entries_of(self@.graph, self.graph_nodes()),
            ),
    {
        let graph = self.graph_list();
        crate::text::graph_to_string(&graph)
    }

    /// The cache and the graph, entry by entry, as they are to be kept for
    /// the next run.
    pub fn save(&self) -> (snapshot: crate::persist::Snapshot)
        requires
            self.wf(),
        ensures
            crate::persist::cache_entries(snapshot.cache@) == crate::persist::entries_of(
                self@.cache,
                self.cache_keys(),
            ),
            crate::persist::graph_entries(snapshot.graph@) == crate::persist::entries_of(
                self@.graph,
                self.graph_nodes(),
            ),
    {
        proof {
            self.db.cache.lemma_keys();
            self.dep_graph.lemma_nodes();
        }
        let keys = self.db.cache.iter_keys();
        let mut cache: Vec<(QueryKey, AnyOutput)> = Vec::new();
        let mut i: usize = 0;
        while i < keys.len()
            invariant
                self.db.cache.wf(),
                i <= keys@.len(),
                keys@.len() == self.db.cache.keys().len(),
                forall|j: int| 0 <= j < keys@.len() ==> (#[trigger] keys@[j])@ == self.db.cache.keys()[j],
                forall|j: int|
                    0 <= j < self.db.cache.keys().len() ==> self.db.cache@.contains_key(
                        #[trigger] self.db.cache.keys()[j],
                    ),
                cache@.len() == i,
                forall|j: int|
                    0 <= j < i ==> (#[trigger] cache@[j]).0@ == self.db.cache.keys()[j]
                        && cache@[j].1@ == self.db.cache@[self.db.cache.keys()[j]],
            decreases keys@.len() - i,
        {
            assert(self.db.cache@.contains_key(self.db.cache.keys()[i as int]));
            match self.db.cache.get(&keys[i]) {
                Some(output) => {
                    cache.push((keys[i].clone(), output));
                },
                None => {},
            }
            i += 1;
        }
        let graph = self.graph_list();
        let snapshot = crate::persist::Snapshot { cache, graph };
        assert(crate::persist::cache_entries(snapshot.cache@) =~= crate::persist::entries_of(
            self@.cache,
            self.cache_keys(),
        ));
        assert(crate::persist::graph_entries(snapshot.graph@) =~= crate::persist::entries_of(
            self@.graph,
            self.graph_nodes(),
        ));
        snapshot
    }

    /// Copies of the stored objects, each with its bytes, in the order of
    /// arrival: what is to be written out beside the snapshot.
    pub fn stored_objects(&self) -> (list: Vec<(Object, Vec<u8>)>)
        requires
            self.wf(),
        ensures
            crate::persist::object_entries(list@) == self.object_list(),
    {
        let mut list: Vec<(Object, Vec<u8>)> = Vec::new();
        let mut i: usize = 0;
        while i < self.db.objects.len()
            invariant
                i <= self.db.objects.spec_len(),
                list@.len() == i,
                forall|j: int|
                    0 <= j < i ==> (#[trigger] list@[j]).0@ == self.db.objects.entry_at(j).0@
                        && list@[j].1@ == self.db.objects.entry_at(j).1@,
            decreases self.db.objects.spec_len() - i,
        {
            let (object, bytes) = self.db.objects.entry(i);
            list.push((object, crate::producers::clone_bytes(bytes)));
            i += 1;
        }
        assert(crate::persist::object_entries(list@) =~= self.object_list());
        list
    }

    /// The evaluator that the kept entries restore to: cache, graph and
    /// objects as the entries give them, every key with an output green as of
    /// revision 0, and the revision 1. Entries that do not fit together give
    /// an error: an output of the wrong type for its key, a blob that does not
    /// come under its own SHA-256, or an output whose key is no node of the
    /// graph. Where every node has an output, nothing has changed yet in the
    /// restored state, in the sense of `laws::settled`.
    pub fn restore(snapshot: &crate::persist::Snapshot, objects: &Vec<(Object, Vec<u8>)>) -> (restored:
        Result<QueryContext, crate::error::Error>)
        ensures
            restored is Ok == crate::persist::restorable(
                crate::persist::cache_entries(snapshot.cache@),
                crate::persist::graph_entries(snapshot.graph@),
                crate::persist::object_entries(objects@),
            ),
            restored matches Ok(ctx) ==> {
                &&& ctx.wf()
                &&& ctx@ == crate::persist::restored_state(
                    crate::persist::cache_entries(snapshot.cache@),
                    crate::persist::graph_entries(snapshot.graph@),
                )
                &&& ctx.objects() == crate::persist::map_of(crate::persist::object_entries(objects@))
                &&& crate::persist::graph_covered(
                    crate::persist::cache_entries(snapshot.cache@),
                    crate::persist::graph_entries(snapshot.graph@),
                ) ==> crate::laws::settled(ctx@)
            },
            restored matches Err(e) ==> e@ == crate::persist::restore_error(
                crate::persist::cache_entries(snapshot.cache@),
                crate::persist::graph_entries(snapshot.graph@),
                crate::persist::object_entries(objects@),
            ),
    {
        let cache = match crate::persist::restore_cache(&snapshot.cache) {
            Some(cache) => cache,
            None => {
                return Err(crate::error::Error::new("cached output does not fit its key"));
            },
        };
        let store = match crate::persist::restore_objects(objects) {
            Some(store) => store,
            None => {
                return Err(crate::error::Error::new("stored object does not match its hash"));
            },
        };
        let graph = crate::persist::restore_graph(&snapshot.graph);
        if !crate::persist::cached_keys_are_nodes(&graph, &cache) {
            return Err(
                crate::error::Error::new("cached output belongs to no node of the dependency graph"),
            );
        }
        let colors = crate::persist::green_colors(&cache);
        let refusals = crate::persist::nodes_without_output(&graph, &cache);
        let ctx = QueryContext {
            db: Database { colors, revision: 1, cache, objects: store },
            dep_graph: graph,
            stack: Vec::new(),
            control: Control::Idle,
            refusals,
        };
        assert(ctx@.stack =~= Seq::<FrameSpec>::empty());
        assert(ctx@.refusals =~= Set::new(
            |key: KeySpec| ctx@.graph.contains_key(key) && !ctx@.cache.contains_key(key),
        ));
        proof {
            ctx.dep_graph.lemma_nodes();
            assert(shaped(ctx@));
            assert(crate::laws::tied(ctx@, false, arbitrary()));
            if crate::persist::graph_covered(
                crate::persist::cache_entries(snapshot.cache@),
                crate::persist::graph_entries(snapshot.graph@),
            ) {
                crate::laws::lemma_restored_settled(ctx@);
            }
        }
        Ok(ctx)
    }

    /// Saving and restoring gives the state back, but for the colors, the
    /// revision and what was under way: in every state, what `save` and
    /// `stored_objects` hand out can be restored from, and restores to the
    /// same cache, graph and objects, with every key that has an output green
    /// as of revision 0, the revision 1, and no query under way.
    pub proof fn lemma_round_trip(&self, snapshot: crate::persist::Snapshot, objects: Vec<(Object, Vec<u8>)>)
        requires
            self.wf(),
            crate::persist::cache_entries(snapshot.cache@) == crate::persist::entries_of(
                self@.cache,
                self.cache_keys(),
            ),
            crate::persist::graph_entries(snapshot.graph@) == crate::persist::entries_of(
                self@.graph,
                self.graph_nodes(),
            ),
            crate::persist::object_entries(objects@) == self.object_list(),
        ensures
            crate::persist::restorable(
                crate::persist::cache_entries(snapshot.cache@),
                crate::persist::graph_entries(snapshot.graph@),
                crate::persist::object_entries(objects@),
            ),
            ({
                let restored = crate::persist::restored_state(
                    crate::persist::cache_entries(snapshot.cache@),
                    crate::persist::graph_entries(snapshot.graph@),
                );
                &&& restored.cache == self@.cache
                &&& restored.graph == self@.graph
                &&& restored.colors == crate::persist::all_green(self@.cache)
                &&& restored.revision == 1
                &&& restored.stack == Seq::<FrameSpec>::empty()
                &&& restored.control == Control::Idle
            }),
            crate::persist::map_of(crate::persist::object_entries(objects@)) == self.objects(),
    {
        self.lemma_lists();
        crate::persist::lemma_map_round_trip(self@.cache, self.cache_keys());
        crate::persist::lemma_graph_round_trip(self@.graph, self.graph_nodes());
    }
}

} // verus!
