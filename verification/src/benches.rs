//! Driving a constraint-based monitor with generated inputs, as the
//! benchmarks do.
use vstd::prelude::*;

use crate::ast::{LOLASpecification, SpecV};
use crate::values::{Value, ValueV};
use crate::variables::VarName;
use crate::varmap::{Duplicate, VarMap};

verus! {

/// The inputs of round `i`: `x` is `2i` and `y` is `2i + 1`.
pub open spec fn round_inputs(i: int) -> Map<Seq<char>, ValueV> {
    map!["x"@ => ValueV::Int(2 * i), "y"@ => ValueV::Int(2 * i + 1)]
}

/// The inputs of the first `num_outputs` rounds (none when it is not
/// positive).
pub fn constraint_bench_inputs(num_outputs: i64) -> (r: Vec<VarMap<Value>>)
    requires
        2 * num_outputs <= i64::MAX + 1,
    ensures
        r@.len() == (if num_outputs > 0 {
            num_outputs as int
        } else {
            0
        }),
        forall|i: int| 0 <= i < r@.len() ==> #[trigger] r@[i]@ == round_inputs(i),
{
    let mut r: Vec<VarMap<Value>> = Vec::new();
    let mut i: i64 = 0;
    while i < num_outputs
        invariant
            0 <= i,
            num_outputs > 0 ==> i <= num_outputs,
            num_outputs <= 0 ==> i == 0,
            2 * num_outputs <= i64::MAX + 1,
            r@.len() == i,
            forall|k: int| 0 <= k < i ==> #[trigger] r@[k]@ == round_inputs(k),
        decreases num_outputs - i,
    {
        let mut inputs: VarMap<Value> = VarMap::new();
        inputs.insert(VarName::new("x"), Value::Int(i * 2));
        inputs.insert(VarName::new("y"), Value::Int(i * 2 + 1));
        assert(inputs@ =~= round_inputs(i as int));
        r.push(inputs);
        i = i + 1;
    }
    r
}

/// What a constraint-based runtime has been asked to do, in order.
pub ghost enum RuntimeEvent {
    /// Monitor this specification.
    Store(SpecV),
    /// Evaluate one round with these inputs.
    Step(Map<Seq<char>, ValueV>),
    /// Drop what later rounds no longer need.
    Cleanup,
}

/// A constraint-based monitor that is given a specification and then the
/// inputs of one round at a time. Each call is recorded in its trace.
pub trait ConstraintRuntime {
    /// The calls made so far, in order.
    spec fn trace(&self) -> Seq<RuntimeEvent>;

    /// Takes the specification to monitor.
    fn store_from_spec(&mut self, spec: LOLASpecification)
        ensures
            final(self).trace() == old(self).trace().push(RuntimeEvent::Store(spec@)),
    ;

    /// Evaluates one round with the given inputs.
    fn step(&mut self, inputs: &VarMap<Value>)
        ensures
            final(self).trace() == old(self).trace().push(RuntimeEvent::Step(inputs@)),
    ;

    /// Drops what later rounds no longer need.
    fn cleanup(&mut self)
        ensures
            final(self).trace() == old(self).trace().push(RuntimeEvent::Cleanup),
    ;
}

/// The first `n` rounds of the benchmark: each a step with that round's
/// inputs, then a cleanup.
pub open spec fn bench_rounds(n: int) -> Seq<RuntimeEvent>
    decreases n,
{
    if n <= 0 {
        Seq::empty()
    } else {
        bench_rounds(n - 1) + seq![RuntimeEvent::Step(round_inputs(n - 1)), RuntimeEvent::Cleanup]
    }
}

/// Runs `runtime` on `spec` for `num_outputs` rounds with the inputs of
/// `constraint_bench_inputs`, cleaning up after each round: the runtime is
/// given the specification once, then each round's step and cleanup.
pub fn monitor_outputs_untyped_constraints_no_overhead<R: ConstraintRuntime>(
    runtime: &mut R,
    spec: LOLASpecification,
    num_outputs: i64,
)
    requires
        2 * num_outputs <= i64::MAX + 1,
    ensures
        final(runtime).trace() == old(runtime).trace().push(RuntimeEvent::Store(spec@)) + bench_rounds(
            num_outputs as int,
        ),
{
    let inputs = constraint_bench_inputs(num_outputs);
    let ghost spec_v = spec@;
    runtime.store_from_spec(spec);
    let ghost start = old(runtime).trace().push(RuntimeEvent::Store(spec_v));
    assert(start + bench_rounds(0) =~= start);
    let mut k: usize = 0;
    while k < inputs.len()
        invariant
            k <= inputs@.len(),
            forall|i: int| 0 <= i < inputs@.len() ==> #[trigger] inputs@[i]@ == round_inputs(i),
            runtime.trace() == start + bench_rounds(k as int),
        decreases inputs@.len() - k,
    {
        runtime.step(&inputs[k]);
        runtime.cleanup();
        assert(runtime.trace() =~= start + bench_rounds(k + 1));
        k = k + 1;
    }
    assert(bench_rounds(num_outputs as int) == bench_rounds(inputs@.len() as int)) by {
        if num_outputs <= 0 {
            assert(bench_rounds(num_outputs as int) == Seq::<RuntimeEvent>::empty());
        }
    }
}

/// A call made on a [`RecordingRuntime`].
pub enum RuntimeCall {
    Store(LOLASpecification),
    Step(VarMap<Value>),
    Cleanup,
}

/// The event of a recorded call.
pub open spec fn call_event(c: RuntimeCall) -> RuntimeEvent {
    match c {
        RuntimeCall::Store(s) => RuntimeEvent::Store(s@),
        RuntimeCall::Step(m) => RuntimeEvent::Step(m@),
        RuntimeCall::Cleanup => RuntimeEvent::Cleanup,
    }
}

/// A runtime that evaluates nothing and keeps a record of the calls made on
/// it, to see what a driver asks of a runtime.
pub struct RecordingRuntime {
    pub calls: Vec<RuntimeCall>,
}

impl Duplicate for Value {
    fn duplicate(&self) -> (r: Value) {
        Value::duplicate(self)
    }
}

impl ConstraintRuntime for RecordingRuntime {
    open spec fn trace(&self) -> Seq<RuntimeEvent> {
        self.calls@.map_values(|c: RuntimeCall| call_event(c))
    }

    fn store_from_spec(&mut self, spec: LOLASpecification) {
        let ghost before = self.calls@;
        self.calls.push(RuntimeCall::Store(spec));
        assert(self.calls@.map_values(|c: RuntimeCall| call_event(c)) =~= before.map_values(
            |c: RuntimeCall| call_event(c),
        ).push(call_event(self.calls@.last())));
    }

    fn step(&mut self, inputs: &VarMap<Value>) {
        let ghost before = self.calls@;
        self.calls.push(RuntimeCall::Step(inputs.duplicate()));
        assert(self.calls@.map_values(|c: RuntimeCall| call_event(c)) =~= before.map_values(
            |c: RuntimeCall| call_event(c),
        ).push(call_event(self.calls@.last())));
    }

    fn cleanup(&mut self) {
        let ghost before = self.calls@;
        self.calls.push(RuntimeCall::Cleanup);
        assert(self.calls@.map_values(|c: RuntimeCall| call_event(c)) =~= before.map_values(
            |c: RuntimeCall| call_event(c),
        ).push(call_event(self.calls@.last())));
    }
}

} // verus!
