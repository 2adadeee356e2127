//! Mathematical model of the simulation state and of one discrete step.
//!
//! [`ModelGhost`] is the abstraction of a [`crate::Model`]: every parallel
//! array becomes a `Seq`, every shared scalar stays a machine integer.  The
//! function [`step`] is the exact specification of [`crate::Model::tick`],
//! written as the composition of the four phases of a step.  The proof
//! functions at the end state the crate-wide laws of the simulation.

use vstd::prelude::*;

use crate::fbits::{f32_add, f32_lt, f32_mul, f32_sub, ONE_BITS};

verus! {

/// Abstract state of a network: one entry per neuron in the five neuron
/// sequences, one entry per synapse in the four synapse sequences, and the
/// two shared scalars.
#[verifier::ext_equal]
pub ghost struct ModelGhost {
    /// Membrane potential of each neuron (binary32 bits).
    pub v: Seq<u32>,
    /// Shared leak factor `alpha` (binary32 bits).
    pub alpha: u32,
    /// Firing threshold of each neuron (binary32 bits).
    pub v_th: Seq<u32>,
    /// Potential assigned to a neuron on the step after it fired (binary32 bits).
    pub v_reset: Seq<u32>,
    /// Remaining refractory steps of each neuron; 0 means eligible to fire.
    pub refrac: Seq<u16>,
    /// Refractory duration assigned to every neuron that fires.
    pub refrac_len: u16,
    /// Whether the neuron fired during the latest step.
    pub spiked: Seq<bool>,
    /// CSR prefix: synapses of neuron `i` are `out_offset[i]..out_offset[i+1]`.
    pub out_offset: Seq<u32>,
    /// Target neuron of each synapse.
    pub receiver: Seq<u32>,
    /// Weight delivered by each synapse (binary32 bits).
    pub weight: Seq<u32>,
    /// Arming flag of each synapse: 1 means deliver on the coming step.
    pub state: Seq<u32>,
}

impl ModelGhost {
    /// Number of neurons.
    pub open spec fn n(self) -> int {
        self.v.len() as int
    }

    /// Number of synapses.
    pub open spec fn e(self) -> int {
        self.receiver.len() as int
    }

    /// Well-formedness: index-aligned arrays, a valid CSR prefix, targets in
    /// range, binary arming flags, and refractory counters within the shared
    /// duration.
    pub open spec fn wf(self) -> bool {
        &&& self.v_th.len() == self.n()
        &&& self.v_reset.len() == self.n()
        &&& self.refrac.len() == self.n()
        &&& self.spiked.len() == self.n()
        &&& self.out_offset.len() == self.n() + 1
        &&& self.out_offset[0] == 0
        &&& forall|i: int|
            0 <= i < self.n() ==> #[trigger] self.out_offset[i] <= self.out_offset[i + 1]
        &&& self.out_offset[self.n()] == self.e()
        &&& self.weight.len() == self.e()
        &&& self.state.len() == self.e()
        &&& forall|s: int| 0 <= s < self.e() ==> #[trigger] self.receiver[s] < self.n()
        &&& forall|s: int| 0 <= s < self.e() ==> #[trigger] self.state[s] <= 1
        &&& forall|i: int| 0 <= i < self.n() ==> #[trigger] self.refrac[i] <= self.refrac_len
    }
}

/// The factor `1 - alpha` applied to a leaking potential (binary32 bits).
pub open spec fn leak_factor(m: ModelGhost) -> u32 {
    f32_sub(ONE_BITS, m.alpha)
}

/// Phase 1: every neuron that fired on the previous step is reset (`v :=
/// v_reset`, `refrac := refrac_len`) and its flag cleared; every other
/// neuron leaks, `v := v * (1 - alpha)`.
pub open spec fn phase_resolve(m: ModelGhost) -> ModelGhost {
    ModelGhost {
        v: Seq::new(
            m.v.len(),
            |i: int| if m.spiked[i] { m.v_reset[i] } else { f32_mul(m.v[i], leak_factor(m)) },
        ),
        refrac: Seq::new(
            m.refrac.len(),
            |i: int| if m.spiked[i] { m.refrac_len } else { m.refrac[i] },
        ),
        spiked: Seq::new(m.spiked.len(), |i: int| false),
        ..m
    }
}

/// One saturating decrement of a refractory counter.
pub open spec fn refrac_dec(r: u16) -> u16 {
    if r == 0 {
        0u16
    } else {
        (r - 1) as u16
    }
}

/// Phase 2: every refractory counter decrements by one, saturating at 0.
pub open spec fn phase_refrac(m: ModelGhost) -> ModelGhost {
    ModelGhost { refrac: Seq::new(m.refrac.len(), |i: int| refrac_dec(m.refrac[i])), ..m }
}

/// The potentials after the first `k` synapses have been examined in index
/// order: each armed one adds its weight to its receiver's potential.
pub open spec fn deliver_upto(m: ModelGhost, k: int) -> Seq<u32>
    decreases k,
{
    if k <= 0 {
        m.v
    } else {
        let prev = deliver_upto(m, k - 1);
        if m.state[k - 1] == 1 {
            let t = m.receiver[k - 1] as int;
            prev.update(t, f32_add(prev[t], m.weight[k - 1]))
        } else {
            prev
        }
    }
}

/// Phase 3: every armed synapse delivers its weight to its receiver, in
/// synapse index order, and is cleared.
pub open spec fn phase_deliver(m: ModelGhost) -> ModelGhost {
    ModelGhost {
        v: deliver_upto(m, m.e()),
        state: Seq::new(m.state.len(), |s: int| if m.state[s] == 1 { 0u32 } else { m.state[s] }),
        ..m
    }
}

/// Whether neuron `i` fires in phase 4: out of refractory and at or above
/// its threshold.
pub open spec fn fires(m: ModelGhost, i: int) -> bool {
    m.refrac[i] == 0 && !f32_lt(m.v[i], m.v_th[i])
}

/// Whether synapse `s` lies in the CSR range of neuron `i`.
pub open spec fn covers(m: ModelGhost, i: int, s: int) -> bool {
    m.out_offset[i] <= s < m.out_offset[i + 1]
}

/// The arming flag of synapse `s` once the first `i` neurons have been
/// examined in phase 4: armed when some firing neuron among them covers it,
/// otherwise as before.
pub open spec fn arm_prefix(m: ModelGhost, i: int, s: int) -> u32 {
    if exists|j: int| 0 <= j < i && #[trigger] covers(m, j, s) && fires(m, j) {
        1u32
    } else {
        m.state[s]
    }
}

/// The arming flag of synapse `s` after phase 4: armed when some firing
/// neuron's range covers it, otherwise as before.
pub open spec fn armed_after(m: ModelGhost, s: int) -> u32 {
    arm_prefix(m, m.n(), s)
}

/// Phase 4: each firing neuron's flag is set and its outgoing synapses are
/// armed for the coming step.
pub open spec fn phase_fire(m: ModelGhost) -> ModelGhost {
    ModelGhost {
        spiked: Seq::new(m.v.len(), |i: int| fires(m, i)),
        state: Seq::new(m.state.len(), |s: int| armed_after(m, s)),
        ..m
    }
}

/// One discrete simulation step: the four phases in their fixed order.
pub open spec fn step(m: ModelGhost) -> ModelGhost {
    phase_fire(phase_deliver(phase_refrac(phase_resolve(m))))
}

/// The state after `k` simulation steps.
pub open spec fn run(m: ModelGhost, k: nat) -> ModelGhost
    decreases k,
{
    if k == 0 {
        m
    } else {
        step(run(m, (k - 1) as nat))
    }
}

/// The potentials after delivery keep their length, and an index that no
/// armed synapse among the first `k` targets keeps its value.
proof fn lemma_deliver_untouched(m: ModelGhost, i: int, k: int)
    requires
        m.wf(),
        0 <= i < m.n(),
        0 <= k <= m.e(),
        forall|s: int| 0 <= s < k ==> (#[trigger] m.state[s] == 1 ==> m.receiver[s] != i),
    ensures
        deliver_upto(m, k)[i] == m.v[i],
    decreases k,
{
    lemma_deliver_len(m, k);
    if k > 0 {
        lemma_deliver_untouched(m, i, k - 1);
        lemma_deliver_len(m, k - 1);
    }
}

/// Delivery never changes the number of neurons.
proof fn lemma_deliver_len(m: ModelGhost, k: int)
    requires
        0 <= k <= m.e(),
        forall|s: int| 0 <= s < m.e() ==> #[trigger] m.receiver[s] < m.v.len(),
    ensures
        deliver_upto(m, k).len() == m.v.len(),
    decreases k,
{
    if k > 0 {
        lemma_deliver_len(m, k - 1);
    }
}

/// In a well-formed state the CSR prefix is ordered: an earlier offset never
/// exceeds a later one.
pub proof fn lemma_offsets_ordered(m: ModelGhost, i: int, j: int)
    requires
        m.wf(),
        0 <= i <= j <= m.n(),
    ensures
        m.out_offset[i] <= m.out_offset[j],
    decreases j - i,
{
    if i < j {
        lemma_offsets_ordered(m, i + 1, j);
    }
}

/// One step preserves well-formedness, and leaves the wiring and the shared
/// scalars unchanged.
pub proof fn lemma_step_preserves_wf(m: ModelGhost)
    requires
        m.wf(),
    ensures
        step(m).wf(),
        step(m).n() == m.n(),
        step(m).e() == m.e(),
        step(m).alpha == m.alpha,
        step(m).refrac_len == m.refrac_len,
        step(m).out_offset == m.out_offset,
        step(m).receiver == m.receiver,
        step(m).weight == m.weight,
        step(m).v_th == m.v_th,
        step(m).v_reset == m.v_reset,
{
    let m1 = phase_resolve(m);
    let m2 = phase_refrac(m1);
    let m3 = phase_deliver(m2);
    lemma_deliver_len(m2, m2.e());
}

/// Every state along a run is well formed, with the wiring and the shared
/// scalars of the start state.
pub proof fn lemma_run_wf(m: ModelGhost, k: nat)
    requires
        m.wf(),
    ensures
        run(m, k).wf(),
        run(m, k).n() == m.n(),
        run(m, k).e() == m.e(),
        run(m, k).alpha == m.alpha,
        run(m, k).refrac_len == m.refrac_len,
        run(m, k).out_offset == m.out_offset,
        run(m, k).receiver == m.receiver,
        run(m, k).weight == m.weight,
        run(m, k).v_th == m.v_th,
        run(m, k).v_reset == m.v_reset,
    decreases k,
{
    if k > 0 {
        lemma_run_wf(m, (k - 1) as nat);
        lemma_step_preserves_wf(run(m, (k - 1) as nat));
    }
}

/// Determinism: a run is a pure function of the starting state — advancing
/// two equal states by the same number of steps ends in equal states.  There
/// is no hidden input: [`step`] mentions nothing but its argument.
pub proof fn lemma_determinism(a: ModelGhost, b: ModelGhost, k: nat)
    requires
        a == b,
    ensures
        run(a, k) == run(b, k),
{
}

/// Leak monotonicity: over one step, a neuron that is not resolving a spike
/// and to which no armed synapse delivers ends with exactly its old
/// potential times `1 - alpha`.
pub proof fn lemma_leak_only(m: ModelGhost, i: int)
    requires
        m.wf(),
        0 <= i < m.n(),
        !m.spiked[i],
        forall|s: int| 0 <= s < m.e() ==> (#[trigger] m.state[s] == 1 ==> m.receiver[s] != i),
    ensures
        step(m).v[i] == f32_mul(m.v[i], f32_sub(ONE_BITS, m.alpha)),
{
    let m1 = phase_resolve(m);
    let m2 = phase_refrac(m1);
    lemma_deliver_untouched(m2, i, m2.e());
    lemma_deliver_len(m2, m2.e());
}

/// Refractory floor: the counter never underflows — each step lowers it by
/// at most one and never below zero — and after `refrac_len` consecutive
/// steps in which neuron `i` does not spike, the counter has reached 0.
pub proof fn lemma_refractory_floor(m: ModelGhost, i: int, k: nat)
    requires
        m.wf(),
        0 <= i < m.n(),
        k >= m.refrac_len,
        forall|j: nat| 1 <= j < k ==> !(#[trigger] run(m, j).spiked[i]),
    ensures
        run(m, k).refrac[i] == 0,
{
    if k == 0 {
        assert(m.refrac[i] <= m.refrac_len);
    } else {
        lemma_refrac_bound(m, i, k);
    }
}

/// Bound behind the refractory floor: after `k >= 1` steps without a spike
/// of neuron `i` (after the first step resolved whatever was pending), the
/// counter is at most `refrac_len - k`, and never below zero.
proof fn lemma_refrac_bound(m: ModelGhost, i: int, k: nat)
    requires
        m.wf(),
        0 <= i < m.n(),
        k >= 1,
        forall|j: nat| 1 <= j < k ==> !(#[trigger] run(m, j).spiked[i]),
    ensures
        run(m, k).refrac[i] + k <= m.refrac_len || run(m, k).refrac[i] == 0,
    decreases k,
{
    lemma_run_wf(m, (k - 1) as nat);
    lemma_run_wf(m, k);
    if k == 1 {
        assert(m.refrac[i] <= m.refrac_len);
    } else {
        lemma_refrac_bound(m, i, (k - 1) as nat);
        assert(run(m, k) == step(run(m, (k - 1) as nat)));
        assert(!run(m, (k - 1) as nat).spiked[i]);
    }
}

} // verus!
