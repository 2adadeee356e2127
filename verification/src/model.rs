//! The simulation state and its operations.
//!
//! A [`Model`] owns the fixed wiring of a network (a compressed-sparse-row
//! triple) and all of its mutable per-neuron and per-synapse state, kept in
//! index-aligned parallel arrays.  Construction is done by the topology
//! builders [`Model::empty`], [`Model::line`] and [`Model::grid`];
//! [`Model::tick`] advances the simulation by exactly one discrete step, as
//! specified by [`crate::sim::step`].

use vstd::prelude::*;
use vstd::pervasive::VecAdditionalExecFns;

use crate::fbits::{sub_bits, mul_bits, add_bits, lt_bits, ONE_BITS};
use crate::sim::{
    ModelGhost, step, phase_resolve, phase_refrac, phase_deliver, phase_fire, leak_factor,
    deliver_upto, fires, covers, arm_prefix, lemma_step_preserves_wf, lemma_offsets_ordered,
};

verus! {

/// Bit pattern of the default leak factor `alpha = 0.1`.
pub const DEFAULT_ALPHA_BITS: u32 = 0x3dcc_cccd;

/// Bit pattern of the default firing threshold `v_th = 1.0`.
pub const DEFAULT_V_TH_BITS: u32 = 0x3f80_0000;

/// Bit pattern of the default synapse weight `0.5`.
pub const DEFAULT_SYNAPSE_WEIGHT_BITS: u32 = 0x3f00_0000;

/// Default refractory duration in steps.
pub const DEFAULT_REFRAC_LEN: u16 = 2;

/// The error conditions of the crate.
#[derive(Clone, Copy, Debug, PartialEq, Eq, Structural)]
pub enum SnnError {
    /// A neuron index at or above the neuron count was given.
    IndexOutOfRange,
    /// The external layout engine could not be run, or reported failure.
    LayoutEngineUnavailable,
    /// A position report line does not parse as `node <id> <x> <y> <w> <h>`.
    MalformedPositionLine,
}

/// A sparse leaky-integrate-and-fire network: fixed wiring plus the mutable
/// simulation state, in parallel arrays (index `i` means the same neuron,
/// and index `s` the same synapse, in every array).
pub struct Model {
    /// Membrane potential of each neuron (binary32 bits).
    pub(crate) v: Vec<u32>,
    /// Leak factor `alpha`, `0 < alpha <= 1` (binary32 bits).
    pub(crate) alpha: u32,
    /// Firing threshold of each neuron (binary32 bits).
    pub(crate) v_th: Vec<u32>,
    /// Potential assigned after a spike (binary32 bits).
    pub(crate) v_reset: Vec<u32>,
    /// Remaining refractory steps; 0 means eligible to fire.
    pub(crate) refrac: Vec<u16>,
    /// Refractory duration assigned to every neuron that fires.
    pub(crate) refrac_len: u16,
    /// Whether the neuron fired during the latest step.
    pub(crate) spiked: Vec<bool>,
    /// CSR prefix: synapses of neuron `i` are `out_offset[i]..out_offset[i+1]`.
    pub(crate) out_offset: Vec<u32>,
    /// Target neuron of each synapse.
    pub(crate) receiver: Vec<u32>,
    /// Weight delivered by each synapse (binary32 bits).
    pub(crate) weight: Vec<u32>,
    /// Arming flag of each synapse: 1 means deliver on the coming step.
    pub(crate) state: Vec<u32>,
}

impl View for Model {
    type V = ModelGhost;

    closed spec fn view(&self) -> ModelGhost {
        ModelGhost {
            v: self.v@,
            alpha: self.alpha,
            v_th: self.v_th@,
            v_reset: self.v_reset@,
            refrac: self.refrac@,
            refrac_len: self.refrac_len,
            spiked: self.spiked@,
            out_offset: self.out_offset@,
            receiver: self.receiver@,
            weight: self.weight@,
            state: self.state@,
        }
    }
}

/// The state built by [`Model::empty`]: no neurons, no synapses, the default
/// shared scalars.
pub open spec fn empty_model() -> ModelGhost {
    ModelGhost {
        v: Seq::<u32>::empty(),
        alpha: DEFAULT_ALPHA_BITS,
        v_th: Seq::<u32>::empty(),
        v_reset: Seq::<u32>::empty(),
        refrac: Seq::<u16>::empty(),
        refrac_len: DEFAULT_REFRAC_LEN,
        spiked: Seq::<bool>::empty(),
        out_offset: seq![0u32],
        receiver: Seq::<u32>::empty(),
        weight: Seq::<u32>::empty(),
        state: Seq::<u32>::empty(),
    }
}

/// Number of synapses of a chain of `count` neurons.
pub open spec fn line_edge_count(count: int) -> int {
    if count == 0 {
        0
    } else {
        count - 1
    }
}

/// CSR prefix entry `i` of a chain of `count` neurons.
pub open spec fn line_offset(count: int, i: int) -> u32 {
    if i < count {
        i as u32
    } else {
        line_edge_count(count) as u32
    }
}

/// The state built by [`Model::line`]: neuron `i` has one synapse to `i + 1`
/// for every `i` but the last, all per-neuron state at its default.
pub open spec fn line_model(count: int) -> ModelGhost {
    ModelGhost {
        v: Seq::new(count as nat, |i: int| 0u32),
        alpha: DEFAULT_ALPHA_BITS,
        v_th: Seq::new(count as nat, |i: int| DEFAULT_V_TH_BITS),
        v_reset: Seq::new(count as nat, |i: int| 0u32),
        refrac: Seq::new(count as nat, |i: int| 0u16),
        refrac_len: DEFAULT_REFRAC_LEN,
        spiked: Seq::new(count as nat, |i: int| false),
        out_offset: Seq::new((count + 1) as nat, |i: int| line_offset(count, i)),
        receiver: Seq::new(line_edge_count(count) as nat, |s: int| (s + 1) as u32),
        weight: Seq::new(line_edge_count(count) as nat, |s: int| DEFAULT_SYNAPSE_WEIGHT_BITS),
        state: Seq::new(line_edge_count(count) as nat, |s: int| 0u32),
    }
}

/// The orthogonal neighbours of cell `idx` of a `rows x cols` grid that
/// exist, in the fixed enumeration order up, down, left, right.
pub open spec fn grid_cell_targets(rows: int, cols: int, idx: int) -> Seq<u32> {
    let r = idx / cols;
    let c = idx % cols;
    (if r > 0 {
        seq![(idx - cols) as u32]
    } else {
        Seq::<u32>::empty()
    }) + (if r + 1 < rows {
        seq![(idx + cols) as u32]
    } else {
        Seq::<u32>::empty()
    }) + (if c > 0 {
        seq![(idx - 1) as u32]
    } else {
        Seq::<u32>::empty()
    }) + (if c + 1 < cols {
        seq![(idx + 1) as u32]
    } else {
        Seq::<u32>::empty()
    })
}

/// The synapse targets of the first `idx` cells of a `rows x cols` grid,
/// concatenated in cell order (row-major).
pub open spec fn grid_receivers(rows: int, cols: int, idx: int) -> Seq<u32>
    decreases idx,
{
    if idx <= 0 {
        Seq::<u32>::empty()
    } else {
        grid_receivers(rows, cols, idx - 1) + grid_cell_targets(rows, cols, idx - 1)
    }
}

/// The state built by [`Model::grid`]: cell `(r, c)` is neuron `r * cols +
/// c` and connects to each existing orthogonal neighbour, all per-neuron
/// state at its default.
pub open spec fn grid_model(rows: int, cols: int) -> ModelGhost {
    let n = rows * cols;
    let all = grid_receivers(rows, cols, n);
    ModelGhost {
        v: Seq::new(n as nat, |i: int| 0u32),
        alpha: DEFAULT_ALPHA_BITS,
        v_th: Seq::new(n as nat, |i: int| DEFAULT_V_TH_BITS),
        v_reset: Seq::new(n as nat, |i: int| 0u32),
        refrac: Seq::new(n as nat, |i: int| 0u16),
        refrac_len: DEFAULT_REFRAC_LEN,
        spiked: Seq::new(n as nat, |i: int| false),
        out_offset: Seq::new((n + 1) as nat, |i: int| grid_receivers(rows, cols, i).len() as u32),
        receiver: all,
        weight: Seq::new(all.len(), |s: int| DEFAULT_SYNAPSE_WEIGHT_BITS),
        state: Seq::new(all.len(), |s: int| 0u32),
    }
}

/// A grid cell index lies below the cell count, and at or above `cols` when
/// its row is not the first.
proof fn lemma_grid_cell_index(rows: int, cols: int, r: int, c: int)
    requires
        0 <= r < rows,
        0 <= c < cols,
    ensures
        0 <= r * cols + c < rows * cols,
        r > 0 ==> r * cols + c >= cols,
        (r + 1) * cols == r * cols + cols,
{
    assert(0 <= r * cols + c < rows * cols) by (nonlinear_arith)
        requires
            0 <= r < rows,
            0 <= c < cols,
    ;
    assert(r > 0 ==> r * cols + c >= cols) by (nonlinear_arith)
        requires
            0 <= r,
            0 <= c < cols,
    ;
    assert((r + 1) * cols == r * cols + cols) by (nonlinear_arith);
}

/// Position of grid cell `j`: its row and column as division and remainder,
/// and the range of each neighbour that exists.
proof fn lemma_grid_cell_bounds(rows: int, cols: int, j: int)
    requires
        1 <= cols,
        1 <= rows,
        0 <= j < rows * cols,
    ensures
        0 <= j / cols < rows,
        0 <= j % cols < cols,
        j == cols * (j / cols) + (j % cols),
        j / cols > 0 ==> 0 <= j - cols < rows * cols,
        j / cols + 1 < rows ==> 0 <= j + cols < rows * cols,
        j % cols > 0 ==> 0 <= j - 1 < rows * cols,
        j % cols + 1 < cols ==> 0 <= j + 1 < rows * cols,
{
    vstd::arithmetic::div_mod::lemma_fundamental_div_mod(j, cols);
    vstd::arithmetic::div_mod::lemma_mod_bound(j, cols);
    let q = j / cols;
    let c = j % cols;
    assert(0 <= q < rows) by (nonlinear_arith)
        requires
            j == cols * q + c,
            0 <= c < cols,
            0 <= j < rows * cols,
            1 <= cols,
    ;
    assert(q > 0 ==> j - cols >= 0) by (nonlinear_arith)
        requires
            j == cols * q + c,
            0 <= c,
            1 <= cols,
    ;
    assert(q + 1 < rows ==> j + cols < rows * cols) by (nonlinear_arith)
        requires
            j == cols * q + c,
            0 <= c < cols,
            1 <= cols,
    ;
    assert(c + 1 < cols ==> j + 1 < rows * cols) by (nonlinear_arith)
        requires
            j == cols * q + c,
            0 <= c < cols,
            q < rows,
            1 <= cols,
    ;
}

/// Each grid cell has at most four targets, so the flat target list of the
/// first `idx` cells holds at most `4 * idx` entries.
proof fn lemma_grid_receivers_len(rows: int, cols: int, idx: int)
    requires
        0 <= idx,
    ensures
        grid_receivers(rows, cols, idx).len() <= 4 * idx,
    decreases idx,
{
    if idx > 0 {
        lemma_grid_receivers_len(rows, cols, idx - 1);
    }
}

/// Every target among the first `idx` cells of a grid is a valid neuron
/// index of that grid.
proof fn lemma_grid_receivers_in_range(rows: int, cols: int, idx: int)
    requires
        1 <= cols,
        1 <= rows,
        0 <= idx <= rows * cols,
        rows * cols <= u32::MAX,
    ensures
        forall|s: int|
            0 <= s < grid_receivers(rows, cols, idx).len() ==> (#[trigger] grid_receivers(
                rows,
                cols,
                idx,
            )[s] as int) < rows * cols,
    decreases idx,
{
    if idx > 0 {
        lemma_grid_receivers_in_range(rows, cols, idx - 1);
        lemma_grid_cell_bounds(rows, cols, idx - 1);
        let prefix = grid_receivers(rows, cols, idx - 1);
        let cell = grid_cell_targets(rows, cols, idx - 1);
        assert forall|k: int| 0 <= k < cell.len() implies (#[trigger] cell[k] as int) < rows
            * cols by {
            let j = idx - 1;
            let up = if j / cols > 0 {
                seq![(j - cols) as u32]
            } else {
                Seq::<u32>::empty()
            };
            let down = if j / cols + 1 < rows {
                seq![(j + cols) as u32]
            } else {
                Seq::<u32>::empty()
            };
            let left = if j % cols > 0 {
                seq![(j - 1) as u32]
            } else {
                Seq::<u32>::empty()
            };
            let right = if j % cols + 1 < cols {
                seq![(j + 1) as u32]
            } else {
                Seq::<u32>::empty()
            };
            assert(cell == up + down + left + right);
            if k < up.len() {
                assert(cell[k] == up[0]);
            } else if k < up.len() + down.len() {
                assert(cell[k] == down[0]);
            } else if k < up.len() + down.len() + left.len() {
                assert(cell[k] == left[0]);
            } else {
                assert(cell[k] == right[0]);
            }
        }
        assert forall|s: int|
            0 <= s < grid_receivers(rows, cols, idx).len() implies (#[trigger] grid_receivers(
            rows,
            cols,
            idx,
        )[s] as int) < rows * cols by {
            if s < prefix.len() {
                assert(grid_receivers(rows, cols, idx)[s] == prefix[s]);
            } else {
                assert(grid_receivers(rows, cols, idx)[s] == cell[s - prefix.len()]);
            }
        }
    }
}

impl Model {
    /// A network with zero neurons and zero synapses.
    pub fn empty() -> (m: Model)
        ensures
            m@ == empty_model(),
            m@.wf(),
    {
        let mut out_offset: Vec<u32> = Vec::new();
        out_offset.push(0);
        let m = Model {
            v: Vec::new(),
            alpha: DEFAULT_ALPHA_BITS,
            v_th: Vec::new(),
            v_reset: Vec::new(),
            refrac: Vec::new(),
            refrac_len: DEFAULT_REFRAC_LEN,
            spiked: Vec::new(),
            out_offset,
            receiver: Vec::new(),
            weight: Vec::new(),
            state: Vec::new(),
        };
        proof {
            assert(m@ =~= empty_model());
        }
        m
    }

    /// A 1-D chain `0 -> 1 -> ... -> (count - 1)`: every neuron but the last
    /// has exactly one outgoing synapse, to its successor, with the default
    /// weight; synapse order follows increasing source index.
    ///
    /// `neurons` is bounded so that every CSR entry fits the `u32` index
    /// space of the wiring.
    pub fn line(neurons: usize) -> (m: Model)
        requires
            neurons <= u32::MAX,
        ensures
            m@ == line_model(neurons as int),
            m@.wf(),
    {
        let ghost count = neurons as int;
        let mut out_offset: Vec<u32> = Vec::new();
        let mut receiver: Vec<u32> = Vec::new();
        let mut weight: Vec<u32> = Vec::new();
        let mut state: Vec<u32> = Vec::new();

        out_offset.push(0);
        assert(out_offset@ =~= Seq::new(1, |k: int| line_offset(count, k)));

        let mut i: usize = 0;
        while i < neurons
            invariant
                i <= neurons,
                neurons <= u32::MAX,
                count == neurons as int,
                receiver@ =~= Seq::new(line_offset(count, i as int) as nat, |s: int| (s + 1) as u32),
                weight@ =~= Seq::new(
                    line_offset(count, i as int) as nat,
                    |s: int| DEFAULT_SYNAPSE_WEIGHT_BITS,
                ),
                state@ =~= Seq::new(line_offset(count, i as int) as nat, |s: int| 0u32),
                out_offset@ =~= Seq::new((i + 1) as nat, |k: int| line_offset(count, k)),
            decreases neurons - i,
        {
            if i + 1 < neurons {
                receiver.push((i as u32) + 1);
                weight.push(DEFAULT_SYNAPSE_WEIGHT_BITS);
                state.push(0);
            }
            assert(receiver@.len() <= count);
            out_offset.push(receiver.len() as u32);
            i = i + 1;
            proof {
                assert(receiver@ =~= Seq::new(
                    line_offset(count, i as int) as nat,
                    |s: int| (s + 1) as u32,
                ));
                assert(weight@ =~= Seq::new(
                    line_offset(count, i as int) as nat,
                    |s: int| DEFAULT_SYNAPSE_WEIGHT_BITS,
                ));
                assert(state@ =~= Seq::new(line_offset(count, i as int) as nat, |s: int| 0u32));
                assert(out_offset@ =~= Seq::new((i + 1) as nat, |k: int| line_offset(count, k)));
            }
        }

        let m = Model {
            v: vec![0u32; neurons],
            alpha: DEFAULT_ALPHA_BITS,
            v_th: vec![DEFAULT_V_TH_BITS; neurons],
            v_reset: vec![0u32; neurons],
            refrac: vec![0u16; neurons],
            refrac_len: DEFAULT_REFRAC_LEN,
            spiked: vec![false; neurons],
            out_offset,
            receiver,
            weight,
            state,
        };
        proof {
            assert(m@ =~= line_model(count));
            assert(m@.wf());
        }
        m
    }

    /// A 2-D grid of `rows x cols` neurons; cell `(r, c)` is neuron `r *
    /// cols + c` and connects to each orthogonal neighbour that exists, in
    /// the order up, down, left, right, with the default weight.
    ///
    /// The cell count is bounded so that every CSR entry fits the `u32`
    /// index space of the wiring.
    #[verifier::rlimit(80)]
    pub fn grid(rows: usize, cols: usize) -> (m: Model)
        requires
            rows * cols < 0x4000_0000,
        ensures
            m@ == grid_model(rows as int, cols as int),
            m@.wf(),
    {
        let ghost ri = rows as int;
        let ghost ci = cols as int;
        let n = rows * cols;

        let mut out_offset: Vec<u32> = Vec::new();
        let mut receiver: Vec<u32> = Vec::new();
        let mut weight: Vec<u32> = Vec::new();
        let mut state: Vec<u32> = Vec::new();

        out_offset.push(0);
        assert(out_offset@ =~= Seq::new(1, |k: int| grid_receivers(ri, ci, k).len() as u32));

        let mut idx: usize = 0;
        let mut r: usize = 0;
        while r < rows
            invariant
                r <= rows,
                idx == r * cols,
                n == rows * cols,
                n < 0x4000_0000,
                ri == rows as int,
                ci == cols as int,
                receiver@ == grid_receivers(ri, ci, idx as int),
                weight@ =~= Seq::new(receiver@.len(), |s: int| DEFAULT_SYNAPSE_WEIGHT_BITS),
                state@ =~= Seq::new(receiver@.len(), |s: int| 0u32),
                out_offset@ =~= Seq::new(
                    (idx + 1) as nat,
                    |k: int| grid_receivers(ri, ci, k).len() as u32,
                ),
            decreases rows - r,
        {
            let mut c: usize = 0;
            while c < cols
                invariant
                    r < rows,
                    c <= cols,
                    idx == r * cols + c,
                    n == rows * cols,
                    n < 0x4000_0000,
                    ri == rows as int,
                    ci == cols as int,
                    receiver@ == grid_receivers(ri, ci, idx as int),
                    weight@ =~= Seq::new(receiver@.len(), |s: int| DEFAULT_SYNAPSE_WEIGHT_BITS),
                    state@ =~= Seq::new(receiver@.len(), |s: int| 0u32),
                    out_offset@ =~= Seq::new(
                        (idx + 1) as nat,
                        |k: int| grid_receivers(ri, ci, k).len() as u32,
                    ),
                decreases cols - c,
            {
                proof {
                    lemma_grid_cell_index(ri, ci, r as int, c as int);
                    vstd::arithmetic::div_mod::lemma_fundamental_div_mod_converse(
                        idx as int,
                        ci,
                        r as int,
                        c as int,
                    );
                    lemma_grid_cell_bounds(ri, ci, idx as int);
                    lemma_grid_receivers_len(ri, ci, idx as int);
                }

                // Up
                if r > 0 {
                    receiver.push((idx - cols) as u32);
                    weight.push(DEFAULT_SYNAPSE_WEIGHT_BITS);
                    state.push(0);
                }
                // Down
                if r + 1 < rows {
                    receiver.push((idx + cols) as u32);
                    weight.push(DEFAULT_SYNAPSE_WEIGHT_BITS);
                    state.push(0);
                }
                // Left
                if c > 0 {
                    receiver.push((idx - 1) as u32);
                    weight.push(DEFAULT_SYNAPSE_WEIGHT_BITS);
                    state.push(0);
                }
                // Right
                if c + 1 < cols {
                    receiver.push((idx + 1) as u32);
                    weight.push(DEFAULT_SYNAPSE_WEIGHT_BITS);
                    state.push(0);
                }

                proof {
                    assert(receiver@ =~= grid_receivers(ri, ci, idx as int) + grid_cell_targets(
                        ri,
                        ci,
                        idx as int,
                    ));
                    assert(receiver@ == grid_receivers(ri, ci, idx as int + 1));
                    assert(receiver@.len() <= 4 * (idx as int + 1) <= 4 * (ri * ci)) by {
                        lemma_grid_receivers_len(ri, ci, idx as int + 1);
                    }
                }
                out_offset.push(receiver.len() as u32);

                idx = idx + 1;
                c = c + 1;

                proof {
                    assert(weight@ =~= Seq::new(
                        receiver@.len(),
                        |s: int| DEFAULT_SYNAPSE_WEIGHT_BITS,
                    ));
                    assert(state@ =~= Seq::new(receiver@.len(), |s: int| 0u32));
                    assert(out_offset@ =~= Seq::new(
                        (idx + 1) as nat,
                        |k: int| grid_receivers(ri, ci, k).len() as u32,
                    ));
                }
            }
            r = r + 1;
            proof {
                assert(idx == (r - 1) * cols + cols);
                assert((r as int) * ci == (r - 1) * ci + ci) by (nonlinear_arith);
            }
        }

        let m = Model {
            v: vec![0u32; n],
            alpha: DEFAULT_ALPHA_BITS,
            v_th: vec![DEFAULT_V_TH_BITS; n],
            v_reset: vec![0u32; n],
            refrac: vec![0u16; n],
            refrac_len: DEFAULT_REFRAC_LEN,
            spiked: vec![false; n],
            out_offset,
            receiver,
            weight,
            state,
        };
        proof {
            assert(m@ =~= grid_model(ri, ci));
            lemma_grid_receivers_len(ri, ci, ri * ci);
            if rows >= 1 && cols >= 1 {
                lemma_grid_receivers_in_range(ri, ci, ri * ci);
            }
            assert forall|i: int| 0 <= i < m@.n() implies #[trigger] m@.out_offset[i]
                <= m@.out_offset[i + 1] by {
                lemma_grid_receivers_len(ri, ci, i + 1);
                assert(grid_receivers(ri, ci, i + 1) == grid_receivers(ri, ci, i)
                    + grid_cell_targets(ri, ci, i));
            }
            assert forall|s: int| 0 <= s < m@.e() implies (#[trigger] m@.receiver[s] as int)
                < m@.n() by {
                assert(m@.receiver[s] == grid_receivers(ri, ci, ri * ci)[s]);
            }
            assert(m@.wf());
        }
        m
    }

    /// Writes neuron `neuron`'s membrane potential (binary32 bits); rejects
    /// an index at or above the neuron count.
    pub fn set_charge(&mut self, neuron: u32, charge: u32) -> (r: Result<(), SnnError>)
        requires
            old(self)@.wf(),
        ensures
            final(self)@.wf(),
            (neuron as int) < old(self)@.n() ==> r == Ok::<(), SnnError>(()) && final(self)@
                == (ModelGhost { v: old(self)@.v.update(neuron as int, charge), ..old(self)@ }),
            (neuron as int) >= old(self)@.n() ==> r == Err::<(), SnnError>(
                SnnError::IndexOutOfRange,
            ) && final(self)@ == old(self)@,
    {
        if (neuron as usize) < self.v.len() {
            self.v.set(neuron as usize, charge);
            Ok(())
        } else {
            Err(SnnError::IndexOutOfRange)
        }
    }

    /// Reads neuron `neuron`'s membrane potential (binary32 bits); rejects
    /// an index at or above the neuron count.
    pub fn get_charge(&self, neuron: u32) -> (r: Result<u32, SnnError>)
        ensures
            (neuron as int) < self@.n() ==> r == Ok::<u32, SnnError>(self@.v[neuron as int]),
            (neuron as int) >= self@.n() ==> r == Err::<u32, SnnError>(SnnError::IndexOutOfRange),
    {
        if (neuron as usize) < self.v.len() {
            Ok(self.v[neuron as usize])
        } else {
            Err(SnnError::IndexOutOfRange)
        }
    }

    /// Advances the simulation by exactly one discrete step, in place: the
    /// four phases of [`step`] in their fixed order — resolve previous
    /// spikes / leak, advance refractory counters, deliver armed synapses,
    /// detect spikes and arm outgoing synapses.  Total and deterministic.
    #[verifier::rlimit(80)]
    pub fn tick(&mut self)
        requires
            old(self)@.wf(),
        ensures
            final(self)@ == step(old(self)@),
            final(self)@.wf(),
    {
        let ghost m0 = self@;
        let n = self.v.len();

        // Phase 1: resolve previous spikes, leak everyone else.
        let lf = sub_bits(ONE_BITS, self.alpha);
        let mut i: usize = 0;
        while i < n
            invariant
                m0.wf(),
                i <= n,
                n == m0.v.len(),
                lf == leak_factor(m0),
                self.alpha == m0.alpha,
                self.refrac_len == m0.refrac_len,
                self.v_th@ == m0.v_th,
                self.v_reset@ == m0.v_reset,
                self.out_offset@ == m0.out_offset,
                self.receiver@ == m0.receiver,
                self.weight@ == m0.weight,
                self.state@ == m0.state,
                self.v@.len() == n,
                self.refrac@.len() == n,
                self.spiked@.len() == n,
                forall|j: int| 0 <= j < i ==> #[trigger] self.v@[j] == phase_resolve(m0).v[j],
                forall|j: int|
                    0 <= j < i ==> #[trigger] self.refrac@[j] == phase_resolve(m0).refrac[j],
                forall|j: int|
                    0 <= j < i ==> #[trigger] self.spiked@[j] == phase_resolve(m0).spiked[j],
                forall|j: int| i <= j < n ==> #[trigger] self.v@[j] == m0.v[j],
                forall|j: int| i <= j < n ==> #[trigger] self.refrac@[j] == m0.refrac[j],
                forall|j: int| i <= j < n ==> #[trigger] self.spiked@[j] == m0.spiked[j],
            decreases n - i,
        {
            if self.spiked[i] {
                let reset = self.v_reset[i];
                self.v.set(i, reset);
                let rl = self.refrac_len;
                self.refrac.set(i, rl);
                self.spiked.set(i, false);
            } else {
                let nv = mul_bits(self.v[i], lf);
                self.v.set(i, nv);
            }
            i = i + 1;
        }
        proof {
            assert(self.v@ =~= phase_resolve(m0).v);
            assert(self.refrac@ =~= phase_resolve(m0).refrac);
            assert(self.spiked@ =~= phase_resolve(m0).spiked);
            assert(self@ =~= phase_resolve(m0));
        }

        // Phase 2: advance refractory counters, saturating at 0.
        let mut i: usize = 0;
        while i < n
            invariant
                m0.wf(),
                i <= n,
                n == m0.v.len(),
                self.alpha == m0.alpha,
                self.refrac_len == m0.refrac_len,
                self.v_th@ == m0.v_th,
                self.v_reset@ == m0.v_reset,
                self.out_offset@ == m0.out_offset,
                self.receiver@ == m0.receiver,
                self.weight@ == m0.weight,
                self.state@ == m0.state,
                self.v@ == phase_resolve(m0).v,
                self.spiked@ == phase_resolve(m0).spiked,
                self.refrac@.len() == n,
                forall|j: int|
                    0 <= j < i ==> #[trigger] self.refrac@[j] == phase_refrac(
                        phase_resolve(m0),
                    ).refrac[j],
                forall|j: int|
                    i <= j < n ==> #[trigger] self.refrac@[j] == phase_resolve(m0).refrac[j],
            decreases n - i,
        {
            let cur = self.refrac[i];
            self.refrac.set(i, cur.saturating_sub(1));
            i = i + 1;
        }
        proof {
            assert(self.refrac@ =~= phase_refrac(phase_resolve(m0)).refrac);
            assert(self@ =~= phase_refrac(phase_resolve(m0)));
        }

        // Phase 3: deliver armed synapses, in synapse index order.
        let e = self.state.len();
        let mut k: usize = 0;
        while k < e
            invariant
                m0.wf(),
                k <= e,
                n == m0.v.len(),
                e == m0.receiver.len(),
                self.alpha == m0.alpha,
                self.refrac_len == m0.refrac_len,
                self.v_th@ == m0.v_th,
                self.v_reset@ == m0.v_reset,
                self.out_offset@ == m0.out_offset,
                self.receiver@ == m0.receiver,
                self.weight@ == m0.weight,
                self.refrac@ == phase_refrac(phase_resolve(m0)).refrac,
                self.spiked@ == phase_resolve(m0).spiked,
                self.v@ == deliver_upto(phase_refrac(phase_resolve(m0)), k as int),
                self.v@.len() == n,
                self.state@.len() == e,
                forall|s: int|
                    0 <= s < k ==> #[trigger] self.state@[s] == (if m0.state[s] == 1 {
                        0u32
                    } else {
                        m0.state[s]
                    }),
                forall|s: int| k <= s < e ==> #[trigger] self.state@[s] == m0.state[s],
            decreases e - k,
        {
            if self.state[k] == 1 {
                let recv = self.receiver[k] as usize;
                let nv = add_bits(self.v[recv], self.weight[k]);
                self.v.set(recv, nv);
                self.state.set(k, 0);
            }
            k = k + 1;
            proof {
                assert(self.v@ == deliver_upto(phase_refrac(phase_resolve(m0)), k as int));
            }
        }
        proof {
            assert(self.state@ =~= phase_deliver(phase_refrac(phase_resolve(m0))).state);
            assert(self@ =~= phase_deliver(phase_refrac(phase_resolve(m0))));
        }

        // Phase 4: detect spikes and arm the firing neurons' synapses.
        let ghost m3 = phase_deliver(phase_refrac(phase_resolve(m0)));
        let mut i: usize = 0;
        while i < n
            invariant
                m0.wf(),
                i <= n,
                n == m0.v.len(),
                e == m0.receiver.len(),
                m3 == phase_deliver(phase_refrac(phase_resolve(m0))),
                m3.n() == n,
                self.alpha == m0.alpha,
                self.refrac_len == m0.refrac_len,
                self.v_th@ == m0.v_th,
                self.v_reset@ == m0.v_reset,
                self.out_offset@ == m0.out_offset,
                self.receiver@ == m0.receiver,
                self.weight@ == m0.weight,
                self.v@ == m3.v,
                self.refrac@ == m3.refrac,
                self.v@.len() == n,
                self.refrac@.len() == n,
                self.spiked@.len() == n,
                self.state@.len() == e,
                forall|j: int| 0 <= j < i ==> #[trigger] self.spiked@[j] == fires(m3, j),
                forall|j: int| i <= j < n ==> #[trigger] self.spiked@[j] == m3.spiked[j],
                forall|s: int|
                    0 <= s < e ==> #[trigger] self.state@[s] == arm_prefix(m3, i as int, s),
            decreases n - i,
        {
            let eligible = self.refrac[i] == 0;
            if eligible {
                let below = lt_bits(self.v[i], self.v_th[i]);
                if !below {
                    // This neuron fires.
                    assert(fires(m3, i as int));
                    self.spiked.set(i, true);
                    let start = self.out_offset[i] as usize;
                    let end = self.out_offset[i + 1] as usize;
                    proof {
                        lemma_offsets_ordered(m0, i as int + 1, m0.n());
                        assert(start <= end <= e);
                    }
                    let mut s = start;
                    while s < end
                        invariant
                            start <= s <= end,
                            end <= e,
                            self.state@.len() == e,
                            m0.wf(),
                            i < n,
                            n == m0.v.len(),
                            e == m0.receiver.len(),
                            m3 == phase_deliver(phase_refrac(phase_resolve(m0))),
                            m3.n() == n,
                            fires(m3, i as int),
                            start == m0.out_offset[i as int],
                            end == m0.out_offset[i as int + 1],
                            self.alpha == m0.alpha,
                            self.refrac_len == m0.refrac_len,
                            self.v_th@ == m0.v_th,
                            self.v_reset@ == m0.v_reset,
                            self.out_offset@ == m0.out_offset,
                            self.receiver@ == m0.receiver,
                            self.weight@ == m0.weight,
                            self.v@ == m3.v,
                            self.refrac@ == m3.refrac,
                            self.v@.len() == n,
                            self.refrac@.len() == n,
                            self.spiked@.len() == n,
                            self.spiked@[i as int] == true,
                            forall|j: int|
                                0 <= j < i ==> #[trigger] self.spiked@[j] == fires(m3, j),
                            forall|j: int|
                                i < j < n ==> #[trigger] self.spiked@[j] == m3.spiked[j],
                            forall|t: int|
                                0 <= t < e ==> #[trigger] self.state@[t] == (if start <= t < s {
                                    1u32
                                } else {
                                    arm_prefix(m3, i as int, t)
                                }),
                        decreases end - s,
                    {
                        self.state.set(s, 1);
                        s = s + 1;
                    }
                    proof {
                        assert forall|t: int| 0 <= t < e implies #[trigger] self.state@[t]
                            == arm_prefix(m3, i as int + 1, t) by {
                            if start <= t < end {
                                assert(covers(m3, i as int, t));
                            } else {
                                assert(!covers(m3, i as int, t));
                                assert(arm_prefix(m3, i as int + 1, t) == arm_prefix(
                                    m3,
                                    i as int,
                                    t,
                                ));
                            }
                        }
                    }
                } else {
                    proof {
                        assert(!fires(m3, i as int));
                        assert(m3.spiked[i as int] == false);
                        assert forall|t: int| 0 <= t < e implies #[trigger] self.state@[t]
                            == arm_prefix(m3, i as int + 1, t) by {
                            assert(arm_prefix(m3, i as int + 1, t) == arm_prefix(m3, i as int, t));
                        }
                    }
                }
            } else {
                proof {
                    assert(!fires(m3, i as int));
                    assert(m3.spiked[i as int] == false);
                    assert forall|t: int| 0 <= t < e implies #[trigger] self.state@[t]
                        == arm_prefix(m3, i as int + 1, t) by {
                        assert(arm_prefix(m3, i as int + 1, t) == arm_prefix(m3, i as int, t));
                    }
                }
            }
            i = i + 1;
        }
        proof {
            assert(self.spiked@ =~= phase_fire(m3).spiked);
            assert forall|s: int| 0 <= s < e implies self.state@[s] == phase_fire(m3).state[s] by {
                assert(arm_prefix(m3, n as int, s) == arm_prefix(m3, m3.n(), s));
            }
            assert(self.state@ =~= phase_fire(m3).state);
            assert(self@ =~= phase_fire(m3));
            lemma_step_preserves_wf(m0);
        }
    }

    /// Read-only view of the current membrane potentials (binary32 bits),
    /// one per neuron.
    pub fn neuron_vs(&self) -> (r: &Vec<u32>)
        ensures
            r@ == self@.v,
    {
        &self.v
    }

    /// Read-only view of the current arming flags, one per synapse.
    pub fn synapse_states(&self) -> (r: &Vec<u32>)
        ensures
            r@ == self@.state,
    {
        &self.state
    }

    /// Renders this model's wiring to an in-memory PNG through the external
    /// layout engine's `neato` layout; fails only when the engine cannot be
    /// run.
    pub fn to_neato_png(&self) -> (r: Result<Vec<u8>, SnnError>)
        requires
            self@.wf(),
        ensures
            r is Err ==> r == Err::<Vec<u8>, SnnError>(SnnError::LayoutEngineUnavailable),
    {
        crate::render::to_neato_png(self)
    }

    /// Read-only view of the CSR prefix array, of length neuron count + 1.
    pub fn out_offsets(&self) -> (r: &Vec<u32>)
        ensures
            r@ == self@.out_offset,
    {
        &self.out_offset
    }

    /// Read-only view of the synapse target array, one entry per synapse.
    pub fn receivers(&self) -> (r: &Vec<u32>)
        ensures
            r@ == self@.receiver,
    {
        &self.receiver
    }
}

/// Relates a model to its abstraction field by field, for the modules that
/// read the concrete arrays directly.
pub(crate) proof fn lemma_view_fields(m: &Model)
    ensures
        m@.v == m.v@,
        m@.alpha == m.alpha,
        m@.v_th == m.v_th@,
        m@.v_reset == m.v_reset@,
        m@.refrac == m.refrac@,
        m@.refrac_len == m.refrac_len,
        m@.spiked == m.spiked@,
        m@.out_offset == m.out_offset@,
        m@.receiver == m.receiver@,
        m@.weight == m.weight@,
        m@.state == m.state@,
{
}

impl Default for Model {
    /// The empty network.
    fn default() -> (m: Model)
        ensures
            m@ == empty_model(),
            m@.wf(),
    {
        Model::empty()
    }
}

} // verus!

