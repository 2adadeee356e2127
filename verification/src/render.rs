//! 2-D geometry for drawing a network.
//!
//! The adapter hands the wiring to an external graph-layout engine as DOT
//! text, asks for a plain-text position report, and parses that report into
//! one centre/radius per neuron; each synapse's endpoints are then derived
//! from its two neurons' centres, in CSR order.  When the engine cannot be
//! run, every neuron keeps the origin position and every synapse becomes a
//! zero-length segment — the adapter never fails.

use vstd::prelude::*;

use graphviz_rust::cmd::{CommandArg, Format};

use crate::dot::dot_description;
use crate::model::{Model, SnnError, lemma_view_fields};
use crate::report::{neuron_positions_from_report, spec_neuron_positions, zero_position};
use crate::sim::{ModelGhost, lemma_offsets_ordered};

verus! {

/// Centre and radius of one neuron on screen (binary32 bits).
#[derive(Clone, Copy, Debug, PartialEq, Eq)]
pub struct NeuronPosition {
    /// Centre coordinates `(x, y)` (binary32 bits).
    pub center: (u32, u32),
    /// Half the larger of the node's width and height (binary32 bits).
    pub radius: u32,
}

/// The two endpoints of one synapse on screen (binary32 bits).
#[derive(Clone, Copy, Debug, PartialEq, Eq)]
pub struct SynapsePosition {
    /// The source neuron's centre.
    pub end1: (u32, u32),
    /// The target neuron's centre.
    pub end2: (u32, u32),
}

/// A synapse whose both endpoints sit at the origin.
pub open spec fn zero_segment() -> SynapsePosition {
    SynapsePosition { end1: (0u32, 0u32), end2: (0u32, 0u32) }
}

/// The output format asked of the layout engine.
enum EngineFormat {
    /// The plain-text position report.
    Plain,
    /// A rendered PNG image.
    Png,
}

/// The endpoint pairs of the synapses of neuron `i`, in synapse order: the
/// source's centre and the target's centre (the origin for a target outside
/// the table).
pub open spec fn syn_segment(m: ModelGhost, pos: Seq<NeuronPosition>, i: int) -> Seq<
    SynapsePosition,
> {
    Seq::new(
        (m.out_offset[i + 1] - m.out_offset[i]) as nat,
        |k: int|
            SynapsePosition {
                end1: pos[i].center,
                end2: if (m.receiver[m.out_offset[i] + k] as int) < pos.len() {
                    pos[m.receiver[m.out_offset[i] + k] as int].center
                } else {
                    (0u32, 0u32)
                },
            },
    )
}

/// The endpoint pairs of the synapses of the first `i` neurons, in CSR
/// order.
pub open spec fn syn_positions_upto(m: ModelGhost, pos: Seq<NeuronPosition>, i: int) -> Seq<
    SynapsePosition,
>
    decreases i,
{
    if i <= 0 {
        Seq::<SynapsePosition>::empty()
    } else {
        syn_positions_upto(m, pos, i - 1) + syn_segment(m, pos, i - 1)
    }
}

/// The endpoint pairs of every synapse, in CSR order, derived from the
/// neuron position table `pos`.
pub open spec fn spec_synapse_positions(m: ModelGhost, pos: Seq<NeuronPosition>) -> Seq<
    SynapsePosition,
> {
    syn_positions_upto(m, pos, m.n())
}

/// The synapses of the first `i` neurons are exactly the first
/// `out_offset[i]` synapses.
proof fn lemma_syn_upto_len(m: ModelGhost, pos: Seq<NeuronPosition>, i: int)
    requires
        m.wf(),
        0 <= i <= m.n(),
    ensures
        syn_positions_upto(m, pos, i).len() == m.out_offset[i],
    decreases i,
{
    if i > 0 {
        lemma_syn_upto_len(m, pos, i - 1);
    }
}

/// Over an all-origin position table, every derived synapse is a
/// zero-length segment at the origin.
proof fn lemma_syn_zero(m: ModelGhost, pos: Seq<NeuronPosition>, i: int)
    requires
        m.wf(),
        pos.len() == m.n(),
        forall|j: int| 0 <= j < pos.len() ==> pos[j] == zero_position(),
        0 <= i <= m.n(),
    ensures
        forall|s: int|
            0 <= s < syn_positions_upto(m, pos, i).len() ==> #[trigger] syn_positions_upto(
                m,
                pos,
                i,
            )[s] == zero_segment(),
    decreases i,
{
    if i > 0 {
        lemma_syn_zero(m, pos, i - 1);
        let prefix = syn_positions_upto(m, pos, i - 1);
        let cell = syn_segment(m, pos, i - 1);
        assert forall|s: int|
            0 <= s < syn_positions_upto(m, pos, i).len() implies #[trigger] syn_positions_upto(
            m,
            pos,
            i,
        )[s] == zero_segment() by {
            if s < prefix.len() {
                assert(syn_positions_upto(m, pos, i)[s] == prefix[s]);
            } else {
                assert(syn_positions_upto(m, pos, i)[s] == cell[s - prefix.len()]);
            }
        }
    }
}

/// Derives the endpoint pair of every synapse from the neuron position
/// table, in CSR order, exactly [`spec_synapse_positions`].
pub fn synapse_positions_for(model: &Model, pos: &Vec<NeuronPosition>) -> (r: Vec<SynapsePosition>)
    requires
        model@.wf(),
        pos@.len() == model@.n(),
    ensures
        r@ == spec_synapse_positions(model@, pos@),
        r@.len() == model@.e(),
{
    proof {
        lemma_view_fields(model);
    }
    let n = model.v.len();
    let mut out: Vec<SynapsePosition> = Vec::new();
    let mut i: usize = 0;
    while i < n
        invariant
            model@.wf(),
            pos@.len() == model@.n(),
            i <= n,
            n == model@.n(),
            model.out_offset@ == model@.out_offset,
            model.receiver@ == model@.receiver,
            out@ == syn_positions_upto(model@, pos@, i as int),
        decreases n - i,
    {
        let src_pos = pos[i];
        let start = model.out_offset[i] as usize;
        let end = model.out_offset[i + 1] as usize;
        proof {
            lemma_offsets_ordered(model@, i as int + 1, model@.n());
        }
        let mut k = start;
        while k < end
            invariant
                model@.wf(),
                pos@.len() == model@.n(),
                i < n,
                n == model@.n(),
                start == model@.out_offset[i as int],
                end == model@.out_offset[i as int + 1],
                end <= model@.e(),
                start <= k <= end,
                src_pos == pos@[i as int],
                model.out_offset@ == model@.out_offset,
                model.receiver@ == model@.receiver,
                out@ == syn_positions_upto(model@, pos@, i as int) + syn_segment(
                    model@,
                    pos@,
                    i as int,
                ).subrange(0, k - start),
            decreases end - k,
        {
            let tgt = model.receiver[k] as usize;
            let tgt_pos = if tgt < pos.len() {
                pos[tgt].center
            } else {
                (0u32, 0u32)
            };
            out.push(SynapsePosition { end1: src_pos.center, end2: tgt_pos });
            k = k + 1;
            proof {
                assert(out@ =~= syn_positions_upto(model@, pos@, i as int) + syn_segment(
                    model@,
                    pos@,
                    i as int,
                ).subrange(0, k - start));
            }
        }
        i = i + 1;
        proof {
            assert(syn_segment(model@, pos@, i as int - 1).subrange(0, end - start) =~= syn_segment(
                model@,
                pos@,
                i as int - 1,
            ));
            assert(out@ =~= syn_positions_upto(model@, pos@, i as int));
        }
    }
    proof {
        lemma_syn_upto_len(model@, pos@, model@.n());
    }
    out
}

/// Relies on `graphviz_rust::exec_dot`: writes the DOT text to a temporary
/// file and runs the Graphviz `dot` executable on it with the requested
/// output format, returning its standard output on success and `None` when
/// the executable cannot be run or reports failure.  The outcome depends on
/// the machine, so nothing is promised of it.
#[verifier::external_body]
fn run_engine(dot: &[u8], fmt: EngineFormat) -> (r: Option<Vec<u8>>) {
    let text = String::from_utf8_lossy(dot).to_string();
    let format = match fmt {
        EngineFormat::Plain => Format::Plain,
        EngineFormat::Png => Format::Png,
    };
    graphviz_rust::exec_dot(text, vec![CommandArg::Format(format)]).ok()
}

/// Turns an engine position report — or its absence — into render geometry:
/// one centre/radius per neuron, parsed from the report (`None`, or any
/// unparsed line, leaves the origin position), and one endpoint pair per
/// synapse derived from the centres in CSR order.
pub fn layout_from_report(model: &Model, report: Option<&Vec<u8>>) -> (r: (
    Vec<NeuronPosition>,
    Vec<SynapsePosition>,
))
    requires
        model@.wf(),
    ensures
        r.0@.len() == model@.n(),
        r.1@.len() == model@.e(),
        (match report {
            Some(text) => r.0@ == spec_neuron_positions(model@.n() as nat, text@),
            None => r.0@ == Seq::new(model@.n() as nat, |i: int| zero_position()),
        }),
        r.1@ == spec_synapse_positions(model@, r.0@),
        report is None ==> forall|i: int| 0 <= i < r.0@.len() ==> r.0@[i] == zero_position(),
        report is None ==> forall|s: int| 0 <= s < r.1@.len() ==> r.1@[s] == zero_segment(),
{
    proof {
        lemma_view_fields(model);
    }
    let n = model.v.len();
    let pos = match report {
        Some(text) => neuron_positions_from_report(n, text),
        None => {
            let z: Vec<NeuronPosition> = vec![NeuronPosition { center: (0u32, 0u32), radius: 0u32 }; n];
            proof {
                assert(z@ =~= Seq::new(n as nat, |i: int| zero_position()));
            }
            z
        },
    };
    let syn = synapse_positions_for(model, &pos);
    proof {
        if report is None {
            lemma_syn_zero(model@, pos@, model@.n());
        }
    }
    (pos, syn)
}

/// Maps the model's wiring to 2-D coordinates: builds the DOT description,
/// asks the external engine for a plain position report, and parses it.  On
/// any engine failure every neuron keeps the origin position and every
/// synapse is a zero-length segment; the synapse endpoints always come from
/// the returned neuron centres, in CSR order.
pub fn layout_graph(model: &Model) -> (r: (Vec<NeuronPosition>, Vec<SynapsePosition>))
    requires
        model@.wf(),
    ensures
        r.0@.len() == model@.n(),
        r.1@.len() == model@.e(),
        r.1@ == spec_synapse_positions(model@, r.0@),
{
    let dot = dot_description(model);
    let rep = run_engine(dot.as_slice(), EngineFormat::Plain);
    match rep {
        Some(text) => layout_from_report(model, Some(&text)),
        None => layout_from_report(model, None),
    }
}

/// Renders the model's wiring to a PNG through the external engine's
/// `neato` layout; fails only when the engine cannot be run.
pub fn to_neato_png(model: &Model) -> (r: Result<Vec<u8>, SnnError>)
    requires
        model@.wf(),
    ensures
        r is Err ==> r == Err::<Vec<u8>, SnnError>(SnnError::LayoutEngineUnavailable),
{
    let dot = dot_description(model);
    match run_engine(dot.as_slice(), EngineFormat::Png) {
        Some(bytes) => Ok(bytes),
        None => Err(SnnError::LayoutEngineUnavailable),
    }
}

} // verus!
