//! The outbound graph description handed to the external layout engine.
//!
//! The description is DOT text, built byte by byte: a fixed header asking
//! for the `neato` layout, one point-shaped node `n<i>` per neuron, and one
//! edge per synapse in CSR order (grouped by source neuron ascending, then
//! per-neuron insertion order).  [`dot_text`] is the exact specification of
//! the produced bytes.

use vstd::prelude::*;
use vstd::string::StringSliceAdditionalSpecFns;

use crate::sim::ModelGhost;
use crate::model::Model;
use crate::model::lemma_view_fields;

verus! {

/// The decimal digits of `x` without a leading zero (empty for 0).
pub open spec fn dec_digits(x: int) -> Seq<u8>
    decreases x,
{
    if x <= 0 {
        Seq::<u8>::empty()
    } else {
        dec_digits(x / 10).push((48 + x % 10) as u8)
    }
}

/// The decimal text of a non-negative number (`0` for 0).
pub open spec fn dec_repr(x: int) -> Seq<u8> {
    if x == 0 {
        seq![48u8]
    } else {
        dec_digits(x)
    }
}

/// The stable name of neuron `i`: the letter `n` followed by `i` in decimal.
pub open spec fn node_name(i: int) -> Seq<u8> {
    "n".spec_bytes() + dec_repr(i)
}

/// The node statement of neuron `i`.
pub open spec fn dot_node_line(i: int) -> Seq<u8> {
    node_name(i) + "[shape=point]\n".spec_bytes()
}

/// The edge statement of synapse `s`, owned by source neuron `i`.
pub open spec fn dot_edge_line(m: ModelGhost, i: int, s: int) -> Seq<u8> {
    node_name(i) + " -> ".spec_bytes() + node_name(m.receiver[s] as int)
        + "[dir=none]\n".spec_bytes()
}

/// The edge statements of neuron `i` from synapse `s` up to the end of its
/// CSR range, in synapse order.
pub open spec fn dot_edges_from(m: ModelGhost, i: int, s: int) -> Seq<u8>
    decreases m.out_offset[i + 1] - s,
{
    if s < m.out_offset[i + 1] {
        dot_edge_line(m, i, s) + dot_edges_from(m, i, s + 1)
    } else {
        Seq::<u8>::empty()
    }
}

/// The statements of the first `i` neurons: each node line followed by the
/// edge lines of its outgoing synapses.
pub open spec fn dot_nodes_upto(m: ModelGhost, i: int) -> Seq<u8>
    decreases i,
{
    if i <= 0 {
        Seq::<u8>::empty()
    } else {
        dot_nodes_upto(m, i - 1) + dot_node_line(i - 1) + dot_edges_from(
            m,
            i - 1,
            m.out_offset[i - 1] as int,
        )
    }
}

/// The fixed opening of the description: a directed graph laid out by the
/// `neato` engine with straight-line edges.
pub open spec fn dot_header() -> Seq<u8> {
    "digraph model {\ngraph[layout=neato,overlap=false,splines=line,mode=sgd]\n".spec_bytes()
}

/// The whole DOT description of a network's wiring.
pub open spec fn dot_text(m: ModelGhost) -> Seq<u8> {
    dot_header() + dot_nodes_upto(m, m.n()) + "}\n".spec_bytes()
}

/// Appends the bytes of `s` to `buf`.
fn push_str_bytes(buf: &mut Vec<u8>, s: &str)
    ensures
        final(buf)@ == old(buf)@ + s.spec_bytes(),
{
    let bytes = s.as_bytes();
    let mut k: usize = 0;
    while k < bytes.len()
        invariant
            k <= bytes@.len(),
            bytes@ == s.spec_bytes(),
            buf@ == old(buf)@ + bytes@.subrange(0, k as int),
        decreases bytes@.len() - k,
    {
        buf.push(bytes[k]);
        proof {
            assert(buf@ =~= old(buf)@ + bytes@.subrange(0, k as int + 1));
        }
        k = k + 1;
    }
    proof {
        assert(buf@ =~= old(buf)@ + s.spec_bytes());
    }
}

/// Appends the decimal digits of `x > 0` to `buf` (nothing for 0).
fn push_dec_digits(buf: &mut Vec<u8>, x: u64)
    ensures
        final(buf)@ == old(buf)@ + dec_digits(x as int),
    decreases x,
{
    if x == 0 {
        proof {
            assert(buf@ =~= old(buf)@ + dec_digits(0));
        }
        return ;
    }
    proof {
        assert(x as int / 10 < x as int) by (nonlinear_arith)
            requires
                x >= 1,
        ;
    }
    push_dec_digits(buf, x / 10);
    buf.push(48 + (x % 10) as u8);
    proof {
        assert(buf@ =~= old(buf)@ + dec_digits(x as int));
    }
}

/// Appends the decimal text of `x` to `buf`.
fn push_dec(buf: &mut Vec<u8>, x: u64)
    ensures
        final(buf)@ == old(buf)@ + dec_repr(x as int),
{
    if x == 0 {
        buf.push(48);
        proof {
            assert(buf@ =~= old(buf)@ + dec_repr(0));
        }
    } else {
        push_dec_digits(buf, x);
    }
}

/// Appends the name `n<i>` of neuron `i` to `buf`.
fn push_node_name(buf: &mut Vec<u8>, i: u64)
    ensures
        final(buf)@ == old(buf)@ + node_name(i as int),
{
    push_str_bytes(buf, "n");
    push_dec(buf, i);
    proof {
        assert(buf@ =~= old(buf)@ + node_name(i as int));
    }
}

/// Builds the DOT description of the model's wiring, exactly [`dot_text`]:
/// the fixed header, one node per neuron, one edge per synapse in CSR
/// order.
pub fn dot_description(model: &Model) -> (r: Vec<u8>)
    requires
        model@.wf(),
    ensures
        r@ == dot_text(model@),
{
    proof {
        lemma_view_fields(model);
    }
    let mut buf: Vec<u8> = Vec::new();
    push_str_bytes(
        &mut buf,
        "digraph model {\ngraph[layout=neato,overlap=false,splines=line,mode=sgd]\n",
    );
    proof {
        assert(buf@ =~= dot_header() + dot_nodes_upto(model@, 0));
    }

    let n = model.v.len();
    let mut i: usize = 0;
    while i < n
        invariant
            model@.wf(),
            i <= n,
            n == model@.n(),
            model.out_offset@ == model@.out_offset,
            model.receiver@ == model@.receiver,
            buf@ == dot_header() + dot_nodes_upto(model@, i as int),
        decreases n - i,
    {
        push_node_name(&mut buf, i as u64);
        push_str_bytes(&mut buf, "[shape=point]\n");
        proof {
            assert(buf@ =~= dot_header() + dot_nodes_upto(model@, i as int) + dot_node_line(
                i as int,
            ));
        }

        let start = model.out_offset[i] as usize;
        let end = model.out_offset[i + 1] as usize;
        proof {
            crate::sim::lemma_offsets_ordered(model@, i as int + 1, model@.n());
        }
        let mut s = start;
        while s < end
            invariant
                model@.wf(),
                i < n,
                n == model@.n(),
                start == model@.out_offset[i as int],
                end == model@.out_offset[i as int + 1],
                end <= model@.e(),
                start <= s <= end,
                model.out_offset@ == model@.out_offset,
                model.receiver@ == model@.receiver,
                buf@ + dot_edges_from(model@, i as int, s as int) == dot_header()
                    + dot_nodes_upto(model@, i as int) + dot_node_line(i as int) + dot_edges_from(
                    model@,
                    i as int,
                    start as int,
                ),
            decreases end - s,
        {
            push_node_name(&mut buf, i as u64);
            push_str_bytes(&mut buf, " -> ");
            push_node_name(&mut buf, model.receiver[s] as u64);
            push_str_bytes(&mut buf, "[dir=none]\n");
            proof {
                assert(buf@ + dot_edges_from(model@, i as int, s as int + 1) =~= dot_header()
                    + dot_nodes_upto(model@, i as int) + dot_node_line(i as int) + dot_edges_from(
                    model@,
                    i as int,
                    start as int,
                ));
            }
            s = s + 1;
        }
        i = i + 1;
        proof {
            assert(buf@ =~= dot_header() + dot_nodes_upto(model@, i as int));
        }
    }
    push_str_bytes(&mut buf, "}\n");
    proof {
        assert(buf@ =~= dot_text(model@));
    }
    buf
}

} // verus!
