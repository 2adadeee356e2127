//! Parsing of the layout engine's plain-text position report.
//!
//! The report holds one line per node, `node <name> <x> <y> <width>
//! <height> ...`, whitespace-delimited, the name matching `n<digits>`;
//! fields beyond the first five after the keyword are ignored.  A line that
//! does not have this shape is skipped, and the neuron keeps its previous
//! position.  [`spec_neuron_positions`] is the exact specification of the
//! whole parse.

use vstd::prelude::*;
use vstd::string::StringSliceAdditionalSpecFns;

use crate::fbits::{f32_mul, f32_max, f32_of_text, parse_f32_bits, mul_bits, max_bits, HALF_BITS};
use crate::model::SnnError;
use crate::render::NeuronPosition;

verus! {

/// Whether `b` is a token separator: space, tab or carriage return (lines
/// themselves are split at line feeds).
pub open spec fn is_ws(b: u8) -> bool {
    b == 32 || b == 9 || b == 13
}

/// Whether `b` is a decimal digit.
pub open spec fn is_digit(b: u8) -> bool {
    48 <= b <= 57
}

/// Whether every byte of `s` is a decimal digit.
pub open spec fn all_digits(s: Seq<u8>) -> bool {
    forall|k: int| 0 <= k < s.len() ==> is_digit(#[trigger] s[k])
}

/// The value of a string of decimal digits.
pub open spec fn dec_value(s: Seq<u8>) -> int
    decreases s.len(),
{
    if s.len() == 0 {
        0
    } else {
        dec_value(s.drop_last()) * 10 + (s.last() - 48)
    }
}

/// The first position at or after `i` that ends the word there: the end of
/// the line or the next separator.
pub open spec fn word_end(line: Seq<u8>, i: int) -> int
    decreases line.len() - i,
{
    if i < 0 || i >= line.len() {
        i
    } else if is_ws(line[i]) {
        i
    } else {
        word_end(line, i + 1)
    }
}

/// The end of a word lies between its start and the end of the line.
proof fn lemma_word_end(line: Seq<u8>, i: int)
    requires
        0 <= i <= line.len(),
    ensures
        i <= word_end(line, i) <= line.len(),
    decreases line.len() - i,
{
    if i < line.len() && !is_ws(line[i]) {
        lemma_word_end(line, i + 1);
    }
}

/// The whitespace-separated tokens of `line` from position `i` on.
pub open spec fn tokens_from(line: Seq<u8>, i: int) -> Seq<Seq<u8>>
    decreases line.len() - i,
    via tokens_from_dec
{
    if i < 0 || i >= line.len() {
        Seq::<Seq<u8>>::empty()
    } else if is_ws(line[i]) {
        tokens_from(line, i + 1)
    } else {
        seq![line.subrange(i, word_end(line, i))] + tokens_from(line, word_end(line, i))
    }
}

#[via_fn]
proof fn tokens_from_dec(line: Seq<u8>, i: int) {
    if 0 <= i < line.len() && !is_ws(line[i]) {
        lemma_word_end(line, i + 1);
        assert(word_end(line, i) == word_end(line, i + 1));
    }
}

/// A parsed `node` line: the neuron index and the four numbers as binary32
/// bit patterns.
#[derive(Clone, Copy, Debug, PartialEq, Eq, Structural)]
pub struct ParsedNode {
    /// The number after the leading `n` of the node name.
    pub index: usize,
    /// Centre x coordinate (binary32 bits).
    pub x: u32,
    /// Centre y coordinate (binary32 bits).
    pub y: u32,
    /// Node width (binary32 bits).
    pub w: u32,
    /// Node height (binary32 bits).
    pub h: u32,
}

/// The neuron index denoted by a node name token: the letter `n` followed
/// by one or more decimal digits whose value fits a `usize`.
pub open spec fn spec_node_index(tok: Seq<u8>) -> Option<usize> {
    if tok.len() >= 2 && tok[0] == 110 && all_digits(tok.subrange(1, tok.len() as int))
        && dec_value(tok.subrange(1, tok.len() as int)) <= usize::MAX {
        Some(dec_value(tok.subrange(1, tok.len() as int)) as usize)
    } else {
        None
    }
}

/// What a report line denotes: `Some` exactly when its first six tokens are
/// the keyword `node`, a well-formed node name, and four numbers.
pub open spec fn spec_node_line(line: Seq<u8>) -> Option<ParsedNode> {
    let toks = tokens_from(line, 0);
    if toks.len() >= 6 && toks[0] == "node".spec_bytes() {
        match (
            spec_node_index(toks[1]),
            f32_of_text(toks[2]),
            f32_of_text(toks[3]),
            f32_of_text(toks[4]),
            f32_of_text(toks[5]),
        ) {
            (Some(index), Some(x), Some(y), Some(w), Some(h)) => Some(
                ParsedNode { index, x, y, w, h },
            ),
            _ => None,
        }
    } else {
        None
    }
}

/// The position every neuron starts from: the origin with radius zero.
pub open spec fn zero_position() -> NeuronPosition {
    NeuronPosition { center: (0u32, 0u32), radius: 0u32 }
}

/// The effect of one report line on the position table: a well-formed
/// `node` line for an in-range neuron replaces its entry (the radius is
/// half the larger of width and height); every other line changes nothing.
pub open spec fn apply_report_line(pos: Seq<NeuronPosition>, line: Seq<u8>) -> Seq<
    NeuronPosition,
> {
    match spec_node_line(line) {
        Some(p) => {
            if (p.index as int) < pos.len() {
                pos.update(
                    p.index as int,
                    NeuronPosition {
                        center: (p.x, p.y),
                        radius: f32_mul(f32_max(p.w, p.h), HALF_BITS),
                    },
                )
            } else {
                pos
            }
        },
        None => pos,
    }
}

/// The first position at or after `i` that ends the line there: the end of
/// the text or the next line feed.
pub open spec fn line_end(text: Seq<u8>, i: int) -> int
    decreases text.len() - i,
{
    if i < 0 || i >= text.len() {
        i
    } else if text[i] == 10 {
        i
    } else {
        line_end(text, i + 1)
    }
}

/// The end of a line lies between its start and the end of the text.
proof fn lemma_line_end(text: Seq<u8>, i: int)
    requires
        0 <= i <= text.len(),
    ensures
        i <= line_end(text, i) <= text.len(),
    decreases text.len() - i,
{
    if i < text.len() && text[i] != 10 {
        lemma_line_end(text, i + 1);
    }
}

/// The position table after every line of `text` from position `i` on has
/// been applied in order.
pub open spec fn positions_from(pos: Seq<NeuronPosition>, text: Seq<u8>, i: int) -> Seq<
    NeuronPosition,
>
    decreases text.len() - i + 1,
    via positions_from_dec
{
    if i < 0 || i >= text.len() {
        pos
    } else {
        positions_from(
            apply_report_line(pos, text.subrange(i, line_end(text, i))),
            text,
            line_end(text, i) + 1,
        )
    }
}

#[via_fn]
proof fn positions_from_dec(pos: Seq<NeuronPosition>, text: Seq<u8>, i: int) {
    if 0 <= i < text.len() {
        lemma_line_end(text, i);
    }
}

/// The position of each of `n` neurons after the whole report `text` has
/// been parsed: every neuron starts at the origin with radius zero, and
/// each well-formed `node` line replaces one entry.
pub open spec fn spec_neuron_positions(n: nat, text: Seq<u8>) -> Seq<NeuronPosition> {
    positions_from(Seq::new(n, |i: int| zero_position()), text, 0)
}

/// Whether two byte strings hold the same bytes.
fn bytes_eq(a: &[u8], b: &[u8]) -> (r: bool)
    ensures
        r == (a@ == b@),
{
    if a.len() != b.len() {
        return false;
    }
    let mut k: usize = 0;
    while k < a.len()
        invariant
            k <= a@.len(),
            a@.len() == b@.len(),
            forall|j: int| 0 <= j < k ==> a@[j] == b@[j],
        decreases a@.len() - k,
    {
        if a[k] != b[k] {
            return false;
        }
        k = k + 1;
    }
    proof {
        assert(a@ =~= b@);
    }
    true
}

/// The next whitespace-separated token of `line` at or after `i`, as its
/// half-open byte range, or `None` when only separators remain.
fn next_token(line: &[u8], i: usize) -> (r: Option<(usize, usize)>)
    requires
        i <= line@.len(),
    ensures
        match r {
            Some(t) => {
                &&& i <= t.0 < t.1 <= line@.len()
                &&& tokens_from(line@, i as int) == seq![
                    line@.subrange(t.0 as int, t.1 as int),
                ] + tokens_from(line@, t.1 as int)
            },
            None => tokens_from(line@, i as int) == Seq::<Seq<u8>>::empty(),
        },
{
    let mut j = i;
    while j < line.len() && (line[j] == 32 || line[j] == 9 || line[j] == 13)
        invariant
            i <= j <= line@.len(),
            tokens_from(line@, i as int) == tokens_from(line@, j as int),
        decreases line@.len() - j,
    {
        j = j + 1;
        proof {
            assert(tokens_from(line@, j as int - 1) == tokens_from(line@, j as int));
        }
    }
    if j == line.len() {
        return None;
    }
    let a = j;
    let mut b = j;
    while b < line.len() && !(line[b] == 32 || line[b] == 9 || line[b] == 13)
        invariant
            a <= b <= line@.len(),
            word_end(line@, a as int) == word_end(line@, b as int),
            !is_ws(line@[a as int]),
            a < line@.len(),
        decreases line@.len() - b,
    {
        b = b + 1;
        proof {
            assert(word_end(line@, b as int - 1) == word_end(line@, b as int));
        }
    }
    proof {
        assert(word_end(line@, b as int) == b as int);
        assert(tokens_from(line@, a as int) == seq![
            line@.subrange(a as int, word_end(line@, a as int)),
        ] + tokens_from(line@, word_end(line@, a as int)));
        lemma_word_end(line@, a as int);
    }
    Some((a, b))
}

/// Parses a node name token `n<digits>` into the neuron index it denotes.
fn parse_index_token(tok: &[u8]) -> (r: Option<usize>)
    ensures
        r == spec_node_index(tok@),
{
    if tok.len() < 2 {
        return None;
    }
    if tok[0] != 110 {
        return None;
    }
    let ghost tail = tok@.subrange(1, tok@.len() as int);
    let mut acc: u128 = 0;
    let mut k: usize = 1;
    while k < tok.len()
        invariant
            1 <= k <= tok@.len(),
            tok@.len() >= 2,
            tok@[0] == 110,
            tail == tok@.subrange(1, tok@.len() as int),
            all_digits(tok@.subrange(1, k as int)),
            acc == dec_value(tok@.subrange(1, k as int)),
            acc <= usize::MAX,
        decreases tok@.len() - k,
    {
        let d = tok[k];
        if d < 48 || d > 57 {
            proof {
                assert(tail[k as int - 1] == tok@[k as int]);
                assert(!all_digits(tail));
            }
            return None;
        }
        let newacc: u128 = acc * 10 + (d - 48) as u128;
        proof {
            assert(tok@.subrange(1, k as int + 1).drop_last() =~= tok@.subrange(1, k as int));
            assert(tok@.subrange(1, k as int + 1).last() == tok@[k as int]);
            assert(newacc == dec_value(tok@.subrange(1, k as int + 1)));
        }
        if newacc > usize::MAX as u128 {
            proof {
                if all_digits(tail) {
                    lemma_dec_value_prefix_le(tail, k as int);
                    assert(tail.subrange(0, k as int) =~= tok@.subrange(1, k as int + 1));
                }
            }
            return None;
        }
        acc = newacc;
        k = k + 1;
        proof {
            assert(all_digits(tok@.subrange(1, k as int)));
        }
    }
    proof {
        assert(tok@.subrange(1, k as int) =~= tail);
    }
    Some(acc as usize)
}

/// The value of a digit string is at least the value of any of its
/// prefixes.
proof fn lemma_dec_value_prefix_le(s: Seq<u8>, k: int)
    requires
        all_digits(s),
        0 <= k <= s.len(),
    ensures
        dec_value(s.subrange(0, k)) <= dec_value(s),
    decreases s.len() - k,
{
    if k < s.len() {
        lemma_dec_value_prefix_le(s, k + 1);
        assert(s.subrange(0, k + 1).drop_last() =~= s.subrange(0, k));
        assert(s.subrange(0, k + 1).last() == s[k]);
        lemma_dec_value_nonneg(s.subrange(0, k));
    } else {
        assert(s.subrange(0, k) =~= s);
    }
}

/// A digit string's value is never negative.
proof fn lemma_dec_value_nonneg(s: Seq<u8>)
    requires
        all_digits(s),
    ensures
        dec_value(s) >= 0,
    decreases s.len(),
{
    if s.len() > 0 {
        assert(all_digits(s.drop_last())) by {
            assert(forall|j: int| 0 <= j < s.len() - 1 ==> s.drop_last()[j] == s[j]);
        }
        lemma_dec_value_nonneg(s.drop_last());
    }
}

/// Parses one report line; a line that does not have the shape `node <id>
/// <x> <y> <w> <h>` is rejected as [`SnnError::MalformedPositionLine`].
pub fn parse_node_line(line: &[u8]) -> (r: Result<ParsedNode, SnnError>)
    ensures
        (match spec_node_line(line@) {
            Some(p) => r == Ok::<ParsedNode, SnnError>(p),
            None => r == Err::<ParsedNode, SnnError>(SnnError::MalformedPositionLine),
        }),
{
    let ghost toks = tokens_from(line@, 0);
    let t0 = match next_token(line, 0) {
        Some(t) => t,
        None => {
            return Err(SnnError::MalformedPositionLine);
        },
    };
    if !bytes_eq(&line[t0.0..t0.1], "node".as_bytes()) {
        proof {
            assert(toks[0] != "node".spec_bytes());
        }
        return Err(SnnError::MalformedPositionLine);
    }
    let t1 = match next_token(line, t0.1) {
        Some(t) => t,
        None => {
            proof {
                assert(toks.len() == 1);
            }
            return Err(SnnError::MalformedPositionLine);
        },
    };
    let t2 = match next_token(line, t1.1) {
        Some(t) => t,
        None => {
            proof {
                assert(toks.len() == 2);
            }
            return Err(SnnError::MalformedPositionLine);
        },
    };
    let t3 = match next_token(line, t2.1) {
        Some(t) => t,
        None => {
            proof {
                assert(toks.len() == 3);
            }
            return Err(SnnError::MalformedPositionLine);
        },
    };
    let t4 = match next_token(line, t3.1) {
        Some(t) => t,
        None => {
            proof {
                assert(toks.len() == 4);
            }
            return Err(SnnError::MalformedPositionLine);
        },
    };
    let t5 = match next_token(line, t4.1) {
        Some(t) => t,
        None => {
            proof {
                assert(toks.len() == 5);
            }
            return Err(SnnError::MalformedPositionLine);
        },
    };
    proof {
        assert(toks.len() >= 6);
        assert(toks[0] == line@.subrange(t0.0 as int, t0.1 as int));
        assert(toks[1] == line@.subrange(t1.0 as int, t1.1 as int));
        assert(toks[2] == line@.subrange(t2.0 as int, t2.1 as int));
        assert(toks[3] == line@.subrange(t3.0 as int, t3.1 as int));
        assert(toks[4] == line@.subrange(t4.0 as int, t4.1 as int));
        assert(toks[5] == line@.subrange(t5.0 as int, t5.1 as int));
    }
    let index = match parse_index_token(&line[t1.0..t1.1]) {
        Some(ix) => ix,
        None => {
            return Err(SnnError::MalformedPositionLine);
        },
    };
    let x = match parse_f32_bits(&line[t2.0..t2.1]) {
        Some(v) => v,
        None => {
            return Err(SnnError::MalformedPositionLine);
        },
    };
    let y = match parse_f32_bits(&line[t3.0..t3.1]) {
        Some(v) => v,
        None => {
            return Err(SnnError::MalformedPositionLine);
        },
    };
    let w = match parse_f32_bits(&line[t4.0..t4.1]) {
        Some(v) => v,
        None => {
            return Err(SnnError::MalformedPositionLine);
        },
    };
    let h = match parse_f32_bits(&line[t5.0..t5.1]) {
        Some(v) => v,
        None => {
            return Err(SnnError::MalformedPositionLine);
        },
    };
    Ok(ParsedNode { index, x, y, w, h })
}

/// Parses a whole position report: each well-formed `node` line replaces
/// the named neuron's entry, every other line is skipped, and neurons never
/// named keep the origin position with radius zero.
pub fn neuron_positions_from_report(n: usize, text: &Vec<u8>) -> (r: Vec<NeuronPosition>)
    ensures
        r@ == spec_neuron_positions(n as nat, text@),
        r@.len() == n,
{
    let mut pos: Vec<NeuronPosition> = vec![NeuronPosition { center: (0u32, 0u32), radius: 0u32 }; n];
    proof {
        assert(pos@ =~= Seq::new(n as nat, |i: int| zero_position()));
    }
    let mut i: usize = 0;
    while i < text.len()
        invariant
            i <= text@.len(),
            pos@.len() == n,
            positions_from(pos@, text@, i as int) == spec_neuron_positions(n as nat, text@),
        decreases text@.len() - i,
    {
        let mut le = i;
        while le < text.len() && text[le] != 10
            invariant
                i <= le <= text@.len(),
                line_end(text@, i as int) == line_end(text@, le as int),
            decreases text@.len() - le,
        {
            le = le + 1;
            proof {
                assert(line_end(text@, le as int - 1) == line_end(text@, le as int));
            }
        }
        proof {
            assert(line_end(text@, i as int) == le as int);
        }
        let ghost before = pos@;
        match parse_node_line(&text.as_slice()[i..le]) {
            Ok(p) => {
                if p.index < n {
                    pos.set(
                        p.index,
                        NeuronPosition {
                            center: (p.x, p.y),
                            radius: mul_bits(max_bits(p.w, p.h), HALF_BITS),
                        },
                    );
                }
            },
            Err(_) => {},
        }
        proof {
            assert(pos@ == apply_report_line(before, text@.subrange(i as int, le as int)));
            assert(positions_from(before, text@, i as int) == positions_from(
                pos@,
                text@,
                le as int + 1,
            ));
        }
        if le < text.len() {
            i = le + 1;
        } else {
            i = le;
            proof {
                assert(positions_from(pos@, text@, le as int) == pos@);
                assert(positions_from(pos@, text@, le as int + 1) == pos@);
            }
        }
    }
    proof {
        assert(positions_from(pos@, text@, i as int) == pos@);
    }
    pos
}

} // verus!
