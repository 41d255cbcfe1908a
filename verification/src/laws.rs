//! Laws of a full lex, proved from the model.
//!
//! Every byte of the input is accounted for in exactly one span: the spans
//! come in increasing order, each one is non-empty, each one ends where the
//! next begins, and together they tile the byte range of the input.

use crate::model::{
    byte_len, byte_offset, lemma_byte_offset_ends, lemma_byte_offset_mono, lemma_token_end_bounds,
    token_end, token_spans, token_spans_from,
};
use vstd::prelude::*;

verus! {

/// Coverage from one starting position on: the spans are adjacent and
/// non-empty, the first begins at the position's byte offset, and the last
/// ends at the input's byte length.
#[verifier::rlimit(50)]
pub proof fn lemma_token_spans_from_cover(v: Seq<char>, i: int)
    requires
        0 <= i <= v.len(),
        byte_len(v) <= usize::MAX,
    ensures
        token_spans_from(v, i).len() == 0 <==> i == v.len(),
        token_spans_from(v, i).len() > 0 ==> token_spans_from(v, i)[0].begin == byte_offset(v, i),
        token_spans_from(v, i).len() > 0 ==> token_spans_from(v, i)[token_spans_from(
            v,
            i,
        ).len() - 1].end == byte_len(v),
        forall|k: int|
            0 <= k < token_spans_from(v, i).len() ==> (#[trigger] token_spans_from(v, i)[k]).begin
                < token_spans_from(v, i)[k].end,
        forall|k: int|
            0 <= k < token_spans_from(v, i).len() - 1 ==> (#[trigger] token_spans_from(
                v,
                i,
            )[k]).end == token_spans_from(v, i)[k + 1].begin,
    decreases v.len() - i,
{
    lemma_byte_offset_ends(v);
    if i < v.len() {
        lemma_token_end_bounds(v, i);
        let e = token_end(v, i);
        lemma_token_spans_from_cover(v, e);
        lemma_byte_offset_mono(v, 0, i);
        lemma_byte_offset_mono(v, i, e);
        lemma_byte_offset_mono(v, e, v.len() as int);
        let sp = token_spans_from(v, i);
        let rest = token_spans_from(v, e);
        assert(sp[0].begin == byte_offset(v, i));
        assert(sp[0].end == byte_offset(v, e));
        assert forall|k: int| 1 <= k < sp.len() implies sp[k] == rest[k - 1] by {
        }
    }
}

/// Coverage of one full lex: in order, the spans tile the byte range of the
/// input exactly. The first span begins at offset zero, every span ends where
/// the next one begins, the last span ends at the input's byte length, every
/// span is non-empty, and the sequence is empty exactly for an empty input.
pub proof fn lemma_lex_covers(v: Seq<char>)
    requires
        byte_len(v) <= usize::MAX,
    ensures
        token_spans(v).len() == 0 <==> v.len() == 0,
        token_spans(v).len() > 0 ==> token_spans(v)[0].begin == 0,
        token_spans(v).len() > 0 ==> token_spans(v)[token_spans(v).len() - 1].end == byte_len(v),
        forall|k: int|
            0 <= k < token_spans(v).len() ==> (#[trigger] token_spans(v)[k]).begin < token_spans(
                v,
            )[k].end,
        forall|k: int|
            0 <= k < token_spans(v).len() - 1 ==> (#[trigger] token_spans(v)[k]).end == token_spans(
                v,
            )[k + 1].begin,
{
    lemma_byte_offset_ends(v);
    lemma_token_spans_from_cover(v, 0);
}

/// Determinism of one lex: the span sequence is a function of the input's
/// scalars alone, so two results of lexing the same buffer — each equal to
/// `token_spans` of its scalars, as `lex` ensures — are identical.
pub proof fn lemma_lex_deterministic(
    v: Seq<char>,
    first: Seq<crate::spanner::TokenSpan>,
    second: Seq<crate::spanner::TokenSpan>,
)
    requires
        first == token_spans(v),
        second == token_spans(v),
    ensures
        first == second,
{
}

} // verus!
