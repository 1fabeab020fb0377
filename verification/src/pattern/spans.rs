//! The tokens of a source lie in order within it.

use vstd::prelude::*;

use crate::pattern::lexer::{lemma_lex_step_advances, lex_from, lex_step, spec_tokenize, LexStep, SpecToken};

verus! {

/// Whether every token covers a non-empty byte range within `[from, len)`,
/// and each starts at or after the end of the one before.
pub open spec fn spans_in_order(toks: Seq<SpecToken>, from: int, len: int) -> bool {
    &&& forall|k: int| 0 <= k < toks.len() ==> from <= (#[trigger] toks[k]).span.start < toks[k].span.end <= len
    &&& forall|k: int| 0 <= k < toks.len() - 1 ==> (#[trigger] toks[k]).span.end <= toks[k + 1].span.start
}

/// An emitted token covers exactly the bytes the step consumed.
proof fn lemma_emit_span(s: Seq<u8>, i: int)
    requires
        0 <= i < s.len() <= usize::MAX,
    ensures
        lex_step(s, i) matches LexStep::Emit(t, j) ==> t.span.start == i && t.span.end == j,
{
    lemma_lex_step_advances(s, i);
}

proof fn lemma_lex_from_spans(s: Seq<u8>, i: int)
    requires
        0 <= i,
        s.len() <= usize::MAX,
    ensures
        lex_from(s, i) matches Ok(toks) ==> spans_in_order(toks, i, s.len() as int),
    decreases s.len() - i,
{
    if i < s.len() {
        lemma_lex_step_advances(s, i);
        lemma_emit_span(s, i);
        match lex_step(s, i) {
            LexStep::Skip(j) => {
                lemma_lex_from_spans(s, j);
            },
            LexStep::Emit(t, j) => {
                lemma_lex_from_spans(s, j);
                match lex_from(s, j) {
                    Ok(rest) => {
                        let all = seq![t] + rest;
                        assert forall|k: int| 0 <= k < all.len() implies i <= (#[trigger] all[k]).span.start < all[k].span.end <= s.len() by {
                            if k > 0 {
                                assert(all[k] == rest[k - 1]);
                            }
                        }
                        assert forall|k: int| 0 <= k < all.len() - 1 implies (#[trigger] all[k]).span.end <= all[k + 1].span.start by {
                            assert(all[k + 1] == rest[k]);
                            if k > 0 {
                                assert(all[k] == rest[k - 1]);
                            }
                        }
                    },
                    Err(_) => {},
                }
            },
            LexStep::Fail(_) => {},
        }
    }
}

/// The tokens of a source lie in order within it: each covers a non-empty
/// byte range of the source, and each starts at or after the end of the one
/// before.
pub proof fn token_spans_in_order(src: Seq<u8>)
    requires
        src.len() <= usize::MAX,
    ensures
        spec_tokenize(src) matches Ok(toks) ==> spans_in_order(toks, 0, src.len() as int),
{
    lemma_lex_from_spans(src, 0);
}

} // verus!
