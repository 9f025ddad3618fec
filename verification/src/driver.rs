//! The tokenizer driver: repeated scanning across the whole input.
//!
//! `lex_from` is the mathematical model of the drive: starting at an offset,
//! it takes the scanner's winning match, emits its token, advances by the
//! match length, and stops at end of input; the first offset at which no
//! pattern matches fails the whole tokenization. `tokenize` computes exactly
//! that model, and the proof functions below state the laws the model obeys.

use crate::patterns::{can_start, lemma_no_pattern_without_start};
use crate::scanner::{lemma_winner_bounds, lemma_winner_longest, longest_match, winner};
use crate::token::{views_of, SpecTok, Tok};
use vstd::prelude::*;
use vstd::string::StrSliceExecFns;

verus! {

/// The token sequence obtained by scanning `s` from offset `i` to its end,
/// or `None` when some reachable offset has no anchored match. The branch
/// on the match length only restates that a winning match is non-empty and
/// in bounds, which `lemma_winner_bounds` proves always holds.
pub open spec fn lex_from(s: Seq<char>, i: int) -> Option<Seq<SpecTok>>
    decreases s.len() - i,
{
    if i < 0 || i > s.len() {
        None
    } else if i == s.len() {
        Some(Seq::empty())
    } else {
        match winner(s, i) {
            None => None,
            Some(p) => if 1 <= p.1 && i + p.1 <= s.len() {
                match lex_from(s, i + p.1) {
                    None => None,
                    Some(rest) => Some(
                        seq![SpecTok { kind: p.0, pos: i as nat, text: s.subrange(i, i + p.1) }]
                            + rest,
                    ),
                }
            } else {
                None
            },
        }
    }
}

/// Prepends an already-emitted prefix to the outcome of the remaining scan.
pub open spec fn opt_prepend(pre: Seq<SpecTok>, rest: Option<Seq<SpecTok>>) -> Option<
    Seq<SpecTok>,
> {
    match rest {
        Some(ts) => Some(pre + ts),
        None => None,
    }
}

/// Converts source text into the ordered sequence of tokens that covers it,
/// or reports failure when no pattern matches at some position. Success and
/// failure, and every token on success, are exactly what the model
/// `lex_from` gives for this input.
pub fn tokenize(src: &str) -> (r: Result<Vec<Tok>, String>)
    ensures
        (match r {
            Ok(toks) => lex_from(src@, 0) == Some(views_of(toks@)),
            Err(_) => lex_from(src@, 0) is None,
        }),
{
    let n = src.unicode_len();
    let mut ind: usize = 0;
    let mut out: Vec<Tok> = Vec::new();
    loop
        invariant
            ind <= n,
            n == src@.len(),
            lex_from(src@, 0) == opt_prepend(views_of(out@), lex_from(src@, ind as int)),
        decreases n - ind,
    {
        if ind == n {
            proof {
                assert(lex_from(src@, ind as int) == Some(Seq::<SpecTok>::empty()));
                assert(views_of(out@) + Seq::<SpecTok>::empty() =~= views_of(out@));
            }
            return Ok(out);
        }
        match longest_match(src, ind) {
            None => {
                return Err("no pattern matches at the current position".to_owned());
            },
            Some(p) => {
                let (tok, len) = p;
                proof {
                    lemma_winner_bounds(src@, ind as int);
                    let m = SpecTok {
                        kind: tok.kind,
                        pos: ind as nat,
                        text: src@.subrange(ind as int, ind + len),
                    };
                    assert(m == tok@);
                    assert(views_of(out@.push(tok)) =~= views_of(out@) + seq![tok@]);
                    match lex_from(src@, ind + len) {
                        Some(rest) => {
                            assert(lex_from(src@, ind as int) == Some(seq![m] + rest));
                            assert(views_of(out@) + (seq![tok@] + rest) =~= (views_of(out@)
                                + seq![tok@]) + rest);
                        },
                        None => {
                            assert(lex_from(src@, ind as int) is None);
                        },
                    }
                }
                out.push(tok);
                ind = ind + len;
            },
        }
    }
}

/// The characters of a token sequence, in order.
pub open spec fn concat_texts(ts: Seq<SpecTok>) -> Seq<char>
    decreases ts.len(),
{
    if ts.len() == 0 {
        Seq::empty()
    } else {
        ts[0].text + concat_texts(ts.drop_first())
    }
}

/// The shape of every successful scan from `i`: the first token starts at
/// `i`, every token is non-empty, consecutive tokens are contiguous, and the
/// texts concatenate to the scanned suffix.
proof fn lemma_lex_from_shape(s: Seq<char>, i: int, ts: Seq<SpecTok>)
    requires
        0 <= i <= s.len(),
        lex_from(s, i) == Some(ts),
    ensures
        ts.len() > 0 ==> ts[0].pos == i,
        forall|j: int| 0 <= j < ts.len() ==> 1 <= (#[trigger] ts[j]).text.len(),
        forall|j1: int, j2: int|
            #![trigger ts[j1], ts[j2]]
            0 <= j1 && j1 + 1 == j2 && j2 < ts.len() ==> ts[j2].pos == ts[j1].pos
                + ts[j1].text.len(),
        concat_texts(ts) == s.subrange(i, s.len() as int),
    decreases s.len() - i,
{
    if i == s.len() {
        assert(ts =~= Seq::<SpecTok>::empty());
        assert(s.subrange(i, s.len() as int) =~= Seq::<char>::empty());
    } else {
        lemma_winner_bounds(s, i);
        let p = winner(s, i)->0;
        let m = SpecTok { kind: p.0, pos: i as nat, text: s.subrange(i, i + p.1) };
        let rest = lex_from(s, i + p.1)->0;
        assert(ts == seq![m] + rest);
        lemma_lex_from_shape(s, i + p.1, rest);
        assert(ts.drop_first() =~= rest);
        assert(ts[0] == m);
        assert forall|j: int| 0 <= j < ts.len() implies 1 <= (#[trigger] ts[j]).text.len() by {
            if j > 0 {
                assert(ts[j] == rest[j - 1]);
            }
        }
        assert forall|j1: int, j2: int|
            #![trigger ts[j1], ts[j2]]
            0 <= j1 && j1 + 1 == j2 && j2 < ts.len() implies ts[j2].pos == ts[j1].pos
            + ts[j1].text.len() by {
            if j1 > 0 {
                assert(ts[j1] == rest[j1 - 1]);
                assert(ts[j2] == rest[j1]);
            } else {
                if rest.len() > 0 {
                    assert(ts[1] == rest[0]);
                }
            }
        }
        assert(s.subrange(i, i + p.1) + s.subrange(i + p.1, s.len() as int) =~= s.subrange(
            i,
            s.len() as int,
        ));
    }
}

/// Reconstruction: concatenating every token's text of a successful
/// tokenization, in order, yields exactly the input.
pub proof fn lemma_reconstruction(s: Seq<char>, ts: Seq<SpecTok>)
    requires
        lex_from(s, 0) == Some(ts),
    ensures
        concat_texts(ts) == s,
{
    lemma_lex_from_shape(s, 0, ts);
    assert(s.subrange(0, s.len() as int) =~= s);
}

proof fn lemma_pos_chain(ts: Seq<SpecTok>, j1: int, j2: int)
    requires
        forall|j: int| 0 <= j < ts.len() ==> 1 <= (#[trigger] ts[j]).text.len(),
        forall|k1: int, k2: int|
            #![trigger ts[k1], ts[k2]]
            0 <= k1 && k1 + 1 == k2 && k2 < ts.len() ==> ts[k2].pos == ts[k1].pos
                + ts[k1].text.len(),
        0 <= j1 < j2 < ts.len(),
    ensures
        ts[j1].pos < ts[j2].pos,
    decreases j2 - j1,
{
    if j1 + 1 < j2 {
        lemma_pos_chain(ts, j1, j2 - 1);
        assert(ts[j2].pos == ts[j2 - 1].pos + ts[j2 - 1].text.len());
    } else {
        assert(ts[j2].pos == ts[j1].pos + ts[j1].text.len());
    }
}

/// Position monotonicity: in a successful tokenization the first token
/// starts at offset zero, each token begins exactly where the previous one
/// ends, and positions are strictly increasing.
pub proof fn lemma_position_monotonicity(s: Seq<char>, ts: Seq<SpecTok>)
    requires
        lex_from(s, 0) == Some(ts),
    ensures
        ts.len() > 0 ==> ts[0].pos == 0,
        forall|j1: int, j2: int|
            #![trigger ts[j1], ts[j2]]
            0 <= j1 && j1 + 1 == j2 && j2 < ts.len() ==> ts[j2].pos == ts[j1].pos
                + ts[j1].text.len(),
        forall|j1: int, j2: int|
            #![trigger ts[j1], ts[j2]]
            0 <= j1 < j2 < ts.len() ==> ts[j1].pos < ts[j2].pos,
{
    lemma_lex_from_shape(s, 0, ts);
    assert forall|j1: int, j2: int|
        #![trigger ts[j1], ts[j2]]
        0 <= j1 < j2 < ts.len() implies ts[j1].pos < ts[j2].pos by {
        lemma_pos_chain(ts, j1, j2);
    }
}

/// The tokenization is a function of the input alone: two successful
/// outcomes on the same text are the same token sequence.
pub proof fn lemma_tokenize_deterministic(s: Seq<char>, ts1: Seq<SpecTok>, ts2: Seq<SpecTok>)
    requires
        lex_from(s, 0) == Some(ts1),
        lex_from(s, 0) == Some(ts2),
    ensures
        ts1 == ts2,
{
}

/// Fail-fast on an unknown character: when the first character of a
/// non-empty input can begin no pattern, tokenization fails outright.
pub proof fn lemma_unlexable_first_char(s: Seq<char>)
    requires
        s.len() > 0,
        !can_start(s[0]),
    ensures
        lex_from(s, 0) is None,
{
    lemma_no_pattern_without_start(s, 0);
    lemma_winner_longest(s, 0);
}

} // verus!
