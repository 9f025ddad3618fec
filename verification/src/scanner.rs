//! The pattern table and the longest-match scanner.
//!
//! The table lists every pattern in a fixed priority order. At a given
//! offset the scanner tries each pattern anchored exactly there and picks
//! the longest match; when two patterns tie on length, the one earlier in
//! the table wins. The keyword entry stands before the identifier entry,
//! which is what lets a reserved word beat the identifier pattern at equal
//! length.

use crate::patterns::{lemma_pattern_match_bounds, match_at, pattern_match};
use crate::token::{Tok, TokKind};
use vstd::prelude::*;
use vstd::string::StrSliceExecFns;

verus! {

/// The pattern table: every token kind in priority order. Order is a design
/// contract: `Key` stands before `Var`, so a reserved word wins the length
/// tie against the identifier pattern.
pub open spec fn table() -> Seq<TokKind> {
    seq![
        TokKind::As,
        TokKind::LPar,
        TokKind::RPar,
        TokKind::LBrc,
        TokKind::RBrc,
        TokKind::SCol,
        TokKind::Add,
        TokKind::Sub,
        TokKind::Inc,
        TokKind::Dec,
        TokKind::Key,
        TokKind::Var,
        TokKind::Lit,
        TokKind::Cmt,
        TokKind::Spc,
        TokKind::Nl,
        TokKind::CR,
        TokKind::Tab,
    ]
}

/// The position of kind `k` in the pattern table.
pub open spec fn kind_index(k: TokKind) -> int {
    match k {
        TokKind::As => 0,
        TokKind::LPar => 1,
        TokKind::RPar => 2,
        TokKind::LBrc => 3,
        TokKind::RBrc => 4,
        TokKind::SCol => 5,
        TokKind::Add => 6,
        TokKind::Sub => 7,
        TokKind::Inc => 8,
        TokKind::Dec => 9,
        TokKind::Key => 10,
        TokKind::Var => 11,
        TokKind::Lit => 12,
        TokKind::Cmt => 13,
        TokKind::Spc => 14,
        TokKind::Nl => 15,
        TokKind::CR => 16,
        TokKind::Tab => 17,
    }
}

/// Each kind stands at its index, and the table holds all eighteen kinds.
pub proof fn lemma_table_index()
    ensures
        table().len() == 18,
        forall|k: TokKind| 0 <= #[trigger] kind_index(k) < 18 && table()[kind_index(k)] == k,
        forall|j: int| 0 <= j < 18 ==> kind_index(#[trigger] table()[j]) == j,
{
    assert(table()[0] == TokKind::As);
    assert(table()[1] == TokKind::LPar);
    assert(table()[2] == TokKind::RPar);
    assert(table()[3] == TokKind::LBrc);
    assert(table()[4] == TokKind::RBrc);
    assert(table()[5] == TokKind::SCol);
    assert(table()[6] == TokKind::Add);
    assert(table()[7] == TokKind::Sub);
    assert(table()[8] == TokKind::Inc);
    assert(table()[9] == TokKind::Dec);
    assert(table()[10] == TokKind::Key);
    assert(table()[11] == TokKind::Var);
    assert(table()[12] == TokKind::Lit);
    assert(table()[13] == TokKind::Cmt);
    assert(table()[14] == TokKind::Spc);
    assert(table()[15] == TokKind::Nl);
    assert(table()[16] == TokKind::CR);
    assert(table()[17] == TokKind::Tab);
}

/// The best anchored match among the first `n` table entries: the longest,
/// with ties going to the earliest entry, exactly as a scan in table order
/// that only replaces the best on a strictly longer match.
pub open spec fn best_upto(s: Seq<char>, i: int, n: int) -> Option<(TokKind, int)>
    decreases n,
{
    if n <= 0 {
        None
    } else {
        let prev = best_upto(s, i, n - 1);
        match pattern_match(s, i, table()[n - 1]) {
            None => prev,
            Some(l) => match prev {
                None => Some((table()[n - 1], l)),
                Some(p) => if l > p.1 {
                    Some((table()[n - 1], l))
                } else {
                    prev
                },
            },
        }
    }
}

/// The scanner's choice at offset `i`: the winning kind and its match
/// length, or `None` when no pattern matches there.
pub open spec fn winner(s: Seq<char>, i: int) -> Option<(TokKind, int)> {
    best_upto(s, i, table().len() as int)
}

proof fn lemma_best_upto_props(s: Seq<char>, i: int, n: int)
    requires
        0 <= n <= 18,
    ensures
        best_upto(s, i, n) is None <==> (forall|j: int|
            0 <= j < n ==> pattern_match(s, i, #[trigger] table()[j]) is None),
        best_upto(s, i, n) matches Some(p) ==> {
            &&& 0 <= kind_index(p.0) < n
            &&& pattern_match(s, i, p.0) == Some(p.1)
            &&& forall|j: int|
                0 <= j < n ==> ((#[trigger] pattern_match(s, i, table()[j])) matches Some(l2)
                    ==> l2 <= p.1)
            &&& forall|j: int|
                0 <= j < kind_index(p.0) ==> ((#[trigger] pattern_match(s, i, table()[j])) matches
                Some(l2) ==> l2 < p.1)
        },
    decreases n,
{
    lemma_table_index();
    if n > 0 {
        lemma_best_upto_props(s, i, n - 1);
    }
}

/// What the scanner's choice means, stated over the kinds themselves: the
/// winner is an anchored match, no pattern matches longer, and every
/// pattern earlier in the table than the winner matches strictly shorter.
/// When the winner is `None`, no pattern matches at all.
pub proof fn lemma_winner_longest(s: Seq<char>, i: int)
    ensures
        winner(s, i) is None <==> (forall|k: TokKind| #[trigger] pattern_match(s, i, k) is None),
        winner(s, i) matches Some(p) ==> {
            &&& pattern_match(s, i, p.0) == Some(p.1)
            &&& forall|k: TokKind|
                (#[trigger] pattern_match(s, i, k)) matches Some(l2) ==> l2 <= p.1
            &&& forall|k: TokKind|
                kind_index(k) < kind_index(p.0) ==> ((#[trigger] pattern_match(s, i, k)) matches
                Some(l2) ==> l2 < p.1)
        },
{
    lemma_table_index();
    lemma_best_upto_props(s, i, 18);
    if winner(s, i) is None {
        assert forall|k: TokKind| #[trigger] pattern_match(s, i, k) is None by {
            assert(table()[kind_index(k)] == k);
        }
    } else {
        let p = winner(s, i)->0;
        assert forall|k: TokKind| #[trigger] pattern_match(s, i, k) is Some implies pattern_match(
            s,
            i,
            k,
        )->0 <= p.1 by {
            assert(table()[kind_index(k)] == k);
        }
        assert forall|k: TokKind|
            kind_index(k) < kind_index(p.0) && #[trigger] pattern_match(s, i, k)
                is Some implies pattern_match(s, i, k)->0 < p.1 by {
            assert(table()[kind_index(k)] == k);
        }
    }
}

/// A winning match is an anchored match, so it is non-empty and stays
/// within the text.
pub proof fn lemma_winner_bounds(s: Seq<char>, i: int)
    ensures
        winner(s, i) matches Some(p) ==> {
            &&& pattern_match(s, i, p.0) == Some(p.1)
            &&& 0 <= i < s.len()
            &&& 1 <= p.1
            &&& i + p.1 <= s.len()
        },
{
    lemma_best_upto_props(s, i, 18);
    match winner(s, i) {
        Some(p) => lemma_pattern_match_bounds(s, i, p.0),
        None => (),
    }
}

/// Returns the kind at position `j` of the pattern table.
fn kind_at(j: usize) -> (k: TokKind)
    requires
        j < 18,
    ensures
        k == table()[j as int],
{
    proof {
        lemma_table_index();
    }
    match j {
        0 => TokKind::As,
        1 => TokKind::LPar,
        2 => TokKind::RPar,
        3 => TokKind::LBrc,
        4 => TokKind::RBrc,
        5 => TokKind::SCol,
        6 => TokKind::Add,
        7 => TokKind::Sub,
        8 => TokKind::Inc,
        9 => TokKind::Dec,
        10 => TokKind::Key,
        11 => TokKind::Var,
        12 => TokKind::Lit,
        13 => TokKind::Cmt,
        14 => TokKind::Spc,
        15 => TokKind::Nl,
        16 => TokKind::CR,
        _ => TokKind::Tab,
    }
}

/// Finds, among all patterns anchored exactly at `ind`, the one producing
/// the longest match, ties resolved by table order. Returns the winning
/// token, whose text is the matched substring of `s`, together with the
/// match length, or `None` when no pattern matches at `ind`.
pub fn longest_match(s: &str, ind: usize) -> (r: Option<(Tok, usize)>)
    requires
        ind <= s@.len(),
    ensures
        match r {
            Some(p) => {
                &&& winner(s@, ind as int) == Some((p.0.kind, p.1 as int))
                &&& p.0@.pos == ind as nat
                &&& p.0@.text == s@.subrange(ind as int, ind + p.1)
                &&& 1 <= p.1
                &&& ind + p.1 <= s@.len()
            },
            None => winner(s@, ind as int) is None,
        },
{
    let n = s.unicode_len();
    if ind == n {
        proof {
            assert forall|j: int| 0 <= j < 18 implies pattern_match(
                s@,
                ind as int,
                #[trigger] table()[j],
            ) is None by {
                lemma_pattern_match_bounds(s@, ind as int, table()[j]);
            }
            lemma_best_upto_props(s@, ind as int, 18);
        }
        return None;
    }
    let mut best: Option<(TokKind, usize)> = None;
    let mut j: usize = 0;
    while j < 18
        invariant
            j <= 18,
            ind <= s@.len(),
            (match best {
                None => best_upto(s@, ind as int, j as int) is None,
                Some(b) => best_upto(s@, ind as int, j as int) == Some((b.0, b.1 as int)),
            }),
        decreases 18 - j,
    {
        let k = kind_at(j);
        match match_at(s, ind, k) {
            Some(l) => match best {
                None => {
                    best = Some((k, l));
                },
                Some(b) => {
                    if l > b.1 {
                        best = Some((k, l));
                    }
                },
            },
            None => {},
        }
        j = j + 1;
    }
    match best {
        None => None,
        Some(b) => {
            proof {
                lemma_winner_bounds(s@, ind as int);
            }
            let text = s.substring_char(ind, ind + b.1).to_owned();
            Some((Tok { kind: b.0, pos: ind, str: text }, b.1))
        },
    }
}

} // verus!
