//! The lexical patterns: for each token kind, the anchored match it produces.
//!
//! Each pattern is specified as a function from the source text and a
//! character offset to the length of the match anchored exactly there, or
//! `None` when the pattern does not match at that offset. Greedy runs
//! (identifiers, digits, spaces, line comments) take the longest run;
//! delimited forms (string and character literals, block comments) stop at
//! the nearest closing delimiter, as a non-greedy matcher does.

use crate::token::TokKind;
use vstd::prelude::*;
use vstd::string::StrSliceExecFns;

verus! {

/// A class of characters that a greedy run may consist of.
#[derive(Clone, Copy)]
pub enum CharClass {
    /// Letters, decimal digits and underscore: the identifier tail.
    IdChar,
    /// Decimal digits.
    Digit,
    /// The space character.
    Space,
    /// Any character except a newline: the body of a line comment.
    NonNl,
}

/// An ASCII letter or underscore: what an identifier may begin with.
pub open spec fn is_id_start(c: char) -> bool {
    ||| ('a' as u32 <= c as u32 && c as u32 <= 'z' as u32)
    ||| ('A' as u32 <= c as u32 && c as u32 <= 'Z' as u32)
    ||| c == '_'
}

/// An ASCII decimal digit.
pub open spec fn is_digit(c: char) -> bool {
    '0' as u32 <= c as u32 && c as u32 <= '9' as u32
}

/// Membership of a character in a run class.
pub open spec fn in_class(c: char, cls: CharClass) -> bool {
    match cls {
        CharClass::IdChar => is_id_start(c) || is_digit(c),
        CharClass::Digit => is_digit(c),
        CharClass::Space => c == ' ',
        CharClass::NonNl => c != '\n',
    }
}

/// The length of the longest run of `cls` characters starting at `i`.
pub open spec fn run_len(s: Seq<char>, i: int, cls: CharClass) -> nat
    decreases s.len() - i,
{
    if 0 <= i && i < s.len() && in_class(s[i], cls) {
        (1 + run_len(s, i + 1, cls)) as nat
    } else {
        0
    }
}

/// The word `w` occurs in `s` starting exactly at `i`.
pub open spec fn matches_at(s: Seq<char>, i: int, w: Seq<char>) -> bool {
    0 <= i && i + w.len() <= s.len() && s.subrange(i, i + w.len() as int) == w
}

/// The reserved word `char`.
pub open spec fn kw_char() -> Seq<char> {
    seq!['c', 'h', 'a', 'r']
}

/// The reserved word `int`.
pub open spec fn kw_int() -> Seq<char> {
    seq!['i', 'n', 't']
}

/// One past the end of a double-quoted string body scanned from `j`: the
/// position after the nearest closing quote, where a backslash escapes the
/// character that follows it (which may not be a newline), or `None` when
/// the quote never closes.
pub open spec fn string_body_end(s: Seq<char>, j: int) -> Option<int>
    decreases s.len() - j,
{
    if j < 0 || j >= s.len() {
        None
    } else if s[j] == '"' {
        Some(j + 1)
    } else if s[j] == '\\' {
        if j + 1 < s.len() && s[j + 1] != '\n' {
            string_body_end(s, j + 2)
        } else {
            None
        }
    } else {
        string_body_end(s, j + 1)
    }
}

/// One past the nearest single quote at or after `j`, provided no newline
/// comes before it; `None` otherwise. This closes the escaped form of a
/// character literal.
pub open spec fn char_close(s: Seq<char>, j: int) -> Option<int>
    decreases s.len() - j,
{
    if j < 0 || j >= s.len() {
        None
    } else if s[j] == '\'' {
        Some(j + 1)
    } else if s[j] == '\n' {
        None
    } else {
        char_close(s, j + 1)
    }
}

/// One past the nearest `*/` at or after `j`, or `None` when there is none.
/// This closes a block comment; any character, newlines included, may come
/// before it.
pub open spec fn block_end(s: Seq<char>, j: int) -> Option<int>
    decreases s.len() - j,
{
    if j < 0 || j + 2 > s.len() {
        None
    } else if s[j] == '*' && s[j + 1] == '/' {
        Some(j + 2)
    } else {
        block_end(s, j + 1)
    }
}

/// A single literal character `c` at `i`.
pub open spec fn single_char_match(s: Seq<char>, i: int, c: char) -> Option<int> {
    if 0 <= i && i < s.len() && s[i] == c {
        Some(1int)
    } else {
        None
    }
}

/// The character `c` twice in a row at `i` (the `++` and `--` operators).
pub open spec fn double_char_match(s: Seq<char>, i: int, c: char) -> Option<int> {
    if 0 <= i && i + 2 <= s.len() && s[i] == c && s[i + 1] == c {
        Some(2int)
    } else {
        None
    }
}

/// A reserved word at `i`: `char` is tried before `int`, exactly as the
/// keyword alternation lists them.
pub open spec fn keyword_match(s: Seq<char>, i: int) -> Option<int> {
    if matches_at(s, i, kw_char()) {
        Some(4int)
    } else if matches_at(s, i, kw_int()) {
        Some(3int)
    } else {
        None
    }
}

/// An identifier at `i`: a letter or underscore followed by the longest run
/// of letters, digits and underscores.
pub open spec fn var_match(s: Seq<char>, i: int) -> Option<int> {
    if 0 <= i && i < s.len() && is_id_start(s[i]) {
        Some((1 + run_len(s, i + 1, CharClass::IdChar)) as int)
    } else {
        None
    }
}

/// A character literal at `i`: the empty form `''`, a single character other
/// than a quote between two quotes, or, when neither fits, the escaped form
/// `'\` running to the nearest closing quote on the same line. Escape
/// legality is not validated: `'\q'` matches as a literal.
pub open spec fn char_lit_match(s: Seq<char>, i: int) -> Option<int> {
    if !(0 <= i && i < s.len() && s[i] == '\'') {
        None
    } else if i + 1 < s.len() && s[i + 1] == '\'' {
        Some(2int)
    } else if i + 2 < s.len() && s[i + 1] != '\'' && s[i + 2] == '\'' {
        Some(3int)
    } else if i + 2 < s.len() && s[i + 1] == '\\' && s[i + 2] != '\n' {
        match char_close(s, i + 3) {
            Some(e) => Some(e - i),
            None => None,
        }
    } else {
        None
    }
}

/// A literal at `i`: a double-quoted string, a single-quoted character, or a
/// run of decimal digits. The three forms begin with distinct characters.
pub open spec fn lit_match(s: Seq<char>, i: int) -> Option<int> {
    if !(0 <= i && i < s.len()) {
        None
    } else if s[i] == '"' {
        match string_body_end(s, i + 1) {
            Some(e) => Some(e - i),
            None => None,
        }
    } else if s[i] == '\'' {
        char_lit_match(s, i)
    } else if is_digit(s[i]) {
        Some(run_len(s, i, CharClass::Digit) as int)
    } else {
        None
    }
}

/// A comment at `i`: `//` to the end of the line, or `/*` to the nearest
/// following `*/`, which may span lines. An unclosed block comment is no
/// match.
pub open spec fn comment_match(s: Seq<char>, i: int) -> Option<int> {
    if 0 <= i && i + 2 <= s.len() && s[i] == '/' && s[i + 1] == '/' {
        Some((2 + run_len(s, i + 2, CharClass::NonNl)) as int)
    } else if 0 <= i && i + 2 <= s.len() && s[i] == '/' && s[i + 1] == '*' {
        match block_end(s, i + 2) {
            Some(e) => Some(e - i),
            None => None,
        }
    } else {
        None
    }
}

/// A run of one or more spaces at `i`.
pub open spec fn space_match(s: Seq<char>, i: int) -> Option<int> {
    if 0 <= i && i < s.len() && s[i] == ' ' {
        Some(run_len(s, i, CharClass::Space) as int)
    } else {
        None
    }
}

/// The anchored match of the pattern for kind `k` at offset `i`: the length
/// of the matched text, or `None` when the pattern does not match there.
/// Opaque so that reasoning about the scanner's choice does not drag in
/// every pattern's definition; `reveal(pattern_match)` opens it.
#[verifier::opaque]
pub open spec fn pattern_match(s: Seq<char>, i: int, k: TokKind) -> Option<int> {
    match k {
        TokKind::As => single_char_match(s, i, '='),
        TokKind::LPar => single_char_match(s, i, '('),
        TokKind::RPar => single_char_match(s, i, ')'),
        TokKind::LBrc => single_char_match(s, i, '{'),
        TokKind::RBrc => single_char_match(s, i, '}'),
        TokKind::SCol => single_char_match(s, i, ';'),
        TokKind::Add => single_char_match(s, i, '+'),
        TokKind::Sub => single_char_match(s, i, '-'),
        TokKind::Inc => double_char_match(s, i, '+'),
        TokKind::Dec => double_char_match(s, i, '-'),
        TokKind::Key => keyword_match(s, i),
        TokKind::Var => var_match(s, i),
        TokKind::Lit => lit_match(s, i),
        TokKind::Cmt => comment_match(s, i),
        TokKind::Spc => space_match(s, i),
        TokKind::Nl => single_char_match(s, i, '\n'),
        TokKind::CR => single_char_match(s, i, '\r'),
        TokKind::Tab => single_char_match(s, i, '\t'),
    }
}

/// The characters at which some pattern can begin a match: the lexical
/// alphabet's opening characters. Anything else (`@`, `#`, ...) can begin no
/// token.
pub open spec fn can_start(c: char) -> bool {
    ||| c == '='
    ||| c == '('
    ||| c == ')'
    ||| c == '{'
    ||| c == '}'
    ||| c == ';'
    ||| c == '+'
    ||| c == '-'
    ||| c == '"'
    ||| c == '\''
    ||| c == '/'
    ||| c == ' '
    ||| c == '\n'
    ||| c == '\r'
    ||| c == '\t'
    ||| is_id_start(c)
    ||| is_digit(c)
}

/// At an offset whose character can begin no pattern, no pattern matches.
pub proof fn lemma_no_pattern_without_start(s: Seq<char>, i: int)
    requires
        0 <= i < s.len(),
        !can_start(s[i]),
    ensures
        forall|k: TokKind| #[trigger] pattern_match(s, i, k) is None,
{
    reveal(pattern_match);
    assert forall|k: TokKind| #[trigger] pattern_match(s, i, k) is None by {
        if matches_at(s, i, kw_char()) {
            assert(s.subrange(i, i + 4)[0] == s[i]);
        }
        if matches_at(s, i, kw_int()) {
            assert(s.subrange(i, i + 3)[0] == s[i]);
        }
    }
}

/// A run never extends past the end of the text.
pub proof fn lemma_run_len_bound(s: Seq<char>, i: int, cls: CharClass)
    requires
        0 <= i <= s.len(),
    ensures
        run_len(s, i, cls) <= s.len() - i,
    decreases s.len() - i,
{
    if i < s.len() && in_class(s[i], cls) {
        lemma_run_len_bound(s, i + 1, cls);
    }
}

/// A string body scanned from `j` closes, if at all, past `j` and within the
/// text.
pub proof fn lemma_string_body_end_bounds(s: Seq<char>, j: int)
    ensures
        string_body_end(s, j) matches Some(e) ==> j < e <= s.len(),
    decreases s.len() - j,
{
    if 0 <= j && j < s.len() {
        if s[j] == '"' {
        } else if s[j] == '\\' {
            if j + 1 < s.len() && s[j + 1] != '\n' {
                lemma_string_body_end_bounds(s, j + 2);
            }
        } else {
            lemma_string_body_end_bounds(s, j + 1);
        }
    }
}

/// The closing quote found from `j` lies, if at all, past `j` and within the
/// text.
pub proof fn lemma_char_close_bounds(s: Seq<char>, j: int)
    ensures
        char_close(s, j) matches Some(e) ==> j < e <= s.len(),
    decreases s.len() - j,
{
    if 0 <= j && j < s.len() && s[j] != '\'' && s[j] != '\n' {
        lemma_char_close_bounds(s, j + 1);
    }
}

/// The end of a block comment found from `j` lies, if at all, at least two
/// characters past `j` and within the text.
pub proof fn lemma_block_end_bounds(s: Seq<char>, j: int)
    ensures
        block_end(s, j) matches Some(e) ==> j + 2 <= e <= s.len(),
    decreases s.len() - j,
{
    if 0 <= j && j + 2 <= s.len() && !(s[j] == '*' && s[j + 1] == '/') {
        lemma_block_end_bounds(s, j + 1);
    }
}

/// Every anchored match is non-empty, starts within the text, and ends
/// within it.
pub proof fn lemma_pattern_match_bounds(s: Seq<char>, i: int, k: TokKind)
    ensures
        pattern_match(s, i, k) matches Some(l) ==> 0 <= i < s.len() && 1 <= l && i + l <= s.len(),
{
    reveal(pattern_match);
    match k {
        TokKind::Key => {
        },
        TokKind::Var => {
            if 0 <= i && i < s.len() && is_id_start(s[i]) {
                lemma_run_len_bound(s, i + 1, CharClass::IdChar);
            }
        },
        TokKind::Lit => {
            if 0 <= i && i < s.len() {
                if s[i] == '"' {
                    lemma_string_body_end_bounds(s, i + 1);
                } else if s[i] == '\'' {
                    lemma_char_close_bounds(s, i + 3);
                } else if is_digit(s[i]) {
                    lemma_run_len_bound(s, i, CharClass::Digit);
                }
            }
        },
        TokKind::Cmt => {
            if 0 <= i && i + 2 <= s.len() {
                lemma_run_len_bound(s, i + 2, CharClass::NonNl);
                lemma_block_end_bounds(s, i + 2);
            }
        },
        TokKind::Spc => {
            if 0 <= i && i < s.len() && s[i] == ' ' {
                lemma_run_len_bound(s, i, CharClass::Space);
            }
        },
        _ => {
        },
    }
}

/// Decides membership in a run class, mirroring `in_class`.
fn in_class_exec(c: char, cls: CharClass) -> (b: bool)
    ensures
        b == in_class(c, cls),
{
    let u = c as u32;
    match cls {
        CharClass::IdChar => {
            (97 <= u && u <= 122) || (65 <= u && u <= 90) || c == '_' || (48 <= u && u <= 57)
        },
        CharClass::Digit => 48 <= u && u <= 57,
        CharClass::Space => c == ' ',
        CharClass::NonNl => c != '\n',
    }
}

/// Decides whether a character may begin an identifier.
fn is_id_start_exec(c: char) -> (b: bool)
    ensures
        b == is_id_start(c),
{
    let u = c as u32;
    (97 <= u && u <= 122) || (65 <= u && u <= 90) || c == '_'
}

/// The length of the longest run of `cls` characters starting at `start`.
fn scan_run(s: &str, start: usize, cls: CharClass) -> (r: usize)
    requires
        start <= s@.len(),
    ensures
        r == run_len(s@, start as int, cls),
        start + r <= s@.len(),
{
    let n = s.unicode_len();
    let mut j = start;
    while j < n && in_class_exec(s.get_char(j), cls)
        invariant
            start <= j <= n,
            n == s@.len(),
            run_len(s@, start as int, cls) == j - start + run_len(s@, j as int, cls),
        decreases n - j,
    {
        j = j + 1;
    }
    j - start
}

/// Scans a double-quoted string body from `start`, returning the position
/// one past the closing quote.
fn scan_string_body(s: &str, start: usize) -> (r: Option<usize>)
    requires
        start <= s@.len(),
    ensures
        match r {
            Some(e) => string_body_end(s@, start as int) == Some(e as int) && start < e <= s@.len(),
            None => string_body_end(s@, start as int) is None,
        },
{
    let n = s.unicode_len();
    let mut j = start;
    loop
        invariant
            start <= j <= n,
            n == s@.len(),
            string_body_end(s@, start as int) == string_body_end(s@, j as int),
        decreases n - j,
    {
        if j == n {
            return None;
        }
        let c = s.get_char(j);
        if c == '"' {
            return Some(j + 1);
        }
        if c == '\\' {
            if j + 1 < n && s.get_char(j + 1) != '\n' {
                j = j + 2;
            } else {
                return None;
            }
        } else {
            j = j + 1;
        }
    }
}

/// Scans from `start` for the single quote that closes an escaped character
/// literal, returning the position one past it.
fn scan_char_close(s: &str, start: usize) -> (r: Option<usize>)
    requires
        start <= s@.len(),
    ensures
        match r {
            Some(e) => char_close(s@, start as int) == Some(e as int) && start < e <= s@.len(),
            None => char_close(s@, start as int) is None,
        },
{
    let n = s.unicode_len();
    let mut j = start;
    loop
        invariant
            start <= j <= n,
            n == s@.len(),
            char_close(s@, start as int) == char_close(s@, j as int),
        decreases n - j,
    {
        if j == n {
            return None;
        }
        let c = s.get_char(j);
        if c == '\'' {
            return Some(j + 1);
        }
        if c == '\n' {
            return None;
        }
        j = j + 1;
    }
}

/// Scans from `start` for the nearest `*/`, returning the position one past
/// it.
fn scan_block_end(s: &str, start: usize) -> (r: Option<usize>)
    requires
        start <= s@.len(),
    ensures
        match r {
            Some(e) => block_end(s@, start as int) == Some(e as int) && start + 2 <= e <= s@.len(),
            None => block_end(s@, start as int) is None,
        },
{
    let n = s.unicode_len();
    let mut j = start;
    loop
        invariant
            start <= j <= n,
            n == s@.len(),
            block_end(s@, start as int) == block_end(s@, j as int),
        decreases n - j,
    {
        if n - j < 2 {
            return None;
        }
        if s.get_char(j) == '*' && s.get_char(j + 1) == '/' {
            return Some(j + 2);
        }
        j = j + 1;
    }
}

/// The anchored match of the pattern for kind `k` at offset `i`, as the
/// specification `pattern_match` defines it.
pub(crate) fn match_at(s: &str, i: usize, k: TokKind) -> (r: Option<usize>)
    requires
        i <= s@.len(),
    ensures
        match r {
            Some(l) => pattern_match(s@, i as int, k) == Some(l as int),
            None => pattern_match(s@, i as int, k) is None,
        },
{
    proof {
        reveal(pattern_match);
    }
    let n = s.unicode_len();
    match k {
        TokKind::As => match_single(s, i, '='),
        TokKind::LPar => match_single(s, i, '('),
        TokKind::RPar => match_single(s, i, ')'),
        TokKind::LBrc => match_single(s, i, '{'),
        TokKind::RBrc => match_single(s, i, '}'),
        TokKind::SCol => match_single(s, i, ';'),
        TokKind::Add => match_single(s, i, '+'),
        TokKind::Sub => match_single(s, i, '-'),
        TokKind::Inc => match_double(s, i, '+'),
        TokKind::Dec => match_double(s, i, '-'),
        TokKind::Key => match_keyword(s, i),
        TokKind::Var => {
            if i < n && is_id_start_exec(s.get_char(i)) {
                proof {
                    lemma_run_len_bound(s@, i + 1, CharClass::IdChar);
                }
                Some(1 + scan_run(s, i + 1, CharClass::IdChar))
            } else {
                None
            }
        },
        TokKind::Lit => match_lit(s, i),
        TokKind::Cmt => match_comment(s, i),
        TokKind::Spc => {
            if i < n && s.get_char(i) == ' ' {
                Some(scan_run(s, i, CharClass::Space))
            } else {
                None
            }
        },
        TokKind::Nl => match_single(s, i, '\n'),
        TokKind::CR => match_single(s, i, '\r'),
        TokKind::Tab => match_single(s, i, '\t'),
    }
}

/// Matches the single literal character `c` at `i`.
fn match_single(s: &str, i: usize, c: char) -> (r: Option<usize>)
    requires
        i <= s@.len(),
    ensures
        match r {
            Some(l) => single_char_match(s@, i as int, c) == Some(l as int),
            None => single_char_match(s@, i as int, c) is None,
        },
{
    if i < s.unicode_len() && s.get_char(i) == c {
        Some(1)
    } else {
        None
    }
}

/// Matches the character `c` twice in a row at `i`.
fn match_double(s: &str, i: usize, c: char) -> (r: Option<usize>)
    requires
        i <= s@.len(),
    ensures
        match r {
            Some(l) => double_char_match(s@, i as int, c) == Some(l as int),
            None => double_char_match(s@, i as int, c) is None,
        },
{
    let n = s.unicode_len();
    if i < n && i + 1 < n && s.get_char(i) == c && s.get_char(i + 1) == c {
        Some(2)
    } else {
        None
    }
}

/// Matches a reserved word at `i`: `char`, then `int`.
fn match_keyword(s: &str, i: usize) -> (r: Option<usize>)
    requires
        i <= s@.len(),
    ensures
        match r {
            Some(l) => keyword_match(s@, i as int) == Some(l as int),
            None => keyword_match(s@, i as int) is None,
        },
{
    let n = s.unicode_len();
    if n - i >= 4 && s.get_char(i) == 'c' && s.get_char(i + 1) == 'h' && s.get_char(i + 2) == 'a'
        && s.get_char(i + 3) == 'r' {
        proof {
            assert(s@.subrange(i as int, i + 4) =~= kw_char());
        }
        Some(4)
    } else if n - i >= 3 && s.get_char(i) == 'i' && s.get_char(i + 1) == 'n' && s.get_char(i + 2)
        == 't' {
        proof {
            assert(s@.subrange(i as int, i + 3) =~= kw_int());
            assert(!matches_at(s@, i as int, kw_char())) by {
                if matches_at(s@, i as int, kw_char()) {
                    assert(s@.subrange(i as int, i + 4)[0] == s@[i as int]);
                }
            }
        }
        Some(3)
    } else {
        proof {
            if matches_at(s@, i as int, kw_char()) {
                assert(s@.subrange(i as int, i + 4)[0] == s@[i as int]);
                assert(s@.subrange(i as int, i + 4)[1] == s@[i + 1]);
                assert(s@.subrange(i as int, i + 4)[2] == s@[i + 2]);
                assert(s@.subrange(i as int, i + 4)[3] == s@[i + 3]);
            }
            if matches_at(s@, i as int, kw_int()) {
                assert(s@.subrange(i as int, i + 3)[0] == s@[i as int]);
                assert(s@.subrange(i as int, i + 3)[1] == s@[i + 1]);
                assert(s@.subrange(i as int, i + 3)[2] == s@[i + 2]);
            }
        }
        None
    }
}

/// Matches a literal at `i`: string, character, or digit run.
fn match_lit(s: &str, i: usize) -> (r: Option<usize>)
    requires
        i <= s@.len(),
    ensures
        match r {
            Some(l) => lit_match(s@, i as int) == Some(l as int),
            None => lit_match(s@, i as int) is None,
        },
{
    let n = s.unicode_len();
    if i >= n {
        return None;
    }
    let c = s.get_char(i);
    if c == '"' {
        match scan_string_body(s, i + 1) {
            Some(e) => Some(e - i),
            None => None,
        }
    } else if c == '\'' {
        if i + 1 < n && s.get_char(i + 1) == '\'' {
            Some(2)
        } else if n - i > 2 && s.get_char(i + 1) != '\'' && s.get_char(i + 2) == '\'' {
            Some(3)
        } else if n - i > 2 && s.get_char(i + 1) == '\\' && s.get_char(i + 2) != '\n' {
            match scan_char_close(s, i + 3) {
                Some(e) => Some(e - i),
                None => None,
            }
        } else {
            None
        }
    } else if in_class_exec(c, CharClass::Digit) {
        Some(scan_run(s, i, CharClass::Digit))
    } else {
        None
    }
}

/// Matches a comment at `i`: line comment, then block comment.
fn match_comment(s: &str, i: usize) -> (r: Option<usize>)
    requires
        i <= s@.len(),
    ensures
        match r {
            Some(l) => comment_match(s@, i as int) == Some(l as int),
            None => comment_match(s@, i as int) is None,
        },
{
    let n = s.unicode_len();
    if n - i >= 2 && s.get_char(i) == '/' && s.get_char(i + 1) == '/' {
        proof {
            lemma_run_len_bound(s@, i + 2, CharClass::NonNl);
        }
        Some(2 + scan_run(s, i + 2, CharClass::NonNl))
    } else if n - i >= 2 && s.get_char(i) == '/' && s.get_char(i + 1) == '*' {
        match scan_block_end(s, i + 2) {
            Some(e) => Some(e - i),
            None => None,
        }
    } else {
        None
    }
}

} // verus!
