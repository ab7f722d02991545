//! Text helpers over strings viewed as sequences of characters.

use vstd::prelude::*;
use vstd::string::*;

verus! {

/// `p` occurs in `t` as a contiguous run of characters.
pub open spec fn occurs_in(t: Seq<char>, p: Seq<char>) -> bool {
    exists|i: int| 0 <= i <= t.len() - p.len() && #[trigger] t.subrange(i, i + p.len()) == p
}

/// `p` is a prefix of `t`.
pub open spec fn is_prefix(t: Seq<char>, p: Seq<char>) -> bool {
    p.len() <= t.len() && t.subrange(0, p.len() as int) == p
}

/// Tells whether two strings hold the same characters.
pub fn same_text(a: &str, b: &str) -> (r: bool)
    ensures
        r == (a@ == b@),
{
    let n = a.unicode_len();
    if n != b.unicode_len() {
        return false;
    }
    let mut i: usize = 0;
    while i < n
        invariant
            n == a@.len(),
            n == b@.len(),
            i <= n,
            a@.subrange(0, i as int) == b@.subrange(0, i as int),
        decreases n - i,
    {
        if a.get_char(i) != b.get_char(i) {
            return false;
        }
        assert(a@.subrange(0, i + 1) =~= a@.subrange(0, i as int).push(a@[i as int]));
        assert(b@.subrange(0, i + 1) =~= b@.subrange(0, i as int).push(b@[i as int]));
        i = i + 1;
    }
    assert(a@ =~= a@.subrange(0, n as int));
    assert(b@ =~= b@.subrange(0, n as int));
    true
}

/// Tells whether `t` begins with `p`.
pub fn starts_with_text(t: &str, p: &str) -> (r: bool)
    ensures
        r == is_prefix(t@, p@),
{
    let n = p.unicode_len();
    if n > t.unicode_len() {
        return false;
    }
    let mut i: usize = 0;
    while i < n
        invariant
            n == p@.len(),
            n <= t@.len(),
            i <= n,
            t@.subrange(0, i as int) == p@.subrange(0, i as int),
        decreases n - i,
    {
        if t.get_char(i) != p.get_char(i) {
            assert(t@.subrange(0, n as int)[i as int] != p@[i as int]);
            return false;
        }
        assert(t@.subrange(0, i + 1) =~= t@.subrange(0, i as int).push(t@[i as int]));
        assert(p@.subrange(0, i + 1) =~= p@.subrange(0, i as int).push(p@[i as int]));
        i = i + 1;
    }
    assert(p@ =~= p@.subrange(0, n as int));
    true
}

/// Tells whether `p` matches `t` at character position `at`.
fn matches_at(t: &str, p: &str, at: usize) -> (r: bool)
    requires
        at + p@.len() <= t@.len(),
    ensures
        r == (t@.subrange(at as int, at + p@.len()) == p@),
{
    let n = p.unicode_len();
    let tn = t.unicode_len();
    let mut i: usize = 0;
    while i < n
        invariant
            n == p@.len(),
            tn == t@.len(),
            at + n <= t@.len(),
            i <= n,
            t@.subrange(at as int, at + i) == p@.subrange(0, i as int),
        decreases n - i,
    {
        if t.get_char(at + i) != p.get_char(i) {
            assert(t@.subrange(at as int, at + n)[i as int] != p@[i as int]);
            return false;
        }
        assert(t@.subrange(at as int, at + i + 1) =~= t@.subrange(at as int, at + i).push(
            t@[at + i],
        ));
        assert(p@.subrange(0, i + 1) =~= p@.subrange(0, i as int).push(p@[i as int]));
        i = i + 1;
    }
    assert(p@ =~= p@.subrange(0, n as int));
    true
}

/// Tells whether `p` occurs anywhere in `t`; the empty string occurs in every text.
pub fn contains_text(t: &str, p: &str) -> (r: bool)
    ensures
        r == occurs_in(t@, p@),
{
    let n = t.unicode_len();
    let m = p.unicode_len();
    if m > n {
        return false;
    }
    if m == 0 {
        assert(t@.subrange(0, 0 + p@.len() as int) =~= p@);
        return true;
    }
    let mut at: usize = 0;
    while at <= n - m
        invariant
            n == t@.len(),
            m == p@.len(),
            0 < m <= n,
            at <= n - m + 1,
            forall|k: int| 0 <= k < at ==> #[trigger] t@.subrange(k, k + m) != p@,
        decreases n - m + 1 - at,
    {
        if matches_at(t, p, at) {
            return true;
        }
        at = at + 1;
    }
    false
}


/// The lines of `s` from character `i` on, where the line under way began at `start`:
/// lines end at each newline, and a final empty piece after a trailing newline is
/// not a line.
pub open spec fn lines_from(s: Seq<char>, start: int, i: int) -> Seq<Seq<char>>
    decreases s.len() - i,
{
    if i >= s.len() {
        if start < s.len() {
            seq![s.subrange(start, s.len() as int)]
        } else {
            seq![]
        }
    } else if s[i] == '\n' {
        seq![s.subrange(start, i)] + lines_from(s, i + 1, i + 1)
    } else {
        lines_from(s, start, i + 1)
    }
}

/// The newline-terminated lines of `s`.
pub open spec fn lines_of(s: Seq<char>) -> Seq<Seq<char>> {
    lines_from(s, 0, 0)
}

/// The characters of each string of a sequence.
pub open spec fn texts(v: Seq<String>) -> Seq<Seq<char>> {
    v.map_values(|x: String| x@)
}

/// Copies the characters of `s` into a new string.
pub fn owned_text(s: &str) -> (r: String)
    ensures
        r@ == s@,
{
    s.to_owned()
}

/// Splits `s` into its lines: at each newline, with no empty line after a
/// trailing newline.
pub fn split_lines(s: &str) -> (r: Vec<String>)
    ensures
        texts(r@) == lines_of(s@),
{
    let n = s.unicode_len();
    let mut out: Vec<String> = Vec::new();
    let mut start: usize = 0;
    let mut i: usize = 0;
    while i < n
        invariant
            n == s@.len(),
            start <= i <= n,
            texts(out@) + lines_from(s@, start as int, i as int) == lines_of(s@),
        decreases n - i,
    {
        if s.get_char(i) == '\n' {
            let piece = owned_text(s.substring_char(start, i));
            let ghost before = out@;
            out.push(piece);
            assert(texts(out@) =~= texts(before).push(piece@));
            assert(texts(before) + lines_from(s@, start as int, i as int) =~= texts(out@)
                + lines_from(s@, i + 1, i + 1));
            start = i + 1;
        }
        i = i + 1;
    }
    if start < n {
        let piece = owned_text(s.substring_char(start, n));
        let ghost before = out@;
        out.push(piece);
        assert(texts(out@) =~= texts(before).push(piece@));
        assert(texts(before) + lines_from(s@, start as int, n as int) =~= texts(out@));
    } else {
        assert(texts(out@) + lines_from(s@, start as int, n as int) =~= texts(out@));
    }
    out
}

/// `a` comes before `b` in the order of their characters' code points, looking
/// from position `i` on, a proper prefix coming first.
pub open spec fn lex_below(a: Seq<char>, b: Seq<char>, i: int) -> bool
    decreases a.len() - i,
{
    if i >= a.len() {
        i < b.len()
    } else if i >= b.len() {
        false
    } else if a[i] != b[i] {
        (a[i] as u32) < (b[i] as u32)
    } else {
        lex_below(a, b, i + 1)
    }
}

/// The lexicographic order of strings by code point, which is the order of `String`.
pub open spec fn lex_lt(a: Seq<char>, b: Seq<char>) -> bool {
    lex_below(a, b, 0)
}

/// No string comes before itself.
pub proof fn lemma_lex_irreflexive(a: Seq<char>, i: int)
    requires
        0 <= i,
    ensures
        !lex_below(a, a, i),
    decreases a.len() - i,
{
    if i < a.len() {
        lemma_lex_irreflexive(a, i + 1);
    }
}

/// Of two strings at most one comes before the other.
pub proof fn lemma_lex_asymmetric(a: Seq<char>, b: Seq<char>, i: int)
    requires
        0 <= i,
        lex_below(a, b, i),
    ensures
        !lex_below(b, a, i),
    decreases a.len() - i,
{
    if i < a.len() && i < b.len() && a[i] == b[i] {
        lemma_lex_asymmetric(a, b, i + 1);
    }
}

/// The order is transitive.
pub proof fn lemma_lex_transitive(a: Seq<char>, b: Seq<char>, c: Seq<char>, i: int)
    requires
        0 <= i,
        lex_below(a, b, i),
        lex_below(b, c, i),
    ensures
        lex_below(a, c, i),
    decreases a.len() - i,
{
    if i < a.len() && i < b.len() && i < c.len() && a[i] == b[i] && b[i] == c[i] {
        lemma_lex_transitive(a, b, c, i + 1);
    }
}

/// Tells whether `a` comes before `b` in the order of `String`.
pub fn text_below(a: &str, b: &str) -> (r: bool)
    ensures
        r == lex_lt(a@, b@),
{
    let n = a.unicode_len();
    let m = b.unicode_len();
    let mut i: usize = 0;
    while i < n && i < m
        invariant
            n == a@.len(),
            m == b@.len(),
            i <= n,
            i <= m,
            lex_below(a@, b@, i as int) == lex_lt(a@, b@),
        decreases n - i,
    {
        let x = a.get_char(i);
        let y = b.get_char(i);
        if x != y {
            return (x as u32) < (y as u32);
        }
        i = i + 1;
    }
    i < m
}

/// Whether a character is uppercase in Unicode's sense.
pub uninterp spec fn upper_char(c: char) -> bool;

/// Whether a character is numeric in Unicode's sense.
pub uninterp spec fn numeric_char(c: char) -> bool;

/// A string with the whitespace at both of its ends taken off.
pub uninterp spec fn trimmed(s: Seq<char>) -> Seq<char>;

/// Relies on `char::is_uppercase`: Unicode's `Uppercase` property of `c`.
#[verifier::external_body]
fn char_is_uppercase(c: char) -> (r: bool)
    ensures
        r == upper_char(c),
{
    c.is_uppercase()
}

/// Relies on `char::is_numeric`: Unicode's numeric general categories for `c`.
#[verifier::external_body]
fn char_is_numeric(c: char) -> (r: bool)
    ensures
        r == numeric_char(c),
{
    c.is_numeric()
}

/// Relies on `str::trim`: `s` without its leading and trailing whitespace.
#[verifier::external_body]
pub(crate) fn trim_text(s: &str) -> (r: String)
    ensures
        r@ == trimmed(s@),
{
    s.trim().to_owned()
}

/// A well-formed reward code: more than five characters, each of them uppercase
/// or numeric.
pub open spec fn reward_code_ok(s: Seq<char>) -> bool {
    &&& s.len() > 5
    &&& forall|i: int| 0 <= i < s.len() ==> upper_char(#[trigger] s[i]) || numeric_char(s[i])
}

/// Tells whether a line is a well-formed reward code.
pub fn is_reward_code(s: &str) -> (r: bool)
    ensures
        r == reward_code_ok(s@),
{
    let n = s.unicode_len();
    let mut i: usize = 0;
    while i < n
        invariant
            n == s@.len(),
            i <= n,
            forall|k: int| 0 <= k < i ==> upper_char(#[trigger] s@[k]) || numeric_char(s@[k]),
        decreases n - i,
    {
        let c = s.get_char(i);
        if !char_is_uppercase(c) && !char_is_numeric(c) {
            return false;
        }
        i = i + 1;
    }
    n > 5
}

/// The character of a decimal digit.
pub open spec fn digit_char(d: nat) -> char {
    if d == 0 { '0' } else if d == 1 { '1' } else if d == 2 { '2' } else if d == 3 { '3' }
    else if d == 4 { '4' } else if d == 5 { '5' } else if d == 6 { '6' } else if d == 7 { '7' }
    else if d == 8 { '8' } else { '9' }
}

/// The decimal numeral of `n`, without leading zeros.
pub open spec fn decimal(n: nat) -> Seq<char>
    decreases n,
{
    if n < 10 {
        seq![digit_char(n)]
    } else {
        decimal(n / 10).push(digit_char(n % 10))
    }
}

/// Relies on `usize`'s `Display`, through `to_string`: the decimal numeral of `n`.
#[verifier::external_body]
pub(crate) fn decimal_text(n: usize) -> (r: String)
    ensures
        r@ == decimal(n as nat),
{
    n.to_string()
}

} // verus!
