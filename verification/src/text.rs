//! Text as sequences of characters: searching, splitting, ordering and
//! decimal numerals, each with the executable function that computes it.

use vstd::prelude::*;

verus! {

/// `String::push` of the standard library: the character is appended at the
/// end and nothing else changes.
pub assume_specification[ String::push ](s: &mut String, c: char)
    ensures
        final(s)@ == old(s)@.push(c),
;

/// The views of a sequence of strings, in order.
pub open spec fn texts(strings: Seq<String>) -> Seq<Seq<char>> {
    strings.map_values(|s: String| s@)
}

/// Position of the first occurrence of `pat` in `s`, or `s.len()` where `s`
/// does not hold `pat`.
pub open spec fn first_match(s: Seq<char>, pat: Seq<char>) -> int
    decreases s.len(),
{
    if s.len() < pat.len() {
        s.len() as int
    } else if pat.len() == 0 || s.take(pat.len() as int) == pat {
        0
    } else {
        1 + first_match(s.skip(1), pat)
    }
}

/// Whether `s` holds `pat` somewhere.
pub open spec fn has_match(s: Seq<char>, pat: Seq<char>) -> bool {
    first_match(s, pat) + pat.len() <= s.len()
}

/// The pieces of `s` between the occurrences of the pattern `pat`, found
/// from the left and not overlapping. With `n` occurrences there are `n + 1`
/// pieces, some of them possibly empty. An empty pattern cuts nowhere.
pub open spec fn split_on(s: Seq<char>, pat: Seq<char>) -> Seq<Seq<char>>
    decreases s.len(),
{
    let at = first_match(s, pat);
    if pat.len() > 0 && has_match(s, pat) {
        proof {
            lemma_first_match_bounds(s, pat);
        }
        seq![s.take(at)] + split_on(s.skip(at + pat.len()), pat)
    } else {
        seq![s]
    }
}

/// Whether `pat` stands in `s` at position `at`.
pub open spec fn occurs_at(s: Seq<char>, pat: Seq<char>, at: int) -> bool {
    0 <= at && at + pat.len() <= s.len() && s.subrange(at, at + pat.len()) == pat
}

/// `first_match` lies within `s`; where it reports an occurrence the pattern
/// stands there, and it stands nowhere before.
pub proof fn lemma_first_match_bounds(s: Seq<char>, pat: Seq<char>)
    ensures
        0 <= first_match(s, pat) <= s.len(),
        has_match(s, pat) ==> occurs_at(s, pat, first_match(s, pat)),
        !has_match(s, pat) ==> first_match(s, pat) == s.len(),
        forall|i: int| 0 <= i < first_match(s, pat) ==> !#[trigger] occurs_at(s, pat, i),
    decreases s.len(),
{
    if s.len() < pat.len() {
    } else if pat.len() == 0 || s.take(pat.len() as int) == pat {
        assert(pat.len() == 0 ==> s.subrange(0, 0) =~= pat);
    } else {
        let rest = s.skip(1);
        lemma_first_match_bounds(rest, pat);
        let at = first_match(rest, pat);
        if has_match(rest, pat) {
            assert(s.subrange(1 + at, 1 + at + pat.len()) =~= rest.subrange(at, at + pat.len()));
        }
        assert forall|i: int| 0 <= i < first_match(s, pat) implies !#[trigger] occurs_at(
            s,
            pat,
            i,
        ) by {
            if i > 0 && i + pat.len() <= s.len() {
                assert(s.subrange(i, i + pat.len()) =~= rest.subrange(i - 1, i - 1 + pat.len()));
                assert(!occurs_at(rest, pat, i - 1));
            }
        }
    }
}

/// A text that lacks the first character of a pattern does not hold the
/// pattern, and splitting it gives the text itself.
pub proof fn lemma_split_without_match(s: Seq<char>, pat: Seq<char>)
    requires
        pat.len() > 0,
        !s.contains(pat[0]),
    ensures
        !has_match(s, pat),
        split_on(s, pat) == seq![s],
{
    lemma_first_match_bounds(s, pat);
}

/// The characters of a string slice, as a vector.
pub fn to_chars(s: &str) -> (chars: Vec<char>)
    ensures
        chars@ == s@,
{
    let mut chars: Vec<char> = Vec::new();
    for c in iter: s.chars()
        invariant
            chars@ == iter.seq().take(iter.index() as int),
            iter.seq() == s@,
    {
        chars.push(c);
    }
    chars
}

/// The characters of `chars` from `from` up to `to`, as a string.
pub fn substring(chars: &Vec<char>, from: usize, to: usize) -> (s: String)
    requires
        from <= to <= chars.len(),
    ensures
        s@ == chars@.subrange(from as int, to as int),
{
    let mut s = String::new();
    let mut i: usize = from;
    while i < to
        invariant
            from <= i <= to <= chars.len(),
            s@ == chars@.subrange(from as int, i as int),
        decreases to - i,
    {
        s.push(chars[i]);
        i += 1;
    }
    s
}

/// Whether two string slices hold the same characters.
pub fn same_text(a: &str, b: &str) -> (same: bool)
    ensures
        same == (a@ == b@),
{
    let left = a.to_owned();
    let right = b.to_owned();
    left == right
}

/// Whether `pat` stands in `chars` at position `at`.
fn matches_at(chars: &Vec<char>, pat: &Vec<char>, at: usize) -> (found: bool)
    requires
        at + pat.len() <= chars.len(),
    ensures
        found == (chars@.subrange(at as int, at + pat.len()) == pat@),
{
    let mut k: usize = 0;
    while k < pat.len()
        invariant
            k <= pat.len(),
            at + pat.len() <= chars.len(),
            chars@.subrange(at as int, at + k) == pat@.take(k as int),
        decreases pat.len() - k,
    {
        if chars[at + k] != pat[k] {
            return false;
        }
        k += 1;
    }
    assert(pat@.take(pat.len() as int) =~= pat@);
    true
}

/// Position of the first occurrence of `pat` in `chars` at or after `from`,
/// or `chars.len()` where there is none.
pub fn find(chars: &Vec<char>, pat: &Vec<char>, from: usize) -> (at: usize)
    requires
        from <= chars.len(),
    ensures
        at == from + first_match(chars@.skip(from as int), pat@),
        from <= at <= chars.len(),
{
    let mut at: usize = from;
    loop
        invariant
            from <= at <= chars.len(),
            from + first_match(chars@.skip(from as int), pat@) == at + first_match(
                chars@.skip(at as int),
                pat@,
            ),
        decreases chars.len() - at,
    {
        let ghost rest = chars@.skip(at as int);
        if chars.len() - at < pat.len() {
            return chars.len();
        }
        let found = matches_at(chars, pat, at);
        proof {
            assert(rest.take(pat.len() as int) =~= chars@.subrange(at as int, at + pat.len()));
        }
        if found {
            return at;
        }
        proof {
            if pat.len() == 0 {
                assert(chars@.subrange(at as int, at as int) =~= pat@);
            }
            assert(rest.skip(1) =~= chars@.skip(at + 1));
        }
        at += 1;
    }
}

/// The pieces of `s` between the occurrences of `pat`; `s` itself where
/// `pat` is empty.
pub fn split(s: &str, pat: &str) -> (pieces: Vec<String>)
    ensures
        texts(pieces@) == split_on(s@, pat@),
{
    let chars = to_chars(s);
    let pat_chars = to_chars(pat);
    let mut pieces: Vec<String> = Vec::new();
    if pat_chars.len() == 0 {
        let whole = substring(&chars, 0, chars.len());
        assert(whole@ =~= s@);
        pieces.push(whole);
        return pieces;
    }
    let mut start: usize = 0;
    assert(chars@.skip(0) =~= s@);
    loop
        invariant
            chars@ == s@,
            pat_chars@ == pat@,
            pat@.len() > 0,
            start <= chars.len(),
            split_on(s@, pat@) == texts(pieces@) + split_on(chars@.skip(start as int), pat@),
        decreases chars.len() - start,
    {
        let ghost rest = chars@.skip(start as int);
        let at = find(&chars, &pat_chars, start);
        proof {
            lemma_first_match_bounds(rest, pat@);
        }
        if at < chars.len() && chars.len() - at >= pat_chars.len() {
            let piece = substring(&chars, start, at);
            pieces.push(piece);
            proof {
                assert(rest.take(at - start) =~= chars@.subrange(start as int, at as int));
                assert(rest.skip(at - start + pat@.len()) =~= chars@.skip(at + pat@.len()));
            }
            start = at + pat_chars.len();
        } else {
            let piece = substring(&chars, start, chars.len());
            pieces.push(piece);
            return pieces;
        }
    }
}

/// The order of two texts by their characters' code points, the first
/// difference deciding and a proper prefix coming first.
pub open spec fn lex_lt(a: Seq<char>, b: Seq<char>) -> bool
    decreases a.len(),
{
    if b.len() == 0 {
        false
    } else if a.len() == 0 {
        true
    } else if a[0] != b[0] {
        a[0] < b[0]
    } else {
        lex_lt(a.skip(1), b.skip(1))
    }
}

/// No text comes before itself.
pub proof fn lemma_lex_irreflexive(a: Seq<char>)
    ensures
        !lex_lt(a, a),
    decreases a.len(),
{
    if a.len() > 0 {
        lemma_lex_irreflexive(a.skip(1));
    }
}

/// Of two different texts one comes before the other.
pub proof fn lemma_lex_total(a: Seq<char>, b: Seq<char>)
    ensures
        lex_lt(a, b) || lex_lt(b, a) || a == b,
        !(lex_lt(a, b) && lex_lt(b, a)),
    decreases a.len(),
{
    if a.len() > 0 && b.len() > 0 && a[0] == b[0] {
        lemma_lex_total(a.skip(1), b.skip(1));
        if a.skip(1) == b.skip(1) {
            assert(b =~= seq![b[0]] + b.skip(1));
        }
    }
}

/// The order is transitive.
pub proof fn lemma_lex_transitive(a: Seq<char>, b: Seq<char>, c: Seq<char>)
    requires
        lex_lt(a, b),
        lex_lt(b, c),
    ensures
        lex_lt(a, c),
    decreases a.len(),
{
    if a.len() > 0 && a[0] == b[0] && b[0] == c[0] {
        lemma_lex_transitive(a.skip(1), b.skip(1), c.skip(1));
    }
}

/// How one text stands to another in the order of `lex_lt`.
#[derive(Clone, Copy, PartialEq, Eq, Debug, Structural)]
pub enum Rank {
    Before,
    Same,
    After,
}

/// Ranks `a` against `b`.
pub fn rank(a: &str, b: &str) -> (r: Rank)
    ensures
        r == Rank::Before <==> lex_lt(a@, b@),
        r == Rank::Same <==> a@ == b@,
        r == Rank::After <==> lex_lt(b@, a@),
{
    let left = to_chars(a);
    let right = to_chars(b);
    let mut i: usize = 0;
    proof {
        lemma_lex_total(a@, b@);
        lemma_lex_irreflexive(a@);
        assert(left@.skip(0) =~= a@);
        assert(right@.skip(0) =~= b@);
    }
    while i < left.len() && i < right.len()
        invariant
            left@ == a@,
            right@ == b@,
            i <= left.len(),
            i <= right.len(),
            lex_lt(a@, b@) == lex_lt(left@.skip(i as int), right@.skip(i as int)),
            lex_lt(b@, a@) == lex_lt(right@.skip(i as int), left@.skip(i as int)),
        decreases left.len() - i,
    {
        proof {
            assert(left@.skip(i as int).skip(1) =~= left@.skip(i + 1));
            assert(right@.skip(i as int).skip(1) =~= right@.skip(i + 1));
        }
        if left[i] < right[i] {
            return Rank::Before;
        }
        if right[i] < left[i] {
            return Rank::After;
        }
        i += 1;
    }
    if i < right.len() {
        Rank::Before
    } else if i < left.len() {
        Rank::After
    } else {
        Rank::Same
    }
}

/// Whether a character is white space: one of the characters that Unicode
/// marks as `White_Space`.
pub open spec fn is_whitespace(c: char) -> bool {
    ||| c == ' '
    ||| ('\u{9}' <= c && c <= '\u{d}')
    ||| c == '\u{85}'
    ||| c == '\u{a0}'
    ||| c == '\u{1680}'
    ||| ('\u{2000}' <= c && c <= '\u{200a}')
    ||| c == '\u{2028}'
    ||| c == '\u{2029}'
    ||| c == '\u{202f}'
    ||| c == '\u{205f}'
    ||| c == '\u{3000}'
}

/// A text without the white space at its end.
pub open spec fn trim_end(s: Seq<char>) -> Seq<char>
    decreases s.len(),
{
    if s.len() > 0 && is_whitespace(s.last()) {
        trim_end(s.drop_last())
    } else {
        s
    }
}

/// Whether `c` is white space.
pub fn white_space(c: char) -> (white: bool)
    ensures
        white == is_whitespace(c),
{
    c == ' ' || ('\u{9}' <= c && c <= '\u{d}') || c == '\u{85}' || c == '\u{a0}' || c
        == '\u{1680}' || ('\u{2000}' <= c && c <= '\u{200a}') || c == '\u{2028}' || c
        == '\u{2029}' || c == '\u{202f}' || c == '\u{205f}' || c == '\u{3000}'
}

/// The character of a decimal digit.
pub open spec fn digit(d: int) -> char {
    if d == 0 {
        '0'
    } else if d == 1 {
        '1'
    } else if d == 2 {
        '2'
    } else if d == 3 {
        '3'
    } else if d == 4 {
        '4'
    } else if d == 5 {
        '5'
    } else if d == 6 {
        '6'
    } else if d == 7 {
        '7'
    } else if d == 8 {
        '8'
    } else {
        '9'
    }
}

/// The decimal numeral of a natural number, without leading zeros.
pub open spec fn decimal(n: nat) -> Seq<char>
    decreases n,
{
    if n < 10 {
        seq![digit(n as int)]
    } else {
        decimal(n / 10).push(digit((n % 10) as int))
    }
}

/// Appends the decimal numeral of `n` to `out`.
pub fn push_decimal(out: &mut String, n: usize)
    ensures
        final(out)@ == old(out)@ + decimal(n as nat),
    decreases n,
{
    if n >= 10 {
        push_decimal(out, n / 10);
    }
    let d = n % 10;
    let c = if d == 0 {
        '0'
    } else if d == 1 {
        '1'
    } else if d == 2 {
        '2'
    } else if d == 3 {
        '3'
    } else if d == 4 {
        '4'
    } else if d == 5 {
        '5'
    } else if d == 6 {
        '6'
    } else if d == 7 {
        '7'
    } else if d == 8 {
        '8'
    } else {
        '9'
    };
    out.push(c);
}

} // verus!
