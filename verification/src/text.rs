//! Character-level helpers shared by the parsers of this crate.
//!
//! Text is scanned as a vector of `char`s, and every result is stated over
//! the `Seq<char>` view of the text.

use vstd::prelude::*;
use vstd::string::*;

verus! {

/// Whether `c` carries the Unicode `White_Space` property.
pub open spec fn is_whitespace(c: char) -> bool {
    let n = c as u32;
    ||| 0x09 <= n <= 0x0D
    ||| n == 0x20
    ||| n == 0x85
    ||| n == 0xA0
    ||| n == 0x1680
    ||| 0x2000 <= n <= 0x200A
    ||| n == 0x2028
    ||| n == 0x2029
    ||| n == 0x202F
    ||| n == 0x205F
    ||| n == 0x3000
}

/// The index of the first occurrence of `c` in `s`, or `s.len()` if `c` does
/// not occur.
pub open spec fn first_index_of(s: Seq<char>, c: char) -> int
    decreases s.len(),
{
    if s.len() == 0 || s[0] == c {
        0
    } else {
        1 + first_index_of(s.drop_first(), c)
    }
}

/// The number of whitespace characters at the start of `s`.
pub open spec fn leading_whitespace(s: Seq<char>) -> int
    decreases s.len(),
{
    if s.len() > 0 && is_whitespace(s[0]) {
        1 + leading_whitespace(s.drop_first())
    } else {
        0
    }
}

/// The number of whitespace characters at the end of `s`.
pub open spec fn trailing_whitespace(s: Seq<char>) -> int
    decreases s.len(),
{
    if s.len() > 0 && is_whitespace(s.last()) {
        1 + trailing_whitespace(s.drop_last())
    } else {
        0
    }
}

/// `s` without its leading whitespace.
pub open spec fn trim_start(s: Seq<char>) -> Seq<char> {
    s.skip(leading_whitespace(s))
}

/// `s` without its trailing whitespace.
pub open spec fn trim_end(s: Seq<char>) -> Seq<char> {
    s.take(s.len() - trailing_whitespace(s))
}

/// `s` without leading and trailing whitespace.
pub open spec fn trim(s: Seq<char>) -> Seq<char> {
    trim_end(trim_start(s))
}

/// `first_index_of(s, c)` is the only index `m` such that `c` does not occur
/// before `m` and either `m` ends `s` or `s[m]` is `c`.
pub proof fn lemma_first_index_of(s: Seq<char>, c: char, m: int)
    requires
        0 <= m <= s.len(),
        forall|k: int| 0 <= k < m ==> s[k] != c,
        m == s.len() || s[m] == c,
    ensures
        first_index_of(s, c) == m,
    decreases s.len(),
{
    if s.len() > 0 && m > 0 {
        let t = s.drop_first();
        assert forall|k: int| 0 <= k < m - 1 implies t[k] != c by {
            assert(t[k] == s[k + 1]);
        }
        lemma_first_index_of(t, c, m - 1);
    }
}

/// `first_index_of(s, c)` lies within `0..=s.len()`, `c` does not occur
/// before it, and `c` stands at it unless it ends `s`.
pub proof fn lemma_first_index_of_in_range(s: Seq<char>, c: char)
    ensures
        0 <= first_index_of(s, c) <= s.len(),
        forall|k: int| 0 <= k < first_index_of(s, c) ==> s[k] != c,
        first_index_of(s, c) < s.len() ==> s[first_index_of(s, c)] == c,
    decreases s.len(),
{
    if s.len() > 0 && s[0] != c {
        let t = s.drop_first();
        lemma_first_index_of_in_range(t, c);
        assert forall|k: int| 0 <= k < first_index_of(s, c) implies s[k] != c by {
            if k > 0 {
                assert(s[k] == t[k - 1]);
            }
        }
    }
}

/// `leading_whitespace(s)` is the only `m` such that everything before `m`
/// is whitespace and either `m` ends `s` or `s[m]` is not whitespace.
pub proof fn lemma_leading_whitespace(s: Seq<char>, m: int)
    requires
        0 <= m <= s.len(),
        forall|k: int| 0 <= k < m ==> is_whitespace(s[k]),
        m == s.len() || !is_whitespace(s[m]),
    ensures
        leading_whitespace(s) == m,
    decreases s.len(),
{
    if s.len() > 0 && m > 0 {
        let t = s.drop_first();
        assert forall|k: int| 0 <= k < m - 1 implies is_whitespace(t[k]) by {
            assert(t[k] == s[k + 1]);
        }
        lemma_leading_whitespace(t, m - 1);
    }
}

/// `trailing_whitespace(s)` is the only `m` such that the last `m`
/// characters are whitespace and the one before them, if any, is not.
pub proof fn lemma_trailing_whitespace(s: Seq<char>, m: int)
    requires
        0 <= m <= s.len(),
        forall|k: int| s.len() - m <= k < s.len() ==> is_whitespace(s[k]),
        m == s.len() || !is_whitespace(s[s.len() - m - 1]),
    ensures
        trailing_whitespace(s) == m,
    decreases s.len(),
{
    if s.len() > 0 && m > 0 {
        let t = s.drop_last();
        assert forall|k: int| t.len() - (m - 1) <= k < t.len() implies is_whitespace(t[k]) by {
            assert(t[k] == s[k]);
        }
        lemma_trailing_whitespace(t, m - 1);
    }
}

/// The characters of `s`, in order.
pub fn chars_of(s: &str) -> (out: Vec<char>)
    ensures
        out@ == s@,
{
    let mut out: Vec<char> = Vec::new();
    for c in it: s.chars()
        invariant
            out@ == it.seq().take(it.index() as int),
            it.seq() == s@,
    {
        out.push(c);
    }
    out
}

/// Whether `c` is a whitespace character.
pub fn char_is_whitespace(c: char) -> (r: bool)
    ensures
        r == is_whitespace(c),
{
    let n: u32 = c as u32;
    (0x09 <= n && n <= 0x0D) || n == 0x20 || n == 0x85 || n == 0xA0 || n == 0x1680 || (0x2000 <= n
        && n <= 0x200A) || n == 0x2028 || n == 0x2029 || n == 0x202F || n == 0x205F || n == 0x3000
}

/// The position of the first `c` in `chars[lo..hi]`, or `hi` if there is
/// none.
pub fn find_char(chars: &Vec<char>, lo: usize, hi: usize, c: char) -> (i: usize)
    requires
        lo <= hi <= chars.len(),
    ensures
        lo <= i <= hi,
        i - lo == first_index_of(chars@.subrange(lo as int, hi as int), c),
{
    let mut i: usize = lo;
    while i < hi && chars[i] != c
        invariant
            lo <= i <= hi <= chars.len(),
            forall|k: int| lo <= k < i ==> chars@[k] != c,
        decreases hi - i,
    {
        i += 1;
    }
    proof {
        lemma_first_index_of(chars@.subrange(lo as int, hi as int), c, i - lo);
    }
    i
}

/// The bounds of `chars[lo..hi]` without its leading and trailing
/// whitespace.
pub fn trim_range(chars: &Vec<char>, lo: usize, hi: usize) -> (r: (usize, usize))
    requires
        lo <= hi <= chars.len(),
    ensures
        lo <= r.0 <= r.1 <= hi,
        chars@.subrange(r.0 as int, r.1 as int) == trim(chars@.subrange(lo as int, hi as int)),
{
    let mut a: usize = lo;
    while a < hi && char_is_whitespace(chars[a])
        invariant
            lo <= a <= hi <= chars.len(),
            forall|k: int| lo <= k < a ==> is_whitespace(chars@[k]),
        decreases hi - a,
    {
        a += 1;
    }
    let mut b: usize = hi;
    while b > a && char_is_whitespace(chars[b - 1])
        invariant
            a <= b <= hi <= chars.len(),
            forall|k: int| b <= k < hi ==> is_whitespace(chars@[k]),
        decreases b - a,
    {
        b -= 1;
    }
    proof {
        let s = chars@.subrange(lo as int, hi as int);
        lemma_leading_whitespace(s, a - lo);
        let t = chars@.subrange(a as int, hi as int);
        assert(trim_start(s) =~= t);
        lemma_trailing_whitespace(t, hi - b);
        assert(trim_end(t) =~= chars@.subrange(a as int, b as int));
    }
    (a, b)
}

/// Whether `chars[lo..hi]` holds exactly the characters of `other`.
pub fn range_eq(chars: &Vec<char>, lo: usize, hi: usize, other: &Vec<char>) -> (r: bool)
    requires
        lo <= hi <= chars.len(),
    ensures
        r == (chars@.subrange(lo as int, hi as int) == other@),
{
    if hi - lo != other.len() {
        return false;
    }
    let mut i: usize = 0;
    while i < other.len()
        invariant
            lo <= hi <= chars.len(),
            hi - lo == other.len(),
            0 <= i <= other.len(),
            forall|k: int| 0 <= k < i ==> chars@[lo + k] == other@[k],
        decreases other.len() - i,
    {
        if chars[lo + i] != other[i] {
            assert(chars@.subrange(lo as int, hi as int)[i as int] != other@[i as int]);
            return false;
        }
        i += 1;
    }
    assert(chars@.subrange(lo as int, hi as int) =~= other@);
    true
}

/// Whether `a` and `b` hold the same text.
pub fn str_eq(a: &str, b: &str) -> (r: bool)
    ensures
        r == (a@ == b@),
{
    String::from_str(a) == String::from_str(b)
}

/// The texts of `strings`, in order.
pub open spec fn texts(strings: Seq<String>) -> Seq<Seq<char>> {
    strings.map_values(|s: String| s@)
}

/// A copy of `strings` that holds the same texts.
pub fn copy_strings(strings: &Vec<String>) -> (r: Vec<String>)
    ensures
        texts(r@) == texts(strings@),
{
    let mut r: Vec<String> = Vec::new();
    let mut i: usize = 0;
    while i < strings.len()
        invariant
            i <= strings.len(),
            r.len() == i,
            forall|k: int| 0 <= k < i ==> r@[k]@ == strings@[k]@,
        decreases strings.len() - i,
    {
        r.push(strings[i].clone());
        i += 1;
    }
    assert(texts(r@) =~= texts(strings@));
    r
}

} // verus!
