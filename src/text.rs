//! Character-level helpers shared by the preprocessor and the adjustment parser.
use vstd::prelude::*;

verus! {

/// An ASCII decimal digit.
pub open spec fn is_digit(c: char) -> bool {
    '0' <= c && c <= '9'
}

/// The character sequences held by a sequence of strings.
pub open spec fn strs(v: Seq<String>) -> Seq<Seq<char>> {
    v.map_values(|s: String| s@)
}

/// Index of the first character of `s` that occurs in `set`, or `s.len()` when
/// there is none.
pub open spec fn first_index_in(s: Seq<char>, set: Seq<char>) -> int
    decreases s.len(),
{
    if s.len() == 0 {
        0
    } else if set.contains(s[0]) {
        0
    } else {
        1 + first_index_in(s.drop_first(), set)
    }
}

/// `first_index_in` is the position before which no character of `set` occurs.
pub proof fn lemma_first_index_in(s: Seq<char>, set: Seq<char>, i: int)
    requires
        0 <= i <= s.len(),
        forall|j: int| 0 <= j < i ==> !set.contains(#[trigger] s[j]),
        i == s.len() || set.contains(s[i]),
    ensures
        first_index_in(s, set) == i,
    decreases i,
{
    if i > 0 {
        let t = s.drop_first();
        assert forall|j: int| 0 <= j < i - 1 implies !set.contains(#[trigger] t[j]) by {
            assert(t[j] == s[j + 1]);
        }
        if i - 1 < t.len() {
            assert(t[i - 1] == s[i]);
        }
        lemma_first_index_in(t, set, i - 1);
        assert(!set.contains(s[0]));
    }
}

/// Whether `c` occurs in `s`.
pub fn contains_char(s: &str, c: char) -> (r: bool)
    ensures
        r == s@.contains(c),
{
    let n = s.unicode_len();
    let mut i: usize = 0;
    while i < n
        invariant
            n == s@.len(),
            i <= n,
            forall|j: int| 0 <= j < i ==> s@[j] != c,
        decreases n - i,
    {
        if s.get_char(i) == c {
            assert(s@[i as int] == c);
            return true;
        }
        i = i + 1;
    }
    false
}

/// Position of the first character of `s` that occurs in `set`, or the length
/// of `s` when none does.
pub fn find_first_in(s: &str, set: &str) -> (r: usize)
    ensures
        r == first_index_in(s@, set@),
        r <= s@.len(),
{
    let n = s.unicode_len();
    let mut i: usize = 0;
    while i < n
        invariant
            n == s@.len(),
            i <= n,
            forall|j: int| 0 <= j < i ==> !set@.contains(#[trigger] s@[j]),
        decreases n - i,
    {
        if contains_char(set, s.get_char(i)) {
            proof {
                lemma_first_index_in(s@, set@, i as int);
            }
            return i;
        }
        i = i + 1;
    }
    proof {
        lemma_first_index_in(s@, set@, n as int);
    }
    n
}

/// The characters of `s` from `from` up to `to`, as a new string.
pub fn substring(s: &str, from: usize, to: usize) -> (r: String)
    requires
        from <= to <= s@.len(),
    ensures
        r@ == s@.subrange(from as int, to as int),
{
    String::from_str(s.substring_char(from, to))
}

/// A dash followed by the character of `s` at `i`: one short flag.
pub fn dash_and_char(s: &str, i: usize) -> (r: String)
    requires
        i < s@.len() <= usize::MAX,
    ensures
        r@ == seq!['-', s@[i as int]],
{
    let dash = String::from_str("-");
    let r = dash.concat(s.substring_char(i, i + 1));
    proof {
        reveal_strlit("-");
        assert(r@ =~= seq!['-', s@[i as int]]);
    }
    r
}

/// Whether two strings hold the same characters.
pub fn str_eq(a: &str, b: &str) -> (r: bool)
    ensures
        r == (a@ == b@),
{
    let n = a.unicode_len();
    if n != b.unicode_len() {
        return false;
    }
    let mut i: usize = 0;
    while i < n
        invariant
            n == a@.len(),
            n == b@.len(),
            i <= n,
            forall|j: int| 0 <= j < i ==> a@[j] == b@[j],
        decreases n - i,
    {
        if a.get_char(i) != b.get_char(i) {
            return false;
        }
        i = i + 1;
    }
    assert(a@ =~= b@);
    true
}

/// `needle` occurs in `hay` starting at `i`.
pub open spec fn occurs_at(hay: Seq<char>, needle: Seq<char>, i: int) -> bool {
    0 <= i && i + needle.len() <= hay.len() && hay.subrange(i, i + needle.len()) == needle
}

/// `needle` occurs somewhere in `hay`.
pub open spec fn contains_text_spec(hay: Seq<char>, needle: Seq<char>) -> bool {
    exists|i: int| occurs_at(hay, needle, i)
}

/// Whether `needle` occurs in `hay` at `i`.
fn occurs_at_exec(hay: &str, needle: &str, i: usize) -> (r: bool)
    requires
        i + needle@.len() <= hay@.len() <= usize::MAX,
    ensures
        r == occurs_at(hay@, needle@, i as int),
{
    let m = needle.unicode_len();
    let mut j: usize = 0;
    while j < m
        invariant
            m == needle@.len(),
            i + m <= hay@.len() <= usize::MAX,
            j <= m,
            forall|k: int| 0 <= k < j ==> hay@[i + k] == needle@[k],
        decreases m - j,
    {
        if hay.get_char(i + j) != needle.get_char(j) {
            assert(hay@.subrange(i as int, i + m)[j as int] != needle@[j as int]);
            return false;
        }
        j = j + 1;
    }
    assert(hay@.subrange(i as int, i + m) =~= needle@);
    true
}

/// Whether `needle` occurs in `hay`.
pub fn contains_text(hay: &str, needle: &str) -> (r: bool)
    ensures
        r == contains_text_spec(hay@, needle@),
{
    let n = hay.unicode_len();
    let m = needle.unicode_len();
    if m > n {
        assert forall|i: int| !occurs_at(hay@, needle@, i) by {}
        return false;
    }
    if m == 0 {
        assert(hay@.subrange(0, 0) =~= needle@);
        assert(occurs_at(hay@, needle@, 0));
        return true;
    }
    let mut i: usize = 0;
    while i <= n - m
        invariant
            n == hay@.len(),
            m == needle@.len(),
            1 <= m <= n,
            i <= n - m + 1,
            forall|k: int| 0 <= k < i ==> !occurs_at(hay@, needle@, k),
        decreases n - m + 1 - i,
    {
        if occurs_at_exec(hay, needle, i) {
            return true;
        }
        i = i + 1;
    }
    assert forall|k: int| !occurs_at(hay@, needle@, k) by {
        if 0 <= k < i {
        }
    }
    false
}

/// An ASCII capital letter.
pub open spec fn is_ascii_upper(c: char) -> bool {
    'A' <= c && c <= 'Z'
}

/// Two characters are equal once ASCII letters are brought to one case.
pub open spec fn same_ignoring_ascii_case(c: char, d: char) -> bool {
    ||| c == d
    ||| is_ascii_upper(c) && d as u32 == c as u32 + 32
    ||| is_ascii_upper(d) && c as u32 == d as u32 + 32
}

/// Two texts are equal once ASCII letters are brought to one case.
pub open spec fn eq_ignoring_ascii_case(a: Seq<char>, b: Seq<char>) -> bool {
    a.len() == b.len() && forall|i: int|
        0 <= i < a.len() ==> #[trigger] same_ignoring_ascii_case(a[i], b[i])
}

/// Whether two characters are equal once ASCII letters are brought to one case.
fn same_char_ignoring_ascii_case(c: char, d: char) -> (r: bool)
    ensures
        r == same_ignoring_ascii_case(c, d),
{
    c == d || ('A' <= c && c <= 'Z' && d as u32 == c as u32 + 32) || ('A' <= d && d <= 'Z'
        && c as u32 == d as u32 + 32)
}

/// Whether two strings are equal once ASCII letters are brought to one case.
pub fn eq_ignore_ascii_case(a: &str, b: &str) -> (r: bool)
    ensures
        r == eq_ignoring_ascii_case(a@, b@),
{
    let n = a.unicode_len();
    if n != b.unicode_len() {
        return false;
    }
    let mut i: usize = 0;
    while i < n
        invariant
            n == a@.len(),
            n == b@.len(),
            i <= n,
            forall|j: int| 0 <= j < i ==> #[trigger] same_ignoring_ascii_case(a@[j], b@[j]),
        decreases n - i,
    {
        if !same_char_ignoring_ascii_case(a.get_char(i), b.get_char(i)) {
            return false;
        }
        i = i + 1;
    }
    true
}

} // verus!
