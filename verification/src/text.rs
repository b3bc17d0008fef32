//! Text primitives that the record formats and the command language are
//! built from: trimming, cutting at a delimiter and comparing.

use vstd::prelude::*;

verus! {

/// The characters that count as white space when a line is trimmed: those
/// with the Unicode property `White_Space`.
pub open spec fn is_space(c: char) -> bool {
    let n = c as u32;
    ||| 0x09 <= n <= 0x0D
    ||| n == 0x20
    ||| n == 0x85
    ||| n == 0xA0
    ||| n == 0x1680
    ||| 0x2000 <= n <= 0x200A
    ||| n == 0x2028
    ||| n == 0x2029
    ||| n == 0x202F
    ||| n == 0x205F
    ||| n == 0x3000
}

/// `s` without its leading and trailing white space.
pub open spec fn trimmed(s: Seq<char>) -> Seq<char>
    decreases s.len(),
{
    if s.len() == 0 {
        s
    } else if is_space(s.first()) {
        trimmed(s.drop_first())
    } else if is_space(s.last()) {
        trimmed(s.drop_last())
    } else {
        s
    }
}

/// The position of the first `d` in `s`; the length of `s` if there is
/// none.
pub open spec fn first_at(s: Seq<char>, d: char) -> int
    decreases s.len(),
{
    if s.len() == 0 || s.first() == d {
        0
    } else {
        1 + first_at(s.drop_first(), d)
    }
}

/// `s` cut at its first `d`: what stands before it and all that follows it.
/// A text without `d` cannot be cut.
pub open spec fn cut(s: Seq<char>, d: char) -> Option<(Seq<char>, Seq<char>)> {
    if s.contains(d) {
        Some((s.take(first_at(s, d)), s.skip(first_at(s, d) + 1)))
    } else {
        None
    }
}

/// The views of a vector of strings.
pub open spec fn texts(v: Seq<String>) -> Seq<Seq<char>> {
    v.map_values(|s: String| s@)
}

/// No `d` stands before the first `d`.
pub proof fn lemma_before_first(s: Seq<char>, d: char)
    ensures
        0 <= first_at(s, d) <= s.len(),
        !s.take(first_at(s, d)).contains(d),
    decreases s.len(),
{
    if s.len() == 0 || s.first() == d {
        assert(s.take(0) =~= Seq::empty());
    } else {
        let t = s.drop_first();
        lemma_before_first(t, d);
        let n = first_at(t, d);
        let front = s.take(n + 1);
        assert forall|i: int| 0 <= i < front.len() implies #[trigger] front[i] != d by {
            if i > 0 && s[i] == d {
                assert(t.take(n)[i - 1] == d);
                assert(t.take(n).contains(d));
            }
        }
    }
}

/// In `a + d + b`, where `a` is free of `d`, the first `d` stands right
/// after `a`.
pub proof fn lemma_first_at(a: Seq<char>, d: char, b: Seq<char>)
    requires
        !a.contains(d),
    ensures
        first_at(a + seq![d] + b, d) == a.len(),
    decreases a.len(),
{
    let s = a + seq![d] + b;
    if a.len() > 0 {
        let t = a.drop_first();
        assert forall|i: int| 0 <= i < t.len() implies t[i] != d by {
            assert(t[i] == a[i + 1]);
            assert(a.contains(a[i + 1]));
        }
        assert(!t.contains(d));
        lemma_first_at(t, d, b);
        assert(s.drop_first() =~= t + seq![d] + b);
        assert(a.contains(a[0]));
        assert(s.first() == a[0]);
    }
}

/// Cutting `a + d + b`, where `a` is free of `d`, gives `a` and `b`.
pub proof fn lemma_cut(a: Seq<char>, d: char, b: Seq<char>)
    requires
        !a.contains(d),
    ensures
        cut(a + seq![d] + b, d) == Some((a, b)),
{
    let s = a + seq![d] + b;
    lemma_first_at(a, d, b);
    assert(s[a.len() as int] == d);
    assert(s.take(a.len() as int) =~= a);
    assert(s.skip(a.len() as int + 1) =~= b);
}

/// Whether two string slices hold the same characters.
///
/// Trusted: calls `==` of `str`, which compares the two slices character by
/// character.
#[verifier::external_body]
pub(crate) fn str_eq(a: &str, b: &str) -> (r: bool)
    ensures
        r == (a@ == b@),
{
    a == b
}

/// The slice without leading and trailing white space.
///
/// Trusted: calls `str::trim`, which removes the characters with the Unicode
/// property `White_Space` from both ends and nothing else.
#[verifier::external_body]
pub(crate) fn trim(s: &str) -> (r: &str)
    ensures
        r@ == trimmed(s@),
{
    s.trim()
}

/// The text before and the text after the first occurrence of `d`.
///
/// Trusted: calls `str::split_once` with a character as the pattern. It
/// returns nothing exactly if the character does not occur; otherwise the
/// first part holds no occurrence, and first part, character and second part
/// together are the whole slice.
#[verifier::external_body]
pub(crate) fn split_once(s: &str, d: char) -> (r: Option<(&str, &str)>)
    ensures
        match r {
            Some((a, b)) => s@ == a@ + seq![d] + b@ && !a@.contains(d),
            None => !s@.contains(d),
        },
{
    s.split_once(d)
}

/// Whether the character `d` occurs in `s`.
pub fn has_char(s: &str, d: char) -> (b: bool)
    ensures
        b == s@.contains(d),
{
    match split_once(s, d) {
        Some((a, rest)) => {
            proof {
                let whole = a@ + seq![d] + rest@;
                assert(whole[a@.len() as int] == d);
            }
            true
        },
        None => false,
    }
}

/// Cuts `s` at its first `d`. A slice without `d` gives `None`.
pub fn cut_at(s: &str, d: char) -> (r: Option<(&str, &str)>)
    ensures
        match r {
            Some((a, b)) => cut(s@, d) == Some((a@, b@)),
            None => cut(s@, d).is_none(),
        },
{
    match split_once(s, d) {
        Some((a, b)) => {
            proof {
                lemma_cut(a@, d, b@);
            }
            Some((a, b))
        },
        None => None,
    }
}

} // verus!
