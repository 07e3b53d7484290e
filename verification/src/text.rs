//! Small text utilities over character sequences: whitespace trimming and
//! substring search, with exact character-level contracts.

use vstd::prelude::*;

verus! {

/// Whether a character counts as whitespace (the Unicode `White_Space`
/// property, as `char::is_whitespace` decides it).
pub uninterp spec fn is_ws_char(c: char) -> bool;

/// Relies on char::is_whitespace: a pure classification of the character
/// by the Unicode `White_Space` property.
#[verifier::external_body]
pub fn char_is_whitespace(c: char) -> (r: bool)
    ensures
        r == is_ws_char(c),
{
    c.is_whitespace()
}

/// Length of the longest whitespace prefix of `s`.
pub open spec fn ws_prefix_len(s: Seq<char>) -> int
    decreases s.len(),
{
    if s.len() > 0 && is_ws_char(s[0]) {
        1 + ws_prefix_len(s.drop_first())
    } else {
        0
    }
}

/// `s` trimmed of leading and trailing whitespace.
pub open spec fn trim_spec(s: Seq<char>) -> Seq<char> {
    let rest = s.skip(ws_prefix_len(s));
    rest.take(rest.len() - ws_suffix_len(rest))
}

/// Length of the longest whitespace suffix of `s`.
pub open spec fn ws_suffix_len(s: Seq<char>) -> int
    decreases s.len(),
{
    if s.len() > 0 && is_ws_char(s.last()) {
        1 + ws_suffix_len(s.drop_last())
    } else {
        0
    }
}

proof fn lemma_ws_prefix_len_char(s: Seq<char>, i: int)
    requires
        0 <= i <= s.len(),
        forall|j: int| 0 <= j < i ==> is_ws_char(#[trigger] s[j]),
        i < s.len() ==> !is_ws_char(s[i]),
    ensures
        ws_prefix_len(s) == i,
    decreases s.len(),
{
    if i == 0 {
    } else {
        assert(is_ws_char(s[0]));
        assert forall|j: int| 0 <= j < i - 1 implies is_ws_char(#[trigger] s.drop_first()[j]) by {
            assert(s.drop_first()[j] == s[j + 1]);
        }
        if i - 1 < s.drop_first().len() {
            assert(s.drop_first()[i - 1] == s[i]);
        }
        lemma_ws_prefix_len_char(s.drop_first(), i - 1);
    }
}

proof fn lemma_ws_suffix_len_char(s: Seq<char>, i: int)
    requires
        0 <= i <= s.len(),
        forall|j: int| s.len() - i <= j < s.len() ==> is_ws_char(#[trigger] s[j]),
        i < s.len() ==> !is_ws_char(s[s.len() - i - 1]),
    ensures
        ws_suffix_len(s) == i,
    decreases s.len(),
{
    if i == 0 {
    } else {
        assert(is_ws_char(s.last()));
        assert forall|j: int|
            s.drop_last().len() - (i - 1) <= j < s.drop_last().len() implies is_ws_char(
            #[trigger] s.drop_last()[j],
        ) by {
            assert(s.drop_last()[j] == s[j]);
        }
        if i - 1 < s.drop_last().len() {
            assert(s.drop_last()[s.drop_last().len() - (i - 1) - 1] == s[s.len() - i - 1]);
        }
        lemma_ws_suffix_len_char(s.drop_last(), i - 1);
    }
}

/// `s` with leading and trailing whitespace removed, as `str::trim` does.
pub fn trim_str<'a>(s: &'a str) -> (r: &'a str)
    ensures
        r@ == trim_spec(s@),
{
    let n = s.unicode_len();
    let mut a: usize = 0;
    while a < n && char_is_whitespace(s.get_char(a))
        invariant
            n == s@.len(),
            a <= n,
            forall|j: int| 0 <= j < a ==> is_ws_char(#[trigger] s@[j]),
        decreases n - a,
    {
        a = a + 1;
    }
    proof {
        lemma_ws_prefix_len_char(s@, a as int);
    }
    let mut b: usize = n;
    while b > a && char_is_whitespace(s.get_char(b - 1))
        invariant
            n == s@.len(),
            a <= b <= n,
            forall|j: int| 0 <= j < a ==> is_ws_char(#[trigger] s@[j]),
            forall|j: int| b <= j < n ==> is_ws_char(#[trigger] s@[j]),
        decreases b,
    {
        b = b - 1;
    }
    let r = s.substring_char(a, b);
    proof {
        let rest = s@.skip(a as int);
        assert forall|j: int| rest.len() - (n - b) <= j < rest.len() implies is_ws_char(
            #[trigger] rest[j],
        ) by {
            assert(rest[j] == s@[j + a]);
        }
        if b > a {
            assert(!is_ws_char(s@[b - 1]));
            assert(rest[b - a - 1] == s@[b - 1]);
        }
        lemma_ws_suffix_len_char(rest, n as int - b);
        assert(r@ =~= trim_spec(s@));
    }
    r
}

/// Count the run of whitespace characters starting at position `i`.
pub fn ws_run_from(s: &str, i: usize) -> (r: usize)
    requires
        i <= s@.len(),
    ensures
        r == ws_prefix_len(s@.skip(i as int)),
        i + r <= s@.len(),
{
    let n = s.unicode_len();
    let mut j: usize = i;
    while j < n && char_is_whitespace(s.get_char(j))
        invariant
            n == s@.len(),
            i <= j <= n,
            forall|j2: int| i <= j2 < j ==> is_ws_char(#[trigger] s@[j2]),
        decreases n - j,
    {
        j = j + 1;
    }
    proof {
        let t = s@.skip(i as int);
        assert forall|j2: int| 0 <= j2 < j - i implies is_ws_char(#[trigger] t[j2]) by {
            assert(t[j2] == s@[i + j2]);
        }
        if j < n {
            assert(t[j - i] == s@[j as int]);
        }
        lemma_ws_prefix_len_char(t, j - i);
    }
    j - i
}

/// Compare two string slices by contents.
pub fn str_eq(a: &str, b: &str) -> (r: bool)
    ensures
        r == (a@ == b@),
{
    let sa = a.to_owned();
    let sb = b.to_owned();
    sa == sb
}

/// Whether `needle` occurs contiguously anywhere inside `hay`.
pub open spec fn contains_sub(hay: Seq<char>, needle: Seq<char>) -> bool {
    exists|i: int|
        0 <= i <= hay.len() - needle.len() && #[trigger] hay.subrange(i, i + needle.len())
            == needle
}

fn match_at(hay: &str, needle: &str, i: usize) -> (r: bool)
    requires
        i + needle@.len() <= hay@.len(),
    ensures
        r == (hay@.subrange(i as int, i as int + needle@.len()) == needle@),
{
    let hn = hay.unicode_len();
    let nn = needle.unicode_len();
    let mut j: usize = 0;
    while j < nn
        invariant
            hn == hay@.len(),
            nn == needle@.len(),
            i + nn <= hn,
            j <= nn,
            forall|j2: int| 0 <= j2 < j ==> hay@[i + j2] == #[trigger] needle@[j2],
        decreases nn - j,
    {
        if hay.get_char(i + j) != needle.get_char(j) {
            proof {
                assert(hay@.subrange(i as int, i as int + nn as int)[j as int] == hay@[i + j]);
            }
            return false;
        }
        j = j + 1;
    }
    proof {
        assert(hay@.subrange(i as int, i as int + nn as int) =~= needle@);
    }
    true
}

/// Whether `needle` occurs contiguously anywhere inside `hay`, as
/// `str::contains` decides it for string needles.
pub fn text_contains(hay: &str, needle: &str) -> (r: bool)
    ensures
        r == contains_sub(hay@, needle@),
{
    let hn = hay.unicode_len();
    let nn = needle.unicode_len();
    if nn > hn {
        return false;
    }
    if nn == 0 {
        proof {
            assert(hay@.subrange(0, 0 + needle@.len() as int) =~= needle@);
            assert(contains_sub(hay@, needle@));
        }
        return true;
    }
    let mut i: usize = 0;
    while i <= hn - nn
        invariant
            hn == hay@.len(),
            nn == needle@.len(),
            0 < nn <= hn,
            i <= hn - nn + 1,
            forall|i2: int|
                0 <= i2 < i ==> #[trigger] hay@.subrange(i2, i2 + needle@.len()) != needle@,
        decreases hn - nn - i + 1,
    {
        if match_at(hay, needle, i) {
            return true;
        }
        i = i + 1;
    }
    false
}

} // verus!
