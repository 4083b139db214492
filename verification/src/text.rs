//! Verified text utilities: substring search for the blueprint marker,
//! character-wise string equality, and whitespace trimming.

use vstd::prelude::*;
use vstd::string::*;

verus! {

/// The marker substring whose presence in a source text selects blueprint
/// treatment.
pub open spec fn marker() -> Seq<char> {
    "@blue_print"@
}

/// `needle` occurs as a contiguous run of characters inside `hay`.
pub open spec fn contains_seq(hay: Seq<char>, needle: Seq<char>) -> bool {
    exists|i: int|
        0 <= i && i + needle.len() <= hay.len() && #[trigger] hay.subrange(
            i,
            i + needle.len() as int,
        ) == needle
}

/// A source text selects blueprint treatment when it contains the marker.
pub open spec fn has_marker(s: Seq<char>) -> bool {
    contains_seq(s, marker())
}

/// Character-wise equality of two string slices.
pub fn str_eq(a: &str, b: &str) -> (r: bool)
    ensures
        r == (a@ == b@),
{
    let an = a.unicode_len();
    let bn = b.unicode_len();
    if an != bn {
        return false;
    }
    let mut k: usize = 0;
    while k < an
        invariant
            an == a@.len(),
            an == b@.len(),
            k <= an,
            forall|t: int| 0 <= t < k ==> a@[t] == b@[t],
        decreases an - k,
    {
        if a.get_char(k) != b.get_char(k) {
            return false;
        }
        k += 1;
    }
    proof {
        assert(a@ =~= b@);
    }
    true
}

/// `needle` matches `hay` exactly at position `i`.
fn match_at(hay: &str, needle: &str, i: usize) -> (r: bool)
    requires
        i + needle@.len() <= hay@.len() <= usize::MAX,
    ensures
        r == (hay@.subrange(i as int, i + needle@.len() as int) == needle@),
{
    let nn = needle.unicode_len();
    let mut k: usize = 0;
    while k < nn
        invariant
            nn == needle@.len(),
            i + nn <= hay@.len() <= usize::MAX,
            k <= nn,
            forall|t: int| 0 <= t < k ==> hay@[i + t] == needle@[t],
        decreases nn - k,
    {
        if hay.get_char(i + k) != needle.get_char(k) {
            proof {
                assert(hay@.subrange(i as int, i + nn as int)[k as int] == hay@[i + k]);
            }
            return false;
        }
        k += 1;
    }
    proof {
        assert(hay@.subrange(i as int, i + nn as int) =~= needle@);
    }
    true
}

/// Direct substring search, deciding `contains_seq`.
pub fn contains_sub(hay: &str, needle: &str) -> (r: bool)
    ensures
        r == contains_seq(hay@, needle@),
{
    let hn = hay.unicode_len();
    let nn = needle.unicode_len();
    if nn > hn {
        return false;
    }
    if nn == 0 {
        proof {
            assert(hay@.subrange(0, 0 + needle@.len() as int) =~= needle@);
        }
        return true;
    }
    let lim = hn - nn;
    let mut i: usize = 0;
    while i <= lim
        invariant
            hn == hay@.len(),
            nn == needle@.len(),
            1 <= nn <= hn,
            lim == hn - nn,
            i <= lim + 1,
            forall|j: int|
                0 <= j < i ==> #[trigger] hay@.subrange(j, j + nn as int) != needle@,
        decreases lim + 1 - i,
    {
        if match_at(hay, needle, i) {
            proof {
                assert(0 <= i as int && i as int + needle@.len() <= hay@.len());
            }
            return true;
        }
        i += 1;
    }
    proof {
        assert forall|j: int| !(0 <= j && j + needle@.len() <= hay@.len() && #[trigger] hay@
            .subrange(j, j + needle@.len() as int) == needle@) by {
            if 0 <= j && j + needle@.len() <= hay@.len() {
                assert(j < i);
            }
        }
    }
    false
}

/// Decides blueprint treatment for one source text.
pub fn contains_marker(s: &str) -> (r: bool)
    ensures
        r == has_marker(s@),
{
    contains_sub(s, "@blue_print")
}

/// A character of the Unicode `White_Space` set, the set the trimming of
/// compiler output removes at either end.
pub open spec fn is_white(c: char) -> bool {
    let u = c as u32;
    (9 <= u && u <= 13) || u == 32 || u == 0x85 || u == 0xa0 || u == 0x1680 || (0x2000 <= u
        && u <= 0x200a) || u == 0x2028 || u == 0x2029 || u == 0x202f || u == 0x205f || u == 0x3000
}

/// Decides membership in the `White_Space` set.
pub fn white_char(c: char) -> (r: bool)
    ensures
        r == is_white(c),
{
    let u = c as u32;
    (9 <= u && u <= 13) || u == 32 || u == 0x85 || u == 0xa0 || u == 0x1680 || (0x2000 <= u
        && u <= 0x200a) || u == 0x2028 || u == 0x2029 || u == 0x202f || u == 0x205f || u == 0x3000
}

/// `s` with its leading whitespace removed.
pub open spec fn trim_start_spec(s: Seq<char>) -> Seq<char>
    decreases s.len(),
{
    if s.len() > 0 && is_white(s[0]) {
        trim_start_spec(s.drop_first())
    } else {
        s
    }
}

/// `s` with its trailing whitespace removed.
pub open spec fn trim_end_spec(s: Seq<char>) -> Seq<char>
    decreases s.len(),
{
    if s.len() > 0 && is_white(s[s.len() - 1]) {
        trim_end_spec(s.drop_last())
    } else {
        s
    }
}

/// `s` with whitespace removed at both ends.
pub open spec fn trim_spec(s: Seq<char>) -> Seq<char> {
    trim_end_spec(trim_start_spec(s))
}

proof fn lemma_trim_start(s: Seq<char>, lo: int)
    requires
        0 <= lo <= s.len(),
        forall|t: int| 0 <= t < lo ==> is_white(s[t]),
        lo == s.len() || !is_white(s[lo]),
    ensures
        trim_start_spec(s) == s.subrange(lo, s.len() as int),
    decreases lo,
{
    if lo == 0 {
        assert(s.subrange(0, s.len() as int) =~= s);
    } else {
        lemma_trim_start(s.drop_first(), lo - 1);
        assert(s.drop_first().subrange(lo - 1, s.drop_first().len() as int) =~= s.subrange(
            lo,
            s.len() as int,
        ));
    }
}

proof fn lemma_trim_end(s: Seq<char>, hi: int)
    requires
        0 <= hi <= s.len(),
        forall|t: int| hi <= t < s.len() ==> is_white(s[t]),
        hi == 0 || !is_white(s[hi - 1]),
    ensures
        trim_end_spec(s) == s.subrange(0, hi),
    decreases s.len() - hi,
{
    if hi == s.len() {
        if s.len() > 0 && is_white(s[s.len() - 1]) {
            assert(false);
        }
        assert(s.subrange(0, s.len() as int) =~= s);
    } else {
        lemma_trim_end(s.drop_last(), hi);
        assert(s.drop_last().subrange(0, hi) =~= s.subrange(0, hi));
    }
}

/// Removes leading and trailing whitespace, as the compiler wrapper does to
/// the bytecode printed by a blueprint sub-invocation.
pub fn trim_ws(s: &str) -> (r: String)
    ensures
        r@ == trim_spec(s@),
{
    let n = s.unicode_len();
    let mut lo: usize = 0;
    while lo < n && white_char(s.get_char(lo))
        invariant
            n == s@.len(),
            lo <= n,
            forall|t: int| 0 <= t < lo ==> is_white(s@[t]),
        decreases n - lo,
    {
        lo += 1;
    }
    let mut hi: usize = n;
    while hi > lo && white_char(s.get_char(hi - 1))
        invariant
            n == s@.len(),
            lo <= hi <= n,
            forall|t: int| hi <= t < n ==> is_white(s@[t]),
        decreases hi,
    {
        hi -= 1;
    }
    proof {
        lemma_trim_start(s@, lo as int);
        let mid = s@.subrange(lo as int, n as int);
        lemma_trim_end(mid, hi - lo);
        assert(mid.subrange(0, hi - lo) =~= s@.subrange(lo as int, hi as int));
    }
    s.substring_char(lo, hi).to_owned()
}

} // verus!
