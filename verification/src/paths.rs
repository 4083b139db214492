//! Verified path handling for combined-JSON mode.  A source path yields two
//! candidate lookup keys into the compiler's flat output object: the file's
//! base name, and the path suffix starting at a component literally named
//! `contracts` (a convention of a hosting tool's project layout).

use vstd::prelude::*;
use vstd::string::*;
use crate::json::lemma_dv_push;
use crate::text::str_eq;

verus! {

/// The pieces of `s` between `/` separators, separators removed, empty
/// pieces kept.
pub open spec fn raw_segments(s: Seq<char>) -> Seq<Seq<char>>
    decreases s.len(),
{
    if s.len() == 0 {
        seq![Seq::<char>::empty()]
    } else if s.last() == '/' {
        raw_segments(s.drop_last()).push(Seq::empty())
    } else {
        let r = raw_segments(s.drop_last());
        r.update(r.len() - 1, r.last().push(s.last()))
    }
}

pub proof fn lemma_raw_segments_len(s: Seq<char>)
    ensures
        raw_segments(s).len() >= 1,
    decreases s.len(),
{
    if s.len() > 0 {
        lemma_raw_segments_len(s.drop_last());
    }
}

/// A piece that counts as a path component: non-empty and not the current
/// directory, as the platform's path walk treats them.
pub open spec fn keep_seg(seg: Seq<char>) -> bool {
    seg.len() > 0 && seg != "."@
}

/// The pieces that count as components.
pub open spec fn filter_segs(segs: Seq<Seq<char>>) -> Seq<Seq<char>>
    decreases segs.len(),
{
    if segs.len() == 0 {
        Seq::empty()
    } else {
        let r = filter_segs(segs.drop_last());
        if keep_seg(segs.last()) {
            r.push(segs.last())
        } else {
            r
        }
    }
}

/// The components of a path.
pub open spec fn path_components(s: Seq<char>) -> Seq<Seq<char>> {
    filter_segs(raw_segments(s))
}

/// The base name a path offers as a lookup key: its final component, or the
/// whole path when there is no final file-name component.
pub open spec fn base_key_of(s: Seq<char>) -> Seq<char> {
    let c = path_components(s);
    if c.len() > 0 && c.last() != ".."@ {
        c.last()
    } else {
        s
    }
}

/// The components from the first one named `contracts` on; empty when none
/// is.
pub open spec fn tail_from_contracts(c: Seq<Seq<char>>) -> Seq<Seq<char>>
    decreases c.len(),
{
    if c.len() == 0 {
        Seq::empty()
    } else if c[0] == "contracts"@ {
        c
    } else {
        tail_from_contracts(c.drop_first())
    }
}

/// Components joined back into a path with `/` separators.
pub open spec fn join_slash(c: Seq<Seq<char>>) -> Seq<char>
    decreases c.len(),
{
    if c.len() == 0 {
        Seq::empty()
    } else if c.len() == 1 {
        c[0]
    } else {
        join_slash(c.drop_last()) + seq!['/'] + c.last()
    }
}

/// The `contracts/...`-rooted lookup key a path offers.
pub open spec fn contracts_key_of(s: Seq<char>) -> Seq<char> {
    join_slash(tail_from_contracts(path_components(s)))
}

/// Splits a path at `/` separators, keeping empty pieces.
fn split_slash(s: &str) -> (r: Vec<String>)
    ensures
        r.deep_view() == raw_segments(s@),
{
    let n = s.unicode_len();
    let mut done: Vec<String> = Vec::new();
    let mut st: usize = 0;
    let mut i: usize = 0;
    proof {
        assert(s@.subrange(0, 0) =~= Seq::<char>::empty());
        assert(done.deep_view() =~= Seq::<Seq<char>>::empty());
        assert(raw_segments(Seq::<char>::empty()) =~= Seq::<Seq<char>>::empty().push(
            Seq::<char>::empty(),
        ));
    }
    while i < n
        invariant
            st <= i <= n,
            n == s@.len(),
            raw_segments(s@.subrange(0, i as int)) == done.deep_view().push(
                s@.subrange(st as int, i as int),
            ),
        decreases n - i,
    {
        let ghost pre = s@.subrange(0, i as int);
        let ghost cur = s@.subrange(st as int, i as int);
        let c = s.get_char(i);
        if c == '/' {
            let seg = s.substring_char(st, i).to_owned();
            let ghost done0 = done;
            done.push(seg);
            proof {
                lemma_dv_push(done0, done, seg);
                assert(s@.subrange(0, i + 1).drop_last() =~= pre);
                assert(s@.subrange(0, i + 1).last() == '/');
                assert(s@.subrange(i + 1, i + 1) =~= Seq::<char>::empty());
            }
            st = i + 1;
        } else {
            proof {
                assert(s@.subrange(0, i + 1).drop_last() =~= pre);
                assert(s@.subrange(0, i + 1).last() == s@[i as int]);
                assert(s@.subrange(st as int, i + 1) =~= cur.push(s@[i as int]));
                assert(raw_segments(s@.subrange(0, i + 1)) == done.deep_view().push(
                    s@.subrange(st as int, i + 1),
                ));
            }
        }
        i += 1;
    }
    let last = s.substring_char(st, n).to_owned();
    let ghost done0 = done;
    done.push(last);
    proof {
        lemma_dv_push(done0, done, last);
        assert(s@.subrange(0, n as int) =~= s@);
    }
    done
}

/// The components of a path, in order.
pub fn path_comps(s: &str) -> (r: Vec<String>)
    ensures
        r.deep_view() == path_components(s@),
{
    let segs = split_slash(s);
    let mut out: Vec<String> = Vec::new();
    let mut i: usize = 0;
    proof {
        assert(out.deep_view() =~= Seq::<Seq<char>>::empty());
        assert(segs.deep_view().subrange(0, 0) =~= Seq::<Seq<char>>::empty());
    }
    while i < segs.len()
        invariant
            i <= segs.len(),
            segs.deep_view() == raw_segments(s@),
            segs.deep_view().len() == segs.len(),
            out.deep_view() == filter_segs(segs.deep_view().subrange(0, i as int)),
        decreases segs.len() - i,
    {
        let ghost pre = segs.deep_view().subrange(0, i as int);
        proof {
            assert(segs.deep_view().subrange(0, i + 1).drop_last() =~= pre);
            assert(segs.deep_view().subrange(0, i + 1).last() == segs@[i as int].deep_view());
            assert(segs@[i as int].deep_view() == segs@[i as int]@);
        }
        let keep = !(segs[i].as_str().unicode_len() == 0) && !str_eq(segs[i].as_str(), ".");
        if keep {
            let seg = segs[i].as_str().to_owned();
            let ghost out0 = out;
            out.push(seg);
            proof {
                lemma_dv_push(out0, out, seg);
            }
        }
        i += 1;
    }
    proof {
        assert(segs.deep_view().subrange(0, segs.len() as int) =~= segs.deep_view());
    }
    out
}

/// The base-name candidate key for a path.
pub fn base_key(s: &str) -> (r: String)
    ensures
        r@ == base_key_of(s@),
{
    let comps = path_comps(s);
    if comps.len() > 0 {
        let last = comps[comps.len() - 1].as_str();
        proof {
            assert(comps.deep_view().last() == comps@[comps.len() - 1].deep_view());
        }
        if !str_eq(last, "..") {
            return last.to_owned();
        }
    }
    s.to_owned()
}

proof fn lemma_tail_from_contracts_at(c: Seq<Seq<char>>, i: int)
    requires
        0 <= i <= c.len(),
        forall|t: int| 0 <= t < i ==> c[t] != "contracts"@,
        i == c.len() || c[i] == "contracts"@,
    ensures
        tail_from_contracts(c) == c.skip(i),
    decreases i,
{
    if c.len() == 0 {
        assert(c.skip(i) =~= c);
    } else if i == 0 {
        assert(c.skip(0) =~= c);
    } else {
        assert(c[0] != "contracts"@);
        assert forall|t: int| 0 <= t < i - 1 implies c.drop_first()[t] != "contracts"@ by {
            assert(c.drop_first()[t] == c[t + 1]);
        }
        if i - 1 < c.drop_first().len() {
            assert(c.drop_first()[i - 1] == c[i]);
        }
        lemma_tail_from_contracts_at(c.drop_first(), i - 1);
        assert(c.drop_first().skip(i - 1) =~= c.skip(i));
    }
}

/// The `contracts/...`-rooted candidate key for a path.
pub fn contracts_key(s: &str) -> (r: String)
    ensures
        r@ == contracts_key_of(s@),
{
    let comps = path_comps(s);
    let ghost cdv = comps.deep_view();
    let n = comps.len();
    let mut i: usize = 0;
    while i < n && !str_eq(comps[i].as_str(), "contracts")
        invariant
            i <= n,
            n == comps.len(),
            cdv == comps.deep_view(),
            cdv == path_components(s@),
            cdv.len() == n,
            forall|t: int| 0 <= t < i ==> cdv[t] != "contracts"@,
        decreases n - i,
    {
        i += 1;
    }
    proof {
        lemma_tail_from_contracts_at(cdv, i as int);
    }
    let ghost tail = cdv.skip(i as int);
    if i == n {
        let empty = String::new();
        proof {
            assert(tail =~= Seq::<Seq<char>>::empty());
            assert(empty@ =~= join_slash(tail));
        }
        return empty;
    }
    let mut acc = comps[i].as_str().to_owned();
    proof {
        assert(tail[0] == cdv[i as int]);
        assert(tail.subrange(0, 1) =~= seq![tail[0]]);
        assert(join_slash(tail.subrange(0, 1)) == tail[0]);
    }
    let mut k: usize = i + 1;
    while k < n
        invariant
            i < k <= n,
            n == comps.len(),
            cdv == comps.deep_view(),
            cdv.len() == n,
            tail == cdv.skip(i as int),
            acc@ == join_slash(tail.subrange(0, k - i)),
        decreases n - k,
    {
        let ghost acc0 = acc@;
        let ghost t = (k - i) as int;
        acc.append("/");
        acc.append(comps[k].as_str());
        proof {
            reveal_strlit("/");
            assert("/"@ =~= seq!['/']);
            assert(tail.subrange(0, t + 1).drop_last() =~= tail.subrange(0, t));
            assert(tail.subrange(0, t + 1).last() == tail[t]);
            assert(tail[t] == cdv[i + t]);
            assert(acc@ =~= join_slash(tail.subrange(0, t + 1)));
        }
        k += 1;
    }
    proof {
        assert(tail.subrange(0, n - i) =~= tail);
    }
    acc
}

/// The ordered candidate keys the wrapper tries for one source path in
/// combined-JSON mode: base name first, then the `contracts/...` suffix.
pub fn candidate_keys(path: &str) -> (r: Vec<String>)
    ensures
        r.deep_view() == seq![base_key_of(path@), contracts_key_of(path@)],
{
    let b = base_key(path);
    let c = contracts_key(path);
    let mut r: Vec<String> = Vec::new();
    let ghost r0 = r;
    r.push(b);
    let ghost r1 = r;
    r.push(c);
    proof {
        lemma_dv_push(r0, r1, b);
        lemma_dv_push(r1, r, c);
        assert(r0.deep_view() =~= Seq::<Seq<char>>::empty());
        assert(r.deep_view() =~= seq![base_key_of(path@), contracts_key_of(path@)]);
    }
    r
}

} // verus!
