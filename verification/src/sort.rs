//! The finalizer's ordering: directories strictly before files, and
//! within the same kind ascending case-insensitive name order. The sort
//! is a stable insertion sort whose result is pinned exactly by a
//! recursive specification.

use vstd::prelude::*;

use crate::strops::{lex_le, lex_le_exec, lemma_lex_le_total, lemma_lex_le_trans};
use crate::trusted::{lower_of, lowercase};
use crate::types::FileInfo;

verus! {

/// The two-key order on entries: directories first, then ascending
/// case-insensitive name order.
pub open spec fn le_entry(a: FileInfo, b: FileInfo) -> bool {
    if a.is_dir != b.is_dir {
        a.is_dir
    } else {
        lex_le(lower_of(a.name@), lower_of(b.name@))
    }
}

/// `le_entry` is total.
pub proof fn lemma_le_entry_total(a: FileInfo, b: FileInfo)
    ensures
        le_entry(a, b) || le_entry(b, a),
{
    if a.is_dir == b.is_dir {
        lemma_lex_le_total(lower_of(a.name@), lower_of(b.name@));
    }
}

/// `le_entry` is transitive.
pub proof fn lemma_le_entry_trans(a: FileInfo, b: FileInfo, c: FileInfo)
    requires
        le_entry(a, b),
        le_entry(b, c),
    ensures
        le_entry(a, c),
{
    if a.is_dir == b.is_dir && b.is_dir == c.is_dir {
        lemma_lex_le_trans(lower_of(a.name@), lower_of(b.name@), lower_of(c.name@));
    }
}

/// Executable form of `le_entry`.
pub fn le_entry_exec(a: &FileInfo, b: &FileInfo) -> (r: bool)
    ensures
        r == le_entry(*a, *b),
{
    if a.is_dir != b.is_dir {
        a.is_dir
    } else {
        let la = lowercase(a.name.as_str());
        let lb = lowercase(b.name.as_str());
        lex_le_exec(la.as_str(), lb.as_str())
    }
}

/// Insert `x` into an already sorted sequence, after every element that
/// compares less-or-equal to it; with ties this keeps `x` behind its
/// equals, which makes the sort stable.
pub open spec fn spec_insert(s: Seq<FileInfo>, x: FileInfo) -> Seq<FileInfo>
    decreases s.len(),
{
    if s.len() == 0 {
        seq![x]
    } else if le_entry(s.last(), x) {
        s.push(x)
    } else {
        spec_insert(s.drop_last(), x).push(s.last())
    }
}

/// The sorted form of a sequence of entries: each element inserted in
/// turn into the sorted form of what precedes it.
pub open spec fn spec_sort(s: Seq<FileInfo>) -> Seq<FileInfo>
    decreases s.len(),
{
    if s.len() == 0 {
        Seq::empty()
    } else {
        spec_insert(spec_sort(s.drop_last()), s.last())
    }
}

/// A sequence is sorted under the two-key order.
pub open spec fn sorted_entries(s: Seq<FileInfo>) -> bool {
    forall|i: int, j: int| 0 <= i < j < s.len() ==> le_entry(#[trigger] s[i], #[trigger] s[j])
}

proof fn lemma_spec_insert_len(s: Seq<FileInfo>, x: FileInfo)
    ensures
        spec_insert(s, x).len() == s.len() + 1,
    decreases s.len(),
{
    if s.len() == 0 {
    } else if le_entry(s.last(), x) {
    } else {
        lemma_spec_insert_len(s.drop_last(), x);
    }
}

/// Sorting keeps the length.
pub proof fn lemma_spec_sort_len(s: Seq<FileInfo>)
    ensures
        spec_sort(s).len() == s.len(),
    decreases s.len(),
{
    if s.len() == 0 {
    } else {
        lemma_spec_sort_len(s.drop_last());
        lemma_spec_insert_len(spec_sort(s.drop_last()), s.last());
    }
}

proof fn lemma_spec_insert_multiset(s: Seq<FileInfo>, x: FileInfo)
    ensures
        spec_insert(s, x).to_multiset() == s.to_multiset().insert(x),
    decreases s.len(),
{
    broadcast use vstd::seq_lib::group_seq_properties;

    if s.len() == 0 {
        assert(seq![x] =~= Seq::empty().push(x));
        Seq::<FileInfo>::empty().to_multiset_ensures();
        Seq::<FileInfo>::empty().push(x).to_multiset_ensures();
    } else if le_entry(s.last(), x) {
        s.to_multiset_ensures();
        s.push(x).to_multiset_ensures();
    } else {
        lemma_spec_insert_multiset(s.drop_last(), x);
        s.drop_last().to_multiset_ensures();
        spec_insert(s.drop_last(), x).to_multiset_ensures();
        spec_insert(s.drop_last(), x).push(s.last()).to_multiset_ensures();
        assert(s =~= s.drop_last().push(s.last()));
        s.drop_last().push(s.last()).to_multiset_ensures();
        assert(spec_insert(s, x).to_multiset() == spec_insert(s.drop_last(), x)
            .to_multiset()
            .insert(s.last()));
        assert(s.to_multiset() == s.drop_last().to_multiset().insert(s.last()));
        assert(s.drop_last().to_multiset().insert(x).insert(s.last()) =~= s
            .drop_last()
            .to_multiset()
            .insert(s.last())
            .insert(x));
    }
}

/// Sorting permutes: the sorted sequence holds the same entries, with
/// the same multiplicities, as the input.
pub proof fn lemma_spec_sort_multiset(s: Seq<FileInfo>)
    ensures
        spec_sort(s).to_multiset() == s.to_multiset(),
    decreases s.len(),
{
    if s.len() == 0 {
        assert(spec_sort(s) =~= s);
    } else {
        lemma_spec_sort_multiset(s.drop_last());
        lemma_spec_insert_multiset(spec_sort(s.drop_last()), s.last());
        assert(s =~= s.drop_last().push(s.last()));
        s.drop_last().to_multiset_ensures();
        s.drop_last().push(s.last()).to_multiset_ensures();
    }
}

proof fn lemma_spec_insert_sorted(s: Seq<FileInfo>, x: FileInfo)
    requires
        sorted_entries(s),
    ensures
        sorted_entries(spec_insert(s, x)),
    decreases s.len(),
{
    lemma_spec_insert_len(s, x);
    if s.len() == 0 {
    } else if le_entry(s.last(), x) {
        assert forall|i: int, j: int|
            0 <= i < j < s.push(x).len() implies le_entry(#[trigger] s.push(x)[i], #[trigger] s
            .push(x)[j]) by {
            if j == s.len() {
                if i < s.len() - 1 {
                    lemma_le_entry_trans(s[i], s.last(), x);
                }
            }
        }
    } else {
        assert(sorted_entries(s.drop_last()));
        lemma_spec_insert_sorted(s.drop_last(), x);
        lemma_spec_insert_len(s.drop_last(), x);
        let t = spec_insert(s.drop_last(), x);
        // Every element of t is either x or an element of s.drop_last(),
        // and each compares le to s.last().
        lemma_le_entry_total(s.last(), x);
        lemma_spec_insert_elements(s.drop_last(), x);
        assert forall|i: int, j: int|
            0 <= i < j < t.push(s.last()).len() implies le_entry(
            #[trigger] t.push(s.last())[i],
            #[trigger] t.push(s.last())[j],
        ) by {
            if j == t.len() {
                let e = t[i];
                assert(e == x || exists|k: int| 0 <= k < s.drop_last().len() && e == s.drop_last()[k]);
                if e == x {
                } else {
                    let k = choose|k: int| 0 <= k < s.drop_last().len() && e == s.drop_last()[k];
                    assert(le_entry(s[k], s.last()));
                }
            }
        }
    }
}

proof fn lemma_spec_insert_elements(s: Seq<FileInfo>, x: FileInfo)
    ensures
        forall|i: int|
            0 <= i < spec_insert(s, x).len() ==> (#[trigger] spec_insert(s, x)[i] == x || exists|
                k: int,
            | 0 <= k < s.len() && spec_insert(s, x)[i] == s[k]),
    decreases s.len(),
{
    lemma_spec_insert_len(s, x);
    if s.len() == 0 {
    } else if le_entry(s.last(), x) {
        assert forall|i: int| 0 <= i < s.push(x).len() implies (#[trigger] s.push(x)[i] == x
            || exists|k: int| 0 <= k < s.len() && s.push(x)[i] == s[k]) by {
            if i < s.len() {
                assert(s.push(x)[i] == s[i]);
            }
        }
    } else {
        lemma_spec_insert_elements(s.drop_last(), x);
        lemma_spec_insert_len(s.drop_last(), x);
        let t = spec_insert(s.drop_last(), x);
        assert forall|i: int| 0 <= i < t.push(s.last()).len() implies (#[trigger] t.push(s.last())[i]
            == x || exists|k: int| 0 <= k < s.len() && t.push(s.last())[i] == s[k]) by {
            if i == t.len() {
                assert(t.push(s.last())[i] == s[s.len() - 1]);
            } else {
                assert(t.push(s.last())[i] == t[i]);
                if t[i] == x {
                } else {
                    let k = choose|k: int| 0 <= k < s.drop_last().len() && t[i] == s.drop_last()[k];
                    assert(t[i] == s[k]);
                }
            }
        }
    }
}

/// The sorted form of any sequence is sorted.
pub proof fn lemma_spec_sort_sorted(s: Seq<FileInfo>)
    ensures
        sorted_entries(spec_sort(s)),
    decreases s.len(),
{
    if s.len() == 0 {
    } else {
        lemma_spec_sort_sorted(s.drop_last());
        lemma_spec_insert_sorted(spec_sort(s.drop_last()), s.last());
    }
}

proof fn lemma_spec_insert_preserves(s: Seq<FileInfo>, x: FileInfo, p: spec_fn(FileInfo) -> bool)
    requires
        forall|i: int| 0 <= i < s.len() ==> p(#[trigger] s[i]),
        p(x),
    ensures
        forall|i: int| 0 <= i < spec_insert(s, x).len() ==> p(#[trigger] spec_insert(s, x)[i]),
    decreases s.len(),
{
    lemma_spec_insert_len(s, x);
    lemma_spec_insert_elements(s, x);
    assert forall|i: int| 0 <= i < spec_insert(s, x).len() implies p(
        #[trigger] spec_insert(s, x)[i],
    ) by {
        if spec_insert(s, x)[i] == x {
        } else {
            let k = choose|k: int| 0 <= k < s.len() && spec_insert(s, x)[i] == s[k];
        }
    }
}

/// Every per-element property of the input holds of the sorted output.
pub proof fn lemma_spec_sort_preserves(s: Seq<FileInfo>, p: spec_fn(FileInfo) -> bool)
    requires
        forall|i: int| 0 <= i < s.len() ==> p(#[trigger] s[i]),
    ensures
        forall|i: int| 0 <= i < spec_sort(s).len() ==> p(#[trigger] spec_sort(s)[i]),
    decreases s.len(),
{
    if s.len() == 0 {
    } else {
        assert(forall|i: int| 0 <= i < s.drop_last().len() ==> p(#[trigger] s.drop_last()[i]));
        lemma_spec_sort_preserves(s.drop_last(), p);
        assert(p(s.last()));
        lemma_spec_insert_preserves(spec_sort(s.drop_last()), s.last(), p);
    }
}

/// Insert one entry into a sorted vector at its stable position.
fn insert_sorted(out: &mut Vec<FileInfo>, x: FileInfo)
    ensures
        final(out)@ == spec_insert(old(out)@, x),
{
    let ghost s = out@;
    let mut j: usize = out.len();
    proof {
        assert(s.take(j as int) =~= s);
        assert(s.skip(j as int) =~= Seq::empty());
        assert(spec_insert(s, x) + Seq::empty() =~= spec_insert(s, x));
    }
    loop
        invariant
            j <= out.len(),
            out@ == s,
            spec_insert(s, x) == spec_insert(s.take(j as int), x) + s.skip(j as int),
        ensures
            out@ == s,
            j <= out.len(),
            spec_insert(s, x) == spec_insert(s.take(j as int), x) + s.skip(j as int),
            j == 0 || le_entry(s[j - 1], x),
        decreases j,
    {
        if j == 0 {
            break ;
        }
        if le_entry_exec(&out[j - 1], &x) {
            break ;
        }
        proof {
            let pre = s.take(j as int);
            assert(pre.last() == s[j - 1]);
            assert(pre.drop_last() =~= s.take(j - 1));
            assert(spec_insert(pre, x) == spec_insert(s.take(j - 1), x).push(s[j - 1]));
            assert(spec_insert(s.take(j - 1), x).push(s[j - 1]) + s.skip(j as int) =~= spec_insert(
                s.take(j - 1),
                x,
            ) + s.skip(j - 1));
        }
        j = j - 1;
    }
    proof {
        let pre = s.take(j as int);
        if j == 0 {
            assert(pre =~= Seq::empty());
            assert(spec_insert(pre, x) =~= seq![x]);
        } else {
            assert(pre.last() == s[j - 1]);
            assert(spec_insert(pre, x) == pre.push(x));
        }
        assert(spec_insert(s.take(j as int), x) =~= s.take(j as int).push(x));
        assert(spec_insert(s, x) =~= s.take(j as int).push(x) + s.skip(j as int));
        assert(s.take(j as int).push(x) + s.skip(j as int) =~= s.insert(j as int, x));
    }
    out.insert(j, x);
}

/// Sort entries with directories first, then ascending case-insensitive
/// name order; ties keep their relative order.
pub fn sort_entries(v: Vec<FileInfo>) -> (r: Vec<FileInfo>)
    ensures
        r@ == spec_sort(v@),
{
    let ghost orig = v@;
    let n = v.len();
    let mut v = v;
    let mut out: Vec<FileInfo> = Vec::new();
    let mut i: usize = 0;
    proof {
        assert(orig.take(0) =~= Seq::empty());
        assert(orig.skip(0) =~= orig);
    }
    while v.len() > 0
        invariant
            i <= n,
            orig.len() == n,
            v@ == orig.skip(i as int),
            out@ == spec_sort(orig.take(i as int)),
        decreases v.len(),
    {
        proof {
            assert(orig.skip(i as int).len() > 0);
            assert(i < orig.len());
        }
        let x = v.remove(0);
        proof {
            assert(orig.skip(i as int)[0] == orig[i as int]);
            assert(orig.skip(i as int).remove(0) =~= orig.skip(i + 1));
            assert(orig.take(i + 1).drop_last() =~= orig.take(i as int));
            assert(orig.take(i + 1).last() == orig[i as int]);
        }
        insert_sorted(&mut out, x);
        i = i + 1;
    }
    proof {
        assert(orig.skip(i as int).len() == 0);
        assert(i == orig.len());
        assert(orig.take(i as int) =~= orig);
    }
    out
}

} // verus!
