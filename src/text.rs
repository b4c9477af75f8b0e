//! Lists of identifiers: membership, copying and first-occurrence filtering.

use vstd::prelude::*;

verus! {

/// The elements of `s` that lie in `keep`, each at its first position in `s`,
/// later repetitions left out.
pub open spec fn keep_first_in(s: Seq<Seq<char>>, keep: Set<Seq<char>>) -> Seq<Seq<char>>
    decreases s.len(),
{
    if s.len() == 0 {
        Seq::empty()
    } else {
        let p = keep_first_in(s.drop_last(), keep);
        if keep.contains(s.last()) && !p.contains(s.last()) {
            p.push(s.last())
        } else {
            p
        }
    }
}

/// Whether the elements of `s` are pairwise distinct.
pub open spec fn all_distinct(s: Seq<Seq<char>>) -> bool {
    forall|i: int, j: int| 0 <= i < s.len() && 0 <= j < s.len() && i != j ==> s[i] != s[j]
}

/// `keep_first_in` holds each kept element of `s` exactly once and nothing else.
pub proof fn lemma_keep_first_in(s: Seq<Seq<char>>, keep: Set<Seq<char>>)
    ensures
        all_distinct(keep_first_in(s, keep)),
        forall|x: Seq<char>|
            keep_first_in(s, keep).contains(x) <==> (s.contains(x) && keep.contains(x)),
    decreases s.len(),
{
    if s.len() > 0 {
        let p = keep_first_in(s.drop_last(), keep);
        lemma_keep_first_in(s.drop_last(), keep);
        assert forall|x: Seq<char>| s.contains(x) <==> (s.drop_last().contains(x) || x == s.last()) by {
            if s.contains(x) {
                let i = choose|i: int| 0 <= i < s.len() && s[i] == x;
                if i < s.len() - 1 {
                    assert(s.drop_last()[i] == x);
                }
            }
            if x == s.last() {
                assert(s[s.len() - 1] == x);
            }
            if s.drop_last().contains(x) {
                let i = choose|i: int| 0 <= i < s.drop_last().len() && s.drop_last()[i] == x;
                assert(s[i] == x);
            }
        }
        if keep.contains(s.last()) && !p.contains(s.last()) {
            let q = p.push(s.last());
            assert forall|x: Seq<char>| q.contains(x) <==> (p.contains(x) || x == s.last()) by {
                if q.contains(x) {
                    let i = choose|i: int| 0 <= i < q.len() && q[i] == x;
                    if i < p.len() {
                        assert(p[i] == x);
                    }
                }
                if p.contains(x) {
                    let i = choose|i: int| 0 <= i < p.len() && p[i] == x;
                    assert(q[i] == x);
                }
                if x == s.last() {
                    assert(q[p.len() as int] == x);
                }
            }
            assert forall|i: int, j: int| 0 <= i < q.len() && 0 <= j < q.len() && i != j implies q[i]
                != q[j] by {
                if i == p.len() {
                    assert(p.contains(q[j]));
                } else if j == p.len() {
                    assert(p.contains(q[i]));
                }
            }
        }
    }
}

/// The first `i` elements of `s` followed by `s[i]` are its first `i + 1`.
pub proof fn lemma_take_next(s: Seq<Seq<char>>, i: int)
    requires
        0 <= i < s.len(),
    ensures
        s.take(i + 1).drop_last() == s.take(i),
        s.take(i + 1).last() == s[i],
{
    assert(s.take(i + 1).drop_last() =~= s.take(i));
}

/// Whether the list holds the identifier.
pub fn contains_string(v: &Vec<String>, x: &String) -> (r: bool)
    ensures
        r == v.deep_view().contains(x@),
{
    let mut i: usize = 0;
    while i < v.len()
        invariant
            i <= v.len(),
            forall|j: int| 0 <= j < i ==> v.deep_view()[j] != x@,
        decreases v.len() - i,
    {
        if v[i] == *x {
            assert(v.deep_view()[i as int] == x@);
            return true;
        }
        i = i + 1;
    }
    false
}

/// A copy of the list.
pub fn clone_strings(v: &Vec<String>) -> (r: Vec<String>)
    ensures
        r.deep_view() == v.deep_view(),
{
    let mut r: Vec<String> = Vec::new();
    let mut i: usize = 0;
    while i < v.len()
        invariant
            i <= v.len(),
            r.deep_view() == v.deep_view().take(i as int),
        decreases v.len() - i,
    {
        let item = v[i].clone();
        assert(item@ == v.deep_view()[i as int]);
        let ghost before = r.deep_view();
        r.push(item);
        assert(r.deep_view() =~= before.push(item@));
        assert(v.deep_view().take(i as int + 1) =~= v.deep_view().take(i as int).push(item@));
        i = i + 1;
    }
    assert(v.deep_view().take(v.len() as int) =~= v.deep_view());
    r
}

/// `a` followed by a copy of `b`.
pub fn append_strings(a: &mut Vec<String>, b: &Vec<String>)
    ensures
        final(a).deep_view() == old(a).deep_view() + b.deep_view(),
{
    let ghost start = a.deep_view();
    let mut i: usize = 0;
    while i < b.len()
        invariant
            i <= b.len(),
            a.deep_view() == start + b.deep_view().take(i as int),
        decreases b.len() - i,
    {
        let item = b[i].clone();
        assert(item@ == b.deep_view()[i as int]);
        let ghost before = a.deep_view();
        a.push(item);
        assert(a.deep_view() =~= before.push(item@));
        assert(b.deep_view().take(i as int + 1) =~= b.deep_view().take(i as int).push(item@));
        assert(a.deep_view() =~= start + b.deep_view().take(i as int + 1));
        i = i + 1;
    }
    assert(b.deep_view().take(b.len() as int) =~= b.deep_view());
}

} // verus!
