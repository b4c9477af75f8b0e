//! Ordering the generation listing by number.

use vstd::prelude::*;
use crate::error::GenError;
use crate::number::{parse_usize_spec, trim_of, usize_from_gen_name};

verus! {

/// Whether `s` is in ascending order.
pub open spec fn ascending(s: Seq<usize>) -> bool {
    forall|a: int, b: int| 0 <= a < b < s.len() ==> s[a] <= s[b]
}

/// Relies on `slice::sort`: the same numbers, in ascending order.
#[verifier::external_body]
fn sort_numbers(v: &mut Vec<usize>)
    ensures
        final(v)@.to_multiset() == old(v)@.to_multiset(),
        ascending(final(v)@),
{
    v.sort();
}

/// A listing entry as plain values: name, commit message, and whether it is
/// `current` and `built`.
pub open spec fn entry_view(e: (String, String, bool, bool)) -> (Seq<char>, Seq<char>, bool, bool) {
    (e.0@, e.1@, e.2, e.3)
}

/// The generation number that the name of entry `e` spells.
pub open spec fn entry_number(e: (String, String, bool, bool)) -> Option<usize> {
    parse_usize_spec(trim_of(e.0@))
}

/// The generation numbers of the entries of a listing whose names all parse.
pub open spec fn entry_numbers(l: Seq<(String, String, bool, bool)>) -> Seq<usize> {
    Seq::new(l.len(), |i: int| entry_number(l[i])->Some_0)
}

/// Whether `out` is the listing `l` ordered by number: for each number of
/// `l` in ascending order, the first entry of `l` with that number.
pub open spec fn sorted_listing(
    l: Seq<(String, String, bool, bool)>,
    out: Seq<(String, String, bool, bool)>,
) -> bool {
    let nums = entry_numbers(l);
    let s = entry_numbers(out);
    &&& out.len() == l.len()
    &&& ascending(s)
    &&& s.to_multiset() == nums.to_multiset()
    &&& forall|k: int| 0 <= k < out.len() ==> #[trigger] first_with_number(l, out, k)
}

/// Whether entry `k` of `out` is the first entry of `l` with its number.
pub open spec fn first_with_number(
    l: Seq<(String, String, bool, bool)>,
    out: Seq<(String, String, bool, bool)>,
    k: int,
) -> bool {
    exists|j: int|
        0 <= j < l.len() && entry_numbers(l)[j] == entry_numbers(out)[k] && entry_view(out[k])
            == entry_view(l[j]) && forall|j2: int|
            0 <= j2 < j ==> entry_numbers(l)[j2] != entry_numbers(out)[k]
}

/// The names of the entries of a listing.
pub fn get_list_vector_names(list_vec: &Vec<(String, String, bool, bool)>) -> (r: Vec<String>)
    ensures
        r@.len() == list_vec@.len(),
        forall|i: int| 0 <= i < r@.len() ==> r@[i]@ == list_vec@[i].0@,
{
    let mut r: Vec<String> = Vec::new();
    let mut i: usize = 0;
    while i < list_vec.len()
        invariant
            i <= list_vec.len(),
            r@.len() == i,
            forall|j: int| 0 <= j < i ==> r@[j]@ == list_vec@[j].0@,
        decreases list_vec.len() - i,
    {
        r.push(list_vec[i].0.clone());
        i = i + 1;
    }
    r
}

fn copy_entry(e: &(String, String, bool, bool)) -> (r: (String, String, bool, bool))
    ensures
        entry_view(r) == entry_view(*e),
{
    (e.0.clone(), e.1.clone(), e.2, e.3)
}

/// The listing ordered by generation number. For each number in ascending
/// order it holds the first entry with that number. Fails where a name is
/// not a number.
pub fn sort_list_vector(list_vec: &Vec<(String, String, bool, bool)>) -> (r: Result<
    Vec<(String, String, bool, bool)>,
    GenError,
>)
    ensures
        r is Err <==> exists|i: int| 0 <= i < list_vec@.len() && entry_number(list_vec@[i]) is None,
        r is Err ==> r == Err::<Vec<(String, String, bool, bool)>, GenError>(GenError::InvalidNumber),
        r matches Ok(out) ==> sorted_listing(list_vec@, out@),
{
    let mut nums: Vec<usize> = Vec::new();
    let mut i: usize = 0;
    while i < list_vec.len()
        invariant
            i <= list_vec.len(),
            nums@.len() == i,
            forall|j: int| 0 <= j < i ==> entry_number(list_vec@[j]) == Some(#[trigger] nums@[j]),
        decreases list_vec.len() - i,
    {
        match usize_from_gen_name(list_vec[i].0.as_str()) {
            Ok(n) => nums.push(n),
            Err(e) => {
                assert(entry_number(list_vec@[i as int]) is None);
                return Err(e);
            },
        }
        i = i + 1;
    }
    let ghost unsorted = nums@;
    let mut sorted = Vec::new();
    let mut k: usize = 0;
    while k < nums.len()
        invariant
            k <= nums.len(),
            sorted@.len() == k,
            forall|j: int| 0 <= j < k ==> #[trigger] sorted@[j] == nums@[j],
        decreases nums.len() - k,
    {
        sorted.push(nums[k]);
        k = k + 1;
    }
    assert(sorted@ =~= nums@);
    sort_numbers(&mut sorted);
    proof {
        sorted@.to_multiset_ensures();
        unsorted.to_multiset_ensures();
        assert(sorted@.len() == sorted@.to_multiset().len());
    }
    let mut out: Vec<(String, String, bool, bool)> = Vec::new();
    let mut a: usize = 0;
    while a < sorted.len()
        invariant
            a <= sorted.len(),
            sorted@.len() == nums@.len(),
            nums@.len() == list_vec@.len(),
            sorted@.to_multiset() == nums@.to_multiset(),
            ascending(sorted@),
            forall|j: int| 0 <= j < nums@.len() ==> entry_number(list_vec@[j]) == Some(#[trigger] nums@[j]),
            out@.len() == a,
            forall|k2: int|
                0 <= k2 < a ==> entry_number(out@[k2]) == Some(sorted@[k2]) && exists|j: int|
                    0 <= j < nums@.len() && nums@[j] == sorted@[k2] && entry_view(#[trigger] out@[k2])
                        == entry_view(list_vec@[j]) && forall|j2: int|
                        0 <= j2 < j ==> nums@[j2] != sorted@[k2],
        decreases sorted.len() - a,
    {
        let want = sorted[a];
        proof {
            assert(sorted@.to_multiset().count(want) > 0) by {
                sorted@.to_multiset_ensures();
                assert(sorted@.contains(want)) by {
                    assert(sorted@[a as int] == want);
                }
            }
            nums@.to_multiset_ensures();
        }
        let mut j: usize = 0;
        while j < nums.len() && nums[j] != want
            invariant
                j <= nums@.len(),
                a < sorted@.len(),
                want == sorted@[a as int],
                nums@.contains(want),
                forall|j2: int| 0 <= j2 < j ==> nums@[j2] != want,
            decreases nums.len() - j,
        {
            j = j + 1;
        }
        if j == nums.len() {
            proof {
                let t = choose|t: int| 0 <= t < nums@.len() && nums@[t] == want;
                assert(nums@[t] != want);
            }
        }
        let entry = copy_entry(&list_vec[j]);
        assert(entry_number(entry) == entry_number(list_vec@[j as int]));
        let ghost before = out@;
        out.push(entry);
        proof {
            assert(entry_view(out@[a as int]) == entry_view(list_vec@[j as int]));
            assert(nums@[j as int] == want);
            assert(entry_number(out@[a as int]) == Some(sorted@[a as int]));
            assert forall|k2: int|
                0 <= k2 < a + 1 implies entry_number(out@[k2]) == Some(sorted@[k2]) && exists|j1: int|
                    0 <= j1 < nums@.len() && nums@[j1] == sorted@[k2] && entry_view(#[trigger] out@[k2])
                        == entry_view(list_vec@[j1]) && forall|j2: int|
                        0 <= j2 < j1 ==> nums@[j2] != sorted@[k2] by {
                if k2 < a {
                    assert(out@[k2] == before[k2]);
                } else {
                    assert(0 <= j < nums@.len() && nums@[j as int] == sorted@[k2] && entry_view(out@[k2])
                        == entry_view(list_vec@[j as int]));
                }
            }
        }
        a = a + 1;
    }
    proof {
        assert forall|i: int| 0 <= i < list_vec@.len() implies entry_number(list_vec@[i]) is Some by {
            assert(entry_number(list_vec@[i]) == Some(nums@[i]));
        }
        assert(entry_numbers(out@) =~= sorted@);
        assert(entry_numbers(list_vec@) =~= nums@);
        let nn = entry_numbers(list_vec@);
        let ss = entry_numbers(out@);
        assert forall|k: int| 0 <= k < out@.len() implies #[trigger] first_with_number(list_vec@, out@, k) by {
            assert(ss[k] == sorted@[k]);
            assert(entry_number(out@[k]) == Some(sorted@[k]));
            let j = choose|j: int|
                0 <= j < nums@.len() && nums@[j] == sorted@[k] && entry_view(out@[k])
                    == entry_view(list_vec@[j]) && forall|j2: int|
                    0 <= j2 < j ==> nums@[j2] != sorted@[k];
            assert(nn[j] == ss[k]);
        }
        assert(sorted_listing(list_vec@, out@));
    }
    Ok(out)
}

} // verus!
