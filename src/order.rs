//! Manager activation order.

use vstd::prelude::*;
use crate::generation::{Generation, ManagerOrder};
use crate::manager_map::distinct_views;
use crate::text::{all_distinct, append_strings, clone_strings, contains_string, keep_first_in, lemma_keep_first_in, lemma_take_next};

verus! {

/// The keys named in neither `begin` nor `end`, in the order of `keys`.
pub open spec fn middle_keys(
    begin: Seq<Seq<char>>,
    keys: Seq<Seq<char>>,
    end: Seq<Seq<char>>,
) -> Seq<Seq<char>> {
    keys.filter(|k: Seq<char>| !begin.contains(k) && !end.contains(k))
}

/// `begin`, then the other keys, then `end`, before filtering.
pub open spec fn full_order(
    begin: Seq<Seq<char>>,
    keys: Seq<Seq<char>>,
    end: Seq<Seq<char>>,
) -> Seq<Seq<char>> {
    begin + middle_keys(begin, keys, end) + end
}

/// The activation order: `full_order` restricted to the managers in
/// `present`, each at its first position.
pub open spec fn ordered_managers(
    begin: Seq<Seq<char>>,
    keys: Seq<Seq<char>>,
    end: Seq<Seq<char>>,
    present: Set<Seq<char>>,
) -> Seq<Seq<char>> {
    keep_first_in(full_order(begin, keys, end), present)
}

/// Whether `r` is an activation order that `get_order` may give for a
/// generation with managers `managers`: without an override, each manager
/// once; with one, `ordered_managers` over some listing of the managers.
pub open spec fn valid_order(
    managers: Map<Seq<char>, Seq<Seq<char>>>,
    order: Option<&ManagerOrder>,
    r: Seq<Seq<char>>,
) -> bool {
    match order {
        None => all_distinct(r) && forall|k: Seq<char>| managers.contains_key(k) <==> r.contains(k),
        Some(o) => exists|keys: Seq<Seq<char>>|
            all_distinct(keys) && (forall|k: Seq<char>| managers.contains_key(k) <==> keys.contains(k))
                && r == ordered_managers(o.begin.deep_view(), keys, o.end.deep_view(), managers.dom()),
    }
}

/// How often `x` occurs in `s`.
pub open spec fn occurrences(s: Seq<Seq<char>>, x: Seq<char>) -> nat
    decreases s.len(),
{
    if s.len() == 0 {
        0
    } else {
        occurrences(s.drop_last(), x) + if s.last() == x {
            1nat
        } else {
            0nat
        }
    }
}

/// The names that occur more than once in `s`.
pub open spec fn repeated_in(s: Seq<Seq<char>>) -> Set<Seq<char>> {
    Set::new(|x: Seq<char>| occurrences(s, x) > 1)
}

/// `begin`, the keys of `keys` named in neither list, then `end`.
fn full_order_of(keys: &Vec<String>, order: &ManagerOrder) -> (r: Vec<String>)
    ensures
        r.deep_view() == full_order(order.begin.deep_view(), keys.deep_view(), order.end.deep_view()),
{
    let ghost b = order.begin.deep_view();
    let ghost e = order.end.deep_view();
    let mut middle: Vec<String> = Vec::new();
    let mut i: usize = 0;
    while i < keys.len()
        invariant
            i <= keys.len(),
            b == order.begin.deep_view(),
            e == order.end.deep_view(),
            middle.deep_view() == middle_keys(b, keys.deep_view().take(i as int), e),
        decreases keys.len() - i,
    {
        let k = &keys[i];
        proof {
            lemma_take_next(keys.deep_view(), i as int);
            reveal(Seq::filter);
        }
        assert(k@ == keys.deep_view()[i as int]);
        if !contains_string(&order.begin, k) && !contains_string(&order.end, k) {
            let ghost before = middle.deep_view();
            middle.push(k.clone());
            assert(middle.deep_view() =~= before.push(k@));
        }
        i = i + 1;
    }
    assert(keys.deep_view().take(keys.len() as int) =~= keys.deep_view());
    let mut r = clone_strings(&order.begin);
    append_strings(&mut r, &middle);
    append_strings(&mut r, &order.end);
    r
}

/// The activation order of `gen` given its manager names in `keys` and an
/// override: `begin`, then the names in neither list in the order of `keys`,
/// then `end`, keeping only the managers of `gen`, each at its first position.
pub fn order_with_keys(gen: &Generation, keys: &Vec<String>, order: &ManagerOrder) -> (r: Vec<String>)
    ensures
        r.deep_view() == ordered_managers(
            order.begin.deep_view(),
            keys.deep_view(),
            order.end.deep_view(),
            gen.managers_view().dom(),
        ),
{
    let all = full_order_of(keys, order);
    let ghost present = gen.managers_view().dom();
    let mut r: Vec<String> = Vec::new();
    let mut i: usize = 0;
    while i < all.len()
        invariant
            i <= all.len(),
            present == gen.managers_view().dom(),
            r.deep_view() == keep_first_in(all.deep_view().take(i as int), present),
        decreases all.len() - i,
    {
        let x = &all[i];
        proof {
            lemma_take_next(all.deep_view(), i as int);
        }
        assert(x@ == all.deep_view()[i as int]);
        if gen.managers.contains_key(x) && !contains_string(&r, x) {
            let ghost before = r.deep_view();
            r.push(x.clone());
            assert(r.deep_view() =~= before.push(x@));
        }
        i = i + 1;
    }
    assert(all.deep_view().take(all.len() as int) =~= all.deep_view());
    r
}

/// The order in which the managers of `gen` are activated. Without an
/// override it is the managers in the map's own order; with one it is
/// `order_with_keys` over the map's keys.
pub fn get_order(gen: &Generation, order: Option<&ManagerOrder>) -> (r: Vec<String>)
    ensures
        valid_order(gen.managers_view(), order, r.deep_view()),
{
    let keys = gen.managers.keys();
    assert(distinct_views(keys.deep_view()));
    match order {
        None => keys,
        Some(o) => {
            let r = order_with_keys(gen, &keys, o);
            assert(all_distinct(keys.deep_view()));
            assert(forall|k: Seq<char>|
                gen.managers_view().contains_key(k) <==> keys.deep_view().contains(k));
            r
        },
    }
}

/// Each name that occurs more than once in the unfiltered order, with how
/// often it occurs, by first position.
pub fn order_duplicates(keys: &Vec<String>, order: &ManagerOrder) -> (r: Vec<(String, usize)>)
    ensures
        r@.len() == keep_first_in(
            full_order(order.begin.deep_view(), keys.deep_view(), order.end.deep_view()),
            repeated_in(full_order(order.begin.deep_view(), keys.deep_view(), order.end.deep_view())),
        ).len(),
        forall|i: int|
            0 <= i < r@.len() ==> r@[i].0@ == keep_first_in(
                full_order(order.begin.deep_view(), keys.deep_view(), order.end.deep_view()),
                repeated_in(
                    full_order(order.begin.deep_view(), keys.deep_view(), order.end.deep_view()),
                ),
            )[i] && r@[i].1 == occurrences(
                full_order(order.begin.deep_view(), keys.deep_view(), order.end.deep_view()),
                r@[i].0@,
            ),
{
    let all = full_order_of(keys, order);
    let ghost s = all.deep_view();
    let mut names: Vec<String> = Vec::new();
    let mut r: Vec<(String, usize)> = Vec::new();
    let mut i: usize = 0;
    while i < all.len()
        invariant
            i <= all.len(),
            s == all.deep_view(),
            names.deep_view() == keep_first_in(s.take(i as int), repeated_in(s)),
            r@.len() == names@.len(),
            forall|j: int|
                #![trigger r@[j]]
                0 <= j < r@.len() ==> r@[j].0@ == names.deep_view()[j] && r@[j].1
                    == occurrences(s, r@[j].0@),
        decreases all.len() - i,
    {
        let x = &all[i];
        proof {
            lemma_take_next(s, i as int);
        }
        assert(x@ == s[i as int]);
        let count = count_of(&all, x);
        if count > 1 && !contains_string(&names, x) {
            let ghost before = names.deep_view();
            names.push(x.clone());
            assert(names.deep_view() =~= before.push(x@));
            let name = x.clone();
            let ghost before_r = r@;
            r.push((name, count));
            assert(r@ == before_r.push((name, count)));
            assert(r@[r@.len() - 1].0@ == x@);
            assert forall|j: int|
                #![trigger r@[j]]
                0 <= j < r@.len() implies r@[j].0@ == names.deep_view()[j]
                && r@[j].1 == occurrences(s, r@[j].0@) by {
                if j < before_r.len() {
                    assert(r@[j] == before_r[j]);
                    assert(names.deep_view()[j] == before[j]);
                } else {
                    assert(names.deep_view()[j] == x@);
                }
            }
        }
        i = i + 1;
    }
    assert(s.take(all.len() as int) =~= s);
    r
}

/// How often `x` occurs in `v`.
fn count_of(v: &Vec<String>, x: &String) -> (r: usize)
    ensures
        r == occurrences(v.deep_view(), x@),
{
    let mut n: usize = 0;
    let mut i: usize = 0;
    while i < v.len()
        invariant
            i <= v.len(),
            n <= i,
            n == occurrences(v.deep_view().take(i as int), x@),
        decreases v.len() - i,
    {
        proof {
            lemma_take_next(v.deep_view(), i as int);
        }
        assert(v[i as int]@ == v.deep_view()[i as int]);
        if v[i] == *x {
            n = n + 1;
        }
        i = i + 1;
    }
    assert(v.deep_view().take(v.len() as int) =~= v.deep_view());
    n
}

/// The activation order is a permutation of the generation's managers:
/// for manager names `keys` without repetition, the order holds each
/// manager once and nothing else, so a name of `begin` or `end` that is not
/// a manager never appears.
pub proof fn lemma_order_is_permutation(
    begin: Seq<Seq<char>>,
    keys: Seq<Seq<char>>,
    end: Seq<Seq<char>>,
    present: Set<Seq<char>>,
)
    requires
        all_distinct(keys),
        forall|k: Seq<char>| present.contains(k) <==> keys.contains(k),
    ensures
        all_distinct(ordered_managers(begin, keys, end, present)),
        forall|k: Seq<char>| ordered_managers(begin, keys, end, present).contains(k) <==> present.contains(k),
        forall|k: Seq<char>|
            (begin.contains(k) || end.contains(k)) && !present.contains(k) ==> !ordered_managers(
                begin,
                keys,
                end,
                present,
            ).contains(k),
{
    let all = full_order(begin, keys, end);
    let mid = middle_keys(begin, keys, end);
    lemma_keep_first_in(all, present);
    assert forall|k: Seq<char>| present.contains(k) implies all.contains(k) by {
        let i = choose|i: int| 0 <= i < keys.len() && keys[i] == k;
        if begin.contains(k) {
            let j = choose|j: int| 0 <= j < begin.len() && begin[j] == k;
            assert(all[j] == k);
        } else if end.contains(k) {
            let j = choose|j: int| 0 <= j < end.len() && end[j] == k;
            assert(all[begin.len() + mid.len() + j] == k);
        } else {
            keys.lemma_filter_contains(|k: Seq<char>| !begin.contains(k) && !end.contains(k), i);
            let j = choose|j: int| 0 <= j < mid.len() && mid[j] == k;
            assert(all[begin.len() + j] == k);
        }
    }
}

} // verus!
