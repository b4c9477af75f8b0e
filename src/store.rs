//! The generation store: which generations exist, and the `current` and
//! `built` pointers.

use vstd::prelude::*;
use crate::error::GenError;

verus! {

/// The largest number of `s`, or 0 for an empty list.
pub open spec fn max_of(s: Seq<usize>) -> nat
    decreases s.len(),
{
    if s.len() == 0 {
        0
    } else if max_of(s.drop_last()) >= s.last() {
        max_of(s.drop_last())
    } else {
        s.last() as nat
    }
}

/// The smallest number of a non-empty `s`.
pub open spec fn min_of(s: Seq<usize>) -> nat
    decreases s.len(),
{
    if s.len() <= 1 {
        if s.len() == 1 {
            s[0] as nat
        } else {
            0
        }
    } else if min_of(s.drop_last()) <= s.last() {
        min_of(s.drop_last())
    } else {
        s.last() as nat
    }
}

proof fn lemma_take_last(s: Seq<usize>, i: int)
    requires
        0 <= i < s.len(),
    ensures
        s.take(i + 1).drop_last() == s.take(i),
        s.take(i + 1).last() == s[i],
{
    assert(s.take(i + 1).drop_last() =~= s.take(i));
}

/// `max_of` is the largest element, and `min_of` the smallest.
pub proof fn lemma_extremes(s: Seq<usize>)
    ensures
        forall|x: usize| s.contains(x) ==> x <= max_of(s) && min_of(s) <= x,
        s.len() > 0 ==> s.contains(max_of(s) as usize) && s.contains(min_of(s) as usize),
    decreases s.len(),
{
    if s.len() > 0 {
        let p = s.drop_last();
        lemma_extremes(p);
        assert(s[s.len() - 1] == s.last());
        assert forall|x: usize| s.contains(x) implies x <= max_of(s) && min_of(s) <= x by {
            let i = choose|i: int| 0 <= i < s.len() && s[i] == x;
            if i < s.len() - 1 {
                assert(p[i] == x);
                assert(p.contains(x));
            } else {
                assert(x == s.last());
            }
        }
        if p.len() > 0 {
            let i = choose|i: int| 0 <= i < p.len() && p[i] == max_of(p) as usize;
            assert(s[i] == p[i]);
            let j = choose|j: int| 0 <= j < p.len() && p[j] == min_of(p) as usize;
            assert(s[j] == p[j]);
        }
        assert(s[s.len() - 1] == s.last());
    }
}

/// The largest generation number, or 0 where there is none.
pub fn latest_number(gens: &Vec<usize>) -> (r: usize)
    ensures
        r == max_of(gens@),
{
    let mut m: usize = 0;
    let mut i: usize = 0;
    while i < gens.len()
        invariant
            i <= gens.len(),
            m == max_of(gens@.take(i as int)),
        decreases gens.len() - i,
    {
        proof {
            lemma_take_last(gens@, i as int);
        }
        if gens[i] > m {
            m = gens[i];
        }
        i = i + 1;
    }
    assert(gens@.take(gens.len() as int) =~= gens@);
    m
}

/// The smallest generation number; fails where there is no generation.
pub fn get_oldest(gens: &Vec<usize>) -> (r: Result<usize, GenError>)
    ensures
        gens@.len() == 0 ==> r == Err::<usize, GenError>(GenError::NoGenerations),
        gens@.len() > 0 ==> r == Ok::<usize, GenError>(min_of(gens@) as usize),
{
    if gens.len() == 0 {
        return Err(GenError::NoGenerations);
    }
    let mut m: usize = gens[0];
    let mut i: usize = 1;
    assert(gens@.take(1).drop_last().len() == 0);
    while i < gens.len()
        invariant
            1 <= i <= gens.len(),
            m == min_of(gens@.take(i as int)),
        decreases gens.len() - i,
    {
        proof {
            lemma_take_last(gens@, i as int);
        }
        if gens[i] < m {
            m = gens[i];
        }
        i = i + 1;
    }
    assert(gens@.take(gens.len() as int) =~= gens@);
    Ok(m)
}

/// Whether generation `generation` exists.
pub fn generation_exists(gens: &Vec<usize>, generation: usize) -> (r: bool)
    ensures
        r == gens@.contains(generation),
{
    let mut i: usize = 0;
    while i < gens.len()
        invariant
            i <= gens.len(),
            forall|j: int| 0 <= j < i ==> gens@[j] != generation,
        decreases gens.len() - i,
    {
        if gens[i] == generation {
            return true;
        }
        i = i + 1;
    }
    false
}

/// Whether `to` may be pointed at: from 1 to the latest generation.
pub open spec fn in_range(gens: Seq<usize>, to: int) -> bool {
    1 <= to <= max_of(gens)
}

/// What `delete` does with a generation that is not protected.
#[derive(Debug, Clone, Copy, PartialEq, Eq, Structural)]
pub enum DeleteOutcome {
    /// The generation was removed.
    Deleted,
    /// Kept: it is the `current` generation.
    ProtectedCurrent,
    /// Kept: it is the `built` generation.
    ProtectedBuilt,
}

/// The generations that exist and the two pointers.
pub struct GenStore {
    /// The number of each generation directory.
    pub gens: Vec<usize>,
    /// The `current` pointer, where one is recorded.
    pub current: Option<usize>,
    /// The `built` pointer, where a build has happened.
    pub built: Option<usize>,
}

/// Whether `x` is neither the `current` nor the `built` generation.
pub open spec fn unprotected(current: Option<usize>, built: Option<usize>, x: usize) -> bool {
    current != Some(x) && built != Some(x)
}

/// What `delete` reports for a generation that it does not refuse.
pub open spec fn outcome_for(current: Option<usize>, built: Option<usize>, x: usize) -> DeleteOutcome {
    if current == Some(x) {
        DeleteOutcome::ProtectedCurrent
    } else if built == Some(x) {
        DeleteOutcome::ProtectedBuilt
    } else {
        DeleteOutcome::Deleted
    }
}

/// Whether `x` lies in the window of `delete_old`: from `lo`, at most
/// `how_many` numbers, none above `latest`.
pub open spec fn in_window(x: int, lo: int, how_many: int, latest: int) -> bool {
    lo <= x < lo + how_many && x <= latest
}

/// Whether `delete` accepts generation `x`: a `current` is recorded, and
/// `x` is protected or exists.
pub open spec fn delete_allowed(
    current: Option<usize>,
    built: Option<usize>,
    gens: Seq<usize>,
    x: int,
) -> bool {
    current is Some && (unprotected(current, built, x as usize) ==> gens.contains(x as usize))
}

proof fn lemma_filter_and(s: Seq<usize>, p: spec_fn(usize) -> bool, q: spec_fn(usize) -> bool)
    ensures
        s.filter(p).filter(q) == s.filter(|x: usize| p(x) && q(x)),
    decreases s.len(),
{
    reveal(Seq::filter);
    if s.len() > 0 {
        lemma_filter_and(s.drop_last(), p, q);
        let pq = |x: usize| p(x) && q(x);
        if p(s.last()) {
            assert(s.filter(p).drop_last() =~= s.drop_last().filter(p));
        }
    }
}

impl GenStore {
    /// The generations and pointers as plain values.
    pub open spec fn model(&self) -> (Seq<usize>, Option<usize>, Option<usize>) {
        (self.gens@, self.current, self.built)
    }

    /// The largest generation number, or 0 where there is none.
    pub fn latest_number(&self) -> (r: usize)
        ensures
            r == max_of(self.gens@),
    {
        latest_number(&self.gens)
    }

    /// The `current` generation; fails where none is recorded.
    pub fn get_current(&self) -> (r: Result<usize, GenError>)
        ensures
            r == match self.current {
                Some(c) => Ok::<usize, GenError>(c),
                None => Err(GenError::NoCurrent),
            },
    {
        match self.current {
            Some(c) => Ok(c),
            None => Err(GenError::NoCurrent),
        }
    }

    /// Whether a build has happened.
    pub fn been_built(&self) -> (r: bool)
        ensures
            r == (self.built is Some),
    {
        self.built.is_some()
    }

    /// Whether `generation` is the `current` one; fails where none is recorded.
    pub fn is_current(&self, generation: usize) -> (r: Result<bool, GenError>)
        ensures
            r == match self.current {
                Some(c) => Ok::<bool, GenError>(c == generation),
                None => Err(GenError::NoCurrent),
            },
    {
        match self.current {
            Some(c) => Ok(c == generation),
            None => Err(GenError::NoCurrent),
        }
    }

    /// Whether `generation` is the `built` one; no generation is before the
    /// first build.
    pub fn is_built(&self, generation: usize) -> (r: bool)
        ensures
            r == (self.built == Some(generation)),
    {
        match self.built {
            Some(b) => b == generation,
            None => false,
        }
    }

    /// Point `current` at `to`; rejects 0 and anything above the latest
    /// generation, leaving the store unchanged.
    pub fn set_current(&mut self, to: usize) -> (r: Result<(), GenError>)
        ensures
            in_range(old(self).gens@, to as int) ==> r is Ok && final(self).model() == (
                old(self).gens@,
                Some(to),
                old(self).built,
            ),
            !in_range(old(self).gens@, to as int) ==> r == Err::<(), GenError>(GenError::OutOfRange)
                && final(self).model() == old(self).model(),
    {
        if to > self.latest_number() || to < 1 {
            return Err(GenError::OutOfRange);
        }
        self.current = Some(to);
        Ok(())
    }

    /// Point `built` at `to`; rejects 0 and anything above the latest
    /// generation, leaving the store unchanged.
    pub fn set_built(&mut self, to: usize) -> (r: Result<(), GenError>)
        ensures
            in_range(old(self).gens@, to as int) ==> r is Ok && final(self).model() == (
                old(self).gens@,
                old(self).current,
                Some(to),
            ),
            !in_range(old(self).gens@, to as int) ==> r == Err::<(), GenError>(GenError::OutOfRange)
                && final(self).model() == old(self).model(),
    {
        if to > self.latest_number() || to < 1 {
            return Err(GenError::OutOfRange);
        }
        self.built = Some(to);
        Ok(())
    }

    /// Move `current` back by `by` generations (forward where `by` is
    /// negative); the target must be in range.
    pub fn rollback(&mut self, by: isize) -> (r: Result<(), GenError>)
        ensures
            match old(self).current {
                None => r == Err::<(), GenError>(GenError::NoCurrent) && final(self).model()
                    == old(self).model(),
                Some(c) => if in_range(old(self).gens@, c - by) {
                    r is Ok && final(self).model() == (
                        old(self).gens@,
                        Some((c - by) as usize),
                        old(self).built,
                    )
                } else {
                    r == Err::<(), GenError>(GenError::OutOfRange) && final(self).model()
                        == old(self).model()
                },
            },
    {
        let c = match self.current {
            Some(c) => c,
            None => {
                return Err(GenError::NoCurrent);
            },
        };
        let target: i128 = c as i128 - by as i128;
        if target < 1 || target > self.latest_number() as i128 {
            return Err(GenError::OutOfRange);
        }
        self.set_current(target as usize)
    }

    /// Point `current` at the latest generation; fails where there is none.
    pub fn latest(&mut self) -> (r: Result<(), GenError>)
        ensures
            max_of(old(self).gens@) >= 1 ==> r is Ok && final(self).model() == (
                old(self).gens@,
                Some(max_of(old(self).gens@) as usize),
                old(self).built,
            ),
            max_of(old(self).gens@) == 0 ==> r == Err::<(), GenError>(GenError::OutOfRange)
                && final(self).model() == old(self).model(),
    {
        let n = self.latest_number();
        self.set_current(n)
    }

    /// Delete generation `generation`. The `current` generation and, after a
    /// build, the `built` one are kept, and this is no failure. Fails where
    /// no `current` is recorded or the generation does not exist; the store
    /// is then unchanged.
    pub fn delete(&mut self, generation: usize) -> (r: Result<DeleteOutcome, GenError>)
        ensures
            old(self).current is None ==> r == Err::<DeleteOutcome, GenError>(GenError::NoCurrent)
                && final(self).model() == old(self).model(),
            old(self).current is Some && !unprotected(old(self).current, old(self).built, generation)
                ==> r == Ok::<DeleteOutcome, GenError>(
                outcome_for(old(self).current, old(self).built, generation),
            ) && final(self).model() == old(self).model(),
            old(self).current is Some && unprotected(old(self).current, old(self).built, generation)
                && !old(self).gens@.contains(generation) ==> r == Err::<DeleteOutcome, GenError>(
                GenError::DoesNotExist,
            ) && final(self).model() == old(self).model(),
            old(self).current is Some && unprotected(old(self).current, old(self).built, generation)
                && old(self).gens@.contains(generation) ==> r == Ok::<DeleteOutcome, GenError>(
                DeleteOutcome::Deleted,
            ) && final(self).model() == (
                old(self).gens@.filter(|x: usize| x != generation),
                old(self).current,
                old(self).built,
            ),
    {
        if self.is_current(generation)? {
            return Ok(DeleteOutcome::ProtectedCurrent);
        }
        if self.been_built() && self.is_built(generation) {
            return Ok(DeleteOutcome::ProtectedBuilt);
        }
        if !generation_exists(&self.gens, generation) {
            return Err(GenError::DoesNotExist);
        }
        let ghost start = self.gens@;
        let mut kept: Vec<usize> = Vec::new();
        let mut i: usize = 0;
        while i < self.gens.len()
            invariant
                i <= self.gens.len(),
                self.gens@ == start,
                kept@ == start.take(i as int).filter(|x: usize| x != generation),
            decreases self.gens.len() - i,
        {
            proof {
                reveal(Seq::filter);
                lemma_take_last(start, i as int);
            }
            if self.gens[i] != generation {
                kept.push(self.gens[i]);
            }
            i = i + 1;
        }
        assert(start.take(start.len() as int) =~= start);
        self.gens = kept;
        Ok(DeleteOutcome::Deleted)
    }

    /// Delete up to `how_many` generations counting up from the oldest, not
    /// past the latest, each as `delete` does. Fails where the store holds no
    /// generation, and stops at the first number that `delete` refuses.
    pub fn delete_old(&mut self, how_many: usize) -> (r: Result<Vec<(usize, DeleteOutcome)>, GenError>)
        ensures
            final(self).current == old(self).current,
            final(self).built == old(self).built,
            old(self).gens@.len() == 0 ==> r is Err && final(self).model() == old(self).model(),
            old(self).gens@.len() > 0 ==> ({
                let lo = min_of(old(self).gens@) as int;
                let hi = max_of(old(self).gens@) as int;
                &&& r is Ok <==> forall|x: int|
                    #![trigger delete_allowed(old(self).current, old(self).built, old(self).gens@, x)]
                    in_window(x, lo, how_many as int, hi) ==> delete_allowed(
                        old(self).current,
                        old(self).built,
                        old(self).gens@,
                        x,
                    )
                &&& r matches Ok(outs) ==> final(self).gens@ == old(self).gens@.filter(
                    |x: usize|
                        !(in_window(x as int, lo, how_many as int, hi) && unprotected(
                            old(self).current,
                            old(self).built,
                            x,
                        )),
                ) && outs@.len() == (if how_many as int <= hi - lo + 1 {
                    how_many as int
                } else {
                    hi - lo + 1
                }) && forall|k: int|
                    0 <= k < outs@.len() ==> outs@[k] == ((lo + k) as usize, outcome_for(
                        old(self).current,
                        old(self).built,
                        (lo + k) as usize,
                    ))
            }),
    {
        proof {
            lemma_extremes(self.gens@);
            if self.gens@.len() > 0 {
                assert(self.gens@.contains(self.gens@[0]));
            }
        }
        let lo = get_oldest(&self.gens)?;
        let hi = self.latest_number();
        let ghost start = self.gens@;
        let ghost cur = self.current;
        let ghost blt = self.built;
        let mut outs: Vec<(usize, DeleteOutcome)> = Vec::new();
        if how_many == 0 {
            proof {
                assert(start.filter(|x: usize| !(in_window(x as int, lo as int, 0, hi as int) && unprotected(cur, blt, x))) =~= start.filter(|x: usize| true)) by {
                    assert((|x: usize| !(in_window(x as int, lo as int, 0, hi as int) && unprotected(cur, blt, x))) =~= (|x: usize| true));
                }
                lemma_filter_true(start);
            }
            return Ok(outs);
        }
        let mut i: usize = lo;
        proof {
            assert((|x: usize| !(lo <= x < lo && unprotected(cur, blt, x))) =~= (|x: usize| true));
            lemma_filter_true(start);
            assert(start.contains(lo));
            assert(lo <= hi);
        }
        loop
            invariant
                lo as int == min_of(start),
                hi as int == max_of(start),
                start == old(self).gens@,
                cur == old(self).current,
                blt == old(self).built,
                lo <= i <= hi,
                i - lo < how_many,
                start.len() > 0,
                self.current == cur,
                self.built == blt,
                self.gens@ == start.filter(|x: usize| !(lo <= x < i && unprotected(cur, blt, x))),
                forall|x: int| #![trigger delete_allowed(cur, blt, start, x)] lo <= x < i ==> delete_allowed(cur, blt, start, x),
                outs@.len() == i - lo,
                forall|k: int| 0 <= k < outs@.len() ==> outs@[k] == ((lo + k) as usize, outcome_for(cur, blt, (lo + k) as usize)),
            decreases hi - i,
        {
            let ghost before = self.gens@;
            let outcome = match self.delete(i) {
                Ok(o) => o,
                Err(e) => {
                    proof {
                        assert(in_window(i as int, lo as int, how_many as int, hi as int));
                        if unprotected(cur, blt, i) && cur is Some {
                            assert(!before.contains(i));
                            if start.contains(i) {
                                let j = choose|j: int| 0 <= j < start.len() && start[j] == i;
                                start.lemma_filter_contains(|x: usize| !(lo <= x < i && unprotected(cur, blt, x)), j);
                                assert(before.contains(start[j]));
                            }
                        }
                        assert(!delete_allowed(cur, blt, start, i as int));
                    }
                    return Err(e);
                },
            };
            proof {
                let p_i = |x: usize| !(lo <= x < i && unprotected(cur, blt, x));
                let q = |x: usize| x != i;
                let p_next = |x: usize| !(lo <= x < i + 1 && unprotected(cur, blt, x));
                if unprotected(cur, blt, i) {
                    start.lemma_filter_contains_rev(p_i, i);
                    assert(start.contains(i));
                    lemma_filter_and(start, p_i, q);
                    assert((|x: usize| p_i(x) && q(x)) =~= p_next);
                    assert(self.gens@ == start.filter(p_next));
                } else {
                    assert(p_i =~= p_next);
                    assert(self.gens@ == start.filter(p_next));
                }
            }
            assert(delete_allowed(cur, blt, start, i as int));
            assert(outcome == outcome_for(cur, blt, i));
            outs.push((i, outcome));
            if i == hi || i - lo + 1 == how_many {
                proof {
                    assert((|x: usize| !(lo <= x < i + 1 && unprotected(cur, blt, x))) =~= (|x: usize| !(in_window(x as int, lo as int, how_many as int, hi as int) && unprotected(cur, blt, x))));
                    assert forall|x: int|
                        #![trigger delete_allowed(cur, blt, start, x)]
                        in_window(x, lo as int, how_many as int, hi as int) implies delete_allowed(cur, blt, start, x) by {
                        if x < i {
                        }
                    }
                }
                return Ok(outs);
            }
            i = i + 1;
        }
    }

    /// Move generation `from` to number `to`. Fails where `from` does not
    /// exist or `to` already does; a pointer at `from` then follows to `to`,
    /// which, as with `set_current` and `set_built`, must be at least 1.
    pub fn move_gen(&mut self, from: usize, to: usize) -> (r: Result<(), GenError>)
        ensures
            !old(self).gens@.contains(from) ==> r == Err::<(), GenError>(GenError::DoesNotExist)
                && final(self).model() == old(self).model(),
            old(self).gens@.contains(from) && old(self).gens@.contains(to) && from != to ==> r
                == Err::<(), GenError>(GenError::OutOfRange) && final(self).model() == old(
                self,
            ).model(),
            old(self).gens@.contains(from) && (!old(self).gens@.contains(to) || from == to) ==> ({
                let moved = old(self).gens@.map_values(|x: usize| if x == from { to } else { x });
                &&& final(self).gens@ == moved
                &&& final(self).current == (if to >= 1 && old(self).current == Some(from) {
                    Some(to)
                } else {
                    old(self).current
                })
                &&& final(self).built == (if to >= 1 && old(self).built == Some(from) {
                    Some(to)
                } else {
                    old(self).built
                })
                &&& (r is Ok <==> (to >= 1 || (old(self).current != Some(from) && old(
                    self,
                ).built != Some(from))))
            }),
    {
        if !generation_exists(&self.gens, from) {
            return Err(GenError::DoesNotExist);
        }
        if from != to && generation_exists(&self.gens, to) {
            return Err(GenError::OutOfRange);
        }
        let was_current = self.current == Some(from);
        let was_built = self.built == Some(from);
        let ghost start = self.gens@;
        let mut moved: Vec<usize> = Vec::new();
        let mut i: usize = 0;
        while i < self.gens.len()
            invariant
                i <= self.gens.len(),
                self.gens@ == start,
                moved@ == start.take(i as int).map_values(|x: usize| if x == from { to } else { x }),
            decreases self.gens.len() - i,
        {
            let x = self.gens[i];
            moved.push(if x == from { to } else { x });
            assert(moved@ =~= start.take(i as int + 1).map_values(|x: usize| if x == from { to } else { x }));
            i = i + 1;
        }
        assert(start.take(start.len() as int) =~= start);
        self.gens = moved;
        let ghost moved_view = self.gens@;
        proof {
            if start.contains(from) {
                let j = choose|j: int| 0 <= j < start.len() && start[j] == from;
                assert(moved_view[j] == to);
                assert(moved_view.contains(to));
                lemma_extremes(moved_view);
            }
        }
        if was_current {
            self.set_current(to)?;
        }
        if was_built {
            self.set_built(to)?;
        }
        Ok(())
    }

    /// Record a new generation numbered one above the latest and make it
    /// `current`; returns its number. Fails where that number does not fit.
    pub fn commit(&mut self) -> (r: Result<usize, GenError>)
        ensures
            max_of(old(self).gens@) < usize::MAX ==> r == Ok::<usize, GenError>(
                (max_of(old(self).gens@) + 1) as usize,
            ) && final(self).model() == (
                old(self).gens@.push((max_of(old(self).gens@) + 1) as usize),
                Some((max_of(old(self).gens@) + 1) as usize),
                old(self).built,
            ),
            max_of(old(self).gens@) == usize::MAX ==> r == Err::<usize, GenError>(GenError::Overflow)
                && final(self).model() == old(self).model(),
    {
        let latest = self.latest_number();
        if latest == usize::MAX {
            return Err(GenError::Overflow);
        }
        let next = latest + 1;
        self.gens.push(next);
        proof {
            let s = self.gens@;
            assert(s.drop_last() =~= old(self).gens@);
        }
        self.current = Some(next);
        Ok(next)
    }
}

proof fn lemma_filter_true(s: Seq<usize>)
    ensures
        s.filter(|x: usize| true) == s,
    decreases s.len(),
{
    reveal(Seq::filter);
    if s.len() > 0 {
        lemma_filter_true(s.drop_last());
        assert(s.drop_last().push(s.last()) =~= s);
    }
}

} // verus!
