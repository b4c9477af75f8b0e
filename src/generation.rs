//! The current generation schema, merging and import resolution.

use vstd::prelude::*;
use crate::error::GenError;
use crate::legacy_1;
use crate::legacy_2;
use crate::manager_map::{ManagerMap, map_contents, no_managers};
use crate::text::{append_strings, clone_strings, contains_string};

verus! {

/// The manager activation order override: managers named in `begin` come
/// first, those in `end` last.
pub struct ManagerOrder {
    pub begin: Vec<String>,
    pub end: Vec<String>,
}

impl ManagerOrder {
    /// An override that names no manager.
    pub fn default() -> (r: ManagerOrder)
        ensures
            r.begin@.len() == 0,
            r.end@.len() == 0,
    {
        ManagerOrder { begin: Vec::new(), end: Vec::new() }
    }
}

/// The desired items of one manager.
pub struct Items {
    pub items: Vec<String>,
}

impl Items {
    /// No items.
    pub fn default() -> (r: Items)
        ensures
            r.items@.len() == 0,
    {
        Items { items: Vec::new() }
    }
}

/// One desired-state snapshot: imports to merge in, and each manager's items.
pub struct Generation {
    pub imports: Vec<String>,
    pub managers: ManagerMap,
}

/// The items of manager `k` in `m`, empty where `m` lacks it.
pub open spec fn items_or_empty(m: Map<Seq<char>, Seq<Seq<char>>>, k: Seq<char>) -> Seq<Seq<char>> {
    if m.contains_key(k) {
        m[k]
    } else {
        Seq::empty()
    }
}

/// Managers of `a` extended by those of `b`: every manager of either, with
/// the items of `a` followed by those of `b`.
pub open spec fn merge_managers(
    a: Map<Seq<char>, Seq<Seq<char>>>,
    b: Map<Seq<char>, Seq<Seq<char>>>,
) -> Map<Seq<char>, Seq<Seq<char>>> {
    Map::new(
        |k: Seq<char>| a.contains_key(k) || b.contains_key(k),
        |k: Seq<char>| items_or_empty(a, k) + items_or_empty(b, k),
    )
}

/// `m` extended by the managers of each generation of `gens` in turn.
pub open spec fn merge_all(
    m: Map<Seq<char>, Seq<Seq<char>>>,
    gens: Seq<Generation>,
) -> Map<Seq<char>, Seq<Seq<char>>>
    decreases gens.len(),
{
    if gens.len() == 0 {
        m
    } else {
        merge_managers(merge_all(m, gens.drop_last()), gens.last().managers_view())
    }
}

/// The imports of each generation of `gens`, one list after another.
pub open spec fn all_imports(gens: Seq<Generation>) -> Seq<Seq<char>>
    decreases gens.len(),
{
    if gens.len() == 0 {
        Seq::empty()
    } else {
        all_imports(gens.drop_last()) + gens.last().imports_view()
    }
}

/// The imports still pending after a pass over `pending`: those of `after`
/// that were not pending at the start of the pass, empty names left out.
pub open spec fn remaining_imports(
    pending: Seq<Seq<char>>,
    after: Seq<Seq<char>>,
) -> Seq<Seq<char>> {
    after.filter(|x: Seq<char>| !pending.contains(x) && x.len() > 0)
}

impl Generation {
    /// The import names.
    pub open spec fn imports_view(&self) -> Seq<Seq<char>> {
        self.imports.deep_view()
    }

    /// Each manager's items.
    pub open spec fn managers_view(&self) -> Map<Seq<char>, Seq<Seq<char>>> {
        map_contents(self.managers)
    }

    /// A generation without imports or managers.
    pub fn default() -> (r: Generation)
        ensures
            r.imports_view().len() == 0,
            r.managers_view() == no_managers(),
    {
        Generation { imports: Vec::new(), managers: ManagerMap::new() }
    }

    /// Merge `other_gen` into this generation: its imports are appended, and
    /// its items are appended to the same manager, created where missing.
    pub fn extend(&mut self, other_gen: Generation)
        ensures
            final(self).imports_view() == old(self).imports_view() + other_gen.imports_view(),
            final(self).managers_view() == merge_managers(
                old(self).managers_view(),
                other_gen.managers_view(),
            ),
    {
        append_strings(&mut self.imports, &other_gen.imports);
        let ghost a = self.managers_view();
        let ghost b = other_gen.managers_view();
        let keys = other_gen.managers.keys();
        let mut i: usize = 0;
        while i < keys.len()
            invariant
                i <= keys.len(),
                a == old(self).managers_view(),
                b == other_gen.managers_view(),
                self.imports_view() == old(self).imports_view() + other_gen.imports_view(),
                crate::manager_map::distinct_views(keys.deep_view()),
                forall|k: Seq<char>| b.contains_key(k) <==> keys.deep_view().contains(k),
                forall|k: Seq<char>|
                    #![trigger self.managers_view().contains_key(k)]
                    self.managers_view().contains_key(k) <==> (a.contains_key(k)
                        || keys.deep_view().take(i as int).contains(k)),
                forall|k: Seq<char>|
                    #![trigger self.managers_view()[k]]
                    self.managers_view().contains_key(k) ==> self.managers_view()[k]
                        == items_or_empty(a, k) + (if keys.deep_view().take(i as int).contains(k) {
                        b[k]
                    } else {
                        Seq::empty()
                    }),
            decreases keys.len() - i,
        {
            let key = &keys[i];
            let ghost kv = keys.deep_view()[i as int];
            assert(key@ == kv);
            assert(keys.deep_view().contains(kv));
            let mut merged = match self.managers.get(key) {
                Some(v) => clone_strings(v),
                None => Vec::new(),
            };
            assert(merged.deep_view() == items_or_empty(a, kv)) by {
                if !a.contains_key(kv) && self.managers_view().contains_key(kv) {
                    let j = choose|j: int| 0 <= j < i && keys.deep_view().take(i as int)[j] == kv;
                    assert(keys.deep_view()[j] == kv);
                }
                if self.managers_view().contains_key(kv) {
                    assert(!keys.deep_view().take(i as int).contains(kv)) by {
                        if keys.deep_view().take(i as int).contains(kv) {
                            let j = choose|j: int| 0 <= j < i && keys.deep_view().take(i as int)[j] == kv;
                            assert(keys.deep_view()[j] == kv);
                        }
                    }
                }
            }
            let add = other_gen.managers.get(key).unwrap();
            append_strings(&mut merged, add);
            let ghost before = self.managers_view();
            self.managers.insert(key.clone(), merged);
            proof {
                let t = keys.deep_view().take(i as int);
                let t1 = keys.deep_view().take(i as int + 1);
                assert(t1 =~= t.push(kv));
                assert forall|k: Seq<char>| t1.contains(k) <==> (t.contains(k) || k == kv) by {
                    if t1.contains(k) {
                        let j = choose|j: int| 0 <= j < t1.len() && t1[j] == k;
                        if j < t.len() {
                            assert(t[j] == k);
                        }
                    }
                    if t.contains(k) {
                        let j = choose|j: int| 0 <= j < t.len() && t[j] == k;
                        assert(t1[j] == k);
                    }
                    if k == kv {
                        assert(t1[i as int] == k);
                    }
                }
                assert(!t.contains(kv)) by {
                    if t.contains(kv) {
                        let j = choose|j: int| 0 <= j < t.len() && t[j] == kv;
                        assert(keys.deep_view()[j] == kv);
                    }
                }
                assert forall|k: Seq<char>|
                    #![trigger self.managers_view().contains_key(k)]
                    self.managers_view().contains_key(k) <==> (a.contains_key(k) || t1.contains(k)) by {
                    if k != kv {
                        assert(before.contains_key(k) == self.managers_view().contains_key(k));
                    }
                }
                assert forall|k: Seq<char>|
                    #![trigger self.managers_view()[k]]
                    self.managers_view().contains_key(k) implies self.managers_view()[k]
                        == items_or_empty(a, k) + (if t1.contains(k) {
                        b[k]
                    } else {
                        Seq::empty()
                    }) by {
                    if k != kv {
                        assert(before.contains_key(k));
                        assert(before[k] == self.managers_view()[k]);
                    }
                }
            }
            i = i + 1;
        }
        proof {
            assert(keys.deep_view().take(keys.len() as int) =~= keys.deep_view());
            assert(self.managers_view() =~= merge_managers(a, b));
        }
    }

    /// One pass of import resolution. `loaded` holds the generations of the
    /// pending imports; each is merged in order, then the names that were
    /// pending at the start of the pass are dropped from the imports, as are
    /// empty names.
    pub fn resolve_imports_pass(&mut self, loaded: Vec<Generation>)
        ensures
            final(self).managers_view() == merge_all(old(self).managers_view(), loaded@),
            final(self).imports_view() == remaining_imports(
                old(self).imports_view(),
                old(self).imports_view() + all_imports(loaded@),
            ),
    {
        let pending = clone_strings(&self.imports);
        let ghost start = *self;
        let ghost gens = loaded@;
        let n = loaded.len();
        let mut rest = loaded;
        let mut done: usize = 0;
        while rest.len() > 0
            invariant
                n == gens.len(),
                done + rest@.len() == gens.len(),
                rest@ == gens.subrange(done as int, gens.len() as int),
                pending.deep_view() == start.imports_view(),
                self.managers_view() == merge_all(start.managers_view(), gens.take(done as int)),
                self.imports_view() == start.imports_view() + all_imports(gens.take(done as int)),
            decreases rest@.len(),
        {
            let next = rest.remove(0);
            proof {
                let t1 = gens.take(done as int + 1);
                assert(t1.drop_last() =~= gens.take(done as int));
                assert(t1.last() == next);
            }
            self.extend(next);
            done = done + 1;
            proof {
                assert(rest@ =~= gens.subrange(done as int, gens.len() as int));
                assert(start.imports_view() + all_imports(gens.take(done as int - 1)) + next.imports_view()
                    =~= start.imports_view() + all_imports(gens.take(done as int)));
            }
        }
        proof {
            assert(gens.take(done as int) =~= gens);
        }
        let ghost after = self.imports_view();
        let mut kept: Vec<String> = Vec::new();
        let mut i: usize = 0;
        while i < self.imports.len()
            invariant
                i <= self.imports.len(),
                self.imports_view() == after,
                pending.deep_view() == start.imports_view(),
                kept.deep_view() == remaining_imports(start.imports_view(), after.take(i as int)),
            decreases self.imports.len() - i,
        {
            let name = &self.imports[i];
            proof {
                crate::text::lemma_take_next(after, i as int);
            }
            if !contains_string(&pending, name) && !name.as_str().is_empty() {
                kept.push(name.clone());
            }
            proof {
                reveal(Seq::filter);
                let t1 = after.take(i as int + 1);
                assert(name@ == after[i as int]);
                assert(kept.deep_view() =~= remaining_imports(start.imports_view(), t1));
            }
            i = i + 1;
        }
        proof {
            assert(after.take(self.imports.len() as int) =~= after);
        }
        self.imports = kept;
    }
}

/// Common operations on generations.
pub trait GenerationUtils {
    /// Extend all of the fields of the caller with those of another generation.
    fn extend(&mut self, other_gen: Generation);
}

impl GenerationUtils for Generation {
    fn extend(&mut self, other_gen: Generation) {
        Generation::extend(self, other_gen);
    }
}

/// Whether a pending import was already resolved in an earlier pass, which
/// means that the imports reach each other in a cycle.
pub fn import_cycle(resolved: &Vec<String>, pending: &Vec<String>) -> (r: bool)
    ensures
        r == exists|i: int|
            0 <= i < pending@.len() && resolved.deep_view().contains(#[trigger] pending.deep_view()[i]),
{
    let mut i: usize = 0;
    while i < pending.len()
        invariant
            i <= pending.len(),
            forall|j: int| 0 <= j < i ==> !resolved.deep_view().contains(#[trigger] pending.deep_view()[j]),
        decreases pending.len() - i,
    {
        if contains_string(resolved, &pending[i]) {
            assert(pending[i as int]@ == pending.deep_view()[i as int]);
            return true;
        }
        i = i + 1;
    }
    false
}

/// The generation that a file holds, given what each known schema read of
/// it: the current schema wins, then the oldest, then the middle one, each
/// migrated to the current schema. Fails where no schema read the file.
pub fn from_schemas(
    current: Option<Generation>,
    v1: Option<legacy_1::Generation>,
    v2: Option<legacy_2::Generation>,
) -> (r: Result<Generation, GenError>)
    ensures
        match r {
            Ok(g) => match current {
                Some(c) => g.imports_view() == c.imports_view() && g.managers_view()
                    == c.managers_view(),
                None => match v1 {
                    Some(o) => g.imports_view() == o.imports.deep_view() && g.managers_view()
                        == legacy_1::v1_migrated_managers(o),
                    None => match v2 {
                        Some(m) => g.imports_view() == m.imports.deep_view() && g.managers_view()
                            == legacy_2::v2_migrated_managers(map_contents(m.pkg_managers)),
                        None => false,
                    },
                },
            },
            Err(e) => current is None && v1 is None && v2 is None && e == GenError::Deserialize,
        },
{
    match current {
        Some(c) => Ok(c),
        None => match v1 {
            Some(o) => Ok(o.migrate()),
            None => match v2 {
                Some(m) => Ok(m.migrate()),
                None => Err(GenError::Deserialize),
            },
        },
    }
}

} // verus!
