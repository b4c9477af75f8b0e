//! The middle generation schema: named managers holding `pkgs` lists.

use vstd::prelude::*;
use crate::generation;
use crate::manager_map::{ManagerMap, map_contents, no_managers};

verus! {

/// The package list of one manager in the middle schema.
pub struct Packages {
    pub pkgs: Vec<String>,
}

impl Packages {
    /// An empty package list.
    pub fn default() -> (r: Packages)
        ensures
            r.pkgs@.len() == 0,
    {
        Packages { pkgs: Vec::new() }
    }
}

/// A generation in the middle schema.
pub struct Generation {
    pub imports: Vec<String>,
    pub pkg_managers: ManagerMap,
}

/// The managers of the current schema that migrating a middle-schema map
/// gives: every manager keeps its list.
pub open spec fn v2_migrated_managers(
    pkg_managers: Map<Seq<char>, Seq<Seq<char>>>,
) -> Map<Seq<char>, Seq<Seq<char>>> {
    pkg_managers
}

impl Generation {
    /// An empty generation.
    pub fn default() -> (r: Generation)
        ensures
            r.imports@.len() == 0,
            map_contents(r.pkg_managers) == no_managers(),
    {
        Generation { imports: Vec::new(), pkg_managers: ManagerMap::new() }
    }

    /// Upgrade to the current schema: each manager's `pkgs` become its items.
    pub fn migrate(self) -> (r: generation::Generation)
        ensures
            r.imports_view() == self.imports.deep_view(),
            r.managers_view() == v2_migrated_managers(map_contents(self.pkg_managers)),
    {
        generation::Generation { imports: self.imports, managers: self.pkg_managers }
    }
}

} // verus!

verus! {

/// Migrating an oldest-schema generation through the middle schema gives
/// the same managers, with the same items, as migrating it directly.
pub proof fn lemma_migration_paths_agree(g: crate::legacy_1::Generation)
    ensures
        v2_migrated_managers(crate::legacy_1::v1_to_v2_managers(g))
            == crate::legacy_1::v1_migrated_managers(g),
{
}

} // verus!
