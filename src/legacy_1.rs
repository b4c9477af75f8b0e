//! The oldest generation schema: three fixed manager slots.

use vstd::prelude::*;
use crate::generation;
use crate::legacy_2;
use crate::manager_map::{ManagerMap, map_contents, no_managers};

verus! {

/// A generation in the oldest schema.
pub struct Generation {
    pub imports: Vec<String>,
    pub pkgs: Vec<String>,
    pub flatpaks: Vec<String>,
    pub crates: Vec<String>,
}

/// Name of the manager that the `pkgs` slot becomes.
pub open spec fn system_name() -> Seq<char> {
    "system"@
}

/// Name of the manager that the `flatpaks` slot becomes.
pub open spec fn flatpak_name() -> Seq<char> {
    "flatpak"@
}

/// Name of the manager that the `crates` slot becomes.
pub open spec fn cargo_name() -> Seq<char> {
    "cargo"@
}

/// The three slots relabelled as manager buckets.
pub open spec fn slot_managers(g: Generation) -> Map<Seq<char>, Seq<Seq<char>>> {
    no_managers().insert(system_name(), g.pkgs.deep_view()).insert(
        flatpak_name(),
        g.flatpaks.deep_view(),
    ).insert(cargo_name(), g.crates.deep_view())
}

/// The managers of the middle schema that migrating `g` gives.
pub open spec fn v1_to_v2_managers(g: Generation) -> Map<Seq<char>, Seq<Seq<char>>> {
    slot_managers(g)
}

/// The managers of the current schema that migrating `g` directly gives.
pub open spec fn v1_migrated_managers(g: Generation) -> Map<Seq<char>, Seq<Seq<char>>> {
    slot_managers(g)
}

fn slot_map(pkgs: Vec<String>, flatpaks: Vec<String>, crates: Vec<String>) -> (r: ManagerMap)
    ensures
        map_contents(r) == no_managers().insert(system_name(), pkgs.deep_view()).insert(
            flatpak_name(),
            flatpaks.deep_view(),
        ).insert(cargo_name(), crates.deep_view()),
{
    let mut m = ManagerMap::new();
    m.insert("system".to_owned(), pkgs);
    m.insert("flatpak".to_owned(), flatpaks);
    m.insert("cargo".to_owned(), crates);
    m
}

impl Generation {
    /// An empty generation.
    pub fn default() -> (r: Generation)
        ensures
            r.imports@.len() == 0,
            r.pkgs@.len() == 0,
            r.flatpaks@.len() == 0,
            r.crates@.len() == 0,
    {
        Generation { imports: Vec::new(), pkgs: Vec::new(), flatpaks: Vec::new(), crates: Vec::new() }
    }

    /// Upgrade to the current schema: `pkgs` become manager "system",
    /// `flatpaks` manager "flatpak", `crates` manager "cargo".
    pub fn migrate(self) -> (r: generation::Generation)
        ensures
            r.imports_view() == self.imports.deep_view(),
            r.managers_view() == v1_migrated_managers(self),
    {
        let managers = slot_map(self.pkgs, self.flatpaks, self.crates);
        generation::Generation { imports: self.imports, managers }
    }

    /// Upgrade to the middle schema, with the same relabelling as `migrate`.
    pub fn migrate_to_v2(self) -> (r: legacy_2::Generation)
        ensures
            r.imports.deep_view() == self.imports.deep_view(),
            map_contents(r.pkg_managers) == v1_to_v2_managers(self),
    {
        let pkg_managers = slot_map(self.pkgs, self.flatpaks, self.crates);
        legacy_2::Generation { imports: self.imports, pkg_managers }
    }
}

} // verus!
