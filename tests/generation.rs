use rebos::generation::{from_schemas, import_cycle, Generation, GenerationUtils, Items, ManagerOrder};
use rebos::legacy_1;
use rebos::legacy_2;
use rebos::manager_map::ManagerMap;
use rebos::error::GenError;

fn strings(items: &[&str]) -> Vec<String> {
    items.iter().map(|x| x.to_string()).collect()
}

fn make(imports: &[&str], managers: &[(&str, &[&str])]) -> Generation {
    let mut m = ManagerMap::new();
    for (name, items) in managers {
        m.insert(name.to_string(), strings(items));
    }
    Generation { imports: strings(imports), managers: m }
}

fn items_of(g: &Generation, name: &str) -> Option<Vec<String>> {
    g.managers.get(&name.to_string()).cloned()
}

fn sorted_keys(m: &ManagerMap) -> Vec<String> {
    let mut k = m.keys();
    k.sort();
    k
}

#[test]
fn extend_concatenates_imports_and_items() {
    let mut a = make(&["i1"], &[("system", &["a", "b"])]);
    let b = make(&["i2"], &[("system", &["c"]), ("cargo", &["d"])]);
    a.extend(b);
    assert_eq!(a.imports, strings(&["i1", "i2"]));
    assert_eq!(items_of(&a, "system"), Some(strings(&["a", "b", "c"])));
    assert_eq!(items_of(&a, "cargo"), Some(strings(&["d"])));
    assert_eq!(sorted_keys(&a.managers), strings(&["cargo", "system"]));
}

#[test]
fn extend_with_trait_matches_extend() {
    let mut a = make(&[], &[("flatpak", &["x"])]);
    GenerationUtils::extend(&mut a, make(&["z"], &[("flatpak", &["y"])]));
    assert_eq!(a.imports, strings(&["z"]));
    assert_eq!(items_of(&a, "flatpak"), Some(strings(&["x", "y"])));
}

#[test]
fn import_chain_resolves_once() {
    // A imports [B], B imports []
    let mut a = make(&["b"], &[("system", &["a1"])]);
    let b = make(&[], &[("system", &["b1"]), ("cargo", &["b2"])]);
    a.resolve_imports_pass(vec![b]);
    assert!(a.imports.is_empty());
    assert_eq!(items_of(&a, "system"), Some(strings(&["a1", "b1"])));
    assert_eq!(items_of(&a, "cargo"), Some(strings(&["b2"])));
}

#[test]
fn import_pass_keeps_newly_found_imports() {
    let mut a = make(&["b", ""], &[]);
    let b = make(&["c", "b"], &[("system", &["x"])]);
    let empty = make(&[], &[]);
    a.resolve_imports_pass(vec![b, empty]);
    assert_eq!(a.imports, strings(&["c"]));
    let c = make(&[], &[("system", &["y"])]);
    a.resolve_imports_pass(vec![c]);
    assert!(a.imports.is_empty());
    assert_eq!(items_of(&a, "system"), Some(strings(&["x", "y"])));
}

#[test]
fn legacy_1_migrates_to_named_managers() {
    let old = legacy_1::Generation {
        imports: strings(&["i"]),
        pkgs: strings(&["vim"]),
        flatpaks: strings(&["org.app"]),
        crates: strings(&["ripgrep"]),
    };
    let g = old.migrate();
    assert_eq!(g.imports, strings(&["i"]));
    assert_eq!(items_of(&g, "system"), Some(strings(&["vim"])));
    assert_eq!(items_of(&g, "flatpak"), Some(strings(&["org.app"])));
    assert_eq!(items_of(&g, "cargo"), Some(strings(&["ripgrep"])));
}

#[test]
fn migration_paths_agree() {
    let make_old = || legacy_1::Generation {
        imports: strings(&["i"]),
        pkgs: strings(&["vim", "git"]),
        flatpaks: Vec::new(),
        crates: strings(&["bat"]),
    };
    let direct = make_old().migrate();
    let via = make_old().migrate_to_v2().migrate();
    assert_eq!(sorted_keys(&direct.managers), sorted_keys(&via.managers));
    for k in sorted_keys(&direct.managers) {
        assert_eq!(direct.managers.get(&k), via.managers.get(&k));
    }
    assert_eq!(direct.imports, via.imports);
}

#[test]
fn from_schemas_prefers_current_then_oldest_then_middle() {
    let cur = make(&[], &[("apt", &["a"])]);
    let g = from_schemas(Some(cur), Some(legacy_1::Generation::default()), None).unwrap();
    assert_eq!(sorted_keys(&g.managers), strings(&["apt"]));

    let v1 = legacy_1::Generation::default();
    let g = from_schemas(None, Some(v1), Some(legacy_2::Generation::default())).unwrap();
    assert_eq!(sorted_keys(&g.managers), strings(&["cargo", "flatpak", "system"]));

    let mut v2 = legacy_2::Generation::default();
    v2.pkg_managers.insert("pip".to_string(), strings(&["numpy"]));
    let g = from_schemas(None, None, Some(v2)).unwrap();
    assert_eq!(items_of(&g, "pip"), Some(strings(&["numpy"])));

    assert!(matches!(from_schemas(None, None, None), Err(GenError::Deserialize)));
}

#[test]
fn defaults_are_empty() {
    assert!(Items::default().items.is_empty());
    let o = ManagerOrder::default();
    assert!(o.begin.is_empty() && o.end.is_empty());
    let g = Generation::default();
    assert!(g.imports.is_empty() && g.managers.keys().is_empty());
    assert!(legacy_2::Packages::default().pkgs.is_empty());
}

#[test]
fn import_cycle_detection() {
    assert!(import_cycle(&strings(&["a", "b"]), &strings(&["c", "b"])));
    assert!(!import_cycle(&strings(&["a"]), &strings(&["c", "d"])));
    assert!(!import_cycle(&Vec::new(), &strings(&["a"])));
}
