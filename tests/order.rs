use rebos::generation::{Generation, ManagerOrder};
use rebos::manager_map::ManagerMap;
use rebos::order::{get_order, order_duplicates, order_with_keys};

fn strings(items: &[&str]) -> Vec<String> {
    items.iter().map(|x| x.to_string()).collect()
}

fn make(managers: &[&str]) -> Generation {
    let mut m = ManagerMap::new();
    for name in managers {
        m.insert(name.to_string(), Vec::new());
    }
    Generation { imports: Vec::new(), managers: m }
}

#[test]
fn order_without_override_lists_each_manager() {
    let g = make(&["apt", "cargo", "flatpak"]);
    let mut r = get_order(&g, None);
    r.sort();
    assert_eq!(r, strings(&["apt", "cargo", "flatpak"]));
}

#[test]
fn order_with_override() {
    let g = make(&["apt", "cargo", "flatpak", "pip"]);
    let o = ManagerOrder { begin: strings(&["flatpak", "ghost"]), end: strings(&["apt"]) };
    let keys = strings(&["pip", "apt", "cargo", "flatpak"]);
    assert_eq!(order_with_keys(&g, &keys, &o), strings(&["flatpak", "pip", "cargo", "apt"]));
    let r = get_order(&g, Some(&o));
    assert_eq!(r.len(), 4);
    assert_eq!(r[0], "flatpak");
    assert_eq!(r[3], "apt");
    assert!(!r.contains(&"ghost".to_string()));
}

#[test]
fn order_drops_duplicates_and_absent_names() {
    let g = make(&["apt", "cargo"]);
    let o = ManagerOrder {
        begin: strings(&["cargo", "nix", "cargo"]),
        end: strings(&["apt", "cargo"]),
    };
    let keys = strings(&["apt", "cargo"]);
    assert_eq!(order_with_keys(&g, &keys, &o), strings(&["cargo", "apt"]));
    let dups = order_duplicates(&keys, &o);
    assert_eq!(dups, vec![("cargo".to_string(), 3)]);
}

#[test]
fn order_duplicates_none() {
    let o = ManagerOrder { begin: strings(&["a"]), end: strings(&["b"]) };
    assert!(order_duplicates(&strings(&["a", "b", "c"]), &o).is_empty());
}
