use rebos::generation::Generation;
use rebos::history::HistoryMode;
use rebos::manager_map::ManagerMap;
use rebos::plan::{build_plan, plan_with_orders};
use rebos::store::GenStore;

fn strings(items: &[&str]) -> Vec<String> {
    items.iter().map(|x| x.to_string()).collect()
}

fn make(managers: &[(&str, &[&str])]) -> Generation {
    let mut m = ManagerMap::new();
    for (name, items) in managers {
        m.insert(name.to_string(), strings(items));
    }
    Generation { imports: Vec::new(), managers: m }
}

fn gen3() -> Generation {
    make(&[("system", &["vim", "git"]), ("flatpak", &["org.gimp.GIMP"])])
}

fn gen4() -> Generation {
    make(&[("system", &["vim", "git", "foo"])])
}

#[test]
fn first_build_then_dropped_manager() {
    let mut store = GenStore { gens: vec![1, 2, 3], current: Some(3), built: None };

    // First build: every manager installs its whole list, no summary.
    let plan = build_plan(&gen3(), None, None);
    assert!(plan.summary.is_none());
    assert_eq!(plan.steps.len(), 2);
    for step in &plan.steps {
        assert!(step.remove.is_none());
        let expected = gen3().managers.get(&step.manager).cloned();
        assert_eq!(step.add.clone(), expected);
    }
    assert_eq!(store.set_built(3), Ok(()));
    assert_eq!(store.built, Some(3));

    // Commit 4, which drops "flatpak" and adds "foo" to "system".
    assert_eq!(store.commit(), Ok(4));
    assert_eq!(store.set_current(4), Ok(()));
    let plan = build_plan(&gen4(), Some(&gen3()), None);
    assert_eq!(plan.steps.len(), 2);
    assert_eq!(plan.steps[0].manager, "system");
    assert_eq!(plan.steps[0].remove, Some(Vec::new()));
    assert_eq!(plan.steps[0].add, Some(strings(&["foo"])));
    assert_eq!(plan.steps[1].manager, "flatpak");
    assert_eq!(plan.steps[1].remove, Some(strings(&["org.gimp.GIMP"])));
    assert_eq!(plan.steps[1].add, None);

    let summary = plan.summary.unwrap();
    let records: Vec<(String, HistoryMode, String)> = summary
        .iter()
        .flat_map(|s| s.entries.iter().map(move |e| (s.manager.clone(), e.mode, e.line.clone())))
        .collect();
    assert_eq!(
        records,
        vec![
            ("system".to_string(), HistoryMode::Add, "foo".to_string()),
            ("flatpak".to_string(), HistoryMode::Remove, "org.gimp.GIMP".to_string()),
        ]
    );
    assert_eq!(store.set_built(4), Ok(()));
}

#[test]
fn new_manager_installs_everything() {
    let cur = make(&[("system", &["a"]), ("cargo", &["bat", "fd"])]);
    let built = make(&[("system", &["a"])]);
    let plan = plan_with_orders(&cur, Some(&built), &strings(&["cargo", "system"]), &strings(&["system"]));
    assert_eq!(plan.steps[0].manager, "cargo");
    assert_eq!(plan.steps[0].remove, None);
    assert_eq!(plan.steps[0].add, Some(strings(&["bat", "fd"])));
    assert_eq!(plan.steps[1].remove, Some(Vec::new()));
    assert_eq!(plan.steps[1].add, Some(Vec::new()));
    let summary = plan.summary.unwrap();
    assert_eq!(summary[0].entries.len(), 2);
    assert!(summary[1].entries.is_empty());
}
