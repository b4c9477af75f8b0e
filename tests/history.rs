use rebos::history::{history, History, HistoryMode};

fn strings(items: &[&str]) -> Vec<String> {
    items.iter().map(|x| x.to_string()).collect()
}

fn pairs(h: &[History]) -> Vec<(HistoryMode, String)> {
    h.iter().map(|e| (e.mode, e.line.clone())).collect()
}

#[test]
fn history_adds_and_removes() {
    let old = strings(&["a", "b", "c"]);
    let new = strings(&["b", "d", "c", "e"]);
    let h = history(&old, &new);
    assert_eq!(
        pairs(&h),
        vec![
            (HistoryMode::Remove, "a".to_string()),
            (HistoryMode::Add, "d".to_string()),
            (HistoryMode::Add, "e".to_string()),
        ]
    );
}

#[test]
fn history_of_identical_lists_is_empty() {
    let old = strings(&["x", "y"]);
    assert!(history(&old, &old.clone()).is_empty());
}

#[test]
fn history_ignores_reordering() {
    let old = strings(&["a", "b", "c"]);
    let new = strings(&["c", "a", "b"]);
    assert!(history(&old, &new).is_empty());
}

#[test]
fn history_reports_repeated_identifiers_once() {
    let old = strings(&["r", "r", "k"]);
    let new = strings(&["k", "n", "n"]);
    assert_eq!(
        pairs(&history(&old, &new)),
        vec![(HistoryMode::Remove, "r".to_string()), (HistoryMode::Add, "n".to_string())]
    );
}

#[test]
fn history_is_the_same_on_the_same_inputs() {
    let old = strings(&["a", "q"]);
    let new = strings(&["q", "z"]);
    assert_eq!(pairs(&history(&old, &new)), pairs(&history(&old, &new)));
}

#[test]
fn history_from_empty() {
    let h = history(&Vec::new(), &strings(&["a"]));
    assert_eq!(pairs(&h), vec![(HistoryMode::Add, "a".to_string())]);
    let h = history(&strings(&["a"]), &Vec::new());
    assert_eq!(pairs(&h), vec![(HistoryMode::Remove, "a".to_string())]);
}
