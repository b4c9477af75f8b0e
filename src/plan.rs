//! Planning a build: what each manager installs and removes, and the summary.

use vstd::prelude::*;
use crate::generation::{Generation, ManagerOrder};
use crate::history::{History, HistoryMode, added_lines, history, history_view, removed_lines, spec_history, tagged};
use crate::order::{full_order, get_order, ordered_managers, valid_order};
use crate::text::{all_distinct, clone_strings, lemma_keep_first_in, lemma_take_next};

verus! {

/// The work of one manager: identifiers to remove, then to add; a list that
/// is `None` means that the manager is not called for it.
pub struct BuildStep {
    pub manager: String,
    pub remove: Option<Vec<String>>,
    pub add: Option<Vec<String>>,
}

/// The records of one manager in the build summary.
pub struct ManagerSummary {
    pub manager: String,
    pub entries: Vec<History>,
}

/// Everything a build does, in order, and its summary; there is no summary
/// on the first build.
pub struct BuildPlan {
    pub steps: Vec<BuildStep>,
    pub summary: Option<Vec<ManagerSummary>>,
}

/// A step as plain values.
pub type StepView = (Seq<char>, Option<Seq<Seq<char>>>, Option<Seq<Seq<char>>>);

/// A summary entry as plain values.
pub type SummaryView = (Seq<char>, Seq<(HistoryMode, Seq<char>)>);

/// The lists of an optional list of strings.
pub open spec fn opt_view(v: Option<Vec<String>>) -> Option<Seq<Seq<char>>> {
    match v {
        Some(l) => Some(l.deep_view()),
        None => None,
    }
}

impl BuildStep {
    pub open spec fn view_step(&self) -> StepView {
        (self.manager@, opt_view(self.remove), opt_view(self.add))
    }
}

impl ManagerSummary {
    pub open spec fn view_summary(&self) -> SummaryView {
        (self.manager@, history_view(self.entries@))
    }
}

pub open spec fn steps_view(s: Seq<BuildStep>) -> Seq<StepView> {
    Seq::new(s.len(), |i: int| s[i].view_step())
}

pub open spec fn summary_view(s: Seq<ManagerSummary>) -> Seq<SummaryView> {
    Seq::new(s.len(), |i: int| s[i].view_summary())
}

/// The step of manager `n` of the current generation: against the built
/// generation's items where it had the manager, else installing everything.
pub open spec fn current_step(
    cur: Map<Seq<char>, Seq<Seq<char>>>,
    built: Option<Map<Seq<char>, Seq<Seq<char>>>>,
    n: Seq<char>,
) -> StepView {
    match built {
        Some(b) => if b.contains_key(n) {
            (n, Some(removed_lines(b[n], cur[n])), Some(added_lines(b[n], cur[n])))
        } else {
            (n, None, Some(cur[n]))
        },
        None => (n, None, Some(cur[n])),
    }
}

/// The summary entry of manager `n` of the current generation.
pub open spec fn current_summary(
    cur: Map<Seq<char>, Seq<Seq<char>>>,
    b: Map<Seq<char>, Seq<Seq<char>>>,
    n: Seq<char>,
) -> SummaryView {
    if b.contains_key(n) {
        (n, spec_history(b[n], cur[n]))
    } else {
        (n, tagged(HistoryMode::Add, cur[n]))
    }
}

/// The managers of the built order that the current generation dropped.
pub open spec fn dropped(cur: Map<Seq<char>, Seq<Seq<char>>>, built_order: Seq<Seq<char>>) -> Seq<Seq<char>> {
    built_order.filter(|n: Seq<char>| !cur.contains_key(n))
}

/// Removing everything of each manager of `ds`.
pub open spec fn drop_steps(b: Map<Seq<char>, Seq<Seq<char>>>, ds: Seq<Seq<char>>) -> Seq<StepView> {
    Seq::new(ds.len(), |i: int| (ds[i], Some(b[ds[i]]), None))
}

/// Each manager of `ds` with all its items removed.
pub open spec fn drop_summary(b: Map<Seq<char>, Seq<Seq<char>>>, ds: Seq<Seq<char>>) -> Seq<SummaryView> {
    Seq::new(ds.len(), |i: int| (ds[i], tagged(HistoryMode::Remove, b[ds[i]])))
}

/// The managers of a generation that may be absent.
pub open spec fn managers_of(g: Option<&Generation>) -> Option<Map<Seq<char>, Seq<Seq<char>>>> {
    match g {
        Some(b) => Some(b.managers_view()),
        None => None,
    }
}

/// The steps of a build: one per manager of the current order, then, after a
/// previous build, a removal of everything of each dropped manager.
pub open spec fn plan_steps(
    cur: Map<Seq<char>, Seq<Seq<char>>>,
    built: Option<Map<Seq<char>, Seq<Seq<char>>>>,
    cur_order: Seq<Seq<char>>,
    built_order: Seq<Seq<char>>,
) -> Seq<StepView> {
    Seq::new(cur_order.len(), |i: int| current_step(cur, built, cur_order[i])) + match built {
        Some(b) => drop_steps(b, dropped(cur, built_order)),
        None => Seq::empty(),
    }
}

/// The summary of a build after a previous one: each manager of the current
/// order with its records, then each dropped manager with all its items removed.
pub open spec fn plan_summary(
    cur: Map<Seq<char>, Seq<Seq<char>>>,
    b: Map<Seq<char>, Seq<Seq<char>>>,
    cur_order: Seq<Seq<char>>,
    built_order: Seq<Seq<char>>,
) -> Seq<SummaryView> {
    Seq::new(cur_order.len(), |i: int| current_summary(cur, b, cur_order[i])) + drop_summary(
        b,
        dropped(cur, built_order),
    )
}

fn entries_of(mode: HistoryMode, lines: &Vec<String>) -> (r: Vec<History>)
    ensures
        history_view(r@) == tagged(mode, lines.deep_view()),
{
    let mut r: Vec<History> = Vec::new();
    let mut i: usize = 0;
    while i < lines.len()
        invariant
            i <= lines.len(),
            history_view(r@) == tagged(mode, lines.deep_view().take(i as int)),
        decreases lines.len() - i,
    {
        let item = lines[i].clone();
        assert(item@ == lines.deep_view()[i as int]);
        let ghost before = history_view(r@);
        r.push(History { mode, line: item });
        assert(history_view(r@) =~= before.push((mode, lines.deep_view()[i as int])));
        assert(tagged(mode, lines.deep_view().take(i as int + 1)) =~= tagged(
            mode,
            lines.deep_view().take(i as int),
        ).push((mode, lines.deep_view()[i as int])));
        i = i + 1;
    }
    assert(lines.deep_view().take(lines.len() as int) =~= lines.deep_view());
    r
}

fn lines_of(h: &Vec<History>, mode: HistoryMode) -> (r: Vec<String>)
    ensures
        r.deep_view() == history_view(h@).filter(|e: (HistoryMode, Seq<char>)| e.0 == mode).map_values(
            |e: (HistoryMode, Seq<char>)| e.1,
        ),
{
    let ghost hv = history_view(h@);
    let ghost f = |e: (HistoryMode, Seq<char>)| e.0 == mode;
    let ghost g = |e: (HistoryMode, Seq<char>)| e.1;
    let mut r: Vec<String> = Vec::new();
    let mut i: usize = 0;
    while i < h.len()
        invariant
            i <= h.len(),
            hv == history_view(h@),
            f == (|e: (HistoryMode, Seq<char>)| e.0 == mode),
            g == (|e: (HistoryMode, Seq<char>)| e.1),
            r.deep_view() == hv.take(i as int).filter(f).map_values(g),
        decreases h.len() - i,
    {
        proof {
            reveal(Seq::filter);
            assert(hv.take(i as int + 1).drop_last() =~= hv.take(i as int));
            assert(hv.take(i as int + 1).last() == hv[i as int]);
        }
        assert(hv[i as int] == (h@[i as int].mode, h@[i as int].line@));
        let ghost prev = hv.take(i as int).filter(f);
        if h[i].mode == mode {
            let ghost before = r.deep_view();
            let line = h[i].line.clone();
            r.push(line);
            proof {
                reveal(Seq::filter);
                assert(f(hv[i as int]));
                assert(hv.take(i as int + 1).filter(f) == prev.push(hv[i as int]));
                assert(r.deep_view() =~= before.push(hv[i as int].1));
                assert(prev.push(hv[i as int]).map_values(g) =~= prev.map_values(g).push(g(hv[i as int])));
            }
        } else {
            proof {
                reveal(Seq::filter);
                assert(hv.take(i as int + 1).filter(f) == prev);
            }
        }
        i = i + 1;
    }
    assert(hv.take(h.len() as int) =~= hv);
    r
}

/// The plan of a build of `cur` in the given activation orders, after a
/// build of `built` where there was one. Each manager of `cur_order` that
/// `built` had removes what `history` calls removed and adds what it calls
/// added; one that `built` lacked, or every one on the first build, adds all
/// its items. Then each manager of `built_order` that `cur` dropped removes
/// all its former items. The summary holds the records of each step.
pub fn plan_with_orders(
    cur: &Generation,
    built: Option<&Generation>,
    cur_order: &Vec<String>,
    built_order: &Vec<String>,
) -> (r: BuildPlan)
    requires
        forall|i: int|
            0 <= i < cur_order.deep_view().len() ==> cur.managers_view().contains_key(
                #[trigger] cur_order.deep_view()[i],
            ),
        built matches Some(b) ==> forall|i: int|
            0 <= i < built_order.deep_view().len() ==> b.managers_view().contains_key(
                #[trigger] built_order.deep_view()[i],
            ),
    ensures
        steps_view(r.steps@) == plan_steps(
            cur.managers_view(),
            managers_of(built),
            cur_order.deep_view(),
            built_order.deep_view(),
        ),
        built is None ==> r.summary is None,
        built matches Some(b) ==> r.summary matches Some(s) && summary_view(s@) == plan_summary(
            cur.managers_view(),
            b.managers_view(),
            cur_order.deep_view(),
            built_order.deep_view(),
        ),
{
    let ghost cm = cur.managers_view();
    let ghost bm = managers_of(built);
    let ghost co = cur_order.deep_view();
    let ghost bo = built_order.deep_view();
    let mut steps: Vec<BuildStep> = Vec::new();
    let mut summary: Vec<ManagerSummary> = Vec::new();
    let mut i: usize = 0;
    while i < cur_order.len()
        invariant
            i <= cur_order.len(),
            cm == cur.managers_view(),
            bm == managers_of(built),
            co == cur_order.deep_view(),
            forall|j: int| 0 <= j < co.len() ==> cm.contains_key(#[trigger] co[j]),
            steps_view(steps@) == Seq::new(i as nat, |j: int| current_step(cm, bm, co[j])),
            built matches Some(b) ==> summary_view(summary@) == Seq::new(
                i as nat,
                |j: int| current_summary(cm, b.managers_view(), co[j]),
            ),
        decreases cur_order.len() - i,
    {
        let name = &cur_order[i];
        assert(name@ == co[i as int]);
        assert(cm.contains_key(co[i as int]));
        let items = cur.managers.get(name).unwrap();
        let ghost before_steps = steps_view(steps@);
        let ghost before_summary = summary_view(summary@);
        match built {
            Some(b) => match b.managers.get(name) {
                Some(old_items) => {
                    let diffs = history(old_items, items);
                    proof {
                        lemma_split_history(old_items.deep_view(), items.deep_view());
                    }
                    let to_remove = lines_of(&diffs, HistoryMode::Remove);
                    let to_add = lines_of(&diffs, HistoryMode::Add);
                    steps.push(BuildStep { manager: name.clone(), remove: Some(to_remove), add: Some(to_add) });
                    summary.push(ManagerSummary { manager: name.clone(), entries: diffs });
                },
                None => {
                    steps.push(BuildStep { manager: name.clone(), remove: None, add: Some(clone_strings(items)) });
                    summary.push(ManagerSummary { manager: name.clone(), entries: entries_of(HistoryMode::Add, items) });
                },
            },
            None => {
                steps.push(BuildStep { manager: name.clone(), remove: None, add: Some(clone_strings(items)) });
            },
        }
        assert(steps_view(steps@) =~= before_steps.push(current_step(cm, bm, co[i as int])));
        assert(steps_view(steps@) =~= Seq::new(i as nat + 1, |j: int| current_step(cm, bm, co[j])));
        proof {
            if let Some(b) = built {
                assert(summary_view(summary@) =~= before_summary.push(current_summary(cm, b.managers_view(), co[i as int])));
                assert(summary_view(summary@) =~= Seq::new(i as nat + 1, |j: int| current_summary(cm, b.managers_view(), co[j])));
            }
        }
        i = i + 1;
    }
    let ghost first_steps = steps_view(steps@);
    let ghost first_summary = summary_view(summary@);
    match built {
        None => {
            assert(steps_view(steps@) =~= plan_steps(cm, bm, co, bo));
            BuildPlan { steps, summary: None }
        },
        Some(b) => {
            let ghost bmap = b.managers_view();
            let mut k: usize = 0;
            while k < built_order.len()
                invariant
                    k <= built_order.len(),
                    cm == cur.managers_view(),
                    bmap == b.managers_view(),
                    bo == built_order.deep_view(),
                    forall|j: int| 0 <= j < bo.len() ==> bmap.contains_key(#[trigger] bo[j]),
                    steps_view(steps@) == first_steps + drop_steps(bmap, dropped(cm, bo.take(k as int))),
                    summary_view(summary@) == first_summary + drop_summary(bmap, dropped(cm, bo.take(k as int))),
                decreases built_order.len() - k,
            {
                let name = &built_order[k];
                proof {
                    reveal(Seq::filter);
                    lemma_take_next(bo, k as int);
                }
                assert(name@ == bo[k as int]);
                let ghost before_steps = steps_view(steps@);
                let ghost before_summary = summary_view(summary@);
                if !cur.managers.contains_key(name) {
                    assert(bmap.contains_key(bo[k as int]));
                    let items = b.managers.get(name).unwrap();
                    let gone = clone_strings(items);
                    steps.push(BuildStep { manager: name.clone(), remove: Some(gone), add: None });
                    summary.push(ManagerSummary { manager: name.clone(), entries: entries_of(HistoryMode::Remove, items) });
                    let ghost ds = dropped(cm, bo.take(k as int));
                    assert(steps_view(steps@) =~= before_steps.push((name@, Some(bmap[name@]), None)));
                    assert(summary_view(summary@) =~= before_summary.push((name@, tagged(HistoryMode::Remove, bmap[name@]))));
                    assert(drop_steps(bmap, ds.push(name@)) =~= drop_steps(bmap, ds).push((name@, Some(bmap[name@]), None)));
                    assert(drop_summary(bmap, ds.push(name@)) =~= drop_summary(bmap, ds).push((name@, tagged(HistoryMode::Remove, bmap[name@]))));
                    assert(dropped(cm, bo.take(k as int + 1)) == dropped(cm, bo.take(k as int)).push(name@));
                    assert(steps_view(steps@) =~= first_steps + drop_steps(bmap, dropped(cm, bo.take(k as int + 1))));
                    assert(summary_view(summary@) =~= first_summary + drop_summary(bmap, dropped(cm, bo.take(k as int + 1))));
                } else {
                    assert(dropped(cm, bo.take(k as int + 1)) == dropped(cm, bo.take(k as int)));
                }
                k = k + 1;
            }
            assert(bo.take(built_order.len() as int) =~= bo);
            assert(steps_view(steps@) =~= plan_steps(cm, bm, co, bo));
            assert(summary_view(summary@) =~= plan_summary(cm, bmap, co, bo));
            BuildPlan { steps, summary: Some(summary) }
        },
    }
}

/// The plan of a build of `cur` after a build of `built` where there was
/// one, each generation's managers ordered by `get_order` under the override.
pub fn build_plan(cur: &Generation, built: Option<&Generation>, order: Option<&ManagerOrder>) -> (r: BuildPlan)
    ensures
        exists|co: Seq<Seq<char>>, bo: Seq<Seq<char>>|
            valid_order(cur.managers_view(), order, co) && (built matches Some(b) ==> valid_order(
                b.managers_view(),
                order,
                bo,
            )) && steps_view(r.steps@) == plan_steps(cur.managers_view(), managers_of(built), co, bo)
                && (built is None ==> r.summary is None) && (built matches Some(b) ==> r.summary matches Some(s)
                && summary_view(s@) == plan_summary(cur.managers_view(), b.managers_view(), co, bo)),
{
    let cur_order = get_order(cur, order);
    let built_order = match built {
        Some(b) => get_order(b, order),
        None => Vec::new(),
    };
    proof {
        lemma_order_members(cur.managers_view(), order, cur_order.deep_view());
        if let Some(b) = built {
            lemma_order_members(b.managers_view(), order, built_order.deep_view());
        }
    }
    let r = plan_with_orders(cur, built, &cur_order, &built_order);
    assert(valid_order(cur.managers_view(), order, cur_order.deep_view()));
    r
}

/// Every name of a valid order is a manager.
proof fn lemma_order_members(
    managers: Map<Seq<char>, Seq<Seq<char>>>,
    order: Option<&ManagerOrder>,
    r: Seq<Seq<char>>,
)
    requires
        valid_order(managers, order, r),
    ensures
        forall|i: int| 0 <= i < r.len() ==> managers.contains_key(#[trigger] r[i]),
{
    assert forall|i: int| 0 <= i < r.len() implies managers.contains_key(#[trigger] r[i]) by {
        assert(r.contains(r[i]));
        if let Some(o) = order {
            let keys = choose|keys: Seq<Seq<char>>|
                all_distinct(keys) && (forall|k: Seq<char>| managers.contains_key(k) <==> keys.contains(k))
                    && r == ordered_managers(o.begin.deep_view(), keys, o.end.deep_view(), managers.dom());
            lemma_keep_first_in(full_order(o.begin.deep_view(), keys, o.end.deep_view()), managers.dom());
        }
    }
}

/// The removed and the added identifiers of `spec_history` read back by mode.
proof fn lemma_split_history(old: Seq<Seq<char>>, new: Seq<Seq<char>>)
    ensures
        spec_history(old, new).filter(|e: (HistoryMode, Seq<char>)| e.0 == HistoryMode::Remove).map_values(
            |e: (HistoryMode, Seq<char>)| e.1,
        ) == removed_lines(old, new),
        spec_history(old, new).filter(|e: (HistoryMode, Seq<char>)| e.0 == HistoryMode::Add).map_values(
            |e: (HistoryMode, Seq<char>)| e.1,
        ) == added_lines(old, new),
{
    let rem = tagged(HistoryMode::Remove, removed_lines(old, new));
    let add = tagged(HistoryMode::Add, added_lines(old, new));
    let is_rem = |e: (HistoryMode, Seq<char>)| e.0 == HistoryMode::Remove;
    let is_add = |e: (HistoryMode, Seq<char>)| e.0 == HistoryMode::Add;
    lemma_filter_tagged(HistoryMode::Remove, removed_lines(old, new), is_rem, true);
    lemma_filter_tagged(HistoryMode::Add, added_lines(old, new), is_rem, false);
    lemma_filter_tagged(HistoryMode::Remove, removed_lines(old, new), is_add, false);
    lemma_filter_tagged(HistoryMode::Add, added_lines(old, new), is_add, true);
    Seq::filter_distributes_over_add(rem, add, is_rem);
    Seq::filter_distributes_over_add(rem, add, is_add);
    assert(rem.filter(is_rem).map_values(|e: (HistoryMode, Seq<char>)| e.1) =~= removed_lines(old, new));
    assert(add.filter(is_add).map_values(|e: (HistoryMode, Seq<char>)| e.1) =~= added_lines(old, new));
    assert((rem.filter(is_rem) + add.filter(is_rem)).map_values(|e: (HistoryMode, Seq<char>)| e.1) =~= removed_lines(old, new));
    assert((rem.filter(is_add) + add.filter(is_add)).map_values(|e: (HistoryMode, Seq<char>)| e.1) =~= added_lines(old, new));
}

proof fn lemma_filter_tagged(
    mode: HistoryMode,
    s: Seq<Seq<char>>,
    f: spec_fn((HistoryMode, Seq<char>)) -> bool,
    keep: bool,
)
    requires
        f(( mode, Seq::empty())) == keep,
        forall|x: Seq<char>| #[trigger] f((mode, x)) == keep,
    ensures
        tagged(mode, s).filter(f) == (if keep {
            tagged(mode, s)
        } else {
            Seq::empty()
        }),
    decreases s.len(),
{
    reveal(Seq::filter);
    if s.len() > 0 {
        lemma_filter_tagged(mode, s.drop_last(), f, keep);
        assert(tagged(mode, s).drop_last() =~= tagged(mode, s.drop_last()));
        assert(tagged(mode, s).last() == (mode, s.last()));
        if keep {
            assert(tagged(mode, s.drop_last()).push((mode, s.last())) =~= tagged(mode, s));
        }
    } else {
        if keep {
            assert(tagged(mode, s) =~= Seq::<(HistoryMode, Seq<char>)>::empty());
        }
    }
}

} // verus!
