//! Set reconciliation between two item lists.

use vstd::prelude::*;
use crate::text::{all_distinct, contains_string, keep_first_in, lemma_keep_first_in, lemma_take_next};

verus! {

/// Whether an entry installs or removes an item.
#[derive(Debug, Clone, Copy, PartialEq, Eq, Structural)]
pub enum HistoryMode {
    Add,
    Remove,
}

/// One reconciliation record.
#[derive(Debug)]
pub struct History {
    pub mode: HistoryMode,
    pub line: String,
}

impl History {
    /// The record as a mode and an identifier.
    pub open spec fn view_pair(&self) -> (HistoryMode, Seq<char>) {
        (self.mode, self.line@)
    }
}

/// The records as modes and identifiers.
pub open spec fn history_view(h: Seq<History>) -> Seq<(HistoryMode, Seq<char>)> {
    Seq::new(h.len(), |i: int| h[i].view_pair())
}

/// The identifiers that do not occur in `s`.
pub open spec fn absent_from(s: Seq<Seq<char>>) -> Set<Seq<char>> {
    Set::new(|x: Seq<char>| !s.contains(x))
}

/// The identifiers of `old` missing from `new`, each once, by first position in `old`.
pub open spec fn removed_lines(old: Seq<Seq<char>>, new: Seq<Seq<char>>) -> Seq<Seq<char>> {
    keep_first_in(old, absent_from(new))
}

/// The identifiers of `new` missing from `old`, each once, by first position in `new`.
pub open spec fn added_lines(old: Seq<Seq<char>>, new: Seq<Seq<char>>) -> Seq<Seq<char>> {
    keep_first_in(new, absent_from(old))
}

/// Each identifier tagged with one mode.
pub open spec fn tagged(mode: HistoryMode, s: Seq<Seq<char>>) -> Seq<(HistoryMode, Seq<char>)> {
    Seq::new(s.len(), |i: int| (mode, s[i]))
}

/// The records that reconcile `old` into `new`: removals, then additions.
pub open spec fn spec_history(old: Seq<Seq<char>>, new: Seq<Seq<char>>) -> Seq<
    (HistoryMode, Seq<char>),
> {
    tagged(HistoryMode::Remove, removed_lines(old, new)) + tagged(
        HistoryMode::Add,
        added_lines(old, new),
    )
}

/// The identifiers of `src` absent from `other`, each at its first position.
fn first_absent(src: &Vec<String>, other: &Vec<String>) -> (r: Vec<String>)
    ensures
        r.deep_view() == keep_first_in(src.deep_view(), absent_from(other.deep_view())),
{
    let ghost keep = absent_from(other.deep_view());
    let mut r: Vec<String> = Vec::new();
    let mut i: usize = 0;
    while i < src.len()
        invariant
            i <= src.len(),
            keep == absent_from(other.deep_view()),
            r.deep_view() == keep_first_in(src.deep_view().take(i as int), keep),
        decreases src.len() - i,
    {
        let x = &src[i];
        proof {
            lemma_take_next(src.deep_view(), i as int);
        }
        if !contains_string(other, x) && !contains_string(&r, x) {
            let ghost before = r.deep_view();
            r.push(x.clone());
            assert(r.deep_view() =~= before.push(x@));
        }
        assert(x@ == src.deep_view()[i as int]);
        i = i + 1;
    }
    assert(src.deep_view().take(src.len() as int) =~= src.deep_view());
    r
}

fn push_tagged(out: &mut Vec<History>, mode: HistoryMode, lines: Vec<String>)
    ensures
        history_view(final(out)@) == history_view(old(out)@) + tagged(mode, lines.deep_view()),
{
    let ghost start = history_view(out@);
    let mut i: usize = 0;
    while i < lines.len()
        invariant
            i <= lines.len(),
            history_view(out@) == start + tagged(mode, lines.deep_view().take(i as int)),
        decreases lines.len() - i,
    {
        let item = lines[i].clone();
        assert(item@ == lines.deep_view()[i as int]);
        let ghost before = history_view(out@);
        out.push(History { mode, line: item });
        assert(history_view(out@) =~= before.push((mode, lines.deep_view()[i as int])));
        assert(tagged(mode, lines.deep_view().take(i as int + 1)) =~= tagged(
            mode,
            lines.deep_view().take(i as int),
        ).push((mode, lines.deep_view()[i as int])));
        assert(history_view(out@) =~= start + tagged(mode, lines.deep_view().take(i as int + 1)));
        i = i + 1;
    }
    assert(lines.deep_view().take(lines.len() as int) =~= lines.deep_view());
}

/// The records that reconcile `old` into `new`: a `Remove` for each
/// identifier of `old` missing from `new`, by first position in `old`, then
/// an `Add` for each identifier of `new` missing from `old`, by first
/// position in `new`. Identifiers in both give no record.
pub fn history(old: &Vec<String>, new: &Vec<String>) -> (r: Vec<History>)
    ensures
        history_view(r@) == spec_history(old.deep_view(), new.deep_view()),
{
    let removed = first_absent(old, new);
    let added = first_absent(new, old);
    let mut r: Vec<History> = Vec::new();
    push_tagged(&mut r, HistoryMode::Remove, removed);
    push_tagged(&mut r, HistoryMode::Add, added);
    assert(history_view(r@) =~= spec_history(old.deep_view(), new.deep_view()));
    r
}

/// The reconciliation records are exact: each identifier of `new` missing
/// from `old` appears once as `Add`, each identifier of `old` missing from
/// `new` appears once as `Remove`, no record repeats, identifiers in both
/// give none, and identical lists give no record at all.
pub proof fn lemma_history_exact(old: Seq<Seq<char>>, new: Seq<Seq<char>>)
    ensures
        forall|i: int, j: int|
            0 <= i < spec_history(old, new).len() && 0 <= j < spec_history(old, new).len() && i
                != j ==> spec_history(old, new)[i] != spec_history(old, new)[j],
        forall|x: Seq<char>|
            spec_history(old, new).contains((HistoryMode::Add, x)) <==> (new.contains(x)
                && !old.contains(x)),
        forall|x: Seq<char>|
            spec_history(old, new).contains((HistoryMode::Remove, x)) <==> (old.contains(x)
                && !new.contains(x)),
        old == new ==> spec_history(old, new).len() == 0,
{
    let rem = removed_lines(old, new);
    let add = added_lines(old, new);
    lemma_keep_first_in(old, absent_from(new));
    lemma_keep_first_in(new, absent_from(old));
    let h = spec_history(old, new);
    let tr = tagged(HistoryMode::Remove, rem);
    let ta = tagged(HistoryMode::Add, add);
    assert forall|i: int| 0 <= i < h.len() implies (i < rem.len() ==> h[i] == (
    HistoryMode::Remove, rem[i])) && (i >= rem.len() ==> h[i] == (HistoryMode::Add, add[i
        - rem.len()])) by {}
    assert forall|x: Seq<char>| h.contains((HistoryMode::Add, x)) <==> add.contains(x) by {
        if h.contains((HistoryMode::Add, x)) {
            let i = choose|i: int| 0 <= i < h.len() && h[i] == (HistoryMode::Add, x);
            assert(add[i - rem.len()] == x);
        }
        if add.contains(x) {
            let i = choose|i: int| 0 <= i < add.len() && add[i] == x;
            assert(h[i + rem.len()] == (HistoryMode::Add, x));
        }
    }
    assert forall|x: Seq<char>| h.contains((HistoryMode::Remove, x)) <==> rem.contains(x) by {
        if h.contains((HistoryMode::Remove, x)) {
            let i = choose|i: int| 0 <= i < h.len() && h[i] == (HistoryMode::Remove, x);
            assert(rem[i] == x);
        }
        if rem.contains(x) {
            let i = choose|i: int| 0 <= i < rem.len() && rem[i] == x;
            assert(h[i] == (HistoryMode::Remove, x));
        }
    }
    if old == new {
        if rem.len() > 0 {
            assert(rem.contains(rem[0]));
            assert(old.contains(rem[0]) && absent_from(new).contains(rem[0]));
            assert(false);
        }
        if add.len() > 0 {
            assert(add.contains(add[0]));
            assert(new.contains(add[0]) && absent_from(old).contains(add[0]));
            assert(false);
        }
    }
}

} // verus!
