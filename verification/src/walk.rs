//! The directory walker's plan: over a snapshot of a directory tree, select
//! the files the run touches — direct children only, or every depth when
//! recursive — keeping only base names the filter accepts.

use vstd::prelude::*;
use crate::filter::{Matcher, pattern_matches};

verus! {

/// One entry of a directory snapshot: a plain file, or a subdirectory with
/// its own entries.
pub enum Entry {
    File { name: String },
    Dir { name: String, entries: Vec<Entry> },
}

/// A file selected for processing, as path components relative to the walk
/// root; the last component is the file's base name.
pub struct Target {
    pub path: Vec<String>,
}

impl View for Target {
    type V = Seq<Seq<char>>;

    open spec fn view(&self) -> Seq<Seq<char>> {
        self.path.deep_view()
    }
}

/// The filter as the pattern it was built from; none means the default
/// filter, which accepts every name.
pub open spec fn filter_view(filter: &Option<Matcher>) -> Option<Seq<char>> {
    match filter {
        Option::Some(m) => Some(m@),
        Option::None => None,
    }
}

/// Whether a base name passes the filter.
pub open spec fn name_accepted(filter: Option<Seq<char>>, name: Seq<char>) -> bool {
    match filter {
        Some(pattern) => pattern_matches(pattern, name),
        None => true,
    }
}

/// Prepending a directory name to a relative path.
pub open spec fn prepend_to(head: Seq<char>) -> spec_fn(Seq<Seq<char>>) -> Seq<Seq<char>> {
    |p: Seq<Seq<char>>| seq![head] + p
}

/// The paths the walk selects among a run of entries, in order.
pub open spec fn selected_in(
    entries: Seq<Entry>,
    filter: Option<Seq<char>>,
    recursive: bool,
) -> Seq<Seq<Seq<char>>>
    decreases entries,
{
    if entries.len() == 0 {
        Seq::empty()
    } else {
        selected_entry(entries[0], filter, recursive)
            + selected_in(entries.drop_first(), filter, recursive)
    }
}

/// The paths the walk selects under one entry: a file is selected when its
/// name passes the filter; a directory contributes nothing unless the walk
/// is recursive, in which case its selections are taken with the directory
/// name prepended.
pub open spec fn selected_entry(
    e: Entry,
    filter: Option<Seq<char>>,
    recursive: bool,
) -> Seq<Seq<Seq<char>>>
    decreases e,
{
    match e {
        Entry::File { name } => if name_accepted(filter, name@) {
            seq![seq![name@]]
        } else {
            Seq::empty()
        },
        Entry::Dir { name, entries } => if recursive {
            selected_in(entries@, filter, recursive).map_values(prepend_to(name@))
        } else {
            Seq::empty()
        },
    }
}

/// Selecting over one more entry at the end extends the selection at the end.
pub proof fn lemma_selected_snoc(
    entries: Seq<Entry>,
    e: Entry,
    filter: Option<Seq<char>>,
    recursive: bool,
)
    ensures
        selected_in(entries.push(e), filter, recursive)
            == selected_in(entries, filter, recursive) + selected_entry(e, filter, recursive),
    decreases entries.len(),
{
    if entries.len() == 0 {
        assert(entries.push(e)[0] == e);
        assert(entries.push(e).drop_first() =~= Seq::<Entry>::empty());
        assert(selected_in(Seq::<Entry>::empty(), filter, recursive)
            =~= Seq::<Seq<Seq<char>>>::empty());
        assert(selected_in(entries.push(e), filter, recursive)
            =~= selected_entry(e, filter, recursive));
        assert(selected_in(entries, filter, recursive)
            + selected_entry(e, filter, recursive)
            =~= selected_entry(e, filter, recursive));
    } else {
        assert(entries.push(e)[0] == entries[0]);
        assert(entries.push(e).drop_first() =~= entries.drop_first().push(e));
        lemma_selected_snoc(entries.drop_first(), e, filter, recursive);
        assert(selected_in(entries.push(e), filter, recursive)
            =~= selected_in(entries, filter, recursive)
                + selected_entry(e, filter, recursive));
    }
}

/// Every file of the tree at the depths the walk reaches, regardless of the
/// filter, in the walk's order.
pub open spec fn files_in(entries: Seq<Entry>, recursive: bool) -> Seq<Seq<Seq<char>>>
    decreases entries,
{
    if entries.len() == 0 {
        Seq::empty()
    } else {
        files_entry(entries[0], recursive) + files_in(entries.drop_first(), recursive)
    }
}

/// Every file under one entry at the depths the walk reaches.
pub open spec fn files_entry(e: Entry, recursive: bool) -> Seq<Seq<Seq<char>>>
    decreases e,
{
    match e {
        Entry::File { name } => seq![seq![name@]],
        Entry::Dir { name, entries } => if recursive {
            files_in(entries@, recursive).map_values(prepend_to(name@))
        } else {
            Seq::empty()
        },
    }
}

/// The filter, as a predicate on a selected path's base name.
pub open spec fn match_pred(filter: Option<Seq<char>>) -> spec_fn(Seq<Seq<char>>) -> bool {
    |p: Seq<Seq<char>>| name_accepted(filter, p.last())
}

/// Every path the walk selects under one entry is nonempty and ends in a
/// base name the filter accepts.
pub proof fn lemma_selected_entry_matches(e: Entry, filter: Option<Seq<char>>, recursive: bool)
    ensures
        forall|i: int| 0 <= i < selected_entry(e, filter, recursive).len()
            ==> (#[trigger] selected_entry(e, filter, recursive)[i]).len() >= 1
                && name_accepted(filter, selected_entry(e, filter, recursive)[i].last()),
    decreases e,
{
    match e {
        Entry::File { name } => {
        },
        Entry::Dir { name, entries } => {
            if recursive {
                lemma_selected_matches(entries@, filter, recursive);
                let sub = selected_in(entries@, filter, recursive);
                let mapped = sub.map_values(prepend_to(name@));
                assert forall|i: int| 0 <= i < mapped.len()
                    implies (#[trigger] mapped[i]).len() >= 1
                        && name_accepted(filter, mapped[i].last()) by {
                    assert(mapped[i] == prepend_to(name@)(sub[i]));
                    assert(mapped[i] == seq![name@] + sub[i]);
                    assert(sub[i].len() >= 1);
                    assert(mapped[i].last() == sub[i].last());
                }
            }
        },
    }
}

/// Every path the walk selects among a run of entries is nonempty and ends
/// in a base name the filter accepts.
pub proof fn lemma_selected_matches(entries: Seq<Entry>, filter: Option<Seq<char>>, recursive: bool)
    ensures
        forall|i: int| 0 <= i < selected_in(entries, filter, recursive).len()
            ==> (#[trigger] selected_in(entries, filter, recursive)[i]).len() >= 1
                && name_accepted(filter, selected_in(entries, filter, recursive)[i].last()),
    decreases entries,
{
    if entries.len() > 0 {
        lemma_selected_entry_matches(entries[0], filter, recursive);
        lemma_selected_matches(entries.drop_first(), filter, recursive);
        let a = selected_entry(entries[0], filter, recursive);
        let b = selected_in(entries.drop_first(), filter, recursive);
        assert forall|i: int| 0 <= i < (a + b).len()
            implies (#[trigger] (a + b)[i]).len() >= 1
                && name_accepted(filter, (a + b)[i].last()) by {
            if i < a.len() {
                assert((a + b)[i] == a[i]);
            } else {
                assert((a + b)[i] == b[i - a.len()]);
            }
        }
    }
}

/// A walk that does not recurse selects direct children only: every selected
/// path is a single component, so no file of a subdirectory is ever touched.
pub proof fn lemma_nonrecursive_selects_direct(entries: Seq<Entry>, filter: Option<Seq<char>>)
    ensures
        forall|i: int| 0 <= i < selected_in(entries, filter, false).len()
            ==> (#[trigger] selected_in(entries, filter, false)[i]).len() == 1,
    decreases entries,
{
    if entries.len() > 0 {
        lemma_nonrecursive_selects_direct(entries.drop_first(), filter);
        let a = selected_entry(entries[0], filter, false);
        let b = selected_in(entries.drop_first(), filter, false);
        assert forall|i: int| 0 <= i < (a + b).len()
            implies (#[trigger] (a + b)[i]).len() == 1 by {
            if i < a.len() {
                assert((a + b)[i] == a[i]);
            } else {
                assert((a + b)[i] == b[i - a.len()]);
            }
        }
    }
}

/// Every file path of the tree is nonempty.
pub proof fn lemma_files_nonempty(entries: Seq<Entry>, recursive: bool)
    ensures
        forall|i: int| 0 <= i < files_in(entries, recursive).len()
            ==> (#[trigger] files_in(entries, recursive)[i]).len() >= 1,
    decreases entries,
{
    if entries.len() > 0 {
        lemma_files_entry_nonempty(entries[0], recursive);
        lemma_files_nonempty(entries.drop_first(), recursive);
        let a = files_entry(entries[0], recursive);
        let b = files_in(entries.drop_first(), recursive);
        assert forall|i: int| 0 <= i < (a + b).len()
            implies (#[trigger] (a + b)[i]).len() >= 1 by {
            if i < a.len() {
                assert((a + b)[i] == a[i]);
            } else {
                assert((a + b)[i] == b[i - a.len()]);
            }
        }
    }
}

/// Every file path under one entry is nonempty.
pub proof fn lemma_files_entry_nonempty(e: Entry, recursive: bool)
    ensures
        forall|i: int| 0 <= i < files_entry(e, recursive).len()
            ==> (#[trigger] files_entry(e, recursive)[i]).len() >= 1,
    decreases e,
{
    match e {
        Entry::File { name } => {
        },
        Entry::Dir { name, entries } => {
            if recursive {
                lemma_files_nonempty(entries@, recursive);
                let sub = files_in(entries@, recursive);
                let mapped = sub.map_values(prepend_to(name@));
                assert forall|i: int| 0 <= i < mapped.len()
                    implies (#[trigger] mapped[i]).len() >= 1 by {
                    assert(mapped[i] == prepend_to(name@)(sub[i]));
                }
            }
        },
    }
}

/// Filtering on the base name commutes with prepending a directory name,
/// since prepending never changes the base name of a nonempty path.
proof fn lemma_filter_map_prepend(s: Seq<Seq<Seq<char>>>, head: Seq<char>, filter: Option<Seq<char>>)
    requires
        forall|i: int| 0 <= i < s.len() ==> (#[trigger] s[i]).len() >= 1,
    ensures
        s.map_values(prepend_to(head)).filter(match_pred(filter))
            == s.filter(match_pred(filter)).map_values(prepend_to(head)),
    decreases s.len(),
{
    reveal_with_fuel(Seq::<Seq<Seq<char>>>::filter, 2);
    let pred = match_pred(filter);
    let f = prepend_to(head);
    if s.len() == 0 {
        assert(s.map_values(f) =~= Seq::<Seq<Seq<char>>>::empty());
        assert(s =~= Seq::<Seq<Seq<char>>>::empty());
        assert(Seq::<Seq<Seq<char>>>::empty().filter(pred) =~= Seq::<Seq<Seq<char>>>::empty());
        assert(Seq::<Seq<Seq<char>>>::empty().map_values(f) =~= Seq::<Seq<Seq<char>>>::empty());
    } else {
        let s0 = s.drop_last();
        lemma_filter_map_prepend(s0, head, filter);
        let m = s.map_values(f);
        assert(m.drop_last() =~= s0.map_values(f));
        assert(m.last() == f(s.last()));
        assert(f(s.last()) == seq![head] + s.last());
        assert(s.last().len() >= 1);
        assert((seq![head] + s.last()).last() == s.last().last());
        assert(pred(m.last()) == pred(s.last()));
        if pred(s.last()) {
            assert(m.filter(pred) == m.drop_last().filter(pred).push(m.last()));
            assert(s.filter(pred) == s0.filter(pred).push(s.last()));
            assert(s0.filter(pred).push(s.last()).map_values(f)
                =~= s0.filter(pred).map_values(f).push(f(s.last())));
        } else {
            assert(m.filter(pred) == m.drop_last().filter(pred));
            assert(s.filter(pred) == s0.filter(pred));
        }
    }
}

/// A recursive walk selects exactly the files of the whole tree, at every
/// depth, whose base name the filter accepts — no more and no fewer.
pub proof fn lemma_recursive_selects_all(entries: Seq<Entry>, filter: Option<Seq<char>>)
    ensures
        selected_in(entries, filter, true)
            == files_in(entries, true).filter(match_pred(filter)),
    decreases entries,
{
    reveal_with_fuel(Seq::<Seq<Seq<char>>>::filter, 2);
    let pred = match_pred(filter);
    if entries.len() == 0 {
        assert(Seq::<Seq<Seq<char>>>::empty().filter(pred) =~= Seq::<Seq<Seq<char>>>::empty());
    } else {
        lemma_recursive_entry_selects_all(entries[0], filter);
        lemma_recursive_selects_all(entries.drop_first(), filter);
        Seq::filter_distributes_over_add(
            files_entry(entries[0], true),
            files_in(entries.drop_first(), true),
            pred,
        );
    }
}

/// A recursive walk under one entry selects exactly the files under it whose
/// base name the filter accepts.
pub proof fn lemma_recursive_entry_selects_all(e: Entry, filter: Option<Seq<char>>)
    ensures
        selected_entry(e, filter, true) == files_entry(e, true).filter(match_pred(filter)),
    decreases e,
{
    reveal_with_fuel(Seq::<Seq<Seq<char>>>::filter, 2);
    let pred = match_pred(filter);
    match e {
        Entry::File { name } => {
            let single = seq![seq![name@]];
            assert(single.drop_last() =~= Seq::<Seq<Seq<char>>>::empty());
            assert(Seq::<Seq<Seq<char>>>::empty().filter(pred) =~= Seq::<Seq<Seq<char>>>::empty());
            assert(single.last() == seq![name@]);
            assert(seq![name@].last() == name@);
            assert(pred(seq![name@]) == name_accepted(filter, name@));
            if name_accepted(filter, name@) {
                assert(single.filter(pred) =~= single);
            } else {
                assert(single.filter(pred) =~= Seq::<Seq<Seq<char>>>::empty());
            }
        },
        Entry::Dir { name, entries } => {
            lemma_recursive_selects_all(entries@, filter);
            lemma_files_nonempty(entries@, true);
            lemma_filter_map_prepend(files_in(entries@, true), name@, filter);
        },
    }
}

/// The views of a run of selected targets.
pub open spec fn paths_of(targets: Seq<Target>) -> Seq<Seq<Seq<char>>> {
    targets.map_values(|t: Target| t@)
}

/// Whether a base name passes the filter, asked of the compiled matcher.
fn accepts(filter: &Option<Matcher>, name: &String) -> (r: bool)
    ensures
        r == name_accepted(filter_view(filter), name@),
{
    match filter {
        Some(m) => m.is_match(name.as_str()),
        None => true,
    }
}

/// A target for a plain file seen directly at the current level.
fn file_target(name: &String) -> (r: Target)
    ensures
        r@ =~= seq![name@],
{
    let mut path: Vec<String> = Vec::new();
    path.push(name.clone());
    let t = Target { path };
    assert(t@ =~= seq![name@]);
    t
}

/// The same target one directory further down.
fn prefixed(name: &String, t: &Target) -> (r: Target)
    ensures
        r@ == seq![name@] + t@,
{
    let mut path: Vec<String> = Vec::new();
    path.push(name.clone());
    let mut j: usize = 0;
    while j < t.path.len()
        invariant
            0 <= j <= t.path@.len(),
            path.deep_view() =~= seq![name@] + t.path.deep_view().take(j as int),
        decreases t.path@.len() - j,
    {
        let s = t.path[j].clone();
        let ghost pbefore = path.deep_view();
        path.push(s);
        proof {
            assert(path.deep_view() =~= pbefore.push(s@));
            assert(s@ == t.path.deep_view()[j as int]);
            assert(t.path.deep_view().take(j as int + 1)
                =~= t.path.deep_view().take(j as int).push(t.path.deep_view()[j as int]));
            assert(path.deep_view() =~= seq![name@] + t.path.deep_view().take(j as int + 1));
        }
        j += 1;
    }
    let r = Target { path };
    assert(r@ =~= seq![name@] + t@);
    r
}

/// Walk a snapshot of a directory tree and return the files the run will
/// touch, each as its relative path: the entries' matching files at this
/// level and, when `recursive`, those of every subdirectory at every depth.
pub fn plan(entries: &Vec<Entry>, filter: &Option<Matcher>, recursive: bool) -> (r: Vec<Target>)
    ensures
        paths_of(r@) == selected_in(entries@, filter_view(filter), recursive),
    decreases entries@,
{
    let ghost fv = filter_view(filter);
    let mut out: Vec<Target> = Vec::new();
    let mut i: usize = 0;
    assert(paths_of(out@) =~= selected_in(entries@.take(0), fv, recursive));
    while i < entries.len()
        invariant
            0 <= i <= entries@.len(),
            fv == filter_view(filter),
            paths_of(out@) == selected_in(entries@.take(i as int), fv, recursive),
        decreases entries@.len() - i,
    {
        let e = &entries[i];
        proof {
            assert(entries@.take(i + 1 as int) =~= entries@.take(i as int).push(entries@[i as int]));
            lemma_selected_snoc(entries@.take(i as int), entries@[i as int], fv, recursive);
        }
        match e {
            Entry::File { name } => {
                if accepts(filter, name) {
                    let t = file_target(name);
                    let ghost before = out@;
                    out.push(t);
                    assert(paths_of(out@) =~= paths_of(before).push(t@));
                    assert(paths_of(out@)
                        =~= selected_in(entries@.take(i + 1 as int), fv, recursive));
                } else {
                    assert(paths_of(out@)
                        =~= selected_in(entries@.take(i + 1 as int), fv, recursive));
                }
            },
            Entry::Dir { name, entries: sub } => {
                if recursive {
                    proof {
                        assert(decreases_to!(entries@ => entries@[i as int]));
                    }
                    let ts = plan(sub, filter, recursive);
                    let ghost sel_sub = selected_in(sub@, fv, recursive);
                    let mut j: usize = 0;
                    while j < ts.len()
                        invariant
                            0 <= j <= ts@.len(),
                            fv == filter_view(filter),
                            paths_of(ts@) == sel_sub,
                            paths_of(out@) == selected_in(entries@.take(i as int), fv, recursive)
                                + sel_sub.take(j as int).map_values(prepend_to(name@)),
                        decreases ts@.len() - j,
                    {
                        let t = prefixed(name, &ts[j]);
                        let ghost before = out@;
                        out.push(t);
                        proof {
                            assert(paths_of(out@) =~= paths_of(before).push(t@));
                            assert(t@ == prepend_to(name@)(sel_sub[j as int]));
                            assert(sel_sub.take(j + 1 as int)
                                =~= sel_sub.take(j as int).push(sel_sub[j as int]));
                            assert(sel_sub.take(j + 1 as int).map_values(prepend_to(name@))
                                =~= sel_sub.take(j as int).map_values(prepend_to(name@))
                                    .push(prepend_to(name@)(sel_sub[j as int])));
                        }
                        j += 1;
                    }
                    proof {
                        assert(sel_sub.take(ts@.len() as int) =~= sel_sub);
                        assert(selected_entry(entries@[i as int], fv, recursive)
                            == sel_sub.map_values(prepend_to(name@)));
                        assert(paths_of(out@)
                            =~= selected_in(entries@.take(i + 1 as int), fv, recursive));
                    }
                } else {
                    assert(selected_entry(entries@[i as int], fv, recursive)
                        =~= Seq::<Seq<Seq<char>>>::empty());
                    assert(paths_of(out@)
                        =~= selected_in(entries@.take(i + 1 as int), fv, recursive));
                }
            },
        }
        i += 1;
    }
    assert(entries@.take(entries@.len() as int) =~= entries@);
    out
}

} // verus!
