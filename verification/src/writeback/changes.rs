//! Planning of the writeback: the changes are grouped by the file they
//! target, so that every file is read once and written once however many
//! models change in it.

use vstd::prelude::*;
use crate::text::normal_path;
use crate::text::normalize_path;
use crate::sorting::arranged;
use crate::sorting::comes_before;
use crate::sorting::text_comes_before;
use crate::sorting::place_of;
use crate::sorting::transitive;
use crate::sorting::lemma_place_is;
use crate::sorting::lemma_not_before_itself;
use crate::sorting::lemma_before_is_transitive;
use crate::sorting::text_order;
use crate::sorting::strictly_ascending;
use crate::sorting::lemma_arranged_texts;
use crate::sorting::sort_texts;
use crate::change_descriptors::ModelChanges;
use crate::change_descriptors::ModelChangesView;

verus! {

/// The distinct paths among the first `n` of `keys`, in the order in which
/// they first occur.
pub open spec fn distinct_paths(keys: Seq<Option<Seq<char>>>, n: int) -> Seq<Seq<char>>
    decreases n,
{
    if n <= 0 {
        Seq::empty()
    } else {
        match keys[n - 1] {
            Some(path) => if distinct_paths(keys, n - 1).contains(path) {
                distinct_paths(keys, n - 1)
            } else {
                distinct_paths(keys, n - 1).push(path)
            },
            None => distinct_paths(keys, n - 1),
        }
    }
}

/// The positions among the first `n` of `keys` that hold `path`, ascending.
pub open spec fn members(keys: Seq<Option<Seq<char>>>, path: Seq<char>, n: int) -> Seq<int>
    decreases n,
{
    if n <= 0 {
        Seq::empty()
    } else if keys[n - 1] == Some(path) {
        members(keys, path, n - 1).push(n - 1)
    } else {
        members(keys, path, n - 1)
    }
}

/// No path is listed twice, and a path is listed exactly when a key holds it.
pub proof fn lemma_distinct_paths(keys: Seq<Option<Seq<char>>>, n: int)
    requires
        0 <= n <= keys.len(),
    ensures
        distinct_paths(keys, n).no_duplicates(),
        forall|path: Seq<char>|
            #![trigger distinct_paths(keys, n).contains(path)]
            distinct_paths(keys, n).contains(path) <==> exists|i: int|
                0 <= i < n && #[trigger] keys[i] == Some(path),
    decreases n,
{
    if n > 0 {
        lemma_distinct_paths(keys, n - 1);
        let before = distinct_paths(keys, n - 1);
        let now = distinct_paths(keys, n);
        assert forall|path: Seq<char>|
            #![trigger now.contains(path)]
            now.contains(path) <==> exists|i: int|
                0 <= i < n && #[trigger] keys[i] == Some(path) by {
            if now.contains(path) {
                let at = choose|at: int| 0 <= at < now.len() && now[at] == path;
                if at < before.len() {
                    assert(before[at] == path);
                    assert(before.contains(path));
                    let i = choose|i: int| 0 <= i < n - 1 && #[trigger] keys[i] == Some(path);
                    assert(keys[i] == Some(path));
                } else {
                    assert(keys[n - 1] == Some(path));
                }
            }
            if exists|i: int| 0 <= i < n && #[trigger] keys[i] == Some(path) {
                let i = choose|i: int| 0 <= i < n && #[trigger] keys[i] == Some(path);
                if i < n - 1 {
                    assert(before.contains(path));
                    let at = choose|at: int| 0 <= at < before.len() && before[at] == path;
                    assert(now[at] == path);
                } else {
                    if before.contains(path) {
                        let at = choose|at: int| 0 <= at < before.len() && before[at] == path;
                        assert(now[at] == path);
                    } else {
                        assert(now[now.len() - 1] == path);
                    }
                }
            }
        }
        assert forall|i: int, j: int|
            0 <= i < now.len() && 0 <= j < now.len() && i != j implies now[i] != now[j] by {
            if i < before.len() && j < before.len() {
                assert(before[i] != before[j]);
            } else if i < before.len() {
                assert(before[i] == now[i]);
                assert(before.contains(now[i]));
            } else {
                assert(before[j] == now[j]);
                assert(before.contains(now[j]));
            }
        }
    }
}

/// The distinct paths among `keys`, ascending as paths: component by
/// component.
pub open spec fn group_paths(keys: Seq<Option<Seq<char>>>) -> Seq<Seq<char>> {
    arranged(distinct_paths(keys, keys.len() as int), text_order(true))
}

/// No path is listed twice, a path is listed exactly when a key holds it,
/// and every path comes before all that follow it.
pub proof fn lemma_group_paths(keys: Seq<Option<Seq<char>>>)
    ensures
        group_paths(keys).no_duplicates(),
        strictly_ascending(group_paths(keys), text_order(true)),
        group_paths(keys).len() == distinct_paths(keys, keys.len() as int).len(),
        forall|path: Seq<char>|
            #![trigger group_paths(keys).contains(path)]
            group_paths(keys).contains(path) <==> exists|i: int|
                0 <= i < keys.len() && #[trigger] keys[i] == Some(path),
{
    let found = distinct_paths(keys, keys.len() as int);
    lemma_distinct_paths(keys, keys.len() as int);
    lemma_arranged_texts(found, true);
    assert forall|path: Seq<char>|
        #![trigger group_paths(keys).contains(path)]
        group_paths(keys).contains(path) <==> exists|i: int|
            0 <= i < keys.len() && #[trigger] keys[i] == Some(path) by {
        assert(group_paths(keys).contains(path) <==> found.contains(path));
    }
}

/// The positions of the keys that hold one path.
pub struct IndexGroup {
    pub path: String,
    pub members: Vec<usize>,
}

pub open spec fn as_positions(v: Seq<usize>) -> Seq<int> {
    Seq::new(v.len(), |i: int| v[i] as int)
}

/// Whether `groups` are the groups of `keys`: one for each distinct path,
/// in ascending order of the paths, with the positions that hold it.
pub open spec fn groups_of(groups: Seq<IndexGroup>, keys: Seq<Option<Seq<char>>>) -> bool {
    &&& groups.len() == group_paths(keys).len()
    &&& forall|g: int|
        0 <= g < groups.len() ==> (#[trigger] groups[g]).path@ == group_paths(keys)[g]
            && as_positions(groups[g].members@) == members(
            keys,
            groups[g].path@,
            keys.len() as int,
        )
}

fn has_path(paths: &Vec<String>, path: &String) -> (r: bool)
    ensures
        r == paths.deep_view().contains(path@),
{
    crate::lists::has_text(paths, path)
}

fn positions_of(keys: &Vec<Option<String>>, path: &String) -> (r: Vec<usize>)
    ensures
        as_positions(r@) == members(keys.deep_view(), path@, keys.len() as int),
        forall|x: int| 0 <= x < r.len() ==> #[trigger] r@[x] < keys.len(),
{
    let ghost all = keys.deep_view();
    let mut out: Vec<usize> = Vec::new();
    let mut i: usize = 0;
    assert(as_positions(out@) =~= Seq::empty());
    while i < keys.len()
        invariant
            i <= keys.len(),
            all == keys.deep_view(),
            as_positions(out@) == members(all, path@, i as int),
            forall|x: int| 0 <= x < out.len() ==> #[trigger] out@[x] < keys.len(),
        decreases keys.len() - i,
    {
        let same = match &keys[i] {
            Some(p) => *p == *path,
            None => false,
        };
        assert(same == (all[i as int] == Some(path@)));
        if same {
            let ghost before = as_positions(out@);
            out.push(i);
            assert(as_positions(out@) =~= before.push(i as int));
        }
        i = i + 1;
    }
    out
}

/// Groups the positions of `keys` by the path they hold.
pub fn group_positions(keys: &Vec<Option<String>>) -> (r: Vec<IndexGroup>)
    ensures
        groups_of(r@, keys.deep_view()),
        forall|g: int, x: int|
            0 <= g < r.len() && 0 <= x < r@[g].members.len() ==> #[trigger] r@[g].members@[x]
                < keys.len(),
{
    let ghost all = keys.deep_view();
    let mut paths: Vec<String> = Vec::new();
    let mut i: usize = 0;
    assert(paths.deep_view() =~= Seq::empty());
    while i < keys.len()
        invariant
            i <= keys.len(),
            all == keys.deep_view(),
            paths.deep_view() == distinct_paths(all, i as int),
        decreases keys.len() - i,
    {
        match &keys[i] {
            Some(path) => {
                assert(all[i as int] == Some(path@));
                if !has_path(&paths, path) {
                    let ghost before = paths.deep_view();
                    paths.push(path.clone());
                    assert(paths.deep_view() =~= before.push(path@));
                }
            },
            None => {
                assert(all[i as int] is None);
            },
        }
        i = i + 1;
    }
    let found = paths;
    let paths = sort_texts(&found, true);
    let ghost listed = group_paths(all);
    let mut groups: Vec<IndexGroup> = Vec::new();
    let mut g: usize = 0;
    while g < paths.len()
        invariant
            g <= paths.len(),
            all == keys.deep_view(),
            listed == group_paths(all),
            paths.deep_view() == listed,
            groups.len() == g,
            forall|h: int|
                0 <= h < g ==> (#[trigger] groups@[h]).path@ == listed[h] && as_positions(
                    groups@[h].members@,
                ) == members(all, groups@[h].path@, keys.len() as int),
            forall|h: int, x: int|
                0 <= h < g && 0 <= x < groups@[h].members.len() ==> #[trigger] groups@[h].members@[x]
                    < keys.len(),
        decreases paths.len() - g,
    {
        assert(listed[g as int] == paths@[g as int]@);
        let group = IndexGroup {
            path: paths[g].clone(),
            members: positions_of(keys, &paths[g]),
        };
        let ghost before = groups@;
        groups.push(group);
        assert forall|h: int|
            0 <= h < g + 1 implies (#[trigger] groups@[h]).path@ == listed[h] && as_positions(
            groups@[h].members@,
        ) == members(all, groups@[h].path@, keys.len() as int) by {
            if h < g {
                assert(groups@[h] == before[h]);
            }
        }
        assert forall|h: int, x: int|
            0 <= h < g + 1 && 0 <= x < groups@[h].members.len() implies #[trigger] groups@[h].members@[x]
            < keys.len() by {
            if h < g {
                assert(groups@[h] == before[h]);
            }
        }
        g = g + 1;
    }
    groups
}

/// The changes that target one file.
#[derive(Debug, Clone, PartialEq, Eq)]
pub struct FileGroup<'a> {
    pub path: String,
    pub changes: Vec<&'a ModelChanges>,
}

pub struct FileGroupView {
    pub path: Seq<char>,
    pub changes: Seq<ModelChangesView>,
}

impl<'a> View for FileGroup<'a> {
    type V = FileGroupView;

    open spec fn view(&self) -> FileGroupView {
        FileGroupView { path: self.path@, changes: self.changes.deep_view() }
    }
}

impl<'a> DeepView for FileGroup<'a> {
    type V = FileGroupView;

    open spec fn deep_view(&self) -> FileGroupView {
        self@
    }
}

/// The files that `changes` target, one for each of them, each as its
/// components give it, so that two spellings of one file are one target.
pub open spec fn target_paths(changes: Seq<ModelChangesView>) -> Seq<Option<Seq<char>>> {
    Seq::new(
        changes.len(),
        |i: int|
            match changes[i].patch_path {
                Some(p) => Some(normal_path(p)),
                None => None,
            },
    )
}

/// The changes at the positions `at`.
pub open spec fn changes_at(changes: Seq<ModelChangesView>, at: Seq<int>) -> Seq<
    ModelChangesView,
> {
    Seq::new(at.len(), |x: int| changes[at[x]])
}

/// The groups of `changes`: one for each distinct file that a change
/// targets, in ascending order of the files, each with the changes that
/// target the file, in their order. A change without a target is in no
/// group.
pub open spec fn grouped(changes: Seq<ModelChangesView>) -> Seq<FileGroupView> {
    let keys = target_paths(changes);
    let paths = group_paths(keys);
    Seq::new(
        paths.len(),
        |g: int|
            FileGroupView {
                path: paths[g],
                changes: changes_at(changes, members(keys, paths[g], keys.len() as int)),
            },
    )
}

/// Grouping names every file once: as many groups as distinct targets,
/// and no two groups for one file in two spellings.
pub proof fn lemma_groups_are_distinct(changes: Seq<ModelChangesView>)
    ensures
        Seq::new(grouped(changes).len(), |g: int| grouped(changes)[g].path).no_duplicates(),
        forall|g: int, h: int|
            0 <= g < h < grouped(changes).len() ==> normal_path(
                (#[trigger] grouped(changes)[g]).path,
            ) != normal_path((#[trigger] grouped(changes)[h]).path),
{
    let keys = target_paths(changes);
    lemma_group_paths(keys);
    let paths = group_paths(keys);
    let groups = grouped(changes);
    assert(Seq::new(groups.len(), |g: int| groups[g].path) =~= paths);
    assert forall|g: int, h: int| 0 <= g < h < groups.len() implies normal_path(
        (#[trigger] groups[g]).path,
    ) != normal_path((#[trigger] groups[h]).path) by {
        assert(paths.contains(paths[g]));
        assert(paths.contains(paths[h]));
        let a = choose|a: int| 0 <= a < keys.len() && #[trigger] keys[a] == Some(paths[g]);
        let b = choose|b: int| 0 <= b < keys.len() && #[trigger] keys[b] == Some(paths[h]);
        crate::paths::lemma_normal_is_normal(changes[a].patch_path->0);
        crate::paths::lemma_normal_is_normal(changes[b].patch_path->0);
        assert(paths[g] != paths[h]);
    }
}

/// Groups the changes by the file they target.
pub fn group_changes_by_file<'a>(changes: &'a Vec<ModelChanges>) -> (r: Vec<FileGroup<'a>>)
    ensures
        r.deep_view() == grouped(changes.deep_view()),
{
    let ghost all = changes.deep_view();
    let mut keys: Vec<Option<String>> = Vec::new();
    let mut i: usize = 0;
    while i < changes.len()
        invariant
            i <= changes.len(),
            all == changes.deep_view(),
            keys.len() == i,
            forall|j: int|
                0 <= j < i ==> (#[trigger] keys@[j]).deep_view() == target_paths(all)[j],
        decreases changes.len() - i,
    {
        assert(all[i as int] == changes@[i as int]@);
        let key = match &changes[i].patch_path {
            Some(p) => Some(normalize_path(p.as_str())),
            None => None,
        };
        keys.push(key);
        i = i + 1;
    }
    assert(keys.deep_view() =~= target_paths(all));
    let groups = group_positions(&keys);
    let ghost paths = group_paths(target_paths(all));
    let mut out: Vec<FileGroup<'a>> = Vec::new();
    let mut g: usize = 0;
    while g < groups.len()
        invariant
            g <= groups.len(),
            all == changes.deep_view(),
            keys.deep_view() == target_paths(all),
            keys.len() == changes.len(),
            groups_of(groups@, keys.deep_view()),
            forall|h: int, x: int|
                0 <= h < groups.len() && 0 <= x < groups@[h].members.len() ==> #[trigger] groups@[h].members@[x]
                    < keys.len(),
            out.len() == g,
            forall|h: int| 0 <= h < g ==> (#[trigger] out@[h])@ == grouped(all)[h],
        decreases groups.len() - g,
    {
        let group = &groups[g];
        let mut list: Vec<&'a ModelChanges> = Vec::new();
        let mut x: usize = 0;
        while x < group.members.len()
            invariant
                x <= group.members.len(),
                all == changes.deep_view(),
                forall|y: int|
                    0 <= y < group.members.len() ==> #[trigger] group.members@[y] < changes.len(),
                list.len() == x,
                forall|y: int|
                    0 <= y < x ==> (#[trigger] list@[y])@ == all[group.members@[y] as int],
            decreases group.members.len() - x,
        {
            list.push(&changes[group.members[x]]);
            x = x + 1;
        }
        let made = FileGroup { path: group.path.clone(), changes: list };
        assert(made@.changes =~= grouped(all)[g as int].changes);
        out.push(made);
        g = g + 1;
    }
    assert(out.deep_view() =~= grouped(all));
    out
}

/// The order of the changes of models: by the id of the model.
pub open spec fn model_order() -> spec_fn(ModelChangesView, ModelChangesView) -> bool {
    |a: ModelChangesView, b: ModelChangesView| comes_before(a.model_id, b.model_id, false)
}

/// The order of the changes of models is an order.
pub proof fn lemma_model_order()
    ensures
        transitive(model_order()),
{
    let before = model_order();
    assert forall|a: ModelChangesView| !#[trigger] before(a, a) by {
        lemma_not_before_itself(a.model_id, false);
    }
    assert forall|a: ModelChangesView, b: ModelChangesView, c: ModelChangesView|
        #![trigger before(a, b), before(b, c)]
        before(a, b) && before(b, c) implies before(a, c) by {
        lemma_before_is_transitive(a.model_id, b.model_id, c.model_id, false);
    }
}

/// The changes in ascending order of the ids of their models, as a map
/// from id to changes hands them out.
pub open spec fn by_model(changes: Seq<ModelChangesView>) -> Seq<ModelChangesView> {
    arranged(changes, model_order())
}

fn place_for_change(sorted: &Vec<ModelChanges>, x: &ModelChanges) -> (p: usize)
    ensures
        p == place_of(sorted.deep_view(), x@, model_order()),
        p <= sorted.len(),
{
    let ghost all = sorted.deep_view();
    let mut j: usize = 0;
    while j < sorted.len()
        invariant
            j <= sorted.len(),
            all == sorted.deep_view(),
            forall|k: int| 0 <= k < j ==> !model_order()(x@, #[trigger] all[k]),
        decreases sorted.len() - j,
    {
        assert(all[j as int] == sorted@[j as int]@);
        if text_comes_before(x.model_id.as_str(), sorted[j].model_id.as_str(), false) {
            proof {
                lemma_place_is(all, x@, model_order(), j as int);
            }
            return j;
        }
        j = j + 1;
    }
    proof {
        lemma_place_is(all, x@, model_order(), j as int);
    }
    j
}

/// The changes in ascending order of the ids of their models.
pub fn sort_changes(changes: &Vec<ModelChanges>) -> (r: Vec<ModelChanges>)
    ensures
        r.deep_view() == by_model(changes.deep_view()),
{
    let ghost all = changes.deep_view();
    let mut out: Vec<ModelChanges> = Vec::new();
    let mut i: usize = 0;
    assert(out.deep_view() =~= arranged(all.take(0), model_order()));
    while i < changes.len()
        invariant
            i <= changes.len(),
            all == changes.deep_view(),
            out.deep_view() == arranged(all.take(i as int), model_order()),
        decreases changes.len() - i,
    {
        let p = place_for_change(&out, &changes[i]);
        let ghost before = out.deep_view();
        assert(all[i as int] == changes@[i as int]@);
        out.insert(p, changes[i].duplicate());
        assert(out.deep_view() =~= before.insert(p as int, all[i as int]));
        assert(all.take(i + 1).drop_last() =~= all.take(i as int));
        assert(all.take(i + 1).last() == all[i as int]);
        i = i + 1;
    }
    assert(all.take(changes.len() as int) =~= all);
    out
}

} // verus!
