//! What a writeback reads and writes: every file that the changes target
//! is read once, and the engine asks for at most one action on each.

use vstd::prelude::*;
use crate::text::position;
use crate::text::lemma_position;
use crate::text::resolved_path;
use crate::text::normal_path;
use crate::paths::lemma_resolved_is_normal;
use crate::text::resolve_patch_path;
use crate::change_descriptors::ModelChanges;
use crate::change_descriptors::ModelChangesView;
use crate::change_descriptors::ModelChange;
use crate::change_descriptors::ModelChangeView;
use crate::writeback::properties::PropertyFileView;
use crate::writeback::changes::distinct_paths;
use crate::writeback::changes::lemma_distinct_paths;
use crate::writeback::changes::group_paths;
use crate::writeback::changes::by_model;
use crate::writeback::changes::lemma_group_paths;
use crate::writeback::changes::members;
use crate::writeback::changes::FileGroupView;
use crate::writeback::rust::SlotView;
use crate::writeback::rust::StoredDocumentView;
use crate::writeback::rust::StateView;
use crate::writeback::rust::OpView;
use crate::writeback::rust::FileActionView;
use crate::writeback::rust::slot_paths;
use crate::writeback::rust::put;
use crate::writeback::rust::apply_op;
use crate::writeback::rust::apply_ops;
use crate::writeback::rust::run_groups;
use crate::writeback::rust::group_ops;
use crate::writeback::rust::action_of;
use crate::writeback::rust::actions_of;
use crate::writeback::rust::resolved_groups;
use crate::writeback::rust::resolved_targets;
use crate::writeback::rust::written_back;

verus! {

/// The files that a change to a model names besides its target: where a
/// block moves from, and where it moves to.
pub open spec fn change_paths(root: Seq<char>, change: ModelChangeView) -> Seq<
    Option<Seq<char>>,
> {
    match change {
        ModelChangeView::MovePropertiesFile { patch_path, new_path, .. } => seq![
            match patch_path {
                Some(p) => Some(resolved_path(root, p)),
                None => None,
            },
            Some(resolved_path(root, new_path)),
        ],
        _ => Seq::empty(),
    }
}

pub open spec fn changes_paths(root: Seq<char>, changes: Seq<ModelChangeView>, n: int) -> Seq<
    Option<Seq<char>>,
>
    decreases n,
{
    if n <= 0 {
        Seq::empty()
    } else {
        changes_paths(root, changes, n - 1) + change_paths(root, changes[n - 1])
    }
}

/// The files that the changes of one model name: their target, and the
/// two ends of every move.
pub open spec fn member_paths(root: Seq<char>, member: ModelChangesView) -> Seq<
    Option<Seq<char>>,
> {
    seq![
        match member.patch_path {
            Some(p) => Some(resolved_path(root, p)),
            None => None,
        },
    ] + changes_paths(root, member.changes, member.changes.len() as int)
}

pub open spec fn named_paths(root: Seq<char>, changes: Seq<ModelChangesView>, n: int) -> Seq<
    Option<Seq<char>>,
>
    decreases n,
{
    if n <= 0 {
        Seq::empty()
    } else {
        named_paths(root, changes, n - 1) + member_paths(root, changes[n - 1])
    }
}

/// The files to read for `changes`: every file that they name, once, in
/// the order in which the files are first named.
pub open spec fn needed_paths(root: Seq<char>, changes: Seq<ModelChangesView>) -> Seq<Seq<char>> {
    let keys = named_paths(root, changes, changes.len() as int);
    distinct_paths(keys, keys.len() as int)
}

/// Whether every file of `paths` is written as its components give it.
pub open spec fn all_normal(paths: Seq<Option<Seq<char>>>) -> bool {
    forall|i: int|
        0 <= i < paths.len() ==> ((#[trigger] paths[i]) matches Some(p) ==> normal_path(p) == p)
}

proof fn lemma_normal_concat(a: Seq<Option<Seq<char>>>, b: Seq<Option<Seq<char>>>)
    requires
        all_normal(a),
        all_normal(b),
    ensures
        all_normal(a + b),
{
    assert forall|i: int| 0 <= i < (a + b).len() implies ((#[trigger] (a + b)[i]) matches Some(p)
        ==> normal_path(p) == p) by {
        if i < a.len() {
            assert((a + b)[i] == a[i]);
        } else {
            assert((a + b)[i] == b[i - a.len()]);
        }
    }
}

proof fn lemma_changes_name_normal_paths(root: Seq<char>, changes: Seq<ModelChangeView>, n: int)
    requires
        0 <= n <= changes.len(),
    ensures
        all_normal(changes_paths(root, changes, n)),
    decreases n,
{
    if n > 0 {
        lemma_changes_name_normal_paths(root, changes, n - 1);
        let here = change_paths(root, changes[n - 1]);
        assert(all_normal(here)) by {
            match changes[n - 1] {
                ModelChangeView::MovePropertiesFile { patch_path, new_path, .. } => {
                    lemma_resolved_is_normal(root, new_path);
                    match patch_path {
                        Some(p) => {
                            lemma_resolved_is_normal(root, p);
                        },
                        None => {},
                    }
                },
                _ => {},
            }
        }
        lemma_normal_concat(changes_paths(root, changes, n - 1), here);
    }
}

/// Every file that changes name is named as its components give it, so
/// that no file is named in two spellings.
pub proof fn lemma_named_paths_are_normal(root: Seq<char>, changes: Seq<ModelChangesView>, n: int)
    requires
        0 <= n <= changes.len(),
    ensures
        all_normal(named_paths(root, changes, n)),
    decreases n,
{
    if n > 0 {
        lemma_named_paths_are_normal(root, changes, n - 1);
        let member = changes[n - 1];
        let first = seq![
            match member.patch_path {
                Some(p) => Some(resolved_path(root, p)),
                None => None,
            },
        ];
        assert(all_normal(first)) by {
            match member.patch_path {
                Some(p) => {
                    lemma_resolved_is_normal(root, p);
                },
                None => {},
            }
        }
        lemma_changes_name_normal_paths(root, member.changes, member.changes.len() as int);
        lemma_normal_concat(
            first,
            changes_paths(root, member.changes, member.changes.len() as int),
        );
        lemma_normal_concat(named_paths(root, changes, n - 1), member_paths(root, member));
    }
}

/// The files to read are distinct files, not only distinct texts: no two
/// of them have the same components.
pub proof fn lemma_files_to_read_are_distinct(root: Seq<char>, changes: Seq<ModelChangesView>)
    ensures
        forall|i: int|
            0 <= i < needed_paths(root, changes).len() ==> normal_path(
                #[trigger] needed_paths(root, changes)[i],
            ) == needed_paths(root, changes)[i],
        forall|i: int, j: int|
            0 <= i < j < needed_paths(root, changes).len() ==> normal_path(
                #[trigger] needed_paths(root, changes)[i],
            ) != normal_path(#[trigger] needed_paths(root, changes)[j]),
{
    let named = named_paths(root, changes, changes.len() as int);
    let needed = needed_paths(root, changes);
    lemma_named_paths_are_normal(root, changes, changes.len() as int);
    lemma_distinct_paths(named, named.len() as int);
    assert forall|i: int| 0 <= i < needed.len() implies normal_path(#[trigger] needed[i])
        == needed[i] by {
        assert(needed.contains(needed[i]));
        let k = choose|k: int| 0 <= k < named.len() && #[trigger] named[k] == Some(needed[i]);
        assert(named[k] == Some(needed[i]));
    }
}

fn resolve_opt(root: &str, path: &Option<String>) -> (r: Option<String>)
    ensures
        r.deep_view() == match path.deep_view() {
            Some(p) => Some(resolved_path(root@, p)),
            None => None,
        },
{
    match path {
        Some(p) => Some(resolve_patch_path(root, p.as_str())),
        None => None,
    }
}

/// The files that are to be read before `changes` are applied, taken in
/// ascending order of the ids of the models.
pub fn files_to_read(project_root: &str, changes: &Vec<ModelChanges>) -> (r: Vec<String>)
    ensures
        r.deep_view() == needed_paths(project_root@, by_model(changes.deep_view())),
        r.deep_view().no_duplicates(),
        forall|i: int, j: int|
            0 <= i < j < r.len() ==> normal_path(#[trigger] r.deep_view()[i]) != normal_path(
                #[trigger] r.deep_view()[j],
            ),
{
    let ordered = crate::writeback::changes::sort_changes(changes);
    proof {
        lemma_files_to_read_are_distinct(project_root@, ordered.deep_view());
    }
    files_named(project_root, &ordered)
}

fn files_named(project_root: &str, changes: &Vec<ModelChanges>) -> (r: Vec<String>)
    ensures
        r.deep_view() == needed_paths(project_root@, changes.deep_view()),
        r.deep_view().no_duplicates(),
{
    let ghost root = project_root@;
    let ghost all = changes.deep_view();
    let mut keys: Vec<Option<String>> = Vec::new();
    assert(keys.deep_view() =~= named_paths(root, all, 0));
    let mut i: usize = 0;
    while i < changes.len()
        invariant
            i <= changes.len(),
            root == project_root@,
            all == changes.deep_view(),
            keys.deep_view() == named_paths(root, all, i as int),
        decreases changes.len() - i,
    {
        let member = &changes[i];
        let ghost before = keys.deep_view();
        let ghost list = member@.changes;
        let target = resolve_opt(project_root, &member.patch_path);
        keys.push(target);
        let ghost head = before + seq![target.deep_view()];
        assert(keys.deep_view() =~= head);
        assert(head + changes_paths(root, list, 0) =~= head);
        let mut c: usize = 0;
        while c < member.changes.len()
            invariant
                c <= member.changes.len(),
                root == project_root@,
                list == member@.changes,
                keys.deep_view() == head + changes_paths(root, list, c as int),
            decreases member.changes.len() - c,
        {
            let ghost so_far = keys.deep_view();
            match &member.changes[c] {
                ModelChange::MovePropertiesFile { patch_path, new_path, .. } => {
                    let origin = resolve_opt(project_root, patch_path);
                    let dest = Some(resolve_patch_path(project_root, new_path.as_str()));
                    keys.push(origin);
                    keys.push(dest);
                    assert(keys.deep_view() =~= so_far + seq![
                        origin.deep_view(),
                        dest.deep_view(),
                    ]);
                },
                _ => {
                    assert(so_far + Seq::<Option<Seq<char>>>::empty() =~= so_far);
                },
            }
            assert(keys.deep_view() =~= head + changes_paths(root, list, c + 1));
            c = c + 1;
        }
        assert(all[i as int] == member@);
        assert(keys.deep_view() =~= before + member_paths(root, member@));
        i = i + 1;
    }
    let ghost named = keys.deep_view();
    let mut paths: Vec<String> = Vec::new();
    assert(paths.deep_view() =~= distinct_paths(named, 0));
    let mut k: usize = 0;
    while k < keys.len()
        invariant
            k <= keys.len(),
            named == keys.deep_view(),
            paths.deep_view() == distinct_paths(named, k as int),
        decreases keys.len() - k,
    {
        match &keys[k] {
            Some(path) => {
                assert(named[k as int] == Some(path@));
                if !crate::lists::has_text(&paths, path) {
                    let ghost before = paths.deep_view();
                    paths.push(path.clone());
                    assert(paths.deep_view() =~= before.push(path@));
                }
            },
            None => {
                assert(named[k as int] is None);
            },
        }
        k = k + 1;
    }
    proof {
        lemma_distinct_paths(named, named.len() as int);
    }
    paths
}

/// Writing a document keeps the files of the store distinct, and brings
/// in no file but the one written.
pub proof fn lemma_write_keeps_distinct(
    store: Seq<SlotView>,
    documents: Seq<StoredDocumentView>,
    path: Seq<char>,
    document: PropertyFileView,
)
    requires
        slot_paths(store).no_duplicates(),
    ensures
        slot_paths(put(store, documents, path, document)).no_duplicates(),
        forall|p: Seq<char>|
            #![trigger slot_paths(put(store, documents, path, document)).contains(p)]
            slot_paths(put(store, documents, path, document)).contains(p) ==> slot_paths(
                store,
            ).contains(p) || p == path,
{
    let paths = slot_paths(store);
    lemma_position(paths, path);
    let after = put(store, documents, path, document);
    let now = slot_paths(after);
    if position(paths, path) < store.len() {
        assert(now =~= paths);
    } else {
        assert(now =~= paths.push(path));
        assert forall|i: int, j: int|
            0 <= i < now.len() && 0 <= j < now.len() && i != j implies now[i] != now[j] by {
            if i < paths.len() && j < paths.len() {
                assert(paths[i] != paths[j]);
            } else if i < paths.len() {
                assert(paths.contains(paths[i]));
            } else {
                assert(paths.contains(paths[j]));
            }
        }
        assert forall|p: Seq<char>| #![trigger now.contains(p)] now.contains(p) implies paths.contains(
            p,
        ) || p == path by {
            let at = choose|at: int| 0 <= at < now.len() && now[at] == p;
            if at < paths.len() {
                assert(paths[at] == p);
            }
        }
    }
}

/// The files that a step may touch.
pub open spec fn op_paths(op: OpView) -> Seq<Seq<char>> {
    match op {
        OpView::Target { path } => seq![path],
        OpView::Move { origin, dest, .. } => match origin {
            Some(from) => seq![from, dest],
            None => seq![dest],
        },
        _ => Seq::empty(),
    }
}

/// Whether the store holds distinct files, all of them among `allowed`,
/// as is the file that changes currently go to.
pub open spec fn within(state: StateView, allowed: Set<Seq<char>>) -> bool {
    &&& slot_paths(state.store).no_duplicates()
    &&& allowed.contains(state.current)
    &&& forall|p: Seq<char>|
        #![trigger slot_paths(state.store).contains(p)]
        slot_paths(state.store).contains(p) ==> allowed.contains(p)
}

/// A step touches no file but those it names.
pub proof fn lemma_op_stays_within(
    state: StateView,
    documents: Seq<StoredDocumentView>,
    op: OpView,
    allowed: Set<Seq<char>>,
)
    requires
        within(state, allowed),
        forall|i: int| 0 <= i < op_paths(op).len() ==> allowed.contains(#[trigger] op_paths(op)[i]),
    ensures
        apply_op(state, documents, op) matches Ok(next) ==> within(next, allowed),
{
    match op {
        OpView::Target { path } => {
            assert(op_paths(op)[0] == path);
        },
        OpView::Move { model_id, model_name, origin, dest } => {
            match origin {
                Some(from) => {
                    assert(op_paths(op)[0] == from);
                    assert(op_paths(op)[1] == dest);
                    if from != dest && crate::writeback::rust::document_at(
                        state.store,
                        documents,
                        from,
                    ).has_model(model_name) {
                        let source = crate::writeback::rust::document_at(state.store, documents, from);
                        let taken = put(
                            state.store,
                            documents,
                            from,
                            source.without_model(model_name),
                        );
                        lemma_write_keeps_distinct(
                            state.store,
                            documents,
                            from,
                            source.without_model(model_name),
                        );
                        let block = source.model_blocks()[source.model_position(
                            model_name,
                        )].named(model_name);
                        lemma_write_keeps_distinct(
                            taken,
                            documents,
                            dest,
                            crate::writeback::rust::document_at(taken, documents, dest).with_model(block),
                        );
                    }
                },
                None => {},
            }
        },
        OpView::Merge { model_name, property } => {
            lemma_write_keeps_distinct(
                state.store,
                documents,
                state.current,
                crate::writeback::rust::document_at(
                    state.store,
                    documents,
                    state.current,
                ).with_merged_model(model_name, property),
            );
        },
        OpView::Describe { model_id, model_name, column_name, new } => {
            lemma_write_keeps_distinct(
                state.store,
                documents,
                state.current,
                crate::writeback::rust::document_at(
                    state.store,
                    documents,
                    state.current,
                ).with_description(model_name, column_name, new),
            );
        },
        OpView::Refuse { .. } => {},
    }
}

/// Steps touch no file but those they name.
pub proof fn lemma_ops_stay_within(
    state: StateView,
    documents: Seq<StoredDocumentView>,
    ops: Seq<OpView>,
    n: int,
    allowed: Set<Seq<char>>,
)
    requires
        0 <= n <= ops.len(),
        within(state, allowed),
        forall|k: int, i: int|
            0 <= k < ops.len() && 0 <= i < op_paths(ops[k]).len() ==> allowed.contains(
                #[trigger] op_paths(ops[k])[i],
            ),
    ensures
        apply_ops(state, documents, ops, n) matches Ok(next) ==> within(next, allowed),
    decreases n,
{
    if n > 0 {
        lemma_ops_stay_within(state, documents, ops, n - 1, allowed);
        match apply_ops(state, documents, ops, n - 1) {
            Ok(before) => {
                assert forall|i: int| 0 <= i < op_paths(ops[n - 1]).len() implies allowed.contains(
                    #[trigger] op_paths(ops[n - 1])[i],
                ) by {}
                lemma_op_stays_within(before, documents, ops[n - 1], allowed);
            },
            Err(_) => {},
        }
    }
}

/// The files of the actions.
pub open spec fn action_paths(actions: Seq<FileActionView>) -> Seq<Seq<char>> {
    Seq::new(actions.len(), |i: int| actions[i].path())
}

/// A store of distinct files asks for at most one action on each file.
pub proof fn lemma_actions_distinct(store: Seq<SlotView>)
    requires
        slot_paths(store).no_duplicates(),
    ensures
        action_paths(actions_of(store)).no_duplicates(),
        actions_of(store).len() <= store.len(),
        forall|i: int|
            0 <= i < actions_of(store).len() ==> slot_paths(store).contains(
                #[trigger] action_paths(actions_of(store))[i],
            ),
    decreases store.len(),
{
    let candidates = Seq::new(store.len(), |i: int| action_of(store[i]));
    if store.len() > 0 {
        let rest = store.drop_last();
        let rest_candidates = Seq::new(rest.len(), |i: int| action_of(rest[i]));
        assert(candidates.drop_last() =~= rest_candidates);
        assert(slot_paths(rest) =~= slot_paths(store).drop_last());
        assert(slot_paths(rest).no_duplicates()) by {
            assert forall|i: int, j: int|
                0 <= i < rest.len() && 0 <= j < rest.len() && i != j implies slot_paths(rest)[i]
                != slot_paths(rest)[j] by {
                assert(slot_paths(store)[i] != slot_paths(store)[j]);
            }
        }
        lemma_actions_distinct(rest);
        let before = actions_of(rest);
        let now = actions_of(store);
        assert forall|i: int| 0 <= i < before.len() implies slot_paths(store).contains(
            #[trigger] action_paths(before)[i],
        ) by {
            let p = action_paths(before)[i];
            assert(slot_paths(rest).contains(p));
            let at = choose|at: int| 0 <= at < rest.len() && slot_paths(rest)[at] == p;
            assert(slot_paths(store)[at] == p);
        }
        match candidates.last() {
            Some(action) => {
                assert(now == before.push(action));
                let last = store.last();
                assert(action.path() == last.path);
                assert(slot_paths(store)[store.len() - 1] == last.path);
                assert forall|i: int| 0 <= i < before.len() implies action_paths(before)[i]
                    != last.path by {
                    let p = action_paths(before)[i];
                    assert(slot_paths(rest).contains(p));
                    let at = choose|at: int| 0 <= at < rest.len() && slot_paths(rest)[at] == p;
                    assert(slot_paths(store)[at] == p);
                    assert(slot_paths(store)[at] != slot_paths(store)[store.len() - 1]);
                }
                assert forall|i: int, j: int|
                    0 <= i < now.len() && 0 <= j < now.len() && i != j implies action_paths(
                    now,
                )[i] != action_paths(now)[j] by {
                    if i < before.len() && j < before.len() {
                        assert(action_paths(before)[i] != action_paths(before)[j]);
                    } else if i < before.len() {
                        assert(action_paths(now)[i] == action_paths(before)[i]);
                    } else {
                        assert(action_paths(now)[j] == action_paths(before)[j]);
                    }
                }
                assert forall|i: int| 0 <= i < now.len() implies slot_paths(store).contains(
                    #[trigger] action_paths(now)[i],
                ) by {
                    if i < before.len() {
                        assert(action_paths(now)[i] == action_paths(before)[i]);
                    }
                }
            },
            None => {
                assert(now == before);
            },
        }
    }
}

/// Whether every file that the groups may touch is among `allowed`.
pub open spec fn groups_within(
    root: Seq<char>,
    groups: Seq<FileGroupView>,
    allowed: Set<Seq<char>>,
) -> bool {
    forall|g: int|
        #![trigger groups[g]]
        0 <= g < groups.len() ==> allowed.contains(groups[g].path) && forall|k: int, i: int|
            0 <= k < group_ops(
                root,
                groups[g].path,
                groups[g].changes,
                groups[g].changes.len() as int,
            ).len() && 0 <= i < op_paths(
                group_ops(
                    root,
                    groups[g].path,
                    groups[g].changes,
                    groups[g].changes.len() as int,
                )[k],
            ).len() ==> allowed.contains(
                #[trigger] op_paths(
                    group_ops(
                        root,
                        groups[g].path,
                        groups[g].changes,
                        groups[g].changes.len() as int,
                    )[k],
                )[i],
            )
}

/// The store of the engine holds distinct files, all among `allowed`,
/// after any number of groups.
pub proof fn lemma_groups_stay_within(
    root: Seq<char>,
    documents: Seq<StoredDocumentView>,
    groups: Seq<FileGroupView>,
    n: int,
    allowed: Set<Seq<char>>,
)
    requires
        0 <= n <= groups.len(),
        groups_within(root, groups, allowed),
    ensures
        slot_paths(run_groups(root, documents, groups, n).store).no_duplicates(),
        forall|p: Seq<char>|
            #![trigger slot_paths(run_groups(root, documents, groups, n).store).contains(p)]
            slot_paths(run_groups(root, documents, groups, n).store).contains(p)
                ==> allowed.contains(p),
    decreases n,
{
    if n > 0 {
        lemma_groups_stay_within(root, documents, groups, n - 1, allowed);
        let before = run_groups(root, documents, groups, n - 1);
        let group = groups[n - 1];
        let ops = group_ops(root, group.path, group.changes, group.changes.len() as int);
        let start = StateView { store: before.store, current: group.path };
        assert(within(start, allowed));
        lemma_ops_stay_within(start, documents, ops, ops.len() as int, allowed);
    } else {
        assert(slot_paths(run_groups(root, documents, groups, n).store) =~= Seq::empty());
    }
}

/// Grouping correctness: the files to read are distinct, so each is read
/// once; the groups name distinct files; and the engine asks for at most
/// one action on each file.
pub proof fn lemma_one_read_and_one_write_per_file(
    root: Seq<char>,
    changes: Seq<ModelChangesView>,
    documents: Seq<StoredDocumentView>,
)
    ensures
        needed_paths(root, changes).no_duplicates(),
        Seq::new(
            resolved_groups(root, changes).len(),
            |g: int| resolved_groups(root, changes)[g].path,
        ).no_duplicates(),
        action_paths(written_back(root, changes, documents).actions).no_duplicates(),
{
    let named = named_paths(root, changes, changes.len() as int);
    lemma_distinct_paths(named, named.len() as int);
    let keys = resolved_targets(root, changes);
    lemma_group_paths(keys);
    let groups = resolved_groups(root, changes);
    assert(Seq::new(groups.len(), |g: int| groups[g].path) =~= group_paths(keys));
    let all = Set::<Seq<char>>::new(|p: Seq<char>| true);
    assert(groups_within(root, groups, all));
    lemma_groups_stay_within(root, documents, groups, groups.len() as int, all);
    lemma_actions_distinct(run_groups(root, documents, groups, groups.len() as int).store);
}

/// Whether every file of `paths` is among `allowed`.
pub open spec fn paths_allowed(paths: Seq<Option<Seq<char>>>, allowed: Set<Seq<char>>) -> bool {
    forall|i: int|
        0 <= i < paths.len() ==> (#[trigger] paths[i] matches Some(p) ==> allowed.contains(p))
}

/// Whether every file that a step may touch is among `allowed`.
pub open spec fn op_allowed(op: OpView, allowed: Set<Seq<char>>) -> bool {
    forall|i: int| 0 <= i < op_paths(op).len() ==> allowed.contains(#[trigger] op_paths(op)[i])
}

pub open spec fn ops_allowed(ops: Seq<OpView>, allowed: Set<Seq<char>>) -> bool {
    forall|k: int| 0 <= k < ops.len() ==> op_allowed(#[trigger] ops[k], allowed)
}

proof fn lemma_ops_allowed_concat(a: Seq<OpView>, b: Seq<OpView>, allowed: Set<Seq<char>>)
    requires
        ops_allowed(a, allowed),
        ops_allowed(b, allowed),
    ensures
        ops_allowed(a + b, allowed),
{
    assert forall|k: int| 0 <= k < (a + b).len() implies op_allowed(
        #[trigger] (a + b)[k],
        allowed,
    ) by {
        if k < a.len() {
            assert((a + b)[k] == a[k]);
        } else {
            assert((a + b)[k] == b[k - a.len()]);
        }
    }
}

proof fn lemma_paths_allowed_split(
    a: Seq<Option<Seq<char>>>,
    b: Seq<Option<Seq<char>>>,
    allowed: Set<Seq<char>>,
)
    requires
        paths_allowed(a + b, allowed),
    ensures
        paths_allowed(a, allowed),
        paths_allowed(b, allowed),
{
    assert forall|i: int| 0 <= i < a.len() implies (#[trigger] a[i] matches Some(p)
        ==> allowed.contains(p)) by {
        assert((a + b)[i] == a[i]);
    }
    assert forall|i: int| 0 <= i < b.len() implies (#[trigger] b[i] matches Some(p)
        ==> allowed.contains(p)) by {
        assert((a + b)[a.len() + i] == b[i]);
    }
}

proof fn lemma_change_ops_allowed(
    root: Seq<char>,
    changes: Seq<ModelChangeView>,
    n: int,
    allowed: Set<Seq<char>>,
)
    requires
        0 <= n <= changes.len(),
        paths_allowed(changes_paths(root, changes, n), allowed),
    ensures
        ops_allowed(crate::writeback::rust::changes_ops(root, changes, n), allowed),
    decreases n,
{
    if n > 0 {
        let before = changes_paths(root, changes, n - 1);
        let here = change_paths(root, changes[n - 1]);
        lemma_paths_allowed_split(before, here, allowed);
        lemma_change_ops_allowed(root, changes, n - 1, allowed);
        let ops = crate::writeback::rust::change_ops(root, changes[n - 1]);
        assert(ops_allowed(ops, allowed)) by {
            assert forall|k: int| 0 <= k < ops.len() implies op_allowed(
                #[trigger] ops[k],
                allowed,
            ) by {
                match changes[n - 1] {
                    ModelChangeView::MovePropertiesFile { patch_path, new_path, .. } => {
                        assert(here[1] == Some(resolved_path(root, new_path)));
                        match patch_path {
                            Some(p) => {
                                assert(here[0] == Some(resolved_path(root, p)));
                            },
                            None => {},
                        }
                    },
                    _ => {},
                }
            }
        }
        lemma_ops_allowed_concat(
            crate::writeback::rust::changes_ops(root, changes, n - 1),
            ops,
            allowed,
        );
    }
}

proof fn lemma_set_ops_allowed(
    changes: Seq<crate::change_descriptors::ColumnChangeView>,
    n: int,
    allowed: Set<Seq<char>>,
)
    requires
        0 <= n <= changes.len(),
    ensures
        ops_allowed(crate::writeback::rust::set_ops(changes, n), allowed),
    decreases n,
{
    if n > 0 {
        lemma_set_ops_allowed(changes, n - 1, allowed);
        let ops = crate::writeback::rust::column_change_ops(changes[n - 1]);
        assert(ops_allowed(ops, allowed));
        lemma_ops_allowed_concat(crate::writeback::rust::set_ops(changes, n - 1), ops, allowed);
    }
}

proof fn lemma_sets_ops_allowed(
    sets: Seq<crate::change_descriptors::ColumnChangeSetView>,
    n: int,
    allowed: Set<Seq<char>>,
)
    requires
        0 <= n <= sets.len(),
    ensures
        ops_allowed(crate::writeback::rust::sets_ops(sets, n), allowed),
    decreases n,
{
    if n > 0 {
        lemma_sets_ops_allowed(sets, n - 1, allowed);
        let list = sets[n - 1].changes;
        lemma_set_ops_allowed(list, list.len() as int, allowed);
        lemma_ops_allowed_concat(
            crate::writeback::rust::sets_ops(sets, n - 1),
            crate::writeback::rust::set_ops(list, list.len() as int),
            allowed,
        );
    }
}

proof fn lemma_member_ops_allowed(
    root: Seq<char>,
    path: Seq<char>,
    member: ModelChangesView,
    allowed: Set<Seq<char>>,
)
    requires
        allowed.contains(path),
        paths_allowed(member_paths(root, member), allowed),
    ensures
        ops_allowed(crate::writeback::rust::member_ops(root, path, member), allowed),
{
    let first = seq![
        match member.patch_path {
            Some(p) => Some(resolved_path(root, p)),
            None => None,
        },
    ];
    let moves = changes_paths(root, member.changes, member.changes.len() as int);
    lemma_paths_allowed_split(first, moves, allowed);
    lemma_change_ops_allowed(root, member.changes, member.changes.len() as int, allowed);
    lemma_sets_ops_allowed(member.column_changes, member.column_changes.len() as int, allowed);
    let head = seq![OpView::Target { path }];
    assert(ops_allowed(head, allowed)) by {
        assert forall|k: int| 0 <= k < head.len() implies op_allowed(
            #[trigger] head[k],
            allowed,
        ) by {
            assert(op_paths(head[k]) =~= seq![path]);
        }
    }
    let middle = crate::writeback::rust::changes_ops(
        root,
        member.changes,
        member.changes.len() as int,
    );
    lemma_ops_allowed_concat(head, middle, allowed);
    lemma_ops_allowed_concat(
        head + middle,
        crate::writeback::rust::sets_ops(
            member.column_changes,
            member.column_changes.len() as int,
        ),
        allowed,
    );
}

proof fn lemma_group_ops_allowed(
    root: Seq<char>,
    path: Seq<char>,
    group: Seq<ModelChangesView>,
    n: int,
    allowed: Set<Seq<char>>,
)
    requires
        0 <= n <= group.len(),
        allowed.contains(path),
        forall|k: int|
            0 <= k < group.len() ==> paths_allowed(
                member_paths(root, #[trigger] group[k]),
                allowed,
            ),
    ensures
        ops_allowed(group_ops(root, path, group, n), allowed),
    decreases n,
{
    if n > 0 {
        lemma_group_ops_allowed(root, path, group, n - 1, allowed);
        lemma_member_ops_allowed(root, path, group[n - 1], allowed);
        lemma_ops_allowed_concat(
            group_ops(root, path, group, n - 1),
            crate::writeback::rust::member_ops(root, path, group[n - 1]),
            allowed,
        );
    }
}

/// The files that the changes name, as a set.
pub open spec fn named_set(root: Seq<char>, changes: Seq<ModelChangesView>) -> Set<Seq<char>> {
    Set::new(
        |p: Seq<char>|
            named_paths(root, changes, changes.len() as int).contains(Some(p)),
    )
}

proof fn lemma_named_holds_members(
    root: Seq<char>,
    changes: Seq<ModelChangesView>,
    n: int,
    k: int,
    allowed: Set<Seq<char>>,
)
    requires
        0 <= k < n <= changes.len(),
        paths_allowed(named_paths(root, changes, n), allowed),
    ensures
        paths_allowed(member_paths(root, changes[k]), allowed),
    decreases n,
{
    let before = named_paths(root, changes, n - 1);
    let here = member_paths(root, changes[n - 1]);
    lemma_paths_allowed_split(before, here, allowed);
    if k < n - 1 {
        lemma_named_holds_members(root, changes, n - 1, k, allowed);
    }
}

proof fn lemma_members_in_range(keys: Seq<Option<Seq<char>>>, path: Seq<char>, n: int)
    requires
        0 <= n <= keys.len(),
    ensures
        forall|x: int|
            0 <= x < members(keys, path, n).len() ==> 0 <= #[trigger] members(keys, path, n)[x]
                < n,
    decreases n,
{
    if n > 0 {
        lemma_members_in_range(keys, path, n - 1);
        let before = members(keys, path, n - 1);
        assert forall|x: int| 0 <= x < members(keys, path, n).len() implies 0
            <= #[trigger] members(keys, path, n)[x] < n by {
            if x < before.len() {
                assert(members(keys, path, n)[x] == before[x]);
            }
        }
    }
}

/// Every file that the engine works on is one of the files to read, and
/// so is every file that it asks to write or remove: with K files to read,
/// there are at most K actions.
pub proof fn lemma_actions_within_reads(
    root: Seq<char>,
    changes: Seq<ModelChangesView>,
    documents: Seq<StoredDocumentView>,
)
    ensures
        forall|i: int|
            0 <= i < written_back(root, changes, documents).actions.len() ==> needed_paths(
                root,
                changes,
            ).contains(
                #[trigger] action_paths(written_back(root, changes, documents).actions)[i],
            ),
        written_back(root, changes, documents).actions.len() <= needed_paths(
            root,
            changes,
        ).len(),
{
    let named = named_paths(root, changes, changes.len() as int);
    let needed = needed_paths(root, changes);
    lemma_distinct_paths(named, named.len() as int);
    let allowed = named_set(root, changes);
    assert(paths_allowed(named, allowed)) by {
        assert forall|i: int| 0 <= i < named.len() implies (#[trigger] named[i] matches Some(p)
            ==> allowed.contains(p)) by {
            if named[i] is Some {
                assert(named.contains(named[i]));
            }
        }
    }
    let keys = resolved_targets(root, changes);
    lemma_group_paths(keys);
    let groups = resolved_groups(root, changes);
    let listed = group_paths(keys);
    assert forall|g: int| #![trigger groups[g]] 0 <= g < groups.len() implies allowed.contains(
        groups[g].path,
    ) && ops_allowed(
        group_ops(root, groups[g].path, groups[g].changes, groups[g].changes.len() as int),
        allowed,
    ) by {
        let path = groups[g].path;
        assert(path == listed[g]);
        assert(listed.contains(path));
        let k = choose|k: int| 0 <= k < keys.len() && #[trigger] keys[k] == Some(path);
        lemma_named_holds_members(root, changes, changes.len() as int, k, allowed);
        assert(member_paths(root, changes[k])[0] == keys[k]);
        assert(allowed.contains(path));
        let at = members(keys, path, keys.len() as int);
        lemma_members_in_range(keys, path, keys.len() as int);
        let group = groups[g].changes;
        assert forall|x: int| 0 <= x < group.len() implies paths_allowed(
            member_paths(root, #[trigger] group[x]),
            allowed,
        ) by {
            assert(0 <= at[x] < changes.len());
            assert(group[x] == changes[at[x]]);
            lemma_named_holds_members(root, changes, changes.len() as int, at[x], allowed);
        }
        lemma_group_ops_allowed(root, path, group, group.len() as int, allowed);
    }
    assert(groups_within(root, groups, allowed)) by {
        assert forall|g: int| #![trigger groups[g]] 0 <= g < groups.len() implies allowed.contains(
            groups[g].path,
        ) && forall|k: int, i: int|
            0 <= k < group_ops(
                root,
                groups[g].path,
                groups[g].changes,
                groups[g].changes.len() as int,
            ).len() && 0 <= i < op_paths(
                group_ops(
                    root,
                    groups[g].path,
                    groups[g].changes,
                    groups[g].changes.len() as int,
                )[k],
            ).len() ==> allowed.contains(
                #[trigger] op_paths(
                    group_ops(
                        root,
                        groups[g].path,
                        groups[g].changes,
                        groups[g].changes.len() as int,
                    )[k],
                )[i],
            ) by {
            let ops = group_ops(
                root,
                groups[g].path,
                groups[g].changes,
                groups[g].changes.len() as int,
            );
            assert(ops_allowed(ops, allowed));
            assert forall|k: int, i: int|
                0 <= k < ops.len() && 0 <= i < op_paths(ops[k]).len() implies allowed.contains(
                #[trigger] op_paths(ops[k])[i],
            ) by {
                assert(op_allowed(ops[k], allowed));
            }
        }
    }
    lemma_groups_stay_within(root, documents, groups, groups.len() as int, allowed);
    let store = run_groups(root, documents, groups, groups.len() as int).store;
    lemma_actions_distinct(store);
    let actions = written_back(root, changes, documents).actions;
    let paths = action_paths(actions);
    assert forall|i: int| 0 <= i < actions.len() implies needed.contains(#[trigger] paths[i]) by {
        assert(slot_paths(store).contains(paths[i]));
        assert(allowed.contains(paths[i]));
        let at = choose|at: int| 0 <= at < named.len() && named[at] == Some(paths[i]);
        assert(named[at] == Some(paths[i]));
    }
    paths.unique_seq_to_set();
    needed.unique_seq_to_set();
    assert(paths.to_set().subset_of(needed.to_set())) by {
        assert forall|p: Seq<char>| paths.to_set().contains(p) implies needed.to_set().contains(
            p,
        ) by {
            let i = choose|i: int| 0 <= i < paths.len() && paths[i] == p;
            assert(needed.contains(paths[i]));
        }
    }
    vstd::set_lib::lemma_len_subset(paths.to_set(), needed.to_set());
}

/// The file that the changes of a model target, resolved against `root`.
pub open spec fn target_of(root: Seq<char>, member: ModelChangesView) -> Option<Seq<char>> {
    match member.patch_path {
        Some(p) => Some(resolved_path(root, p)),
        None => None,
    }
}

/// The paths, each as its components give it.
pub open spec fn normal_paths(paths: Seq<Seq<char>>) -> Seq<Seq<char>> {
    Seq::new(paths.len(), |i: int| normal_path(paths[i]))
}

/// Whether one of `paths` is among the files that could not be read.
pub open spec fn names_one_of(paths: Seq<Option<Seq<char>>>, unreadable: Seq<Seq<char>>) -> bool {
    exists|j: int|
        0 <= j < paths.len() && ((#[trigger] paths[j]) matches Some(p) && unreadable.contains(p))
}

/// Whether the group of `member` is to be abandoned: a change with the
/// same target names a file that could not be read.
pub open spec fn group_is_blocked(
    root: Seq<char>,
    changes: Seq<ModelChangesView>,
    unreadable: Seq<Seq<char>>,
    member: ModelChangesView,
) -> bool {
    exists|k: int|
        0 <= k < changes.len() && target_of(root, #[trigger] changes[k]) == target_of(
            root,
            member,
        ) && names_one_of(member_paths(root, changes[k]), unreadable)
}

pub open spec fn workable(
    root: Seq<char>,
    changes: Seq<ModelChangesView>,
    unreadable: Seq<Seq<char>>,
) -> spec_fn(ModelChangesView) -> bool {
    |member: ModelChangesView| !group_is_blocked(root, changes, unreadable, member)
}

fn paths_of_member(project_root: &str, member: &ModelChanges) -> (r: Vec<Option<String>>)
    ensures
        r.deep_view() == member_paths(project_root@, member@),
{
    let ghost root = project_root@;
    let ghost list = member@.changes;
    let mut keys: Vec<Option<String>> = Vec::new();
    let target = resolve_opt(project_root, &member.patch_path);
    keys.push(target);
    let ghost head = seq![target.deep_view()];
    assert(keys.deep_view() =~= head);
    assert(head + changes_paths(root, list, 0) =~= head);
    let mut c: usize = 0;
    while c < member.changes.len()
        invariant
            c <= member.changes.len(),
            root == project_root@,
            list == member@.changes,
            keys.deep_view() == head + changes_paths(root, list, c as int),
        decreases member.changes.len() - c,
    {
        let ghost so_far = keys.deep_view();
        match &member.changes[c] {
            ModelChange::MovePropertiesFile { patch_path, new_path, .. } => {
                let origin = resolve_opt(project_root, patch_path);
                let dest = Some(resolve_patch_path(project_root, new_path.as_str()));
                keys.push(origin);
                keys.push(dest);
                assert(keys.deep_view() =~= so_far + seq![origin.deep_view(), dest.deep_view()]);
            },
            _ => {
                assert(so_far + Seq::<Option<Seq<char>>>::empty() =~= so_far);
            },
        }
        assert(keys.deep_view() =~= head + changes_paths(root, list, c + 1));
        c = c + 1;
    }
    keys
}

fn names_unreadable(paths: &Vec<Option<String>>, unreadable: &Vec<String>) -> (r: bool)
    ensures
        r == names_one_of(paths.deep_view(), unreadable.deep_view()),
{
    let ghost all = paths.deep_view();
    let mut j: usize = 0;
    while j < paths.len()
        invariant
            j <= paths.len(),
            all == paths.deep_view(),
            forall|x: int|
                0 <= x < j ==> !((#[trigger] all[x]) matches Some(p)
                    && unreadable.deep_view().contains(p)),
        decreases paths.len() - j,
    {
        match &paths[j] {
            Some(p) => {
                assert(all[j as int] == Some(p@));
                if crate::lists::has_text(unreadable, p) {
                    return true;
                }
            },
            None => {
                assert(all[j as int] is None);
            },
        }
        j = j + 1;
    }
    false
}

/// The changes that can be worked on when the files `unreadable` could not
/// be read: a group of changes with one target is abandoned as a whole
/// when one of its changes names such a file, in whatever spelling; the
/// other groups stay, in their order.
pub fn readable_changes(
    project_root: &str,
    changes: &Vec<ModelChanges>,
    unreadable: &Vec<String>,
) -> (r: Vec<ModelChanges>)
    ensures
        r.deep_view() == changes.deep_view().filter(
            workable(project_root@, changes.deep_view(), normal_paths(unreadable.deep_view())),
        ),
{
    let mut files: Vec<String> = Vec::new();
    let mut i: usize = 0;
    while i < unreadable.len()
        invariant
            i <= unreadable.len(),
            files.len() == i,
            forall|j: int| 0 <= j < i ==> (#[trigger] files@[j])@ == normal_path(unreadable@[j]@),
        decreases unreadable.len() - i,
    {
        files.push(crate::text::normalize_path(unreadable[i].as_str()));
        i = i + 1;
    }
    assert(files.deep_view() =~= normal_paths(unreadable.deep_view()));
    changes_beside(project_root, changes, &files)
}

fn changes_beside(
    project_root: &str,
    changes: &Vec<ModelChanges>,
    unreadable: &Vec<String>,
) -> (r: Vec<ModelChanges>)
    ensures
        r.deep_view() == changes.deep_view().filter(
            workable(project_root@, changes.deep_view(), unreadable.deep_view()),
        ),
{
    let ghost root = project_root@;
    let ghost all = changes.deep_view();
    let ghost bad = unreadable.deep_view();
    let ghost keep = workable(root, all, bad);
    let mut targets: Vec<Option<String>> = Vec::new();
    let mut flags: Vec<bool> = Vec::new();
    let mut i: usize = 0;
    while i < changes.len()
        invariant
            i <= changes.len(),
            root == project_root@,
            all == changes.deep_view(),
            bad == unreadable.deep_view(),
            targets.len() == i,
            flags.len() == i,
            forall|k: int|
                0 <= k < i ==> (#[trigger] targets@[k]).deep_view() == target_of(root, all[k]),
            forall|k: int|
                0 <= k < i ==> #[trigger] flags@[k] == names_one_of(
                    member_paths(root, all[k]),
                    bad,
                ),
        decreases changes.len() - i,
    {
        assert(all[i as int] == changes@[i as int]@);
        targets.push(resolve_opt(project_root, &changes[i].patch_path));
        let paths = paths_of_member(project_root, &changes[i]);
        flags.push(names_unreadable(&paths, unreadable));
        i = i + 1;
    }
    let mut out: Vec<ModelChanges> = Vec::new();
    let mut m: usize = 0;
    assert(all.take(0).filter(keep) =~= Seq::empty()) by {
        reveal(Seq::filter);
    }
    while m < changes.len()
        invariant
            m <= changes.len(),
            root == project_root@,
            all == changes.deep_view(),
            bad == unreadable.deep_view(),
            keep == workable(root, all, bad),
            targets.len() == changes.len(),
            flags.len() == changes.len(),
            forall|k: int|
                0 <= k < changes.len() ==> (#[trigger] targets@[k]).deep_view() == target_of(
                    root,
                    all[k],
                ),
            forall|k: int|
                0 <= k < changes.len() ==> #[trigger] flags@[k] == names_one_of(
                    member_paths(root, all[k]),
                    bad,
                ),
            out.deep_view() == all.take(m as int).filter(keep),
        decreases changes.len() - m,
    {
        assert(all[m as int] == changes@[m as int]@);
        let mut blocked = false;
        let mut k: usize = 0;
        while k < changes.len() && !blocked
            invariant
                k <= changes.len(),
                m < changes.len(),
                all == changes.deep_view(),
                targets.len() == changes.len(),
                flags.len() == changes.len(),
                forall|x: int|
                    0 <= x < changes.len() ==> (#[trigger] targets@[x]).deep_view() == target_of(
                        root,
                        all[x],
                    ),
                forall|x: int|
                    0 <= x < changes.len() ==> #[trigger] flags@[x] == names_one_of(
                        member_paths(root, all[x]),
                        bad,
                    ),
                blocked ==> group_is_blocked(root, all, bad, all[m as int]),
                !blocked ==> forall|x: int|
                    0 <= x < k ==> !(target_of(root, #[trigger] all[x]) == target_of(
                        root,
                        all[m as int],
                    ) && names_one_of(member_paths(root, all[x]), bad)),
            decreases changes.len() - k + if blocked { 0int } else { 1int },
        {
            assert(targets@[k as int].deep_view() == target_of(root, all[k as int]));
            assert(targets@[m as int].deep_view() == target_of(root, all[m as int]));
            if flags[k] && crate::writeback::properties::same_opt_text(&targets[k], &targets[m]) {
                assert(target_of(root, all[k as int]) == target_of(root, all[m as int])
                    && names_one_of(member_paths(root, all[k as int]), bad));
                blocked = true;
            } else {
                k = k + 1;
            }
        }
        proof {
            crate::lists::lemma_filter_step(all, keep, m as int);
        }
        if !blocked {
            let ghost before = out.deep_view();
            out.push(changes[m].duplicate());
            assert(out.deep_view() =~= before.push(all[m as int]));
        }
        m = m + 1;
    }
    assert(all.take(changes.len() as int) =~= all);
    out
}

/// The files that the engine asks to write or remove are distinct files,
/// not only distinct texts: no two of them have the same components.
pub proof fn lemma_actions_are_on_distinct_files(
    root: Seq<char>,
    changes: Seq<ModelChangesView>,
    documents: Seq<StoredDocumentView>,
)
    ensures
        forall|i: int, j: int|
            0 <= i < j < written_back(root, changes, documents).actions.len() ==> normal_path(
                #[trigger] action_paths(written_back(root, changes, documents).actions)[i],
            ) != normal_path(
                #[trigger] action_paths(written_back(root, changes, documents).actions)[j],
            ),
{
    let actions = written_back(root, changes, documents).actions;
    let paths = action_paths(actions);
    let needed = needed_paths(root, changes);
    lemma_one_read_and_one_write_per_file(root, changes, documents);
    lemma_actions_within_reads(root, changes, documents);
    lemma_files_to_read_are_distinct(root, changes);
    assert forall|i: int, j: int| 0 <= i < j < actions.len() implies normal_path(
        #[trigger] paths[i],
    ) != normal_path(#[trigger] paths[j]) by {
        assert(needed.contains(paths[i]));
        assert(needed.contains(paths[j]));
        let a = choose|a: int| 0 <= a < needed.len() && needed[a] == paths[i];
        let b = choose|b: int| 0 <= b < needed.len() && needed[b] == paths[j];
        assert(normal_path(needed[a]) == needed[a]);
        assert(normal_path(needed[b]) == needed[b]);
        assert(paths[i] != paths[j]);
    }
}

} // verus!
