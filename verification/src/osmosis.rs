//! Propagation of column descriptions: a column without a description
//! inherits one from the direct dependencies of its node. A fix that was
//! already finalized for a dependency in this run wins over what the
//! dependency has in the node set.

use vstd::prelude::*;
use crate::text::position;
use crate::text::lemma_position_is;
use crate::text::first_some;
use crate::text::lemma_first_some_is;
use crate::text::is_blank_or_marker;
use crate::text::text_is_blank_or_marker;
use crate::config::Config;
use crate::config::ConfigView;
use crate::manifest::Manifest;
use crate::manifest::ManifestView;
use crate::manifest::NodeKind;
use crate::manifest::Column;
use crate::manifest::ColumnView;
use crate::manifest::DocView;
use crate::manifest::Doc;
use crate::manifest::column_named;
use crate::manifest::find_column_by_name;
use crate::change_descriptors::ModelChanges;
use crate::change_descriptors::ModelChangesView;
use crate::change_descriptors::ModelChange;
use crate::change_descriptors::ModelChangeView;
use crate::change_descriptors::ColumnChange;
use crate::change_descriptors::ColumnChangeView;
use crate::writeback::properties::ModelProperty;
use crate::writeback::properties::ModelPropertyView;
use crate::writeback::properties::column_names;
use crate::writeback::properties::find_column;

verus! {

/// The ids of the nodes whose changes are finalized, in the order in which
/// they were finalized.
pub open spec fn finalized_ids(finalized: Seq<ModelChangesView>) -> Seq<Seq<char>> {
    Seq::new(finalized.len(), |i: int| finalized[i].model_id)
}

/// The finalized changes of the node `id`.
pub open spec fn changes_of(finalized: Seq<ModelChangesView>, id: Seq<char>) -> Option<
    ModelChangesView,
> {
    if position(finalized_ids(finalized), id) < finalized.len() {
        Some(finalized[position(finalized_ids(finalized), id)])
    } else {
        None
    }
}

/// The description that a property payload gives to the column `column`.
pub open spec fn payload_column_description(
    property: Option<ModelPropertyView>,
    column: Seq<char>,
) -> Option<Seq<char>> {
    match property {
        Some(p) => {
            if position(column_names(p.columns), column) < p.columns.len() {
                p.columns[position(column_names(p.columns), column)].description
            } else {
                None
            }
        },
        None => None,
    }
}

pub open spec fn payload_candidate(change: ModelChangeView, column: Seq<char>) -> Option<
    Seq<char>,
> {
    match change {
        ModelChangeView::ChangePropertiesFile { property, .. } => payload_column_description(
            property,
            column,
        ),
        _ => None,
    }
}

/// The description that the first property payload among `changes` gives
/// to the column `column`.
pub open spec fn payload_description(changes: Seq<ModelChangeView>, column: Seq<char>) -> Option<
    Seq<char>,
> {
    first_some(Seq::new(changes.len(), |i: int| payload_candidate(changes[i], column)))
}

/// The new description that one column change stands for: the one it
/// carries, or the one in the property payload of its node.
pub open spec fn new_value(
    change: ColumnChangeView,
    entry: ModelChangesView,
    column: Seq<char>,
) -> Option<Seq<char>> {
    match change {
        ColumnChangeView::DescriptionChanged { new, .. } => new,
        ColumnChangeView::ChangePropertiesFile => payload_description(entry.changes, column),
    }
}

/// The finalized description of a column of the node `upstream`: the new
/// value of the first change recorded for that column that has one.
pub open spec fn finalized_description(
    finalized: Seq<ModelChangesView>,
    upstream: Seq<char>,
    column: Seq<char>,
) -> Option<Seq<char>> {
    match changes_of(finalized, upstream) {
        Some(entry) => match entry.column_changes_for(column) {
            Some(set) => first_some(
                Seq::new(set.len(), |i: int| new_value(set[i], entry, column)),
            ),
            None => None,
        },
        None => None,
    }
}

/// The finalized changes of the node `id`.
pub fn find_changes<'a>(finalized: &'a Vec<ModelChanges>, id: &String) -> (r: Option<
    &'a ModelChanges,
>)
    ensures
        r.deep_view() == changes_of(finalized.deep_view(), id@),
{
    let ghost ids = finalized_ids(finalized.deep_view());
    let mut i: usize = 0;
    while i < finalized.len()
        invariant
            i <= finalized.len(),
            ids == finalized_ids(finalized.deep_view()),
            forall|j: int| 0 <= j < i ==> #[trigger] ids[j] != id@,
        decreases finalized.len() - i,
    {
        if finalized[i].model_id == *id {
            proof {
                lemma_position_is(ids, id@, i as int);
            }
            return Some(&finalized[i]);
        }
        i = i + 1;
    }
    proof {
        lemma_position_is(ids, id@, i as int);
    }
    None
}

fn payload_column(property: &Option<ModelProperty>, column: &String) -> (r: Option<String>)
    ensures
        r.deep_view() == payload_column_description(property.deep_view(), column@),
{
    match property {
        Some(p) => match find_column(&p.columns, column) {
            Some(at) => match &p.columns[at].description {
                Some(d) => Some(d.clone()),
                None => None,
            },
            None => None,
        },
        None => None,
    }
}

fn payload_lookup(changes: &Vec<ModelChange>, column: &String) -> (r: Option<String>)
    ensures
        r.deep_view() == payload_description(changes.deep_view(), column@),
{
    let ghost candidates = Seq::new(
        changes.deep_view().len(),
        |i: int| payload_candidate(changes.deep_view()[i], column@),
    );
    let mut i: usize = 0;
    while i < changes.len()
        invariant
            i <= changes.len(),
            candidates == Seq::new(
                changes.deep_view().len(),
                |i: int| payload_candidate(changes.deep_view()[i], column@),
            ),
            forall|j: int| 0 <= j < i ==> (#[trigger] candidates[j]) is None,
        decreases changes.len() - i,
    {
        let found = match &changes[i] {
            ModelChange::ChangePropertiesFile { property, .. } => payload_column(property, column),
            _ => None,
        };
        assert(found.deep_view() == candidates[i as int]);
        if found.is_some() {
            proof {
                lemma_first_some_is(candidates, i as int);
            }
            return found;
        }
        i = i + 1;
    }
    proof {
        lemma_first_some_is(candidates, i as int);
    }
    None
}

/// The finalized description of the column `col_name` of the node
/// `upstream_id`, if a change with a new value is recorded for it.
#[verifier::loop_isolation(false)]
pub fn lookup_model_change_description(
    model_changes: &Vec<ModelChanges>,
    upstream_id: &str,
    col_name: &str,
) -> (r: Option<String>)
    ensures
        r.deep_view() == finalized_description(
            model_changes.deep_view(),
            upstream_id@,
            col_name@,
        ),
{
    let column = col_name.to_owned();
    let entry = match find_changes(model_changes, &upstream_id.to_owned()) {
        Some(entry) => entry,
        None => {
            return None;
        },
    };
    let set = match entry.column_changes_for(col_name) {
        Some(set) => set,
        None => {
            return None;
        },
    };
    let ghost candidates = Seq::new(
        set.deep_view().len(),
        |i: int| new_value(set.deep_view()[i], entry@, col_name@),
    );
    let mut i: usize = 0;
    while i < set.len()
        invariant
            i <= set.len(),
            column@ == col_name@,
            candidates == Seq::new(
                set.deep_view().len(),
                |i: int| new_value(set.deep_view()[i], entry@, col_name@),
            ),
            forall|j: int| 0 <= j < i ==> (#[trigger] candidates[j]) is None,
        decreases set.len() - i,
    {
        let found = match &set[i] {
            ColumnChange::DescriptionChanged { new, .. } => match new {
                Some(text) => Some(text.clone()),
                None => None,
            },
            ColumnChange::ChangePropertiesFile => payload_lookup(&entry.changes, &column),
        };
        assert(found.deep_view() == candidates[i as int]);
        if found.is_some() {
            proof {
                lemma_first_some_is(candidates, i as int);
            }
            return found;
        }
        i = i + 1;
    }
    proof {
        lemma_first_some_is(candidates, i as int);
    }
    None
}

/// The column `column` as the node set has it for the dependency `dep`:
/// the column of the node, if that is a model, seed or snapshot that has
/// one of this name; else the column of the source table of that id.
pub open spec fn static_column(m: ManifestView, dep: Seq<char>, column: Seq<char>) -> Option<
    ColumnView,
> {
    let of_node = match m.node(dep) {
        Some(n) => if n.is_column_provider() {
            column_named(n.columns, column)
        } else {
            None
        },
        None => None,
    };
    if of_node is Some {
        of_node
    } else {
        match m.source(dep) {
            Some(s) => column_named(s.columns, column),
            None => None,
        }
    }
}

/// The description of that column, if it has one that is neither blank nor
/// an invalid marker.
pub open spec fn static_description(
    m: ManifestView,
    dep: Seq<char>,
    column: Seq<char>,
    markers: Seq<Seq<char>>,
) -> Option<Seq<char>> {
    match static_column(m, dep, column) {
        Some(c) => match c.description {
            Some(text) => if is_blank_or_marker(text, markers) {
                None
            } else {
                Some(text)
            },
            None => None,
        },
        None => None,
    }
}

/// The first finalized description among the dependencies, in declared order.
pub open spec fn finalized_pass(
    finalized: Seq<ModelChangesView>,
    deps: Seq<Seq<char>>,
    column: Seq<char>,
) -> Option<Seq<char>> {
    first_some(Seq::new(deps.len(), |i: int| finalized_description(finalized, deps[i], column)))
}

/// The first valid description that the node set has among the
/// dependencies, in declared order.
pub open spec fn static_pass(
    m: ManifestView,
    deps: Seq<Seq<char>>,
    column: Seq<char>,
    markers: Seq<Seq<char>>,
) -> Option<Seq<char>> {
    first_some(Seq::new(deps.len(), |i: int| static_description(m, deps[i], column, markers)))
}

/// The token that refers to the documentation block `name`.
pub open spec fn doc_token(name: Seq<char>) -> Seq<char> {
    "{{doc('"@ + name + "')}}"@
}

pub open spec fn doc_candidate(doc: DocView, text: Seq<char>) -> Option<Seq<char>> {
    if doc.block_contents == text {
        Some(doc_token(doc.name))
    } else {
        None
    }
}

/// The token for the first documentation block whose text is exactly `text`.
pub open spec fn doc_reference(docs: Seq<DocView>, text: Seq<char>) -> Option<Seq<char>> {
    first_some(Seq::new(docs.len(), |i: int| doc_candidate(docs[i], text)))
}

/// How a description from the node set is written: verbatim, or as a
/// reference to a documentation block of the same text where one exists.
pub open spec fn rendered(docs: Seq<DocView>, text: Seq<char>, verbatim: bool) -> Seq<char> {
    if verbatim {
        text
    } else {
        match doc_reference(docs, text) {
            Some(token) => token,
            None => text,
        }
    }
}

/// The description that the column `column` of the node `node_id` inherits.
/// Only models inherit. A finalized description of a dependency is taken
/// as it is; one from the node set is rendered.
pub open spec fn upstream_description(
    m: ManifestView,
    finalized: Seq<ModelChangesView>,
    node_id: Seq<char>,
    column: Seq<char>,
    config: ConfigView,
) -> Option<Seq<char>> {
    match m.node(node_id) {
        Some(n) => if n.kind == NodeKind::Model {
            match finalized_pass(finalized, n.depends_on, column) {
                Some(text) => Some(text),
                None => match static_pass(
                    m,
                    n.depends_on,
                    column,
                    config.invalid_descriptions,
                ) {
                    Some(text) => Some(rendered(m.docs, text, config.render_descriptions)),
                    None => None,
                },
            }
        } else {
            None
        },
        None => None,
    }
}

/// What is finalized when nothing was handed over.
pub open spec fn finalized_view(model_changes: Option<&Vec<ModelChanges>>) -> Seq<
    ModelChangesView,
> {
    match model_changes {
        Some(list) => list.deep_view(),
        None => Seq::empty(),
    }
}

fn lookup_static_column<'a>(manifest: &'a Manifest, dep: &String, column: &String) -> (r: Option<
    &'a Column,
>)
    ensures
        r.deep_view() == static_column(manifest@, dep@, column@),
{
    let of_node = match manifest.node(dep) {
        Some(n) => if n.is_column_provider() {
            find_column_by_name(&n.columns, column)
        } else {
            None
        },
        None => None,
    };
    if of_node.is_some() {
        of_node
    } else {
        match manifest.source(dep) {
            Some(s) => find_column_by_name(&s.columns, column),
            None => None,
        }
    }
}

fn lookup_static_description(
    manifest: &Manifest,
    dep: &String,
    column: &String,
    markers: &Vec<String>,
) -> (r: Option<String>)
    ensures
        r.deep_view() == static_description(manifest@, dep@, column@, markers.deep_view()),
{
    match lookup_static_column(manifest, dep, column) {
        Some(c) => match &c.description {
            Some(text) => if text_is_blank_or_marker(text.as_str(), markers) {
                None
            } else {
                Some(text.clone())
            },
            None => None,
        },
        None => None,
    }
}

fn doc_token_for(doc: &Doc) -> (r: String)
    ensures
        r@ == doc_token(doc@.name),
{
    "{{doc('".to_owned().concat(doc.name.as_str()).concat("')}}")
}

fn find_doc_reference(docs: &Vec<Doc>, text: &String) -> (r: Option<String>)
    ensures
        r.deep_view() == doc_reference(docs.deep_view(), text@),
{
    let ghost candidates = Seq::new(
        docs.deep_view().len(),
        |i: int| doc_candidate(docs.deep_view()[i], text@),
    );
    let mut i: usize = 0;
    while i < docs.len()
        invariant
            i <= docs.len(),
            candidates == Seq::new(
                docs.deep_view().len(),
                |i: int| doc_candidate(docs.deep_view()[i], text@),
            ),
            forall|j: int| 0 <= j < i ==> (#[trigger] candidates[j]) is None,
        decreases docs.len() - i,
    {
        if docs[i].block_contents == *text {
            proof {
                lemma_first_some_is(candidates, i as int);
            }
            return Some(doc_token_for(&docs[i]));
        }
        assert(candidates[i as int] is None);
        i = i + 1;
    }
    proof {
        lemma_first_some_is(candidates, i as int);
    }
    None
}

/// Finds the description that a column inherits from the direct
/// dependencies of its node.
#[verifier::loop_isolation(false)]
pub fn get_upstream_col_desc(
    manifest: &Manifest,
    model_changes: Option<&Vec<ModelChanges>>,
    node_id: &str,
    col_name: &str,
    config: &Config,
) -> (r: Option<String>)
    ensures
        r.deep_view() == upstream_description(
            manifest@,
            finalized_view(model_changes),
            node_id@,
            col_name@,
            config@,
        ),
{
    let column = col_name.to_owned();
    let node = match manifest.node(&node_id.to_owned()) {
        Some(n) => n,
        None => {
            return None;
        },
    };
    match node.kind {
        NodeKind::Model => {},
        _ => {
            return None;
        },
    }
    let deps = &node.depends_on;
    let ghost finalized = finalized_view(model_changes);
    let ghost first = Seq::new(
        deps.deep_view().len(),
        |i: int| finalized_description(finalized, deps.deep_view()[i], col_name@),
    );
    match model_changes {
        Some(list) => {
            let mut i: usize = 0;
            while i < deps.len()
                invariant
                    i <= deps.len(),
                    finalized == list.deep_view(),
                    first == Seq::new(
                        deps.deep_view().len(),
                        |i: int| finalized_description(finalized, deps.deep_view()[i], col_name@),
                    ),
                    forall|j: int| 0 <= j < i ==> (#[trigger] first[j]) is None,
                decreases deps.len() - i,
            {
                let found = lookup_model_change_description(list, deps[i].as_str(), col_name);
                assert(found.deep_view() == first[i as int]);
                if found.is_some() {
                    proof {
                        lemma_first_some_is(first, i as int);
                    }
                    return found;
                }
                i = i + 1;
            }
            proof {
                lemma_first_some_is(first, i as int);
            }
        },
        None => {
            proof {
                assert forall|j: int| 0 <= j < first.len() implies (#[trigger] first[j])
                    is None by {
                    lemma_position_is(finalized_ids(finalized), deps.deep_view()[j], 0);
                }
                lemma_first_some_is(first, first.len() as int);
            }
        },
    }
    let ghost second = Seq::new(
        deps.deep_view().len(),
        |i: int|
            static_description(
                manifest@,
                deps.deep_view()[i],
                col_name@,
                config@.invalid_descriptions,
            ),
    );
    let mut found: Option<String> = None;
    let mut i: usize = 0;
    while i < deps.len() && found.is_none()
        invariant
            i <= deps.len(),
            column@ == col_name@,
            second == Seq::new(
                deps.deep_view().len(),
                |i: int|
                    static_description(
                        manifest@,
                        deps.deep_view()[i],
                        col_name@,
                        config@.invalid_descriptions,
                    ),
            ),
            found is None ==> forall|j: int| 0 <= j < i ==> (#[trigger] second[j]) is None,
            found is Some ==> found.deep_view() == first_some(second),
        decreases deps.len() - i + (if found is None { 1int } else { 0int }),
    {
        let here = lookup_static_description(
            manifest,
            &deps[i],
            &column,
            &config.invalid_descriptions,
        );
        assert(here.deep_view() == second[i as int]);
        if here.is_some() {
            proof {
                lemma_first_some_is(second, i as int);
            }
            found = here;
        } else {
            i = i + 1;
        }
    }
    match found {
        Some(text) => {
            if config.render_descriptions {
                Some(text)
            } else {
                match find_doc_reference(&manifest.docs, &text) {
                    Some(token) => Some(token),
                    None => Some(text),
                }
            }
        },
        None => {
            proof {
                lemma_first_some_is(second, i as int);
            }
            None
        },
    }
}

} // verus!
