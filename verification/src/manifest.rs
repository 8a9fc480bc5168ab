//! The node set that the rules read: models, seeds, snapshots, analyses and
//! tests, source tables, exposures and documentation blocks, with the map
//! from each node to the nodes that consume it. It is built once, outside
//! this library, and only read here.

use vstd::prelude::*;
use crate::text::position;
use crate::text::lemma_position_is;
use crate::text::clone_texts;
use crate::text::clone_opt_text;

verus! {

/// What a node of the graph is.
#[derive(Debug, Clone, Copy, PartialEq, Eq, Structural)]
pub enum NodeKind {
    Model,
    Seed,
    Snapshot,
    Analysis,
    Test,
    Other,
}

/// Who may refer to a model.
#[derive(Debug, Clone, Copy, PartialEq, Eq, Structural)]
pub enum Access {
    Private,
    Protected,
    Public,
}

/// How a model is built in the warehouse.
#[derive(Debug, Clone, Copy, PartialEq, Eq, Structural)]
pub enum Materialization {
    Table,
    Incremental,
    View,
    Ephemeral,
    Other,
}

/// A column of a node or source table.
#[derive(Debug, Clone, PartialEq, Eq)]
pub struct Column {
    pub name: String,
    pub description: Option<String>,
}

pub struct ColumnView {
    pub name: Seq<char>,
    pub description: Option<Seq<char>>,
}

impl View for Column {
    type V = ColumnView;

    open spec fn view(&self) -> ColumnView {
        ColumnView { name: self.name@, description: self.description.deep_view() }
    }
}

impl DeepView for Column {
    type V = ColumnView;

    open spec fn deep_view(&self) -> ColumnView {
        self@
    }
}

impl Column {
    pub fn new(name: &str, description: Option<&str>) -> (r: Column)
        ensures
            r@.name == name@,
            r@.description == description.deep_view(),
    {
        Column {
            name: name.to_owned(),
            description: match description {
                Some(d) => Some(d.to_owned()),
                None => None,
            },
        }
    }

    pub fn duplicate(&self) -> (r: Column)
        ensures
            r@ == self@,
    {
        Column { name: self.name.clone(), description: clone_opt_text(&self.description) }
    }
}

pub open spec fn names_of_columns(columns: Seq<ColumnView>) -> Seq<Seq<char>> {
    Seq::new(columns.len(), |i: int| columns[i].name)
}

/// The first of `columns` that is named `name`.
pub open spec fn column_named(columns: Seq<ColumnView>, name: Seq<char>) -> Option<ColumnView> {
    if position(names_of_columns(columns), name) < columns.len() {
        Some(columns[position(names_of_columns(columns), name)])
    } else {
        None
    }
}

pub fn find_column_by_name<'a>(columns: &'a Vec<Column>, name: &String) -> (r: Option<&'a Column>)
    ensures
        r.deep_view() == column_named(columns.deep_view(), name@),
{
    let ghost names = names_of_columns(columns.deep_view());
    let mut i: usize = 0;
    while i < columns.len()
        invariant
            i <= columns.len(),
            names == names_of_columns(columns.deep_view()),
            forall|j: int| 0 <= j < i ==> #[trigger] names[j] != name@,
        decreases columns.len() - i,
    {
        if columns[i].name == *name {
            proof {
                lemma_position_is(names, name@, i as int);
            }
            return Some(&columns[i]);
        }
        i = i + 1;
    }
    proof {
        lemma_position_is(names, name@, i as int);
    }
    None
}

/// A copy of a list of columns.
pub fn clone_columns(columns: &Vec<Column>) -> (r: Vec<Column>)
    ensures
        r.deep_view() == columns.deep_view(),
{
    let mut out: Vec<Column> = Vec::new();
    let mut i: usize = 0;
    while i < columns.len()
        invariant
            i <= columns.len(),
            out@.len() == i,
            forall|j: int| 0 <= j < i ==> (#[trigger] out@[j])@ == columns@[j]@,
        decreases columns.len() - i,
    {
        out.push(columns[i].duplicate());
        i = i + 1;
    }
    assert(out.deep_view() =~= columns.deep_view());
    out
}

pub fn clone_opt_texts(items: &Option<Vec<String>>) -> (r: Option<Vec<String>>)
    ensures
        r.deep_view() == items.deep_view(),
{
    match items {
        None => None,
        Some(list) => {
            let copy = clone_texts(list);
            assert(copy.deep_view() =~= list.deep_view());
            Some(copy)
        },
    }
}

/// A model, seed, snapshot, analysis or test.
#[derive(Debug, Clone, PartialEq, Eq)]
pub struct Node {
    pub unique_id: String,
    pub name: String,
    pub kind: NodeKind,
    pub description: Option<String>,
    pub tags: Option<Vec<String>>,
    /// The ids of the nodes and sources this node reads, in declared order.
    pub depends_on: Vec<String>,
    /// The file that documents the node, if it has one.
    pub patch_path: Option<String>,
    /// The file that defines the node.
    pub original_file_path: String,
    pub primary_key: Option<Vec<String>>,
    pub columns: Vec<Column>,
    pub access: Option<Access>,
    pub contract_enforced: bool,
    pub materialized: Option<Materialization>,
    /// For a test, the name of the generic test it instantiates.
    pub test_name: Option<String>,
    pub database: String,
    pub schema: String,
}

pub struct NodeView {
    pub unique_id: Seq<char>,
    pub name: Seq<char>,
    pub kind: NodeKind,
    pub description: Option<Seq<char>>,
    pub tags: Option<Seq<Seq<char>>>,
    pub depends_on: Seq<Seq<char>>,
    pub patch_path: Option<Seq<char>>,
    pub original_file_path: Seq<char>,
    pub primary_key: Option<Seq<Seq<char>>>,
    pub columns: Seq<ColumnView>,
    pub access: Option<Access>,
    pub contract_enforced: bool,
    pub materialized: Option<Materialization>,
    pub test_name: Option<Seq<char>>,
    pub database: Seq<char>,
    pub schema: Seq<char>,
}

impl View for Node {
    type V = NodeView;

    open spec fn view(&self) -> NodeView {
        NodeView {
            unique_id: self.unique_id@,
            name: self.name@,
            kind: self.kind,
            description: self.description.deep_view(),
            tags: self.tags.deep_view(),
            depends_on: self.depends_on.deep_view(),
            patch_path: self.patch_path.deep_view(),
            original_file_path: self.original_file_path@,
            primary_key: self.primary_key.deep_view(),
            columns: self.columns.deep_view(),
            access: self.access,
            contract_enforced: self.contract_enforced,
            materialized: self.materialized,
            test_name: self.test_name.deep_view(),
            database: self.database@,
            schema: self.schema@,
        }
    }
}

impl DeepView for Node {
    type V = NodeView;

    open spec fn deep_view(&self) -> NodeView {
        self@
    }
}

impl NodeView {
    /// A node of the given kind and id with nothing else set.
    pub open spec fn blank(kind: NodeKind, unique_id: Seq<char>) -> NodeView {
        NodeView {
            unique_id,
            name: Seq::empty(),
            kind,
            description: None,
            tags: None,
            depends_on: Seq::empty(),
            patch_path: None,
            original_file_path: Seq::empty(),
            primary_key: None,
            columns: Seq::empty(),
            access: None,
            contract_enforced: false,
            materialized: None,
            test_name: None,
            database: Seq::empty(),
            schema: Seq::empty(),
        }
    }

    /// Nodes of these kinds are evaluated in dependency order.
    pub open spec fn is_ordered_kind(self) -> bool {
        self.kind == NodeKind::Model || self.kind == NodeKind::Seed || self.kind
            == NodeKind::Snapshot || self.kind == NodeKind::Analysis
    }

    /// Nodes of these kinds carry columns that consumers can inherit from.
    pub open spec fn is_column_provider(self) -> bool {
        self.kind == NodeKind::Model || self.kind == NodeKind::Seed || self.kind
            == NodeKind::Snapshot
    }

    pub open spec fn column_names(self) -> Seq<Seq<char>> {
        Seq::new(self.columns.len(), |i: int| self.columns[i].name)
    }
}

impl Node {
    pub fn new(kind: NodeKind, unique_id: &str) -> (r: Node)
        ensures
            r@ == NodeView::blank(kind, unique_id@),
    {
        let r = Node {
            unique_id: unique_id.to_owned(),
            name: String::new(),
            kind,
            description: None,
            tags: None,
            depends_on: Vec::new(),
            patch_path: None,
            original_file_path: String::new(),
            primary_key: None,
            columns: Vec::new(),
            access: None,
            contract_enforced: false,
            materialized: None,
            test_name: None,
            database: String::new(),
            schema: String::new(),
        };
        assert(r@.depends_on =~= Seq::empty());
        assert(r@.columns =~= Seq::empty());
        r
    }

    pub fn duplicate(&self) -> (r: Node)
        ensures
            r@ == self@,
    {
        let depends_on = clone_texts(&self.depends_on);
        assert(depends_on.deep_view() =~= self.depends_on.deep_view());
        Node {
            unique_id: self.unique_id.clone(),
            name: self.name.clone(),
            kind: self.kind,
            description: clone_opt_text(&self.description),
            tags: clone_opt_texts(&self.tags),
            depends_on,
            patch_path: clone_opt_text(&self.patch_path),
            original_file_path: self.original_file_path.clone(),
            primary_key: clone_opt_texts(&self.primary_key),
            columns: clone_columns(&self.columns),
            access: self.access,
            contract_enforced: self.contract_enforced,
            materialized: self.materialized,
            test_name: clone_opt_text(&self.test_name),
            database: self.database.clone(),
            schema: self.schema.clone(),
        }
    }

    pub fn is_ordered_kind(&self) -> (r: bool)
        ensures
            r == self@.is_ordered_kind(),
    {
        match self.kind {
            NodeKind::Model => true,
            NodeKind::Seed => true,
            NodeKind::Snapshot => true,
            NodeKind::Analysis => true,
            _ => false,
        }
    }

    pub fn is_column_provider(&self) -> (r: bool)
        ensures
            r == self@.is_column_provider(),
    {
        match self.kind {
            NodeKind::Model => true,
            NodeKind::Seed => true,
            NodeKind::Snapshot => true,
            _ => false,
        }
    }
}

/// When a source's data counts as stale.
#[derive(Debug, Clone, Copy, PartialEq, Eq, Structural)]
pub enum FreshnessPeriod {
    Minute,
    Hour,
    Day,
}

#[derive(Debug, Clone, Copy, PartialEq, Eq, Structural)]
pub struct FreshnessRule {
    pub count: Option<i64>,
    pub period: Option<FreshnessPeriod>,
}

#[derive(Debug, Clone, Copy, PartialEq, Eq, Structural)]
pub struct Freshness {
    pub warn_after: Option<FreshnessRule>,
    pub error_after: Option<FreshnessRule>,
}

/// A table of a source.
#[derive(Debug, Clone, PartialEq, Eq)]
pub struct Source {
    pub unique_id: String,
    /// The table's declared name.
    pub name: String,
    /// The name of the source the table belongs to.
    pub source_name: String,
    /// The table's name in the warehouse.
    pub identifier: String,
    /// The table's description.
    pub description: Option<String>,
    /// The description of the source as a whole.
    pub source_description: String,
    pub patch_path: Option<String>,
    pub columns: Vec<Column>,
    pub freshness: Option<Freshness>,
}

pub struct SourceView {
    pub unique_id: Seq<char>,
    pub name: Seq<char>,
    pub source_name: Seq<char>,
    pub identifier: Seq<char>,
    pub description: Option<Seq<char>>,
    pub source_description: Seq<char>,
    pub patch_path: Option<Seq<char>>,
    pub columns: Seq<ColumnView>,
    pub freshness: Option<Freshness>,
}

impl View for Source {
    type V = SourceView;

    open spec fn view(&self) -> SourceView {
        SourceView {
            unique_id: self.unique_id@,
            name: self.name@,
            source_name: self.source_name@,
            identifier: self.identifier@,
            description: self.description.deep_view(),
            source_description: self.source_description@,
            patch_path: self.patch_path.deep_view(),
            columns: self.columns.deep_view(),
            freshness: self.freshness,
        }
    }
}

impl DeepView for Source {
    type V = SourceView;

    open spec fn deep_view(&self) -> SourceView {
        self@
    }
}

impl SourceView {
    pub open spec fn blank(unique_id: Seq<char>) -> SourceView {
        SourceView {
            unique_id,
            name: Seq::empty(),
            source_name: Seq::empty(),
            identifier: Seq::empty(),
            description: None,
            source_description: Seq::empty(),
            patch_path: None,
            columns: Seq::empty(),
            freshness: None,
        }
    }
}

impl Source {
    pub fn new(unique_id: &str) -> (r: Source)
        ensures
            r@ == SourceView::blank(unique_id@),
    {
        let r = Source {
            unique_id: unique_id.to_owned(),
            name: String::new(),
            source_name: String::new(),
            identifier: String::new(),
            description: None,
            source_description: String::new(),
            patch_path: None,
            columns: Vec::new(),
            freshness: None,
        };
        assert(r@.columns =~= Seq::empty());
        r
    }

    pub fn duplicate(&self) -> (r: Source)
        ensures
            r@ == self@,
    {
        Source {
            unique_id: self.unique_id.clone(),
            name: self.name.clone(),
            source_name: self.source_name.clone(),
            identifier: self.identifier.clone(),
            description: clone_opt_text(&self.description),
            source_description: self.source_description.clone(),
            patch_path: clone_opt_text(&self.patch_path),
            columns: clone_columns(&self.columns),
            freshness: self.freshness,
        }
    }
}

/// A downstream use of the project's data.
#[derive(Debug, Clone, PartialEq, Eq)]
pub struct Exposure {
    pub unique_id: String,
    pub depends_on: Vec<String>,
}

pub struct ExposureView {
    pub unique_id: Seq<char>,
    pub depends_on: Seq<Seq<char>>,
}

impl View for Exposure {
    type V = ExposureView;

    open spec fn view(&self) -> ExposureView {
        ExposureView { unique_id: self.unique_id@, depends_on: self.depends_on.deep_view() }
    }
}

impl DeepView for Exposure {
    type V = ExposureView;

    open spec fn deep_view(&self) -> ExposureView {
        self@
    }
}

/// A documentation block.
#[derive(Debug, Clone, PartialEq, Eq)]
pub struct Doc {
    pub unique_id: String,
    pub name: String,
    pub block_contents: String,
}

pub struct DocView {
    pub unique_id: Seq<char>,
    pub name: Seq<char>,
    pub block_contents: Seq<char>,
}

impl View for Doc {
    type V = DocView;

    open spec fn view(&self) -> DocView {
        DocView {
            unique_id: self.unique_id@,
            name: self.name@,
            block_contents: self.block_contents@,
        }
    }
}

impl DeepView for Doc {
    type V = DocView;

    open spec fn deep_view(&self) -> DocView {
        self@
    }
}

/// The consumers of one node or source.
#[derive(Debug, Clone, PartialEq, Eq)]
pub struct ChildEntry {
    pub parent: String,
    pub children: Vec<String>,
}

pub struct ChildEntryView {
    pub parent: Seq<char>,
    pub children: Seq<Seq<char>>,
}

impl View for ChildEntry {
    type V = ChildEntryView;

    open spec fn view(&self) -> ChildEntryView {
        ChildEntryView { parent: self.parent@, children: self.children.deep_view() }
    }
}

impl DeepView for ChildEntry {
    type V = ChildEntryView;

    open spec fn deep_view(&self) -> ChildEntryView {
        self@
    }
}

/// The whole node set.
#[derive(Debug, Clone, PartialEq, Eq)]
pub struct Manifest {
    pub nodes: Vec<Node>,
    pub sources: Vec<Source>,
    pub exposures: Vec<Exposure>,
    pub docs: Vec<Doc>,
    pub child_map: Vec<ChildEntry>,
}

pub struct ManifestView {
    pub nodes: Seq<NodeView>,
    pub sources: Seq<SourceView>,
    pub exposures: Seq<ExposureView>,
    pub docs: Seq<DocView>,
    pub child_map: Seq<ChildEntryView>,
}

impl View for Manifest {
    type V = ManifestView;

    open spec fn view(&self) -> ManifestView {
        ManifestView {
            nodes: self.nodes.deep_view(),
            sources: self.sources.deep_view(),
            exposures: self.exposures.deep_view(),
            docs: self.docs.deep_view(),
            child_map: self.child_map.deep_view(),
        }
    }
}

impl ManifestView {
    pub open spec fn node_ids(self) -> Seq<Seq<char>> {
        Seq::new(self.nodes.len(), |i: int| self.nodes[i].unique_id)
    }

    pub open spec fn source_ids(self) -> Seq<Seq<char>> {
        Seq::new(self.sources.len(), |i: int| self.sources[i].unique_id)
    }

    pub open spec fn parent_ids(self) -> Seq<Seq<char>> {
        Seq::new(self.child_map.len(), |i: int| self.child_map[i].parent)
    }

    /// Where the node with this id stands; the number of nodes if there is none.
    pub open spec fn node_position(self, id: Seq<char>) -> int {
        position(self.node_ids(), id)
    }

    /// The node with this id.
    pub open spec fn node(self, id: Seq<char>) -> Option<NodeView> {
        if self.node_position(id) < self.nodes.len() {
            Some(self.nodes[self.node_position(id)])
        } else {
            None
        }
    }

    /// The source table with this id.
    pub open spec fn source(self, id: Seq<char>) -> Option<SourceView> {
        if position(self.source_ids(), id) < self.sources.len() {
            Some(self.sources[position(self.source_ids(), id)])
        } else {
            None
        }
    }

    /// The recorded consumers of `id`, in recorded order; none when nothing
    /// is recorded for it.
    pub open spec fn children_of(self, id: Seq<char>) -> Seq<Seq<char>> {
        if position(self.parent_ids(), id) < self.child_map.len() {
            self.child_map[position(self.parent_ids(), id)].children
        } else {
            Seq::empty()
        }
    }

    /// No id names two nodes, two sources, or two entries of the child map.
    pub open spec fn well_formed(self) -> bool {
        &&& self.node_ids().no_duplicates()
        &&& self.source_ids().no_duplicates()
        &&& self.parent_ids().no_duplicates()
    }
}

impl Manifest {
    pub fn new() -> (r: Manifest)
        ensures
            r@.nodes.len() == 0,
            r@.sources.len() == 0,
            r@.exposures.len() == 0,
            r@.docs.len() == 0,
            r@.child_map.len() == 0,
    {
        Manifest {
            nodes: Vec::new(),
            sources: Vec::new(),
            exposures: Vec::new(),
            docs: Vec::new(),
            child_map: Vec::new(),
        }
    }

    /// Where the node with this id stands among the nodes.
    pub fn node_index(&self, id: &String) -> (r: Option<usize>)
        ensures
            match r {
                Some(i) => i == self@.node_position(id@) && i < self.nodes.len(),
                None => self@.node_position(id@) == self.nodes.len(),
            },
    {
        let mut i: usize = 0;
        while i < self.nodes.len()
            invariant
                i <= self.nodes.len(),
                forall|j: int| 0 <= j < i ==> self@.node_ids()[j] != id@,
            decreases self.nodes.len() - i,
        {
            if self.nodes[i].unique_id == *id {
                proof {
                    lemma_position_is(self@.node_ids(), id@, i as int);
                }
                return Some(i);
            }
            i = i + 1;
        }
        proof {
            lemma_position_is(self@.node_ids(), id@, i as int);
        }
        None
    }

    /// The node with this id.
    pub fn node(&self, id: &String) -> (r: Option<&Node>)
        ensures
            r.deep_view() == self@.node(id@),
            r matches Some(n) ==> self@.node_position(id@) < self.nodes.len() && *n
                == self.nodes@[self@.node_position(id@)],
    {
        match self.node_index(id) {
            Some(i) => Some(&self.nodes[i]),
            None => None,
        }
    }

    /// The source table with this id.
    pub fn source(&self, id: &String) -> (r: Option<&Source>)
        ensures
            r.deep_view() == self@.source(id@),
    {
        let mut i: usize = 0;
        while i < self.sources.len()
            invariant
                i <= self.sources.len(),
                forall|j: int| 0 <= j < i ==> self@.source_ids()[j] != id@,
            decreases self.sources.len() - i,
        {
            if self.sources[i].unique_id == *id {
                proof {
                    lemma_position_is(self@.source_ids(), id@, i as int);
                }
                return Some(&self.sources[i]);
            }
            i = i + 1;
        }
        proof {
            lemma_position_is(self@.source_ids(), id@, i as int);
        }
        None
    }

    /// The recorded consumers of `id`.
    pub fn children_of(&self, id: &String) -> (r: Option<&Vec<String>>)
        ensures
            match r {
                Some(list) => list.deep_view() == self@.children_of(id@) && position(
                    self@.parent_ids(),
                    id@,
                ) < self.child_map.len(),
                None => self@.children_of(id@).len() == 0 && position(self@.parent_ids(), id@)
                    == self.child_map.len(),
            },
    {
        let mut i: usize = 0;
        while i < self.child_map.len()
            invariant
                i <= self.child_map.len(),
                forall|j: int| 0 <= j < i ==> self@.parent_ids()[j] != id@,
            decreases self.child_map.len() - i,
        {
            if self.child_map[i].parent == *id {
                proof {
                    lemma_position_is(self@.parent_ids(), id@, i as int);
                }
                return Some(&self.child_map[i].children);
            }
            i = i + 1;
        }
        proof {
            lemma_position_is(self@.parent_ids(), id@, i as int);
        }
        None
    }
}

} // verus!
