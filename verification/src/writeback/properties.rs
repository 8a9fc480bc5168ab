//! The in-memory form of a backing file: model blocks and source blocks,
//! each with its columns or tables, and for every block the fields that
//! this library does not read, kept as they were.

use vstd::prelude::*;
use crate::sorting::comes_before;
use crate::sorting::text_comes_before;
use crate::sorting::arranged;
use crate::sorting::ascending;
use crate::sorting::lemma_arranged;
use crate::sorting::place_of;
use crate::sorting::transitive;
use crate::sorting::lemma_place_is;
use crate::sorting::lemma_not_before_itself;
use crate::sorting::lemma_before_is_transitive;
use crate::text::position;
use crate::text::lemma_position_is;
use crate::text::clone_opt_text;
use crate::lists::present;
use crate::lists::lemma_present_step;
use crate::manifest::Node;
use crate::manifest::NodeView;
use crate::manifest::Source;
use crate::manifest::SourceView;
use crate::manifest::ColumnView;
use crate::manifest::column_named;
use crate::manifest::find_column_by_name;

verus! {

/// A field that the library does not read. Its value is kept as the text
/// it had in the document.
#[derive(Debug, Clone, PartialEq, Eq)]
pub struct ExtraField {
    pub key: String,
    pub value: String,
}

pub struct ExtraFieldView {
    pub key: Seq<char>,
    pub value: Seq<char>,
}

impl View for ExtraField {
    type V = ExtraFieldView;

    open spec fn view(&self) -> ExtraFieldView {
        ExtraFieldView { key: self.key@, value: self.value@ }
    }
}

impl DeepView for ExtraField {
    type V = ExtraFieldView;

    open spec fn deep_view(&self) -> ExtraFieldView {
        self@
    }
}

impl ExtraField {
    pub fn new(key: &str, value: &str) -> (r: ExtraField)
        ensures
            r@.key == key@,
            r@.value == value@,
    {
        ExtraField { key: key.to_owned(), value: value.to_owned() }
    }

    pub fn duplicate(&self) -> (r: ExtraField)
        ensures
            r@ == self@,
    {
        ExtraField { key: self.key.clone(), value: self.value.clone() }
    }
}

pub open spec fn extra_keys(extras: Seq<ExtraFieldView>) -> Seq<Seq<char>> {
    Seq::new(extras.len(), |i: int| extras[i].key)
}

/// The union of two bags of extra fields: all of `mine`, then those of
/// `other` whose key is not taken yet. On a conflict the existing field wins.
pub open spec fn merge_extras(mine: Seq<ExtraFieldView>, other: Seq<ExtraFieldView>) -> Seq<
    ExtraFieldView,
>
    decreases other.len(),
{
    if other.len() == 0 {
        mine
    } else {
        let so_far = merge_extras(mine, other.drop_last());
        if extra_keys(so_far).contains(other.last().key) {
            so_far
        } else {
            so_far.push(other.last())
        }
    }
}

/// An incoming description replaces the existing one only when it is present.
pub open spec fn merge_description(mine: Option<Seq<char>>, other: Option<Seq<char>>) -> Option<
    Seq<char>,
> {
    if other is Some {
        other
    } else {
        mine
    }
}

pub fn clone_extras(extras: &Vec<ExtraField>) -> (r: Vec<ExtraField>)
    ensures
        r.deep_view() == extras.deep_view(),
{
    let mut out: Vec<ExtraField> = Vec::new();
    let mut i: usize = 0;
    while i < extras.len()
        invariant
            i <= extras.len(),
            out@.len() == i,
            forall|j: int| 0 <= j < i ==> (#[trigger] out@[j])@ == extras@[j]@,
        decreases extras.len() - i,
    {
        out.push(extras[i].duplicate());
        i = i + 1;
    }
    assert(out.deep_view() =~= extras.deep_view());
    out
}

fn has_extra_key(extras: &Vec<ExtraField>, key: &String) -> (r: bool)
    ensures
        r == extra_keys(extras.deep_view()).contains(key@),
{
    let ghost keys = extra_keys(extras.deep_view());
    let mut i: usize = 0;
    while i < extras.len()
        invariant
            i <= extras.len(),
            keys == extra_keys(extras.deep_view()),
            forall|j: int| 0 <= j < i ==> #[trigger] keys[j] != key@,
        decreases extras.len() - i,
    {
        if extras[i].key == *key {
            assert(keys[i as int] == key@);
            return true;
        }
        i = i + 1;
    }
    false
}

/// Adds to `mine` the fields of `other` whose key `mine` lacks.
pub fn merge_extra_fields(mine: &mut Vec<ExtraField>, other: &Vec<ExtraField>)
    ensures
        final(mine).deep_view() == merge_extras(old(mine).deep_view(), other.deep_view()),
{
    let ghost start = mine.deep_view();
    let ghost incoming = other.deep_view();
    let mut i: usize = 0;
    assert(incoming.take(0) =~= Seq::empty());
    while i < other.len()
        invariant
            i <= other.len(),
            incoming == other.deep_view(),
            mine.deep_view() == merge_extras(start, incoming.take(i as int)),
        decreases other.len() - i,
    {
        proof {
            let next = incoming.take(i + 1);
            assert(next.drop_last() =~= incoming.take(i as int));
            assert(next.last() == other@[i as int]@);
        }
        if !has_extra_key(mine, &other[i].key) {
            let ghost before = mine.deep_view();
            mine.push(other[i].duplicate());
            assert(mine.deep_view() =~= before.push(other@[i as int]@));
        }
        i = i + 1;
    }
    assert(incoming.take(other.len() as int) =~= incoming);
}

/// The block of one column.
#[derive(Debug, Clone, PartialEq, Eq)]
pub struct ColumnProperty {
    pub name: String,
    pub description: Option<String>,
    pub extras: Vec<ExtraField>,
}

pub struct ColumnPropertyView {
    pub name: Seq<char>,
    pub description: Option<Seq<char>>,
    pub extras: Seq<ExtraFieldView>,
}

impl View for ColumnProperty {
    type V = ColumnPropertyView;

    open spec fn view(&self) -> ColumnPropertyView {
        ColumnPropertyView {
            name: self.name@,
            description: self.description.deep_view(),
            extras: self.extras.deep_view(),
        }
    }
}

impl DeepView for ColumnProperty {
    type V = ColumnPropertyView;

    open spec fn deep_view(&self) -> ColumnPropertyView {
        self@
    }
}

impl ColumnPropertyView {
    /// This block after `other` was merged into it.
    pub open spec fn merged(self, other: ColumnPropertyView) -> ColumnPropertyView {
        ColumnPropertyView {
            name: self.name,
            description: merge_description(self.description, other.description),
            extras: merge_extras(self.extras, other.extras),
        }
    }
}

impl ColumnProperty {
    pub fn new(name: &str, description: Option<&str>) -> (r: ColumnProperty)
        ensures
            r@.name == name@,
            r@.description == description.deep_view(),
            r@.extras.len() == 0,
    {
        ColumnProperty {
            name: name.to_owned(),
            description: match description {
                Some(d) => Some(d.to_owned()),
                None => None,
            },
            extras: Vec::new(),
        }
    }

    pub fn duplicate(&self) -> (r: ColumnProperty)
        ensures
            r@ == self@,
    {
        ColumnProperty {
            name: self.name.clone(),
            description: clone_opt_text(&self.description),
            extras: clone_extras(&self.extras),
        }
    }

    /// A copy of this block with `other` merged into it.
    pub fn merged(&self, other: &ColumnProperty) -> (r: ColumnProperty)
        ensures
            r@ == self@.merged(other@),
    {
        let description = match &other.description {
            Some(d) => Some(d.clone()),
            None => clone_opt_text(&self.description),
        };
        let mut extras = clone_extras(&self.extras);
        merge_extra_fields(&mut extras, &other.extras);
        ColumnProperty { name: self.name.clone(), description, extras }
    }

    /// Merges `other` into this block.
    pub fn merge(&mut self, other: &ColumnProperty)
        ensures
            final(self)@ == old(self)@.merged(other@),
    {
        let next = self.merged(other);
        *self = next;
    }
}

pub open spec fn column_names(columns: Seq<ColumnPropertyView>) -> Seq<Seq<char>> {
    Seq::new(columns.len(), |i: int| columns[i].name)
}

/// Column blocks after the blocks `other` were merged into them, one after
/// the other: a block whose name is taken merges into the first block of
/// that name, any other block is appended.
pub open spec fn merge_columns(
    mine: Seq<ColumnPropertyView>,
    other: Seq<ColumnPropertyView>,
) -> Seq<ColumnPropertyView>
    decreases other.len(),
{
    if other.len() == 0 {
        mine
    } else {
        let so_far = merge_columns(mine, other.drop_last());
        let at = position(column_names(so_far), other.last().name);
        if at < so_far.len() {
            so_far.update(at, so_far[at].merged(other.last()))
        } else {
            so_far.push(other.last())
        }
    }
}

pub fn clone_column_properties(columns: &Vec<ColumnProperty>) -> (r: Vec<ColumnProperty>)
    ensures
        r.deep_view() == columns.deep_view(),
{
    let mut out: Vec<ColumnProperty> = Vec::new();
    let mut i: usize = 0;
    while i < columns.len()
        invariant
            i <= columns.len(),
            out@.len() == i,
            forall|j: int| 0 <= j < i ==> (#[trigger] out@[j])@ == columns@[j]@,
        decreases columns.len() - i,
    {
        out.push(columns[i].duplicate());
        i = i + 1;
    }
    assert(out.deep_view() =~= columns.deep_view());
    out
}

/// Where the first block named `name` stands among `columns`.
pub fn find_column(columns: &Vec<ColumnProperty>, name: &String) -> (r: Option<usize>)
    ensures
        match r {
            Some(i) => i == position(column_names(columns.deep_view()), name@) && i
                < columns.len(),
            None => position(column_names(columns.deep_view()), name@) == columns.len(),
        },
{
    let ghost names = column_names(columns.deep_view());
    let mut i: usize = 0;
    while i < columns.len()
        invariant
            i <= columns.len(),
            names == column_names(columns.deep_view()),
            forall|j: int| 0 <= j < i ==> #[trigger] names[j] != name@,
        decreases columns.len() - i,
    {
        if columns[i].name == *name {
            proof {
                lemma_position_is(names, name@, i as int);
            }
            return Some(i);
        }
        i = i + 1;
    }
    proof {
        lemma_position_is(names, name@, i as int);
    }
    None
}

/// The order of column blocks: by name.
pub open spec fn block_order() -> spec_fn(ColumnPropertyView, ColumnPropertyView) -> bool {
    |a: ColumnPropertyView, b: ColumnPropertyView| comes_before(a.name, b.name, false)
}

/// The order of column blocks is an order.
pub proof fn lemma_block_order()
    ensures
        transitive(block_order()),
{
    let before = block_order();
    assert forall|a: ColumnPropertyView| !#[trigger] before(a, a) by {
        lemma_not_before_itself(a.name, false);
    }
    assert forall|a: ColumnPropertyView, b: ColumnPropertyView, c: ColumnPropertyView|
        #![trigger before(a, b), before(b, c)]
        before(a, b) && before(b, c) implies before(a, c) by {
        lemma_before_is_transitive(a.name, b.name, c.name, false);
    }
}

/// The column blocks that a merge takes in are those of the incoming
/// block, each as often as it occurs, in ascending order of their names.
pub proof fn lemma_incoming_columns_ascend(columns: Seq<ColumnPropertyView>)
    ensures
        arranged(columns, block_order()).len() == columns.len(),
        ascending(arranged(columns, block_order()), block_order()),
        forall|x: ColumnPropertyView|
            #[trigger] arranged(columns, block_order()).contains(x) <==> columns.contains(x),
{
    lemma_block_order();
    lemma_arranged(columns, block_order());
}

fn place_for_block(sorted: &Vec<ColumnProperty>, x: &ColumnProperty) -> (p: usize)
    ensures
        p == place_of(sorted.deep_view(), x@, block_order()),
        p <= sorted.len(),
{
    let ghost all = sorted.deep_view();
    let mut j: usize = 0;
    while j < sorted.len()
        invariant
            j <= sorted.len(),
            all == sorted.deep_view(),
            forall|k: int| 0 <= k < j ==> !block_order()(x@, #[trigger] all[k]),
        decreases sorted.len() - j,
    {
        assert(all[j as int] == sorted@[j as int]@);
        if text_comes_before(x.name.as_str(), sorted[j].name.as_str(), false) {
            proof {
                lemma_place_is(all, x@, block_order(), j as int);
            }
            return j;
        }
        j = j + 1;
    }
    proof {
        lemma_place_is(all, x@, block_order(), j as int);
    }
    j
}

/// The column blocks in ascending order of their names.
pub fn sort_column_properties(columns: &Vec<ColumnProperty>) -> (r: Vec<ColumnProperty>)
    ensures
        r.deep_view() == arranged(columns.deep_view(), block_order()),
{
    let ghost all = columns.deep_view();
    let mut out: Vec<ColumnProperty> = Vec::new();
    let mut i: usize = 0;
    assert(out.deep_view() =~= arranged(all.take(0), block_order()));
    while i < columns.len()
        invariant
            i <= columns.len(),
            all == columns.deep_view(),
            out.deep_view() == arranged(all.take(i as int), block_order()),
        decreases columns.len() - i,
    {
        let p = place_for_block(&out, &columns[i]);
        let ghost before = out.deep_view();
        assert(all[i as int] == columns@[i as int]@);
        out.insert(p, columns[i].duplicate());
        assert(out.deep_view() =~= before.insert(p as int, all[i as int]));
        assert(all.take(i + 1).drop_last() =~= all.take(i as int));
        assert(all.take(i + 1).last() == all[i as int]);
        i = i + 1;
    }
    assert(all.take(columns.len() as int) =~= all);
    out
}

/// Merges the column blocks `other` into `mine`.
pub fn merge_column_properties(mine: &mut Vec<ColumnProperty>, other: &Vec<ColumnProperty>)
    ensures
        final(mine).deep_view() == merge_columns(old(mine).deep_view(), other.deep_view()),
{
    let ghost start = mine.deep_view();
    let ghost incoming = other.deep_view();
    let mut i: usize = 0;
    assert(incoming.take(0) =~= Seq::empty());
    while i < other.len()
        invariant
            i <= other.len(),
            incoming == other.deep_view(),
            mine.deep_view() == merge_columns(start, incoming.take(i as int)),
        decreases other.len() - i,
    {
        proof {
            let next = incoming.take(i + 1);
            assert(next.drop_last() =~= incoming.take(i as int));
            assert(next.last() == other@[i as int]@);
        }
        let ghost before = mine.deep_view();
        match find_column(mine, &other[i].name) {
            Some(at) => {
                let merged = mine[at].merged(&other[i]);
                mine.set(at, merged);
                assert(mine.deep_view() =~= before.update(
                    at as int,
                    before[at as int].merged(other@[i as int]@),
                ));
            },
            None => {
                mine.push(other[i].duplicate());
                assert(mine.deep_view() =~= before.push(other@[i as int]@));
            },
        }
        i = i + 1;
    }
    assert(incoming.take(other.len() as int) =~= incoming);
}

/// The block of one model, or of one table of a source.
#[derive(Debug, Clone, PartialEq, Eq)]
pub struct ModelProperty {
    pub name: Option<String>,
    pub description: Option<String>,
    pub columns: Vec<ColumnProperty>,
    pub extras: Vec<ExtraField>,
}

pub struct ModelPropertyView {
    pub name: Option<Seq<char>>,
    pub description: Option<Seq<char>>,
    pub columns: Seq<ColumnPropertyView>,
    pub extras: Seq<ExtraFieldView>,
}

impl View for ModelProperty {
    type V = ModelPropertyView;

    open spec fn view(&self) -> ModelPropertyView {
        ModelPropertyView {
            name: self.name.deep_view(),
            description: self.description.deep_view(),
            columns: self.columns.deep_view(),
            extras: self.extras.deep_view(),
        }
    }
}

impl DeepView for ModelProperty {
    type V = ModelPropertyView;

    open spec fn deep_view(&self) -> ModelPropertyView {
        self@
    }
}

impl ModelPropertyView {
    /// This block after `other` was merged into it: the name stays, a
    /// description that `other` brings replaces the existing one, columns
    /// merge by name, extra fields are united. The columns of `other` are
    /// taken in ascending order of their names, so those that are new are
    /// appended in that order.
    pub open spec fn merged(self, other: ModelPropertyView) -> ModelPropertyView {
        ModelPropertyView {
            name: self.name,
            description: merge_description(self.description, other.description),
            columns: merge_columns(self.columns, arranged(other.columns, block_order())),
            extras: merge_extras(self.extras, other.extras),
        }
    }

    /// This block under the name `name` if it has none of its own.
    pub open spec fn named(self, name: Seq<char>) -> ModelPropertyView {
        if self.name is None {
            ModelPropertyView { name: Some(name), ..self }
        } else {
            self
        }
    }
}

impl ModelProperty {
    pub fn duplicate(&self) -> (r: ModelProperty)
        ensures
            r@ == self@,
    {
        ModelProperty {
            name: clone_opt_text(&self.name),
            description: clone_opt_text(&self.description),
            columns: clone_column_properties(&self.columns),
            extras: clone_extras(&self.extras),
        }
    }

    /// A copy of this block with `other` merged into it.
    pub fn merged(&self, other: &ModelProperty) -> (r: ModelProperty)
        ensures
            r@ == self@.merged(other@),
    {
        let description = match &other.description {
            Some(d) => Some(d.clone()),
            None => clone_opt_text(&self.description),
        };
        let mut columns = clone_column_properties(&self.columns);
        let incoming = sort_column_properties(&other.columns);
        merge_column_properties(&mut columns, &incoming);
        let mut extras = clone_extras(&self.extras);
        merge_extra_fields(&mut extras, &other.extras);
        ModelProperty { name: clone_opt_text(&self.name), description, columns, extras }
    }

    /// Merges `other` into this block.
    pub fn merge(&mut self, other: &ModelProperty)
        ensures
            final(self)@ == old(self)@.merged(other@),
    {
        let next = self.merged(other);
        *self = next;
    }

    /// This block, under the name `name` if it had none.
    pub fn named(self, name: &str) -> (r: ModelProperty)
        ensures
            r@ == self@.named(name@),
    {
        match self.name {
            Some(_) => self,
            None => ModelProperty {
                name: Some(name.to_owned()),
                description: self.description,
                columns: self.columns,
                extras: self.extras,
            },
        }
    }
}

pub open spec fn block_names(blocks: Seq<ModelPropertyView>) -> Seq<Option<Seq<char>>> {
    Seq::new(blocks.len(), |i: int| blocks[i].name)
}

/// Blocks after `block` was put among them: it merges into the first block
/// of its name, or is appended when no block has that name.
pub open spec fn upsert_block(blocks: Seq<ModelPropertyView>, block: ModelPropertyView) -> Seq<
    ModelPropertyView,
> {
    let at = position(block_names(blocks), block.name);
    if at < blocks.len() {
        blocks.update(at, blocks[at].merged(block))
    } else {
        blocks.push(block)
    }
}

/// Table blocks after the blocks `other` were merged into them, by the
/// rule for columns; a block without a name matches none and is appended.
pub open spec fn merge_tables(mine: Seq<ModelPropertyView>, other: Seq<ModelPropertyView>) -> Seq<
    ModelPropertyView,
>
    decreases other.len(),
{
    if other.len() == 0 {
        mine
    } else {
        let so_far = merge_tables(mine, other.drop_last());
        if other.last().name is None {
            so_far.push(other.last())
        } else {
            upsert_block(so_far, other.last())
        }
    }
}

pub fn clone_model_properties(blocks: &Vec<ModelProperty>) -> (r: Vec<ModelProperty>)
    ensures
        r.deep_view() == blocks.deep_view(),
{
    let mut out: Vec<ModelProperty> = Vec::new();
    let mut i: usize = 0;
    while i < blocks.len()
        invariant
            i <= blocks.len(),
            out@.len() == i,
            forall|j: int| 0 <= j < i ==> (#[trigger] out@[j])@ == blocks@[j]@,
        decreases blocks.len() - i,
    {
        out.push(blocks[i].duplicate());
        i = i + 1;
    }
    assert(out.deep_view() =~= blocks.deep_view());
    out
}

/// Whether two optional texts are equal.
pub fn same_opt_text(a: &Option<String>, b: &Option<String>) -> (r: bool)
    ensures
        r == (a.deep_view() == b.deep_view()),
{
    match (a, b) {
        (Some(x), Some(y)) => *x == *y,
        (None, None) => true,
        _ => false,
    }
}

/// Where the first block with the name `name` stands among `blocks`.
pub fn find_block(blocks: &Vec<ModelProperty>, name: &Option<String>) -> (r: Option<usize>)
    ensures
        match r {
            Some(i) => i == position(block_names(blocks.deep_view()), name.deep_view()) && i
                < blocks.len(),
            None => position(block_names(blocks.deep_view()), name.deep_view())
                == blocks.len(),
        },
{
    let ghost names = block_names(blocks.deep_view());
    let mut i: usize = 0;
    while i < blocks.len()
        invariant
            i <= blocks.len(),
            names == block_names(blocks.deep_view()),
            forall|j: int| 0 <= j < i ==> #[trigger] names[j] != name.deep_view(),
        decreases blocks.len() - i,
    {
        if same_opt_text(&blocks[i].name, name) {
            proof {
                lemma_position_is(names, name.deep_view(), i as int);
            }
            return Some(i);
        }
        i = i + 1;
    }
    proof {
        lemma_position_is(names, name.deep_view(), i as int);
    }
    None
}

/// Puts `block` among `blocks`: merged into the first block of its name, or
/// appended.
pub fn upsert_into(blocks: &mut Vec<ModelProperty>, block: ModelProperty)
    ensures
        final(blocks).deep_view() == upsert_block(old(blocks).deep_view(), block@),
{
    let ghost before = blocks.deep_view();
    match find_block(blocks, &block.name) {
        Some(at) => {
            let merged = blocks[at].merged(&block);
            blocks.set(at, merged);
            assert(blocks.deep_view() =~= before.update(
                at as int,
                before[at as int].merged(block@),
            ));
        },
        None => {
            blocks.push(block);
            assert(blocks.deep_view() =~= before.push(block@));
        },
    }
}

/// Merges the table blocks `other` into `mine`.
pub fn merge_table_properties(mine: &mut Vec<ModelProperty>, other: &Vec<ModelProperty>)
    ensures
        final(mine).deep_view() == merge_tables(old(mine).deep_view(), other.deep_view()),
{
    let ghost start = mine.deep_view();
    let ghost incoming = other.deep_view();
    let mut i: usize = 0;
    assert(incoming.take(0) =~= Seq::empty());
    while i < other.len()
        invariant
            i <= other.len(),
            incoming == other.deep_view(),
            mine.deep_view() == merge_tables(start, incoming.take(i as int)),
        decreases other.len() - i,
    {
        proof {
            let next = incoming.take(i + 1);
            assert(next.drop_last() =~= incoming.take(i as int));
            assert(next.last() == other@[i as int]@);
        }
        let ghost before = mine.deep_view();
        match &other[i].name {
            None => {
                mine.push(other[i].duplicate());
                assert(mine.deep_view() =~= before.push(other@[i as int]@));
            },
            Some(_) => {
                upsert_into(mine, other[i].duplicate());
            },
        }
        i = i + 1;
    }
    assert(incoming.take(other.len() as int) =~= incoming);
}

/// The block of one source with its tables.
#[derive(Debug, Clone, PartialEq, Eq)]
pub struct SourceProperty {
    pub name: String,
    pub description: Option<String>,
    pub tables: Vec<ModelProperty>,
    pub extras: Vec<ExtraField>,
}

pub struct SourcePropertyView {
    pub name: Seq<char>,
    pub description: Option<Seq<char>>,
    pub tables: Seq<ModelPropertyView>,
    pub extras: Seq<ExtraFieldView>,
}

impl View for SourceProperty {
    type V = SourcePropertyView;

    open spec fn view(&self) -> SourcePropertyView {
        SourcePropertyView {
            name: self.name@,
            description: self.description.deep_view(),
            tables: self.tables.deep_view(),
            extras: self.extras.deep_view(),
        }
    }
}

impl DeepView for SourceProperty {
    type V = SourcePropertyView;

    open spec fn deep_view(&self) -> SourcePropertyView {
        self@
    }
}

impl SourcePropertyView {
    /// This block after `other` was merged into it; its tables merge by the
    /// rule for columns.
    pub open spec fn merged(self, other: SourcePropertyView) -> SourcePropertyView {
        SourcePropertyView {
            name: self.name,
            description: merge_description(self.description, other.description),
            tables: merge_tables(self.tables, other.tables),
            extras: merge_extras(self.extras, other.extras),
        }
    }
}

impl SourceProperty {
    pub fn duplicate(&self) -> (r: SourceProperty)
        ensures
            r@ == self@,
    {
        SourceProperty {
            name: self.name.clone(),
            description: clone_opt_text(&self.description),
            tables: clone_model_properties(&self.tables),
            extras: clone_extras(&self.extras),
        }
    }

    /// A copy of this block with `other` merged into it.
    pub fn merged(&self, other: &SourceProperty) -> (r: SourceProperty)
        ensures
            r@ == self@.merged(other@),
    {
        let description = match &other.description {
            Some(d) => Some(d.clone()),
            None => clone_opt_text(&self.description),
        };
        let mut tables = clone_model_properties(&self.tables);
        merge_table_properties(&mut tables, &other.tables);
        let mut extras = clone_extras(&self.extras);
        merge_extra_fields(&mut extras, &other.extras);
        SourceProperty { name: self.name.clone(), description, tables, extras }
    }

    /// Merges `other` into this block.
    pub fn merge(&mut self, other: &SourceProperty)
        ensures
            final(self)@ == old(self)@.merged(other@),
    {
        let next = self.merged(other);
        *self = next;
    }
}

/// The block for `updated` if its description differs from the one that the
/// first column of its name has in `loaded`.
pub open spec fn changed_column(loaded: Seq<ColumnView>, updated: ColumnView) -> Option<
    ColumnPropertyView,
> {
    match column_named(loaded, updated.name) {
        Some(before) => if before.description != updated.description {
            Some(
                ColumnPropertyView {
                    name: updated.name,
                    description: updated.description,
                    extras: Seq::empty(),
                },
            )
        } else {
            None
        },
        None => None,
    }
}

/// The blocks of the columns of `updated` whose description changed.
pub open spec fn changed_columns(loaded: Seq<ColumnView>, updated: Seq<ColumnView>) -> Seq<
    ColumnPropertyView,
> {
    present(Seq::new(updated.len(), |i: int| changed_column(loaded, updated[i])))
}

/// What a working copy changed of its model, as a block to merge: the
/// description if it differs, and the columns whose description differs.
/// There is no block when nothing differs.
pub open spec fn model_difference(loaded: NodeView, updated: NodeView) -> Option<
    ModelPropertyView,
> {
    let columns = changed_columns(loaded.columns, updated.columns);
    if loaded.description == updated.description && columns.len() == 0 {
        None
    } else {
        Some(
            ModelPropertyView {
                name: Some(loaded.name),
                description: if loaded.description == updated.description {
                    None
                } else {
                    updated.description
                },
                columns,
                extras: Seq::empty(),
            },
        )
    }
}

pub fn model_property_from_manifest_differences(loaded: &Node, updated: &Node) -> (r: Option<
    ModelProperty,
>)
    ensures
        r.deep_view() == model_difference(loaded@, updated@),
{
    let ghost candidates = Seq::new(
        updated@.columns.len(),
        |i: int| changed_column(loaded@.columns, updated@.columns[i]),
    );
    let mut columns: Vec<ColumnProperty> = Vec::new();
    let mut i: usize = 0;
    assert(candidates.take(0) =~= Seq::empty());
    while i < updated.columns.len()
        invariant
            i <= updated.columns.len(),
            candidates == Seq::new(
                updated@.columns.len(),
                |i: int| changed_column(loaded@.columns, updated@.columns[i]),
            ),
            columns.deep_view() == present(candidates.take(i as int)),
        decreases updated.columns.len() - i,
    {
        proof {
            lemma_present_step(candidates, i as int);
        }
        let column = &updated.columns[i];
        match find_column_by_name(&loaded.columns, &column.name) {
            Some(before) => {
                if !same_opt_text(&before.description, &column.description) {
                    let ghost so_far = columns.deep_view();
                    let block = ColumnProperty {
                        name: column.name.clone(),
                        description: clone_opt_text(&column.description),
                        extras: Vec::new(),
                    };
                    assert(block@.extras =~= Seq::empty());
                    columns.push(block);
                    assert(columns.deep_view() =~= so_far.push(block@));
                }
            },
            None => {},
        }
        i = i + 1;
    }
    assert(candidates.take(updated.columns.len() as int) =~= candidates);
    let same_description = same_opt_text(&loaded.description, &updated.description);
    if same_description && columns.len() == 0 {
        None
    } else {
        let block = ModelProperty {
            name: Some(loaded.name.clone()),
            description: if same_description {
                None
            } else {
                clone_opt_text(&updated.description)
            },
            columns,
            extras: Vec::new(),
        };
        assert(block@.extras =~= Seq::empty());
        Some(block)
    }
}

/// What a working copy changed of its source table, as a block to merge:
/// the source with the one table and its new description. There is no
/// block when the description is the same.
pub open spec fn source_difference(loaded: SourceView, updated: SourceView) -> Option<
    SourcePropertyView,
> {
    if loaded.description == updated.description {
        None
    } else {
        Some(
            SourcePropertyView {
                name: loaded.source_name,
                description: None,
                tables: seq![
                    ModelPropertyView {
                        name: Some(loaded.name),
                        description: updated.description,
                        columns: Seq::empty(),
                        extras: Seq::empty(),
                    },
                ],
                extras: Seq::empty(),
            },
        )
    }
}

pub fn source_property_from_manifest_differences(loaded: &Source, updated: &Source) -> (r:
    Option<SourceProperty>)
    ensures
        r.deep_view() == source_difference(loaded@, updated@),
{
    if same_opt_text(&loaded.description, &updated.description) {
        None
    } else {
        let table = ModelProperty {
            name: Some(loaded.name.clone()),
            description: clone_opt_text(&updated.description),
            columns: Vec::new(),
            extras: Vec::new(),
        };
        assert(table@.columns =~= Seq::empty());
        assert(table@.extras =~= Seq::empty());
        let mut tables: Vec<ModelProperty> = Vec::new();
        tables.push(table);
        assert(tables.deep_view() =~= seq![table@]);
        let block = SourceProperty {
            name: loaded.source_name.clone(),
            description: None,
            tables,
            extras: Vec::new(),
        };
        assert(block@.extras =~= Seq::empty());
        Some(block)
    }
}

pub fn clone_source_properties(blocks: &Vec<SourceProperty>) -> (r: Vec<SourceProperty>)
    ensures
        r.deep_view() == blocks.deep_view(),
{
    let mut out: Vec<SourceProperty> = Vec::new();
    let mut i: usize = 0;
    while i < blocks.len()
        invariant
            i <= blocks.len(),
            out@.len() == i,
            forall|j: int| 0 <= j < i ==> (#[trigger] out@[j])@ == blocks@[j]@,
        decreases blocks.len() - i,
    {
        out.push(blocks[i].duplicate());
        i = i + 1;
    }
    assert(out.deep_view() =~= blocks.deep_view());
    out
}

/// One backing file.
#[derive(Debug, Clone, PartialEq, Eq)]
pub struct PropertyFile {
    pub models: Option<Vec<ModelProperty>>,
    pub sources: Option<Vec<SourceProperty>>,
    pub extras: Vec<ExtraField>,
}

pub struct PropertyFileView {
    pub models: Option<Seq<ModelPropertyView>>,
    pub sources: Option<Seq<SourcePropertyView>>,
    pub extras: Seq<ExtraFieldView>,
}

impl View for PropertyFile {
    type V = PropertyFileView;

    open spec fn view(&self) -> PropertyFileView {
        PropertyFileView {
            models: self.models.deep_view(),
            sources: self.sources.deep_view(),
            extras: self.extras.deep_view(),
        }
    }
}

impl DeepView for PropertyFile {
    type V = PropertyFileView;

    open spec fn deep_view(&self) -> PropertyFileView {
        self@
    }
}

impl PropertyFileView {
    /// A document without blocks and fields.
    pub open spec fn blank() -> PropertyFileView {
        PropertyFileView { models: None, sources: None, extras: Seq::empty() }
    }

    /// The model blocks, none for a document without the list.
    pub open spec fn model_blocks(self) -> Seq<ModelPropertyView> {
        match self.models {
            Some(blocks) => blocks,
            None => Seq::empty(),
        }
    }

    /// Where the first model block named `name` stands; the number of
    /// blocks when there is none.
    pub open spec fn model_position(self, name: Seq<char>) -> int {
        position(block_names(self.model_blocks()), Some(name))
    }

    pub open spec fn has_model(self, name: Seq<char>) -> bool {
        self.model_position(name) < self.model_blocks().len()
    }

    /// Nothing is left in the document: no model block, no source block and
    /// no other field.
    pub open spec fn is_empty(self) -> bool {
        &&& self.model_blocks().len() == 0
        &&& (self.sources matches Some(s) ==> s.len() == 0)
        &&& self.extras.len() == 0
    }

    /// The document after `block` was put among its model blocks.
    pub open spec fn with_model(self, block: ModelPropertyView) -> PropertyFileView {
        PropertyFileView { models: Some(upsert_block(self.model_blocks(), block)), ..self }
    }

    /// The document after `property` was merged into its model block named
    /// `name`; a document without such a block gets `property` as a new
    /// block under that name.
    pub open spec fn with_merged_model(
        self,
        name: Seq<char>,
        property: ModelPropertyView,
    ) -> PropertyFileView {
        if self.has_model(name) {
            PropertyFileView {
                models: Some(
                    self.model_blocks().update(
                        self.model_position(name),
                        self.model_blocks()[self.model_position(name)].merged(property),
                    ),
                ),
                ..self
            }
        } else {
            PropertyFileView {
                models: Some(self.model_blocks().push(property.named(name))),
                ..self
            }
        }
    }

    /// Whether the model block named `model` has a column block named
    /// `column`.
    pub open spec fn has_column(self, model: Seq<char>, column: Seq<char>) -> bool {
        self.has_model(model) && position(
            column_names(self.model_blocks()[self.model_position(model)].columns),
            column,
        ) < self.model_blocks()[self.model_position(model)].columns.len()
    }

    /// The document after the column `column` of the model `model` took the
    /// description `new`; an absent `new` leaves the description as it is.
    pub open spec fn with_description(
        self,
        model: Seq<char>,
        column: Seq<char>,
        new: Option<Seq<char>>,
    ) -> PropertyFileView {
        let block = self.model_blocks()[self.model_position(model)];
        let at = position(column_names(block.columns), column);
        let described = ColumnPropertyView {
            description: merge_description(block.columns[at].description, new),
            ..block.columns[at]
        };
        PropertyFileView {
            models: Some(
                self.model_blocks().update(
                    self.model_position(model),
                    ModelPropertyView { columns: block.columns.update(at, described), ..block },
                ),
            ),
            ..self
        }
    }

    /// The document without its first model block named `name`. The list
    /// itself goes when that was its last block.
    pub open spec fn without_model(self, name: Seq<char>) -> PropertyFileView {
        let left = self.model_blocks().remove(self.model_position(name));
        PropertyFileView {
            models: if left.len() == 0 {
                None
            } else {
                Some(left)
            },
            ..self
        }
    }
}

impl PropertyFile {
    pub fn blank() -> (r: PropertyFile)
        ensures
            r@ == PropertyFileView::blank(),
    {
        let r = PropertyFile { models: None, sources: None, extras: Vec::new() };
        assert(r@.extras =~= Seq::empty());
        r
    }

    pub fn duplicate(&self) -> (r: PropertyFile)
        ensures
            r@ == self@,
    {
        PropertyFile {
            models: match &self.models {
                Some(blocks) => Some(clone_model_properties(blocks)),
                None => None,
            },
            sources: match &self.sources {
                Some(blocks) => Some(clone_source_properties(blocks)),
                None => None,
            },
            extras: clone_extras(&self.extras),
        }
    }

    /// Where the first model block named `model_name` stands.
    pub fn find_model(&self, model_name: &str) -> (r: Option<usize>)
        ensures
            match r {
                Some(i) => self@.has_model(model_name@) && i == self@.model_position(model_name@)
                    && self.models is Some && i < self.models->0.len(),
                None => !self@.has_model(model_name@),
            },
    {
        let key = Some(model_name.to_owned());
        match &self.models {
            Some(blocks) => find_block(blocks, &key),
            None => {
                proof {
                    lemma_position_is(
                        block_names(self@.model_blocks()),
                        Some(model_name@),
                        0,
                    );
                }
                None
            },
        }
    }

    /// The first model block named `model_name`, to be changed in place.
    pub fn find_model_mut(&mut self, model_name: &str) -> (r: Option<&mut ModelProperty>)
        ensures
            r is Some <==> old(self)@.has_model(model_name@),
            match r {
                Some(block) => (*block)@ == old(self)@.model_blocks()[old(self)@.model_position(
                    model_name@,
                )] && final(self)@.models is Some && final(self)@.models->0
                    =~= old(self)@.model_blocks().update(
                    old(self)@.model_position(model_name@),
                    (*final(block))@,
                ) && final(self)@.sources == old(self)@.sources && final(self)@.extras == old(
                    self,
                )@.extras,
                None => final(self)@ == old(self)@,
            },
    {
        match self.find_model(model_name) {
            Some(i) => match &mut self.models {
                Some(blocks) => Some(&mut blocks[i]),
                None => None,
            },
            None => None,
        }
    }

    /// Whether nothing is left in the document.
    pub fn is_empty(&self) -> (r: bool)
        ensures
            r == self@.is_empty(),
    {
        let no_models = match &self.models {
            Some(blocks) => blocks.len() == 0,
            None => true,
        };
        let no_sources = match &self.sources {
            Some(blocks) => blocks.len() == 0,
            None => true,
        };
        no_models && no_sources && self.extras.len() == 0
    }

    /// Puts `block` among the model blocks: merged into the first block of
    /// its name, or appended.
    pub fn upsert_model(&mut self, block: ModelProperty)
        ensures
            final(self)@ == old(self)@.with_model(block@),
    {
        let mut blocks = match self.models.take() {
            Some(blocks) => blocks,
            None => Vec::new(),
        };
        assert(blocks.deep_view() =~= old(self)@.model_blocks());
        upsert_into(&mut blocks, block);
        self.models = Some(blocks);
    }

    /// Merges `property` into the model block named `model_name`, or adds
    /// it as a new block under that name.
    pub fn merge_model(&mut self, model_name: &str, property: &ModelProperty)
        ensures
            final(self)@ == old(self)@.with_merged_model(model_name@, property@),
    {
        let found = self.find_model(model_name);
        let mut blocks = match self.models.take() {
            Some(blocks) => blocks,
            None => Vec::new(),
        };
        assert(blocks.deep_view() =~= old(self)@.model_blocks());
        let ghost before = blocks.deep_view();
        match found {
            Some(at) => {
                let merged = blocks[at].merged(property);
                blocks.set(at, merged);
                assert(blocks.deep_view() =~= before.update(
                    at as int,
                    before[at as int].merged(property@),
                ));
            },
            None => {
                let block = property.duplicate().named(model_name);
                blocks.push(block);
                assert(blocks.deep_view() =~= before.push(property@.named(model_name@)));
            },
        }
        self.models = Some(blocks);
    }

    /// Gives the column `column_name` of the model `model_name` the
    /// description `new`, if there is such a column. It tells whether the
    /// model block and the column block were found.
    pub fn describe_column(&mut self, model_name: &str, column_name: &str, new: &Option<String>) -> (r:
        (bool, bool))
        ensures
            r.0 == old(self)@.has_model(model_name@),
            r.1 == old(self)@.has_column(model_name@, column_name@),
            r.1 ==> final(self)@ == old(self)@.with_description(
                model_name@,
                column_name@,
                new.deep_view(),
            ),
            !r.1 ==> final(self)@ == old(self)@,
    {
        let found = self.find_model(model_name);
        let at = match found {
            Some(at) => at,
            None => {
                return (false, false);
            },
        };
        let column = column_name.to_owned();
        let mut blocks = match self.models.take() {
            Some(blocks) => blocks,
            None => Vec::new(),
        };
        let ghost before = blocks.deep_view();
        assert(before =~= old(self)@.model_blocks());
        let place = find_column(&blocks[at].columns, &column);
        match place {
            Some(c) => {
                let block = &blocks[at];
                let mut columns = clone_column_properties(&block.columns);
                let ghost old_columns = columns.deep_view();
                let described = ColumnProperty {
                    name: columns[c].name.clone(),
                    description: match new {
                        Some(text) => Some(text.clone()),
                        None => clone_opt_text(&columns[c].description),
                    },
                    extras: clone_extras(&columns[c].extras),
                };
                columns.set(c, described);
                assert(columns.deep_view() =~= old_columns.update(c as int, described@));
                let changed = ModelProperty {
                    name: clone_opt_text(&block.name),
                    description: clone_opt_text(&block.description),
                    columns,
                    extras: clone_extras(&block.extras),
                };
                blocks.set(at, changed);
                assert(blocks.deep_view() =~= before.update(at as int, changed@));
                self.models = Some(blocks);
                (true, true)
            },
            None => {
                self.models = Some(blocks);
                assert(self@.models == old(self)@.models);
                (true, false)
            },
        }
    }

    /// Takes the first model block named `model_name` out of the document.
    /// Nothing is taken, and nothing changes, when there is no such block.
    pub fn take_model(&mut self, model_name: &str) -> (r: Option<ModelProperty>)
        ensures
            match r {
                Some(block) => old(self)@.has_model(model_name@) && block@ == old(
                    self,
                )@.model_blocks()[old(self)@.model_position(model_name@)] && final(self)@
                    == old(self)@.without_model(model_name@),
                None => !old(self)@.has_model(model_name@) && final(self)@ == old(self)@,
            },
    {
        match self.find_model(model_name) {
            Some(i) => {
                let mut blocks = match self.models.take() {
                    Some(blocks) => blocks,
                    None => Vec::new(),
                };
                let ghost before = blocks.deep_view();
                let block = blocks.remove(i);
                assert(blocks.deep_view() =~= before.remove(i as int));
                if blocks.len() == 0 {
                    self.models = None;
                } else {
                    self.models = Some(blocks);
                }
                Some(block)
            },
            None => None,
        }
    }
}

/// Merge never regresses: merging a block that brings no description
/// leaves the description that a block has; this holds of the blocks of
/// columns, of models and tables, and of sources.
pub proof fn lemma_merge_keeps_description(
    column: ColumnPropertyView,
    other_column: ColumnPropertyView,
    model: ModelPropertyView,
    other_model: ModelPropertyView,
    source: SourcePropertyView,
    other_source: SourcePropertyView,
)
    ensures
        other_column.description is None ==> column.merged(other_column).description
            == column.description,
        other_model.description is None ==> model.merged(other_model).description
            == model.description,
        other_source.description is None ==> source.merged(other_source).description
            == source.description,
        column.description is Some ==> column.merged(other_column).description is Some,
        model.description is Some ==> model.merged(other_model).description is Some,
        source.description is Some ==> source.merged(other_source).description is Some,
{
}

/// Merging blocks of columns keeps every block that was there, by name and
/// in place, and blanks no description.
pub proof fn lemma_merge_columns_keeps(
    mine: Seq<ColumnPropertyView>,
    other: Seq<ColumnPropertyView>,
    i: int,
)
    requires
        0 <= i < mine.len(),
    ensures
        merge_columns(mine, other).len() >= mine.len(),
        merge_columns(mine, other)[i].name == mine[i].name,
        mine[i].description is Some ==> merge_columns(mine, other)[i].description is Some,
    decreases other.len(),
{
    if other.len() > 0 {
        lemma_merge_columns_keeps(mine, other.drop_last(), i);
        let so_far = merge_columns(mine, other.drop_last());
        crate::text::lemma_position(column_names(so_far), other.last().name);
    }
}

} // verus!
