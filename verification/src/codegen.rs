//! Generation of a first backing file for a model that has none: where
//! the file goes, where the model's schema is cached, and what the file
//! holds once the names of the columns are known.

use vstd::prelude::*;
use crate::text::to_chars;
use crate::text::find_split;
use crate::text::split_point;
use crate::text::lemma_split_point;
use crate::text::lemma_split_point_is;
use crate::text::after_last;
use crate::text::normal_path;
use crate::text::normalize_path;
use crate::text::join_path;
use crate::text::path_join;
use crate::text::is_absolute;
use crate::text::path_is_absolute;
use crate::text::clone_opt_text;
use crate::lists::present;
use crate::lists::lemma_present_step;
use crate::config::Config;
use crate::config::ConfigView;
use crate::config::Selector;
use crate::manifest::Manifest;
use crate::manifest::ManifestView;
use crate::manifest::Node;
use crate::manifest::NodeView;
use crate::manifest::NodeKind;
use crate::writeback::properties::ColumnProperty;
use crate::writeback::properties::ColumnPropertyView;
use crate::writeback::properties::ModelProperty;
use crate::writeback::properties::ModelPropertyView;
use crate::writeback::properties::PropertyFile;
use crate::writeback::properties::PropertyFileView;

verus! {

/// A file name without its extension: the part in front of its last dot.
/// A name without a dot, or with its only dot in front, is all stem.
pub open spec fn stem_of(name: Seq<char>) -> Seq<char> {
    if split_point(name, '.') <= 1 {
        name
    } else {
        name.subrange(0, split_point(name, '.') - 1)
    }
}

/// The path with the extension of its last part replaced by `ext`; a path
/// without a `/` at its end and without doubled `/`.
pub open spec fn plain_with_extension(path: Seq<char>, ext: Seq<char>) -> Seq<char> {
    if after_last(path, '/').len() == 0 {
        path
    } else {
        path.subrange(0, path.len() - after_last(path, '/').len()) + stem_of(
            after_last(path, '/'),
        ) + seq!['.'] + ext
    }
}

/// The path, as its components give it, with the extension of its file
/// name replaced by `ext`. A path without a file name stays as it is.
pub open spec fn with_extension(path: Seq<char>, ext: Seq<char>) -> Seq<char> {
    plain_with_extension(normal_path(path), ext)
}

pub fn path_with_extension(path: &str, ext: &str) -> (r: String)
    ensures
        r@ == with_extension(path@, ext@),
{
    let plain = normalize_path(path);
    replace_extension(plain.as_str(), ext)
}

fn replace_extension(path: &str, ext: &str) -> (r: String)
    ensures
        r@ == plain_with_extension(path@, ext@),
{
    let chars = to_chars(path);
    let n = chars.len();
    let start = find_split(&chars, '/');
    proof {
        lemma_split_point(path@, '/');
    }
    let ghost name = after_last(path@, '/');
    assert(name == path@.subrange(start as int, n as int));
    if start == n {
        return path.to_owned();
    }
    let mut dot: usize = n;
    while dot > start && chars[dot - 1] != '.'
        invariant
            start <= dot <= n,
            n == chars.len(),
            chars@ == path@,
            name == path@.subrange(start as int, n as int),
            forall|i: int| dot - start <= i < name.len() ==> name[i] != '.',
        decreases dot,
    {
        dot = dot - 1;
        assert(name[dot - start] == chars@[dot as int]);
    }
    proof {
        if dot > start {
            assert(name[dot - start - 1] == chars@[dot - 1]);
        }
        lemma_split_point_is(name, '.', dot - start);
    }
    let end = if dot - start <= 1 {
        n
    } else {
        dot - 1
    };
    proof {
        reveal_strlit(".");
        assert("."@ =~= seq!['.']);
        assert(path@.subrange(0, end as int) =~= path@.subrange(0, start as int) + stem_of(name));
    }
    path.substring_char(0, end).to_owned().concat(".").concat(ext)
}

/// Where the backing file of a model is written: beside the file that
/// defines the model, under its name with the extension `yml`.
pub open spec fn write_path(model: NodeView) -> Seq<char> {
    with_extension(model.original_file_path, "yml"@)
}

pub fn get_write_path(model: &Node) -> (r: String)
    ensures
        r@ == write_path(model@),
{
    path_with_extension(model.original_file_path.as_str(), "yml")
}

/// The file that caches the schema of a model, below the project.
pub open spec fn cached_schema_path(model: NodeView) -> Seq<char> {
    "target/db/schemas/"@ + model.database + "/"@ + model.schema + "/"@ + model.name
        + "/output.parquet"@
}

pub open spec fn below_root(root: Option<Seq<char>>, path: Seq<char>) -> Seq<char> {
    match root {
        Some(dir) => join_path(dir, path),
        None => path,
    }
}

pub fn get_cached_parquet_path(model: &Node, project_root: Option<&str>) -> (r: String)
    ensures
        r@ == below_root(project_root.deep_view(), cached_schema_path(model@)),
{
    let relative = "target/db/schemas/".to_owned().concat(model.database.as_str()).concat(
        "/",
    ).concat(model.schema.as_str()).concat("/").concat(model.name.as_str()).concat(
        "/output.parquet",
    );
    match project_root {
        Some(root) => path_join(root, relative.as_str()),
        None => relative,
    }
}

/// Where the generated file lies on disk: the write path, below the
/// project unless it is absolute.
pub open spec fn generated_file_path(model: NodeView, root: Option<Seq<char>>) -> Seq<char> {
    if is_absolute(write_path(model)) {
        write_path(model)
    } else {
        below_root(root, write_path(model))
    }
}

pub fn get_generated_file_path(model: &Node, project_root: Option<&str>) -> (r: String)
    ensures
        r@ == generated_file_path(model@, project_root.deep_view()),
{
    let path = get_write_path(model);
    if path_is_absolute(path.as_str()) {
        path
    } else {
        match project_root {
            Some(root) => path_join(root, path.as_str()),
            None => path,
        }
    }
}

/// The block of a column of which only the name is known.
pub open spec fn bare_column(name: Seq<char>) -> ColumnPropertyView {
    ColumnPropertyView { name, description: None, extras: Seq::empty() }
}

/// The first backing file of a model: one block with the name and the
/// description of the model and a block for each column.
pub open spec fn generated_document(model: NodeView, columns: Seq<Seq<char>>) -> PropertyFileView {
    PropertyFileView {
        models: Some(
            seq![
                ModelPropertyView {
                    name: Some(model.name),
                    description: model.description,
                    columns: Seq::new(columns.len(), |i: int| bare_column(columns[i])),
                    extras: Seq::empty(),
                },
            ],
        ),
        sources: None,
        extras: Seq::empty(),
    }
}

pub fn generate_model(model: &Node, column_names: &Vec<String>) -> (r: PropertyFile)
    ensures
        r@ == generated_document(model@, column_names.deep_view()),
{
    let mut columns: Vec<ColumnProperty> = Vec::new();
    let mut i: usize = 0;
    while i < column_names.len()
        invariant
            i <= column_names.len(),
            columns@.len() == i,
            forall|j: int|
                0 <= j < i ==> (#[trigger] columns@[j])@ == bare_column(column_names@[j]@),
        decreases column_names.len() - i,
    {
        let column = ColumnProperty {
            name: column_names[i].clone(),
            description: None,
            extras: Vec::new(),
        };
        assert(column@.extras =~= Seq::empty());
        columns.push(column);
        i = i + 1;
    }
    assert(columns.deep_view() =~= Seq::new(
        column_names.deep_view().len(),
        |i: int| bare_column(column_names.deep_view()[i]),
    ));
    let block = ModelProperty {
        name: Some(model.name.clone()),
        description: clone_opt_text(&model.description),
        columns,
        extras: Vec::new(),
    };
    assert(block@.extras =~= Seq::empty());
    let mut blocks: Vec<ModelProperty> = Vec::new();
    blocks.push(block);
    assert(blocks.deep_view() =~= seq![block@]);
    let r = PropertyFile { models: Some(blocks), sources: None, extras: Vec::new() };
    assert(r@.extras =~= Seq::empty());
    r
}

/// Whether a backing file is to be generated for the node: it is a model
/// without one, and the rule on missing backing files may be fixed.
pub open spec fn wants_generated_file(node: NodeView, config: ConfigView) -> bool {
    config.can_fix(Selector::MissingPropertiesFile) && node.kind == NodeKind::Model
        && node.patch_path is None
}

pub open spec fn generation_candidate(node: NodeView, config: ConfigView) -> Option<Seq<char>> {
    if wants_generated_file(node, config) {
        Some(node.unique_id)
    } else {
        None
    }
}

/// The ids of the models for which a backing file is to be generated, in
/// the order of the node set.
pub open spec fn models_to_generate(m: ManifestView, config: ConfigView) -> Seq<Seq<char>> {
    present(Seq::new(m.nodes.len(), |i: int| generation_candidate(m.nodes[i], config)))
}

pub fn files_to_generate(manifest: &Manifest, config: &Config) -> (r: Vec<String>)
    ensures
        r.deep_view() == models_to_generate(manifest@, config@),
{
    let ghost candidates = Seq::new(
        manifest@.nodes.len(),
        |i: int| generation_candidate(manifest@.nodes[i], config@),
    );
    let fixable = config.is_fixable(Selector::MissingPropertiesFile);
    let mut out: Vec<String> = Vec::new();
    let mut i: usize = 0;
    assert(candidates.take(0) =~= Seq::empty());
    while i < manifest.nodes.len()
        invariant
            i <= manifest.nodes.len(),
            fixable == config@.can_fix(Selector::MissingPropertiesFile),
            candidates == Seq::new(
                manifest@.nodes.len(),
                |i: int| generation_candidate(manifest@.nodes[i], config@),
            ),
            out.deep_view() == present(candidates.take(i as int)),
        decreases manifest.nodes.len() - i,
    {
        proof {
            lemma_present_step(candidates, i as int);
        }
        let node = &manifest.nodes[i];
        assert(manifest@.nodes[i as int] == node@);
        let is_model = match node.kind {
            NodeKind::Model => true,
            _ => false,
        };
        if fixable && is_model && node.patch_path.is_none() {
            let ghost before = out.deep_view();
            out.push(node.unique_id.clone());
            assert(out.deep_view() =~= before.push(node@.unique_id));
        }
        i = i + 1;
    }
    assert(candidates.take(manifest.nodes.len() as int) =~= candidates);
    out
}

} // verus!
