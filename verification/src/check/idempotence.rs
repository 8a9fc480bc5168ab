//! What the fixing pass leaves of one node, and when that is settled: the
//! rules on the backing file and on the description then find nothing
//! more to change in it.

use vstd::prelude::*;
use crate::text::is_blank_or_marker;
use crate::text::dir_of;
use crate::config::ConfigView;
use crate::manifest::ManifestView;
use crate::manifest::NodeView;
use crate::manifest::SourceView;
use crate::change_descriptors::ModelChangeView;
use crate::change_descriptors::ModelChangesView;
use crate::check::columns::ColumnVerdict;
use crate::check::columns::ColumnResultView;
use crate::check::columns::verdict_at;
use crate::check::models::GeneratedFileView;
use crate::check::models::placeholder_description;
use crate::check::models::missing_properties_file_rule;
use crate::check::models::missing_model_description_rule;
use crate::check::models::separate_file_rule;
use crate::check::models::with_generated_file;
use crate::check::models::described;
use crate::check::models::settled;
use crate::check::models::fixed_model;
use crate::check::models::noted_columns;
use crate::check::sources::source_changes;
use crate::check::sources::described_table;

verus! {

/// The model as the fixing pass leaves it: its working copy, with the
/// backing file at its new place when the pass asks for it to move.
pub open spec fn after_fixes(
    m: ManifestView,
    generated: Seq<GeneratedFileView>,
    finalized: Seq<ModelChangesView>,
    loaded: NodeView,
    config: ConfigView,
) -> NodeView {
    let fixed = fixed_model(m, generated, finalized, loaded, config);
    match separate_file_rule(loaded, config).change {
        Some(ModelChangeView::MovePropertiesFile { new_path, .. }) => NodeView {
            patch_path: Some(new_path),
            ..fixed
        },
        _ => fixed,
    }
}

/// Whether the fixes leave valid values behind: where the model gets the
/// placeholder, the placeholder counts as a description; so does every
/// description that a column inherits; and a backing file that was
/// generated lies beside the model.
pub open spec fn fixes_settle(
    m: ManifestView,
    generated: Seq<GeneratedFileView>,
    finalized: Seq<ModelChangesView>,
    loaded: NodeView,
    config: ConfigView,
) -> bool {
    &&& (missing_model_description_rule(
        with_generated_file(loaded, missing_properties_file_rule(loaded, config, generated)),
        config,
    ).change is Some ==> !is_blank_or_marker(
        placeholder_description(),
        config.invalid_descriptions,
    ))
    &&& forall|i: int|
        0 <= i < loaded.columns.len() ==> (#[trigger] verdict_at(
            m,
            finalized,
            loaded,
            config,
            i,
        ) matches ColumnVerdict::Fix(text) ==> !is_blank_or_marker(
            text,
            config.invalid_descriptions,
        ))
    &&& (missing_properties_file_rule(loaded, config, generated).change matches Some(
        ModelChangeView::GeneratePropertiesFile { patch_path: Some(path), .. },
    ) ==> dir_of(path) == dir_of(loaded.original_file_path))
}

/// Results without changes note no column.
pub proof fn lemma_nothing_noted(results: Seq<ColumnResultView>)
    requires
        forall|i: int| 0 <= i < results.len() ==> (#[trigger] results[i]).changes.len() == 0,
    ensures
        noted_columns(results).len() == 0,
    decreases results.len(),
{
    if results.len() > 0 {
        let rest = results.drop_last();
        assert forall|i: int| 0 <= i < rest.len() implies (#[trigger] rest[i]).changes.len()
            == 0 by {
            assert(rest[i] == results[i]);
        }
        lemma_nothing_noted(rest);
        assert(results.last() == results[results.len() - 1]);
    }
}

/// What the fixing pass settled of the backing file and the description
/// of a model stays settled.
pub proof fn lemma_file_and_description_settled(
    m: ManifestView,
    generated: Seq<GeneratedFileView>,
    finalized: Seq<ModelChangesView>,
    loaded: NodeView,
    config: ConfigView,
)
    requires
        fixes_settle(m, generated, finalized, loaded, config),
    ensures
        missing_properties_file_rule(
            after_fixes(m, generated, finalized, loaded, config),
            config,
            generated,
        ).change is None,
        missing_model_description_rule(
            after_fixes(m, generated, finalized, loaded, config),
            config,
        ).change is None,
        separate_file_rule(after_fixes(m, generated, finalized, loaded, config), config).change
            is None,
        settled(generated, after_fixes(m, generated, finalized, loaded, config), config)
            == after_fixes(m, generated, finalized, loaded, config),
{
    let w = after_fixes(m, generated, finalized, loaded, config);
    match loaded.patch_path {
        Some(patch) => {
            if crate::text::file_name_of(patch).len() > 0 {
                crate::paths::lemma_sibling_lies_beside(loaded.original_file_path, patch);
            }
        },
        None => {},
    }
    let file = missing_properties_file_rule(loaded, config, generated);
    let filed = with_generated_file(loaded, file);
    let working = described(filed, config);
    let fixed = fixed_model(m, generated, finalized, loaded, config);
    assert(fixed.description == working.description);
    assert(fixed.patch_path == filed.patch_path);
    assert(w.description == working.description);
    assert(w.kind == loaded.kind);
    assert(w.unique_id == loaded.unique_id);
    assert(w.name == loaded.name);
    assert(w.original_file_path == loaded.original_file_path);
    let again = missing_properties_file_rule(w, config, generated);
    assert(again.change is None);
    assert(with_generated_file(w, again) == w);
    let described_again = missing_model_description_rule(w, config);
    assert(described_again.change is None);
    assert(described(w, config) == w);
}

/// Idempotence for one source table: when the placeholder, where the
/// table gets it, counts as a description, the table as the fixing pass
/// left it has no changes.
pub proof fn lemma_source_second_pass_changes_nothing(source: SourceView, config: ConfigView)
    requires
        source_changes(source, config) is Some ==> !is_blank_or_marker(
            placeholder_description(),
            config.invalid_descriptions,
        ),
    ensures
        source_changes(described_table(source, config), config) is None,
{
}

/// With the markers that hold by default, the placeholder counts as a
/// description.
pub proof fn lemma_placeholder_is_a_description(markers: Seq<Seq<char>>)
    requires
        markers.len() == 2,
        markers[0] == "TBD"@,
        markers[1] == "FILL ME OUT"@,
    ensures
        !is_blank_or_marker(placeholder_description(), markers),
{
    reveal_strlit("Auto-generated description");
    reveal_strlit("TBD");
    reveal_strlit("FILL ME OUT");
    let text = placeholder_description();
    assert(text.len() == 26);
    assert(text[0] == 'A');
    assert(text.last() == 'n');
    crate::text::lemma_trimmed_of_tight(text);
    assert forall|i: int| 0 <= i < markers.len() implies !crate::text::eq_ignore_ascii_case(
        #[trigger] markers[i],
        text,
    ) by {
        if i == 0 {
            assert(markers[0].len() == 3);
        } else {
            assert(markers[1].len() == 11);
        }
    }
}

} // verus!
