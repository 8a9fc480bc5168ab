//! The rule catalogue and the run's configuration: which rules are selected,
//! which may be fixed, thresholds and invalid-description markers.

use vstd::prelude::*;
use crate::text::clone_texts;
use crate::text::clone_opt_text;
use crate::text::join;
use crate::text::joined;
use crate::text::texts_of;
use crate::text::holds_text;
use crate::text::contains_text;

verus! {

/// The rules, one identifier each, in catalogue order.
#[derive(Debug, Clone, Copy, PartialEq, Eq, Structural, PartialOrd, Ord, Hash)]
pub enum Selector {
    MissingColumnDescriptions,
    MissingModelDescriptions,
    MissingModelTags,
    MissingSourceDescriptions,
    MissingSourceTableDescriptions,
    MissingSourceColumnDescriptions,
    DirectJoinToSource,
    MissingPropertiesFile,
    DuplicateSources,
    ModelFanout,
    RootModels,
    UnusedSources,
    MissingPrimaryKey,
    MissingRequiredTests,
    MissingSourceFreshness,
    MultipleSourcesJoined,
    RejoiningOfUpstreamConcepts,
    SourceFanout,
    PublicModelsWithoutContract,
    DeadModel,
    ModelsSeparateFromPropertiesFile,
    ExposureDependentOnPrivateModel,
    ExposureParentsMaterializations,
}

/// How fixes reach the backing files.
#[derive(Debug, Clone, Copy, PartialEq, Eq, Structural)]
pub enum WritebackMethod {
    Python,
    Rust,
}

impl Selector {
    /// Whether the rule has a fix at all; a fixed property of the rule.
    pub open spec fn fixable(self) -> bool {
        match self {
            Selector::MissingColumnDescriptions => true,
            Selector::MissingModelDescriptions => true,
            Selector::MissingSourceTableDescriptions => true,
            Selector::MissingPropertiesFile => true,
            Selector::ModelsSeparateFromPropertiesFile => true,
            _ => false,
        }
    }

    pub fn is_statically_fixable(self) -> (r: bool)
        ensures
            r == self.fixable(),
    {
        match self {
            Selector::MissingColumnDescriptions => true,
            Selector::MissingModelDescriptions => true,
            Selector::MissingSourceTableDescriptions => true,
            Selector::MissingPropertiesFile => true,
            Selector::ModelsSeparateFromPropertiesFile => true,
            _ => false,
        }
    }

    /// The rule's name as configuration files write it.
    pub open spec fn name(self) -> Seq<char> {
        match self {
            Selector::MissingColumnDescriptions => "missing_column_descriptions"@,
            Selector::MissingModelDescriptions => "missing_model_descriptions"@,
            Selector::MissingModelTags => "missing_model_tags"@,
            Selector::MissingSourceDescriptions => "missing_source_descriptions"@,
            Selector::MissingSourceTableDescriptions => "missing_source_table_descriptions"@,
            Selector::MissingSourceColumnDescriptions => "missing_source_column_descriptions"@,
            Selector::DirectJoinToSource => "direct_join_to_source"@,
            Selector::MissingPropertiesFile => "missing_properties_file"@,
            Selector::DuplicateSources => "duplicate_sources"@,
            Selector::ModelFanout => "model_fanout"@,
            Selector::RootModels => "root_models"@,
            Selector::UnusedSources => "unused_sources"@,
            Selector::MissingPrimaryKey => "missing_primary_key"@,
            Selector::MissingRequiredTests => "missing_required_tests"@,
            Selector::MissingSourceFreshness => "missing_source_freshness"@,
            Selector::MultipleSourcesJoined => "multiple_sources_joined"@,
            Selector::RejoiningOfUpstreamConcepts => "rejoining_of_upstream_concepts"@,
            Selector::SourceFanout => "source_fanout"@,
            Selector::PublicModelsWithoutContract => "public_models_without_contract"@,
            Selector::DeadModel => "dead_model"@,
            Selector::ModelsSeparateFromPropertiesFile => "models_separate_from_properties_file"@,
            Selector::ExposureDependentOnPrivateModel => "exposure_dependent_on_private_model"@,
            Selector::ExposureParentsMaterializations => "exposure_parents_materializations"@,
        }
    }

    pub fn as_str(self) -> (r: &'static str)
        ensures
            r@ == self.name(),
    {
        match self {
            Selector::MissingColumnDescriptions => "missing_column_descriptions",
            Selector::MissingModelDescriptions => "missing_model_descriptions",
            Selector::MissingModelTags => "missing_model_tags",
            Selector::MissingSourceDescriptions => "missing_source_descriptions",
            Selector::MissingSourceTableDescriptions => "missing_source_table_descriptions",
            Selector::MissingSourceColumnDescriptions => "missing_source_column_descriptions",
            Selector::DirectJoinToSource => "direct_join_to_source",
            Selector::MissingPropertiesFile => "missing_properties_file",
            Selector::DuplicateSources => "duplicate_sources",
            Selector::ModelFanout => "model_fanout",
            Selector::RootModels => "root_models",
            Selector::UnusedSources => "unused_sources",
            Selector::MissingPrimaryKey => "missing_primary_key",
            Selector::MissingRequiredTests => "missing_required_tests",
            Selector::MissingSourceFreshness => "missing_source_freshness",
            Selector::MultipleSourcesJoined => "multiple_sources_joined",
            Selector::RejoiningOfUpstreamConcepts => "rejoining_of_upstream_concepts",
            Selector::SourceFanout => "source_fanout",
            Selector::PublicModelsWithoutContract => "public_models_without_contract",
            Selector::DeadModel => "dead_model",
            Selector::ModelsSeparateFromPropertiesFile => "models_separate_from_properties_file",
            Selector::ExposureDependentOnPrivateModel => "exposure_dependent_on_private_model",
            Selector::ExposureParentsMaterializations => "exposure_parents_materializations",
        }
    }

    /// The whole catalogue, in its fixed order.
    pub open spec fn catalogue() -> Seq<Selector> {
        seq![
            Selector::MissingColumnDescriptions,
            Selector::MissingModelDescriptions,
            Selector::MissingModelTags,
            Selector::MissingSourceDescriptions,
            Selector::MissingSourceTableDescriptions,
            Selector::MissingSourceColumnDescriptions,
            Selector::DirectJoinToSource,
            Selector::MissingPropertiesFile,
            Selector::DuplicateSources,
            Selector::ModelFanout,
            Selector::RootModels,
            Selector::UnusedSources,
            Selector::MissingPrimaryKey,
            Selector::MissingRequiredTests,
            Selector::MissingSourceFreshness,
            Selector::MultipleSourcesJoined,
            Selector::RejoiningOfUpstreamConcepts,
            Selector::SourceFanout,
            Selector::PublicModelsWithoutContract,
            Selector::DeadModel,
            Selector::ModelsSeparateFromPropertiesFile,
            Selector::ExposureDependentOnPrivateModel,
            Selector::ExposureParentsMaterializations,
        ]
    }

    pub fn all() -> (r: Vec<Selector>)
        ensures
            r@ == Selector::catalogue(),
    {
        let r = vec![
            Selector::MissingColumnDescriptions,
            Selector::MissingModelDescriptions,
            Selector::MissingModelTags,
            Selector::MissingSourceDescriptions,
            Selector::MissingSourceTableDescriptions,
            Selector::MissingSourceColumnDescriptions,
            Selector::DirectJoinToSource,
            Selector::MissingPropertiesFile,
            Selector::DuplicateSources,
            Selector::ModelFanout,
            Selector::RootModels,
            Selector::UnusedSources,
            Selector::MissingPrimaryKey,
            Selector::MissingRequiredTests,
            Selector::MissingSourceFreshness,
            Selector::MultipleSourcesJoined,
            Selector::RejoiningOfUpstreamConcepts,
            Selector::SourceFanout,
            Selector::PublicModelsWithoutContract,
            Selector::DeadModel,
            Selector::ModelsSeparateFromPropertiesFile,
            Selector::ExposureDependentOnPrivateModel,
            Selector::ExposureParentsMaterializations,
        ];
        assert(r@ =~= Selector::catalogue());
        r
    }

    /// The names of the rules, in catalogue order.
    pub open spec fn catalogue_names() -> Seq<Seq<char>> {
        Seq::new(Selector::catalogue().len(), |i: int| Selector::catalogue()[i].name())
    }

    /// The rule that `name` names: the first of the catalogue with that name.
    pub open spec fn named(name: Seq<char>) -> Option<Selector> {
        if crate::text::position(Selector::catalogue_names(), name)
            < Selector::catalogue().len() {
            Some(
                Selector::catalogue()[crate::text::position(Selector::catalogue_names(), name)],
            )
        } else {
            None
        }
    }

    /// The rule that `name` names, if it names one.
    pub fn from_name(name: &str) -> (r: Option<Selector>)
        ensures
            r == Selector::named(name@),
            match r {
                Some(s) => s.name() == name@,
                None => forall|s: Selector| s.name() != name@,
            },
    {
        let key = name.to_owned();
        let all = Selector::all();
        let ghost names = Selector::catalogue_names();
        let mut i: usize = 0;
        while i < all.len()
            invariant
                i <= all.len(),
                all@ == Selector::catalogue(),
                key@ == name@,
                names == Selector::catalogue_names(),
                forall|j: int| 0 <= j < i ==> #[trigger] names[j] != name@,
            decreases all.len() - i,
        {
            assert(names[i as int] == all@[i as int].name());
            if all[i].as_str().to_owned() == key {
                proof {
                    crate::text::lemma_position_is(names, name@, i as int);
                }
                return Some(all[i]);
            }
            i = i + 1;
        }
        proof {
            crate::text::lemma_position_is(names, name@, i as int);
            assert forall|s: Selector| s.name() != name@ by {
                lemma_catalogue_complete(s);
                let k = choose|k: int|
                    0 <= k < Selector::catalogue().len() && Selector::catalogue()[k] == s;
                assert(names[k] == s.name());
            }
        }
        None
    }
}

/// Every rule stands in the catalogue, once.
pub proof fn lemma_catalogue_complete(s: Selector)
    ensures
        Selector::catalogue().contains(s),
        exists|i: int| 0 <= i < Selector::catalogue().len() && Selector::catalogue()[i] == s,
{
    let c = Selector::catalogue();
    let i: int = match s {
        Selector::MissingColumnDescriptions => 0,
        Selector::MissingModelDescriptions => 1,
        Selector::MissingModelTags => 2,
        Selector::MissingSourceDescriptions => 3,
        Selector::MissingSourceTableDescriptions => 4,
        Selector::MissingSourceColumnDescriptions => 5,
        Selector::DirectJoinToSource => 6,
        Selector::MissingPropertiesFile => 7,
        Selector::DuplicateSources => 8,
        Selector::ModelFanout => 9,
        Selector::RootModels => 10,
        Selector::UnusedSources => 11,
        Selector::MissingPrimaryKey => 12,
        Selector::MissingRequiredTests => 13,
        Selector::MissingSourceFreshness => 14,
        Selector::MultipleSourcesJoined => 15,
        Selector::RejoiningOfUpstreamConcepts => 16,
        Selector::SourceFanout => 17,
        Selector::PublicModelsWithoutContract => 18,
        Selector::DeadModel => 19,
        Selector::ModelsSeparateFromPropertiesFile => 20,
        Selector::ExposureDependentOnPrivateModel => 21,
        Selector::ExposureParentsMaterializations => 22,
    };
    assert(c[i] == s);
}

/// Whether `list` holds `selector`.
pub fn contains_selector(list: &Vec<Selector>, selector: Selector) -> (r: bool)
    ensures
        r == list@.contains(selector),
{
    let mut i: usize = 0;
    while i < list.len()
        invariant
            i <= list.len(),
            forall|j: int| 0 <= j < i ==> list@[j] != selector,
        decreases list.len() - i,
    {
        if list[i] == selector {
            return true;
        }
        i = i + 1;
    }
    false
}

pub fn clone_selectors(list: &Vec<Selector>) -> (r: Vec<Selector>)
    ensures
        r@ == list@,
{
    let mut out: Vec<Selector> = Vec::new();
    let mut i: usize = 0;
    while i < list.len()
        invariant
            i <= list.len(),
            out@ == list@.take(i as int),
        decreases list.len() - i,
    {
        out.push(list[i]);
        assert(list@.take(i + 1) =~= list@.take(i as int).push(list@[i as int]));
        i = i + 1;
    }
    assert(list@.take(list.len() as int) =~= list@);
    out
}

/// What a run is configured with.
#[derive(Debug, Clone, PartialEq, Eq)]
pub struct Config {
    pub select: Vec<Selector>,
    pub exclude: Vec<Selector>,
    pub fixable: Vec<Selector>,
    pub unfixable: Vec<Selector>,
    /// Fixes are computed only when this is set.
    pub fix: bool,
    pub project_dir: Option<String>,
    pub model_fanout_threshold: usize,
    pub required_tests: Vec<String>,
    /// Descriptions that count as absent, compared trimmed and without
    /// regard to ASCII case.
    pub invalid_descriptions: Vec<String>,
    /// Propagated descriptions are written verbatim when set; otherwise a
    /// reference to a documentation block with the same text is preferred.
    pub render_descriptions: bool,
    pub writeback: WritebackMethod,
}

/// What a run is configured with, as plain values.
pub struct ConfigView {
    pub select: Seq<Selector>,
    pub exclude: Seq<Selector>,
    pub fixable: Seq<Selector>,
    pub unfixable: Seq<Selector>,
    pub fix: bool,
    pub project_dir: Option<Seq<char>>,
    pub model_fanout_threshold: nat,
    pub required_tests: Seq<Seq<char>>,
    pub invalid_descriptions: Seq<Seq<char>>,
    pub render_descriptions: bool,
    pub writeback: WritebackMethod,
}

impl View for Config {
    type V = ConfigView;

    open spec fn view(&self) -> ConfigView {
        ConfigView {
            select: self.select@,
            exclude: self.exclude@,
            fixable: self.fixable@,
            unfixable: self.unfixable@,
            fix: self.fix,
            project_dir: self.project_dir.deep_view(),
            model_fanout_threshold: self.model_fanout_threshold as nat,
            required_tests: self.required_tests.deep_view(),
            invalid_descriptions: self.invalid_descriptions.deep_view(),
            render_descriptions: self.render_descriptions,
            writeback: self.writeback,
        }
    }
}

impl ConfigView {
    /// The configuration that holds when nothing is configured: every rule
    /// is selected, every rule that has a fix may be fixed, fixing is off.
    pub open spec fn defaults() -> ConfigView {
        ConfigView {
            select: Selector::catalogue(),
            exclude: Seq::empty(),
            fixable: Selector::catalogue().filter(|s: Selector| s.fixable()),
            unfixable: Seq::empty(),
            fix: false,
            project_dir: None,
            model_fanout_threshold: 3,
            required_tests: Seq::empty(),
            invalid_descriptions: default_markers(),
            render_descriptions: false,
            writeback: WritebackMethod::Python,
        }
    }
}

pub fn default_writeback() -> (r: WritebackMethod)
    ensures
        r == WritebackMethod::Python,
{
    WritebackMethod::Python
}

pub fn default_select() -> (r: Vec<Selector>)
    ensures
        r@ == Selector::catalogue(),
{
    Selector::all()
}

pub fn default_model_fanout_threshold() -> (r: usize)
    ensures
        r == 3,
{
    3
}

/// The rules of the catalogue that have a fix, in catalogue order.
pub fn default_fixable() -> (r: Vec<Selector>)
    ensures
        r@ == Selector::catalogue().filter(|s: Selector| s.fixable()),
        forall|s: Selector| r@.contains(s) <==> s.fixable(),
{
    let all = Selector::all();
    let mut out: Vec<Selector> = Vec::new();
    let ghost pred = |s: Selector| s.fixable();
    let mut i: usize = 0;
    while i < all.len()
        invariant
            i <= all.len(),
            all@ == Selector::catalogue(),
            pred == |s: Selector| s.fixable(),
            out@ == all@.take(i as int).filter(pred),
        decreases all.len() - i,
    {
        proof {
            let before = all@.take(i as int);
            let after = all@.take(i + 1);
            assert(after.drop_last() =~= before);
            assert(after.last() == all@[i as int]);
            reveal(Seq::filter);
        }
        if all[i].is_statically_fixable() {
            out.push(all[i]);
        }
        i = i + 1;
    }
    proof {
        assert(all@.take(all.len() as int) =~= all@);
        assert forall|s: Selector| out@.contains(s) <==> s.fixable() by {
            lemma_catalogue_complete(s);
            broadcast use vstd::seq_lib::group_filter_ensures;
            if s.fixable() {
                let k = choose|k: int|
                    0 <= k < Selector::catalogue().len() && Selector::catalogue()[k] == s;
                assert(pred(Selector::catalogue()[k]));
            }
        }
    }
    out
}

/// The markers that stand for "no description yet".
pub open spec fn default_markers() -> Seq<Seq<char>> {
    seq!["TBD"@, "FILL ME OUT"@]
}

pub fn default_invalid_descriptions() -> (r: Vec<String>)
    ensures
        r@.len() == 2,
        r@[0]@ == "TBD"@,
        r@[1]@ == "FILL ME OUT"@,
{
    let mut out: Vec<String> = Vec::new();
    out.push("TBD".to_owned());
    out.push("FILL ME OUT".to_owned());
    out
}

impl Default for Config {
    fn default() -> (r: Self)
        ensures
            r.select@ == Selector::catalogue(),
            r.exclude@.len() == 0,
            forall|s: Selector| r.fixable@.contains(s) <==> s.fixable(),
            r.fixable@ == Selector::catalogue().filter(|s: Selector| s.fixable()),
            r.unfixable@.len() == 0,
            !r.fix,
            r.project_dir is None,
            r.model_fanout_threshold == 3,
            r@ == ConfigView::defaults(),
            r.required_tests@.len() == 0,
            r.invalid_descriptions@.len() == 2,
            r.invalid_descriptions@[0]@ == "TBD"@,
            r.invalid_descriptions@[1]@ == "FILL ME OUT"@,
            !r.render_descriptions,
            r.writeback == WritebackMethod::Python,
    {
        let r = Config {
            select: default_select(),
            exclude: Vec::new(),
            fixable: default_fixable(),
            unfixable: Vec::new(),
            fix: false,
            project_dir: None,
            model_fanout_threshold: default_model_fanout_threshold(),
            required_tests: Vec::new(),
            invalid_descriptions: default_invalid_descriptions(),
            render_descriptions: false,
            writeback: default_writeback(),
        };
        assert(r@.exclude =~= Seq::empty());
        assert(r@.unfixable =~= Seq::empty());
        assert(r@.required_tests =~= Seq::empty());
        assert(r@.invalid_descriptions =~= default_markers());
        r
    }
}

impl ConfigView {
    /// A rule runs when it is selected and not excluded.
    pub open spec fn selected(self, selector: Selector) -> bool {
        self.select.contains(selector) && !self.exclude.contains(selector)
    }

    /// A rule is fixed when fixing is on, the rule runs, and it is listed as
    /// fixable and not as unfixable.
    pub open spec fn can_fix(self, selector: Selector) -> bool {
        &&& self.fix
        &&& self.selected(selector)
        &&& self.fixable.contains(selector)
        &&& !self.unfixable.contains(selector)
    }
}

impl Config {
    pub fn is_selected(&self, selector: Selector) -> (r: bool)
        ensures
            r == self@.selected(selector),
    {
        contains_selector(&self.select, selector) && !contains_selector(&self.exclude, selector)
    }

    pub fn is_fixable(&self, selector: Selector) -> (r: bool)
        ensures
            r == self@.can_fix(selector),
    {
        self.fix && self.is_selected(selector) && contains_selector(&self.fixable, selector)
            && !contains_selector(&self.unfixable, selector)
    }

    /// The same configuration with fixing switched on or off.
    pub fn with_fix(self, enable: bool) -> (r: Self)
        ensures
            r@ == (ConfigView { fix: enable, ..self@ }),
    {
        let mut out = self;
        out.fix = enable;
        out
    }

    /// A copy, field for field.
    pub fn duplicate(&self) -> (r: Self)
        ensures
            r@ == self@,
    {
        let r = Config {
            select: clone_selectors(&self.select),
            exclude: clone_selectors(&self.exclude),
            fixable: clone_selectors(&self.fixable),
            unfixable: clone_selectors(&self.unfixable),
            fix: self.fix,
            project_dir: clone_opt_text(&self.project_dir),
            model_fanout_threshold: self.model_fanout_threshold,
            required_tests: clone_texts(&self.required_tests),
            invalid_descriptions: clone_texts(&self.invalid_descriptions),
            render_descriptions: self.render_descriptions,
            writeback: self.writeback,
        };
        assert(r@.required_tests =~= self@.required_tests);
        assert(r@.invalid_descriptions =~= self@.invalid_descriptions);
        r
    }
}

/// What is wrong with a configuration before any rule runs.
#[derive(Debug, Clone, PartialEq, Eq)]
pub enum ConfigError {
    /// Keys that no configuration field answers to; the text lists each
    /// with a suggestion where one is near, and the supported keys.
    UnknownKeys(String),
    /// A selector list names a rule that the catalogue does not hold.
    UnknownSelector(String),
    /// The configuration is not a table at its root.
    InvalidRoot,
    /// The value of a key is not of the kind that the key asks for.
    InvalidValue { key: String },
}

pub enum ConfigErrorView {
    UnknownKeys(Seq<char>),
    UnknownSelector(Seq<char>),
    InvalidRoot,
    InvalidValue { key: Seq<char> },
}

impl View for ConfigError {
    type V = ConfigErrorView;

    open spec fn view(&self) -> ConfigErrorView {
        match self {
            ConfigError::UnknownKeys(text) => ConfigErrorView::UnknownKeys(text@),
            ConfigError::UnknownSelector(name) => ConfigErrorView::UnknownSelector(name@),
            ConfigError::InvalidRoot => ConfigErrorView::InvalidRoot,
            ConfigError::InvalidValue { key } => ConfigErrorView::InvalidValue { key: key@ },
        }
    }
}

/// The names of all rules, each in backquotes.
pub open spec fn quoted_names() -> Seq<Seq<char>> {
    Seq::new(Selector::catalogue().len(), |i: int| "`"@ + Selector::catalogue()[i].name() + "`"@)
}

impl ConfigError {
    /// The text that reports the error.
    pub open spec fn text(self) -> Seq<char> {
        match self {
            ConfigError::UnknownKeys(text) => text@,
            ConfigError::UnknownSelector(name) => "unknown variant `"@ + name@
                + "`, expected one of "@ + joined(quoted_names(), ", "@),
            ConfigError::InvalidRoot => "Config must be a TOML table at the root"@,
            ConfigError::InvalidValue { key } => "Invalid config: invalid value for `"@ + key@
                + "`"@,
        }
    }

    pub fn to_string(&self) -> (r: String)
        ensures
            r@ == self.text(),
    {
        match self {
            ConfigError::UnknownKeys(text) => text.clone(),
            ConfigError::UnknownSelector(name) => {
                let all = Selector::all();
                let mut names: Vec<String> = Vec::new();
                let mut i: usize = 0;
                while i < all.len()
                    invariant
                        i <= all.len(),
                        all@ == Selector::catalogue(),
                        names@.len() == i,
                        forall|j: int| 0 <= j < i ==> (#[trigger] names@[j])@ == quoted_names()[j],
                    decreases all.len() - i,
                {
                    names.push("`".to_owned().concat(all[i].as_str()).concat("`"));
                    i = i + 1;
                }
                assert(texts_of(names@) =~= quoted_names());
                "unknown variant `".to_owned().concat(name.as_str()).concat(
                    "`, expected one of ",
                ).concat(join(&names, ", ").as_str())
            },
            ConfigError::InvalidRoot => "Config must be a TOML table at the root".to_owned(),
            ConfigError::InvalidValue { key } => "Invalid config: invalid value for `".to_owned().concat(
                key.as_str(),
            ).concat("`"),
        }
    }
}

/// The keys a configuration may hold, in the order of the fields.
pub open spec fn key_names() -> Seq<Seq<char>> {
    seq![
        "select"@,
        "exclude"@,
        "fixable"@,
        "unfixable"@,
        "fix"@,
        "project_dir"@,
        "model_fanout_threshold"@,
        "required_tests"@,
        "invalid_descriptions"@,
        "render_descriptions"@,
        "writeback"@,
    ]
}

pub fn supported_keys() -> (r: Vec<String>)
    ensures
        texts_of(r@) == key_names(),
{
    let mut out: Vec<String> = Vec::new();
    out.push("select".to_owned());
    out.push("exclude".to_owned());
    out.push("fixable".to_owned());
    out.push("unfixable".to_owned());
    out.push("fix".to_owned());
    out.push("project_dir".to_owned());
    out.push("model_fanout_threshold".to_owned());
    out.push("required_tests".to_owned());
    out.push("invalid_descriptions".to_owned());
    out.push("render_descriptions".to_owned());
    out.push("writeback".to_owned());
    assert(texts_of(out@) =~= key_names());
    out
}

/// The least of three numbers.
pub open spec fn least(x: nat, y: nat, z: nat) -> nat {
    if x <= y && x <= z {
        x
    } else if y <= z {
        y
    } else {
        z
    }
}

/// The Levenshtein distance of two texts: the least number of characters
/// to insert, to delete or to replace that turns `a` into `b`.
pub open spec fn levenshtein_distance(a: Seq<char>, b: Seq<char>) -> nat
    decreases a.len() + b.len(),
{
    if a.len() == 0 {
        b.len()
    } else if b.len() == 0 {
        a.len()
    } else {
        least(
            levenshtein_distance(a.drop_last(), b) + 1,
            levenshtein_distance(a, b.drop_last()) + 1,
            levenshtein_distance(a.drop_last(), b.drop_last()) + if a.last() == b.last() {
                0nat
            } else {
                1nat
            },
        )
    }
}

/// Calls `strsim::levenshtein`, which returns the Levenshtein distance of
/// its two arguments read as sequences of characters: the least number of
/// insertions, deletions and substitutions that changes one into the other.
#[verifier::external_body]
fn levenshtein(a: &str, b: &str) -> (d: usize)
    ensures
        d == levenshtein_distance(a@, b@),
{
    strsim::levenshtein(a, b)
}

/// A suggestion is offered only within this edit distance.
pub open spec fn suggestion_limit() -> nat {
    3
}

/// `i` is the first position of `d` that holds its least value.
pub open spec fn is_first_min(d: Seq<nat>, i: int) -> bool {
    &&& 0 <= i < d.len()
    &&& forall|j: int| 0 <= j < d.len() ==> d[i] <= #[trigger] d[j]
    &&& forall|j: int| 0 <= j < i ==> d[i] < #[trigger] d[j]
}

/// The first position of `d` that holds its least value; 0 for an empty `d`.
pub open spec fn first_min(d: Seq<nat>) -> int
    decreases d.len(),
{
    if d.len() <= 1 {
        0
    } else {
        let before = first_min(d.drop_last());
        if d.last() < d[before] {
            d.len() - 1
        } else {
            before
        }
    }
}

/// In a sequence that is not empty, `first_min` is the first position of
/// the least value.
pub proof fn lemma_first_min(d: Seq<nat>)
    requires
        d.len() > 0,
    ensures
        is_first_min(d, first_min(d)),
    decreases d.len(),
{
    if d.len() > 1 {
        let rest = d.drop_last();
        lemma_first_min(rest);
        let before = first_min(rest);
        assert(rest[before] == d[before]);
        assert forall|j: int| 0 <= j < d.len() implies d[first_min(d)] <= #[trigger] d[j] by {
            if j < rest.len() {
                assert(rest[j] == d[j]);
            }
        }
        assert forall|j: int| 0 <= j < first_min(d) implies d[first_min(d)] < #[trigger] d[j] by {
            assert(rest[j] == d[j]);
        }
    }
}

/// At most one position is the first that holds the least value.
pub proof fn lemma_first_min_unique(d: Seq<nat>, i: int, j: int)
    requires
        is_first_min(d, i),
        is_first_min(d, j),
    ensures
        i == j,
{
    if i < j {
        assert(d[j] < d[i]);
        assert(d[i] <= d[j]);
    } else if j < i {
        assert(d[i] < d[j]);
        assert(d[j] <= d[i]);
    }
}

/// The position of the suggestion among candidates at the distances `d`:
/// the first of the nearest, if it is within the limit.
pub open spec fn suggestion_at(d: Seq<nat>) -> Option<int> {
    if d.len() > 0 && d[first_min(d)] <= suggestion_limit() {
        Some(first_min(d))
    } else {
        None
    }
}

/// The distances in `d` as numbers.
pub open spec fn as_nats(d: Seq<usize>) -> Seq<nat> {
    Seq::new(d.len(), |i: int| d[i] as nat)
}

/// Picks the suggestion among candidates that lie at the distances `d`.
pub fn pick_suggestion(d: &Vec<usize>) -> (r: Option<usize>)
    ensures
        match r {
            Some(i) => i < d.len() && suggestion_at(as_nats(d@)) == Some(i as int),
            None => suggestion_at(as_nats(d@)) is None,
        },
{
    if d.len() == 0 {
        return None;
    }
    let ghost n = as_nats(d@);
    let mut best: usize = 0;
    let mut i: usize = 1;
    while i < d.len()
        invariant
            1 <= i <= d.len(),
            best < i,
            forall|j: int| 0 <= j < i ==> d@[best as int] <= #[trigger] d@[j],
            forall|j: int| 0 <= j < best ==> d@[best as int] < #[trigger] d@[j],
        decreases d.len() - i,
    {
        if d[i] < d[best] {
            best = i;
        }
        i = i + 1;
    }
    proof {
        lemma_first_min(n);
        assert(is_first_min(n, best as int)) by {
            assert forall|j: int| 0 <= j < n.len() implies n[best as int] <= #[trigger] n[j] by {
                assert(d@[best as int] <= d@[j]);
            }
            assert forall|j: int| 0 <= j < best implies n[best as int] < #[trigger] n[j] by {
                assert(d@[best as int] < d@[j]);
            }
        }
        lemma_first_min_unique(n, best as int, first_min(n));
    }
    if d[best] <= 3 {
        Some(best)
    } else {
        None
    }
}

/// The distances from `unknown` to each of `candidates`.
pub open spec fn distances_to(unknown: Seq<char>, candidates: Seq<Seq<char>>) -> Seq<nat> {
    Seq::new(candidates.len(), |i: int| levenshtein_distance(unknown, candidates[i]))
}

/// The supported key to suggest for `unknown`: the first of those nearest
/// to it by edit distance, if that distance is within the limit.
pub open spec fn suggested_key(unknown: Seq<char>) -> Option<Seq<char>> {
    match suggestion_at(distances_to(unknown, key_names())) {
        Some(i) => Some(key_names()[i]),
        None => None,
    }
}

/// The text of an optional string.
pub open spec fn opt_text(s: Option<String>) -> Option<Seq<char>> {
    match s {
        Some(t) => Some(t@),
        None => None,
    }
}

/// The supported key nearest to `unknown`, if one lies within the limit.
pub fn find_suggestion(unknown: &str) -> (r: Option<String>)
    ensures
        opt_text(r) == suggested_key(unknown@),
{
    let keys = supported_keys();
    let mut d: Vec<usize> = Vec::new();
    let mut i: usize = 0;
    while i < keys.len()
        invariant
            i <= keys.len(),
            texts_of(keys@) == key_names(),
            as_nats(d@) == distances_to(unknown@, key_names()).take(i as int),
        decreases keys.len() - i,
    {
        let dist = levenshtein(unknown, keys[i].as_str());
        assert(texts_of(keys@).len() == keys@.len());
        assert(texts_of(keys@)[i as int] == keys@[i as int]@);
        let ghost old_d = d@;
        d.push(dist);
        assert(as_nats(d@) =~= as_nats(old_d).push(dist as nat));
        assert(as_nats(d@) =~= distances_to(unknown@, key_names()).take(i + 1));
        i = i + 1;
    }
    assert(texts_of(keys@).len() == keys@.len());
    assert(as_nats(d@) =~= distances_to(unknown@, key_names()));
    match pick_suggestion(&d) {
        Some(best) => {
            assert(texts_of(keys@)[best as int] == keys@[best as int]@);
            Some(keys[best].clone())
        },
        None => None,
    }
}

/// The line that reports one unknown key.
pub open spec fn unknown_key_line(key: Seq<char>, suggestion: Option<Seq<char>>) -> Seq<char> {
    match suggestion {
        Some(s) => "Unknown config key `"@ + key + "`. Did you mean `"@ + s + "`?"@,
        None => "Unknown config key `"@ + key + "`."@,
    }
}

fn unknown_key_message(key: &str, suggestion: &Option<String>) -> (r: String)
    ensures
        r@ == unknown_key_line(key@, opt_text(*suggestion)),
{
    match suggestion {
        Some(s) => "Unknown config key `".to_owned().concat(key).concat(
            "`. Did you mean `",
        ).concat(s.as_str()).concat("`?"),
        None => "Unknown config key `".to_owned().concat(key).concat("`."),
    }
}

/// Whether `key` is one of the supported keys.
pub open spec fn is_known_key(key: Seq<char>) -> bool {
    key_names().contains(key)
}

/// One line for each of `keys` that is not supported, in order.
pub open spec fn unknown_key_lines(keys: Seq<Seq<char>>) -> Seq<Seq<char>>
    decreases keys.len(),
{
    if keys.len() == 0 {
        Seq::<Seq<char>>::empty()
    } else if is_known_key(keys.last()) {
        unknown_key_lines(keys.drop_last())
    } else {
        unknown_key_lines(keys.drop_last()).push(
            unknown_key_line(keys.last(), suggested_key(keys.last())),
        )
    }
}

/// The last line of the report: the keys that are supported.
pub open spec fn supported_keys_line() -> Seq<char> {
    "Supported keys: "@ + joined(key_names(), ", "@)
}

/// The whole report on the unknown keys among `keys`.
pub open spec fn unknown_keys_report(keys: Seq<Seq<char>>) -> Seq<char> {
    joined(unknown_key_lines(keys).push(supported_keys_line()), "\n"@)
}

/// Checks the top-level keys of a configuration. It passes exactly when
/// every key is a supported one; otherwise the error's text holds one line
/// for each unknown key, in order, and a last line with the supported keys.
pub fn validate_keys(keys: &Vec<String>) -> (r: Result<(), ConfigError>)
    ensures
        r is Ok <==> forall|i: int| 0 <= i < keys.len() ==> is_known_key(#[trigger] keys@[i]@),
        r matches Err(e) ==> e matches ConfigError::UnknownKeys(text) && text@
            == unknown_keys_report(texts_of(keys@)),
{
    let known = supported_keys();
    let mut lines: Vec<String> = Vec::new();
    let mut i: usize = 0;
    while i < keys.len()
        invariant
            i <= keys.len(),
            texts_of(known@) == key_names(),
            texts_of(lines@) == unknown_key_lines(texts_of(keys@).take(i as int)),
            lines@.len() == 0 <==> forall|j: int|
                0 <= j < i ==> is_known_key(#[trigger] keys@[j]@),
        decreases keys.len() - i,
    {
        let found = contains_text(&known, &keys[i]);
        proof {
            let before = texts_of(keys@).take(i as int);
            let after = texts_of(keys@).take(i + 1);
            assert(after.drop_last() =~= before);
            assert(after.last() == keys@[i as int]@);
            if found {
                let k = choose|k: int|
                    0 <= k < known@.len() && (#[trigger] known@[k])@ == keys@[i as int]@;
                assert(texts_of(known@)[k] == known@[k]@);
                assert(key_names().contains(keys@[i as int]@));
            } else {
                if is_known_key(keys@[i as int]@) {
                    let k = choose|k: int|
                        0 <= k < key_names().len() && key_names()[k] == keys@[i as int]@;
                    assert(texts_of(known@)[k] == known@[k]@);
                    assert(holds_text(known@, keys@[i as int]@));
                }
            }
        }
        if !found {
            let suggestion = find_suggestion(keys[i].as_str());
            let line = unknown_key_message(keys[i].as_str(), &suggestion);
            let ghost old_lines = lines@;
            lines.push(line);
            assert(texts_of(lines@) =~= texts_of(old_lines).push(line@));
        }
        i = i + 1;
    }
    assert(texts_of(keys@).take(keys.len() as int) =~= texts_of(keys@));
    if lines.len() == 0 {
        Ok(())
    } else {
        let last = "Supported keys: ".to_owned().concat(join(&known, ", ").as_str());
        let ghost old_lines = lines@;
        lines.push(last);
        assert(texts_of(lines@) =~= texts_of(old_lines).push(last@));
        Err(ConfigError::UnknownKeys(join(&lines, "\n")))
    }
}

/// The name among `names` that is no rule's, at each place that holds one.
pub open spec fn unknown_names(names: Seq<Seq<char>>) -> Seq<Option<Seq<char>>> {
    Seq::new(
        names.len(),
        |i: int|
            if Selector::named(names[i]) is None {
                Some(names[i])
            } else {
                None
            },
    )
}

/// The rules that `names` name, or the first name that is no rule's.
pub open spec fn parsed_selectors(names: Seq<Seq<char>>) -> Result<Seq<Selector>, Seq<char>> {
    match crate::text::first_some(unknown_names(names)) {
        Some(bad) => Err(bad),
        None => Ok(Seq::new(names.len(), |i: int| Selector::named(names[i]).unwrap())),
    }
}

/// Reads a list of rule names. It fails on the first name that the
/// catalogue does not hold, and reports that name.
#[verifier::loop_isolation(false)]
pub fn parse_selectors(names: &Vec<String>) -> (r: Result<Vec<Selector>, ConfigError>)
    ensures
        match parsed_selectors(texts_of(names@)) {
            Ok(list) => r matches Ok(found) && found@ == list,
            Err(bad) => r matches Err(ConfigError::UnknownSelector(name)) && name@ == bad,
        },
{
    let ghost all = texts_of(names@);
    let ghost flags = unknown_names(all);
    let mut out: Vec<Selector> = Vec::new();
    let mut i: usize = 0;
    while i < names.len()
        invariant
            i <= names.len(),
            out@.len() == i,
            forall|j: int| 0 <= j < i ==> (#[trigger] flags[j]) is None,
            forall|j: int| 0 <= j < i ==> Selector::named(all[j]) == Some(#[trigger] out@[j]),
        decreases names.len() - i,
    {
        assert(all[i as int] == names@[i as int]@);
        match Selector::from_name(names[i].as_str()) {
            Some(s) => {
                out.push(s);
            },
            None => {
                proof {
                    crate::text::lemma_first_some_is(flags, i as int);
                }
                return Err(ConfigError::UnknownSelector(names[i].clone()));
            },
        }
        i = i + 1;
    }
    proof {
        crate::text::lemma_first_some_is(flags, i as int);
        assert(out@ =~= Seq::new(all.len(), |i: int| Selector::named(all[i]).unwrap()));
    }
    Ok(out)
}

} // verus!
