//! The configuration as a file holds it: keys with their values at the top
//! level, and overrides for a target, or for a target of a profile. An
//! override replaces the values of the keys that it holds; then the keys
//! are checked and the values are read into a configuration.

use vstd::prelude::*;
use crate::text::position;
use crate::text::lemma_position_is;
use crate::text::first_some;
use crate::text::lemma_first_some_is;
use crate::text::texts_of;
use crate::lists::copy_texts;
use crate::config::Config;
use crate::config::ConfigView;
use crate::config::ConfigError;
use crate::config::ConfigErrorView;
use crate::config::Selector;
use crate::config::WritebackMethod;
use crate::config::parse_selectors;
use crate::config::parsed_selectors;
use crate::config::validate_keys;
use crate::config::is_known_key;
use crate::config::unknown_keys_report;
use crate::config::default_select;
use crate::config::default_fixable;
use crate::config::default_invalid_descriptions;
use crate::config::default_markers;

verus! {

/// A value of a configuration key.
#[derive(Debug, Clone, PartialEq, Eq)]
pub enum ConfigValue {
    Text(String),
    Integer(i64),
    Boolean(bool),
    TextList(Vec<String>),
    /// A value of any other kind, as the file writes it.
    Other(String),
}

pub enum ConfigValueView {
    Text(Seq<char>),
    Integer(int),
    Boolean(bool),
    TextList(Seq<Seq<char>>),
    Other(Seq<char>),
}

impl View for ConfigValue {
    type V = ConfigValueView;

    open spec fn view(&self) -> ConfigValueView {
        match self {
            ConfigValue::Text(t) => ConfigValueView::Text(t@),
            ConfigValue::Integer(i) => ConfigValueView::Integer(*i as int),
            ConfigValue::Boolean(b) => ConfigValueView::Boolean(*b),
            ConfigValue::TextList(list) => ConfigValueView::TextList(list.deep_view()),
            ConfigValue::Other(t) => ConfigValueView::Other(t@),
        }
    }
}

impl DeepView for ConfigValue {
    type V = ConfigValueView;

    open spec fn deep_view(&self) -> ConfigValueView {
        self@
    }
}

impl ConfigValue {
    pub fn duplicate(&self) -> (r: ConfigValue)
        ensures
            r@ == self@,
    {
        match self {
            ConfigValue::Text(t) => ConfigValue::Text(t.clone()),
            ConfigValue::Integer(i) => ConfigValue::Integer(*i),
            ConfigValue::Boolean(b) => ConfigValue::Boolean(*b),
            ConfigValue::TextList(list) => ConfigValue::TextList(copy_texts(list)),
            ConfigValue::Other(t) => ConfigValue::Other(t.clone()),
        }
    }
}

/// A key with its value.
#[derive(Debug, Clone, PartialEq, Eq)]
pub struct ConfigEntry {
    pub key: String,
    pub value: ConfigValue,
}

pub struct ConfigEntryView {
    pub key: Seq<char>,
    pub value: ConfigValueView,
}

impl View for ConfigEntry {
    type V = ConfigEntryView;

    open spec fn view(&self) -> ConfigEntryView {
        ConfigEntryView { key: self.key@, value: self.value@ }
    }
}

impl DeepView for ConfigEntry {
    type V = ConfigEntryView;

    open spec fn deep_view(&self) -> ConfigEntryView {
        self@
    }
}

impl ConfigEntry {
    pub fn duplicate(&self) -> (r: ConfigEntry)
        ensures
            r@ == self@,
    {
        ConfigEntry { key: self.key.clone(), value: self.value.duplicate() }
    }
}

/// The values that hold for one target, or for one target of one profile.
#[derive(Debug, Clone, PartialEq, Eq)]
pub struct TargetOverride {
    pub profile: Option<String>,
    pub target: String,
    pub entries: Vec<ConfigEntry>,
}

pub struct TargetOverrideView {
    pub profile: Option<Seq<char>>,
    pub target: Seq<char>,
    pub entries: Seq<ConfigEntryView>,
}

impl View for TargetOverride {
    type V = TargetOverrideView;

    open spec fn view(&self) -> TargetOverrideView {
        TargetOverrideView {
            profile: self.profile.deep_view(),
            target: self.target@,
            entries: self.entries.deep_view(),
        }
    }
}

impl DeepView for TargetOverride {
    type V = TargetOverrideView;

    open spec fn deep_view(&self) -> TargetOverrideView {
        self@
    }
}

/// A configuration file.
#[derive(Debug, Clone, PartialEq, Eq)]
pub struct ConfigFile {
    pub base: Vec<ConfigEntry>,
    pub target: Vec<TargetOverride>,
}

pub struct ConfigFileView {
    pub base: Seq<ConfigEntryView>,
    pub target: Seq<TargetOverrideView>,
}

impl View for ConfigFile {
    type V = ConfigFileView;

    open spec fn view(&self) -> ConfigFileView {
        ConfigFileView { base: self.base.deep_view(), target: self.target.deep_view() }
    }
}

pub open spec fn entry_keys(entries: Seq<ConfigEntryView>) -> Seq<Seq<char>> {
    Seq::new(entries.len(), |i: int| entries[i].key)
}

/// The value of `key`: that of the first entry with this key.
pub open spec fn value_of(entries: Seq<ConfigEntryView>, key: Seq<char>) -> Option<
    ConfigValueView,
> {
    if position(entry_keys(entries), key) < entries.len() {
        Some(entries[position(entry_keys(entries), key)].value)
    } else {
        None
    }
}

/// The entries after `entry` was laid over them: it replaces the first
/// entry of its key, or is appended.
pub open spec fn overlaid(entries: Seq<ConfigEntryView>, entry: ConfigEntryView) -> Seq<
    ConfigEntryView,
> {
    if position(entry_keys(entries), entry.key) < entries.len() {
        entries.update(position(entry_keys(entries), entry.key), entry)
    } else {
        entries.push(entry)
    }
}

/// The entries after the first `n` of `over` were laid over them.
pub open spec fn merged_entries(
    base: Seq<ConfigEntryView>,
    over: Seq<ConfigEntryView>,
    n: int,
) -> Seq<ConfigEntryView>
    decreases n,
{
    if n <= 0 {
        base
    } else {
        overlaid(merged_entries(base, over, n - 1), over[n - 1])
    }
}

/// Whether an override is the one for `target`: with a profile given, the
/// override of that profile; without one, the override of no profile.
pub open spec fn override_matches(
    o: TargetOverrideView,
    profile: Seq<char>,
    target: Seq<char>,
) -> bool {
    o.target == target && (if profile.len() > 0 {
        o.profile == Some(profile)
    } else {
        o.profile is None
    })
}

pub open spec fn override_candidate(
    o: TargetOverrideView,
    profile: Seq<char>,
    target: Option<Seq<char>>,
) -> Option<Seq<ConfigEntryView>> {
    match target {
        Some(t) => if override_matches(o, profile, t) {
            Some(o.entries)
        } else {
            None
        },
        None => None,
    }
}

/// The entries that hold for a run: the top level, with the first
/// override that matches laid over it.
pub open spec fn effective_entries(
    file: ConfigFileView,
    profile: Seq<char>,
    target: Option<Seq<char>>,
) -> Seq<ConfigEntryView> {
    match first_some(
        Seq::new(file.target.len(), |i: int| override_candidate(file.target[i], profile, target)),
    ) {
        Some(over) => merged_entries(file.base, over, over.len() as int),
        None => file.base,
    }
}

/// What the check of the keys finds.
pub open spec fn keys_error(keys: Seq<Seq<char>>) -> Option<ConfigErrorView> {
    if forall|i: int| 0 <= i < keys.len() ==> is_known_key(#[trigger] keys[i]) {
        None
    } else {
        Some(ConfigErrorView::UnknownKeys(unknown_keys_report(keys)))
    }
}

/// A list of rules under `key`; `default` when the key is absent.
pub open spec fn selectors_at(
    entries: Seq<ConfigEntryView>,
    key: Seq<char>,
    default: Seq<Selector>,
) -> Result<Seq<Selector>, ConfigErrorView> {
    match value_of(entries, key) {
        None => Ok(default),
        Some(ConfigValueView::TextList(names)) => match parsed_selectors(names) {
            Ok(list) => Ok(list),
            Err(bad) => Err(ConfigErrorView::UnknownSelector(bad)),
        },
        Some(_) => Err(ConfigErrorView::InvalidValue { key }),
    }
}

/// A list of texts under `key`; `default` when the key is absent.
pub open spec fn texts_at(
    entries: Seq<ConfigEntryView>,
    key: Seq<char>,
    default: Seq<Seq<char>>,
) -> Result<Seq<Seq<char>>, ConfigErrorView> {
    match value_of(entries, key) {
        None => Ok(default),
        Some(ConfigValueView::TextList(list)) => Ok(list),
        Some(_) => Err(ConfigErrorView::InvalidValue { key }),
    }
}

/// A count under `key`; `default` when the key is absent.
pub open spec fn count_at(entries: Seq<ConfigEntryView>, key: Seq<char>, default: nat) -> Result<
    nat,
    ConfigErrorView,
> {
    match value_of(entries, key) {
        None => Ok(default),
        Some(ConfigValueView::Integer(i)) => if 0 <= i <= usize::MAX {
            Ok(i as nat)
        } else {
            Err(ConfigErrorView::InvalidValue { key })
        },
        Some(_) => Err(ConfigErrorView::InvalidValue { key }),
    }
}

/// A flag under `key`; `default` when the key is absent.
pub open spec fn flag_at(entries: Seq<ConfigEntryView>, key: Seq<char>, default: bool) -> Result<
    bool,
    ConfigErrorView,
> {
    match value_of(entries, key) {
        None => Ok(default),
        Some(ConfigValueView::Boolean(b)) => Ok(b),
        Some(_) => Err(ConfigErrorView::InvalidValue { key }),
    }
}

/// The writeback method under `key`.
pub open spec fn method_at(entries: Seq<ConfigEntryView>, key: Seq<char>) -> Result<
    WritebackMethod,
    ConfigErrorView,
> {
    match value_of(entries, key) {
        None => Ok(WritebackMethod::Python),
        Some(ConfigValueView::Text(t)) => if t == "python"@ {
            Ok(WritebackMethod::Python)
        } else if t == "rust"@ {
            Ok(WritebackMethod::Rust)
        } else {
            Err(ConfigErrorView::InvalidValue { key })
        },
        Some(_) => Err(ConfigErrorView::InvalidValue { key }),
    }
}

/// The configuration that `entries` give for the project at `project_dir`,
/// or what is wrong with them: first the keys are checked, then the values
/// are read key by key, and the first error ends the reading. Fixing is
/// off; it is switched on by the caller.
pub open spec fn configured(entries: Seq<ConfigEntryView>, project_dir: Seq<char>) -> Result<
    ConfigView,
    ConfigErrorView,
> {
    match keys_error(entry_keys(entries)) {
        Some(e) => Err(e),
        None => match selectors_at(entries, "select"@, Selector::catalogue()) {
            Err(e) => Err(e),
            Ok(select) => match selectors_at(entries, "exclude"@, Seq::empty()) {
                Err(e) => Err(e),
                Ok(exclude) => match selectors_at(
                    entries,
                    "fixable"@,
                    ConfigView::defaults().fixable,
                ) {
                    Err(e) => Err(e),
                    Ok(fixable) => match selectors_at(entries, "unfixable"@, Seq::empty()) {
                        Err(e) => Err(e),
                        Ok(unfixable) => match count_at(entries, "model_fanout_threshold"@, 3) {
                            Err(e) => Err(e),
                            Ok(threshold) => match texts_at(
                                entries,
                                "required_tests"@,
                                Seq::empty(),
                            ) {
                                Err(e) => Err(e),
                                Ok(required_tests) => match texts_at(
                                    entries,
                                    "invalid_descriptions"@,
                                    default_markers(),
                                ) {
                                    Err(e) => Err(e),
                                    Ok(invalid_descriptions) => match flag_at(
                                        entries,
                                        "render_descriptions"@,
                                        false,
                                    ) {
                                        Err(e) => Err(e),
                                        Ok(render_descriptions) => match method_at(
                                            entries,
                                            "writeback"@,
                                        ) {
                                            Err(e) => Err(e),
                                            Ok(writeback) => Ok(
                                                ConfigView {
                                                    select,
                                                    exclude,
                                                    fixable,
                                                    unfixable,
                                                    fix: false,
                                                    project_dir: Some(project_dir),
                                                    model_fanout_threshold: threshold,
                                                    required_tests,
                                                    invalid_descriptions,
                                                    render_descriptions,
                                                    writeback,
                                                },
                                            ),
                                        },
                                    },
                                },
                            },
                        },
                    },
                },
            },
        },
    }
}

/// The configuration that a file gives for a profile and a target.
pub open spec fn resolved(
    file: ConfigFileView,
    profile: Seq<char>,
    target: Option<Seq<char>>,
    project_dir: Seq<char>,
) -> Result<ConfigView, ConfigErrorView> {
    configured(effective_entries(file, profile, target), project_dir)
}

fn find_entry(entries: &Vec<ConfigEntry>, key: &String) -> (r: Option<usize>)
    ensures
        match r {
            Some(i) => i == position(entry_keys(entries.deep_view()), key@) && i < entries.len(),
            None => position(entry_keys(entries.deep_view()), key@) == entries.len(),
        },
{
    let ghost keys = entry_keys(entries.deep_view());
    let mut i: usize = 0;
    while i < entries.len()
        invariant
            i <= entries.len(),
            keys == entry_keys(entries.deep_view()),
            forall|j: int| 0 <= j < i ==> #[trigger] keys[j] != key@,
        decreases entries.len() - i,
    {
        if entries[i].key == *key {
            proof {
                lemma_position_is(keys, key@, i as int);
            }
            return Some(i);
        }
        i = i + 1;
    }
    proof {
        lemma_position_is(keys, key@, i as int);
    }
    None
}

/// The value of `key` among `entries`.
pub fn get_value<'a>(entries: &'a Vec<ConfigEntry>, key: &str) -> (r: Option<&'a ConfigValue>)
    ensures
        r.deep_view() == value_of(entries.deep_view(), key@),
{
    match find_entry(entries, &key.to_owned()) {
        Some(i) => Some(&entries[i].value),
        None => None,
    }
}

/// Lays the entries `over` over `base`.
pub fn merge_entries(base: &Vec<ConfigEntry>, over: &Vec<ConfigEntry>) -> (r: Vec<ConfigEntry>)
    ensures
        r.deep_view() == merged_entries(base.deep_view(), over.deep_view(), over.len() as int),
{
    let mut out: Vec<ConfigEntry> = Vec::new();
    let mut b: usize = 0;
    while b < base.len()
        invariant
            b <= base.len(),
            out@.len() == b,
            forall|j: int| 0 <= j < b ==> (#[trigger] out@[j])@ == base@[j]@,
        decreases base.len() - b,
    {
        out.push(base[b].duplicate());
        b = b + 1;
    }
    assert(out.deep_view() =~= base.deep_view());
    let ghost start = base.deep_view();
    let ghost incoming = over.deep_view();
    let mut i: usize = 0;
    while i < over.len()
        invariant
            i <= over.len(),
            incoming == over.deep_view(),
            out.deep_view() == merged_entries(start, incoming, i as int),
        decreases over.len() - i,
    {
        let ghost before = out.deep_view();
        let entry = over[i].duplicate();
        match find_entry(&out, &entry.key) {
            Some(at) => {
                out.set(at, entry);
                assert(out.deep_view() =~= before.update(at as int, entry@));
            },
            None => {
                out.push(entry);
                assert(out.deep_view() =~= before.push(entry@));
            },
        }
        i = i + 1;
    }
    out
}

fn read_selectors(entries: &Vec<ConfigEntry>, key: &str, default: Vec<Selector>) -> (r: Result<
    Vec<Selector>,
    ConfigError,
>)
    ensures
        match selectors_at(entries.deep_view(), key@, default@) {
            Ok(list) => r matches Ok(found) && found@ == list,
            Err(e) => r matches Err(error) && error@ == e,
        },
{
    match get_value(entries, key) {
        None => Ok(default),
        Some(ConfigValue::TextList(names)) => {
            assert(texts_of(names@) =~= names.deep_view());
            parse_selectors(names)
        },
        Some(_) => Err(ConfigError::InvalidValue { key: key.to_owned() }),
    }
}

fn read_texts(entries: &Vec<ConfigEntry>, key: &str, default: Vec<String>) -> (r: Result<
    Vec<String>,
    ConfigError,
>)
    ensures
        match texts_at(entries.deep_view(), key@, default.deep_view()) {
            Ok(list) => r matches Ok(found) && found.deep_view() == list,
            Err(e) => r matches Err(error) && error@ == e,
        },
{
    match get_value(entries, key) {
        None => Ok(default),
        Some(ConfigValue::TextList(list)) => Ok(copy_texts(list)),
        Some(_) => Err(ConfigError::InvalidValue { key: key.to_owned() }),
    }
}

fn read_count(entries: &Vec<ConfigEntry>, key: &str, default: usize) -> (r: Result<
    usize,
    ConfigError,
>)
    ensures
        match count_at(entries.deep_view(), key@, default as nat) {
            Ok(n) => r matches Ok(found) && found == n,
            Err(e) => r matches Err(error) && error@ == e,
        },
{
    match get_value(entries, key) {
        None => Ok(default),
        Some(ConfigValue::Integer(i)) => {
            if *i >= 0 && (*i as u64) <= (usize::MAX as u64) {
                Ok(*i as usize)
            } else {
                Err(ConfigError::InvalidValue { key: key.to_owned() })
            }
        },
        Some(_) => Err(ConfigError::InvalidValue { key: key.to_owned() }),
    }
}

fn read_flag(entries: &Vec<ConfigEntry>, key: &str, default: bool) -> (r: Result<
    bool,
    ConfigError,
>)
    ensures
        match flag_at(entries.deep_view(), key@, default) {
            Ok(b) => r matches Ok(found) && found == b,
            Err(e) => r matches Err(error) && error@ == e,
        },
{
    match get_value(entries, key) {
        None => Ok(default),
        Some(ConfigValue::Boolean(b)) => Ok(*b),
        Some(_) => Err(ConfigError::InvalidValue { key: key.to_owned() }),
    }
}

fn read_method(entries: &Vec<ConfigEntry>, key: &str) -> (r: Result<WritebackMethod, ConfigError>)
    ensures
        match method_at(entries.deep_view(), key@) {
            Ok(m) => r matches Ok(found) && found == m,
            Err(e) => r matches Err(error) && error@ == e,
        },
{
    match get_value(entries, key) {
        None => Ok(WritebackMethod::Python),
        Some(ConfigValue::Text(t)) => {
            if *t == "python".to_owned() {
                Ok(WritebackMethod::Python)
            } else if *t == "rust".to_owned() {
                Ok(WritebackMethod::Rust)
            } else {
                Err(ConfigError::InvalidValue { key: key.to_owned() })
            }
        },
        Some(_) => Err(ConfigError::InvalidValue { key: key.to_owned() }),
    }
}

fn check_keys(entries: &Vec<ConfigEntry>) -> (r: Result<(), ConfigError>)
    ensures
        match keys_error(entry_keys(entries.deep_view())) {
            None => r is Ok,
            Some(e) => r matches Err(error) && error@ == e,
        },
{
    let mut keys: Vec<String> = Vec::new();
    let mut i: usize = 0;
    while i < entries.len()
        invariant
            i <= entries.len(),
            keys@.len() == i,
            forall|j: int| 0 <= j < i ==> (#[trigger] keys@[j])@ == entries@[j]@.key,
        decreases entries.len() - i,
    {
        keys.push(entries[i].key.clone());
        i = i + 1;
    }
    assert(texts_of(keys@) =~= entry_keys(entries.deep_view()));
    let checked = validate_keys(&keys);
    proof {
        let names = entry_keys(entries.deep_view());
        if checked is Ok {
            assert forall|i: int| 0 <= i < names.len() implies is_known_key(
                #[trigger] names[i],
            ) by {
                assert(is_known_key(keys@[i]@));
                assert(names[i] == keys@[i]@);
            }
        } else {
            if forall|i: int| 0 <= i < names.len() ==> is_known_key(#[trigger] names[i]) {
                assert forall|i: int| 0 <= i < keys.len() implies is_known_key(
                    #[trigger] keys@[i]@,
                ) by {
                    assert(is_known_key(names[i]));
                    assert(names[i] == keys@[i]@);
                }
                assert(false);
            }
        }
    }
    checked
}

/// Reads `entries` into a configuration for the project at `project_dir`.
pub fn configure(entries: &Vec<ConfigEntry>, project_dir: &str) -> (r: Result<Config, ConfigError>)
    ensures
        match configured(entries.deep_view(), project_dir@) {
            Ok(c) => r matches Ok(config) && config@ == c,
            Err(e) => r matches Err(error) && error@ == e,
        },
{
    match check_keys(entries) {
        Err(e) => {
            return Err(e);
        },
        Ok(_) => {},
    }
    let select = match read_selectors(entries, "select", default_select()) {
        Ok(v) => v,
        Err(e) => {
            return Err(e);
        },
    };
    let exclude = match read_selectors(entries, "exclude", Vec::new()) {
        Ok(v) => v,
        Err(e) => {
            return Err(e);
        },
    };
    let fixable = match read_selectors(entries, "fixable", default_fixable()) {
        Ok(v) => v,
        Err(e) => {
            return Err(e);
        },
    };
    let unfixable = match read_selectors(entries, "unfixable", Vec::new()) {
        Ok(v) => v,
        Err(e) => {
            return Err(e);
        },
    };
    let model_fanout_threshold = match read_count(entries, "model_fanout_threshold", 3) {
        Ok(v) => v,
        Err(e) => {
            return Err(e);
        },
    };
    let none: Vec<String> = Vec::new();
    assert(none.deep_view() =~= Seq::empty());
    let required_tests = match read_texts(entries, "required_tests", none) {
        Ok(v) => v,
        Err(e) => {
            return Err(e);
        },
    };
    let markers = default_invalid_descriptions();
    assert(markers.deep_view() =~= default_markers());
    let invalid_descriptions = match read_texts(entries, "invalid_descriptions", markers) {
        Ok(v) => v,
        Err(e) => {
            return Err(e);
        },
    };
    let render_descriptions = match read_flag(entries, "render_descriptions", false) {
        Ok(v) => v,
        Err(e) => {
            return Err(e);
        },
    };
    let writeback = match read_method(entries, "writeback") {
        Ok(v) => v,
        Err(e) => {
            return Err(e);
        },
    };
    Ok(
        Config {
            select,
            exclude,
            fixable,
            unfixable,
            fix: false,
            project_dir: Some(project_dir.to_owned()),
            model_fanout_threshold,
            required_tests,
            invalid_descriptions,
            render_descriptions,
            writeback,
        },
    )
}

impl ConfigFile {
    /// The entries that hold for the profile and the target.
    pub fn effective(&self, profile: &str, target: Option<&str>) -> (r: Vec<ConfigEntry>)
        ensures
            r.deep_view() == effective_entries(self@, profile@, target.deep_view()),
    {
        let ghost candidates = Seq::new(
            self@.target.len(),
            |i: int| override_candidate(self@.target[i], profile@, target.deep_view()),
        );
        let no_override: Vec<ConfigEntry> = Vec::new();
        let wanted = match target {
            Some(t) => t.to_owned(),
            None => {
                proof {
                    lemma_first_some_is(candidates, candidates.len() as int);
                }
                return merge_entries(&self.base, &no_override);
            },
        };
        let with_profile = profile.unicode_len() > 0;
        let name = profile.to_owned();
        let mut i: usize = 0;
        while i < self.target.len()
            invariant
                i <= self.target.len(),
                wanted@ == target.deep_view()->0,
                target.deep_view() is Some,
                name@ == profile@,
                with_profile == (profile@.len() > 0),
                candidates == Seq::new(
                    self@.target.len(),
                    |i: int| override_candidate(self@.target[i], profile@, target.deep_view()),
                ),
                forall|j: int| 0 <= j < i ==> (#[trigger] candidates[j]) is None,
            decreases self.target.len() - i,
        {
            let o = &self.target[i];
            assert(self@.target[i as int] == o@);
            let profile_fits = match &o.profile {
                Some(p) => with_profile && *p == name,
                None => !with_profile,
            };
            if o.target == wanted && profile_fits {
                proof {
                    lemma_first_some_is(candidates, i as int);
                }
                return merge_entries(&self.base, &o.entries);
            }
            assert(candidates[i as int] is None);
            i = i + 1;
        }
        proof {
            lemma_first_some_is(candidates, i as int);
        }
        merge_entries(&self.base, &no_override)
    }

    /// Resolves the file for a profile and a target: the matching override
    /// is laid over the top level, the keys are checked, and the values are
    /// read into a configuration for the project at `project_dir`.
    pub fn resolve(&self, profile: &str, target: Option<&str>, project_dir: &str) -> (r: Result<
        Config,
        ConfigError,
    >)
        ensures
            match resolved(self@, profile@, target.deep_view(), project_dir@) {
                Ok(c) => r matches Ok(config) && config@ == c,
                Err(e) => r matches Err(error) && error@ == e,
            },
    {
        let entries = self.effective(profile, target);
        configure(&entries, project_dir)
    }
}

/// A table of values under a name.
#[derive(Debug, Clone, PartialEq, Eq)]
pub struct NamedTable {
    pub name: String,
    pub entries: Vec<ConfigEntry>,
}

pub struct NamedTableView {
    pub name: Seq<char>,
    pub entries: Seq<ConfigEntryView>,
}

impl View for NamedTable {
    type V = NamedTableView;

    open spec fn view(&self) -> NamedTableView {
        NamedTableView { name: self.name@, entries: self.entries.deep_view() }
    }
}

impl DeepView for NamedTable {
    type V = NamedTableView;

    open spec fn deep_view(&self) -> NamedTableView {
        self@
    }
}

/// One section under `target` as the file holds it: its name, all its
/// entries, and those of its entries that are tables.
#[derive(Debug, Clone, PartialEq, Eq)]
pub struct TargetSection {
    pub name: String,
    pub entries: Vec<ConfigEntry>,
    pub tables: Vec<NamedTable>,
}

pub struct TargetSectionView {
    pub name: Seq<char>,
    pub entries: Seq<ConfigEntryView>,
    pub tables: Seq<NamedTableView>,
}

impl View for TargetSection {
    type V = TargetSectionView;

    open spec fn view(&self) -> TargetSectionView {
        TargetSectionView {
            name: self.name@,
            entries: self.entries.deep_view(),
            tables: self.tables.deep_view(),
        }
    }
}

/// A section names a profile when it holds entries and all of them are
/// tables; any other section names a target.
pub open spec fn names_profile(section: TargetSectionView) -> bool {
    section.entries.len() > 0 && section.tables.len() == section.entries.len()
}

/// The overrides that a section stands for: one for each target of the
/// profile that it names, or the one for the target that it names.
pub open spec fn overrides_in(section: TargetSectionView) -> Seq<TargetOverrideView> {
    if names_profile(section) {
        Seq::new(
            section.tables.len(),
            |i: int|
                TargetOverrideView {
                    profile: Some(section.name),
                    target: section.tables[i].name,
                    entries: section.tables[i].entries,
                },
        )
    } else {
        seq![
            TargetOverrideView { profile: None, target: section.name, entries: section.entries },
        ]
    }
}

fn clone_entries(entries: &Vec<ConfigEntry>) -> (r: Vec<ConfigEntry>)
    ensures
        r.deep_view() == entries.deep_view(),
{
    let mut out: Vec<ConfigEntry> = Vec::new();
    let mut i: usize = 0;
    while i < entries.len()
        invariant
            i <= entries.len(),
            out.len() == i,
            forall|j: int| 0 <= j < i ==> (#[trigger] out@[j])@ == entries@[j]@,
        decreases entries.len() - i,
    {
        out.push(entries[i].duplicate());
        i = i + 1;
    }
    assert(out.deep_view() =~= entries.deep_view());
    out
}

/// The overrides that a section under `target` stands for.
pub fn overrides_of(section: &TargetSection) -> (r: Vec<TargetOverride>)
    ensures
        r.deep_view() == overrides_in(section@),
{
    let mut out: Vec<TargetOverride> = Vec::new();
    if section.entries.len() > 0 && section.tables.len() == section.entries.len() {
        let mut i: usize = 0;
        while i < section.tables.len()
            invariant
                i <= section.tables.len(),
                out.len() == i,
                forall|j: int|
                    0 <= j < i ==> (#[trigger] out@[j])@ == (TargetOverrideView {
                        profile: Some(section@.name),
                        target: section@.tables[j].name,
                        entries: section@.tables[j].entries,
                    }),
            decreases section.tables.len() - i,
        {
            let table = &section.tables[i];
            assert(section@.tables[i as int] == table@);
            out.push(
                TargetOverride {
                    profile: Some(section.name.clone()),
                    target: table.name.clone(),
                    entries: clone_entries(&table.entries),
                },
            );
            i = i + 1;
        }
        assert(out.deep_view() =~= overrides_in(section@));
    } else {
        out.push(
            TargetOverride {
                profile: None,
                target: section.name.clone(),
                entries: clone_entries(&section.entries),
            },
        );
        assert(out.deep_view() =~= overrides_in(section@));
    }
    out
}

} // verus!
