//! The configuration: the repositories watched on each forge, whom to notify
//! and how often to look; how it is read from a stored document and written
//! as one.

use vstd::prelude::*;
use vstd::string::*;
use crate::document::{
    parse, parsed, read_back, render, rendered, Document, DocumentView, Field, FieldView, Parsed,
    ParsedView, Scalar, ScalarView, Section, SectionView, Table, TableView,
};
use crate::group::{Forge, UrlGroup, UrlGroupView};
use crate::order::{
    arrange, distinct_keys, lemma_arrange_contents, lemma_arrange_keys, lemma_arrange_ordered,
    lemma_arrange_ordered_is_same, lemma_found, lemma_ordered_distinct, ordered,
};
use crate::text::{precedes, same};

verus! {

/// The poll interval, in seconds, of a configuration that names none.
pub open spec fn spec_default_time() -> u64 {
    3600
}

/// The poll interval, in seconds, of a configuration that names none.
#[verifier::when_used_as_spec(spec_default_time)]
pub fn default_time() -> (seconds: u64)
    ensures
        seconds == spec_default_time(),
{
    3600
}

/// The name of the table that holds the settings.
pub open spec fn settings_name() -> Seq<char> {
    "config"@
}

/// The key of the address to notify.
pub open spec fn email_key() -> Seq<char> {
    "email"@
}

/// The key of the poll interval.
pub open spec fn time_key() -> Seq<char> {
    "time"@
}

/// Why a document is no configuration, or a configuration no document.
#[derive(Clone, Copy, Debug, PartialEq, Eq, Structural)]
pub enum ConfigError {
    /// The text is no TOML document.
    Syntax,
    /// What stands under a forge's name is no table.
    GroupNotTable(Forge),
    /// A repository's version is no string.
    VersionNotText(Forge),
    /// A repository is named twice.
    DuplicateRepository(Forge),
    /// There is no table of settings.
    MissingSettings,
    /// What stands under the settings' name is no table.
    SettingsNotTable,
    /// The settings name no address to notify.
    MissingEmail,
    /// The address to notify is no string.
    EmailNotText,
    /// The poll interval is no integer.
    IntervalNotInteger,
    /// The poll interval is negative.
    NegativeInterval,
    /// The document was refused when it was to be written.
    Unwritable,
    /// The text that was written does not read back as the configuration.
    Unfaithful,
}

/// What stands first under `key` in `s`.
pub open spec fn lookup<V>(s: Seq<(Seq<char>, V)>, key: Seq<char>) -> Option<V>
    decreases s.len(),
{
    if s.len() == 0 {
        None
    } else if s[0].0 == key {
        Some(s[0].1)
    } else {
        lookup(s.drop_first(), key)
    }
}

/// The settings: whom to notify, and how many seconds to rest between two
/// cycles.
#[derive(Clone, Debug)]
pub struct Configurables {
    email: String,
    time: u64,
}

pub struct ConfigurablesView {
    pub email: Seq<char>,
    pub time: u64,
}

impl View for Configurables {
    type V = ConfigurablesView;

    closed spec fn view(&self) -> ConfigurablesView {
        ConfigurablesView { email: self.email@, time: self.time }
    }
}

impl Configurables {
    /// The interval is one that a document can hold: a signed 64-bit integer.
    pub open spec fn wf(&self) -> bool {
        self@.time <= i64::MAX
    }

    /// Settings with the address `email` and the interval `time`, unless the
    /// interval is more than a document can hold.
    pub fn new(email: String, time: u64) -> (settings: Option<Configurables>)
        ensures
            match settings {
                Some(s) => s.wf() && s@.email == email@ && s@.time == time,
                None => time > i64::MAX,
            },
    {
        if time > 0x7fff_ffff_ffff_ffff {
            None
        } else {
            Some(Configurables { email, time })
        }
    }

    /// The address to notify.
    pub fn email(&self) -> (email: &String)
        ensures
            email@ == self@.email,
    {
        &self.email
    }

    /// The seconds to rest between two cycles.
    pub fn time(&self) -> (time: u64)
        ensures
            time == self@.time,
    {
        self.time
    }

    /// Tells whether `other` holds the same settings.
    pub fn same_as(&self, other: &Configurables) -> (r: bool)
        ensures
            r == (self@ == other@),
    {
        self.time == other.time && same(self.email.as_str(), other.email.as_str())
    }
}

/// The settings that the table `section` gives.
pub open spec fn decode_settings(section: Option<SectionView>) -> Result<
    ConfigurablesView,
    ConfigError,
> {
    match section {
        None => Err(ConfigError::MissingSettings),
        Some(SectionView::Other) => Err(ConfigError::SettingsNotTable),
        Some(SectionView::Table(fields)) => match lookup(fields, email_key()) {
            None => Err(ConfigError::MissingEmail),
            Some(FieldView::Plain(ScalarView::Text(email))) => match lookup(fields, time_key()) {
                None => Ok(ConfigurablesView { email, time: spec_default_time() }),
                Some(FieldView::Plain(ScalarView::Integer(time))) => if time < 0 {
                    Err(ConfigError::NegativeInterval)
                } else {
                    Ok(ConfigurablesView { email, time: time as u64 })
                },
                Some(_) => Err(ConfigError::IntervalNotInteger),
            },
            Some(_) => Err(ConfigError::EmailNotText),
        },
    }
}

/// Finds what stands first under `key`.
fn find<'a, T: DeepView>(entries: &'a Vec<(String, T)>, key: &str) -> (r: Option<&'a T>)
    ensures
        r.deep_view() == lookup(entries.deep_view(), key@),
{
    let ghost s = entries.deep_view();
    let mut i: usize = 0;
    proof {
        assert(s.skip(0) =~= s);
    }
    while i < entries.len()
        invariant
            s == entries.deep_view(),
            i <= entries.len(),
            lookup(s, key@) == lookup(s.skip(i as int), key@),
        decreases entries.len() - i,
    {
        proof {
            assert(s.skip(i as int)[0] == s[i as int]);
            assert(s.skip(i as int).drop_first() =~= s.skip(i + 1));
        }
        if same(entries[i].0.as_str(), key) {
            return Some(&entries[i].1);
        }
        i += 1;
    }
    None
}

/// Reads the settings from their table.
fn settings_from(section: Option<&Section>) -> (r: Result<Configurables, ConfigError>)
    ensures
        match r {
            Ok(settings) => settings.wf() && decode_settings(section.deep_view()) == Ok::<
                ConfigurablesView,
                ConfigError,
            >(settings@),
            Err(e) => decode_settings(section.deep_view()) == Err::<ConfigurablesView, ConfigError>(
                e,
            ),
        },
{
    let fields = match section {
        None => {
            return Err(ConfigError::MissingSettings);
        },
        Some(Section::Other) => {
            return Err(ConfigError::SettingsNotTable);
        },
        Some(Section::Table(fields)) => fields,
    };
    let email = match find(fields, "email") {
        None => {
            return Err(ConfigError::MissingEmail);
        },
        Some(Field::Plain(Scalar::Text(email))) => email.clone(),
        Some(_) => {
            return Err(ConfigError::EmailNotText);
        },
    };
    let time = match find(fields, "time") {
        None => default_time(),
        Some(Field::Plain(Scalar::Integer(time))) => {
            if *time < 0 {
                return Err(ConfigError::NegativeInterval);
            }
            *time as u64
        },
        Some(_) => {
            return Err(ConfigError::IntervalNotInteger);
        },
    };
    Ok(Configurables { email, time })
}

/// Every value of the table is a string.
pub open spec fn all_text(fields: Seq<(Seq<char>, FieldView)>) -> bool {
    forall|i: int| 0 <= i < fields.len() ==> (#[trigger] fields[i]).1 is Plain && fields[i].1->Plain_0 is Text
}

/// The strings of a table whose values are all strings, under their keys.
pub open spec fn texts(fields: Seq<(Seq<char>, FieldView)>) -> Seq<(Seq<char>, Seq<char>)> {
    fields.map_values(|f: (Seq<char>, FieldView)| (f.0, f.1->Plain_0->Text_0))
}

/// The group of `forge` that the table `section` gives: none where there is no
/// such table, else its repositories in the order of their identifiers.
pub open spec fn decode_group(forge: Forge, section: Option<SectionView>) -> Result<
    Option<UrlGroupView>,
    ConfigError,
> {
    match section {
        None => Ok(None),
        Some(SectionView::Other) => Err(ConfigError::GroupNotTable(forge)),
        Some(SectionView::Table(fields)) => if !all_text(fields) {
            Err(ConfigError::VersionNotText(forge))
        } else if !distinct_keys(fields) {
            Err(ConfigError::DuplicateRepository(forge))
        } else {
            Ok(Some(UrlGroupView { forge, entries: arrange(texts(fields)) }))
        },
    }
}

/// The view of a group that may be absent.
pub open spec fn group_view(group: Option<UrlGroup>) -> Option<UrlGroupView> {
    match group {
        Some(g) => Some(g@),
        None => None,
    }
}

/// Tells whether every value of the table is a string.
fn is_all_text(fields: &Vec<(String, Field)>) -> (r: bool)
    ensures
        r == all_text(fields.deep_view()),
{
    let ghost s = fields.deep_view();
    let mut i: usize = 0;
    while i < fields.len()
        invariant
            s == fields.deep_view(),
            i <= fields.len(),
            forall|j: int| 0 <= j < i ==> (#[trigger] s[j]).1 is Plain && s[j].1->Plain_0 is Text,
        decreases fields.len() - i,
    {
        match &fields[i].1 {
            Field::Plain(Scalar::Text(_)) => {},
            _ => {
                assert(!((#[trigger] s[i as int]).1 is Plain && s[i as int].1->Plain_0 is Text));
                return false;
            },
        }
        i += 1;
    }
    true
}

/// Reads the group of `forge` from its table.
fn group_from(forge: Forge, section: Option<&Section>) -> (r: Result<Option<UrlGroup>, ConfigError>)
    ensures
        match r {
            Ok(group) => decode_group(forge, section.deep_view()) == Ok::<
                Option<UrlGroupView>,
                ConfigError,
            >(group_view(group)) && (group matches Some(g) ==> g.wf()),
            Err(e) => decode_group(forge, section.deep_view()) == Err::<
                Option<UrlGroupView>,
                ConfigError,
            >(e),
        },
{
    let fields = match section {
        None => {
            return Ok(None);
        },
        Some(Section::Other) => {
            return Err(ConfigError::GroupNotTable(forge));
        },
        Some(Section::Table(fields)) => fields,
    };
    if !is_all_text(fields) {
        return Err(ConfigError::VersionNotText(forge));
    }
    let ghost s = fields.deep_view();
    let ghost t = texts(s);
    let mut group = UrlGroup::new(forge);
    let mut i: usize = 0;
    proof {
        assert(t.take(0) =~= Seq::empty());
    }
    while i < fields.len()
        invariant
            s == fields.deep_view(),
            section.deep_view() == Some(SectionView::Table(s)),
            t == texts(s),
            all_text(s),
            i <= fields.len(),
            group.wf(),
            group@.forge == forge,
            group@.entries == arrange(t.take(i as int)),
            distinct_keys(t.take(i as int)),
        decreases fields.len() - i,
    {
        let ghost u = t.take(i as int);
        proof {
            assert(t.take(i + 1).drop_last() =~= u);
            assert(t.take(i + 1).last() == t[i as int]);
            lemma_arrange_ordered(u);
            lemma_found(arrange(u), t[i as int].0);
            lemma_arrange_keys(u, t[i as int].0);
        }
        match &fields[i].1 {
            Field::Plain(Scalar::Text(version)) => {
                let previous = group.insert(fields[i].0.clone(), version.clone());
                if previous.is_some() {
                    proof {
                        let j = choose|j: int| 0 <= j < u.len() && #[trigger] u[j].0 == t[i as int].0;
                        assert(u[j].0 == s[j].0);
                        assert(s[j].0 == s[i as int].0);
                        assert(!distinct_keys(s));
                    }
                    return Err(ConfigError::DuplicateRepository(forge));
                }
                proof {
                    assert forall|a: int, b: int| 0 <= a < b < i + 1 implies #[trigger] t.take(
                        i + 1,
                    )[a].0 != #[trigger] t.take(i + 1)[b].0 by {
                        if b < i {
                            assert(u[a].0 != u[b].0);
                        } else {
                            assert(u[a].0 == t[a].0);
                        }
                    }
                }
            },
            _ => {
                assert(false);
            },
        }
        i += 1;
    }
    proof {
        assert(t.take(i as int) =~= t);
        assert forall|a: int, b: int| 0 <= a < b < s.len() implies #[trigger] s[a].0
            != #[trigger] s[b].0 by {
            assert(t[a].0 != t[b].0);
        }
    }
    Ok(Some(group))
}

/// The whole configuration.
#[derive(Clone, Debug)]
pub struct Config {
    github: Option<UrlGroup>,
    gitlab: Option<UrlGroup>,
    config: Configurables,
}

pub struct ConfigView {
    /// The repositories watched on GitHub, if that forge is configured.
    pub github: Option<UrlGroupView>,
    /// The repositories watched on GitLab, if that forge is configured.
    pub gitlab: Option<UrlGroupView>,
    /// The address to notify.
    pub email: Seq<char>,
    /// The seconds to rest between two cycles.
    pub time: u64,
}

impl ConfigView {
    /// Each group stands under its own forge and is in order, and the
    /// interval is one that a document can hold.
    pub open spec fn wf(self) -> bool {
        &&& self.github matches Some(g) ==> g.forge == Forge::Github && ordered(g.entries)
        &&& self.gitlab matches Some(g) ==> g.forge == Forge::Gitlab && ordered(g.entries)
        &&& self.time <= i64::MAX
    }

    /// The group of `forge`, if that forge is configured.
    pub open spec fn group(self, forge: Forge) -> Option<UrlGroupView> {
        match forge {
            Forge::Github => self.github,
            Forge::Gitlab => self.gitlab,
        }
    }

    /// This configuration with `group` in the place of `forge`.
    pub open spec fn with_group(self, forge: Forge, group: Option<UrlGroupView>) -> ConfigView {
        match forge {
            Forge::Github => ConfigView { github: group, ..self },
            Forge::Gitlab => ConfigView { gitlab: group, ..self },
        }
    }

    /// This configuration with `version` stored for the repository at `index`
    /// on `forge`; the same configuration where there is no such repository.
    pub open spec fn with_version(self, forge: Forge, index: int, version: Seq<char>) -> ConfigView {
        match self.group(forge) {
            Some(g) if 0 <= index < g.entries.len() => self.with_group(
                forge,
                Some(
                    UrlGroupView {
                        forge: g.forge,
                        entries: g.entries.update(index, (g.entries[index].0, version)),
                    },
                ),
            ),
            _ => self,
        }
    }
}

impl View for Config {
    type V = ConfigView;

    closed spec fn view(&self) -> ConfigView {
        ConfigView {
            github: group_view(self.github),
            gitlab: group_view(self.gitlab),
            email: self.config@.email,
            time: self.config@.time,
        }
    }
}

/// The configuration that the document `doc` gives.
pub open spec fn decode(doc: ParsedView) -> Result<ConfigView, ConfigError> {
    match decode_group(Forge::Github, lookup(doc, Forge::Github.spec_name())) {
        Err(e) => Err(e),
        Ok(github) => match decode_group(Forge::Gitlab, lookup(doc, Forge::Gitlab.spec_name())) {
            Err(e) => Err(e),
            Ok(gitlab) => match decode_settings(lookup(doc, settings_name())) {
                Err(e) => Err(e),
                Ok(settings) => Ok(
                    ConfigView { github, gitlab, email: settings.email, time: settings.time },
                ),
            },
        },
    }
}

/// The table that holds the repositories of a group.
pub open spec fn encode_entries(entries: Seq<(Seq<char>, Seq<char>)>) -> TableView {
    entries.map_values(|e: (Seq<char>, Seq<char>)| (e.0, ScalarView::Text(e.1)))
}

/// The tables that a group takes in a document: one under the forge's name, or
/// none where the forge is not configured.
pub open spec fn encode_group(group: Option<UrlGroupView>) -> DocumentView {
    match group {
        Some(g) => seq![(g.forge.spec_name(), encode_entries(g.entries))],
        None => Seq::empty(),
    }
}

/// The table that holds the settings.
pub open spec fn encode_settings(email: Seq<char>, time: u64) -> TableView {
    seq![(email_key(), ScalarView::Text(email)), (time_key(), ScalarView::Integer(time as i64))]
}

/// The document that stores `config`: the groups that are configured, GitHub
/// before GitLab, each with its repositories in the order of their
/// identifiers, then the settings.
pub open spec fn encode(config: ConfigView) -> DocumentView {
    encode_group(config.github) + encode_group(config.gitlab) + seq![
        (settings_name(), encode_settings(config.email, config.time)),
    ]
}

impl Config {
    /// The configuration's view is well formed.
    pub open spec fn wf(&self) -> bool {
        self@.wf()
    }

    /// A configuration that watches nothing.
    pub fn new(config: Configurables) -> (r: Config)
        requires
            config.wf(),
        ensures
            r.wf(),
            r@ == (ConfigView {
                github: None,
                gitlab: None,
                email: config@.email,
                time: config@.time,
            }),
    {
        Config { github: None, gitlab: None, config }
    }

    /// Watches the repositories of `group` on its forge, in place of those
    /// watched there before.
    pub fn watch(&mut self, group: UrlGroup)
        requires
            old(self).wf(),
            group.wf(),
        ensures
            final(self).wf(),
            final(self)@ == (match group@.forge {
                Forge::Github => ConfigView { github: Some(group@), ..old(self)@ },
                Forge::Gitlab => ConfigView { gitlab: Some(group@), ..old(self)@ },
            }),
    {
        match group.forge() {
            Forge::Github => {
                self.github = Some(group);
            },
            Forge::Gitlab => {
                self.gitlab = Some(group);
            },
        }
    }

    /// The repositories watched on GitHub, if that forge is configured.
    pub fn github(&self) -> (group: Option<&UrlGroup>)
        ensures
            group matches Some(g) ==> self@.github == Some(g@),
            group is None ==> self@.github is None,
    {
        self.github.as_ref()
    }

    /// The repositories watched on GitLab, if that forge is configured.
    pub fn gitlab(&self) -> (group: Option<&UrlGroup>)
        ensures
            group matches Some(g) ==> self@.gitlab == Some(g@),
            group is None ==> self@.gitlab is None,
    {
        self.gitlab.as_ref()
    }

    /// The repositories watched on `forge`, if that forge is configured.
    pub fn group(&self, forge: Forge) -> (group: Option<&UrlGroup>)
        ensures
            group matches Some(g) ==> self@.group(forge) == Some(g@),
            group is None ==> self@.group(forge) is None,
    {
        match forge {
            Forge::Github => self.github.as_ref(),
            Forge::Gitlab => self.gitlab.as_ref(),
        }
    }

    /// The address to notify.
    pub fn email(&self) -> (email: &String)
        ensures
            email@ == self@.email,
    {
        self.config.email()
    }

    /// The seconds to rest between two cycles.
    pub fn time(&self) -> (time: u64)
        ensures
            time == self@.time,
    {
        self.config.time()
    }

    /// Reads the configuration from a document.
    pub fn from_parsed(doc: &Parsed) -> (r: Result<Config, ConfigError>)
        ensures
            match r {
                Ok(config) => config.wf() && decode(doc.deep_view()) == Ok::<ConfigView, ConfigError>(
                    config@,
                ),
                Err(e) => decode(doc.deep_view()) == Err::<ConfigView, ConfigError>(e),
            },
    {
        let github = match group_from(Forge::Github, find(doc, Forge::Github.name())) {
            Err(e) => {
                return Err(e);
            },
            Ok(group) => group,
        };
        let gitlab = match group_from(Forge::Gitlab, find(doc, Forge::Gitlab.name())) {
            Err(e) => {
                return Err(e);
            },
            Ok(group) => group,
        };
        let config = match settings_from(find(doc, "config")) {
            Err(e) => {
                return Err(e);
            },
            Ok(settings) => settings,
        };
        Ok(Config { github, gitlab, config })
    }

    /// Writes the configuration as a document.
    pub fn to_document(&self) -> (doc: Document)
        requires
            self.wf(),
        ensures
            doc.deep_view() == encode(self@),
    {
        let mut doc: Document = Vec::new();
        if let Some(group) = &self.github {
            doc.push((String::from_str(Forge::Github.name()), ordered_map(group)));
        }
        let ghost first = doc.deep_view();
        assert(first =~= encode_group(self@.github));
        if let Some(group) = &self.gitlab {
            doc.push((String::from_str(Forge::Gitlab.name()), ordered_map(group)));
        }
        let ghost second = doc.deep_view();
        assert(second =~= first + encode_group(self@.gitlab));
        let mut settings: Table = Vec::new();
        settings.push((String::from_str("email"), Scalar::Text(self.config.email().clone())));
        settings.push((String::from_str("time"), Scalar::Integer(self.config.time() as i64)));
        assert(settings.deep_view() =~= encode_settings(self@.email, self@.time));
        doc.push((String::from_str("config"), settings));
        assert(doc.deep_view() =~= second + seq![
            (settings_name(), encode_settings(self@.email, self@.time)),
        ]);
        doc
    }

    /// Reads the configuration from the text of a stored document.
    pub fn load(text: &str) -> (r: Result<Config, ConfigError>)
        ensures
            match r {
                Ok(config) => config.wf() && loaded(text@) == Ok::<ConfigView, ConfigError>(config@),
                Err(e) => loaded(text@) == Err::<ConfigView, ConfigError>(e),
            },
    {
        match parse(text) {
            Err(_) => Err(ConfigError::Syntax),
            Ok(doc) => Config::from_parsed(&doc),
        }
    }

    /// Writes the configuration as the text of a document to store, and
    /// hands the text out only if it reads back as this configuration.
    pub fn save(&self) -> (r: Result<String, ConfigError>)
        requires
            self.wf(),
        ensures
            match r {
                Ok(text) => stored(self@) == Ok::<Seq<char>, ConfigError>(text@) && loaded(text@)
                    == Ok::<ConfigView, ConfigError>(self@),
                Err(e) => stored(self@) == Err::<Seq<char>, ConfigError>(e),
            },
    {
        let doc = self.to_document();
        let text = match render(&doc) {
            Err(_) => {
                return Err(ConfigError::Unwritable);
            },
            Ok(text) => text,
        };
        match Config::load(text.as_str()) {
            Err(_) => Err(ConfigError::Unfaithful),
            Ok(again) => if self.same_as(&again) {
                Ok(text)
            } else {
                Err(ConfigError::Unfaithful)
            },
        }
    }

    /// Tells whether `other` is the same configuration: the same groups with
    /// the same repositories at the same versions, and the same settings.
    pub fn same_as(&self, other: &Config) -> (r: bool)
        ensures
            r == (self@ == other@),
    {
        let github = match (&self.github, &other.github) {
            (Some(a), Some(b)) => a.same_as(b),
            (None, None) => true,
            _ => false,
        };
        let gitlab = match (&self.gitlab, &other.gitlab) {
            (Some(a), Some(b)) => a.same_as(b),
            (None, None) => true,
            _ => false,
        };
        github && gitlab && self.config.same_as(&other.config)
    }

    /// Stores `version` as the last version seen of the repository at `index`
    /// on `forge`, and tells whether there is such a repository.
    pub fn set_version(&mut self, forge: Forge, index: usize, version: String) -> (stored: bool)
        requires
            old(self).wf(),
        ensures
            final(self).wf(),
            stored == (old(self)@.group(forge) matches Some(g) && index < g.entries.len()),
            final(self)@ == old(self)@.with_version(forge, index as int, version@),
    {
        match forge {
            Forge::Github => {
                if let Some(group) = &mut self.github {
                    return group.set_version(index, version);
                }
            },
            Forge::Gitlab => {
                if let Some(group) = &mut self.gitlab {
                    return group.set_version(index, version);
                }
            },
        }
        false
    }
}

/// The configuration that the text of a stored document gives.
pub open spec fn loaded(text: Seq<char>) -> Result<ConfigView, ConfigError> {
    match parsed(text) {
        None => Err(ConfigError::Syntax),
        Some(doc) => decode(doc),
    }
}

/// The text that stores `config`: the text written for its document, where
/// that text reads back as `config`.
pub open spec fn stored(config: ConfigView) -> Result<Seq<char>, ConfigError> {
    match rendered(encode(config)) {
        None => Err(ConfigError::Unwritable),
        Some(text) => if loaded(text) == Ok::<ConfigView, ConfigError>(config) {
            Ok(text)
        } else {
            Err(ConfigError::Unfaithful)
        },
    }
}

/// Copies the repositories of `group` into a table, in the order of their
/// identifiers.
pub fn ordered_map(group: &UrlGroup) -> (table: Table)
    requires
        group.wf(),
    ensures
        table.deep_view() == encode_entries(group@.entries),
        ordered(table.deep_view()),
{
    proof {
        lemma_encode_ordered(group@.entries);
    }
    let entries = group.data();
    let ghost s = group@.entries;
    let mut table: Table = Vec::new();
    let mut i: usize = 0;
    while i < entries.len()
        invariant
            s == entries.deep_view(),
            i <= entries.len(),
            table.deep_view() =~= encode_entries(s).take(i as int),
        decreases entries.len() - i,
    {
        let ghost before = table.deep_view();
        table.push((entries[i].id.clone(), Scalar::Text(entries[i].version.clone())));
        assert(table.deep_view() =~= before.push(encode_entries(s)[i as int]));
        i += 1;
    }
    assert(encode_entries(s).take(i as int) =~= encode_entries(s));
    table
}

/// A configuration that was read is well formed, in whatever order the
/// document named the repositories.
pub proof fn lemma_decode_wf(doc: ParsedView)
    ensures
        decode(doc) matches Ok(config) ==> config.wf(),
{
    if let Ok(config) = decode(doc) {
        if let Some(SectionView::Table(fields)) = lookup(doc, Forge::Github.spec_name()) {
            lemma_arrange_ordered(texts(fields));
        }
        if let Some(SectionView::Table(fields)) = lookup(doc, Forge::Gitlab.spec_name()) {
            lemma_arrange_ordered(texts(fields));
        }
    }
}

/// A group that was read holds the repositories and versions that its table
/// named, no more and no less.
pub proof fn lemma_decode_group_contents(
    forge: Forge,
    fields: Seq<(Seq<char>, FieldView)>,
    id: Seq<char>,
    version: Seq<char>,
)
    requires
        decode_group(forge, Some(SectionView::Table(fields))) is Ok,
    ensures
        decode_group(forge, Some(SectionView::Table(fields))) matches Ok(Some(group))
            && ordered(group.entries) && (group.entries.contains((id, version)) <==> fields.contains(
            (id, FieldView::Plain(ScalarView::Text(version))),
        )),
{
    let t = texts(fields);
    assert forall|i: int, j: int| 0 <= i < j < t.len() implies #[trigger] t[i].0
        != #[trigger] t[j].0 by {
        assert(fields[i].0 != fields[j].0);
    }
    lemma_arrange_ordered(t);
    lemma_arrange_contents(t, (id, version));
    if t.contains((id, version)) {
        let i = choose|i: int| 0 <= i < t.len() && t[i] == (id, version);
        assert(fields[i].1 is Plain && fields[i].1->Plain_0 is Text);
        assert(fields[i] == (id, FieldView::Plain(ScalarView::Text(version))));
    }
    if fields.contains((id, FieldView::Plain(ScalarView::Text(version)))) {
        let i = choose|i: int|
            0 <= i < fields.len() && fields[i] == (id, FieldView::Plain(ScalarView::Text(version)));
        assert(t[i] == (id, version));
    }
}

/// Reading a document and writing it again keeps the repositories and versions
/// that the document named for a forge, and lists them in the order of their
/// identifiers, in whatever order the document named them.
pub proof fn lemma_read_then_written(
    doc: ParsedView,
    forge: Forge,
    fields: Seq<(Seq<char>, FieldView)>,
    id: Seq<char>,
    version: Seq<char>,
)
    requires
        decode(doc) is Ok,
        lookup(doc, forge.spec_name()) == Some(SectionView::Table(fields)),
    ensures
        decode(doc)->Ok_0.group(forge) matches Some(group) && ordered(
            encode_entries(group.entries),
        ) && (encode_entries(group.entries).contains((id, ScalarView::Text(version)))
            <==> fields.contains((id, FieldView::Plain(ScalarView::Text(version))))),
{
    lemma_decode_group_contents(forge, fields, id, version);
    let group = decode(doc)->Ok_0.group(forge)->Some_0;
    let table = encode_entries(group.entries);
    lemma_encode_ordered(group.entries);
    if table.contains((id, ScalarView::Text(version))) {
        let i = choose|i: int| 0 <= i < table.len() && table[i] == (id, ScalarView::Text(version));
        assert(group.entries[i] == (id, version));
    }
    if group.entries.contains((id, version)) {
        let i = choose|i: int| 0 <= i < group.entries.len() && group.entries[i] == (id, version);
        assert(table[i] == (id, ScalarView::Text(version)));
    }
}

/// A document that names no table for a forge is read as a configuration
/// without that forge: it is read whenever the rest of it is in order.
pub proof fn lemma_missing_group(doc: ParsedView, forge: Forge)
    requires
        lookup(doc, forge.spec_name()) is None,
    ensures
        decode(doc) matches Ok(config) ==> config.group(forge) is None,
        decode(doc) is Ok <==> decode_settings(lookup(doc, settings_name())) is Ok && decode_group(
            Forge::Github,
            lookup(doc, Forge::Github.spec_name()),
        ) is Ok && decode_group(Forge::Gitlab, lookup(doc, Forge::Gitlab.spec_name())) is Ok,
        decode_group(forge, lookup(doc, forge.spec_name())) is Ok,
{
}

/// Settings that name no interval are read with the interval of an hour.
pub proof fn lemma_default_interval(doc: ParsedView, fields: Seq<(Seq<char>, FieldView)>)
    requires
        lookup(doc, settings_name()) == Some(SectionView::Table(fields)),
        lookup(fields, time_key()) is None,
    ensures
        decode(doc) matches Ok(config) ==> config.time == 3600,
        decode_settings(lookup(doc, settings_name())) is Ok <==> (lookup(fields, email_key())
            matches Some(FieldView::Plain(ScalarView::Text(_)))),
{
}

/// The table of a group names its repositories in the order of their
/// identifiers.
pub proof fn lemma_encode_ordered(entries: Seq<(Seq<char>, Seq<char>)>)
    requires
        ordered(entries),
    ensures
        ordered(encode_entries(entries)),
{
    let t = encode_entries(entries);
    assert forall|i: int, j: int| 0 <= i < j < t.len() implies precedes(
        #[trigger] t[i].0,
        #[trigger] t[j].0,
    ) by {
        assert(t[i].0 == entries[i].0 && t[j].0 == entries[j].0);
    }
}

/// What a written group is read back as.
proof fn lemma_group_round_trip(group: UrlGroupView)
    requires
        ordered(group.entries),
    ensures
        decode_group(
            group.forge,
            Some(read_back(encode_group(Some(group)))[0].1),
        ) == Ok::<Option<UrlGroupView>, ConfigError>(Some(group)),
{
    let fields = read_back(encode_group(Some(group)))[0].1->Table_0;
    assert(fields.len() == group.entries.len());
    assert forall|i: int| 0 <= i < fields.len() implies fields[i] == (
        group.entries[i].0,
        FieldView::Plain(ScalarView::Text(group.entries[i].1)),
    ) by {}
    assert(texts(fields) =~= group.entries);
    lemma_ordered_distinct(group.entries);
    assert forall|i: int, j: int| 0 <= i < j < fields.len() implies #[trigger] fields[i].0
        != #[trigger] fields[j].0 by {
        assert(group.entries[i].0 != group.entries[j].0);
    }
    lemma_arrange_ordered_is_same(group.entries);
}

/// A configuration that was stored is loaded again as it was: the same
/// groups, with the same repositories at the same versions, and the same
/// settings.
pub proof fn lemma_stored_loads(config: ConfigView, text: Seq<char>)
    requires
        stored(config) == Ok::<Seq<char>, ConfigError>(text),
    ensures
        loaded(text) == Ok::<ConfigView, ConfigError>(config),
{
}

/// A configuration is stored whenever the text written for its document is
/// read as that document again.
pub proof fn lemma_faithful_text_is_stored(config: ConfigView, text: Seq<char>)
    requires
        config.wf(),
        rendered(encode(config)) == Some(text),
        parsed(text) == Some(read_back(encode(config))),
    ensures
        stored(config) == Ok::<Seq<char>, ConfigError>(text),
{
    lemma_round_trip(config);
}

/// The names of the three tables differ, and so do the keys of the settings.
proof fn lemma_names_differ()
    ensures
        Forge::Github.spec_name() != Forge::Gitlab.spec_name(),
        Forge::Github.spec_name() != settings_name(),
        Forge::Gitlab.spec_name() != settings_name(),
        email_key() != time_key(),
{
    reveal_strlit("github");
    reveal_strlit("gitlab");
    reveal_strlit("config");
    reveal_strlit("email");
    reveal_strlit("time");
    assert("github"@[3] != "gitlab"@[3]);
    assert("github"@[0] != "config"@[0]);
    assert("gitlab"@[0] != "config"@[0]);
    assert("email"@.len() != "time"@.len());
}

/// Reading back the document that was written for a configuration gives that
/// configuration: the same groups, with the same repositories at the same
/// versions, and the same settings.
pub proof fn lemma_round_trip(config: ConfigView)
    requires
        config.wf(),
    ensures
        decode(read_back(encode(config))) == Ok::<ConfigView, ConfigError>(config),
{
    lemma_names_differ();
    reveal_with_fuel(lookup, 4);
    let doc = encode(config);
    let back = read_back(doc);
    let settings = encode_settings(config.email, config.time);
    let fields = read_back(seq![(settings_name(), settings)])[0].1->Table_0;
    assert(fields[0] == (email_key(), FieldView::Plain(ScalarView::Text(config.email))));
    assert(fields[1] == (
        time_key(),
        FieldView::Plain(ScalarView::Integer(config.time as i64)),
    ));
    assert(lookup(fields, email_key()) == Some(FieldView::Plain(ScalarView::Text(config.email))));
    assert(fields.drop_first()[0] == fields[1]);
    assert(lookup(fields, time_key()) == Some(
        FieldView::Plain(ScalarView::Integer(config.time as i64)),
    ));
    assert(decode_settings(Some(SectionView::Table(fields))) == Ok::<ConfigurablesView, ConfigError>(
        ConfigurablesView { email: config.email, time: config.time },
    ));
    let last = back.len() - 1;
    assert(back[last] == (settings_name(), SectionView::Table(fields)));
    match (config.github, config.gitlab) {
        (Some(a), Some(b)) => {
            lemma_group_round_trip(a);
            lemma_group_round_trip(b);
            assert(back.len() == 3);
            assert(back[0] == read_back(encode_group(Some(a)))[0]);
            assert(back[1] == read_back(encode_group(Some(b)))[0]);
            assert(back.drop_first()[0] == back[1]);
            assert(back.drop_first().drop_first()[0] == back[2]);
            assert(lookup(back, Forge::Github.spec_name()) == Some(back[0].1));
            assert(lookup(back, Forge::Gitlab.spec_name()) == Some(back[1].1));
            assert(lookup(back, settings_name()) == Some(back[2].1));
        },
        (Some(a), None) => {
            lemma_group_round_trip(a);
            assert(back.len() == 2);
            assert(back[0] == read_back(encode_group(Some(a)))[0]);
            assert(back.drop_first()[0] == back[1]);
            assert(back.drop_first().drop_first().len() == 0);
            assert(lookup(back, Forge::Github.spec_name()) == Some(back[0].1));
            assert(lookup(back, Forge::Gitlab.spec_name()) is None);
            assert(lookup(back, settings_name()) == Some(back[1].1));
        },
        (None, Some(b)) => {
            lemma_group_round_trip(b);
            assert(back.len() == 2);
            assert(back[0] == read_back(encode_group(Some(b)))[0]);
            assert(back.drop_first()[0] == back[1]);
            assert(back.drop_first().drop_first().len() == 0);
            assert(lookup(back, Forge::Github.spec_name()) is None);
            assert(lookup(back, Forge::Gitlab.spec_name()) == Some(back[0].1));
            assert(lookup(back, settings_name()) == Some(back[1].1));
        },
        (None, None) => {
            assert(back.len() == 1);
            assert(back.drop_first().len() == 0);
            assert(lookup(back, Forge::Github.spec_name()) is None);
            assert(lookup(back, Forge::Gitlab.spec_name()) is None);
            assert(lookup(back, settings_name()) == Some(back[0].1));
        },
    }
}

} // verus!
