//! The catalog of log sources.
//!
//! A source is a log file, a pattern and an alias. The named groups of the
//! pattern other than `ts` are its metrics; each is offered under the name
//! `alias.group`. The catalog is built once and only read afterwards.

use crate::error::{Error, ErrorView};
use crate::first::{first_where, lemma_first_where, lemma_first_where_is, lemma_first_where_none};
use crate::pattern::{pattern_compiles, pattern_group_names, Pattern};
use vstd::prelude::*;
use vstd::string::StringExecFns;

verus! {

/// The name of the group that holds the timestamp of a line.
pub open spec fn timestamp_name() -> Seq<char> {
    seq!['t', 's']
}

/// The condition of being the group called `name`.
pub open spec fn named(name: Seq<char>) -> spec_fn(Option<Seq<char>>) -> bool {
    |group: Option<Seq<char>>| group == Some(name)
}

/// The index of the first group called `name`.
pub open spec fn group_named(groups: Seq<Option<Seq<char>>>, name: Seq<char>) -> Option<int> {
    first_where(groups, named(name))
}

/// The name of a group that stands for a metric: it has a name, and the
/// name is not that of the timestamp.
pub open spec fn metric_group(group: Option<Seq<char>>) -> Option<Seq<char>> {
    if group is Some && group->0 != timestamp_name() {
        group
    } else {
        None
    }
}

/// The names of the groups that stand for metrics, in the order of the groups.
pub open spec fn metric_group_names(groups: Seq<Option<Seq<char>>>) -> Seq<Seq<char>> {
    groups.filter_map(|group: Option<Seq<char>>| metric_group(group))
}

/// The name under which the group `group` of a source called `alias` is offered.
pub open spec fn metric_name(alias: Seq<char>, group: Seq<char>) -> Seq<char> {
    alias + seq!['.'] + group
}

/// A log source: what a [`LogItem`] stands for, and what a [`LogItemDeser`] asks for.
pub struct Source {
    pub file: Seq<char>,
    pub pattern: Seq<char>,
    pub alias: Seq<char>,
}

impl Source {
    /// The groups of the pattern, by index.
    pub open spec fn groups(self) -> Seq<Option<Seq<char>>> {
        pattern_group_names(self.pattern)
    }

    /// The names of the groups that stand for metrics.
    pub open spec fn capture_names(self) -> Seq<Seq<char>> {
        metric_group_names(self.groups())
    }

    /// The names of the metrics of this source.
    pub open spec fn metric_names(self) -> Seq<Seq<char>> {
        self.capture_names().map_values(|group: Seq<char>| metric_name(self.alias, group))
    }

    /// Whether a catalog can hold this source: the pattern compiles, has a
    /// group for the timestamp and at least one for a metric.
    pub open spec fn valid(self) -> bool {
        &&& pattern_compiles(self.pattern)
        &&& group_named(self.groups(), timestamp_name()) is Some
        &&& self.capture_names().len() > 0
    }
}

/// The metrics of all sources, in the order of the sources.
pub open spec fn all_metric_names(sources: Seq<Source>) -> Seq<Seq<char>> {
    sources.map_values(|source: Source| source.metric_names()).flatten()
}

/// The condition of being a source that no catalog can hold.
pub open spec fn invalid() -> spec_fn(Source) -> bool {
    |source: Source| !source.valid()
}

/// One log source as it is configured: the file, the text of the pattern
/// and the alias.
#[derive(Clone, Debug)]
pub struct LogItemDeser {
    pub file: String,
    pub regex: String,
    pub alias: String,
}

impl View for LogItemDeser {
    type V = Source;

    open spec fn view(&self) -> Source {
        Source { file: self.file@, pattern: self.regex@, alias: self.alias@ }
    }
}

impl DeepView for LogItemDeser {
    type V = Source;

    open spec fn deep_view(&self) -> Source {
        self@
    }
}

/// The sources as they are configured.
#[derive(Debug)]
pub struct ConfigDeser {
    pub item: Vec<LogItemDeser>,
}

impl View for ConfigDeser {
    type V = Seq<Source>;

    open spec fn view(&self) -> Seq<Source> {
        self.item.deep_view()
    }
}

/// One log source, ready for use: besides what was configured it holds the
/// names of its metrics and where their groups are in a match.
pub struct LogItem {
    file: String,
    regex: Pattern,
    alias: String,
    capture_names: Vec<String>,
    aliases: Vec<String>,
    timestamp_group: usize,
    capture_groups: Vec<usize>,
}

impl View for LogItem {
    type V = Source;

    closed spec fn view(&self) -> Source {
        Source { file: self.file@, pattern: self.regex@, alias: self.alias@ }
    }
}

impl DeepView for LogItem {
    type V = Source;

    open spec fn deep_view(&self) -> Source {
        self@
    }
}

proof fn lemma_metric_group_names_push(groups: Seq<Option<Seq<char>>>, group: Option<Seq<char>>)
    ensures
        metric_group_names(groups.push(group)) == match metric_group(group) {
            Some(name) => metric_group_names(groups).push(name),
            None => metric_group_names(groups),
        },
{
    assert(groups.push(group).drop_last() =~= groups);
}

/// The index of the first group called `name`.
fn find_group(names: &Vec<Option<String>>, name: &String) -> (found: Option<usize>)
    ensures
        match found {
            Some(i) => group_named(names.deep_view(), name@) == Some(i as int) && i < names.len(),
            None => group_named(names.deep_view(), name@) is None,
        },
{
    let mut i: usize = 0;
    while i < names.len()
        invariant
            i <= names.len(),
            forall|j: int| 0 <= j < i ==> !named(name@)(#[trigger] names.deep_view()[j]),
        decreases names.len() - i,
    {
        let same = match &names[i] {
            Some(other) => *other == *name,
            None => false,
        };
        if same {
            proof {
                lemma_first_where_is(names.deep_view(), named(name@), i as int);
            }
            return Some(i);
        }
        i = i + 1;
    }
    proof {
        lemma_first_where_none(names.deep_view(), named(name@));
    }
    None
}

impl LogItem {
    #[verifier::type_invariant]
    spec fn well_formed(self) -> bool {
        &&& self@.valid()
        &&& self.capture_names.deep_view() == self@.capture_names()
        &&& self.aliases.deep_view() == self@.metric_names()
        &&& group_named(self@.groups(), timestamp_name()) == Some(self.timestamp_group as int)
        &&& self.capture_groups.len() == self.capture_names.len()
        &&& forall|k: int|
            0 <= k < self.capture_names.len() ==> group_named(
                self@.groups(),
                #[trigger] self.capture_names[k]@,
            ) == Some(self.capture_groups[k] as int)
    }

    /// Makes a source ready for use.
    ///
    /// Fails with `InvalidPattern` exactly where the source is not valid:
    /// the pattern does not compile, or it has no group `ts`, or it has no
    /// other named group.
    pub fn try_from(lid: LogItemDeser) -> (made: Result<LogItem, Error>)
        ensures
            made is Ok <==> lid@.valid(),
            made matches Ok(item) ==> item@ == lid@,
            made matches Err(e) ==> e@ == ErrorView::InvalidPattern(lid.regex@),
    {
        let regex = match Pattern::compile(lid.regex.as_str()) {
            Some(regex) => regex,
            None => {
                return Err(Error::InvalidPattern(lid.regex));
            },
        };
        let names = regex.group_names();
        let ts = "ts".to_owned();
        proof {
            reveal_strlit("ts");
            assert(ts@ =~= timestamp_name());
        }
        let timestamp_group = match find_group(&names, &ts) {
            Some(group) => group,
            None => {
                return Err(Error::InvalidPattern(lid.regex));
            },
        };
        let ghost groups = names.deep_view();
        let mut capture_names: Vec<String> = Vec::new();
        let mut capture_groups: Vec<usize> = Vec::new();
        let mut aliases: Vec<String> = Vec::new();
        let mut i: usize = 0;
        while i < names.len()
            invariant
                i <= names.len(),
                groups == names.deep_view(),
                ts@ == timestamp_name(),
                capture_names.deep_view() == metric_group_names(groups.take(i as int)),
                capture_groups.len() == capture_names.len(),
                aliases.len() == capture_names.len(),
                forall|k: int|
                    0 <= k < capture_names.len() ==> group_named(
                        groups,
                        #[trigger] capture_names[k]@,
                    ) == Some(capture_groups[k] as int),
                forall|k: int|
                    0 <= k < capture_names.len() ==> (#[trigger] aliases[k])@ == metric_name(
                        lid.alias@,
                        capture_names[k]@,
                    ),
            decreases names.len() - i,
        {
            proof {
                assert(groups.take(i as int + 1) =~= groups.take(i as int).push(groups[i as int]));
                lemma_metric_group_names_push(groups.take(i as int), groups[i as int]);
            }
            match &names[i] {
                Some(name) => {
                    if *name != ts {
                        let found = find_group(&names, name);
                        proof {
                            lemma_first_where(groups, named(name@));
                        }
                        let group = found.unwrap();
                        let mut alias = lid.alias.clone();
                        alias.append(".");
                        alias.append(name.as_str());
                        proof {
                            reveal_strlit(".");
                        }
                        capture_names.push(name.clone());
                        capture_groups.push(group);
                        aliases.push(alias);
                    }
                },
                None => {},
            }
            i = i + 1;
        }
        proof {
            assert(groups.take(names.len() as int) =~= groups);
        }
        if capture_names.len() == 0 {
            return Err(Error::InvalidPattern(lid.regex));
        }
        proof {
            assert(aliases.deep_view() =~= lid@.metric_names());
        }
        Ok(
            LogItem {
                file: lid.file,
                regex,
                alias: lid.alias,
                capture_names,
                aliases,
                timestamp_group,
                capture_groups,
            },
        )
    }

    /// The name of the group that stands for metric `k`.
    pub(crate) fn capture_name(&self, k: usize) -> (name: &String)
        requires
            k < self@.capture_names().len(),
        ensures
            name@ == self@.capture_names()[k as int],
    {
        proof {
            use_type_invariant(self);
        }
        &self.capture_names[k]
    }

    /// Where in a match the group that stands for metric `k` is.
    pub(crate) fn capture_group(&self, k: usize) -> (group: usize)
        requires
            k < self@.capture_names().len(),
        ensures
            group_named(self@.groups(), self@.capture_names()[k as int]) == Some(group as int),
    {
        proof {
            use_type_invariant(self);
        }
        self.capture_groups[k]
    }

    /// Where in a match the group of the timestamp is.
    pub(crate) fn timestamp_group(&self) -> (group: usize)
        ensures
            group_named(self@.groups(), timestamp_name()) == Some(group as int),
    {
        proof {
            use_type_invariant(self);
        }
        self.timestamp_group
    }

    /// The path of the log file.
    pub fn file(&self) -> (file: &String)
        ensures
            file@ == self@.file,
    {
        &self.file
    }

    /// The pattern that a line of the file is matched against.
    pub fn regex(&self) -> (regex: &Pattern)
        ensures
            regex@ == self@.pattern,
    {
        &self.regex
    }

    /// The alias under which the metrics of this source are offered.
    pub fn alias(&self) -> (alias: &String)
        ensures
            alias@ == self@.alias,
    {
        &self.alias
    }

    /// The names of the groups that stand for metrics, in the order of the groups.
    pub fn capture_names(&self) -> (names: &Vec<String>)
        ensures
            names.deep_view() == self@.capture_names(),
            self@.valid(),
    {
        proof {
            use_type_invariant(self);
        }
        &self.capture_names
    }

    /// The names of the metrics: `alias.group` for each group that stands for one.
    pub fn aliases(&self) -> (names: &Vec<String>)
        ensures
            names.deep_view() == self@.metric_names(),
            self@.valid(),
    {
        proof {
            use_type_invariant(self);
        }
        &self.aliases
    }
}

/// The catalog: the sources, and the names of all their metrics.
pub struct Config {
    items: Vec<LogItem>,
    all_aliases: Vec<String>,
}

impl View for Config {
    type V = Seq<Source>;

    closed spec fn view(&self) -> Seq<Source> {
        self.items.deep_view()
    }
}

/// The metrics of a catalog with one more source are those of the catalog
/// and then those of the source.
pub proof fn lemma_all_metric_names_push(sources: Seq<Source>, source: Source)
    ensures
        all_metric_names(sources.push(source)) == all_metric_names(sources)
            + source.metric_names(),
{
    let names = |source: Source| source.metric_names();
    assert(sources.push(source).map_values(names) =~= sources.map_values(names).push(
        source.metric_names(),
    ));
    sources.map_values(names).lemma_flatten_push(source.metric_names());
}

impl Config {
    #[verifier::type_invariant]
    spec fn well_formed(self) -> bool {
        &&& forall|i: int| 0 <= i < self@.len() ==> (#[trigger] self@[i]).valid()
        &&& self.all_aliases.deep_view() == all_metric_names(self@)
    }

    /// Builds the catalog from the configured sources, in their order.
    ///
    /// Fails exactly where one of the sources is not valid, with the
    /// `InvalidPattern` of the first such source.
    pub fn try_from(conf_deser: ConfigDeser) -> (made: Result<Config, Error>)
        ensures
            made is Ok <==> first_where(conf_deser@, invalid()) is None,
            made matches Ok(config) ==> config@ == conf_deser@,
            made matches Err(e) ==> e@ == ErrorView::InvalidPattern(
                conf_deser@[first_where(conf_deser@, invalid())->0].pattern,
            ),
    {
        let ghost sources = conf_deser@;
        let mut items: Vec<LogItem> = Vec::new();
        for lid in it: conf_deser.item
            invariant
                sources == conf_deser@,
                it.seq().len() == sources.len(),
                forall|j: int| 0 <= j < sources.len() ==> (#[trigger] it.seq()[j])@ == sources[j],
                items.deep_view() == sources.take(it.index() as int),
                forall|j: int| 0 <= j < it.index() ==> (#[trigger] sources[j]).valid(),
        {
            let ghost before = items.deep_view();
            match LogItem::try_from(lid) {
                Ok(item) => {
                    items.push(item);
                },
                Err(e) => {
                    proof {
                        lemma_first_where_is(sources, invalid(), it.index() as int);
                    }
                    return Err(e);
                },
            }
            proof {
                assert(items.deep_view() =~= before.push(sources[it.index() as int]));
            }
        }
        proof {
            lemma_first_where_none(sources, invalid());
        }
        let mut all_aliases: Vec<String> = Vec::new();
        let mut i: usize = 0;
        while i < items.len()
            invariant
                i <= items.len(),
                items.deep_view() == sources,
                all_aliases.deep_view() == all_metric_names(sources.take(i as int)),
            decreases items.len() - i,
        {
            let names = items[i].aliases();
            let ghost done = all_aliases.deep_view();
            let mut j: usize = 0;
            while j < names.len()
                invariant
                    j <= names.len(),
                    all_aliases.deep_view() == done + names.deep_view().take(j as int),
                decreases names.len() - j,
            {
                let ghost before = all_aliases.deep_view();
                all_aliases.push(names[j].clone());
                proof {
                    assert(all_aliases.deep_view() =~= before.push(names[j as int]@));
                }
                j = j + 1;
            }
            proof {
                assert(sources.take(i as int + 1) =~= sources.take(i as int).push(sources[i as int]));
                lemma_all_metric_names_push(sources.take(i as int), sources[i as int]);
            }
            i = i + 1;
        }
        Ok(Config { items, all_aliases })
    }

    /// Builds the catalog from the configured sources: see [`Config::try_from`].
    pub fn load(item: Vec<LogItemDeser>) -> (made: Result<Config, Error>)
        ensures
            made is Ok <==> first_where(item.deep_view(), invalid()) is None,
            made matches Ok(config) ==> config@ == item.deep_view(),
            made matches Err(e) ==> e@ == ErrorView::InvalidPattern(
                item.deep_view()[first_where(item.deep_view(), invalid())->0].pattern,
            ),
    {
        Config::try_from(ConfigDeser { item })
    }

    /// The sources, in the order in which they were configured. Each is valid.
    pub fn items(&self) -> (items: &Vec<LogItem>)
        ensures
            items.deep_view() == self@,
            forall|i: int| 0 <= i < self@.len() ==> (#[trigger] self@[i]).valid(),
    {
        proof {
            use_type_invariant(self);
        }
        &self.items
    }

    /// The names of all metrics: those of the first source, then those of
    /// the second, and so on.
    pub fn all_aliases(&self) -> (names: &Vec<String>)
        ensures
            names.deep_view() == all_metric_names(self@),
    {
        proof {
            use_type_invariant(self);
        }
        &self.all_aliases
    }
}

} // verus!
