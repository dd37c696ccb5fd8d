//! From requested names to log sources.
//!
//! The metrics that a query names are grouped by the source that offers
//! them, so that each log file is read once, however many of its metrics
//! are asked for. A name that no source offers is left out. A name without
//! a `.` is an error.

use crate::api::Target;
use crate::config::{group_named, metric_name, Config, LogItem, Source};
use crate::error::{Error, ErrorView};
use crate::first::{first_where, lemma_first_where_is, lemma_first_where_none};
use crate::text::chars_of;
use vstd::prelude::*;
use vstd::string::StrSliceExecFns;

verus! {

/// The condition of being a `.`.
pub open spec fn is_dot() -> spec_fn(char) -> bool {
    |c: char| c == '.'
}

/// Where the part of `s` before its first `.` ends.
pub open spec fn segment_end(s: Seq<char>) -> int {
    match first_where(s, is_dot()) {
        Some(i) => i,
        None => s.len() as int,
    }
}

/// The second of the parts into which the `.`s divide `name`: what stands
/// between the first `.` and the next, or the end. A name without `.` has none.
pub open spec fn capture_part(name: Seq<char>) -> Option<Seq<char>> {
    match first_where(name, is_dot()) {
        Some(i) => Some(name.skip(i + 1).take(segment_end(name.skip(i + 1)))),
        None => None,
    }
}

/// The condition of being a name without a `.`.
pub open spec fn malformed() -> spec_fn(Seq<char>) -> bool {
    |name: Seq<char>| capture_part(name) is None
}

/// The condition of being one of `names`.
pub open spec fn among(names: Seq<Seq<char>>) -> spec_fn(Seq<char>) -> bool {
    |name: Seq<char>| names.contains(name)
}

/// The requested names that `source` offers, in the order of the request,
/// each with the name of the group that answers it.
pub open spec fn picks_of(source: Source, targets: Seq<Seq<char>>) -> Seq<
    (Seq<char>, Seq<char>),
> {
    targets.filter(among(source.metric_names())).map_values(
        |name: Seq<char>| (name.skip(source.alias.len() as int + 1), name),
    )
}

/// What a [`Group`] holds: a source, its place in the catalog, and the
/// metrics asked of it as pairs of group name and metric name.
pub struct GroupView {
    pub source: int,
    pub item: Source,
    pub picks: Seq<(Seq<char>, Seq<char>)>,
}

impl GroupView {
    /// The names of the groups that answer the picks.
    pub open spec fn capture_names(self) -> Seq<Seq<char>> {
        self.picks.map_values(|pick: (Seq<char>, Seq<char>)| pick.0)
    }
}

/// The condition of being asked for at least one metric.
pub open spec fn touched() -> spec_fn(GroupView) -> bool {
    |group: GroupView| group.picks.len() > 0
}

/// Every source with what `targets` asks of it.
pub open spec fn candidates(sources: Seq<Source>, targets: Seq<Seq<char>>) -> Seq<GroupView> {
    Seq::new(
        sources.len(),
        |i: int| GroupView { source: i, item: sources[i], picks: picks_of(sources[i], targets) },
    )
}

/// The sources that `targets` asks something of, in the order of the
/// catalog, each with what is asked of it.
pub open spec fn resolve(sources: Seq<Source>, targets: Seq<Seq<char>>) -> Seq<GroupView> {
    candidates(sources, targets).filter(touched())
}

/// The names that a list of targets asks for.
pub open spec fn target_names(targets: Seq<Target>) -> Seq<Seq<char>> {
    targets.map_values(|target: Target| target.target@)
}

/// One source of the catalog with the metrics that a query asks of it.
pub struct Group<'a> {
    source: usize,
    item: &'a LogItem,
    cnames: Vec<(String, String)>,
    groups: Vec<usize>,
}

impl<'a> View for Group<'a> {
    type V = GroupView;

    closed spec fn view(&self) -> GroupView {
        GroupView { source: self.source as int, item: self.item@, picks: self.cnames.deep_view() }
    }
}

impl<'a> DeepView for Group<'a> {
    type V = GroupView;

    open spec fn deep_view(&self) -> GroupView {
        self@
    }
}

/// The index of the first `.` in `s` at or after `from`, or the length of `s`.
fn find_dot(s: &Vec<char>, from: usize) -> (at: usize)
    requires
        from <= s.len(),
    ensures
        from <= at <= s.len(),
        at - from == segment_end(s@.skip(from as int)),
        at < s.len() <==> first_where(s@.skip(from as int), is_dot()) is Some,
{
    let ghost rest = s@.skip(from as int);
    let mut at: usize = from;
    while at < s.len()
        invariant
            from <= at <= s.len(),
            rest == s@.skip(from as int),
            forall|j: int| 0 <= j < at - from ==> !is_dot()(#[trigger] rest[j]),
        decreases s.len() - at,
    {
        if s[at] == '.' {
            proof {
                lemma_first_where_is(rest, is_dot(), at - from);
            }
            return at;
        }
        at = at + 1;
    }
    proof {
        lemma_first_where_none(rest, is_dot());
    }
    at
}

/// Splits the name of a metric at its `.`s and returns the second part.
///
/// Fails with `MalformedTargetName` exactly where the name has no `.`.
pub fn cname_from_target(t: &String) -> (made: Result<String, Error>)
    ensures
        match capture_part(t@) {
            Some(part) => made matches Ok(name) && name@ == part,
            None => made matches Err(e) && e@ == ErrorView::MalformedTargetName(t@),
        },
{
    let s = chars_of(t.as_str());
    proof {
        assert(s@.skip(0) =~= s@);
    }
    let dot = find_dot(&s, 0);
    if dot == s.len() {
        return Err(Error::MalformedTargetName(t.clone()));
    }
    let end = find_dot(&s, dot + 1);
    Ok(t.as_str().substring_char(dot + 1, end).to_owned())
}

/// The index of the first of `names` that is `name`.
fn position(names: &Vec<String>, name: &String) -> (found: Option<usize>)
    ensures
        match found {
            Some(k) => k < names.len() && names[k as int]@ == name@,
            None => !names.deep_view().contains(name@),
        },
{
    let mut k: usize = 0;
    while k < names.len()
        invariant
            k <= names.len(),
            forall|j: int| 0 <= j < k ==> names.deep_view()[j] != name@,
        decreases names.len() - k,
    {
        if names[k] == *name {
            return Some(k);
        }
        k = k + 1;
    }
    None
}

proof fn lemma_picks_of_push(source: Source, targets: Seq<Seq<char>>, name: Seq<char>)
    ensures
        picks_of(source, targets.push(name)) == if source.metric_names().contains(name) {
            picks_of(source, targets).push((name.skip(source.alias.len() as int + 1), name))
        } else {
            picks_of(source, targets)
        },
{
    targets.lemma_filter_push(name, among(source.metric_names()));
}

impl<'a> Group<'a> {
    #[verifier::type_invariant]
    spec fn well_formed(self) -> bool {
        &&& self.groups.len() == self.cnames.len()
        &&& forall|k: int|
            0 <= k < self.cnames.len() ==> group_named(
                self.item@.groups(),
                (#[trigger] self.cnames[k]).0@,
            ) == Some(self.groups[k] as int)
    }

    /// The place of the source in the catalog.
    pub fn source(&self) -> (source: usize)
        ensures
            source == self@.source,
    {
        self.source
    }

    /// The source.
    pub fn item(&self) -> (item: &'a LogItem)
        ensures
            item@ == self@.item,
    {
        self.item
    }

    /// The metrics asked of the source, as pairs of group name and metric name.
    pub fn cnames(&self) -> (cnames: &Vec<(String, String)>)
        ensures
            cnames.deep_view() == self@.picks,
    {
        &self.cnames
    }

    /// Where in a match the group of pick `k` stands.
    pub(crate) fn group_of(&self, k: usize) -> (group: usize)
        requires
            k < self@.picks.len(),
        ensures
            group_named(self@.item.groups(), self@.picks[k as int].0) == Some(group as int),
    {
        proof {
            use_type_invariant(self);
        }
        self.groups[k]
    }
}

/// What `targets` asks of the source at `source` in the catalog, if anything.
fn group_for<'a>(c: &'a Config, source: usize, targets: &Vec<Target>) -> (made: Option<Group<'a>>)
    requires
        source < c@.len(),
    ensures
        made is Some <==> picks_of(c@[source as int], target_names(targets@)).len() > 0,
        made matches Some(group) ==> group@ == candidates(c@, target_names(targets@))[source as int],
{
    let item = &c.items()[source];
    let aliases = item.aliases();
    let ghost names = target_names(targets@);
    let ghost offered = item@;
    let mut cnames: Vec<(String, String)> = Vec::new();
    let mut groups: Vec<usize> = Vec::new();
    let mut j: usize = 0;
    proof {
        reveal(Seq::filter);
    }
    while j < targets.len()
        invariant
            j <= targets.len(),
            names == target_names(targets@),
            offered == item@,
            aliases.deep_view() == offered.metric_names(),
            cnames.deep_view() == picks_of(offered, names.take(j as int)),
            groups.len() == cnames.len(),
            forall|k: int|
                0 <= k < cnames.len() ==> group_named(offered.groups(), (#[trigger] cnames[k]).0@)
                    == Some(groups[k] as int),
        decreases targets.len() - j,
    {
        let name = &targets[j].target;
        proof {
            assert(names.take(j as int + 1) =~= names.take(j as int).push(name@));
            lemma_picks_of_push(offered, names.take(j as int), name@);
        }
        match position(aliases, name) {
            Some(k) => {
                proof {
                    assert(aliases.deep_view().len() == offered.capture_names().len());
                }
                let capture = item.capture_name(k);
                let group = item.capture_group(k);
                proof {
                    assert(aliases.deep_view()[k as int] == name@);
                    assert(name@.skip(offered.alias.len() as int + 1) =~= capture@);
                }
                cnames.push((capture.clone(), name.clone()));
                groups.push(group);
            },
            None => {},
        }
        j = j + 1;
    }
    proof {
        assert(names.take(targets.len() as int) =~= names);
    }
    if cnames.len() == 0 {
        None
    } else {
        Some(Group { source, item, cnames, groups })
    }
}

/// Groups the requested metrics by the source that offers them.
///
/// Fails exactly where one of the names has no `.`, with the
/// `MalformedTargetName` of the first such name. Otherwise the result holds,
/// in the order of the catalog, each source that offers one of the names,
/// once, with the names it offers in the order of the request. A name that
/// no source offers is in no group.
pub fn hash_map_targets<'a>(c: &'a Config, targets: &Vec<Target>) -> (made: Result<
    Vec<Group<'a>>,
    Error,
>)
    ensures
        match first_where(target_names(targets@), malformed()) {
            Some(i) => made matches Err(e) && e@ == ErrorView::MalformedTargetName(
                targets[i].target@,
            ),
            None => made matches Ok(groups) && groups.deep_view() == resolve(
                c@,
                target_names(targets@),
            ),
        },
{
    let ghost names = target_names(targets@);
    let mut j: usize = 0;
    while j < targets.len()
        invariant
            j <= targets.len(),
            names == target_names(targets@),
            forall|i: int| 0 <= i < j ==> !malformed()(#[trigger] names[i]),
        decreases targets.len() - j,
    {
        match cname_from_target(&targets[j].target) {
            Ok(_) => {},
            Err(e) => {
                proof {
                    lemma_first_where_is(names, malformed(), j as int);
                }
                return Err(e);
            },
        }
        j = j + 1;
    }
    proof {
        lemma_first_where_none(names, malformed());
    }
    let ghost all = candidates(c@, names);
    let items = c.items();
    let mut res: Vec<Group<'a>> = Vec::new();
    let mut i: usize = 0;
    proof {
        reveal(Seq::filter);
    }
    while i < items.len()
        invariant
            i <= c@.len(),
            items.len() == c@.len(),
            names == target_names(targets@),
            all == candidates(c@, names),
            res.deep_view() == all.take(i as int).filter(touched()),
        decreases c@.len() - i,
    {
        proof {
            assert(all.take(i as int + 1) =~= all.take(i as int).push(all[i as int]));
            all.take(i as int).lemma_filter_push(all[i as int], touched());
        }
        match group_for(c, i, targets) {
            Some(group) => {
                res.push(group);
            },
            None => {},
        }
        i = i + 1;
    }
    proof {
        assert(all.take(c@.len() as int) =~= all);
    }
    Ok(res)
}

} // verus!
