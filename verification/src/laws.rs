//! What holds of every catalog and every query.

use crate::api::SeriesView;
use crate::config::{
    all_metric_names, lemma_all_metric_names_push, metric_name, timestamp_name, Source,
};
use crate::error::ErrorView;
use crate::first::{first_where, lemma_first_where};
use crate::grouping::{
    among, candidates, capture_part, is_dot, malformed, picks_of, resolve, touched, GroupView,
};
use crate::number::Decimal;
use crate::pattern::{pattern_first_match, pattern_group_names};
use crate::query::{answer, failed, results};
use crate::scan::{line_outcome, reading};
use vstd::prelude::*;

verus! {

/// A window is open at both ends: a number that is one of its bounds is not
/// inside it, and a number is inside it exactly where it is greater than
/// the one bound and less than the other.
pub proof fn lemma_window_is_open(value: Decimal, from: int, to: int)
    ensures
        value.equals(from) ==> !value.within(from, to),
        value.equals(to) ==> !value.within(from, to),
        value.within(from, to) <==> value.exceeds(from) && value.below(to),
{
}

/// A finite number stands to an integer in exactly one of three ways: it
/// is greater, or less, or the same.
pub proof fn lemma_one_of_three(value: Decimal, bound: int)
    requires
        value is Finite,
    ensures
        value.exceeds(bound) || value.below(bound) || value.equals(bound),
        !(value.exceeds(bound) && value.below(bound)),
        !(value.exceeds(bound) && value.equals(bound)),
        !(value.below(bound) && value.equals(bound)),
{
}

/// A line whose timestamp is one of the bounds of the window contributes
/// nothing, and raises no error; a line whose timestamp is outside the
/// window does the same, whatever its values are.
pub proof fn lemma_line_outside_window(group: GroupView, from: int, to: int, line: Seq<char>)
    requires
        pattern_first_match(group.item.pattern, line) is Some,
        reading(
            pattern_group_names(group.item.pattern),
            pattern_first_match(group.item.pattern, line)->0,
            timestamp_name(),
        ) is Some,
    ensures
        ({
            let time = reading(
                pattern_group_names(group.item.pattern),
                pattern_first_match(group.item.pattern, line)->0,
                timestamp_name(),
            )->0;
            &&& time.equals(from) || time.equals(to) ==> line_outcome(group, from, to, line)
                is Skipped
            &&& !(time.exceeds(from) && time.below(to)) ==> line_outcome(group, from, to, line)
                is Skipped
            &&& time.exceeds(from) && time.below(to) ==> !(line_outcome(group, from, to, line)
                is Skipped)
        }),
{
}

proof fn lemma_resolve_prefix(sources: Seq<Source>, targets: Seq<Seq<char>>, n: int)
    requires
        0 <= n <= sources.len(),
    ensures
        ({
            let all = candidates(sources, targets);
            let groups = all.take(n).filter(touched());
            &&& groups.len() <= n
            &&& forall|i: int|
                0 <= i < groups.len() ==> 0 <= (#[trigger] groups[i]).source < n && groups[i]
                    == all[groups[i].source] && groups[i].picks.len() > 0
            &&& forall|i: int, j: int|
                0 <= i < j < groups.len() ==> (#[trigger] groups[i]).source < (
                #[trigger] groups[j]).source
        }),
    decreases n,
{
    let all = candidates(sources, targets);
    if n == 0 {
        reveal(Seq::filter);
        assert(all.take(0) =~= Seq::empty());
    } else {
        lemma_resolve_prefix(sources, targets, n - 1);
        assert(all.take(n) =~= all.take(n - 1).push(all[n - 1]));
        all.take(n - 1).lemma_filter_push(all[n - 1], touched());
    }
}

/// Grouping holds each source at most once, and only a source of which
/// something is asked; so the file of a source is read at most once for a
/// query, however many of its metrics are asked for.
pub proof fn lemma_each_source_once(
    sources: Seq<Source>,
    targets: Seq<Seq<char>>,
    contents: Seq<Option<Seq<Seq<char>>>>,
    from: int,
    to: int,
)
    ensures
        ({
            let groups = resolve(sources, targets);
            &&& groups.len() <= sources.len()
            &&& results(groups, contents, from, to).len() == groups.len()
            &&& forall|i: int|
                0 <= i < groups.len() ==> 0 <= (#[trigger] groups[i]).source < sources.len()
                    && groups[i].item == sources[groups[i].source] && groups[i].picks == picks_of(
                    sources[groups[i].source],
                    targets,
                ) && groups[i].picks.len() > 0
            &&& forall|i: int, j: int|
                0 <= i < j < groups.len() ==> (#[trigger] groups[i]).source < (
                #[trigger] groups[j]).source
        }),
{
    lemma_resolve_prefix(sources, targets, sources.len() as int);
    let all = candidates(sources, targets);
    assert(all.take(sources.len() as int) =~= all);
}

/// A name is on offer exactly where one of the sources offers it.
pub proof fn lemma_offered_by_a_source(sources: Seq<Source>, name: Seq<char>)
    ensures
        all_metric_names(sources).contains(name) <==> exists|i: int|
            0 <= i < sources.len() && (#[trigger] sources[i]).metric_names().contains(name),
    decreases sources.len(),
{
    if sources.len() == 0 {
        assert(sources.map_values(|source: Source| source.metric_names()) =~= Seq::empty());
        assert(all_metric_names(sources) =~= Seq::empty());
    } else {
        let front = sources.drop_last();
        let last = sources.last();
        lemma_offered_by_a_source(front, name);
        assert(sources =~= front.push(last));
        lemma_all_metric_names_push(front, last);
        let before = all_metric_names(front);
        let all = all_metric_names(sources);
        if all.contains(name) {
            let k = choose|k: int| 0 <= k < all.len() && all[k] == name;
            if k < before.len() {
                assert(before[k] == name);
                let i = choose|i: int|
                    0 <= i < front.len() && (#[trigger] front[i]).metric_names().contains(name);
                assert(sources[i] == front[i]);
            } else {
                assert(last.metric_names()[k - before.len()] == name);
                assert(sources[sources.len() - 1] == last);
            }
        }
        if exists|i: int|
            0 <= i < sources.len() && (#[trigger] sources[i]).metric_names().contains(name) {
            let i = choose|i: int|
                0 <= i < sources.len() && (#[trigger] sources[i]).metric_names().contains(name);
            if i < front.len() {
                assert(front[i] == sources[i]);
                let k = choose|k: int| 0 <= k < before.len() && before[k] == name;
                assert(all[k] == name);
            } else {
                let k = choose|k: int|
                    0 <= k < last.metric_names().len() && last.metric_names()[k] == name;
                assert(all[before.len() + k] == name);
            }
        }
    }
}

/// Every metric that a group is asked for was requested, and its source
/// offers it.
pub proof fn lemma_picks_are_requested_and_offered(source: Source, targets: Seq<Seq<char>>, k: int)
    requires
        0 <= k < picks_of(source, targets).len(),
    ensures
        targets.contains(picks_of(source, targets)[k].1),
        source.metric_names().contains(picks_of(source, targets)[k].1),
{
    let wanted = among(source.metric_names());
    let kept = targets.filter(wanted);
    targets.lemma_filter_pred(wanted, k);
    targets.lemma_filter_contains_rev(wanted, kept[k]);
}

/// A request for names that no source offers, each with a `.` in it, is
/// answered with no series and no error.
pub proof fn lemma_unknown_names_give_nothing(
    sources: Seq<Source>,
    targets: Seq<Seq<char>>,
    contents: Seq<Option<Seq<Seq<char>>>>,
    from: int,
    to: int,
)
    requires
        forall|j: int| 0 <= j < targets.len() ==> capture_part(#[trigger] targets[j]) is Some,
        forall|j: int|
            0 <= j < targets.len() ==> !all_metric_names(sources).contains(#[trigger] targets[j]),
    ensures
        resolve(sources, targets) == Seq::<GroupView>::empty(),
        answer(sources, targets, contents, from, to) == Ok::<
            Seq<SeriesView>,
            ErrorView,
        >(Seq::empty()),
{
    let groups = resolve(sources, targets);
    if groups.len() > 0 {
        lemma_each_source_once(sources, targets, contents, from, to);
        let source = sources[groups[0].source];
        lemma_picks_are_requested_and_offered(source, targets, 0);
        let name = picks_of(source, targets)[0].1;
        lemma_offered_by_a_source(sources, name);
        let j = choose|j: int| 0 <= j < targets.len() && targets[j] == name;
        assert(!all_metric_names(sources).contains(targets[j]));
    }
    assert(groups =~= Seq::empty());
    lemma_first_where(targets, malformed());
    let none = results(groups, contents, from, to);
    assert(none =~= Seq::empty());
    lemma_first_where(none, failed());
    assert(none.map_values(
        |result: Result<Seq<SeriesView>, ErrorView>| result->Ok_0,
    ) =~= Seq::empty());
}

proof fn lemma_filter_twice<T>(s: Seq<T>, p: spec_fn(T) -> bool, q: spec_fn(T) -> bool)
    requires
        forall|x: T| #[trigger] q(x) ==> p(x),
    ensures
        s.filter(p).filter(q) == s.filter(q),
    decreases s.len(),
{
    if s.len() == 0 {
        reveal(Seq::filter);
        assert(s.filter(p) =~= s);
    } else {
        let front = s.drop_last();
        let last = s.last();
        lemma_filter_twice(front, p, q);
        assert(s =~= front.push(last));
        front.lemma_filter_push(last, p);
        front.lemma_filter_push(last, q);
        if p(last) {
            front.filter(p).lemma_filter_push(last, q);
        }
    }
}

/// Names that no source offers change nothing: as long as every requested
/// name has a `.` in it, the answer is the one that the request without
/// those names gets. They bring no series and no error.
pub proof fn lemma_unknown_names_change_nothing(
    sources: Seq<Source>,
    targets: Seq<Seq<char>>,
    contents: Seq<Option<Seq<Seq<char>>>>,
    from: int,
    to: int,
)
    requires
        forall|j: int| 0 <= j < targets.len() ==> capture_part(#[trigger] targets[j]) is Some,
    ensures
        resolve(sources, targets.filter(among(all_metric_names(sources)))) == resolve(
            sources,
            targets,
        ),
        answer(sources, targets.filter(among(all_metric_names(sources))), contents, from, to)
            == answer(sources, targets, contents, from, to),
{
    let offered = among(all_metric_names(sources));
    let known = targets.filter(offered);
    assert forall|i: int| 0 <= i < sources.len() implies picks_of(sources[i], known) == picks_of(
        sources[i],
        targets,
    ) by {
        let mine = among(sources[i].metric_names());
        assert forall|name: Seq<char>| #[trigger] mine(name) implies offered(name) by {
            lemma_offered_by_a_source(sources, name);
        }
        lemma_filter_twice(targets, offered, mine);
    }
    assert(candidates(sources, known) =~= candidates(sources, targets));
    lemma_first_where(targets, malformed());
    lemma_first_where(known, malformed());
    if first_where(known, malformed()) is Some {
        let i = first_where(known, malformed())->0;
        targets.lemma_filter_contains_rev(offered, known[i]);
        let j = choose|j: int| 0 <= j < targets.len() && targets[j] == known[i];
        assert(capture_part(targets[j]) is Some);
    }
}

/// Every name on offer has a `.` in it, so no request fails for asking
/// for it. Where neither the alias nor the group has a `.` in it, the second
/// part of the name is the group.
pub proof fn lemma_offered_names_are_well_formed(alias: Seq<char>, group: Seq<char>)
    ensures
        capture_part(metric_name(alias, group)) is Some,
        !alias.contains('.') && !group.contains('.') ==> capture_part(metric_name(alias, group))
            == Some(group),
{
    let name = metric_name(alias, group);
    lemma_first_where(name, is_dot());
    assert(is_dot()(name[alias.len() as int]));
    if !alias.contains('.') && !group.contains('.') {
        let i = first_where(name, is_dot())->0;
        if i < alias.len() {
            assert(alias[i] == name[i]);
        }
        assert(name.skip(i + 1) =~= group);
        lemma_first_where(group, is_dot());
        assert(group.take(group.len() as int) =~= group);
    }
}

/// A request that holds a name without a `.` fails as a whole, with
/// `MalformedTargetName`, whatever else it asks for.
pub proof fn lemma_malformed_name_fails(
    sources: Seq<Source>,
    targets: Seq<Seq<char>>,
    contents: Seq<Option<Seq<Seq<char>>>>,
    from: int,
    to: int,
    j: int,
)
    requires
        0 <= j < targets.len(),
        !targets[j].contains('.'),
    ensures
        answer(sources, targets, contents, from, to) matches Err(
            ErrorView::MalformedTargetName(name),
        ) && !name.contains('.') && targets.contains(name),
{
    lemma_first_where(targets[j], is_dot());
    assert(malformed()(targets[j]));
    lemma_first_where(targets, malformed());
    let i = first_where(targets, malformed())->0;
    lemma_first_where(targets[i], is_dot());
}

} // verus!
