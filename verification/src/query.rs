//! Answering requests.
//!
//! A query is answered in two steps. The requested metrics are grouped by
//! log source; then the file of each group is read, once, and the series of
//! all groups are put one after the other. This library opens no file: the
//! caller reads the file of each group and hands over its lines.

use crate::api::{
    Query, QueryResponse, Search, SearchResponse, SeriesView, TargetData, TargetDataView,
};
use crate::config::{all_metric_names, Config, Source};
use crate::error::{Error, ErrorView};
use crate::first::{first_where, lemma_first_where, lemma_first_where_is};
use crate::grouping::{hash_map_targets, malformed, resolve, target_names, Group, GroupView};
use crate::scan::scan;
use vstd::prelude::*;

verus! {

/// What could be read of a log file: its lines, or `None` where the file
/// could not be opened.
pub type Content = Option<Vec<String>>;

/// What reading the file of `group` gives.
pub open spec fn read(
    group: GroupView,
    content: Option<Seq<Seq<char>>>,
    from: int,
    to: int,
) -> Result<Seq<SeriesView>, ErrorView> {
    match content {
        Some(lines) => scan(group, from, to, lines),
        None => Err(ErrorView::SourceUnavailable(group.item.file)),
    }
}

/// What was read of the file of the group at `i`. A group without an entry
/// in `contents` counts as one whose file could not be opened.
pub open spec fn content_of(contents: Seq<Option<Seq<Seq<char>>>>, i: int) -> Option<
    Seq<Seq<char>>,
> {
    if 0 <= i < contents.len() {
        contents[i]
    } else {
        None
    }
}

/// What reading the file of each group gives, in the order of the groups.
pub open spec fn results(
    groups: Seq<GroupView>,
    contents: Seq<Option<Seq<Seq<char>>>>,
    from: int,
    to: int,
) -> Seq<Result<Seq<SeriesView>, ErrorView>> {
    Seq::new(groups.len(), |i: int| read(groups[i], content_of(contents, i), from, to))
}

/// The condition of being an error.
pub open spec fn failed() -> spec_fn(Result<Seq<SeriesView>, ErrorView>) -> bool {
    |result: Result<Seq<SeriesView>, ErrorView>| result is Err
}

/// The series of all groups, one group after the other, or the error of the
/// first group that has one.
pub open spec fn assemble(results: Seq<Result<Seq<SeriesView>, ErrorView>>) -> Result<
    Seq<SeriesView>,
    ErrorView,
> {
    match first_where(results, failed()) {
        Some(i) => Err(results[i]->Err_0),
        None => Ok(
            results.map_values(|result: Result<Seq<SeriesView>, ErrorView>| result->Ok_0).flatten(),
        ),
    }
}

/// The answer to a query for `targets` in the window from `from` to `to`.
pub open spec fn answer(
    sources: Seq<Source>,
    targets: Seq<Seq<char>>,
    contents: Seq<Option<Seq<Seq<char>>>>,
    from: int,
    to: int,
) -> Result<Seq<SeriesView>, ErrorView> {
    match first_where(targets, malformed()) {
        Some(i) => Err(ErrorView::MalformedTargetName(targets[i])),
        None => assemble(results(resolve(sources, targets), contents, from, to)),
    }
}

/// The series as they are handed out.
pub open spec fn as_data(series: Seq<SeriesView>) -> Seq<TargetDataView> {
    series.map_values(|series: SeriesView| TargetDataView::Series(series))
}

proof fn lemma_assemble_push(
    results: Seq<Result<Seq<SeriesView>, ErrorView>>,
    result: Result<Seq<SeriesView>, ErrorView>,
)
    ensures
        assemble(results.push(result)) == match assemble(results) {
            Err(e) => Err(e),
            Ok(series) => match result {
                Err(e) => Err(e),
                Ok(more) => Ok(series + more),
            },
        },
{
    let all = results.push(result);
    lemma_first_where(results, failed());
    assert(all.drop_last() =~= results);
    if first_where(results, failed()) is None && result is Ok {
        let taken = |result: Result<Seq<SeriesView>, ErrorView>| result->Ok_0;
        assert(all.map_values(taken) =~= results.map_values(taken).push(result->Ok_0));
        results.map_values(taken).lemma_flatten_push(result->Ok_0);
    }
}

proof fn lemma_assemble_stays_failed(results: Seq<Result<Seq<SeriesView>, ErrorView>>, n: int)
    requires
        0 <= n <= results.len(),
        assemble(results.take(n)) is Err,
    ensures
        assemble(results) == assemble(results.take(n)),
{
    lemma_first_where(results.take(n), failed());
    let i = first_where(results.take(n), failed())->0;
    assert forall|j: int| 0 <= j < i implies !failed()(results[j]) by {
        assert(results.take(n)[j] == results[j]);
    }
    lemma_first_where_is(results, failed(), i);
}

/// Answers `GET /`: a greeting, so that the caller sees the service is there.
pub fn index() -> (greeting: &'static str)
    ensures
        greeting@ == "Hello there!"@,
{
    "Hello there!"
}

/// Lists the metrics on offer: those of the first source, then those of the
/// second, and so on. Nothing in the request changes the list.
pub fn search(data: &Search, config: &Config) -> (found: SearchResponse)
    ensures
        found.0.deep_view() == all_metric_names(config@),
{
    let names = config.all_aliases();
    let mut all: Vec<String> = Vec::new();
    let mut i: usize = 0;
    while i < names.len()
        invariant
            i <= names.len(),
            all.deep_view() == names.deep_view().take(i as int),
        decreases names.len() - i,
    {
        let ghost before = all.deep_view();
        all.push(names[i].clone());
        proof {
            assert(all.deep_view() =~= before.push(names[i as int]@));
        }
        i = i + 1;
    }
    SearchResponse(all)
}

/// Reads the file of each group and puts the series of all groups one after
/// the other.
///
/// `contents[i]` is what was read of the file of group `i`. The groups are
/// taken in their order; the first error ends the work: `SourceUnavailable`
/// where the file of a group could not be opened, else the error of the
/// first line of the file that has one.
pub fn hash_map_iter(h: &Vec<Group<'_>>, contents: &Vec<Content>, d_from: i64, d_to: i64) -> (made:
    Result<Vec<TargetData>, Error>)
    ensures
        match assemble(results(h.deep_view(), contents.deep_view(), d_from as int, d_to as int)) {
            Ok(series) => made matches Ok(data) && data.deep_view() == as_data(series),
            Err(e) => made matches Err(error) && error@ == e,
        },
{
    let ghost all = results(h.deep_view(), contents.deep_view(), d_from as int, d_to as int);
    let mut res: Vec<TargetData> = Vec::new();
    let ghost mut sofar: Seq<SeriesView> = Seq::empty();
    let mut i: usize = 0;
    while i < h.len()
        invariant
            i <= h.len(),
            all == results(h.deep_view(), contents.deep_view(), d_from as int, d_to as int),
            assemble(all.take(i as int)) == Ok::<Seq<SeriesView>, ErrorView>(sofar),
            res.deep_view() == as_data(sofar),
        decreases h.len() - i,
    {
        proof {
            assert(all.take(i as int + 1) =~= all.take(i as int).push(all[i as int]));
            lemma_assemble_push(all.take(i as int), all[i as int]);
        }
        let read = if i < contents.len() {
            match &contents[i] {
                Some(lines) => h[i].scan(d_from, d_to, lines),
                None => Err(Error::SourceUnavailable(h[i].item().file().clone())),
            }
        } else {
            Err(Error::SourceUnavailable(h[i].item().file().clone()))
        };
        match read {
            Ok(series) => {
                let ghost more = series.deep_view();
                let ghost before = sofar;
                for one in it: series
                    invariant
                        it.seq().len() == more.len(),
                        forall|j: int| 0 <= j < more.len() ==> (#[trigger] it.seq()[j])@ == more[j],
                        sofar == before + more.take(it.index() as int),
                        res.deep_view() == as_data(sofar),
                {
                    let ghost data = res.deep_view();
                    res.push(TargetData::Series(one));
                    proof {
                        sofar = sofar.push(more[it.index() as int]);
                        assert(res.deep_view() =~= data.push(
                            TargetDataView::Series(more[it.index() as int]),
                        ));
                    }
                }
                proof {
                    assert(more.take(more.len() as int) =~= more);
                }
            },
            Err(e) => {
                proof {
                    lemma_assemble_stays_failed(all, i as int + 1);
                }
                return Err(e);
            },
        }
        i = i + 1;
    }
    proof {
        assert(all.take(h.len() as int) =~= all);
    }
    Ok(res)
}

/// Answers a query: groups the requested metrics by source, reads the file
/// of each group, and returns the series.
///
/// `contents[i]` is what was read of the file of the `i`-th group that
/// [`hash_map_targets`] makes of the request. The query fails as a whole, on
/// a requested name without `.` first of all, and then on the first error in
/// reading.
pub fn query(data: &Query, config: &Config, contents: &Vec<Content>) -> (made: Result<
    QueryResponse,
    Error,
>)
    ensures
        match answer(
            config@,
            target_names(data.targets@),
            contents.deep_view(),
            data.range.from as int,
            data.range.to as int,
        ) {
            Ok(series) => made matches Ok(response) && response.0.deep_view() == as_data(series),
            Err(e) => made matches Err(error) && error@ == e,
        },
{
    proof {
        lemma_first_where(target_names(data.targets@), malformed());
    }
    let groups = match hash_map_targets(config, &data.targets) {
        Ok(groups) => groups,
        Err(e) => {
            return Err(e);
        },
    };
    match hash_map_iter(&groups, contents, data.range.from, data.range.to) {
        Ok(series) => Ok(QueryResponse(series)),
        Err(e) => Err(e),
    }
}

} // verus!
