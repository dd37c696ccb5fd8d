//! Reading the lines of one log file.
//!
//! A line that the pattern does not match is skipped. Of a line that
//! matches, the timestamp is read first: the line counts only where the
//! timestamp lies strictly inside the window. Then the values of the metrics
//! asked for are read, and each metric gets one point: the value, and the
//! time in milliseconds. A timestamp or a value that is no numeral ends the
//! reading with an error.

use crate::api::{Series, SeriesView};
use crate::config::{group_named, named, timestamp_name};
use crate::error::{Error, ErrorView};
use crate::first::{first_where, lemma_first_where, lemma_first_where_is, lemma_first_where_none};
use crate::grouping::{Group, GroupView};
use crate::number::{numeral_value, Decimal, Number};
use crate::pattern::{pattern_first_match, pattern_group_names};
use vstd::prelude::*;

verus! {

/// What a line contributes.
pub enum Outcome {
    /// Nothing: the line does not match, or its time is outside the window.
    Skipped,
    /// One point for each metric asked for: the time in milliseconds, and
    /// the values in the order of the metrics.
    Retained { time: Decimal, values: Seq<Decimal> },
    /// An error: the timestamp is no numeral.
    BadTimestamp,
    /// An error: the value of the metric at this place is no numeral.
    BadValue(int),
}

/// The text that the group called `name` matched, if there is such a group
/// and it took part in the match.
pub open spec fn group_text(
    groups: Seq<Option<Seq<char>>>,
    found: Seq<Option<Seq<char>>>,
    name: Seq<char>,
) -> Option<Seq<char>> {
    match group_named(groups, name) {
        Some(i) => if i < found.len() {
            found[i]
        } else {
            None
        },
        None => None,
    }
}

/// The number that the group called `name` matched, if it matched a numeral.
pub open spec fn reading(
    groups: Seq<Option<Seq<char>>>,
    found: Seq<Option<Seq<char>>>,
    name: Seq<char>,
) -> Option<Decimal> {
    match group_text(groups, found, name) {
        Some(text) => numeral_value(text),
        None => None,
    }
}

/// The numbers that the groups called `names` matched.
pub open spec fn readings(
    groups: Seq<Option<Seq<char>>>,
    found: Seq<Option<Seq<char>>>,
    names: Seq<Seq<char>>,
) -> Seq<Option<Decimal>> {
    names.map_values(|name: Seq<char>| reading(groups, found, name))
}

/// The condition of being no number.
pub open spec fn missing() -> spec_fn(Option<Decimal>) -> bool {
    |value: Option<Decimal>| value is None
}

/// What `line` contributes to the metrics of `group` in the window from
/// `from` to `to`.
pub open spec fn line_outcome(group: GroupView, from: int, to: int, line: Seq<char>) -> Outcome {
    let groups = pattern_group_names(group.item.pattern);
    match pattern_first_match(group.item.pattern, line) {
        None => Outcome::Skipped,
        Some(found) => match reading(groups, found, timestamp_name()) {
            None => Outcome::BadTimestamp,
            Some(time) => if !time.within(from, to) {
                Outcome::Skipped
            } else {
                let values = readings(groups, found, group.capture_names());
                match first_where(values, missing()) {
                    Some(k) => Outcome::BadValue(k),
                    None => Outcome::Retained {
                        time: time.times_thousand(),
                        values: values.map_values(|value: Option<Decimal>| value->0),
                    },
                }
            },
        },
    }
}

/// The error that `line` ends the reading with.
pub open spec fn failure(group: GroupView, from: int, to: int, line: Seq<char>) -> ErrorView {
    match line_outcome(group, from, to, line) {
        Outcome::BadValue(k) => ErrorView::ValueParseError(group.picks[k].1, line),
        _ => ErrorView::TimestampParseError(line),
    }
}

/// The condition of being a line that ends the reading with an error.
pub open spec fn failing(group: GroupView, from: int, to: int) -> spec_fn(Seq<char>) -> bool {
    |line: Seq<char>|
        line_outcome(group, from, to, line) is BadTimestamp || line_outcome(
            group,
            from,
            to,
            line,
        ) is BadValue
}

/// The condition of being a line that contributes points.
pub open spec fn retaining(group: GroupView, from: int, to: int) -> spec_fn(Seq<char>) -> bool {
    |line: Seq<char>| line_outcome(group, from, to, line) is Retained
}

/// The point that a contributing line gives to metric `k`.
pub open spec fn point(group: GroupView, from: int, to: int, line: Seq<char>, k: int) -> (
    Decimal,
    Decimal,
) {
    let outcome = line_outcome(group, from, to, line);
    (outcome->values[k], outcome->time)
}

/// The points of metric `k`: one of each contributing line, in the order of
/// the lines.
pub open spec fn points(group: GroupView, from: int, to: int, lines: Seq<Seq<char>>, k: int) -> Seq<
    (Decimal, Decimal),
> {
    lines.filter(retaining(group, from, to)).map_values(
        |line: Seq<char>| point(group, from, to, line, k),
    )
}

/// What reading `lines` gives: the error of the first line that has one, or
/// else one series for each metric asked for, in their order.
pub open spec fn scan(group: GroupView, from: int, to: int, lines: Seq<Seq<char>>) -> Result<
    Seq<SeriesView>,
    ErrorView,
> {
    match first_where(lines, failing(group, from, to)) {
        Some(i) => Err(failure(group, from, to, lines[i])),
        None => Ok(
            Seq::new(
                group.picks.len(),
                |k: int|
                    SeriesView {
                        target: group.picks[k].1,
                        datapoints: points(group, from, to, lines, k),
                    },
            ),
        ),
    }
}

/// The series after a line with this outcome was read.
pub open spec fn fed(series: Seq<SeriesView>, outcome: Outcome) -> Seq<SeriesView> {
    match outcome {
        Outcome::Retained { time, values } => Seq::new(
            series.len(),
            |k: int|
                SeriesView {
                    target: series[k].target,
                    datapoints: series[k].datapoints.push((values[k], time)),
                },
        ),
        _ => series,
    }
}

/// Reading one more line: what was read so far stays, and the line adds
/// its outcome.
pub proof fn lemma_scan_push(
    group: GroupView,
    from: int,
    to: int,
    lines: Seq<Seq<char>>,
    line: Seq<char>,
)
    ensures
        scan(group, from, to, lines.push(line)) == match scan(group, from, to, lines) {
            Err(e) => Err(e),
            Ok(series) => if failing(group, from, to)(line) {
                Err(failure(group, from, to, line))
            } else {
                Ok(fed(series, line_outcome(group, from, to, line)))
            },
        },
{
    let all = lines.push(line);
    let bad = failing(group, from, to);
    lemma_first_where(lines, bad);
    assert(all.drop_last() =~= lines);
    lines.lemma_filter_push(line, retaining(group, from, to));
    if first_where(lines, bad) is None && !bad(line) {
        let before = scan(group, from, to, lines)->Ok_0;
        let after = scan(group, from, to, all)->Ok_0;
        let outcome = line_outcome(group, from, to, line);
        assert forall|k: int| 0 <= k < group.picks.len() implies after[k] == fed(
            before,
            outcome,
        )[k] by {
            if outcome is Retained {
                assert(points(group, from, to, all, k) =~= points(group, from, to, lines, k).push(
                    point(group, from, to, line, k),
                ));
            }
        }
        assert(after =~= fed(before, outcome));
    }
}

/// Once the first lines have ended the reading with an error, the error stays.
pub proof fn lemma_scan_stays_failed(
    group: GroupView,
    from: int,
    to: int,
    lines: Seq<Seq<char>>,
    n: int,
)
    requires
        0 <= n <= lines.len(),
        scan(group, from, to, lines.take(n)) is Err,
    ensures
        scan(group, from, to, lines) == scan(group, from, to, lines.take(n)),
{
    let bad = failing(group, from, to);
    lemma_first_where(lines.take(n), bad);
    let i = first_where(lines.take(n), bad)->0;
    assert forall|j: int| 0 <= j < i implies !bad(lines[j]) by {
        assert(lines.take(n)[j] == lines[j]);
    }
    lemma_first_where_is(lines, bad, i);
}

/// The reading of one log file for one group of metrics, line by line.
pub struct Scan<'a, 'b> {
    group: &'b Group<'a>,
    from: i64,
    to: i64,
    series: Vec<Series>,
}

impl<'a, 'b> View for Scan<'a, 'b> {
    type V = Seq<SeriesView>;

    closed spec fn view(&self) -> Seq<SeriesView> {
        self.series.deep_view()
    }
}

impl<'a, 'b> Scan<'a, 'b> {
    #[verifier::type_invariant]
    spec fn well_formed(self) -> bool {
        self.series.len() == self.group@.picks.len()
    }

    /// The group whose metrics are read.
    pub closed spec fn group(self) -> GroupView {
        self.group@
    }

    /// The window.
    pub closed spec fn window(self) -> (int, int) {
        (self.from as int, self.to as int)
    }

    /// Starts the reading: no line was read yet.
    pub fn begin(group: &'b Group<'a>, from: i64, to: i64) -> (scan: Scan<'a, 'b>)
        ensures
            scan.group() == group@,
            scan.window() == (from as int, to as int),
            Ok::<Seq<SeriesView>, ErrorView>(scan@) == self::scan(
                group@,
                from as int,
                to as int,
                Seq::empty(),
            ),
    {
        let cnames = group.cnames();
        let mut series: Vec<Series> = Vec::new();
        let mut k: usize = 0;
        while k < cnames.len()
            invariant
                k <= cnames.len(),
                cnames.deep_view() == group@.picks,
                series.len() == k,
                forall|j: int|
                    0 <= j < k ==> (#[trigger] series[j])@ == (SeriesView {
                        target: group@.picks[j].1,
                        datapoints: Seq::empty(),
                    }),
            decreases cnames.len() - k,
        {
            series.push(Series::new(cnames[k].1.clone()));
            k = k + 1;
        }
        proof {
            let lines = Seq::<Seq<char>>::empty();
            reveal(Seq::filter);
            assert forall|j: int| 0 <= j < group@.picks.len() implies points(
                group@,
                from as int,
                to as int,
                lines,
                j,
            ) =~= Seq::empty() by {}
            assert(series.deep_view() =~= self::scan(
                group@,
                from as int,
                to as int,
                lines,
            )->Ok_0);
        }
        Scan { group, from, to, series }
    }

    /// Reads one line.
    ///
    /// Fails exactly where the line matches and its timestamp is no numeral,
    /// or its time is inside the window and one of the values asked for is
    /// no numeral; the series are then as they were. Otherwise each series
    /// gains the point of the line, if the line has any to give.
    #[verifier::loop_isolation(false)]
    pub fn feed(&mut self, line: &str) -> (read: Result<(), Error>)
        ensures
            final(self).group() == old(self).group(),
            final(self).window() == old(self).window(),
            read is Err <==> failing(old(self).group(), old(self).window().0, old(self).window().1)(
                line@,
            ),
            read matches Err(e) ==> final(self)@ == old(self)@ && e@ == failure(
                old(self).group(),
                old(self).window().0,
                old(self).window().1,
                line@,
            ),
            read is Ok ==> final(self)@ == fed(
                old(self)@,
                line_outcome(
                    old(self).group(),
                    old(self).window().0,
                    old(self).window().1,
                    line@,
                ),
            ),
    {
        proof {
            use_type_invariant(&*self);
        }
        let group = self.group;
        let item = group.item();
        let ghost names = pattern_group_names(group@.item.pattern);
        let found = match item.regex().first_match(line) {
            Some(found) => found,
            None => {
                return Ok(());
            },
        };
        let at = item.timestamp_group();
        proof {
            lemma_first_where(names, named(timestamp_name()));
        }
        let time = match &found[at] {
            Some(text) => Number::parse(text.as_str()),
            None => None,
        };
        let time = match time {
            Some(time) => time,
            None => {
                return Err(Error::TimestampParseError(line.to_owned()));
            },
        };
        if !time.within(self.from, self.to) {
            return Ok(());
        }
        let cnames = group.cnames();
        let ghost wanted = readings(names, found.deep_view(), group@.capture_names());
        let mut values: Vec<Number> = Vec::new();
        let mut k: usize = 0;
        while k < cnames.len()
            invariant
                k <= cnames.len(),
                cnames.deep_view() == group@.picks,
                names == pattern_group_names(group@.item.pattern),
                found.len() == names.len(),
                wanted == readings(names, found.deep_view(), group@.capture_names()),
                wanted.len() == cnames.len(),
                values.len() == k,
                forall|j: int| 0 <= j < k ==> #[trigger] wanted[j] == Some(values[j]@),
            decreases cnames.len() - k,
        {
            let g = group.group_of(k);
            proof {
                lemma_first_where(names, named(group@.picks[k as int].0));
            }
            let value = match &found[g] {
                Some(text) => Number::parse(text.as_str()),
                None => None,
            };
            match value {
                Some(value) => {
                    values.push(value);
                },
                None => {
                    proof {
                        lemma_first_where_is(wanted, missing(), k as int);
                    }
                    return Err(Error::ValueParseError(cnames[k].1.clone(), line.to_owned()));
                },
            }
            k = k + 1;
        }
        proof {
            lemma_first_where_none(wanted, missing());
        }
        let time = time.times_thousand();
        let ghost before = self.series.deep_view();
        let ghost outcome = line_outcome(group@, self.from as int, self.to as int, line@);
        let mut k: usize = 0;
        while k < values.len()
            invariant
                k <= values.len(),
                values.len() == self.series.len(),
                self.series.len() == before.len(),
                self.series.len() == self.group@.picks.len(),
                self.group == old(self).group,
                self.from == old(self).from,
                self.to == old(self).to,
                outcome is Retained,
                outcome->time == time@,
                outcome->values.len() == values.len(),
                forall|j: int| 0 <= j < values.len() ==> #[trigger] outcome->values[j] == values[j]@,
                forall|j: int| 0 <= j < k ==> (#[trigger] self.series[j])@ == fed(before, outcome)[j],
                forall|j: int| k <= j < before.len() ==> (#[trigger] self.series[j])@ == before[j],
            decreases values.len() - k,
        {
            self.series[k].push_point(values[k].clone(), time.clone());
            k = k + 1;
        }
        Ok(())
    }

    /// Ends the reading and hands out the series, one for each metric
    /// asked for, in their order.
    pub fn finish(self) -> (series: Vec<Series>)
        ensures
            series.deep_view() == self@,
    {
        self.series
    }
}

impl<'a> Group<'a> {
    /// Reads the lines of the log file of this group, in their order.
    ///
    /// Fails with the error of the first line that has one. Otherwise the
    /// result holds one series for each metric asked for, in their order,
    /// with one point for each line that matches and whose time lies
    /// strictly inside the window, in the order of the lines.
    pub fn scan(&self, from: i64, to: i64, lines: &Vec<String>) -> (made: Result<
        Vec<Series>,
        Error,
    >)
        ensures
            match self::scan(self@, from as int, to as int, lines.deep_view()) {
                Ok(series) => made matches Ok(read) && read.deep_view() == series,
                Err(e) => made matches Err(error) && error@ == e,
            },
    {
        let ghost all = lines.deep_view();
        let mut reading = Scan::begin(self, from, to);
        let mut i: usize = 0;
        proof {
            assert(all.take(0) =~= Seq::empty());
        }
        while i < lines.len()
            invariant
                i <= lines.len(),
                all == lines.deep_view(),
                reading.group() == self@,
                reading.window() == (from as int, to as int),
                Ok::<Seq<SeriesView>, ErrorView>(reading@) == self::scan(
                    self@,
                    from as int,
                    to as int,
                    all.take(i as int),
                ),
            decreases lines.len() - i,
        {
            proof {
                assert(all.take(i as int + 1) =~= all.take(i as int).push(lines[i as int]@));
                lemma_scan_push(self@, from as int, to as int, all.take(i as int), lines[i as int]@);
            }
            match reading.feed(lines[i].as_str()) {
                Ok(()) => {},
                Err(e) => {
                    proof {
                        lemma_scan_stays_failed(self@, from as int, to as int, all, i as int + 1);
                    }
                    return Err(e);
                },
            }
            i = i + 1;
        }
        proof {
            assert(all.take(lines.len() as int) =~= all);
        }
        Ok(reading.finish())
    }
}

} // verus!
