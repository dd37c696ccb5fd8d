//! The shapes of requests and responses.
//!
//! These are the bare data types. Times are whole seconds since the epoch;
//! numbers are exact decimals.

use crate::number::{Decimal, Number};
use vstd::prelude::*;

verus! {

/// `serde_json::Value`, a value of any JSON shape: the cells of a table are
/// carried as they come, and nothing is known of what is inside.
#[verifier::external_type_specification]
#[verifier::external_body]
pub struct ExJsonValue(serde_json::Value);

/// A time window, in seconds since the epoch. Both ends are outside it.
#[derive(Debug, PartialEq, Clone, Copy)]
pub struct Range {
    pub from: i64,
    pub to: i64,
}

/// One requested metric.
#[derive(Debug, PartialEq, Clone)]
pub struct Target {
    pub target: String,
    pub ref_id: String,
    pub _type: String,
}

/// A request for the points of some metrics inside a window.
#[derive(Debug, PartialEq, Clone)]
pub struct Query {
    pub range: Range,
    pub interval_ms: i32,
    pub max_data_points: i32,
    pub format: Option<String>,
    pub targets: Vec<Target>,
}

/// What is returned for one metric.
#[derive(Debug, PartialEq, Clone)]
pub enum TargetData {
    Series(Series),
    Table(Table),
}

/// The points of one metric, in the order of the lines they were read from.
/// A point is a value and its time in milliseconds.
#[derive(Debug, PartialEq, Clone)]
pub struct Series {
    target: String,
    datapoints: Vec<(Number, Number)>,
}

/// What a [`Series`] holds.
pub struct SeriesView {
    pub target: Seq<char>,
    pub datapoints: Seq<(Decimal, Decimal)>,
}

impl View for Series {
    type V = SeriesView;

    closed spec fn view(&self) -> SeriesView {
        SeriesView { target: self.target@, datapoints: self.datapoints.deep_view() }
    }
}

impl DeepView for Series {
    type V = SeriesView;

    open spec fn deep_view(&self) -> SeriesView {
        self@
    }
}

impl Series {
    /// A series without points.
    pub fn new(target: String) -> (series: Self)
        ensures
            series@ == (SeriesView { target: target@, datapoints: Seq::empty() }),
    {
        let series = Series { target, datapoints: Vec::new() };
        assert(series.datapoints.deep_view() =~= Seq::empty());
        series
    }

    /// The name of the metric.
    pub fn target(&self) -> (target: &String)
        ensures
            target@ == self@.target,
    {
        &self.target
    }

    /// The points, the earliest line first.
    pub fn datapoints(&self) -> (datapoints: &Vec<(Number, Number)>)
        ensures
            datapoints.deep_view() == self@.datapoints,
    {
        &self.datapoints
    }

    /// The points, to change them: the series holds whatever the caller
    /// leaves there.
    pub fn datapoints_mut(&mut self) -> (datapoints: &mut Vec<(Number, Number)>)
        ensures
            datapoints.deep_view() == old(self)@.datapoints,
            final(self)@ == (SeriesView {
                target: old(self)@.target,
                datapoints: final(datapoints).deep_view(),
            }),
    {
        &mut self.datapoints
    }

    /// Adds a point at the end: a value and its time in milliseconds.
    pub fn push_point(&mut self, value: Number, time: Number)
        ensures
            final(self)@ == (SeriesView {
                target: old(self)@.target,
                datapoints: old(self)@.datapoints.push((value@, time@)),
            }),
    {
        let ghost before = self.datapoints.deep_view();
        self.datapoints.push((value, time));
        assert(self.datapoints.deep_view() =~= before.push((value@, time@)));
    }
}

/// What a [`TargetData`] holds, as far as this library looks into it.
pub enum TargetDataView {
    Series(SeriesView),
    Table,
}

impl View for TargetData {
    type V = TargetDataView;

    open spec fn view(&self) -> TargetDataView {
        match self {
            TargetData::Series(series) => TargetDataView::Series(series@),
            TargetData::Table(_) => TargetDataView::Table,
        }
    }
}

impl DeepView for TargetData {
    type V = TargetDataView;

    open spec fn deep_view(&self) -> TargetDataView {
        self@
    }
}

/// The heading of one column of a table.
#[derive(Debug, PartialEq, Clone)]
pub struct Column {
    pub text: String,
    pub _type: String,
}

/// A table of values.
#[derive(Debug, PartialEq, Clone)]
pub struct Table {
    pub columns: Vec<Column>,
    pub _type: String,
    pub rows: Vec<Vec<serde_json::Value>>,
}

/// A request for the names of the metrics on offer.
#[derive(Debug, PartialEq, Clone)]
pub struct Search {
    pub target: String,
}

/// The names of the metrics on offer.
#[derive(Debug, PartialEq, Clone)]
pub struct SearchResponse(pub Vec<String>);

/// The answer to a [`Query`].
#[derive(Debug, PartialEq, Clone)]
pub struct QueryResponse(pub Vec<TargetData>);

} // verus!
