//! Traffic figures. The service keeps no data yet: it takes what it is
//! handed and every series it reports is empty.

use crate::principal::Principal;
use vstd::prelude::*;

verus! {

/// One value of a series, at a time.
#[derive(Debug, PartialEq, Eq, Clone, Copy)]
pub struct Point {
    pub ts_ns: u64,
    pub value: u64,
}

/// `ok`.
pub fn health() -> (s: String)
    ensures
        s@ == "ok"@,
{
    "ok".to_owned()
}

/// Takes a batch of measurements. Nothing is kept of it.
pub fn ingest(_blob: Vec<u8>) {
}

/// Requests per second of `_user` over a span, in steps: empty.
pub fn rps(_user: &Principal, _start_ns: u64, _end_ns: u64, _step_ns: u64) -> (series: Vec<Point>)
    ensures
        series@.len() == 0,
{
    Vec::new()
}

/// Bandwidth of `_user` over a span, in steps: empty.
pub fn bandwidth(_user: &Principal, _start_ns: u64, _end_ns: u64, _step_ns: u64) -> (series: Vec<
    Point,
>)
    ensures
        series@.len() == 0,
{
    Vec::new()
}

/// Requests of `_user` per region over a span: empty.
pub fn heatmap(_user: &Principal, _start_ns: u64, _end_ns: u64) -> (cells: Vec<(String, u64)>)
    ensures
        cells@.len() == 0,
{
    Vec::new()
}

/// Cache hit ratio of `_user` over a span, in steps: empty.
pub fn hit_ratio(_user: &Principal, _start_ns: u64, _end_ns: u64, _step_ns: u64) -> (series: Vec<
    Point,
>)
    ensures
        series@.len() == 0,
{
    Vec::new()
}

} // verus!
