//! A timeline entry: one record on the scaled clock, firing a request at
//! every step of its window.
use core::cmp::Ordering;
use vstd::prelude::*;
use vstd::string::StringExecFns;
use vstd::arithmetic::div_mod::{lemma_fundamental_div_mod, lemma_mod_pos_bound};
use crate::{ConfigError, Record};
use crate::http::{is_valid_method, method_accepted};

verus! {

/// How many offsets `start, start + step, ...` lie strictly below `end`.
pub open spec fn step_count(start: int, end: int, step: int) -> nat
    recommends
        step > 0,
{
    if start < end && step > 0 {
        ((end - start - 1) / step + 1) as nat
    } else {
        0
    }
}

/// The offsets of a window `[start, end)` walked with cadence `step`.
pub open spec fn window_offsets(start: int, end: int, step: int) -> Seq<int>
    recommends
        step > 0,
{
    Seq::new(step_count(start, end, step), |k: int| start + k * step)
}

/// Every counted offset lies inside the window.
proof fn lemma_offset_in_window(k: int, d: int, s: int)
    requires
        s > 0,
        d >= 1,
        0 <= k <= (d - 1) / s,
    ensures
        0 <= k * s <= d - 1,
{
    lemma_fundamental_div_mod(d - 1, s);
    lemma_mod_pos_bound(d - 1, s);
    assert(0 <= k * s <= ((d - 1) / s) * s) by (nonlinear_arith)
        requires
            0 <= k <= (d - 1) / s,
            s > 0,
    ;
}

/// The offsets of a window are exactly the cadence points inside it: each
/// lies in `[start, end)`, consecutive ones are `step` apart, the next point
/// after the last falls at or past `end`, and an empty window has none.
pub proof fn lemma_window_offsets(start: int, end: int, step: int)
    requires
        step > 0,
    ensures
        forall|k: int|
            0 <= k < window_offsets(start, end, step).len() ==> start <= #[trigger] window_offsets(
                start,
                end,
                step,
            )[k] < end,
        forall|k: int|
            0 < k < window_offsets(start, end, step).len() ==> #[trigger] window_offsets(
                start,
                end,
                step,
            )[k] == window_offsets(start, end, step)[k - 1] + step,
        start + window_offsets(start, end, step).len() * step >= end,
        start >= end ==> window_offsets(start, end, step).len() == 0,
{
    let o = window_offsets(start, end, step);
    if start < end {
        let d = end - start;
        assert forall|k: int| 0 <= k < o.len() implies start <= #[trigger] o[k] < end by {
            lemma_offset_in_window(k, d, step);
        }
        assert forall|k: int| 0 < k < o.len() implies #[trigger] o[k] == o[k - 1] + step by {
            assert(k * step == (k - 1) * step + step) by (nonlinear_arith);
        }
        lemma_fundamental_div_mod(d - 1, step);
        lemma_mod_pos_bound(d - 1, step);
        let q = (d - 1) / step;
        assert((q + 1) * step == q * step + step) by (nonlinear_arith);
        assert(step * q == q * step) by (nonlinear_arith);
    }
}

/// The record as the scaled clock sees it: its window divided by `scale`.
pub open spec fn scaled_record(r: Record, scale: u32) -> Record
    recommends
        scale > 0,
{
    Record { start: (r.start / scale) as u32, end: (r.end / scale) as u32, ..r }
}

/// A runtime entry derived from one record and a time scale.
#[derive(Debug, Clone)]
pub struct Event {
    pub record: Record,
    /// The cadence in scaled time units: the pause between two requests.
    pub step: usize,
}

impl Event {
    /// A well-formed entry steps forward and has a method the client accepts.
    pub open spec fn wf(&self) -> bool {
        self.step > 0 && is_valid_method(self.record.method@)
    }

    /// The offsets at which this entry fires a request.
    pub open spec fn offsets_spec(&self) -> Seq<int> {
        window_offsets(self.record.start as int, self.record.end as int, self.step as int)
    }

    /// Builds the entry of `record` on a clock compressed by `scale`: the
    /// window and the step are divided by `scale`, rounding down. A zero
    /// scale, a step that the scale reduces to zero and a method that the
    /// client refuses are rejected; the record counts as the one at index 0.
    pub fn new(record: Record, scale: u32, step: usize) -> (r: Result<Event, ConfigError>)
        ensures
            scale == 0 <==> r == Err::<Event, ConfigError>(ConfigError::ZeroScale),
            (scale > 0 && step / (scale as usize) == 0) <==> r == Err::<Event, ConfigError>(
                ConfigError::ZeroStep,
            ),
            (scale > 0 && step / (scale as usize) > 0 && !is_valid_method(record.method@)) <==> r
                == Err::<Event, ConfigError>(ConfigError::InvalidMethod { index: 0 }),
            r is Ok <==> (scale > 0 && step / (scale as usize) > 0 && is_valid_method(
                record.method@,
            )),
            r is Ok ==> {
                let e = r->Ok_0;
                &&& e.wf()
                &&& e.record == scaled_record(record, scale)
                &&& e.step == step / (scale as usize)
            },
    {
        if scale == 0 {
            return Err(ConfigError::ZeroScale);
        }
        let scaled_step = step / (scale as usize);
        if scaled_step == 0 {
            return Err(ConfigError::ZeroStep);
        }
        if !method_accepted(record.method.as_str()) {
            return Err(ConfigError::InvalidMethod { index: 0 });
        }
        let mut record = record;
        record.start = record.start / scale;
        record.end = record.end / scale;
        Ok(Event { record, step: scaled_step })
    }

    /// The address that the entry's requests go to: host, then path.
    pub fn url(&self) -> (r: String)
        ensures
            r@ == self.record.host@ + self.record.path@,
    {
        let mut u = self.record.host.clone();
        u.append(self.record.path.as_str());
        u
    }

    /// The offsets `start, start + step, ...` strictly below `end` at which
    /// the entry fires one request each, in increasing order.
    pub fn offsets(&self) -> (r: Vec<u32>)
        requires
            self.step > 0,
        ensures
            r@.len() == self.offsets_spec().len(),
            forall|k: int| 0 <= k < r@.len() ==> r@[k] as int == #[trigger] self.offsets_spec()[k],
    {
        let mut r: Vec<u32> = Vec::new();
        let start = self.record.start;
        let end = self.record.end;
        if start >= end {
            return r;
        }
        let d: u64 = (end - start) as u64;
        let s: u64 = self.step as u64;
        let count: u64 = (d - 1) / s + 1;
        let mut k: u64 = 0;
        while k < count
            invariant
                start == self.record.start,
                end == self.record.end,
                start < end,
                d == end - start,
                s == self.step,
                s > 0,
                count == (d - 1) / (s as int) + 1,
                count == self.offsets_spec().len(),
                0 <= k <= count,
                r@.len() == k,
                forall|j: int| 0 <= j < k ==> r@[j] as int == #[trigger] self.offsets_spec()[j],
            decreases count - k,
        {
            proof {
                lemma_offset_in_window(k as int, d as int, s as int);
            }
            let t: u64 = start as u64 + k * s;
            assert(self.offsets_spec()[k as int] == t);
            r.push(t as u32);
            assert(r@[k as int] as int == self.offsets_spec()[k as int]);
            k = k + 1;
        }
        r
    }
}

/// How the windows of two entries compare: by start, then by end.
pub open spec fn window_cmp(a: &Event, b: &Event) -> Ordering {
    if a.record.start < b.record.start {
        Ordering::Less
    } else if a.record.start > b.record.start {
        Ordering::Greater
    } else if a.record.end < b.record.end {
        Ordering::Less
    } else if a.record.end > b.record.end {
        Ordering::Greater
    } else {
        Ordering::Equal
    }
}

/// Two entries are equal when their windows are: the scheduler tells
/// entries apart by their place in time alone.
impl PartialEq for Event {
    fn eq(&self, other: &Event) -> (r: bool) {
        self.record.start == other.record.start && self.record.end == other.record.end
    }
}

impl vstd::std_specs::cmp::PartialEqSpecImpl for Event {
    open spec fn obeys_eq_spec() -> bool {
        true
    }

    open spec fn eq_spec(&self, other: &Event) -> bool {
        self.record.start == other.record.start && self.record.end == other.record.end
    }
}

impl Eq for Event {

}

/// Entries are ordered by their windows.
impl PartialOrd for Event {
    fn partial_cmp(&self, other: &Event) -> (r: Option<Ordering>) {
        if self.record.start < other.record.start {
            Some(Ordering::Less)
        } else if self.record.start > other.record.start {
            Some(Ordering::Greater)
        } else if self.record.end < other.record.end {
            Some(Ordering::Less)
        } else if self.record.end > other.record.end {
            Some(Ordering::Greater)
        } else {
            Some(Ordering::Equal)
        }
    }
}

impl vstd::std_specs::cmp::PartialOrdSpecImpl for Event {
    open spec fn obeys_partial_cmp_spec() -> bool {
        true
    }

    open spec fn partial_cmp_spec(&self, other: &Event) -> Option<Ordering> {
        Some(window_cmp(self, other))
    }
}

} // verus!
