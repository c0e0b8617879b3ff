//! The scheduler: orders timeline entries by window and releases them on a
//! simulated clock.
use vstd::prelude::*;
use vstd::seq_lib::{to_multiset_build, to_multiset_contains, to_multiset_insert};
use crate::{ConfigError, Record};
use crate::event::{scaled_record, step_count, Event};
use crate::http::{is_valid_method, method_accepted};

verus! {

/// `a` comes no later than `b`: windows compare by start, then by end.
pub open spec fn window_le(a: Event, b: Event) -> bool {
    a.record.start < b.record.start || (a.record.start == b.record.start && a.record.end
        <= b.record.end)
}

/// The entries are in ascending order of their windows.
pub open spec fn sorted_by_window(s: Seq<Event>) -> bool {
    forall|i: int, j: int| 0 <= i < j < s.len() ==> window_le(#[trigger] s[i], #[trigger] s[j])
}

/// Where `e` goes in `s`: after the last entry that does not come after it.
pub open spec fn insert_pos(s: Seq<Event>, e: Event) -> nat
    decreases s.len(),
{
    if s.len() == 0 {
        0
    } else if window_le(s.last(), e) {
        s.len()
    } else {
        insert_pos(s.drop_last(), e)
    }
}

/// `s` with `e` inserted after every entry that does not come after it.
pub open spec fn insert_by_window(s: Seq<Event>, e: Event) -> Seq<Event> {
    s.insert(insert_pos(s, e) as int, e)
}

/// The entries in ascending order of their windows; entries with equal
/// windows keep the order they had.
pub open spec fn sort_by_window(s: Seq<Event>) -> Seq<Event>
    decreases s.len(),
{
    if s.len() == 0 {
        s
    } else {
        insert_by_window(sort_by_window(s.drop_last()), s.last())
    }
}

/// The entry of each record on a clock compressed by `scale`.
pub open spec fn scaled_events(records: Seq<Record>, step: usize, scale: u32) -> Seq<Event>
    recommends
        scale > 0,
{
    records.map_values(
        |r: Record| Event { record: scaled_record(r, scale), step: (step / (scale as usize)) as usize },
    )
}

/// The entries that a scheduler built from `records` holds, in order.
pub open spec fn built_events(records: Seq<Record>, step: usize, scale: u32) -> Seq<Event>
    recommends
        scale > 0,
{
    sort_by_window(scaled_events(records, step, scale))
}

/// Every method of `records` before `n` is one the client accepts.
pub open spec fn methods_valid_before(records: Seq<Record>, n: int) -> bool {
    forall|j: int| 0 <= j < n ==> is_valid_method(#[trigger] records[j].method@)
}

proof fn lemma_insert_pos(s: Seq<Event>, e: Event)
    ensures
        insert_pos(s, e) <= s.len(),
        forall|i: int| insert_pos(s, e) <= i < s.len() ==> !window_le(#[trigger] s[i], e),
        sorted_by_window(s) ==> forall|i: int|
            0 <= i < insert_pos(s, e) ==> window_le(#[trigger] s[i], e),
    decreases s.len(),
{
    if s.len() > 0 {
        let d = s.drop_last();
        let last = s.len() - 1;
        if !window_le(s.last(), e) {
            lemma_insert_pos(d, e);
            assert forall|i: int| insert_pos(s, e) <= i < s.len() implies !window_le(
                #[trigger] s[i],
                e,
            ) by {
                if i < last {
                    assert(s[i] == d[i]);
                }
            }
            if sorted_by_window(s) {
                assert forall|i: int, j: int| 0 <= i < j < d.len() implies window_le(
                    #[trigger] d[i],
                    #[trigger] d[j],
                ) by {
                    assert(d[i] == s[i] && d[j] == s[j]);
                }
                assert forall|i: int| 0 <= i < insert_pos(s, e) implies window_le(
                    #[trigger] s[i],
                    e,
                ) by {
                    assert(s[i] == d[i]);
                }
            }
        } else if sorted_by_window(s) {
            assert forall|i: int| 0 <= i < insert_pos(s, e) implies window_le(#[trigger] s[i], e) by {
                if i < last {
                    assert(window_le(s[i], s[last]));
                }
            }
        }
    }
}

proof fn lemma_insert_sorted(s: Seq<Event>, e: Event)
    requires
        sorted_by_window(s),
    ensures
        sorted_by_window(insert_by_window(s, e)),
        insert_by_window(s, e).to_multiset() == s.to_multiset().insert(e),
{
    lemma_insert_pos(s, e);
    to_multiset_insert(s, insert_pos(s, e) as int, e);
}

/// Sorting by window yields ascending windows and keeps every entry.
pub proof fn lemma_sort_by_window(s: Seq<Event>)
    ensures
        sorted_by_window(sort_by_window(s)),
        sort_by_window(s).to_multiset() == s.to_multiset(),
        sort_by_window(s).len() == s.len(),
    decreases s.len(),
{
    if s.len() > 0 {
        lemma_sort_by_window(s.drop_last());
        lemma_insert_sorted(sort_by_window(s.drop_last()), s.last());
        to_multiset_build(s.drop_last(), s.last());
        assert(s.drop_last().push(s.last()) =~= s);
    }
    sort_by_window(s).to_multiset_ensures();
    s.to_multiset_ensures();
}

/// Each built entry is the entry of one of the records: its start, end and
/// step are the record's start and end and the base step, each divided by
/// `scale` and rounded down; and every record has its entry.
pub proof fn lemma_entries_scaled(records: Seq<Record>, step: usize, scale: u32)
    requires
        scale > 0,
    ensures
        built_events(records, step, scale).len() == records.len(),
        forall|i: int|
            #![trigger built_events(records, step, scale)[i]]
            0 <= i < records.len() ==> exists|j: int|
                0 <= j < records.len() && {
                    let e = built_events(records, step, scale)[i];
                    let r = #[trigger] records[j];
                    &&& e.record.start == r.start / scale
                    &&& e.record.end == r.end / scale
                    &&& e.step == step / (scale as usize)
                    &&& e.record.method == r.method
                    &&& e.record.host == r.host
                    &&& e.record.path == r.path
                },
        forall|j: int|
            0 <= j < records.len() ==> built_events(records, step, scale).contains(
                #[trigger] scaled_events(records, step, scale)[j],
            ),
{
    let scaled = scaled_events(records, step, scale);
    let built = built_events(records, step, scale);
    lemma_sort_by_window(scaled);
    assert forall|i: int| #![trigger built[i]] 0 <= i < records.len() implies exists|j: int|
        0 <= j < records.len() && {
            let e = built[i];
            let r = #[trigger] records[j];
            &&& e.record.start == r.start / scale
            &&& e.record.end == r.end / scale
            &&& e.step == step / (scale as usize)
            &&& e.record.method == r.method
            &&& e.record.host == r.host
            &&& e.record.path == r.path
        } by {
        assert(built.contains(built[i]));
        to_multiset_contains(built, built[i]);
        to_multiset_contains(scaled, built[i]);
        let j = choose|j: int| 0 <= j < scaled.len() && scaled[j] == built[i];
        assert(0 <= j < records.len());
    }
    assert forall|j: int| 0 <= j < records.len() implies built.contains(#[trigger] scaled[j]) by {
        assert(scaled.contains(scaled[j]));
        to_multiset_contains(scaled, scaled[j]);
        to_multiset_contains(built, scaled[j]);
    }
}

/// Building twice from the same records, step and scale gives the same
/// entries in the same order, hence the same windows.
pub proof fn lemma_build_idempotent(
    records: Seq<Record>,
    step: usize,
    scale: u32,
    first: Seq<Event>,
    second: Seq<Event>,
)
    requires
        first == built_events(records, step, scale),
        second == built_events(records, step, scale),
    ensures
        first == second,
        forall|i: int|
            0 <= i < first.len() ==> (#[trigger] first[i]).record.start == second[i].record.start
                && first[i].record.end == second[i].record.end && first[i].step == second[i].step,
{
}

/// The simulated clock once the entries before `i` have been released: the
/// latest start among them, or zero.
pub open spec fn clock_before(s: Seq<Event>, i: int) -> int
    decreases i,
{
    if i <= 0 {
        0
    } else {
        let c = clock_before(s, i - 1);
        let t = s[i - 1].record.start as int;
        if t > c {
            t
        } else {
            c
        }
    }
}

/// How long the release loop waits before releasing entry `i`.
pub open spec fn release_delay(s: Seq<Event>, i: int) -> int {
    let c = clock_before(s, i);
    let t = s[i].record.start as int;
    if t > c {
        t - c
    } else {
        0
    }
}

/// The simulated time at which entry `i` is released: the sum of the
/// delays up to and including its own.
pub open spec fn release_time(s: Seq<Event>, i: int) -> int
    decreases i + 1,
{
    if i < 0 {
        0
    } else {
        release_time(s, i - 1) + release_delay(s, i)
    }
}

/// The number of requests that all of `s` fire.
pub open spec fn total_steps(s: Seq<Event>) -> nat
    decreases s.len(),
{
    if s.len() == 0 {
        0
    } else {
        total_steps(s.drop_last()) + step_count(
            s.last().record.start as int,
            s.last().record.end as int,
            s.last().step as int,
        )
    }
}

proof fn lemma_clock_bounds(s: Seq<Event>, i: int)
    requires
        0 <= i <= s.len(),
    ensures
        0 <= clock_before(s, i) <= u32::MAX,
        release_time(s, i - 1) == clock_before(s, i),
    decreases i,
{
    if i > 0 {
        lemma_clock_bounds(s, i - 1);
    }
}

/// An entry is released exactly when the clock reaches its start: on a list
/// in window order the delays up to entry `i` add up to its start.
pub proof fn lemma_released_on_time(s: Seq<Event>, i: int)
    requires
        sorted_by_window(s),
        0 <= i < s.len(),
    ensures
        release_time(s, i) == s[i].record.start,
        i > 0 && s[i - 1].record.start == s[i].record.start ==> release_delay(s, i) == 0,
    decreases i,
{
    lemma_clock_bounds(s, i);
    if i > 0 {
        lemma_released_on_time(s, i - 1);
        assert(window_le(s[i - 1], s[i]));
    }
}

/// The ordered timeline entries of one run.
pub struct Generator {
    events: Vec<Event>,
}

impl View for Generator {
    type V = Seq<Event>;

    closed spec fn view(&self) -> Seq<Event> {
        self.events@
    }
}

impl Generator {
    /// Builds the entries of `records` on a clock compressed by `scale` and
    /// orders them by window. A zero scale, a step that the scale reduces to
    /// zero and a method that the client refuses are rejected, the last one
    /// with the index of the first such record.
    pub fn from_records(records: Vec<Record>, step: usize, scale: u32) -> (r: Result<
        Generator,
        ConfigError,
    >)
        ensures
            scale == 0 <==> r == Err::<Generator, ConfigError>(ConfigError::ZeroScale),
            (scale > 0 && step / (scale as usize) == 0) <==> r == Err::<Generator, ConfigError>(
                ConfigError::ZeroStep,
            ),
            forall|i: usize|
                (scale > 0 && step / (scale as usize) > 0 && i < records@.len()
                    && methods_valid_before(records@, i as int) && !is_valid_method(
                    #[trigger] records@[i as int].method@,
                )) <==> r == Err::<Generator, ConfigError>(ConfigError::InvalidMethod { index: i }),
            r is Ok <==> (scale > 0 && step / (scale as usize) > 0 && methods_valid_before(
                records@,
                records@.len() as int,
            )),
            r is Ok ==> r->Ok_0@ == built_events(records@, step, scale),
            r is Ok ==> sorted_by_window(r->Ok_0@),
    {
        if scale == 0 {
            return Err(ConfigError::ZeroScale);
        }
        if step / (scale as usize) == 0 {
            return Err(ConfigError::ZeroStep);
        }
        let mut i: usize = 0;
        while i < records.len()
            invariant
                scale > 0,
                step / (scale as usize) > 0,
                0 <= i <= records@.len(),
                methods_valid_before(records@, i as int),
            decreases records@.len() - i,
        {
            if !method_accepted(records[i].method.as_str()) {
                return Err(ConfigError::InvalidMethod { index: i });
            }
            i = i + 1;
        }
        let total = records.len();
        let ghost input = records@;
        let ghost scaled = scaled_events(input, step, scale);
        let mut rest = records;
        let mut events: Vec<Event> = Vec::new();
        let mut n: usize = 0;
        while rest.len() > 0
            invariant
                scale > 0,
                step / (scale as usize) > 0,
                scaled == scaled_events(input, step, scale),
                methods_valid_before(input, input.len() as int),
                n + rest@.len() == input.len(),
                input.len() == total,
                rest@ == input.subrange(n as int, input.len() as int),
                events@ == sort_by_window(scaled.take(n as int)),
            decreases rest@.len(),
        {
            let record = rest.remove(0);
            assert(record == input[n as int]);
            assert(is_valid_method(input[n as int].method@));
            let event = match Event::new(record, scale, step) {
                Ok(e) => e,
                Err(err) => return Err(err),
            };
            assert(event == scaled[n as int]);
            let mut j: usize = events.len();
            assert(events@.take(j as int) =~= events@);
            while j > 0 && events[j - 1] > event
                invariant
                    0 <= j <= events@.len(),
                    insert_pos(events@, event) == insert_pos(events@.take(j as int), event),
                decreases j,
            {
                assert(events@.take(j as int).drop_last() =~= events@.take(j - 1));
                j = j - 1;
            }
            assert(insert_pos(events@, event) == j) by {
                if j == 0 {
                    assert(events@.take(0) =~= Seq::<Event>::empty());
                } else {
                    assert(events@.take(j as int).last() == events@[j - 1]);
                }
            }
            events.insert(j, event);
            assert(scaled.take(n + 1).drop_last() =~= scaled.take(n as int));
            n = n + 1;
        }
        assert(scaled.take(n as int) =~= scaled);
        proof {
            lemma_sort_by_window(scaled);
        }
        Ok(Generator { events })
    }

    /// The wait before each release: entry `i` is released once the clock
    /// has advanced from the latest earlier start to its own start.
    pub fn release_delays(&self) -> (r: Vec<u32>)
        ensures
            r@.len() == self@.len(),
            forall|i: int| 0 <= i < r@.len() ==> r@[i] as int == #[trigger] release_delay(self@, i),
    {
        let mut r: Vec<u32> = Vec::new();
        let mut current: u32 = 0;
        let mut i: usize = 0;
        while i < self.events.len()
            invariant
                0 <= i <= self@.len(),
                r@.len() == i,
                current == clock_before(self@, i as int),
                forall|k: int| 0 <= k < i ==> r@[k] as int == #[trigger] release_delay(self@, k),
            decreases self@.len() - i,
        {
            let start = self.events[i].record.start;
            if current < start {
                r.push(start - current);
                current = start;
            } else {
                r.push(0);
            }
            i = i + 1;
        }
        r
    }

    /// How many requests the whole run fires.
    pub fn total_requests(&self) -> (r: u128)
        ensures
            r == total_steps(self@),
    {
        let mut total: u128 = 0;
        let mut i: usize = 0;
        while i < self.events.len()
            invariant
                0 <= i <= self@.len(),
                total == total_steps(self@.take(i as int)),
                total <= i * 0x1_0000_0000,
            decreases self@.len() - i,
        {
            let e = &self.events[i];
            let mut count: u128 = 0;
            if e.record.start < e.record.end && e.step > 0 {
                count = ((e.record.end - e.record.start - 1) as u128) / (e.step as u128) + 1;
            }
            assert(self@.take(i + 1).drop_last() =~= self@.take(i as int));
            assert(self@.take(i + 1).last() == self@[i as int]);
            total = total + count;
            i = i + 1;
        }
        assert(self@.take(i as int) =~= self@);
        total
    }

    /// The entries in release order.
    pub fn events(&self) -> (r: &Vec<Event>)
        ensures
            r@ == self@,
    {
        &self.events
    }
}

} // verus!
