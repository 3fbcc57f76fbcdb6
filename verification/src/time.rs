//! Merge timestamps, expiry timestamps and the clocks that issue them.

use vstd::prelude::*;
use crate::error::HtError;
use crate::error::HtResult;
use std::time::Duration;
use std::time::SystemTime;
use std::time::SystemTimeError;

verus! {

/// Seconds from 1970-01-01 to 2020-01-01, the start of this engine's epoch.
pub const HT_EPOCH_SECONDS: u64 = 1577836800;

/// Milliseconds from 1970-01-01 to 2020-01-01.
pub const HT_EPOCH_MILLIS: u64 = 1577836800000;

/// The weight of one epoch millisecond in a merge timestamp's ticks.
pub const EPOCH_UNIT: u64 = 8388608;

/// The weight of one step of the counter in a merge timestamp's ticks.
pub const COUNTER_UNIT: u64 = 8192;

/// The weight of one step of the unique context in a merge timestamp's ticks.
pub const CONTEXT_UNIT: u64 = 8;

/// The ticks of a merge timestamp with the given parts, as a number without
/// bound: the parts from the most significant down are 41 bits of epoch
/// milliseconds, 10 bits of counter, 10 bits of unique context and 3 bits of
/// time travel.
pub open spec fn compose_ticks(
    epoch_millis: int,
    counter_part: int,
    unique_context: int,
    time_travel_part: int,
) -> int {
    epoch_millis * 8388608 + counter_part * 8192 + unique_context * 8 + time_travel_part
}

/// A value that orders writes: unique over the cluster and close to the wall
/// clock's order.
#[derive(Copy, Clone, PartialOrd, Ord, Eq, PartialEq, Debug, Hash, Structural)]
pub struct MergeTimestamp {
    pub ticks: u64,
}

impl MergeTimestamp {
    /// The timestamp with the given ticks.
    pub fn from_ticks(ticks: u64) -> (r: MergeTimestamp)
        ensures
            r.ticks == ticks,
    {
        MergeTimestamp { ticks }
    }

    /// The timestamp with the given parts. The counter may exceed its ten
    /// bits: what is above them carries into the epoch milliseconds.
    pub fn new(
        epoch_millis: u64,
        counter_part: u64,
        unique_context: u64,
        time_travel_part: u64,
    ) -> (r: MergeTimestamp)
        requires
            unique_context < 1024,
            time_travel_part < 8,
            compose_ticks(
                epoch_millis as int,
                counter_part as int,
                unique_context as int,
                time_travel_part as int,
            ) <= u64::MAX,
        ensures
            r.ticks == compose_ticks(
                epoch_millis as int,
                counter_part as int,
                unique_context as int,
                time_travel_part as int,
            ),
    {
        let ticks: u64 = epoch_millis * EPOCH_UNIT + counter_part * COUNTER_UNIT + unique_context
            * CONTEXT_UNIT + time_travel_part;
        MergeTimestamp { ticks }
    }

    pub open spec fn spec_epoch_millis(&self) -> u64 {
        self.ticks / 8388608
    }

    pub open spec fn spec_counter_part(&self) -> u64 {
        (self.ticks / 8192) % 1024
    }

    pub open spec fn spec_unique_context(&self) -> u64 {
        (self.ticks / 8) % 1024
    }

    pub open spec fn spec_time_travel_part(&self) -> u64 {
        self.ticks % 8
    }

    /// The milliseconds since 2020-01-01: the upper 41 bits.
    #[verifier::when_used_as_spec(spec_epoch_millis)]
    pub fn epoch_millis(&self) -> (r: u64)
        ensures
            r == self.spec_epoch_millis(),
    {
        self.ticks / EPOCH_UNIT
    }

    /// The counter within the millisecond: ten bits.
    #[verifier::when_used_as_spec(spec_counter_part)]
    pub fn counter_part(&self) -> (r: u64)
        ensures
            r == self.spec_counter_part(),
    {
        (self.ticks / COUNTER_UNIT) % 1024
    }

    /// The unique context of the process that issued the timestamp: ten bits.
    #[verifier::when_used_as_spec(spec_unique_context)]
    pub fn unique_context(&self) -> (r: u64)
        ensures
            r == self.spec_unique_context(),
    {
        (self.ticks / CONTEXT_UNIT) % 1024
    }

    /// The number of the reality in which the timestamp was issued: the
    /// lowest three bits.
    #[verifier::when_used_as_spec(spec_time_travel_part)]
    pub fn time_travel_part(&self) -> (r: u64)
        ensures
            r == self.spec_time_travel_part(),
    {
        self.ticks % 8
    }

    /// Milliseconds from 1970-01-01 to the millisecond of this timestamp.
    pub fn unix_millis(&self) -> (r: u64)
        ensures
            r == HT_EPOCH_MILLIS + self.epoch_millis(),
    {
        HT_EPOCH_MILLIS + self.epoch_millis()
    }
}

/// The parts of a timestamp are those it was made of, as long as the counter
/// keeps to its ten bits.
pub proof fn lemma_parts_of_composed(
    t: MergeTimestamp,
    epoch_millis: u64,
    counter_part: u64,
    unique_context: u64,
    time_travel_part: u64,
)
    requires
        counter_part < 1024,
        unique_context < 1024,
        time_travel_part < 8,
        t.ticks == compose_ticks(
            epoch_millis as int,
            counter_part as int,
            unique_context as int,
            time_travel_part as int,
        ),
    ensures
        t.epoch_millis() == epoch_millis,
        t.counter_part() == counter_part,
        t.unique_context() == unique_context,
        t.time_travel_part() == time_travel_part,
{
    let upper: int = epoch_millis * 1024 + counter_part;
    let middle: int = upper * 1024 + unique_context;
    assert(t.ticks == middle * 8 + time_travel_part);
    assert(t.ticks / 8 == middle);
    assert(t.ticks == upper * 8192 + (unique_context * 8 + time_travel_part));
    assert(t.ticks / 8192 == upper);
    assert(t.ticks == epoch_millis * 8388608 + (counter_part * 8192 + unique_context * 8
        + time_travel_part));
    assert(t.ticks / 8388608 == epoch_millis as int);
}

/// The order of the ticks is the order of the parts, compared from the epoch
/// milliseconds down to the time travel part.
pub proof fn lemma_order_by_parts(a: MergeTimestamp, b: MergeTimestamp)
    ensures
        a.ticks < b.ticks <==> {
            ||| a.epoch_millis() < b.epoch_millis()
            ||| a.epoch_millis() == b.epoch_millis() && a.counter_part() < b.counter_part()
            ||| a.epoch_millis() == b.epoch_millis() && a.counter_part() == b.counter_part()
                && a.unique_context() < b.unique_context()
            ||| a.epoch_millis() == b.epoch_millis() && a.counter_part() == b.counter_part()
                && a.unique_context() == b.unique_context() && a.time_travel_part()
                < b.time_travel_part()
        },
{
    let a8 = a.ticks / 8;
    let b8 = b.ticks / 8;
    lemma_order_by_quotient_8(a.ticks as int, b.ticks as int);
    lemma_order_by_quotient_1024(a8 as int, b8 as int);
    let a13 = a8 / 1024;
    let b13 = b8 / 1024;
    assert(a13 == a.ticks / 8192);
    assert(b13 == b.ticks / 8192);
    lemma_order_by_quotient_1024(a13 as int, b13 as int);
    assert(a13 / 1024 == a.ticks / 8388608);
    assert(b13 / 1024 == b.ticks / 8388608);
}

/// The low parts of a timestamp are those it was made of, whatever the counter.
pub proof fn lemma_low_parts_of_composed(
    t: MergeTimestamp,
    epoch_millis: u64,
    counter_part: u64,
    unique_context: u64,
    time_travel_part: u64,
)
    requires
        unique_context < 1024,
        time_travel_part < 8,
        t.ticks == compose_ticks(
            epoch_millis as int,
            counter_part as int,
            unique_context as int,
            time_travel_part as int,
        ),
    ensures
        t.unique_context() == unique_context,
        t.time_travel_part() == time_travel_part,
{
    let upper: int = epoch_millis * 1024 + counter_part;
    let middle: int = upper * 1024 + unique_context;
    assert(t.ticks == middle * 8 + time_travel_part);
    assert(t.ticks / 8 == middle);
    assert(middle % 1024 == unique_context as int);
}

proof fn lemma_order_by_quotient_8(x: int, y: int)
    requires
        0 <= x,
        0 <= y,
    ensures
        x < y <==> (x / 8 < y / 8 || (x / 8 == y / 8 && x % 8 < y % 8)),
{
}

proof fn lemma_order_by_quotient_1024(x: int, y: int)
    requires
        0 <= x,
        0 <= y,
    ensures
        x < y <==> (x / 1024 < y / 1024 || (x / 1024 == y / 1024 && x % 1024 < y % 1024)),
{
}

/// `std::time::SystemTime`, carried as a value that nothing is known of.
#[verifier::external_type_specification]
#[verifier::external_body]
pub struct ExSystemTime(std::time::SystemTime);

/// The instant that lies `millis` milliseconds after 1970-01-01 00:00 UTC.
pub uninterp spec fn unix_instant(millis: u64) -> SystemTime;

/// Adds a `Duration` of `millis` milliseconds to `SystemTime::UNIX_EPOCH`:
/// the instant that many milliseconds after the start of 1970. The bound
/// keeps the sum inside what every platform's `SystemTime` can hold.
#[verifier::external_body]
fn instant_after_unix_epoch(millis: u64) -> (t: SystemTime)
    requires
        millis <= 0x7fff_ffff_ffff,
    ensures
        t == unix_instant(millis),
{
    SystemTime::UNIX_EPOCH + Duration::from_millis(millis)
}

impl MergeTimestamp {
    /// The wall clock time of this timestamp's millisecond.
    pub fn as_system_time(&self) -> (t: SystemTime)
        ensures
            t == unix_instant((HT_EPOCH_MILLIS + self.epoch_millis()) as u64),
    {
        instant_after_unix_epoch(self.unix_millis())
    }
}

/// The second at which a value expires, counted from 2020-01-01.
#[derive(Copy, Clone, PartialOrd, PartialEq, Ord, Eq, Debug, Hash, Structural)]
pub struct TtlTimestamp {
    pub epoch_seconds: u32,
}

impl TtlTimestamp {
    /// The expiry at the given second.
    pub fn new(epoch_seconds: u32) -> (r: TtlTimestamp)
        ensures
            r.epoch_seconds == epoch_seconds,
    {
        TtlTimestamp { epoch_seconds }
    }

    /// The wall clock time of this timestamp's second.
    pub fn as_system_time(&self) -> (t: SystemTime)
        ensures
            t == unix_instant(((HT_EPOCH_SECONDS + self.epoch_seconds) * 1000) as u64),
    {
        let seconds: u64 = HT_EPOCH_SECONDS + self.epoch_seconds as u64;
        instant_after_unix_epoch(seconds * 1000)
    }

    /// The expiry that lies `ttl_seconds` after the second of `epoch_millis`,
    /// unless that second is beyond what an expiry can hold.
    pub fn after(epoch_millis: u64, ttl_seconds: u32) -> (r: Option<TtlTimestamp>)
        ensures
            r is Some <==> epoch_millis / 1000 + ttl_seconds <= u32::MAX,
            r matches Some(t) ==> t.epoch_seconds == epoch_millis / 1000 + ttl_seconds,
    {
        let seconds: u64 = epoch_millis / 1000 + ttl_seconds as u64;
        if seconds <= u32::MAX as u64 {
            Some(TtlTimestamp { epoch_seconds: seconds as u32 })
        } else {
            None
        }
    }
}

/// `std::time::SystemTimeError`, carried as a value that nothing is known of.
#[verifier::external_type_specification]
#[verifier::external_body]
pub struct ExSystemTimeError(std::time::SystemTimeError);

/// Calls `SystemTime::now`, which reads the system clock; nothing is known of
/// the instant that it returns.
#[verifier::external_body]
fn system_now() -> SystemTime {
    SystemTime::now()
}

/// `SystemTime::duration_since` gives the time from `earlier` to `t`, or an
/// error where `earlier` is the later of the two.
pub assume_specification[ SystemTime::duration_since ](t: &SystemTime, earlier: SystemTime) -> (r:
    Result<Duration, SystemTimeError>)
;

/// `Duration::as_millis` gives the whole milliseconds of a duration.
pub assume_specification[ Duration::as_millis ](d: &Duration) -> (r: u128)
;

/// What a wall clock tells its callback when the system clock has gone back:
/// the reading, the reading before it, and the number of the reality that
/// the clock has moved on to.
#[derive(Copy, Clone, Debug, PartialEq, Eq, Structural)]
pub struct TimeTravel {
    pub cur_millis: u64,
    pub prev_millis: u64,
    pub new_time_travel_counter: u8,
}

/// What a step of a wall clock gives: the timestamp that is issued, and what
/// the callback is owed where the system clock has gone back.
#[derive(Copy, Clone, Debug, PartialEq, Eq, Structural)]
pub struct Step {
    pub timestamp: MergeTimestamp,
    pub time_travel: Option<TimeTravel>,
}

/// The state from which a wall clock issues its next timestamp.
#[derive(Copy, Clone, Debug, PartialEq, Eq, Structural)]
pub struct WallClockCounter {
    pub cur_epoch_millis: u64,
    pub counter: u64,
    pub time_travel_counter: u64,
}

/// The callback that a wall clock calls when the system clock has gone back.
pub trait TimeTravelCallback {
    /// The system clock read `cur_millis` after it had read `prev_millis`,
    /// and the clock has moved on to the reality that
    /// `new_time_travel_counter` numbers.
    fn on_time_travel(&self, cur_millis: u64, prev_millis: u64, new_time_travel_counter: u8);
}

/// The callback that does nothing.
pub struct NoTimeTravelCallback {}

impl TimeTravelCallback for NoTimeTravelCallback {
    fn on_time_travel(&self, _cur_millis: u64, _prev_millis: u64, _new_time_travel_counter: u8) {
    }
}

impl WallClockCounter {
    /// The counter stays below what the next timestamp's ticks can carry.
    pub open spec fn wf(&self) -> bool {
        &&& self.time_travel_counter < 8
        &&& self.counter < 0x8_0000_0000_0000
    }

    /// The ticks of the timestamp that this state stands at.
    pub open spec fn ticks_at(&self, unique_context: u64) -> int {
        compose_ticks(
            self.cur_epoch_millis as int,
            self.counter as int,
            unique_context as int,
            self.time_travel_counter as int,
        )
    }

    /// The state after the clock was read at `millis`. Where the clock has
    /// gone back, the time travel counter moves on and the counter starts
    /// anew. Otherwise the counter gives back 1024 for each millisecond that
    /// has passed, down to zero. Then the counter moves on by one.
    pub open spec fn next(&self, millis: u64) -> WallClockCounter {
        if millis < self.cur_epoch_millis {
            WallClockCounter {
                cur_epoch_millis: millis,
                counter: 1,
                time_travel_counter: ((self.time_travel_counter + 1) % 8) as u64,
            }
        } else {
            let passed = (millis - self.cur_epoch_millis) * 1024;
            WallClockCounter {
                cur_epoch_millis: millis,
                counter: if self.counter < passed {
                    1
                } else {
                    (self.counter - passed + 1) as u64
                },
                time_travel_counter: self.time_travel_counter,
            }
        }
    }

    /// A clock reading of `millis` can be turned into a timestamp: the ticks
    /// of the next state fit in 64 bits.
    pub open spec fn can_advance(&self, millis: u64, unique_context: u64) -> bool {
        self.next(millis).ticks_at(unique_context) <= u64::MAX
    }

    /// The state of a clock that has issued nothing yet.
    pub fn new(time_travel_counter: u64) -> (r: WallClockCounter)
        requires
            time_travel_counter < 8,
        ensures
            r.wf(),
            r.cur_epoch_millis == 0,
            r.counter == 0,
            r.time_travel_counter == time_travel_counter,
    {
        WallClockCounter { cur_epoch_millis: 0, counter: 0, time_travel_counter }
    }

    /// Moves on to the clock reading `millis` and issues the timestamp of the
    /// new state. Where its ticks would not fit, nothing changes and nothing is
    /// issued. As long as the clock does not go back, each timestamp is above
    /// the one before.
    pub fn advance(&mut self, millis: u64, unique_context: u64) -> (r: Option<MergeTimestamp>)
        requires
            old(self).wf(),
            unique_context < 1024,
        ensures
            final(self).wf(),
            r is Some <==> old(self).can_advance(millis, unique_context),
            r matches Some(t) ==> *final(self) == old(self).next(millis),
            r matches Some(t) ==> t.ticks == final(self).ticks_at(unique_context),
            r is None ==> *final(self) == *old(self),
            r matches Some(t) ==> millis >= old(self).cur_epoch_millis ==> t.ticks
                > old(self).ticks_at(unique_context),
            r matches Some(t) ==> t.unique_context() == unique_context,
    {
        let time_travel: u64 = if millis < self.cur_epoch_millis {
            (self.time_travel_counter + 1) % 8
        } else {
            self.time_travel_counter
        };
        let counter: u64 = if millis < self.cur_epoch_millis {
            1
        } else {
            let diff: u64 = millis - self.cur_epoch_millis;
            if diff >= 0x4_0000_0000_0000 || self.counter < diff * 1024 {
                1
            } else {
                self.counter - diff * 1024 + 1
            }
        };
        if counter >= 0x8_0000_0000_0000 || millis >= 0x200_0000_0000 {
            return None;
        }
        let upper: u64 = millis * EPOCH_UNIT + unique_context * CONTEXT_UNIT + time_travel;
        let lower: u64 = counter * COUNTER_UNIT;
        if lower > u64::MAX - upper {
            return None;
        }
        self.cur_epoch_millis = millis;
        self.counter = counter;
        self.time_travel_counter = time_travel;
        let issued = MergeTimestamp { ticks: upper + lower };
        proof {
            lemma_low_parts_of_composed(issued, millis, counter, unique_context, time_travel);
        }
        Some(issued)
    }

    /// What the callback is owed for the clock reading `millis`: something
    /// where the reading lies before the one that came last, nothing
    /// otherwise.
    pub open spec fn travel(&self, millis: u64) -> Option<TimeTravel> {
        if millis < self.cur_epoch_millis {
            Some(
                TimeTravel {
                    cur_millis: millis,
                    prev_millis: self.cur_epoch_millis,
                    new_time_travel_counter: ((self.time_travel_counter + 1) % 8) as u8,
                },
            )
        } else {
            None
        }
    }

    /// Moves on to the clock reading `millis` as `advance` does, and says
    /// beside the timestamp what the callback is owed.
    pub fn step(&mut self, millis: u64, unique_context: u64) -> (r: Option<Step>)
        requires
            old(self).wf(),
            unique_context < 1024,
        ensures
            final(self).wf(),
            r is Some <==> old(self).can_advance(millis, unique_context),
            r matches Some(s) ==> *final(self) == old(self).next(millis),
            r matches Some(s) ==> s.timestamp.ticks == old(self).next(millis).ticks_at(
                unique_context,
            ),
            r matches Some(s) ==> s.time_travel == old(self).travel(millis),
            r matches Some(s) ==> s.timestamp.unique_context() == unique_context,
            r matches Some(s) ==> millis >= old(self).cur_epoch_millis ==> s.timestamp.ticks
                > old(self).ticks_at(unique_context),
            r is None ==> *final(self) == *old(self),
    {
        let prev_millis: u64 = self.cur_epoch_millis;
        match self.advance(millis, unique_context) {
            Some(timestamp) => {
                let time_travel = if millis < prev_millis {
                    Some(
                        TimeTravel {
                            cur_millis: millis,
                            prev_millis,
                            new_time_travel_counter: self.time_travel_counter as u8,
                        },
                    )
                } else {
                    None
                };
                Some(Step { timestamp, time_travel })
            },
            None => None,
        }
    }
}

/// Two timestamps that one clock issues one after the other are in order, as
/// long as the clock does not go back between them. This holds also where the
/// counter has run over its ten bits within one millisecond.
pub proof fn lemma_wall_clock_monotonic(
    state: WallClockCounter,
    first_millis: u64,
    second_millis: u64,
    unique_context: u64,
)
    requires
        state.wf(),
        unique_context < 1024,
        first_millis <= second_millis,
        state.can_advance(first_millis, unique_context),
        state.next(first_millis).can_advance(second_millis, unique_context),
    ensures
        state.next(first_millis).ticks_at(unique_context) < state.next(first_millis).next(
            second_millis,
        ).ticks_at(unique_context),
{
}

/// A source of merge timestamps and of expiries.
pub trait HtClock {
    /// The timestamp of this moment, or an error where the clock cannot give
    /// one.
    fn now(&mut self) -> HtResult<MergeTimestamp>;

    /// The expiry that lies `ttl_seconds` after this moment, or an error where
    /// the clock cannot give one.
    fn ttl_timestamp(&self, ttl_seconds: u32) -> HtResult<TtlTimestamp>;
}

/// The clock of a node: it issues timestamps that are unique to this process
/// and follow the system clock. One clock serves a whole node; who shares it
/// among threads keeps it behind a lock.
pub struct WallClock {
    state: WallClockCounter,
    unique_context: u64,
    time_travel_callback: Box<dyn TimeTravelCallback>,
}

impl WallClock {
    /// The unique context that this clock puts into its timestamps.
    pub closed spec fn context(&self) -> u64 {
        self.unique_context
    }

    /// The state from which this clock issues its next timestamp.
    pub closed spec fn state(&self) -> WallClockCounter {
        self.state
    }

    /// The unique context keeps to its ten bits, and the state is well
    /// formed.
    #[verifier::type_invariant]
    spec fn wf(self) -> bool {
        self.unique_context < 1024 && self.state.wf()
    }

    /// A clock for the process with the given unique context, in the reality
    /// that `time_travel_counter` numbers. It has issued nothing yet.
    pub fn new(
        unique_context: u64,
        time_travel_counter: u64,
        time_travel_callback: Box<dyn TimeTravelCallback>,
    ) -> (r: WallClock)
        requires
            unique_context < 1024,
            time_travel_counter < 8,
        ensures
            r.context() == unique_context,
            r.state() == (WallClockCounter {
                cur_epoch_millis: 0,
                counter: 0,
                time_travel_counter,
            }),
    {
        WallClock {
            state: WallClockCounter::new(time_travel_counter),
            unique_context,
            time_travel_callback,
        }
    }

    /// A clock that tells nobody when the system clock has gone back.
    pub fn new_without_callback(unique_context: u64, time_travel_counter: u64) -> (r: WallClock)
        requires
            unique_context < 1024,
            time_travel_counter < 8,
        ensures
            r.context() == unique_context,
            r.state() == (WallClockCounter {
                cur_epoch_millis: 0,
                counter: 0,
                time_travel_counter,
            }),
    {
        WallClock::new(unique_context, time_travel_counter, Box::new(NoTimeTravelCallback {  }))
    }

    /// The clock reading for the milliseconds that have passed since
    /// 2020-01-01: these milliseconds, if any have passed and they fit in 64
    /// bits. `None` stands for a clock that is before that day.
    pub fn reading_of(passed: Option<u128>) -> (r: Option<u64>)
        ensures
            r is Some <==> (passed matches Some(millis) && millis <= u64::MAX),
            r matches Some(reading) ==> passed == Some(reading as u128),
    {
        match passed {
            Some(millis) => {
                if millis <= u64::MAX as u128 {
                    Some(millis as u64)
                } else {
                    None
                }
            },
            None => None,
        }
    }

    /// The expiry that lies `ttl_seconds` after the second of the clock
    /// reading, or an error where there is no reading or the expiry is beyond
    /// what an expiry can hold.
    pub fn ttl_at(reading: Option<u64>, ttl_seconds: u32) -> (r: HtResult<TtlTimestamp>)
        ensures
            r is Ok <==> (reading matches Some(millis) && millis / 1000 + ttl_seconds
                <= u32::MAX),
            r matches Ok(t) ==> reading matches Some(millis) && t.epoch_seconds == millis / 1000
                + ttl_seconds,
            r matches Err(e) ==> e is Misc,
    {
        match reading {
            Some(millis) => match TtlTimestamp::after(millis, ttl_seconds) {
                Some(t) => Ok(t),
                None => Err(HtError::misc("the expiry is beyond what an expiry can hold")),
            },
            None => Err(HtError::misc("the system clock appears to be before 2020-01-01")),
        }
    }

    /// The system clock in milliseconds since 2020-01-01, or nothing where it
    /// stands before that day or beyond 64 bits of milliseconds: what
    /// `reading_of` gives for the time that the system clock says has passed
    /// since that day.
    pub fn ht_epoch_millis() -> Option<u64> {
        let epoch = instant_after_unix_epoch(HT_EPOCH_MILLIS);
        let passed: Option<u128> = match system_now().duration_since(epoch) {
            Ok(span) => Some(span.as_millis()),
            Err(_) => None,
        };
        WallClock::reading_of(passed)
    }

    /// The timestamp for the clock reading `millis`: the clock's state moves
    /// on as `WallClockCounter::next` says, and the timestamp of the new state
    /// is issued. Where the reading lies before the one that came last, the
    /// callback is told. Where the ticks would not fit in 64 bits, the state
    /// stays as it is and nothing is issued.
    pub fn now_at(&mut self, millis: u64) -> (r: HtResult<MergeTimestamp>)
        ensures
            final(self).context() == old(self).context(),
            r is Ok <==> old(self).state().can_advance(millis, old(self).context()),
            r matches Ok(t) ==> final(self).state() == old(self).state().next(millis),
            r matches Ok(t) ==> t.ticks == old(self).state().next(millis).ticks_at(
                old(self).context(),
            ),
            r matches Ok(t) ==> t.unique_context() == old(self).context(),
            r matches Ok(t) ==> millis >= old(self).state().cur_epoch_millis ==> t.ticks
                > old(self).state().ticks_at(old(self).context()),
            r is Err ==> final(self).state() == old(self).state(),
            r matches Err(e) ==> e is Misc,
    {
        proof {
            use_type_invariant(&*self);
        }
        let mut state = self.state;
        let step = state.step(millis, self.unique_context);
        self.state = state;
        match step {
            Some(s) => {
                match s.time_travel {
                    Some(travel) => {
                        self.time_travel_callback.on_time_travel(
                            travel.cur_millis,
                            travel.prev_millis,
                            travel.new_time_travel_counter,
                        );
                    },
                    None => {},
                }
                Ok(s.timestamp)
            },
            None => Err(HtError::misc("the clock reading is beyond what a timestamp can hold")),
        }
    }
}

impl HtClock for WallClock {
    /// The timestamp for the reading of the system clock: what `now_at` gives
    /// for that reading. Whatever the clock says, a timestamp that is issued
    /// is the one of the state that some reading leads to, and without a
    /// timestamp the state stays as it is.
    fn now(&mut self) -> (r: HtResult<MergeTimestamp>)
        ensures
            final(self).context() == old(self).context(),
            r matches Ok(t) ==> exists|millis: u64|
                {
                    &&& #[trigger] old(self).state().can_advance(millis, old(self).context())
                    &&& final(self).state() == old(self).state().next(millis)
                    &&& t.ticks == old(self).state().next(millis).ticks_at(old(self).context())
                },
            r matches Ok(t) ==> t.unique_context() == old(self).context(),
            r is Err ==> final(self).state() == old(self).state(),
            r matches Err(e) ==> e is Misc,
    {
        match WallClock::ht_epoch_millis() {
            Some(millis) => self.now_at(millis),
            None => Err(HtError::misc("the system clock appears to be before 2020-01-01")),
        }
    }

    /// The expiry that lies `ttl_seconds` after the second that the system
    /// clock stands at: what `ttl_at` gives for the reading of the system
    /// clock. Whatever the clock says, the expiry lies no less than
    /// `ttl_seconds` after 2020-01-01.
    fn ttl_timestamp(&self, ttl_seconds: u32) -> (r: HtResult<TtlTimestamp>)
        ensures
            r matches Ok(t) ==> t.epoch_seconds >= ttl_seconds,
            r matches Err(e) ==> e is Misc,
    {
        WallClock::ttl_at(WallClock::ht_epoch_millis(), ttl_seconds)
    }
}

/// A clock that stands at the timestamp it was last set to.
pub struct ManualClock {
    pub ts: MergeTimestamp,
}

impl ManualClock {
    /// A clock that stands at `initial`.
    pub fn new(initial: MergeTimestamp) -> (r: ManualClock)
        ensures
            r.ts == initial,
    {
        ManualClock { ts: initial }
    }

    /// Sets the clock to `ts`.
    pub fn set(&mut self, ts: MergeTimestamp)
        ensures
            final(self).ts == ts,
    {
        self.ts = ts;
    }
}

impl HtClock for ManualClock {
    fn now(&mut self) -> (r: HtResult<MergeTimestamp>)
        ensures
            r == Ok::<MergeTimestamp, HtError>(old(self).ts),
            final(self).ts == old(self).ts,
    {
        Ok(self.ts)
    }

    fn ttl_timestamp(&self, ttl_seconds: u32) -> (r: HtResult<TtlTimestamp>)
        ensures
            r is Ok <==> self.ts.epoch_millis() / 1000 + ttl_seconds <= u32::MAX,
            r matches Ok(t) ==> t.epoch_seconds == self.ts.epoch_millis() / 1000 + ttl_seconds,
            r matches Err(e) ==> e is Misc,
    {
        match TtlTimestamp::after(self.ts.epoch_millis(), ttl_seconds) {
            Some(t) => Ok(t),
            None => Err(HtError::misc("the expiry is beyond what an expiry can hold")),
        }
    }
}

} // verus!
