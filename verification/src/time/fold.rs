//! Telling the two halves of a repeated wall clock range apart.
//!
//! When a time zone puts its clock back, a range of wall clock times happens
//! twice. The search walks the wall clock, which passes that range only once,
//! so it must know which half it is on. These helpers read an instant's half
//! and find the edge between the halves.
use vstd::prelude::*;

use crate::errors::CronError;
use crate::time::{CivilDateTime, CronDateTime, DateTimeModel, Resolution};

verus! {

/// Which half of a repeated wall clock range an instant is on.
#[derive(Debug, Clone, Copy, PartialEq, Eq, Structural)]
pub enum Fold {
    /// Before the clock went back.
    Earlier,
    /// After the clock went back.
    Later,
}

/// The furthest a half of a repeated range can reach. No time zone repeats
/// more than a few hours, so a day is a wide margin for the bisection.
pub const MAX_OVERLAP_SECONDS: i64 = 86_400;

/// What a backend may answer when asked to resolve the wall clock time
/// `civil` in the time zone of `origin`: exactly what `resolve_civil`
/// promises.
pub open spec fn resolution_allowed<T: CronDateTime>(
    origin: T,
    civil: DateTimeModel,
    res: Result<Resolution<T>, CronError>,
) -> bool {
    &&& origin.fixed_offset() matches Some(o) ==> (res matches Ok(Resolution::Single(t))
        && t.fixed_offset() == Some(o) && t.instant() == (civil.seconds() - o) * 1_000_000_000)
    &&& res matches Ok(Resolution::Single(t)) ==> t.civil_spec() == civil
    &&& res matches Ok(Resolution::Ambiguous(a, b)) ==> {
        &&& a.civil_spec() == civil
        &&& b.civil_spec() == civil
        &&& a.instant() < b.instant()
    }
}

/// The half that `instant` is on, read from the resolution of its own wall
/// clock time: on a repeated time, the earlier half where it comes before
/// the later instant, else the later half; `None` on a time that happens
/// once or never; the error of a failed resolution.
pub open spec fn fold_in<T: CronDateTime>(
    instant: T,
    res: Result<Resolution<T>, CronError>,
) -> Result<Option<Fold>, CronError> {
    match res {
        Ok(Resolution::Ambiguous(_, later)) => Ok(
            Some(
                if instant.instant() < later.instant() {
                    Fold::Earlier
                } else {
                    Fold::Later
                },
            ),
        ),
        Ok(_) => Ok(None),
        Err(e) => Err(e),
    }
}

/// Whether `r` is the half that `instant` is on for some resolution of its
/// wall clock time that the backend may answer.
pub open spec fn fold_outcome<T: CronDateTime>(
    instant: T,
    r: Result<Option<Fold>, CronError>,
) -> bool {
    exists|res: Result<Resolution<T>, CronError>|
        #![trigger resolution_allowed(instant, instant.civil_spec(), res)]
        resolution_allowed(instant, instant.civil_spec(), res) && r == fold_in(instant, res)
}

/// The instant `offset` seconds from `origin` toward the change of clock:
/// later on the earlier half, earlier on the later half.
pub open spec fn toward_change(origin: int, offset: int, on: Fold) -> int {
    origin + (if on == Fold::Earlier {
        offset
    } else {
        -offset
    }) * 1_000_000_000
}

/// Returns the half of a repeated range that `instant` is on, or `None` if
/// its wall clock time happens only once.
pub fn fold_of<T: CronDateTime>(instant: &T) -> (r: Result<Option<Fold>, CronError>)
    ensures
        fold_outcome(*instant, r),
        exists|c: CivilDateTime|
            #![trigger instant.resolution_spec(c)]
            c@ == instant.civil_spec() && r == fold_in(*instant, instant.resolution_spec(c)),
        r matches Ok(Some(Fold::Earlier)) ==> exists|t: T|
            t.civil_spec() == instant.civil_spec() && instant.instant() < t.instant(),
        r matches Ok(Some(Fold::Later)) ==> exists|t: T|
            t.civil_spec() == instant.civil_spec() && t.instant() < instant.instant(),
        instant.fixed_offset() is Some ==> r == Ok::<Option<Fold>, CronError>(None),
{
    let civil = instant.to_civil();
    let res = instant.resolve_civil(civil);
    let ghost answered = res;
    let r = match res {
        Ok(Resolution::Ambiguous(earlier, later)) => {
            if instant.is_before(&later) {
                Ok(Some(Fold::Earlier))
            } else {
                Ok(Some(Fold::Later))
            }
        },
        Ok(_) => Ok(None),
        Err(e) => Err(e),
    };
    assert(resolution_allowed(*instant, instant.civil_spec(), answered));
    assert(r == fold_in(*instant, answered));
    assert(r == fold_in(*instant, instant.resolution_spec(civil)));
    r
}

/// The instant a signed number of seconds away.
fn at_offset<T: CronDateTime>(origin: &T, offset: i64, on: Fold) -> (r: Result<T, CronError>)
    requires
        0 <= offset <= MAX_OVERLAP_SECONDS,
    ensures
        r matches Ok(t) ==> t.instant() == origin.instant() + (if on == Fold::Earlier {
            offset as int
        } else {
            -offset
        }) * 1_000_000_000,
        r matches Err(e) ==> e is InvalidTime,
{
    let step: i64 = match on {
        Fold::Earlier => offset,
        Fold::Later => -offset,
    };
    match origin.checked_add_seconds(step) {
        Some(t) => Ok(t),
        None => Err(CronError::InvalidTime),
    }
}

/// Whether the instant `offset` seconds toward the change of clock is still
/// on the half `on`.
fn is_inside<T: CronDateTime>(origin: &T, offset: i64, on: Fold) -> (r: Result<bool, CronError>)
    requires
        0 <= offset <= MAX_OVERLAP_SECONDS,
    ensures
        r matches Ok(b) ==> exists|t: T, f: Option<Fold>|
            #![trigger fold_outcome(t, Ok::<Option<Fold>, CronError>(f))]
            t.instant() == toward_change(origin.instant(), offset as int, on) && fold_outcome(
                t,
                Ok::<Option<Fold>, CronError>(f),
            ) && b == (f == Some(on)),
        r matches Err(e) ==> e is InvalidTime || exists|t: T|
            #![trigger fold_outcome(t, Err::<Option<Fold>, CronError>(e))]
            t.instant() == toward_change(origin.instant(), offset as int, on) && fold_outcome(
                t,
                Err::<Option<Fold>, CronError>(e),
            ),
{
    let t = match at_offset(origin, offset, on) {
        Ok(t) => t,
        Err(e) => {
            return Err(e);
        },
    };
    match fold_of(&t) {
        Ok(Some(f)) => Ok(f == on),
        Ok(None) => Ok(false),
        Err(e) => Err(e),
    }
}

/// Whether some instant `k` seconds toward the change of clock may be read
/// as lying on the half `on`.
pub open spec fn inside_at<T: CronDateTime>(origin: T, on: Fold, k: int) -> bool {
    exists|t: T|
        #![trigger fold_outcome(t, Ok::<Option<Fold>, CronError>(Some(on)))]
        t.instant() == toward_change(origin.instant(), k, on) && fold_outcome(
            t,
            Ok::<Option<Fold>, CronError>(Some(on)),
        )
}

/// Whether some instant `k` seconds toward the change of clock may be read
/// as lying off the half `on`.
pub open spec fn outside_at<T: CronDateTime>(origin: T, on: Fold, k: int) -> bool {
    exists|t: T, f: Option<Fold>|
        #![trigger fold_outcome(t, Ok::<Option<Fold>, CronError>(f))]
        t.instant() == toward_change(origin.instant(), k, on) && fold_outcome(
            t,
            Ok::<Option<Fold>, CronError>(f),
        ) && f != Some(on)
}

/// Whether reading the half of some instant `k` seconds toward the change
/// of clock may fail with `e`.
pub open spec fn failed_at<T: CronDateTime>(origin: T, on: Fold, k: int, e: CronError) -> bool {
    exists|t: T|
        #![trigger fold_outcome(t, Err::<Option<Fold>, CronError>(e))]
        t.instant() == toward_change(origin.instant(), k, on) && fold_outcome(
            t,
            Err::<Option<Fold>, CronError>(e),
        )
}

/// Whether `k` seconds toward the change of clock is the edge of the half
/// `on`, as the bisection read it: off that half at `k`, and on it one
/// second before, unless that is `origin` itself.
pub open spec fn edge_at<T: CronDateTime>(origin: T, on: Fold, k: int) -> bool {
    &&& 1 <= k <= MAX_OVERLAP_SECONDS
    &&& outside_at(origin, on, k)
    &&& k > 1 ==> inside_at(origin, on, k - 1)
}

/// Returns the nearest instant of the half that `origin` is not on, toward
/// the change of clock: the moment the clock goes back when `origin` is on
/// the earlier half, and the moment just before it when on the later half.
/// The edge is found by bisection within a day of `origin`.
pub fn other_fold_edge<T: CronDateTime>(origin: &T, on: Fold) -> (r: Result<T, CronError>)
    ensures
        r matches Ok(t) ==> on == Fold::Earlier ==> origin.instant() < t.instant()
            <= origin.instant() + MAX_OVERLAP_SECONDS * 1_000_000_000,
        r matches Ok(t) ==> on == Fold::Later ==> origin.instant() - MAX_OVERLAP_SECONDS
            * 1_000_000_000 <= t.instant() < origin.instant(),
        r matches Ok(t) ==> exists|k: int|
            #![trigger toward_change(origin.instant(), k, on)]
            edge_at(*origin, on, k) && t.instant() == toward_change(origin.instant(), k, on),
        r matches Err(e) ==> e is InvalidTime || (e is TimeSearchLimitExceeded && inside_at(
            *origin,
            on,
            MAX_OVERLAP_SECONDS as int,
        )) || exists|k: int|
            #![trigger failed_at(*origin, on, k, e)]
            0 <= k <= MAX_OVERLAP_SECONDS && failed_at(*origin, on, k, e),
{
    let far = match is_inside(origin, MAX_OVERLAP_SECONDS, on) {
        Ok(b) => b,
        Err(e) => {
            proof {
                if !(e is InvalidTime) {
                    assert(failed_at(*origin, on, MAX_OVERLAP_SECONDS as int, e));
                }
            }
            return Err(e);
        },
    };
    if far {
        return Err(CronError::TimeSearchLimitExceeded);
    }
    let mut inside_offset: i64 = 0;
    let mut outside_offset: i64 = MAX_OVERLAP_SECONDS;
    while outside_offset - inside_offset > 1
        invariant
            0 <= inside_offset < outside_offset <= MAX_OVERLAP_SECONDS,
            inside_offset > 0 ==> inside_at(*origin, on, inside_offset as int),
            outside_at(*origin, on, outside_offset as int),
        decreases outside_offset - inside_offset,
    {
        let middle = inside_offset + (outside_offset - inside_offset) / 2;
        let inside = match is_inside(origin, middle, on) {
            Ok(b) => b,
            Err(e) => {
                proof {
                    if !(e is InvalidTime) {
                        assert(failed_at(*origin, on, middle as int, e));
                    }
                }
                return Err(e);
            },
        };
        if inside {
            inside_offset = middle;
        } else {
            outside_offset = middle;
        }
    }
    let r = at_offset(origin, outside_offset, on);
    proof {
        let k = outside_offset as int;
        assert(1_000_000_000 <= k * 1_000_000_000 <= MAX_OVERLAP_SECONDS * 1_000_000_000)
            by (nonlinear_arith)
            requires
                1 <= k <= MAX_OVERLAP_SECONDS,
        ;
        assert(edge_at(*origin, on, k));
        if r is Ok {
            assert(r->Ok_0.instant() == toward_change(origin.instant(), k, on));
        }
    }
    r
}

} // verus!
