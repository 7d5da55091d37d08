use vstd::prelude::*;
use crate::db::DirEntry;

verus! {

/// Nanoseconds in one hour.
pub const HOUR_NS: i64 = 3_600_000_000_000;

/// Nanoseconds in one day.
pub const DAY_NS: i64 = 86_400_000_000_000;

/// Nanoseconds in one week.
pub const WEEK_NS: i64 = 604_800_000_000_000;

/// Scores are exact fixed-point numbers: a score `s` stands for `s / 8`.
/// Every weight, and the boost that matching applies, is a whole number of
/// eighths.
pub const SCORE_SCALE: i128 = 8;

/// How a directory's visits are turned into a score.
#[derive(Clone, Copy, Debug, PartialEq, Eq, Structural)]
pub enum Mode {
    /// Visit count weighted by the age of the last visit.
    Frecency,
    /// Visit count alone.
    Frequency,
    /// Time of the last visit alone.
    Recency,
}

/// Time since the last visit; zero for a visit that lies in the future.
pub open spec fn age(now_ns: int, last_visit_ns: int) -> int {
    if now_ns >= last_visit_ns {
        now_ns - last_visit_ns
    } else {
        0
    }
}

/// Decay weight of an age, in eighths: 4 under an hour, 2 under a day,
/// one half under a week, one quarter from then on.
pub open spec fn weight(age: int) -> int {
    if age < HOUR_NS {
        32
    } else if age < DAY_NS {
        16
    } else if age < WEEK_NS {
        4
    } else {
        2
    }
}

/// The score, in eighths, of a directory visited `freq` times, last at
/// `last_visit_ns`, as seen at `now_ns`.
pub open spec fn score_of(freq: int, last_visit_ns: int, now_ns: int, mode: Mode) -> int {
    match mode {
        Mode::Frecency => freq * weight(age(now_ns, last_visit_ns)),
        Mode::Frequency => freq * 8,
        Mode::Recency => last_visit_ns * 8,
    }
}

/// The decay weight, in eighths, of a visit at `last_visit_ns` seen at
/// `now_ns`.
fn weight_at(now_ns: i64, last_visit_ns: i64) -> (w: i128)
    ensures
        w == weight(age(now_ns as int, last_visit_ns as int)),
{
    let elapsed: i128 = now_ns as i128 - last_visit_ns as i128;
    if elapsed < HOUR_NS as i128 {
        32
    } else if elapsed < DAY_NS as i128 {
        16
    } else if elapsed < WEEK_NS as i128 {
        4
    } else {
        2
    }
}

/// A count or a time, multiplied by a weight.
fn scaled(value: i64, factor: i128) -> (s: i128)
    requires
        0 <= factor <= 48,
    ensures
        s == value * factor,
{
    proof {
        assert(-0x8000_0000_0000_0000 * 48 <= value * factor <= 0x8000_0000_0000_0000 * 48)
            by (nonlinear_arith)
            requires
                -0x8000_0000_0000_0000 <= value < 0x8000_0000_0000_0000,
                0 <= factor <= 48,
        ;
    }
    value as i128 * factor
}

/// Scores a directory entry. The result is in eighths.
pub fn score(entry: &DirEntry, now_ns: i64, mode: &Mode) -> (s: i128)
    ensures
        s == score_of(entry.freq as int, entry.last_visit_ns as int, now_ns as int, *mode),
{
    match mode {
        Mode::Frecency => scaled(entry.freq, weight_at(now_ns, entry.last_visit_ns)),
        Mode::Frequency => scaled(entry.freq, 8),
        Mode::Recency => scaled(entry.last_visit_ns, 8),
    }
}

/// One and a half times a score. Every score that `score_of` gives is even,
/// so halving it loses nothing.
pub open spec fn boost(base: int) -> int {
    base / 2 * 3
}

/// One and a half times the product of a value and an even factor is the
/// value times one and a half of the factor.
proof fn lemma_boost_scaled(value: int, factor: int)
    requires
        factor % 2 == 0,
    ensures
        boost(value * factor) == value * (factor / 2 * 3),
        2 * boost(value * factor) == 3 * (value * factor),
{
    let half = factor / 2;
    assert(value * factor == 2 * (value * half)) by (nonlinear_arith)
        requires
            factor == 2 * half,
    ;
    assert(value * (half * 3) == (value * half) * 3) by (nonlinear_arith);
}

/// Scores a directory entry and multiplies the score by one and a half.
/// The result is in eighths.
pub fn boosted_score(entry: &DirEntry, now_ns: i64, mode: &Mode) -> (s: i128)
    ensures
        s == boost(score_of(entry.freq as int, entry.last_visit_ns as int, now_ns as int, *mode)),
        2 * s == 3 * score_of(entry.freq as int, entry.last_visit_ns as int, now_ns as int, *mode),
{
    match mode {
        Mode::Frecency => {
            let w: i128 = weight_at(now_ns, entry.last_visit_ns);
            proof {
                lemma_boost_scaled(entry.freq as int, w as int);
            }
            scaled(entry.freq, w / 2 * 3)
        },
        Mode::Frequency => {
            proof {
                lemma_boost_scaled(entry.freq as int, 8);
            }
            scaled(entry.freq, 12)
        },
        Mode::Recency => {
            proof {
                lemma_boost_scaled(entry.last_visit_ns as int, 8);
            }
            scaled(entry.last_visit_ns, 12)
        },
    }
}

/// In frequency mode the score is the visit count, whatever the time of
/// the last visit and whatever the time it is seen at.
pub proof fn frequency_score_is_the_count(freq: int, last_visit_ns: int, now_ns: int)
    ensures
        score_of(freq, last_visit_ns, now_ns, Mode::Frequency) == freq * SCORE_SCALE,
{
}

/// In recency mode a later last visit scores strictly higher, whatever
/// the visit counts are.
pub proof fn recency_score_grows_with_time(
    freq: int,
    earlier_ns: int,
    other_freq: int,
    later_ns: int,
    now_ns: int,
)
    requires
        earlier_ns < later_ns,
    ensures
        score_of(freq, earlier_ns, now_ns, Mode::Recency) < score_of(
            other_freq,
            later_ns,
            now_ns,
            Mode::Recency,
        ),
{
}

/// The weight is a step function of the age: 4 before one hour, 2 from
/// one hour to before one day, one half from one day to before one week,
/// one quarter from one week on. An age that equals a boundary has the
/// weight of the older side, and the weight never grows with the age.
pub proof fn weight_is_a_step_function(age: int, older: int)
    requires
        age <= older,
    ensures
        weight(age) == 4 * SCORE_SCALE <==> age < HOUR_NS,
        weight(age) == 2 * SCORE_SCALE <==> HOUR_NS <= age < DAY_NS,
        2 * weight(age) == SCORE_SCALE <==> DAY_NS <= age < WEEK_NS,
        4 * weight(age) == SCORE_SCALE <==> WEEK_NS <= age,
        weight(older) <= weight(age),
{
}

/// In frecency mode the score is the visit count times the weight of the
/// age, and a last visit that lies in the future counts as age zero.
pub proof fn frecency_score_is_count_times_weight(freq: int, last_visit_ns: int, now_ns: int)
    ensures
        score_of(freq, last_visit_ns, now_ns, Mode::Frecency) == freq * weight(
            age(now_ns, last_visit_ns),
        ),
        age(now_ns, last_visit_ns) >= 0,
        now_ns <= last_visit_ns ==> score_of(freq, last_visit_ns, now_ns, Mode::Frecency) == freq * 4
            * SCORE_SCALE,
{
}

/// Every score is even in eighths, so a boosted score is exactly one and
/// a half times the score.
pub proof fn boost_is_one_and_a_half(freq: int, last_visit_ns: int, now_ns: int, mode: Mode)
    ensures
        score_of(freq, last_visit_ns, now_ns, mode) % 2 == 0,
        2 * boost(score_of(freq, last_visit_ns, now_ns, mode)) == 3 * score_of(
            freq,
            last_visit_ns,
            now_ns,
            mode,
        ),
{
    match mode {
        Mode::Frecency => lemma_boost_scaled(freq, weight(age(now_ns, last_visit_ns))),
        Mode::Frequency => lemma_boost_scaled(freq, 8),
        Mode::Recency => lemma_boost_scaled(last_visit_ns, 8),
    }
}

/// An age that equals a boundary has the weight of the older side, and the
/// age just before it the weight of the younger side. The boundaries are
/// one hour, one day and one week, in nanoseconds.
pub proof fn boundary_ages_weigh_as_the_older_side()
    ensures
        HOUR_NS == 3600 * 1_000_000_000,
        DAY_NS == 24 * HOUR_NS,
        WEEK_NS == 7 * DAY_NS,
        weight(0) == 4 * SCORE_SCALE,
        weight(HOUR_NS - 1) == 4 * SCORE_SCALE,
        weight(HOUR_NS as int) == 2 * SCORE_SCALE,
        weight(DAY_NS - 1) == 2 * SCORE_SCALE,
        2 * weight(DAY_NS as int) == SCORE_SCALE,
        2 * weight(WEEK_NS - 1) == SCORE_SCALE,
        4 * weight(WEEK_NS as int) == SCORE_SCALE,
{
}

} // verus!
