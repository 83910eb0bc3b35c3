//! Chord timelines: segments of a song, each with the chord that sounds from
//! its start time until its end time, and the lookup of the chord that sounds
//! at, before and after a moment.
//!
//! Times are taken by an ordinal: an integer that orders moments as their
//! seconds do, so that `a < b` holds of two ordinals exactly where it holds of
//! the seconds they stand for. A time that is no number has no ordinal and
//! compares with nothing: every comparison with it is false.

use vstd::prelude::*;

verus! {

/// A moment, taken by its ordinal; `None` for a time that is no number.
#[derive(Clone, Copy, Debug)]
pub struct TimeKey {
    pub ordinal: Option<i64>,
}

/// The moment zero.
pub open spec fn zero_time() -> TimeKey {
    TimeKey { ordinal: Some(0) }
}

/// `a >= b`.
pub open spec fn time_ge(a: TimeKey, b: TimeKey) -> bool {
    match (a.ordinal, b.ordinal) {
        (Some(x), Some(y)) => x >= y,
        _ => false,
    }
}

/// `a < b`.
pub open spec fn time_lt(a: TimeKey, b: TimeKey) -> bool {
    match (a.ordinal, b.ordinal) {
        (Some(x), Some(y)) => x < y,
        _ => false,
    }
}

/// The later of two moments; where one is no number, the other.
pub open spec fn time_max(a: TimeKey, b: TimeKey) -> TimeKey {
    match (a.ordinal, b.ordinal) {
        (None, _) => b,
        (_, None) => a,
        (Some(x), Some(y)) => if x >= y {
            a
        } else {
            b
        },
    }
}

/// The earlier of two moments; where one is no number, the other.
pub open spec fn time_min(a: TimeKey, b: TimeKey) -> TimeKey {
    match (a.ordinal, b.ordinal) {
        (None, _) => b,
        (_, None) => a,
        (Some(x), Some(y)) => if x <= y {
            a
        } else {
            b
        },
    }
}

impl TimeKey {
    /// The moment zero.
    pub fn zero() -> (r: TimeKey)
        ensures
            r == zero_time(),
    {
        TimeKey { ordinal: Some(0) }
    }

    /// `self >= other`.
    pub fn ge(&self, other: &TimeKey) -> (r: bool)
        ensures
            r == time_ge(*self, *other),
    {
        match (self.ordinal, other.ordinal) {
            (Some(x), Some(y)) => x >= y,
            _ => false,
        }
    }

    /// `self < other`.
    pub fn lt(&self, other: &TimeKey) -> (r: bool)
        ensures
            r == time_lt(*self, *other),
    {
        match (self.ordinal, other.ordinal) {
            (Some(x), Some(y)) => x < y,
            _ => false,
        }
    }

    /// The later of `self` and `other` (`f64::max`).
    pub fn max(self, other: TimeKey) -> (r: TimeKey)
        ensures
            r == time_max(self, other),
    {
        match (self.ordinal, other.ordinal) {
            (None, _) => other,
            (_, None) => self,
            (Some(x), Some(y)) => if x >= y {
                self
            } else {
                other
            },
        }
    }

    /// The earlier of `self` and `other` (`f64::min`).
    pub fn min(self, other: TimeKey) -> (r: TimeKey)
        ensures
            r == time_min(self, other),
    {
        match (self.ordinal, other.ordinal) {
            (None, _) => other,
            (_, None) => self,
            (Some(x), Some(y)) => if x <= y {
                self
            } else {
                other
            },
        }
    }
}

/// A stretch of a song during which one chord sounds.
#[derive(Clone, Debug)]
pub struct ChordSegment {
    pub start: TimeKey,
    pub end: TimeKey,
    pub chord: String,
}

/// The segment sounds at `t`: `start <= t < end`.
pub open spec fn sounds_at(t: TimeKey, seg: ChordSegment) -> bool {
    time_ge(t, seg.start) && time_lt(t, seg.end)
}

/// The segment begins after `t`.
pub open spec fn starts_after(t: TimeKey, seg: ChordSegment) -> bool {
    time_lt(t, seg.start)
}

/// The segment is over by `t`: `end <= t`.
pub open spec fn ended_by(t: TimeKey, seg: ChordSegment) -> bool {
    time_ge(t, seg.end)
}

/// Whether `seg` sounds at `t`.
pub fn is_active(t: TimeKey, seg: &ChordSegment) -> (r: bool)
    ensures
        r == sounds_at(t, *seg),
{
    t.ge(&seg.start) && t.lt(&seg.end)
}

/// The position of the first segment of `cs` that has property `p`.
pub open spec fn first_index(cs: Seq<ChordSegment>, p: spec_fn(ChordSegment) -> bool) -> Option<int>
    decreases cs.len(),
{
    if cs.len() == 0 {
        None
    } else if p(cs[0]) {
        Some(0)
    } else {
        match first_index(cs.drop_first(), p) {
            Some(i) => Some(i + 1),
            None => None,
        }
    }
}

/// The position of the last segment of `cs` that has property `p`.
pub open spec fn last_index(cs: Seq<ChordSegment>, p: spec_fn(ChordSegment) -> bool) -> Option<int>
    decreases cs.len(),
{
    if cs.len() == 0 {
        None
    } else if p(cs.last()) {
        Some(cs.len() - 1)
    } else {
        last_index(cs.drop_last(), p)
    }
}

/// `first_index` gives the first position with the property, and `None`
/// exactly where no position has it.
pub proof fn lemma_first_index(cs: Seq<ChordSegment>, p: spec_fn(ChordSegment) -> bool)
    ensures
        first_index(cs, p) is None <==> forall|j: int| 0 <= j < cs.len() ==> !p(cs[j]),
        first_index(cs, p) matches Some(i) ==> 0 <= i < cs.len() && p(cs[i]) && forall|j: int|
            0 <= j < i ==> !p(#[trigger] cs[j]),
    decreases cs.len(),
{
    if cs.len() > 0 && !p(cs[0]) {
        let rest = cs.drop_first();
        lemma_first_index(rest, p);
        assert forall|j: int| 1 <= j < cs.len() implies cs[j] == rest[j - 1] by {}
        if first_index(rest, p) is None {
            assert forall|j: int| 0 <= j < cs.len() implies !p(cs[j]) by {
                if j > 0 {
                    assert(cs[j] == rest[j - 1]);
                }
            }
        } else {
            assert(!forall|j: int| 0 <= j < cs.len() ==> !p(cs[j])) by {
                let i = first_index(rest, p)->0;
                assert(cs[i + 1] == rest[i]);
            }
        }
    }
}

/// `last_index` gives the last position with the property, and `None`
/// exactly where no position has it.
pub proof fn lemma_last_index(cs: Seq<ChordSegment>, p: spec_fn(ChordSegment) -> bool)
    ensures
        last_index(cs, p) is None <==> forall|j: int| 0 <= j < cs.len() ==> !p(cs[j]),
        last_index(cs, p) matches Some(i) ==> 0 <= i < cs.len() && p(cs[i]) && forall|j: int|
            i < j < cs.len() ==> !p(#[trigger] cs[j]),
    decreases cs.len(),
{
    if cs.len() > 0 && !p(cs.last()) {
        let rest = cs.drop_last();
        lemma_last_index(rest, p);
        if last_index(rest, p) is None {
            assert forall|j: int| 0 <= j < cs.len() implies !p(cs[j]) by {
                if j < cs.len() - 1 {
                    assert(cs[j] == rest[j]);
                }
            }
        } else {
            let i = last_index(rest, p)->0;
            assert(cs[i] == rest[i]);
            assert forall|j: int| i < j < cs.len() implies !p(#[trigger] cs[j]) by {
                if j < cs.len() - 1 {
                    assert(cs[j] == rest[j]);
                }
            }
        }
    }
}

/// A segment found at position `i` of `cs`, where there is one.
pub open spec fn found(r: Option<&ChordSegment>, cs: Seq<ChordSegment>, i: Option<int>) -> bool {
    match i {
        Some(i) => r matches Some(seg) && *seg == cs[i],
        None => r is None,
    }
}

/// The first segment that sounds at `time` (`start <= time < end`).
pub fn active_chord<'a>(time: TimeKey, chords: &'a [ChordSegment]) -> (r: Option<&'a ChordSegment>)
    ensures
        found(r, chords@, first_index(chords@, |s: ChordSegment| sounds_at(time, s))),
{
    let ghost p = |s: ChordSegment| sounds_at(time, s);
    let mut i: usize = 0;
    while i < chords.len()
        invariant
            i <= chords@.len(),
            p == (|s: ChordSegment| sounds_at(time, s)),
            forall|j: int| 0 <= j < i ==> !p(#[trigger] chords@[j]),
        decreases chords@.len() - i,
    {
        if is_active(time, &chords[i]) {
            proof {
                lemma_first_index(chords@, p);
                let k = first_index(chords@, p);
                if k is None {
                    assert(!p(chords@[i as int]));
                } else {
                    let k = k->0;
                    if k < i {
                        assert(!p(chords@[k]));
                    } else if k > i {
                        assert(!p(chords@[i as int]));
                    }
                }
            }
            return Some(&chords[i]);
        }
        i += 1;
    }
    proof {
        lemma_first_index(chords@, p);
    }
    None
}

/// The first segment that begins after `time`.
pub fn next_chord<'a>(time: TimeKey, chords: &'a [ChordSegment]) -> (r: Option<&'a ChordSegment>)
    ensures
        found(r, chords@, first_index(chords@, |s: ChordSegment| starts_after(time, s))),
{
    let ghost p = |s: ChordSegment| starts_after(time, s);
    let mut i: usize = 0;
    while i < chords.len()
        invariant
            i <= chords@.len(),
            p == (|s: ChordSegment| starts_after(time, s)),
            forall|j: int| 0 <= j < i ==> !p(#[trigger] chords@[j]),
        decreases chords@.len() - i,
    {
        if time.lt(&chords[i].start) {
            proof {
                lemma_first_index(chords@, p);
                let k = first_index(chords@, p);
                if k is None {
                    assert(!p(chords@[i as int]));
                } else {
                    let k = k->0;
                    if k < i {
                        assert(!p(chords@[k]));
                    } else if k > i {
                        assert(!p(chords@[i as int]));
                    }
                }
            }
            return Some(&chords[i]);
        }
        i += 1;
    }
    proof {
        lemma_first_index(chords@, p);
    }
    None
}

/// The last segment that is over by `time` (`end <= time`).
pub fn previous_chord<'a>(time: TimeKey, chords: &'a [ChordSegment]) -> (r: Option<&'a ChordSegment>)
    ensures
        found(r, chords@, last_index(chords@, |s: ChordSegment| ended_by(time, s))),
{
    let ghost p = |s: ChordSegment| ended_by(time, s);
    let mut i: usize = chords.len();
    while i > 0
        invariant
            i <= chords@.len(),
            p == (|s: ChordSegment| ended_by(time, s)),
            forall|j: int| i <= j < chords@.len() ==> !p(#[trigger] chords@[j]),
        decreases i,
    {
        i -= 1;
        if time.ge(&chords[i].end) {
            proof {
                lemma_last_index(chords@, p);
                let k = last_index(chords@, p);
                if k is None {
                    assert(!p(chords@[i as int]));
                } else {
                    let k = k->0;
                    if k > i {
                        assert(!p(chords@[k]));
                    } else if k < i {
                        assert(!p(chords@[i as int]));
                    }
                }
            }
            return Some(&chords[i]);
        }
    }
    proof {
        lemma_last_index(chords@, p);
    }
    None
}

/// A song's chord timeline and its length.
#[derive(Clone, Debug)]
pub struct LabData {
    pub chords: Vec<ChordSegment>,
    pub duration: TimeKey,
}

/// The latest end of the segments, and zero where none ends later.
pub open spec fn latest_end(chords: Seq<ChordSegment>) -> TimeKey
    decreases chords.len(),
{
    if chords.len() == 0 {
        zero_time()
    } else {
        time_max(latest_end(chords.drop_last()), chords.last().end)
    }
}

/// The timeline of `chords`, with the latest end as its length; `None` where
/// there are no segments.
pub fn build_lab_data(chords: Vec<ChordSegment>) -> (r: Option<LabData>)
    ensures
        r is None <==> chords@.len() == 0,
        r matches Some(data) ==> data.chords@ == chords@ && data.duration == latest_end(chords@),
{
    if chords.len() == 0 {
        return None;
    }
    let mut duration = TimeKey::zero();
    let mut i: usize = 0;
    while i < chords.len()
        invariant
            i <= chords@.len(),
            duration == latest_end(chords@.take(i as int)),
        decreases chords@.len() - i,
    {
        assert(chords@.take(i + 1).drop_last() == chords@.take(i as int));
        duration = duration.max(chords[i].end);
        i += 1;
    }
    assert(chords@.take(i as int) == chords@);
    Some(LabData { chords, duration })
}


/// The length of a timeline is at least zero and at least the end of each of
/// its segments whose end is a number.
pub proof fn law_duration_covers_segments(chords: Seq<ChordSegment>)
    ensures
        time_ge(latest_end(chords), zero_time()),
        forall|i: int|
            0 <= i < chords.len() && (#[trigger] chords[i]).end.ordinal is Some ==> time_ge(
                latest_end(chords),
                chords[i].end,
            ),
    decreases chords.len(),
{
    if chords.len() > 0 {
        let rest = chords.drop_last();
        law_duration_covers_segments(rest);
        assert forall|i: int|
            0 <= i < chords.len() && (#[trigger] chords[i]).end.ordinal is Some implies time_ge(
            latest_end(chords),
            chords[i].end,
        ) by {
            if i < chords.len() - 1 {
                assert(chords[i] == rest[i]);
            }
        }
    }
}

/// A segment that sounds at a moment is not over by it, and has not yet to begin.
pub proof fn law_sounding_is_current(t: TimeKey, seg: ChordSegment)
    requires
        sounds_at(t, seg),
    ensures
        !ended_by(t, seg),
        !starts_after(t, seg),
{
}


/// The previous chord is the last segment whose end is at or before `t`,
/// whatever its chord: any such segment bounds it from below, and none after
/// it has ended.
pub proof fn law_previous_is_last_ended(t: TimeKey, cs: Seq<ChordSegment>)
    ensures
        forall|i: int|
            0 <= i < cs.len() && time_ge(t, #[trigger] cs[i].end) ==> (last_index(
                cs,
                |s: ChordSegment| ended_by(t, s),
            ) matches Some(j) && i <= j),
        last_index(cs, |s: ChordSegment| ended_by(t, s)) matches Some(j) ==> {
            &&& 0 <= j < cs.len()
            &&& time_ge(t, cs[j].end)
            &&& forall|k: int| j < k < cs.len() ==> !time_ge(t, #[trigger] cs[k].end)
        },
        last_index(cs, |s: ChordSegment| ended_by(t, s)) is None ==> forall|i: int|
            0 <= i < cs.len() ==> !time_ge(t, #[trigger] cs[i].end),
{
    let p = |s: ChordSegment| ended_by(t, s);
    lemma_last_index(cs, p);
    assert forall|i: int| 0 <= i < cs.len() && time_ge(t, #[trigger] cs[i].end) implies (last_index(
        cs,
        p,
    ) matches Some(j) && i <= j) by {
        assert(p(cs[i]));
    }
}

/// The sounding chord is the first segment with `start <= t < end`, whatever
/// its chord.
pub proof fn law_active_is_first_sounding(t: TimeKey, cs: Seq<ChordSegment>)
    ensures
        forall|i: int|
            0 <= i < cs.len() && time_ge(t, cs[i].start) && time_lt(t, #[trigger] cs[i].end)
                ==> (first_index(cs, |s: ChordSegment| sounds_at(t, s)) matches Some(j) && j <= i),
        first_index(cs, |s: ChordSegment| sounds_at(t, s)) matches Some(j) ==> {
            &&& 0 <= j < cs.len()
            &&& time_ge(t, cs[j].start) && time_lt(t, cs[j].end)
            &&& forall|k: int|
                0 <= k < j ==> !(time_ge(t, cs[k].start) && time_lt(t, #[trigger] cs[k].end))
        },
        first_index(cs, |s: ChordSegment| sounds_at(t, s)) is None ==> forall|i: int|
            0 <= i < cs.len() ==> !(time_ge(t, cs[i].start) && time_lt(t, #[trigger] cs[i].end)),
{
    let p = |s: ChordSegment| sounds_at(t, s);
    lemma_first_index(cs, p);
    assert forall|i: int|
        0 <= i < cs.len() && time_ge(t, cs[i].start) && time_lt(
            t,
            #[trigger] cs[i].end,
        ) implies (first_index(cs, p) matches Some(j) && j <= i) by {
        assert(p(cs[i]));
    }
}

/// The next chord is the first segment that starts after `t`, whatever its
/// chord.
pub proof fn law_next_is_first_upcoming(t: TimeKey, cs: Seq<ChordSegment>)
    ensures
        forall|i: int|
            0 <= i < cs.len() && time_lt(t, #[trigger] cs[i].start) ==> (first_index(
                cs,
                |s: ChordSegment| starts_after(t, s),
            ) matches Some(j) && j <= i),
        first_index(cs, |s: ChordSegment| starts_after(t, s)) matches Some(j) ==> {
            &&& 0 <= j < cs.len()
            &&& time_lt(t, cs[j].start)
            &&& forall|k: int| 0 <= k < j ==> !time_lt(t, #[trigger] cs[k].start)
        },
        first_index(cs, |s: ChordSegment| starts_after(t, s)) is None ==> forall|i: int|
            0 <= i < cs.len() ==> !time_lt(t, #[trigger] cs[i].start),
{
    let p = |s: ChordSegment| starts_after(t, s);
    lemma_first_index(cs, p);
    assert forall|i: int| 0 <= i < cs.len() && time_lt(t, #[trigger] cs[i].start) implies (first_index(
        cs,
        p,
    ) matches Some(j) && j <= i) by {
        assert(p(cs[i]));
    }
}

} // verus!
