//! What the library itself says about past days: which recordings and videos arrived on
//! each, and the earliest day it can speak for.
use vstd::prelude::*;

use super::day::{
    day_key_for_ms, key_le, key_lt, lemma_key_lt_irreflexive, names_local_date_of, DayKey, KeyOrder,
    LAST_DATED_MS, ROLLOVER_MS,
};
use super::table::DayMap;

verus! {

/// A day key as its text, where there is one.
pub open spec fn key_text(o: Option<DayKey>) -> Option<Seq<char>> {
    match o {
        Some(k) => Some(k@),
        None => None,
    }
}

/// Whether a sighting on `theirs` moves a horizon standing at `mine`: only to a day before it.
pub open spec fn moves_earlier(mine: Option<Seq<char>>, theirs: Option<Seq<char>>) -> bool {
    match (theirs, mine) {
        (None, _) => false,
        (Some(_), None) => true,
        (Some(t), Some(m)) => key_lt(t, m),
    }
}

/// The horizon after a sighting: the earlier of the two.
pub open spec fn merged_horizon(mine: Option<Seq<char>>, theirs: Option<Seq<char>>) -> Option<
    Seq<char>,
> {
    if moves_earlier(mine, theirs) {
        theirs
    } else {
        mine
    }
}

/// The earliest day the library speaks for. It is only ever moved earlier: deleting a
/// recording shrinks the library, and a horizon that moved forward would re-label days as
/// ones nobody was counting.
#[derive(Debug)]
pub struct EvidenceFrom {
    pub library: Option<DayKey>,
}

impl EvidenceFrom {
    /// No horizon yet.
    pub fn new() -> (e: EvidenceFrom)
        ensures
            e.library is None,
    {
        EvidenceFrom { library: None }
    }

    /// The same horizon, as a separate value.
    pub fn copied(&self) -> (e: EvidenceFrom)
        ensures
            key_text(e.library) == key_text(self.library),
    {
        match &self.library {
            Some(day) => EvidenceFrom { library: Some(day.copied()) },
            None => EvidenceFrom { library: None },
        }
    }

    /// Takes `seen` as the horizon where it is earlier, and says whether it moved.
    pub fn merge_earlier(&mut self, seen: &EvidenceFrom) -> (moved: bool)
        ensures
            moved == moves_earlier(key_text(old(self).library), key_text(seen.library)),
            key_text(final(self).library) == merged_horizon(
                key_text(old(self).library),
                key_text(seen.library),
            ),
    {
        let theirs = match &seen.library {
            Some(day) => day,
            None => return false,
        };
        match &self.library {
            Some(mine) => {
                if !theirs.is_before(mine) {
                    return false;
                }
            },
            None => {},
        }
        self.library = Some(theirs.copied());
        true
    }
}

/// A horizon never moves to a later day: whatever is seen, the day it stands on after the
/// sighting is no later than the one before.
pub proof fn law_horizon_never_moves_forward(mine: Seq<char>, theirs: Option<Seq<char>>)
    ensures
        merged_horizon(Some(mine), theirs) matches Some(after) && key_le(after, mine),
{
}

/// Seeing the same thing twice moves the horizon at most once.
pub proof fn law_a_repeated_sighting_is_not_a_move(
    mine: Option<Seq<char>>,
    theirs: Option<Seq<char>>,
)
    ensures
        !moves_earlier(merged_horizon(mine, theirs), theirs),
        merged_horizon(merged_horizon(mine, theirs), theirs) == merged_horizon(mine, theirs),
{
    if let Some(t) = theirs {
        lemma_key_lt_irreflexive(t);
    }
}

/// How many recordings and videos arrived on one day.
#[derive(Debug, Clone, Copy, PartialEq, Eq, Structural)]
pub struct MaterialCounts {
    pub recordings: u32,
    pub videos: u32,
}

impl Default for MaterialCounts {
    fn default() -> (c: MaterialCounts)
        ensures
            c == (MaterialCounts { recordings: 0, videos: 0 }),
    {
        MaterialCounts { recordings: 0, videos: 0 }
    }
}

/// One item of the library: the day it arrived on, where that day is usable, and whether
/// it is a video rather than a recording.
#[derive(Debug)]
pub struct Sighting {
    pub day: Option<DayKey>,
    pub is_video: bool,
}

pub open spec fn sighting_view(s: Sighting) -> (Option<Seq<char>>, bool) {
    (key_text(s.day), s.is_video)
}

pub open spec fn sightings(s: Seq<Sighting>) -> Seq<(Option<Seq<char>>, bool)> {
    s.map_values(|x: Sighting| sighting_view(x))
}

/// How many of `s` arrived on `day` as a video (`video`) or as a recording.
pub open spec fn seen_on(s: Seq<(Option<Seq<char>>, bool)>, day: Seq<char>, video: bool) -> nat
    decreases s.len(),
{
    if s.len() == 0 {
        0
    } else {
        seen_on(s.drop_last(), day, video) + if s.last().0 == Some(day) && s.last().1 == video {
            1nat
        } else {
            0nat
        }
    }
}

/// How many of `s` have no usable day.
pub open spec fn undated(s: Seq<(Option<Seq<char>>, bool)>) -> nat
    decreases s.len(),
{
    if s.len() == 0 {
        0
    } else {
        undated(s.drop_last()) + if s.last().0 is None {
            1nat
        } else {
            0nat
        }
    }
}

/// What `s` says of `day`: nothing where nothing arrived on it.
pub open spec fn material_on(s: Seq<(Option<Seq<char>>, bool)>, day: Seq<char>) -> Option<
    MaterialCounts,
> {
    let recordings = seen_on(s, day, false);
    let videos = seen_on(s, day, true);
    if recordings + videos == 0 {
        None
    } else {
        Some(MaterialCounts { recordings: recordings as u32, videos: videos as u32 })
    }
}

proof fn lemma_seen_on_bounded(s: Seq<(Option<Seq<char>>, bool)>, day: Seq<char>, video: bool)
    ensures
        seen_on(s, day, video) <= s.len(),
        undated(s) <= s.len(),
    decreases s.len(),
{
    if s.len() > 0 {
        lemma_seen_on_bounded(s.drop_last(), day, video);
    }
}

proof fn lemma_seen_on_witness(s: Seq<(Option<Seq<char>>, bool)>, day: Seq<char>, video: bool)
    requires
        seen_on(s, day, video) > 0,
    ensures
        exists|i: int| 0 <= i < s.len() && #[trigger] s[i].0 == Some(day),
    decreases s.len(),
{
    if s.last().0 == Some(day) && s.last().1 == video {
        assert(s[s.len() - 1].0 == Some(day));
    } else {
        lemma_seen_on_witness(s.drop_last(), day, video);
        let i = choose|i: int| 0 <= i < s.drop_last().len() && #[trigger] s.drop_last()[i].0 == Some(day);
        assert(s[i] == s.drop_last()[i]);
    }
}

/// The library by the day each item arrived, and how many items had no usable day.
#[derive(Debug)]
pub struct LibraryEvidence {
    pub days: DayMap<MaterialCounts>,
    pub dropped: u32,
}

impl LibraryEvidence {
    /// The earliest day anything arrived on.
    pub fn earliest(&self) -> (r: Option<&DayKey>)
        ensures
            match r {
                Some(k) => self.days.days().len() > 0 && k@ == self.days.days()[0],
                None => self.days.days().len() == 0,
            },
    {
        self.days.first_day()
    }

    /// The horizon this library sets: its earliest day.
    pub fn horizon(&self) -> (e: EvidenceFrom)
        ensures
            match e.library {
                Some(k) => self.days.days().len() > 0 && k@ == self.days.days()[0],
                None => self.days.days().len() == 0,
            },
    {
        match self.earliest() {
            Some(day) => EvidenceFrom { library: Some(day.copied()) },
            None => EvidenceFrom { library: None },
        }
    }
}

/// Counts each sighting once, on its day and as what it is; one without a day is dropped
/// and counted as dropped.
pub fn collect_sightings(seen: &[Sighting]) -> (e: LibraryEvidence)
    requires
        seen@.len() <= u32::MAX,
    ensures
        forall|k: Seq<char>| #[trigger] e.days.lookup(k) == material_on(sightings(seen@), k),
        e.dropped == undated(sightings(seen@)),
{
    let mut days: DayMap<MaterialCounts> = DayMap::new();
    let mut dropped: u32 = 0;
    let mut i: usize = 0;
    while i < seen.len()
        invariant
            i <= seen@.len() <= u32::MAX,
            forall|k: Seq<char>| #[trigger] days.lookup(k) == material_on(sightings(seen@.take(i as int)), k),
            dropped == undated(sightings(seen@.take(i as int))),
        decreases seen.len() - i,
    {
        let ghost before = sightings(seen@.take(i as int));
        let ghost after = sightings(seen@.take(i + 1));
        proof {
            assert(after.drop_last() =~= before);
            assert(after.last() == sighting_view(seen@[i as int]));
            lemma_seen_on_bounded(before, Seq::empty(), false);
            assert(before.len() == i);
        }
        match &seen[i].day {
            Some(day) => {
                proof {
                    lemma_seen_on_bounded(before, day@, false);
                    lemma_seen_on_bounded(before, day@, true);
                }
                let mut counts = match days.get(day) {
                    Some(c) => c,
                    None => MaterialCounts { recordings: 0, videos: 0 },
                };
                if seen[i].is_video {
                    counts.videos = counts.videos + 1;
                } else {
                    counts.recordings = counts.recordings + 1;
                }
                days.set(day.copied(), counts);
                proof {
                    assert forall|k: Seq<char>| #[trigger] days.lookup(k) == material_on(after, k) by {
                        if k != day@ {
                            assert(seen_on(after, k, false) == seen_on(before, k, false));
                            assert(seen_on(after, k, true) == seen_on(before, k, true));
                        }
                    }
                    assert(undated(after) == undated(before));
                }
            },
            None => {
                dropped = dropped + 1;
                proof {
                    assert forall|k: Seq<char>| #[trigger] days.lookup(k) == material_on(after, k) by {
                        assert(seen_on(after, k, false) == seen_on(before, k, false));
                        assert(seen_on(after, k, true) == seen_on(before, k, true));
                    }
                }
            },
        }
        i = i + 1;
    }
    assert(seen@.take(seen@.len() as int) =~= seen@);
    LibraryEvidence { days, dropped }
}

/// `day` where it is no later than `today`; a day after it is dropped rather than drawn.
pub fn usable(day: Option<DayKey>, today: &DayKey) -> (r: Option<DayKey>)
    ensures
        key_text(r) == match key_text(day) {
            Some(d) => if key_le(d, today@) {
                Some(d)
            } else {
                None
            },
            None => None,
        },
{
    match day {
        Some(d) => match d.compare(today) {
            KeyOrder::Greater => {
                proof {
                    super::day::lemma_key_lt_asymmetric(today@, d@);
                }
                None
            },
            _ => Some(d),
        },
        None => None,
    }
}

/// `day` is what a stamp is seen as, as far as the clock lets it be said: the local date of
/// the instant `DAY_ROLLOVER_HOUR` hours before the stamp, which lies within a day of that
/// instant's UTC date, kept only where it is no later than `today`.
pub open spec fn dated_as(stamp: u64, day: Option<Seq<char>>, today: Seq<char>) -> bool {
    exists|d: Seq<char>|
        #[trigger] names_local_date_of(d, stamp - ROLLOVER_MS) && day == (if key_le(d, today) {
            Some(d)
        } else {
            None
        })
}

/// What one stamp can be seen as: never a day for a stamp of zero (an unreadable date) or
/// one past the signed range, never a day after `today`, and for a stamp up to the end of
/// the year 9999 the day it is dated as.
pub open spec fn fits_stamp(stamp: u64, day: Option<Seq<char>>, today: Seq<char>) -> bool {
    &&& (stamp == 0 || stamp > i64::MAX) ==> day is None
    &&& day matches Some(d) ==> key_le(d, today)
    &&& 0 < stamp <= LAST_DATED_MS ==> dated_as(stamp, day, today)
}

/// The day a millisecond stamp falls on, where it is usable: never for a stamp of zero (an
/// unreadable date), never after `today`. Which of the dates within a day of it that is
/// depends on the machine's time zone.
pub fn usable_day(stamp: u64, today: &DayKey) -> (r: Option<DayKey>)
    ensures
        fits_stamp(stamp, key_text(r), today@),
{
    if stamp == 0 {
        return None;
    }
    let day = day_key_for_ms(stamp);
    let r = usable(day, today);
    proof {
        if stamp <= LAST_DATED_MS {
            let d = day->Some_0@;
            assert(names_local_date_of(d, stamp - ROLLOVER_MS));
            assert(key_text(r) == (if key_le(d, today@) { Some(d) } else { None }));
        }
        if key_text(r) is Some {
            assert(key_le(key_text(r)->Some_0, today@));
        }
    }
    r
}

/// `s` is the library seen item by item: each recording stamp, then each video stamp, in
/// order, as what it is and on a day it can be seen on.
pub open spec fn seen_from_stamps(
    s: Seq<(Option<Seq<char>>, bool)>,
    recording_stamps: Seq<u64>,
    video_stamps: Seq<u64>,
    today: Seq<char>,
) -> bool {
    &&& s.len() == recording_stamps.len() + video_stamps.len()
    &&& forall|i: int|
        0 <= i < recording_stamps.len() ==> !(#[trigger] s[i]).1 && fits_stamp(
            recording_stamps[i],
            s[i].0,
            today,
        )
    &&& forall|i: int|
        0 <= i < video_stamps.len() ==> (#[trigger] s[recording_stamps.len() + i]).1 && fits_stamp(
            video_stamps[i],
            s[recording_stamps.len() + i].0,
            today,
        )
}

/// The library's evidence from the stamps its recordings were made at and its videos were
/// added at: each stamp is counted once, as a recording or a video, on the day the clock
/// assigns it, or among the dropped where it has no usable day. Which day that is depends
/// on the machine's time zone; no day after `today` is counted, and a stamp of zero never is.
pub fn collect(recording_stamps: &[u64], video_stamps: &[u64], today: &DayKey) -> (e: LibraryEvidence)
    requires
        recording_stamps@.len() + video_stamps@.len() <= u32::MAX,
    ensures
        exists|s: Seq<(Option<Seq<char>>, bool)>|
            seen_from_stamps(s, recording_stamps@, video_stamps@, today@) && (forall|k: Seq<char>|
                #[trigger] e.days.lookup(k) == material_on(s, k)) && e.dropped == undated(s),
        forall|k: Seq<char>| #[trigger] e.days.lookup(k) is Some ==> key_le(k, today@),
{
    let mut seen: Vec<Sighting> = Vec::new();
    let mut i: usize = 0;
    while i < recording_stamps.len()
        invariant
            i <= recording_stamps@.len(),
            seen@.len() == i,
            forall|j: int|
                0 <= j < seen@.len() ==> !(#[trigger] seen@[j]).is_video && fits_stamp(
                    recording_stamps@[j],
                    key_text(seen@[j].day),
                    today@,
                ),
        decreases recording_stamps.len() - i,
    {
        seen.push(Sighting { day: usable_day(recording_stamps[i], today), is_video: false });
        i = i + 1;
    }
    let n = recording_stamps.len();
    let mut j: usize = 0;
    while j < video_stamps.len()
        invariant
            n == recording_stamps@.len(),
            j <= video_stamps@.len(),
            seen@.len() == n + j,
            forall|x: int|
                0 <= x < n ==> !(#[trigger] seen@[x]).is_video && fits_stamp(
                    recording_stamps@[x],
                    key_text(seen@[x].day),
                    today@,
                ),
            forall|x: int|
                0 <= x < j ==> (#[trigger] seen@[n + x]).is_video && fits_stamp(
                    video_stamps@[x],
                    key_text(seen@[n + x].day),
                    today@,
                ),
        decreases video_stamps.len() - j,
    {
        seen.push(Sighting { day: usable_day(video_stamps[j], today), is_video: true });
        proof {
            assert(seen@[n + j] == seen@[seen@.len() - 1]);
        }
        j = j + 1;
    }
    let e = collect_sightings(seen.as_slice());
    proof {
        let s = sightings(seen@);
        assert forall|x: int| 0 <= x < s.len() implies #[trigger] s[x] == sighting_view(seen@[x]) by {}
        assert(seen_from_stamps(s, recording_stamps@, video_stamps@, today@)) by {
            assert forall|x: int| 0 <= x < recording_stamps@.len() implies !(#[trigger] s[x]).1
                && fits_stamp(recording_stamps@[x], s[x].0, today@) by {
                assert(s[x] == sighting_view(seen@[x]));
            }
            assert forall|x: int| 0 <= x < video_stamps@.len() implies (#[trigger] s[
                recording_stamps@.len() + x]).1 && fits_stamp(
                video_stamps@[x],
                s[recording_stamps@.len() + x].0,
                today@,
            ) by {
                assert(s[n + x] == sighting_view(seen@[n + x]));
            }
        }
        assert forall|k: Seq<char>| #[trigger] e.days.lookup(k) is Some implies key_le(k, today@) by {
            if seen_on(s, k, false) > 0 {
                lemma_seen_on_witness(s, k, false);
            } else {
                lemma_seen_on_witness(s, k, true);
            }
            let x = choose|x: int| 0 <= x < s.len() && #[trigger] s[x].0 == Some(k);
            assert(s[x] == sighting_view(seen@[x]));
            if x < n {
                assert(fits_stamp(recording_stamps@[x], s[x].0, today@));
            } else {
                assert(s[n + (x - n)] == s[x]);
                assert(fits_stamp(video_stamps@[x - n], s[n + (x - n)].0, today@));
            }
        }
    }
    e
}

} // verus!
