//! Track records, the merge of a new record into a source's list, and the
//! collection of lists per source.

use vstd::prelude::*;
use crate::duration::TrackDuration;

verus! {

/// One track: catalogue index, title, artist, duration once known, and label
/// code (empty while unresolved).
pub struct TrackInfo {
    pub index: String,
    pub titel: String,
    pub kuenstler: String,
    pub duration: Option<TrackDuration>,
    pub label_code: String,
}

/// The mathematical value of a `TrackInfo`.
pub struct TrackModel {
    pub index: Seq<char>,
    pub titel: Seq<char>,
    pub kuenstler: Seq<char>,
    pub duration: Option<TrackDuration>,
    pub label_code: Seq<char>,
}

impl View for TrackInfo {
    type V = TrackModel;

    open spec fn view(&self) -> TrackModel {
        TrackModel {
            index: self.index@,
            titel: self.titel@,
            kuenstler: self.kuenstler@,
            duration: self.duration,
            label_code: self.label_code@,
        }
    }
}

/// The models of a list of tracks.
pub open spec fn tracks_view(v: Seq<TrackInfo>) -> Seq<TrackModel> {
    v.map_values(|t: TrackInfo| t@)
}

/// Two records stand for the same track: equal index, title and artist.
pub open spec fn same_key(a: TrackModel, b: TrackModel) -> bool {
    a.index == b.index && a.titel == b.titel && a.kuenstler == b.kuenstler
}

/// The position of the first record in `ts` with the key of `t`, or the length of
/// `ts` when there is none.
pub open spec fn key_position(ts: Seq<TrackModel>, t: TrackModel) -> int
    decreases ts.len(),
{
    if ts.len() == 0 || same_key(ts[0], t) {
        0
    } else {
        1 + key_position(ts.drop_first(), t)
    }
}

/// The sum of two durations, an absent one counting as zero, capped at the
/// largest value the type holds.
pub open spec fn sum_durations(a: Option<TrackDuration>, b: Option<TrackDuration>) -> TrackDuration {
    let x: int = match a {
        Some(d) => d.micros as int,
        None => 0,
    };
    let y: int = match b {
        Some(d) => d.micros as int,
        None => 0,
    };
    TrackDuration { micros: if x + y <= u64::MAX { (x + y) as u64 } else { u64::MAX } }
}

/// `ts` after taking in the new record `t`: a record with the same key gets the
/// sum of both durations, otherwise `t` goes at the end.
pub open spec fn merged(ts: Seq<TrackModel>, t: TrackModel) -> Seq<TrackModel> {
    let k = key_position(ts, t);
    if 0 <= k < ts.len() {
        ts.update(k, TrackModel { duration: Some(sum_durations(ts[k].duration, t.duration)), ..ts[k] })
    } else {
        ts.push(t)
    }
}

proof fn lemma_key_position(ts: Seq<TrackModel>, t: TrackModel, k: int)
    requires
        0 <= k <= ts.len(),
        forall|i: int| 0 <= i < k ==> !same_key(ts[i], t),
        k < ts.len() ==> same_key(ts[k], t),
    ensures
        key_position(ts, t) == k,
    decreases ts.len(),
{
    if k > 0 {
        assert forall|i: int| 0 <= i < k - 1 implies !same_key(ts.drop_first()[i], t) by {
            assert(!same_key(ts[i + 1], t));
        }
        lemma_key_position(ts.drop_first(), t, k - 1);
    }
}

fn add_durations(a: Option<TrackDuration>, b: Option<TrackDuration>) -> (r: TrackDuration)
    ensures
        r == sum_durations(a, b),
{
    let x: u64 = match a {
        Some(d) => d.micros,
        None => 0,
    };
    let y: u64 = match b {
        Some(d) => d.micros,
        None => 0,
    };
    TrackDuration { micros: x.saturating_add(y) }
}

/// Takes a new record into a source's list: where a record with the same index,
/// title and artist is there, its duration becomes the sum of both; otherwise the
/// record is appended.
pub fn merge_track(tracks: &mut Vec<TrackInfo>, track: TrackInfo)
    ensures
        tracks_view(final(tracks)@) == merged(tracks_view(old(tracks)@), track@),
{
    let ghost ts = tracks_view(tracks@);
    let mut k: usize = 0;
    while k < tracks.len()
        invariant
            ts == tracks_view(tracks@),
            ts == tracks_view(old(tracks)@),
            k <= tracks@.len(),
            forall|i: int| 0 <= i < k ==> !same_key(ts[i], track@),
        decreases tracks@.len() - k,
    {
        if tracks[k].index == track.index && tracks[k].titel == track.titel && tracks[k].kuenstler
            == track.kuenstler {
            proof {
                assert(same_key(ts[k as int], track@));
                lemma_key_position(ts, track@, k as int);
            }
            let d = add_durations(tracks[k].duration, track.duration);
            tracks[k].duration = Some(d);
            proof {
                assert(tracks_view(tracks@) =~= merged(ts, track@));
            }
            return;
        }
        k = k + 1;
    }
    proof {
        lemma_key_position(ts, track@, k as int);
    }
    tracks.push(track);
    proof {
        assert(tracks_view(tracks@) =~= ts.push(track@));
    }
}

/// A record whose key is new goes at the end, and the records before keep their
/// order.
pub proof fn lemma_merge_new_key(ts: Seq<TrackModel>, t: TrackModel)
    requires
        forall|i: int| 0 <= i < ts.len() ==> !same_key(#[trigger] ts[i], t),
    ensures
        merged(ts, t) == ts.push(t),
{
    lemma_key_position(ts, t, ts.len() as int);
}

/// A record whose key is that of the record at `k` (and of no other) merges into
/// it: the list keeps its length, and that record's duration becomes the sum.
pub proof fn lemma_merge_same_key(ts: Seq<TrackModel>, t: TrackModel, k: int)
    requires
        0 <= k < ts.len(),
        same_key(ts[k], t),
        forall|i: int| 0 <= i < ts.len() && i != k ==> !same_key(#[trigger] ts[i], t),
    ensures
        merged(ts, t).len() == ts.len(),
        merged(ts, t)[k].duration == Some(sum_durations(ts[k].duration, t.duration)),
        same_key(merged(ts, t)[k], t),
        forall|i: int| 0 <= i < ts.len() && i != k ==> #[trigger] merged(ts, t)[i] == ts[i],
{
    lemma_key_position(ts, t, k);
}

/// The model of a collection: per source, its path and its records, in the
/// order in which the sources first received a record.
pub type CollectionModel = Seq<(Seq<char>, Seq<TrackModel>)>;

/// The records of each source, one entry per source path.
pub struct SourceCollection {
    pub entries: Vec<(String, Vec<TrackInfo>)>,
}

/// The model of a list of collection entries.
pub open spec fn entries_view(e: Seq<(String, Vec<TrackInfo>)>) -> CollectionModel {
    e.map_values(|e: (String, Vec<TrackInfo>)| (e.0@, tracks_view(e.1@)))
}

impl View for SourceCollection {
    type V = CollectionModel;

    open spec fn view(&self) -> CollectionModel {
        entries_view(self.entries@)
    }
}

/// The position of the entry of `path` in `c`, or the length of `c` when there is none.
pub open spec fn source_position(c: CollectionModel, path: Seq<char>) -> int
    decreases c.len(),
{
    if c.len() == 0 || c[0].0 == path {
        0
    } else {
        1 + source_position(c.drop_first(), path)
    }
}

/// `c` after the record `t` of the source `path` is taken in (see `merged`); a
/// source's entry comes with its first record.
pub open spec fn add_to_source(c: CollectionModel, path: Seq<char>, t: TrackModel) -> CollectionModel {
    let k = source_position(c, path);
    if 0 <= k < c.len() {
        c.update(k, (path, merged(c[k].1, t)))
    } else {
        c.push((path, seq![t]))
    }
}

proof fn lemma_source_position(c: CollectionModel, path: Seq<char>, k: int)
    requires
        0 <= k <= c.len(),
        forall|i: int| 0 <= i < k ==> c[i].0 != path,
        k < c.len() ==> c[k].0 == path,
    ensures
        source_position(c, path) == k,
    decreases c.len(),
{
    if k > 0 {
        assert forall|i: int| 0 <= i < k - 1 implies c.drop_first()[i].0 != path by {
            assert(c[i + 1].0 != path);
        }
        lemma_source_position(c.drop_first(), path, k - 1);
    }
}

impl SourceCollection {
    /// A collection with no sources.
    pub fn new() -> (r: SourceCollection)
        ensures
            r@ == CollectionModel::empty(),
    {
        let r = SourceCollection { entries: Vec::new() };
        assert(r@ =~= CollectionModel::empty());
        r
    }

    /// Takes in a record of the source `path` (see `add_to_source`).
    pub fn add_track(&mut self, path: &String, track: TrackInfo)
        ensures
            final(self)@ == add_to_source(old(self)@, path@, track@),
    {
        let ghost c = self@;
        let mut k: usize = 0;
        while k < self.entries.len()
            invariant
                c == self@,
                c == old(self)@,
                k <= self.entries@.len(),
                forall|i: int| 0 <= i < k ==> c[i].0 != path@,
            decreases self.entries@.len() - k,
        {
            if self.entries[k].0 == *path {
                proof {
                    assert(c[k as int].0 == path@);
                    lemma_source_position(c, path@, k as int);
                }
                merge_track(&mut self.entries[k].1, track);
                proof {
                    assert(self@ =~= add_to_source(c, path@, track@));
                }
                return;
            }
            k = k + 1;
        }
        proof {
            lemma_source_position(c, path@, k as int);
        }
        let mut v: Vec<TrackInfo> = Vec::new();
        v.push(track);
        self.entries.push((path.clone(), v));
        proof {
            assert(tracks_view(v@) =~= seq![track@]);
            assert(self@ =~= c.push((path@, seq![track@])));
        }
    }

    /// The records of the source `path`, if it has any.
    pub fn tracks_of(&self, path: &String) -> (r: Option<&Vec<TrackInfo>>)
        ensures
            match r {
                Some(v) => {
                    let k = source_position(self@, path@);
                    0 <= k < self@.len() && tracks_view(v@) == self@[k].1
                },
                None => source_position(self@, path@) == self@.len(),
            },
    {
        let mut k: usize = 0;
        while k < self.entries.len()
            invariant
                k <= self.entries@.len(),
                forall|i: int| 0 <= i < k ==> self@[i].0 != path@,
            decreases self.entries@.len() - k,
        {
            if self.entries[k].0 == *path {
                proof {
                    lemma_source_position(self@, path@, k as int);
                }
                return Some(&self.entries[k].1);
            }
            k = k + 1;
        }
        proof {
            lemma_source_position(self@, path@, k as int);
        }
        None
    }
}

} // verus!
