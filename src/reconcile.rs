//! Reconciliation: the values of a lookup store, found by index without regard
//! to ASCII case, overwrite the title, artist and label code of each record.

use vstd::prelude::*;
use crate::model::{
    TrackInfo, TrackModel, SourceCollection, CollectionModel, tracks_view, entries_view,
};

verus! {

/// One row of the lookup store.
pub struct StoreRow {
    pub index: String,
    pub titel: String,
    pub kuenstler: String,
    pub label_code: String,
}

/// The mathematical value of a `StoreRow`.
pub struct RowModel {
    pub index: Seq<char>,
    pub titel: Seq<char>,
    pub kuenstler: Seq<char>,
    pub label_code: Seq<char>,
}

impl View for StoreRow {
    type V = RowModel;

    open spec fn view(&self) -> RowModel {
        RowModel {
            index: self.index@,
            titel: self.titel@,
            kuenstler: self.kuenstler@,
            label_code: self.label_code@,
        }
    }
}

/// The rows of a lookup store, in the order in which they are searched.
pub struct RowStore {
    pub rows: Vec<StoreRow>,
}

impl View for RowStore {
    type V = Seq<RowModel>;

    open spec fn view(&self) -> Seq<RowModel> {
        self.rows@.map_values(|r: StoreRow| r@)
    }
}

/// Two characters that are equal once ASCII upper case is lowered.
pub open spec fn same_char_ascii_ci(a: char, b: char) -> bool {
    a == b || ('A' <= a && a <= 'Z' && b as u32 == a as u32 + 32) || ('A' <= b && b <= 'Z' && a as u32
        == b as u32 + 32)
}

/// Two texts that are equal once ASCII upper case is lowered.
pub open spec fn same_index(a: Seq<char>, b: Seq<char>) -> bool {
    a.len() == b.len() && forall|i: int| 0 <= i < a.len() ==> same_char_ascii_ci(a[i], b[i])
}

/// The position of the first row whose index is `index` (see `same_index`), or
/// the number of rows when there is none.
pub open spec fn row_position(rows: Seq<RowModel>, index: Seq<char>) -> int
    decreases rows.len(),
{
    if rows.len() == 0 || same_index(rows[0].index, index) {
        0
    } else {
        1 + row_position(rows.drop_first(), index)
    }
}

/// The row that a lookup of `index` finds, if any.
pub open spec fn lookup(rows: Seq<RowModel>, index: Seq<char>) -> Option<RowModel> {
    let k = row_position(rows, index);
    if 0 <= k < rows.len() {
        Some(rows[k])
    } else {
        None
    }
}

/// A record after reconciliation: on a hit, the row's title, artist and label
/// code replace the record's; index and duration stay.
pub open spec fn reconciled_track(t: TrackModel, rows: Seq<RowModel>) -> TrackModel {
    match lookup(rows, t.index) {
        Some(r) => TrackModel { titel: r.titel, kuenstler: r.kuenstler, label_code: r.label_code, ..t },
        None => t,
    }
}

/// A collection with every record reconciled, sources and order unchanged.
pub open spec fn reconciled(c: CollectionModel, rows: Seq<RowModel>) -> CollectionModel {
    c.map_values(
        |e: (Seq<char>, Seq<TrackModel>)|
            (e.0, e.1.map_values(|t: TrackModel| reconciled_track(t, rows))),
    )
}

fn same_char(a: char, b: char) -> (r: bool)
    ensures
        r == same_char_ascii_ci(a, b),
{
    a == b || ('A' <= a && a <= 'Z' && b as u32 == a as u32 + 32) || ('A' <= b && b <= 'Z' && a as u32
        == b as u32 + 32)
}

/// Whether two indexes are equal once ASCII upper case is lowered.
pub fn index_matches(a: &Vec<char>, b: &Vec<char>) -> (r: bool)
    ensures
        r == same_index(a@, b@),
{
    if a.len() != b.len() {
        return false;
    }
    let mut i: usize = 0;
    while i < a.len()
        invariant
            a@.len() == b@.len(),
            i <= a@.len(),
            forall|j: int| 0 <= j < i ==> same_char_ascii_ci(a@[j], b@[j]),
        decreases a@.len() - i,
    {
        if !same_char(a[i], b[i]) {
            return false;
        }
        i = i + 1;
    }
    true
}

proof fn lemma_row_position(rows: Seq<RowModel>, index: Seq<char>, k: int)
    requires
        0 <= k <= rows.len(),
        forall|i: int| 0 <= i < k ==> !same_index(#[trigger] rows[i].index, index),
        k < rows.len() ==> same_index(rows[k].index, index),
    ensures
        row_position(rows, index) == k,
    decreases rows.len(),
{
    if k > 0 {
        assert forall|i: int| 0 <= i < k - 1 implies !same_index(
            #[trigger] rows.drop_first()[i].index,
            index,
        ) by {
            assert(!same_index(rows[i + 1].index, index));
        }
        lemma_row_position(rows.drop_first(), index, k - 1);
    }
}

impl RowStore {
    /// The row whose index is `index` without regard to ASCII case; the first
    /// such row where there are several.
    pub fn lookup_by_index(&self, index: &str) -> (r: Option<&StoreRow>)
        ensures
            match r {
                Some(row) => lookup(self@, index@) == Some(row@),
                None => lookup(self@, index@) is None,
            },
    {
        let key = crate::text::chars_of(index);
        let mut k: usize = 0;
        while k < self.rows.len()
            invariant
                key@ == index@,
                k <= self.rows@.len(),
                forall|i: int| 0 <= i < k ==> !same_index(#[trigger] self@[i].index, index@),
            decreases self.rows@.len() - k,
        {
            let ri = crate::text::chars_of(self.rows[k].index.as_str());
            if index_matches(&ri, &key) {
                proof {
                    lemma_row_position(self@, index@, k as int);
                }
                return Some(&self.rows[k]);
            }
            k = k + 1;
        }
        proof {
            lemma_row_position(self@, index@, k as int);
        }
        None
    }
}

/// A record reconciled against the store (see `reconciled_track`).
pub fn reconcile_track(t: &TrackInfo, store: &RowStore) -> (r: TrackInfo)
    ensures
        r@ == reconciled_track(t@, store@),
{
    match store.lookup_by_index(t.index.as_str()) {
        Some(row) => TrackInfo {
            index: t.index.clone(),
            titel: row.titel.clone(),
            kuenstler: row.kuenstler.clone(),
            duration: t.duration,
            label_code: row.label_code.clone(),
        },
        None => TrackInfo {
            index: t.index.clone(),
            titel: t.titel.clone(),
            kuenstler: t.kuenstler.clone(),
            duration: t.duration,
            label_code: t.label_code.clone(),
        },
    }
}

/// Reconciles every record of the collection against the store, one lookup per
/// record (see `reconciled`).
pub fn reconcile(c: &SourceCollection, store: &RowStore) -> (r: SourceCollection)
    ensures
        r@ == reconciled(c@, store@),
{
    let mut entries: Vec<(String, Vec<TrackInfo>)> = Vec::new();
    let mut k: usize = 0;
    while k < c.entries.len()
        invariant
            k <= c.entries@.len(),
            entries_view(entries@) == reconciled(c@, store@).subrange(0, k as int),
        decreases c.entries@.len() - k,
    {
        let src = &c.entries[k].1;
        let mut ts: Vec<TrackInfo> = Vec::new();
        let mut j: usize = 0;
        while j < src.len()
            invariant
                j <= src@.len(),
                src@ == c.entries@[k as int].1@,
                tracks_view(ts@) == tracks_view(src@).subrange(0, j as int).map_values(
                    |t: TrackModel| reconciled_track(t, store@),
                ),
            decreases src@.len() - j,
        {
            let t = reconcile_track(&src[j], store);
            let ghost before = ts@;
            ts.push(t);
            proof {
                assert(tracks_view(src@)[j as int] == src@[j as int]@);
                assert(tracks_view(ts@) =~= tracks_view(before).push(t@));
                assert(tracks_view(ts@) =~= tracks_view(src@).subrange(0, j + 1).map_values(
                    |t: TrackModel| reconciled_track(t, store@),
                ));
            }
            j = j + 1;
        }
        proof {
            assert(tracks_view(src@).subrange(0, src@.len() as int) =~= tracks_view(src@));
        }
        let ghost before = entries@;
        let path = c.entries[k].0.clone();
        let ghost pv = (path@, tracks_view(ts@));
        entries.push((path, ts));
        proof {
            assert(c@[k as int] == (c.entries@[k as int].0@, tracks_view(src@)));
            assert(reconciled(c@, store@)[k as int] == pv);
            assert(entries_view(entries@) =~= entries_view(before).push(pv));
            assert(entries_view(entries@) =~= reconciled(c@, store@).subrange(0, k + 1));
        }
        k = k + 1;
    }
    let r = SourceCollection { entries };
    proof {
        assert(reconciled(c@, store@).subrange(0, c.entries@.len() as int) =~= reconciled(c@, store@));
    }
    r
}

/// Reconciliation keeps the sources, the number and order of records, and each
/// record's index and duration; a record that the store lacks stays as it was.
pub proof fn lemma_reconcile_keeps(c: CollectionModel, rows: Seq<RowModel>)
    ensures
        reconciled(c, rows).len() == c.len(),
        forall|k: int|
            0 <= k < c.len() ==> (#[trigger] reconciled(c, rows)[k]).0 == c[k].0
                && reconciled(c, rows)[k].1.len() == c[k].1.len(),
        forall|k: int, j: int|
            0 <= k < c.len() && 0 <= j < c[k].1.len() ==> {
                let t = c[k].1[j];
                let r = #[trigger] reconciled(c, rows)[k].1[j];
                &&& r.index == t.index
                &&& r.duration == t.duration
                &&& lookup(rows, t.index) is None ==> r == t
            },
{
}

} // verus!
