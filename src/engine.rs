//! The engine: the list of input files, the label-code table, and the records
//! and diagnostics of the last pass, with the operations that change them.

use vstd::prelude::*;
use crate::duration::{TrackDuration, duration_text};
use crate::labels::LabelTable;
use crate::model::{TrackInfo, TrackModel, SourceCollection, CollectionModel, tracks_view};
use crate::pass::{
    Diagnostic, DiagnosticKind, DiagnosticModel, NameStrategy, diag, diags_view,
    parse_pass, parse_sources, strings_view, texts_view,
};
use crate::reconcile::{RowStore, RowModel, reconciled, reconcile};

verus! {

/// The state of the engine.
pub struct GemaLauncherApp {
    /// The input files, in the order in which they were added, each once.
    pub filenames: Vec<String>,
    /// Which input files are marked for removal, by position.
    pub selected_files: Vec<bool>,
    pub label_dict: LabelTable,
    /// How plain file names are read.
    pub name_strategy: NameStrategy,
    /// The records of the last pass, per source.
    pub tracks_per_file: SourceCollection,
    /// What the last pass skipped, in order.
    pub diagnostics: Vec<Diagnostic>,
}

/// The mathematical value of the engine.
pub struct AppModel {
    pub filenames: Seq<Seq<char>>,
    pub selected: Seq<bool>,
    pub table: Seq<(Seq<char>, Seq<char>)>,
    pub how: NameStrategy,
    pub tracks: CollectionModel,
    pub diagnostics: Seq<DiagnosticModel>,
}

impl View for GemaLauncherApp {
    type V = AppModel;

    open spec fn view(&self) -> AppModel {
        AppModel {
            filenames: strings_view(self.filenames@),
            selected: self.selected_files@,
            table: self.label_dict@,
            how: self.name_strategy,
            tracks: self.tracks_per_file@,
            diagnostics: diags_view(self.diagnostics@),
        }
    }
}

/// `a` after a parse pass with the texts `texts`: records and diagnostics are
/// replaced by those of a pass over the input files.
pub open spec fn after_parse(a: AppModel, texts: Seq<Option<Seq<char>>>) -> AppModel {
    let st = parse_pass(a.filenames, texts, a.table, a.how);
    AppModel { tracks: st.tracks, diagnostics: st.diagnostics, ..a }
}

/// `a` after reconciliation: with a store, every record is reconciled; without
/// one, the records stay and a diagnostic says so.
pub open spec fn after_reconcile(a: AppModel, store: Option<Seq<RowModel>>) -> AppModel {
    match store {
        Some(rows) => AppModel { tracks: reconciled(a.tracks, rows), ..a },
        None => AppModel {
            diagnostics: a.diagnostics.push(diag(DiagnosticKind::StoreUnreachable, seq![])),
            ..a
        },
    }
}

/// A full pass: parse, then reconcile.
pub open spec fn full_pass(
    a: AppModel,
    texts: Seq<Option<Seq<char>>>,
    store: Option<Seq<RowModel>>,
) -> AppModel {
    after_reconcile(after_parse(a, texts), store)
}

/// The model of an optional store.
pub open spec fn store_view(store: Option<&RowStore>) -> Option<Seq<RowModel>> {
    match store {
        Some(s) => Some(s@),
        None => None,
    }
}

/// Whether the file at position `i` is marked.
pub open spec fn is_selected(sel: Seq<bool>, i: int) -> bool {
    0 <= i < sel.len() && sel[i]
}

/// The files of `names` that are not marked, in order.
pub open spec fn unselected(names: Seq<Seq<char>>, sel: Seq<bool>) -> Seq<Seq<char>>
    decreases names.len(),
{
    if names.len() == 0 {
        seq![]
    } else {
        let rest = unselected(names.drop_last(), sel);
        if is_selected(sel, names.len() - 1) {
            rest
        } else {
            rest.push(names.last())
        }
    }
}

/// One CSV row of a record: index, title, artist, duration and label code,
/// separated by commas; an absent duration is an empty field.
pub open spec fn csv_row(t: TrackModel) -> Seq<char> {
    let d = match t.duration {
        Some(d) => duration_text(d),
        None => seq![],
    };
    t.index + seq![','] + t.titel + seq![','] + t.kuenstler + seq![','] + d + seq![','] + t.label_code
}

/// The CSV text of a source: a header line, then a line per record, each line
/// ending in a newline.
pub open spec fn csv_text(ts: Seq<TrackModel>) -> Seq<char>
    decreases ts.len(),
{
    if ts.len() == 0 {
        "Index,Titel,Künstler,Dauer,Labelcode\n"@
    } else {
        csv_text(ts.drop_last()) + csv_row(ts.last()) + seq!['\n']
    }
}

/// Appends `s` to `out`.
fn push_str(out: &mut String, s: &String)
    ensures
        final(out)@ == old(out)@ + s@,
{
    out.append(s.as_str());
}

impl GemaLauncherApp {
    /// An engine with no files, no records and the table `label_dict`, reading
    /// plain file names word by word.
    pub fn new(label_dict: LabelTable) -> (r: GemaLauncherApp)
        ensures
            r@ == (AppModel {
                filenames: seq![],
                selected: seq![],
                table: label_dict@,
                how: NameStrategy::Tokens,
                tracks: seq![],
                diagnostics: seq![],
            }),
    {
        let r = GemaLauncherApp {
            filenames: Vec::new(),
            selected_files: Vec::new(),
            label_dict,
            name_strategy: NameStrategy::Tokens,
            tracks_per_file: SourceCollection::new(),
            diagnostics: Vec::new(),
        };
        assert(r@.filenames =~= Seq::<Seq<char>>::empty());
        assert(r@.diagnostics =~= Seq::<DiagnosticModel>::empty());
        r
    }

    /// Adds a file unless it is in the list already; a new file is not marked.
    pub fn add_file(&mut self, path: String)
        ensures
            old(self)@.filenames.contains(path@) ==> final(self)@ == old(self)@,
            !old(self)@.filenames.contains(path@) ==> final(self)@ == (AppModel {
                filenames: old(self)@.filenames.push(path@),
                selected: old(self)@.selected.push(false),
                ..old(self)@
            }),
    {
        let ghost names = self@.filenames;
        let mut i: usize = 0;
        while i < self.filenames.len()
            invariant
                i <= self.filenames@.len(),
                names == strings_view(self.filenames@),
                forall|j: int| 0 <= j < i ==> names[j] != path@,
            decreases self.filenames@.len() - i,
        {
            if self.filenames[i] == path {
                proof {
                    assert(names[i as int] == path@);
                }
                return;
            }
            i = i + 1;
        }
        proof {
            if names.contains(path@) {
                let j = choose|j: int| 0 <= j < names.len() && names[j] == path@;
                assert(names[j] != path@);
            }
        }
        self.filenames.push(path);
        self.selected_files.push(false);
        assert(strings_view(self.filenames@) =~= names.push(path@));
    }

    /// Removes the marked files; the rest keep their order and are unmarked.
    /// Records stay until the next pass.
    pub fn delete_selected_files(&mut self)
        ensures
            final(self)@ == (AppModel {
                filenames: unselected(old(self)@.filenames, old(self)@.selected),
                selected: Seq::new(
                    unselected(old(self)@.filenames, old(self)@.selected).len(),
                    |i: int| false,
                ),
                ..old(self)@
            }),
    {
        let ghost names = self@.filenames;
        let ghost sel = self@.selected;
        let mut kept: Vec<String> = Vec::new();
        let mut marks: Vec<bool> = Vec::new();
        let mut i: usize = 0;
        while i < self.filenames.len()
            invariant
                i <= self.filenames@.len(),
                names == strings_view(self.filenames@),
                sel == self.selected_files@,
                strings_view(kept@) == unselected(names.subrange(0, i as int), sel),
                marks@ == Seq::new(kept@.len(), |j: int| false),
            decreases self.filenames@.len() - i,
        {
            proof {
                let q = names.subrange(0, i + 1);
                assert(q.drop_last() =~= names.subrange(0, i as int));
                assert(q.last() == self.filenames@[i as int]@);
            }
            let marked = i < self.selected_files.len() && self.selected_files[i];
            if !marked {
                let ghost before = kept@;
                kept.push(self.filenames[i].clone());
                marks.push(false);
                proof {
                    assert(strings_view(kept@) =~= strings_view(before).push(
                        self.filenames@[i as int]@,
                    ));
                    assert(marks@ =~= Seq::new(kept@.len(), |j: int| false));
                }
            }
            i = i + 1;
        }
        proof {
            assert(names.subrange(0, names.len() as int) =~= names);
        }
        self.filenames = kept;
        self.selected_files = marks;
    }

    /// Removes every file and every record.
    pub fn delete_all_files(&mut self)
        ensures
            final(self)@ == (AppModel {
                filenames: seq![],
                selected: seq![],
                tracks: seq![],
                ..old(self)@
            }),
    {
        self.filenames = Vec::new();
        self.selected_files = Vec::new();
        self.tracks_per_file = SourceCollection::new();
        assert(strings_view(self.filenames@) =~= Seq::<Seq<char>>::empty());
    }

    /// Reconciles every record against the store; without a store, the records
    /// stay and a diagnostic is noted (see `after_reconcile`).
    pub fn apply_database_info(&mut self, store: Option<&RowStore>)
        ensures
            final(self)@ == after_reconcile(old(self)@, store_view(store)),
    {
        match store {
            Some(s) => {
                self.tracks_per_file = reconcile(&self.tracks_per_file, s);
            },
            None => {
                let ghost before = self.diagnostics@;
                self.diagnostics.push(
                    Diagnostic { kind: DiagnosticKind::StoreUnreachable, subject: String::new() },
                );
                proof {
                    assert(diags_view(self.diagnostics@) =~= diags_view(before).push(
                        diag(DiagnosticKind::StoreUnreachable, seq![]),
                    ));
                }
            },
        }
    }

    /// A full pass: the records are parsed anew from the input files, with the
    /// texts `texts` (see `parse_all_files`), then reconciled against the store.
    pub fn parse_filenames(&mut self, texts: &Vec<Option<String>>, store: Option<&RowStore>)
        ensures
            final(self)@ == full_pass(old(self)@, texts_view(texts@), store_view(store)),
    {
        parse_all_files(self, texts);
        self.apply_database_info(store);
    }

    /// A duration as `seconds:hundredths` (see `duration_text`).
    pub fn format_duration(&self, d: TrackDuration) -> (r: String)
        ensures
            r@ == duration_text(d),
    {
        d.format_duration()
    }

    /// The messages of the diagnostics, in order.
    pub fn error_messages(&self) -> (r: Vec<String>)
        ensures
            r@.len() == self.diagnostics@.len(),
            forall|i: int|
                0 <= i < r@.len() ==> (#[trigger] r@[i])@ == crate::pass::kind_text(
                    self.diagnostics@[i].kind,
                ) + self.diagnostics@[i].subject@,
    {
        let mut r: Vec<String> = Vec::new();
        let mut i: usize = 0;
        while i < self.diagnostics.len()
            invariant
                i <= self.diagnostics@.len(),
                r@.len() == i,
                forall|j: int|
                    0 <= j < i ==> (#[trigger] r@[j])@ == crate::pass::kind_text(
                        self.diagnostics@[j].kind,
                    ) + self.diagnostics@[j].subject@,
            decreases self.diagnostics@.len() - i,
        {
            r.push(self.diagnostics[i].message());
            i = i + 1;
        }
        r
    }

    /// The index of every record, source by source, in order.
    pub fn track_indexes(&self) -> (r: Vec<String>)
        ensures
            strings_view(r@) == all_indexes(self@.tracks),
    {
        let mut r: Vec<String> = Vec::new();
        let mut k: usize = 0;
        let ghost c = self@.tracks;
        proof {
            assert(c.subrange(0, 0) =~= CollectionModel::empty());
            assert(strings_view(r@) =~= Seq::<Seq<char>>::empty());
        }
        while k < self.tracks_per_file.entries.len()
            invariant
                c == self@.tracks,
                k <= c.len(),
                strings_view(r@) == all_indexes(c.subrange(0, k as int)),
            decreases c.len() - k,
        {
            let ts = &self.tracks_per_file.entries[k].1;
            let ghost base = strings_view(r@);
            let mut j: usize = 0;
            proof {
                assert(c[k as int].1.subrange(0, 0).map_values(|t: TrackModel| t.index)
                    =~= Seq::<Seq<char>>::empty());
                assert(base =~= base + Seq::<Seq<char>>::empty());
            }
            while j < ts.len()
                invariant
                    c == self@.tracks,
                    k < c.len(),
                    ts@ == self.tracks_per_file.entries@[k as int].1@,
                    c[k as int].1 == tracks_view(ts@),
                    j <= ts@.len(),
                    strings_view(r@) == base + c[k as int].1.subrange(0, j as int).map_values(
                        |t: TrackModel| t.index,
                    ),
                decreases ts@.len() - j,
            {
                let ghost before = r@;
                r.push(ts[j].index.clone());
                proof {
                    assert(strings_view(r@) =~= strings_view(before).push(ts@[j as int].index@));
                    assert(c[k as int].1[j as int].index == ts@[j as int].index@);
                    assert(base + c[k as int].1.subrange(0, j + 1).map_values(|t: TrackModel| t.index)
                        =~= (base + c[k as int].1.subrange(0, j as int).map_values(
                        |t: TrackModel| t.index,
                    )).push(ts@[j as int].index@));
                }
                j = j + 1;
            }
            proof {
                assert(c[k as int].1.subrange(0, ts@.len() as int) =~= c[k as int].1);
                assert(c.subrange(0, k + 1).drop_last() =~= c.subrange(0, k as int));
            }
            k = k + 1;
        }
        proof {
            assert(c.subrange(0, c.len() as int) =~= c);
        }
        r
    }
}

/// The indexes of all records, source by source, in order.
pub open spec fn all_indexes(c: CollectionModel) -> Seq<Seq<char>>
    decreases c.len(),
{
    if c.len() == 0 {
        seq![]
    } else {
        all_indexes(c.drop_last()) + c.last().1.map_values(|t: TrackModel| t.index)
    }
}

/// A parse pass: the records and diagnostics are replaced by those of a pass over
/// the input files (see `parse_pass`), the `i`-th file read from `texts[i]` where
/// it is a manifest. The state before does not matter.
pub fn parse_all_files(app: &mut GemaLauncherApp, texts: &Vec<Option<String>>)
    ensures
        final(app)@ == after_parse(old(app)@, texts_view(texts@)),
{
    let out = parse_sources(&app.filenames, texts, &app.label_dict, app.name_strategy);
    app.tracks_per_file = out.tracks;
    app.diagnostics = out.diagnostics;
}

/// The CSV text of a source's records (see `csv_text`).
pub fn csv_export_text(tracks: &Vec<TrackInfo>) -> (r: String)
    ensures
        r@ == csv_text(tracks_view(tracks@)),
{
    let mut out = String::from_str("Index,Titel,Künstler,Dauer,Labelcode\n");
    let mut i: usize = 0;
    let ghost tv = tracks_view(tracks@);
    proof {
        assert(tv.subrange(0, 0) =~= Seq::<TrackModel>::empty());
    }
    while i < tracks.len()
        invariant
            i <= tracks@.len(),
            tv == tracks_view(tracks@),
            out@ == csv_text(tv.subrange(0, i as int)),
        decreases tracks@.len() - i,
    {
        let t = &tracks[i];
        proof {
            let q = tv.subrange(0, i + 1);
            assert(q.drop_last() =~= tv.subrange(0, i as int));
            assert(q.last() == t@);
        }
        let sep = String::from_str(",");
        push_str(&mut out, &t.index);
        push_str(&mut out, &sep);
        push_str(&mut out, &t.titel);
        push_str(&mut out, &sep);
        push_str(&mut out, &t.kuenstler);
        push_str(&mut out, &sep);
        match t.duration {
            Some(d) => {
                let s = d.format_duration();
                push_str(&mut out, &s);
            },
            None => {},
        }
        push_str(&mut out, &sep);
        push_str(&mut out, &t.label_code);
        let nl = String::from_str("\n");
        push_str(&mut out, &nl);
        proof {
            reveal_strlit(",");
            reveal_strlit("\n");
            let prev = csv_text(tv.subrange(0, i as int));
            assert(out@ =~= prev + csv_row(t@) + seq!['\n']);
        }
        i = i + 1;
    }
    proof {
        assert(tv.subrange(0, tracks@.len() as int) =~= tv);
    }
    out
}

/// Running the full pass twice on the same input files, texts and store leaves
/// the same state as running it once: each pass starts from scratch.
pub proof fn lemma_full_pass_idempotent(
    a: AppModel,
    texts: Seq<Option<Seq<char>>>,
    store: Option<Seq<RowModel>>,
)
    ensures
        full_pass(full_pass(a, texts, store), texts, store) == full_pass(a, texts, store),
{
}

} // verus!
