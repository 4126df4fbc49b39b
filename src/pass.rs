//! The parse pass over a list of sources: plain file names and manifest texts
//! become records, merged per source, and every record or file that cannot be
//! read leaves a diagnostic instead of stopping the pass.

use vstd::prelude::*;
use crate::text::{
    is_blank, trim, find_char, has_char, chars_of, string_of, blank_chars, position_of, contains_char,
    slice_chars, trim_chars, views, lemma_views_push,
};
use crate::duration::{
    as_duration, frame_coded, decimal_coded, split_on, split_chars, parse_frame_duration,
    parse_decimal_duration,
};
use crate::tokenizer::{track_fields, has_index};
use crate::duration::TrackDuration;
use crate::labels::{LabelTable, label_code_of, find_label_code};
use crate::model::{TrackInfo, TrackModel, SourceCollection, CollectionModel, add_to_source};
use crate::shape::{has_shape, shape_body, shape_fields, chosen, match_fixed_shape, lemma_chosen_unique};

verus! {

/// What a diagnostic reports.
#[derive(Clone, Copy, Debug, PartialEq, Eq, Structural)]
pub enum DiagnosticKind {
    /// A manifest file could not be read; the subject is its path.
    UnreadableFile,
    /// A manifest line without `:`; the subject is the line.
    MissingColon,
    /// A manifest line without a duration or a track part; the subject is the line.
    IncompleteLine,
    /// A duration that does not read; the subject is the line or the duration.
    BadDuration,
    /// A track name without a word that holds a digit; the subject is the name.
    NoIndex,
    /// A manifest whose halves differ in length; the subject is its path.
    UnequalHalves,
    /// The lookup store was not there, so records were not reconciled.
    StoreUnreachable,
    /// A file name without the fixed shape; the subject is the name.
    UnknownShape,
}

/// How a plain file name is read.
#[derive(Clone, Copy, Debug, PartialEq, Eq, Structural)]
pub enum NameStrategy {
    /// Word by word, as `tokenizer::classify` describes.
    Tokens,
    /// As a whole, as `shape::chosen` describes.
    FixedShape,
}

/// A record, line or file that was skipped, and why.
pub struct Diagnostic {
    pub kind: DiagnosticKind,
    pub subject: String,
}

/// The mathematical value of a `Diagnostic`.
pub struct DiagnosticModel {
    pub kind: DiagnosticKind,
    pub subject: Seq<char>,
}

/// The words that open the message of a diagnostic of kind `k`.
pub open spec fn kind_text(k: DiagnosticKind) -> Seq<char> {
    match k {
        DiagnosticKind::UnreadableFile => "file could not be read: "@,
        DiagnosticKind::MissingColon => "no ':' in line, skipped: "@,
        DiagnosticKind::IncompleteLine => "line lacks duration or track part: "@,
        DiagnosticKind::BadDuration => "invalid duration: "@,
        DiagnosticKind::NoIndex => "no index in track name: "@,
        DiagnosticKind::UnequalHalves => "track and duration halves differ in length: "@,
        DiagnosticKind::StoreUnreachable => "no lookup store; records not reconciled"@,
        DiagnosticKind::UnknownShape => "file name does not have the expected shape: "@,
    }
}

impl Diagnostic {
    /// The diagnostic as a line of text: the words of its kind, then its subject.
    pub fn message(&self) -> (r: String)
        ensures
            r@ == kind_text(self.kind) + self.subject@,
    {
        let head = match self.kind {
            DiagnosticKind::UnreadableFile => "file could not be read: ",
            DiagnosticKind::MissingColon => "no ':' in line, skipped: ",
            DiagnosticKind::IncompleteLine => "line lacks duration or track part: ",
            DiagnosticKind::BadDuration => "invalid duration: ",
            DiagnosticKind::NoIndex => "no index in track name: ",
            DiagnosticKind::UnequalHalves => "track and duration halves differ in length: ",
            DiagnosticKind::StoreUnreachable => "no lookup store; records not reconciled",
            DiagnosticKind::UnknownShape => "file name does not have the expected shape: ",
        };
        let r = String::from_str(head);
        r.concat(self.subject.as_str())
    }
}

impl View for Diagnostic {
    type V = DiagnosticModel;

    open spec fn view(&self) -> DiagnosticModel {
        DiagnosticModel { kind: self.kind, subject: self.subject@ }
    }
}

/// The diagnostic of kind `kind` about `subject`.
pub open spec fn diag(kind: DiagnosticKind, subject: Seq<char>) -> DiagnosticModel {
    DiagnosticModel { kind, subject }
}

/// The models of a list of diagnostics.
pub open spec fn diags_view(v: Seq<Diagnostic>) -> Seq<DiagnosticModel> {
    v.map_values(|d: Diagnostic| d@)
}

/// What a pass has produced so far: records per source, and diagnostics in order.
pub struct PassState {
    pub tracks: CollectionModel,
    pub diagnostics: Seq<DiagnosticModel>,
}

/// The state of a pass before any source.
pub open spec fn empty_state() -> PassState {
    PassState { tracks: seq![], diagnostics: seq![] }
}

/// The records and diagnostics of a pass.
pub struct ParseOutput {
    pub tracks: SourceCollection,
    pub diagnostics: Vec<Diagnostic>,
}

impl View for ParseOutput {
    type V = PassState;

    open spec fn view(&self) -> PassState {
        PassState { tracks: self.tracks@, diagnostics: diags_view(self.diagnostics@) }
    }
}

/// `st` with one more diagnostic.
pub open spec fn note(st: PassState, kind: DiagnosticKind, subject: Seq<char>) -> PassState {
    PassState { diagnostics: st.diagnostics.push(diag(kind, subject)), ..st }
}

/// The record made from the track text `name` with duration `d`: fields from the
/// track name, label code looked up by its index.
pub open spec fn candidate(
    name: Seq<char>,
    d: Option<TrackDuration>,
    table: Seq<(Seq<char>, Seq<char>)>,
) -> TrackModel {
    let (i, t, a) = track_fields(name);
    TrackModel { index: i, titel: t, kuenstler: a, duration: d, label_code: label_code_of(table, i) }
}

/// `st` after the track text `name` of source `path`: the record is taken in,
/// or, where the name has no index, a diagnostic is noted.
pub open spec fn take_track(
    st: PassState,
    path: Seq<char>,
    name: Seq<char>,
    d: Option<TrackDuration>,
    table: Seq<(Seq<char>, Seq<char>)>,
) -> PassState {
    if has_index(name) {
        PassState { tracks: add_to_source(st.tracks, path, candidate(name, d, table)), ..st }
    } else {
        note(st, DiagnosticKind::NoIndex, name)
    }
}

impl ParseOutput {
    /// An output with no records and no diagnostics.
    pub fn new() -> (r: ParseOutput)
        ensures
            r@ == empty_state(),
    {
        let r = ParseOutput { tracks: SourceCollection::new(), diagnostics: Vec::new() };
        assert(diags_view(r.diagnostics@) =~= Seq::<DiagnosticModel>::empty());
        r
    }

    /// Notes a diagnostic.
    pub fn note(&mut self, kind: DiagnosticKind, subject: String)
        ensures
            final(self)@ == note(old(self)@, kind, subject@),
    {
        let d = Diagnostic { kind, subject };
        self.diagnostics.push(d);
        assert(diags_view(self.diagnostics@) =~= diags_view(old(self).diagnostics@).push(
            diag(kind, subject@),
        ));
    }

    /// Takes in the track text `name` of source `path` (see `take_track`).
    pub fn take_track(
        &mut self,
        path: &String,
        name: &String,
        d: Option<TrackDuration>,
        table: &LabelTable,
    )
        ensures
            final(self)@ == take_track(old(self)@, path@, name@, d, table@),
    {
        let (index, titel, kuenstler, found) = crate::tokenizer::split_track(name.as_str());
        if found {
            let label_code = find_label_code(table, index.as_str());
            let t = TrackInfo { index, titel, kuenstler, duration: d, label_code };
            self.tracks.add_track(path, t);
        } else {
            self.note(DiagnosticKind::NoIndex, name.clone());
        }
    }
}

/// A character that separates the parts of a path.
pub open spec fn is_path_sep(c: char) -> bool {
    c == '/' || c == '\\'
}

/// The last part of a path: what follows its last separator.
pub open spec fn file_name(p: Seq<char>) -> Seq<char>
    decreases p.len(),
{
    if p.len() == 0 {
        seq![]
    } else if is_path_sep(p.last()) {
        seq![]
    } else {
        file_name(p.drop_last()).push(p.last())
    }
}

/// A manifest is a file whose name ends in `.txt` after at least one character.
pub open spec fn is_manifest(p: Seq<char>) -> bool {
    let n = file_name(p);
    n.len() > 4 && n.subrange(n.len() - 4, n.len() as int) == seq!['.', 't', 'x', 't']
}

/// The last part of a path (see `file_name`).
pub fn file_name_of(p: &Vec<char>) -> (r: Vec<char>)
    ensures
        r@ == file_name(p@),
{
    let mut r: Vec<char> = Vec::new();
    let mut i: usize = 0;
    while i < p.len()
        invariant
            i <= p@.len(),
            r@ == file_name(p@.subrange(0, i as int)),
        decreases p@.len() - i,
    {
        proof {
            assert(p@.subrange(0, i + 1).drop_last() =~= p@.subrange(0, i as int));
        }
        if p[i] == '/' || p[i] == '\\' {
            r = Vec::new();
        } else {
            r.push(p[i]);
        }
        i = i + 1;
    }
    proof {
        assert(p@.subrange(0, p@.len() as int) =~= p@);
    }
    r
}

/// Whether the file at `path` is a manifest (see `is_manifest`), read as text
/// rather than taken as a track name.
pub fn is_manifest_path(path: &str) -> (r: bool)
    ensures
        r == is_manifest(path@),
{
    let p = chars_of(path);
    let n = file_name_of(&p);
    let k = n.len();
    if k <= 4 {
        return false;
    }
    let r = n[k - 4] == '.' && n[k - 3] == 't' && n[k - 2] == 'x' && n[k - 1] == 't';
    proof {
        let tail = n@.subrange(k - 4, k as int);
        if r {
            assert(tail =~= seq!['.', 't', 'x', 't']);
        } else {
            assert(tail[0] != '.' || tail[1] != 't' || tail[2] != 'x' || tail[3] != 't');
        }
    }
    r
}

/// `st` after a plain file name of source `path`, with no duration: word by word,
/// its last part is the track name; as a fixed shape, the chosen split gives the
/// fields, and a name without the shape is noted.
pub open spec fn take_file_name(
    st: PassState,
    path: Seq<char>,
    table: Seq<(Seq<char>, Seq<char>)>,
    how: NameStrategy,
) -> PassState {
    let name = file_name(path);
    match how {
        NameStrategy::Tokens => take_track(st, path, name, None, table),
        NameStrategy::FixedShape => {
            if has_shape(name) {
                let b = shape_body(name);
                let (i, t) = choose|i: int, t: int| chosen(b, i, t);
                let (x, y, z) = shape_fields(b, i, t);
                let rec = TrackModel {
                    index: x,
                    titel: y,
                    kuenstler: z,
                    duration: None,
                    label_code: label_code_of(table, x),
                };
                PassState { tracks: add_to_source(st.tracks, path, rec), ..st }
            } else {
                note(st, DiagnosticKind::UnknownShape, name)
            }
        },
    }
}

/// `st` after one line of a colon-tab manifest (header excluded). A blank line is
/// passed over. The text after the first `:` splits at its first tab into the
/// duration (frame-coded) and the track name, both trimmed.
pub open spec fn colon_tab_line(
    st: PassState,
    path: Seq<char>,
    line: Seq<char>,
    table: Seq<(Seq<char>, Seq<char>)>,
) -> PassState {
    let k = find_char(line, ':');
    if is_blank(line) {
        st
    } else if !(0 <= k < line.len()) {
        note(st, DiagnosticKind::MissingColon, line)
    } else {
        let rest = line.subrange(k + 1, line.len() as int);
        let t = find_char(rest, '\t');
        let dur = trim(rest.subrange(0, t));
        let track = if 0 <= t < rest.len() {
            trim(rest.subrange(t + 1, rest.len() as int))
        } else {
            seq![]
        };
        if dur.len() == 0 || track.len() == 0 {
            note(st, DiagnosticKind::IncompleteLine, line)
        } else {
            match as_duration(frame_coded(dur)) {
                None => note(st, DiagnosticKind::BadDuration, line),
                Some(d) => take_track(st, path, track, Some(d), table),
            }
        }
    }
}

/// `st` after the lines of a colon-tab manifest, in order.
pub open spec fn colon_tab_lines(
    st: PassState,
    path: Seq<char>,
    lines: Seq<Seq<char>>,
    table: Seq<(Seq<char>, Seq<char>)>,
) -> PassState
    decreases lines.len(),
{
    if lines.len() == 0 {
        st
    } else {
        colon_tab_line(colon_tab_lines(st, path, lines.drop_last(), table), path, lines.last(), table)
    }
}

/// A line in the colon-tab layout: a `:` with a tab somewhere after it.
pub open spec fn colon_tab_shaped(line: Seq<char>) -> bool {
    let k = find_char(line, ':');
    0 <= k < line.len() && has_char(line.subrange(k + 1, line.len() as int), '\t')
}

/// A manifest in the colon-tab layout: some line after the header is shaped so.
pub open spec fn is_colon_tab(lines: Seq<Seq<char>>) -> bool {
    exists|i: int| 1 <= i < lines.len() && colon_tab_shaped(#[trigger] lines[i])
}

/// The non-blank lines, trimmed, in order.
pub open spec fn kept_lines(lines: Seq<Seq<char>>) -> Seq<Seq<char>>
    decreases lines.len(),
{
    if lines.len() == 0 {
        seq![]
    } else if is_blank(lines.last()) {
        kept_lines(lines.drop_last())
    } else {
        kept_lines(lines.drop_last()).push(trim(lines.last()))
    }
}

/// Alternating layout: an even number of lines, each odd-numbered one (from 0)
/// holding a `:`.
pub open spec fn is_alternating(ls: Seq<Seq<char>>) -> bool {
    ls.len() % 2 == 0 && forall|i: int|
        0 <= i < ls.len() / 2 ==> has_char(#[trigger] ls[2 * i + 1], ':')
}

/// The (track, duration) pairs of an even number of lines: consecutive lines in
/// the alternating layout, otherwise the first half against the second.
pub open spec fn pairs_of(ls: Seq<Seq<char>>) -> Seq<(Seq<char>, Seq<char>)> {
    let n = ls.len() / 2;
    if is_alternating(ls) {
        Seq::new(n, |i: int| (ls[2 * i], ls[2 * i + 1]))
    } else {
        Seq::new(n, |i: int| (ls[i], ls[n + i]))
    }
}

/// `st` after a pair of a track line and a decimal-coded duration line.
pub open spec fn take_pair(
    st: PassState,
    path: Seq<char>,
    pair: (Seq<char>, Seq<char>),
    table: Seq<(Seq<char>, Seq<char>)>,
) -> PassState {
    match as_duration(decimal_coded(pair.1)) {
        None => note(st, DiagnosticKind::BadDuration, pair.1),
        Some(d) => take_track(st, path, pair.0, Some(d), table),
    }
}

/// `st` after the pairs, in order.
pub open spec fn take_pairs(
    st: PassState,
    path: Seq<char>,
    pairs: Seq<(Seq<char>, Seq<char>)>,
    table: Seq<(Seq<char>, Seq<char>)>,
) -> PassState
    decreases pairs.len(),
{
    if pairs.len() == 0 {
        st
    } else {
        take_pair(take_pairs(st, path, pairs.drop_last(), table), path, pairs.last(), table)
    }
}

/// `st` after the manifest text `text` of source `path`. In the colon-tab layout
/// the first line is a header and each other line is read alone; otherwise the
/// non-blank lines pair up, and an odd number of them rejects the whole file.
pub open spec fn manifest(
    st: PassState,
    path: Seq<char>,
    text: Seq<char>,
    table: Seq<(Seq<char>, Seq<char>)>,
) -> PassState {
    let lines = split_on(text, '\n');
    if is_colon_tab(lines) {
        colon_tab_lines(st, path, lines.drop_first(), table)
    } else {
        let ls = kept_lines(lines);
        if ls.len() % 2 == 1 {
            note(st, DiagnosticKind::UnequalHalves, path)
        } else {
            take_pairs(st, path, pairs_of(ls), table)
        }
    }
}

impl ParseOutput {
    /// Reads one line of a colon-tab manifest (see `colon_tab_line`).
    pub fn take_colon_tab_line(&mut self, path: &String, line: &Vec<char>, table: &LabelTable)
        ensures
            final(self)@ == colon_tab_line(old(self)@, path@, line@, table@),
    {
        if blank_chars(line) {
            return;
        }
        let k = position_of(line, ':');
        if k >= line.len() {
            self.note(DiagnosticKind::MissingColon, string_of(line));
            return;
        }
        let rest = slice_chars(line, k + 1, line.len());
        let t = position_of(&rest, '\t');
        let dur = trim_chars(&slice_chars(&rest, 0, t));
        let track = if t < rest.len() {
            trim_chars(&slice_chars(&rest, t + 1, rest.len()))
        } else {
            Vec::new()
        };
        if dur.len() == 0 || track.len() == 0 {
            self.note(DiagnosticKind::IncompleteLine, string_of(line));
            return;
        }
        let ds = string_of(&dur);
        match parse_frame_duration(ds.as_str()) {
            None => self.note(DiagnosticKind::BadDuration, string_of(line)),
            Some(d) => self.take_track(path, &string_of(&track), Some(d), table),
        }
    }

    /// Reads a pair of a track line and a duration line (see `take_pair`).
    pub fn take_pair(&mut self, path: &String, track: &Vec<char>, dur: &Vec<char>, table: &LabelTable)
        ensures
            final(self)@ == take_pair(old(self)@, path@, (track@, dur@), table@),
    {
        let ds = string_of(dur);
        match parse_decimal_duration(ds.as_str()) {
            None => self.note(DiagnosticKind::BadDuration, ds),
            Some(d) => self.take_track(path, &string_of(track), Some(d), table),
        }
    }
}

impl ParseOutput {
    /// Takes in a plain file name (see `take_file_name`).
    pub fn take_file_name(&mut self, path: &String, table: &LabelTable, how: NameStrategy)
        ensures
            final(self)@ == take_file_name(old(self)@, path@, table@, how),
    {
        let p = chars_of(path.as_str());
        let name = string_of(&file_name_of(&p));
        match how {
            NameStrategy::Tokens => self.take_track(path, &name, None, table),
            NameStrategy::FixedShape => {
                match match_fixed_shape(name.as_str()) {
                    Some((index, titel, kuenstler)) => {
                        let ghost b = shape_body(name@);
                        proof {
                            let (i, t) = choose|i: int, t: int| chosen(b, i, t);
                            let (i2, t2) = choose|i2: int, t2: int|
                                chosen(b, i2, t2) && shape_fields(b, i2, t2) == (
                                    index@,
                                    titel@,
                                    kuenstler@,
                                );
                            lemma_chosen_unique(b, i, t, i2, t2);
                        }
                        let label_code = find_label_code(table, index.as_str());
                        let rec = TrackInfo {
                            index,
                            titel,
                            kuenstler,
                            duration: None,
                            label_code,
                        };
                        self.tracks.add_track(path, rec);
                    },
                    None => self.note(DiagnosticKind::UnknownShape, name),
                }
            },
        }
    }
}

/// Whether a line is in the colon-tab layout (see `colon_tab_shaped`).
fn line_is_colon_tab(line: &Vec<char>) -> (r: bool)
    ensures
        r == colon_tab_shaped(line@),
{
    let k = position_of(line, ':');
    if k >= line.len() {
        return false;
    }
    let rest = slice_chars(line, k + 1, line.len());
    contains_char(&rest, '\t')
}

impl ParseOutput {
    /// Reads the manifest text of source `path` (see `manifest`).
    pub fn take_manifest(&mut self, path: &String, text: &str, table: &LabelTable)
        ensures
            final(self)@ == manifest(old(self)@, path@, text@, table@),
    {
        let chars = chars_of(text);
        let lines = split_chars(&chars, '\n');
        let ghost lv = views(lines@);
        let ghost st0 = self@;
        let n = lines.len();
        let mut colon_tab = false;
        let mut i: usize = 1;
        while i < n
            invariant_except_break
                !colon_tab,
            invariant
                n == lines@.len(),
                lv == views(lines@),
                1 <= i,
                forall|j: int| 1 <= j < i && j < n ==> !colon_tab_shaped(#[trigger] lv[j]),
            ensures
                colon_tab ==> i < n && colon_tab_shaped(lv[i as int]),
                !colon_tab ==> i >= n,
            decreases n - i,
        {
            proof {
                assert(lv[i as int] == lines@[i as int]@);
            }
            if line_is_colon_tab(&lines[i]) {
                colon_tab = true;
                break;
            }
            i = i + 1;
        }
        proof {
            if colon_tab {
                assert(colon_tab_shaped(lv[i as int]));
            }
        }
        if colon_tab {
            assert(is_colon_tab(lv));
            let mut i: usize = 1;
            proof {
                assert(lv.drop_first().subrange(0, 0) =~= Seq::<Seq<char>>::empty());
            }
            while i < n
                invariant
                    n == lines@.len(),
                    n >= 1,
                    lv == views(lines@),
                    1 <= i <= n,
                    self@ == colon_tab_lines(st0, path@, lv.drop_first().subrange(0, i - 1), table@),
                decreases n - i,
            {
                proof {
                    let d = lv.drop_first();
                    assert(d.subrange(0, i as int).drop_last() =~= d.subrange(0, i - 1));
                    assert(d.subrange(0, i as int).last() == lines@[i as int]@);
                }
                self.take_colon_tab_line(path, &lines[i], table);
                i = i + 1;
            }
            proof {
                assert(lv.drop_first().subrange(0, n - 1) =~= lv.drop_first());
            }
        } else {
            proof {
                assert forall|j: int| 1 <= j < lv.len() implies !colon_tab_shaped(#[trigger] lv[j]) by {
                    if j >= i {
                        assert(i >= n);
                    }
                }
                assert(!is_colon_tab(lv));
            }
            let mut kept: Vec<Vec<char>> = Vec::new();
            let mut i: usize = 0;
            while i < n
                invariant
                    n == lines@.len(),
                    lv == views(lines@),
                    i <= n,
                    views(kept@) == kept_lines(lv.subrange(0, i as int)),
                decreases n - i,
            {
                proof {
                    assert(lv.subrange(0, i + 1).drop_last() =~= lv.subrange(0, i as int));
                    assert(lv.subrange(0, i + 1).last() == lines@[i as int]@);
                }
                if !blank_chars(&lines[i]) {
                    let t = trim_chars(&lines[i]);
                    proof {
                        lemma_views_push(kept@, t);
                    }
                    kept.push(t);
                }
                i = i + 1;
            }
            proof {
                assert(lv.subrange(0, n as int) =~= lv);
            }
            let ghost kv = views(kept@);
            let m = kept.len();
            if m % 2 == 1 {
                self.note(DiagnosticKind::UnequalHalves, path.clone());
                return;
            }
            let half = m / 2;
            let mut alternating = true;
            let mut j: usize = 0;
            while j < half
                invariant_except_break
                    alternating,
                invariant
                    m == kept@.len(),
                    kv == views(kept@),
                    half == m / 2,
                    m % 2 == 0,
                    j <= half,
                    forall|q: int| 0 <= q < j ==> has_char(#[trigger] kv[2 * q + 1], ':'),
                ensures
                    alternating ==> j >= half,
                    !alternating ==> j < half && !has_char(kv[2 * j + 1], ':'),
                decreases half - j,
            {
                proof {
                    assert(kv[2 * j + 1] == kept@[2 * j + 1]@);
                }
                if !contains_char(&kept[2 * j + 1], ':') {
                    alternating = false;
                    break;
                }
                j = j + 1;
            }
            proof {
                if alternating {
                    assert(is_alternating(kv));
                } else {
                    assert(!has_char(kv[2 * j + 1], ':'));
                    assert(!is_alternating(kv));
                }
            }
            let ghost pairs = pairs_of(kv);
            let mut j: usize = 0;
            proof {
                assert(pairs.subrange(0, 0) =~= Seq::<(Seq<char>, Seq<char>)>::empty());
            }
            while j < half
                invariant
                    m == kept@.len(),
                    kv == views(kept@),
                    half == m / 2,
                    m % 2 == 0,
                    j <= half,
                    pairs == pairs_of(kv),
                    pairs.len() == half,
                    alternating == is_alternating(kv),
                    self@ == take_pairs(st0, path@, pairs.subrange(0, j as int), table@),
                decreases half - j,
            {
                let (a, b) = if alternating {
                    (2 * j, 2 * j + 1)
                } else {
                    (j, half + j)
                };
                proof {
                    assert(pairs.subrange(0, j + 1).drop_last() =~= pairs.subrange(0, j as int));
                    assert(pairs.subrange(0, j + 1).last() == pairs[j as int]);
                    assert(pairs[j as int] == (kv[a as int], kv[b as int]));
                    assert(kv[a as int] == kept@[a as int]@);
                    assert(kv[b as int] == kept@[b as int]@);
                }
                self.take_pair(path, &kept[a], &kept[b], table);
                j = j + 1;
            }
            proof {
                assert(pairs.subrange(0, half as int) =~= pairs);
            }
        }
    }
}

/// The text of the `i`-th source, where one was given.
pub open spec fn text_at(texts: Seq<Option<Seq<char>>>, i: int) -> Option<Seq<char>> {
    if 0 <= i < texts.len() {
        texts[i]
    } else {
        None
    }
}

/// `st` after one source: a manifest is read from its text, or noted as
/// unreadable where there is none; any other file is taken by its name.
pub open spec fn take_source(
    st: PassState,
    path: Seq<char>,
    text: Option<Seq<char>>,
    table: Seq<(Seq<char>, Seq<char>)>,
    how: NameStrategy,
) -> PassState {
    if is_manifest(path) {
        match text {
            Some(t) => manifest(st, path, t, table),
            None => note(st, DiagnosticKind::UnreadableFile, path),
        }
    } else {
        take_file_name(st, path, table, how)
    }
}

/// The pass over the sources `paths`, in order, the `i`-th with the text `texts[i]`.
pub open spec fn parse_pass(
    paths: Seq<Seq<char>>,
    texts: Seq<Option<Seq<char>>>,
    table: Seq<(Seq<char>, Seq<char>)>,
    how: NameStrategy,
) -> PassState
    decreases paths.len(),
{
    if paths.len() == 0 {
        empty_state()
    } else {
        let n = paths.len() - 1;
        take_source(
            parse_pass(paths.drop_last(), texts, table, how),
            paths[n],
            text_at(texts, n),
            table,
            how,
        )
    }
}

/// The views of a list of strings.
pub open spec fn strings_view(v: Seq<String>) -> Seq<Seq<char>> {
    v.map_values(|s: String| s@)
}

/// The views of a list of optional strings.
pub open spec fn texts_view(v: Seq<Option<String>>) -> Seq<Option<Seq<char>>> {
    v.map_values(
        |o: Option<String>|
            match o {
                Some(s) => Some(s@),
                None => None,
            },
    )
}

/// Parses every source: the `i`-th path with `texts[i]` as its text where the
/// file is a manifest (an absent text means the file could not be read), plain
/// file names read as `how` says.
pub fn parse_sources(
    paths: &Vec<String>,
    texts: &Vec<Option<String>>,
    table: &LabelTable,
    how: NameStrategy,
) -> (r: ParseOutput)
    ensures
        r@ == parse_pass(strings_view(paths@), texts_view(texts@), table@, how),
{
    let ghost pv = strings_view(paths@);
    let ghost tv = texts_view(texts@);
    let mut out = ParseOutput::new();
    let mut i: usize = 0;
    while i < paths.len()
        invariant
            i <= paths@.len(),
            pv == strings_view(paths@),
            tv == texts_view(texts@),
            out@ == parse_pass(pv.subrange(0, i as int), tv, table@, how),
        decreases paths@.len() - i,
    {
        let path = &paths[i];
        proof {
            let q = pv.subrange(0, i + 1);
            assert(q.drop_last() =~= pv.subrange(0, i as int));
            assert(q[i as int] == path@);
        }
        if is_manifest_path(path.as_str()) {
            if i < texts.len() {
                match &texts[i] {
                    Some(t) => {
                        proof {
                            assert(tv[i as int] == Some(t@));
                        }
                        out.take_manifest(path, t.as_str(), table);
                    },
                    None => {
                        proof {
                            assert(tv[i as int] == None::<Seq<char>>);
                        }
                        out.note(DiagnosticKind::UnreadableFile, path.clone());
                    },
                }
            } else {
                out.note(DiagnosticKind::UnreadableFile, path.clone());
            }
        } else {
            out.take_file_name(path, table, how);
        }
        i = i + 1;
    }
    proof {
        assert(pv.subrange(0, paths@.len() as int) =~= pv);
    }
    out
}

/// A manifest not in the colon-tab layout whose non-blank lines are odd in
/// number is rejected whole: exactly one diagnostic, and no record from it.
pub proof fn lemma_unequal_halves_rejected(
    st: PassState,
    path: Seq<char>,
    text: Seq<char>,
    table: Seq<(Seq<char>, Seq<char>)>,
)
    requires
        !is_colon_tab(split_on(text, '\n')),
        kept_lines(split_on(text, '\n')).len() % 2 == 1,
    ensures
        manifest(st, path, text, table).tracks == st.tracks,
        manifest(st, path, text, table).diagnostics == st.diagnostics.push(
            diag(DiagnosticKind::UnequalHalves, path),
        ),
{
}

/// In the alternating layout, each track line pairs with the duration line
/// right after it.
pub proof fn lemma_alternating_pairs(ls: Seq<Seq<char>>)
    requires
        is_alternating(ls),
    ensures
        pairs_of(ls).len() == ls.len() / 2,
        forall|i: int| 0 <= i < ls.len() / 2 ==> #[trigger] pairs_of(ls)[i] == (ls[2 * i], ls[2 * i + 1]),
{
}

} // verus!
