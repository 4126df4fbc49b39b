use gema_launcher::duration::TrackDuration;
use gema_launcher::engine::{csv_export_text, parse_all_files, GemaLauncherApp};
use gema_launcher::labels::{find_label_code, LabelTable};
use gema_launcher::model::{merge_track, SourceCollection, TrackInfo};
use gema_launcher::pass::{is_manifest_path, parse_sources, DiagnosticKind, NameStrategy};
use gema_launcher::reconcile::{RowStore, StoreRow};

fn track(index: &str, titel: &str, kuenstler: &str, micros: Option<u64>) -> TrackInfo {
    TrackInfo {
        index: index.to_string(),
        titel: titel.to_string(),
        kuenstler: kuenstler.to_string(),
        duration: micros.map(|m| TrackDuration { micros: m }),
        label_code: String::new(),
    }
}

fn table(pairs: &[(&str, &str)]) -> LabelTable {
    LabelTable { entries: pairs.iter().map(|(k, v)| (k.to_string(), v.to_string())).collect() }
}

#[test]
fn aggregator_merges_equal_keys_and_appends_new_ones() {
    let mut ts: Vec<TrackInfo> = Vec::new();
    merge_track(&mut ts, track("idx", "t", "a", Some(10_000_000)));
    merge_track(&mut ts, track("other", "t", "a", Some(1_000_000)));
    merge_track(&mut ts, track("idx", "t", "a", Some(5_000_000)));
    assert_eq!(ts.len(), 2);
    assert_eq!(ts[0].index, "idx");
    assert_eq!(ts[0].duration, Some(TrackDuration { micros: 15_000_000 }));
    assert_eq!(ts[1].index, "other");
    assert_eq!(ts[1].duration, Some(TrackDuration { micros: 1_000_000 }));
}

#[test]
fn aggregator_absent_durations_count_as_zero() {
    let mut ts: Vec<TrackInfo> = Vec::new();
    merge_track(&mut ts, track("idx", "t", "a", None));
    merge_track(&mut ts, track("idx", "t", "a", None));
    assert_eq!(ts.len(), 1);
    assert_eq!(ts[0].duration, Some(TrackDuration { micros: 0 }));
}

#[test]
fn aggregator_sum_is_capped() {
    let mut ts: Vec<TrackInfo> = Vec::new();
    merge_track(&mut ts, track("idx", "t", "a", Some(u64::MAX - 1)));
    merge_track(&mut ts, track("idx", "t", "a", Some(5)));
    assert_eq!(ts[0].duration, Some(TrackDuration { micros: u64::MAX }));
}

#[test]
fn collection_keeps_sources_apart() {
    let mut c = SourceCollection::new();
    c.add_track(&"a.txt".to_string(), track("i1", "t", "x", Some(1)));
    c.add_track(&"b.txt".to_string(), track("i1", "t", "x", Some(2)));
    c.add_track(&"a.txt".to_string(), track("i1", "t", "x", Some(3)));
    assert_eq!(c.entries.len(), 2);
    let a = c.tracks_of(&"a.txt".to_string()).unwrap();
    assert_eq!(a.len(), 1);
    assert_eq!(a[0].duration, Some(TrackDuration { micros: 4 }));
    assert!(c.tracks_of(&"c.txt".to_string()).is_none());
}

#[test]
fn label_code_longest_prefix_wins() {
    let t = table(&[("ANW", "LC-1"), ("ANW18", "LC-2"), ("JCM", "LC-3")]);
    assert_eq!(find_label_code(&t, "anw1832_001"), "LC-2");
    assert_eq!(find_label_code(&t, "anw2000_001"), "LC-1");
    assert_eq!(find_label_code(&t, "jcm_123"), "LC-3");
    assert_eq!(find_label_code(&t, "xyz_1"), "");
}

#[test]
fn label_code_prefix_case_insensitive() {
    let t = table(&[("abc", "LC-9")]);
    assert_eq!(find_label_code(&t, "ABC_1"), "LC-9");
    assert_eq!(find_label_code(&LabelTable::new(), "ABC_1"), "");
}

#[test]
fn label_table_from_json() {
    let t = LabelTable::parse_labelcodes("{\"ANW\": \"LC-1\", \"JCM\": \"LC-2\"}");
    assert_eq!(t.entries.len(), 2);
    assert_eq!(find_label_code(&t, "jcm_5"), "LC-2");
    assert_eq!(find_label_code(&t, "anw_5"), "LC-1");
}

#[test]
fn label_table_from_bad_json_is_empty() {
    assert_eq!(LabelTable::parse_labelcodes("not json").entries.len(), 0);
    assert_eq!(LabelTable::parse_labelcodes("{\"A\": 1}").entries.len(), 0);
    assert_eq!(LabelTable::parse_labelcodes("{\"A\": \"x\", \"A\": \"y\"}").entries.len(), 1);
}

#[test]
fn manifest_detection_by_extension() {
    assert!(is_manifest_path("dir/list.txt"));
    assert!(is_manifest_path("C:\\dir\\list.txt"));
    assert!(!is_manifest_path("dir/.txt"));
    assert!(!is_manifest_path("dir/list.txt/track.wav"));
    assert!(!is_manifest_path("song.TXT"));
}

#[test]
fn reconciler_overwrites_on_hit_and_keeps_duration() {
    let mut app = GemaLauncherApp::new(LabelTable::new());
    app.tracks_per_file.add_track(&"f".to_string(), track("ANW1832_001", "t", "a", Some(7)));
    app.tracks_per_file.add_track(&"f".to_string(), track("nomatch_1", "t2", "a2", Some(8)));
    let store = RowStore {
        rows: vec![StoreRow {
            index: "anw1832_001".to_string(),
            titel: "X".to_string(),
            kuenstler: "Y".to_string(),
            label_code: "Z".to_string(),
        }],
    };
    app.apply_database_info(Some(&store));
    let ts = app.tracks_per_file.tracks_of(&"f".to_string()).unwrap();
    assert_eq!(ts[0].titel, "X");
    assert_eq!(ts[0].kuenstler, "Y");
    assert_eq!(ts[0].label_code, "Z");
    assert_eq!(ts[0].index, "ANW1832_001");
    assert_eq!(ts[0].duration, Some(TrackDuration { micros: 7 }));
    assert_eq!(ts[1].titel, "t2");
    assert_eq!(ts[1].kuenstler, "a2");
    assert_eq!(ts[1].label_code, "");
    assert_eq!(ts[1].duration, Some(TrackDuration { micros: 8 }));
}

#[test]
fn reconciler_without_store_notes_and_keeps_records() {
    let mut app = GemaLauncherApp::new(LabelTable::new());
    app.tracks_per_file.add_track(&"f".to_string(), track("i_1", "t", "a", None));
    app.apply_database_info(None);
    assert_eq!(app.diagnostics.len(), 1);
    assert_eq!(app.diagnostics[0].kind, DiagnosticKind::StoreUnreachable);
    assert_eq!(app.tracks_per_file.tracks_of(&"f".to_string()).unwrap()[0].titel, "t");
}

#[test]
fn alternating_manifest_pairs_consecutive_lines() {
    let text = "anw1_001_FIRST_one\n1:23\nanw2_002_SECOND_two\n2:05\n";
    let out = parse_sources(&vec!["m.txt".to_string()], &vec![Some(text.to_string())], &LabelTable::new(), NameStrategy::Tokens);
    assert_eq!(out.diagnostics.len(), 0);
    let ts = out.tracks.tracks_of(&"m.txt".to_string()).unwrap();
    assert_eq!(ts.len(), 2);
    assert_eq!(ts[0].index, "anw1_001");
    assert_eq!(ts[0].titel, "first");
    assert_eq!(ts[0].kuenstler, "one");
    assert_eq!(ts[0].duration, Some(TrackDuration { micros: 1_230_000 }));
    assert_eq!(ts[1].index, "anw2_002");
    assert_eq!(ts[1].duration, Some(TrackDuration { micros: 2_050_000 }));
}

#[test]
fn split_manifest_pairs_halves() {
    let text = "anw1_001_FIRST_one\nanw2_002_SECOND_two\n1.5\n2.25\n";
    let out = parse_sources(&vec!["m.txt".to_string()], &vec![Some(text.to_string())], &LabelTable::new(), NameStrategy::Tokens);
    let ts = out.tracks.tracks_of(&"m.txt".to_string()).unwrap();
    assert_eq!(ts.len(), 2);
    assert_eq!(ts[0].index, "anw1_001");
    assert_eq!(ts[0].duration, Some(TrackDuration { micros: 1_500_000 }));
    assert_eq!(ts[1].index, "anw2_002");
    assert_eq!(ts[1].duration, Some(TrackDuration { micros: 2_250_000 }));
}

#[test]
fn manifest_with_unequal_halves_is_rejected() {
    let text = "anw1_001_FIRST_one\nanw2_002_SECOND_two\n1.5\n";
    let out = parse_sources(&vec!["m.txt".to_string()], &vec![Some(text.to_string())], &LabelTable::new(), NameStrategy::Tokens);
    assert_eq!(out.diagnostics.len(), 1);
    assert_eq!(out.diagnostics[0].kind, DiagnosticKind::UnequalHalves);
    assert_eq!(out.diagnostics[0].subject, "m.txt");
    assert!(out.tracks.tracks_of(&"m.txt".to_string()).is_none());
    assert_eq!(out.tracks.entries.len(), 0);
}

#[test]
fn colon_tab_manifest() {
    let text = "Header line\nTake 1:00:00:43:12\tanw1832_001_FORGOTTEN_DREAMS_johndoe.wav\n\nTake 2:00:00:10:00\tanw1832_001_FORGOTTEN_DREAMS_johndoe.wav\nno colon here\nTake 3:00:00:01:00\t\nTake 4:1:2\tanw9_1_X_y\nTake 5:00:00:01:00\tnodigits_HERE\n";
    let t = table(&[("ANW", "LC-1")]);
    let out = parse_sources(&vec!["m.txt".to_string()], &vec![Some(text.to_string())], &t, NameStrategy::Tokens);
    let ts = out.tracks.tracks_of(&"m.txt".to_string()).unwrap();
    assert_eq!(ts.len(), 1);
    assert_eq!(ts[0].index, "anw1832_001");
    assert_eq!(ts[0].titel, "forgotten dreams");
    assert_eq!(ts[0].kuenstler, "johndoe");
    assert_eq!(ts[0].label_code, "LC-1");
    assert_eq!(ts[0].duration, Some(TrackDuration { micros: 53_480_000 }));
    let kinds: Vec<DiagnosticKind> = out.diagnostics.iter().map(|d| d.kind).collect();
    assert_eq!(
        kinds,
        vec![
            DiagnosticKind::MissingColon,
            DiagnosticKind::IncompleteLine,
            DiagnosticKind::BadDuration,
            DiagnosticKind::NoIndex,
        ]
    );
}

#[test]
fn plain_file_names_and_unreadable_manifests() {
    let paths = vec![
        "/music/anw1832_001_FORGOTTEN_DREAMS_johndoe.wav".to_string(),
        "/music/nodigit_TITLE_x.mp3".to_string(),
        "/music/list.txt".to_string(),
    ];
    let out = parse_sources(&paths, &vec![None, None, None], &LabelTable::new(), NameStrategy::Tokens);
    let ts = out.tracks.tracks_of(&paths[0]).unwrap();
    assert_eq!(ts.len(), 1);
    assert_eq!(ts[0].index, "anw1832_001");
    assert_eq!(ts[0].duration, None);
    let kinds: Vec<DiagnosticKind> = out.diagnostics.iter().map(|d| d.kind).collect();
    assert_eq!(kinds, vec![DiagnosticKind::NoIndex, DiagnosticKind::UnreadableFile]);
    assert_eq!(out.diagnostics[1].message(), "file could not be read: /music/list.txt");
}

#[test]
fn full_pass_twice_gives_same_result() {
    let mut app = GemaLauncherApp::new(table(&[("ANW", "LC-1")]));
    app.add_file("a/anw1_001_TITLE_me.wav".to_string());
    app.add_file("b/m.txt".to_string());
    let texts = vec![None, Some("x1_1_AB_c\n0:5\nx1_1_AB_c\n0:5\n".to_string())];
    let store = RowStore { rows: Vec::new() };
    app.parse_filenames(&texts, Some(&store));
    let first = csv_export_text(app.tracks_per_file.tracks_of(&"b/m.txt".to_string()).unwrap());
    let n1 = app.tracks_per_file.entries.len();
    app.parse_filenames(&texts, Some(&store));
    let second = csv_export_text(app.tracks_per_file.tracks_of(&"b/m.txt".to_string()).unwrap());
    assert_eq!(first, second);
    assert_eq!(n1, app.tracks_per_file.entries.len());
    assert_eq!(second, "Index,Titel,Künstler,Dauer,Labelcode\nx1_1,ab,c,1:00,\n");
}

#[test]
fn files_are_added_once_and_deleted() {
    let mut app = GemaLauncherApp::new(LabelTable::new());
    app.add_file("a".to_string());
    app.add_file("b".to_string());
    app.add_file("a".to_string());
    app.add_file("c".to_string());
    assert_eq!(app.filenames, vec!["a", "b", "c"]);
    app.selected_files[1] = true;
    app.delete_selected_files();
    assert_eq!(app.filenames, vec!["a", "c"]);
    assert_eq!(app.selected_files, vec![false, false]);
    parse_all_files(&mut app, &Vec::new());
    app.delete_all_files();
    assert!(app.filenames.is_empty());
    assert_eq!(app.tracks_per_file.entries.len(), 0);
}

#[test]
fn csv_text_of_tracks() {
    let mut t = track("anw_1", "title", "artist", Some(43_480_000));
    t.label_code = "LC".to_string();
    let ts = vec![t, track("b_2", "", "", None)];
    assert_eq!(
        csv_export_text(&ts),
        "Index,Titel,Künstler,Dauer,Labelcode\nanw_1,title,artist,43:48,LC\nb_2,,,,\n"
    );
}

#[test]
fn error_messages_render() {
    let mut app = GemaLauncherApp::new(LabelTable::new());
    app.add_file("x/list.txt".to_string());
    parse_all_files(&mut app, &vec![Some("one\n".to_string())]);
    assert_eq!(
        app.error_messages(),
        vec!["track and duration halves differ in length: x/list.txt".to_string()]
    );
    assert_eq!(app.format_duration(TrackDuration { micros: 1_230_000 }), "1:23");
}

#[test]
fn fixed_shape_strategy_reads_plain_file_names() {
    let paths = vec![
        "/m/anw1832_001_FORGOTTEN_DREAMS_johndoe.wav".to_string(),
        "/m/anw1832_001_FORGOTTEN_DREAMS_johndoe.flac".to_string(),
    ];
    let t = table(&[("ANW", "LC-1")]);
    let out = parse_sources(&paths, &Vec::new(), &t, NameStrategy::FixedShape);
    let ts = out.tracks.tracks_of(&paths[0]).unwrap();
    assert_eq!(ts[0].index, "anw1832_001_");
    assert_eq!(ts[0].titel, "forgotten_dreams");
    assert_eq!(ts[0].kuenstler, "johndoe");
    assert_eq!(ts[0].label_code, "LC-1");
    assert_eq!(ts[0].duration, None);
    assert_eq!(out.diagnostics.len(), 1);
    assert_eq!(out.diagnostics[0].kind, DiagnosticKind::UnknownShape);
}
