use gema_launcher::duration::{parse_decimal_duration, parse_frame_duration, TrackDuration};
use gema_launcher::shape::match_fixed_shape;
use gema_launcher::tokenizer::parse_track_filename;

fn fields(s: &str) -> (String, String, String) {
    parse_track_filename(s)
}

#[test]
fn tokenizer_splits_index_title_artist() {
    let (i, t, a) = fields("anw1832_001_FORGOTTEN_DREAMS_johndoe");
    assert_eq!(i, "anw1832_001");
    assert_eq!(t, "forgotten dreams");
    assert_eq!(a, "johndoe");
}

#[test]
fn tokenizer_strips_extension_and_version_suffix() {
    let (i, t, a) = fields("anw1832_001_FORGOTTEN_DREAMS_john_doe.wav.v2");
    assert_eq!(i, "anw1832_001");
    assert_eq!(t, "forgotten dreams");
    assert_eq!(a, "john doe");
}

#[test]
fn tokenizer_without_digit_puts_everything_in_index() {
    let (i, t, a) = fields("Intro_Theme_SOMETHING");
    assert_eq!(i, "intro_theme_something");
    assert_eq!(t, "");
    assert_eq!(a, "");
}

#[test]
fn tokenizer_empty_name() {
    let (i, t, a) = fields("");
    assert_eq!((i.as_str(), t.as_str(), a.as_str()), ("", "", ""));
}

#[test]
fn tokenizer_index_absorbs_lowercase_words_after_digit() {
    let (i, t, a) = fields("abc 12 x3 take TITLE artist ONE");
    assert_eq!(i, "abc_12_x3_take");
    assert_eq!(t, "title");
    assert_eq!(a, "artist one");
}

#[test]
fn tokenizer_mixed_case_word_is_not_title() {
    let (i, t, a) = fields("jcm_123_Hello_WORLD_me");
    assert_eq!(i, "jcm_123_hello");
    assert_eq!(t, "world");
    assert_eq!(a, "me");
}

#[test]
fn tokenizer_non_ascii_letters() {
    let (i, t, a) = fields("abc_1_ÜBER_ALLES_größe");
    assert_eq!(i, "abc_1");
    assert_eq!(t, "über alles");
    assert_eq!(a, "größe");
}

#[test]
fn frame_coded_duration() {
    assert_eq!(parse_frame_duration("00:00:43:12"), Some(TrackDuration { micros: 43_480_000 }));
    assert_eq!(
        parse_frame_duration("01:02:03:24"),
        Some(TrackDuration { micros: 3_723_960_000 })
    );
}

#[test]
fn frame_coded_duration_rejects_bad_shapes() {
    assert_eq!(parse_frame_duration("00:43:12"), None);
    assert_eq!(parse_frame_duration("00:00:00:43:12"), None);
    assert_eq!(parse_frame_duration("00:00:4x:12"), None);
    assert_eq!(parse_frame_duration("00::43:12"), None);
    assert_eq!(parse_frame_duration(""), None);
    assert_eq!(parse_frame_duration("99999999999999999999:00:00:00"), None);
}

#[test]
fn decimal_coded_duration_two_parts() {
    assert_eq!(parse_decimal_duration("1:23"), Some(TrackDuration { micros: 1_230_000 }));
    assert_eq!(parse_decimal_duration("1.5"), Some(TrackDuration { micros: 1_500_000 }));
    assert_eq!(parse_decimal_duration(".5"), Some(TrackDuration { micros: 500_000 }));
    assert_eq!(parse_decimal_duration("7."), Some(TrackDuration { micros: 7_000_000 }));
}

#[test]
fn decimal_coded_duration_one_part_fails() {
    assert_eq!(parse_decimal_duration("15"), None);
    assert_eq!(parse_decimal_duration(""), None);
    assert_eq!(parse_decimal_duration("."), None);
    assert_eq!(parse_decimal_duration("a:b"), None);
}

#[test]
fn decimal_coded_duration_three_parts_uses_first_two() {
    assert_eq!(parse_decimal_duration("1:23:45"), Some(TrackDuration { micros: 1_230_000 }));
    assert_eq!(parse_decimal_duration("2.5.9"), Some(TrackDuration { micros: 2_500_000 }));
}

#[test]
fn decimal_coded_duration_drops_digits_past_microseconds() {
    assert_eq!(
        parse_decimal_duration("3.123456789"),
        Some(TrackDuration { micros: 3_123_456 })
    );
}

#[test]
fn duration_formatting_rounds_to_hundredths() {
    assert_eq!(TrackDuration { micros: 43_480_000 }.format_duration(), "43:48");
    assert_eq!(TrackDuration { micros: 1_234_999 }.format_duration(), "1:23");
    assert_eq!(TrackDuration { micros: 1_235_000 }.format_duration(), "1:24");
    assert_eq!(TrackDuration { micros: 0 }.format_duration(), "0:00");
    assert_eq!(TrackDuration { micros: 15_000_000 }.format_duration(), "15:00");
    assert_eq!(TrackDuration { micros: 59_995_000 }.format_duration(), "60:00");
}

fn shape(s: &str) -> Option<(String, String, String)> {
    match_fixed_shape(s)
}

fn owned(a: &str, b: &str, c: &str) -> Option<(String, String, String)> {
    Some((a.to_string(), b.to_string(), c.to_string()))
}

#[test]
fn fixed_shape_shortest_index_longest_title() {
    assert_eq!(
        shape("anw1832_001_FORGOTTEN_DREAMS_johndoe.wav"),
        owned("anw1832_001_", "forgotten_dreams", "johndoe")
    );
    assert_eq!(shape("x_1_AB_CD_e f.mp3"), owned("x_1_", "ab_cd", "e f"));
    assert_eq!(shape("a_1_b_2_T_art.wav"), owned("a_1_", "b", "2_t_art"));
}

#[test]
fn fixed_shape_rejects_other_names() {
    assert_eq!(shape("anw1832_001_FORGOTTEN_DREAMS_johndoe.flac"), None);
    assert_eq!(shape("anw_FORGOTTEN_johndoe.wav"), None);
    assert_eq!(shape("anw_1_TITLE_a.b.wav"), None);
    assert_eq!(shape("anw_1_TITLE_.wav"), None);
    assert_eq!(shape(".wav"), None);
    assert_eq!(shape(""), None);
}
