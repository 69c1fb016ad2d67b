//! Tests of the pure core: phrase counting, cue reduction, rows, batching.

use defacto::batch::collect_rows;
use defacto::config::{Config, LoginData, default_cache_path};
use defacto::cues::collapse_consecutive;
use defacto::patterns::count_phrases;
use defacto::recording::{CaptionTrack, MediaStream, RecordingConfig, StreamSource};
use defacto::resolver::{
    ResolveAction, TranscriptOutcome, accept_recognition, fallback_action, first_action,
    join_segment_texts,
};
use defacto::rows::{DataRow, ShortenedDataRow, make_row};

fn strings(items: &[&str]) -> Vec<String> {
    items.iter().map(|s| s.to_string()).collect()
}

#[test]
fn counts_in_scenario_transcript() {
    let counts = count_phrases("Das ist trivial. Ergibt das Sinn?");
    assert_eq!(counts, (0, 1, 1));
}

#[test]
fn counts_all_three_phrases() {
    let counts = count_phrases("De facto ist das trivial, de facto sogar sehr. Ergibt das Sinn?");
    assert_eq!(counts, (2, 1, 1));
}

#[test]
fn count_is_case_insensitive() {
    let lower = count_phrases("das ist trivial und de facto klar. ergibt das sinn?");
    let upper = count_phrases("DAS IST TRIVIAL UND DE FACTO KLAR. ERGIBT DAS SINN?");
    let mixed = count_phrases("Das Ist TrIvIaL und De FaCtO klar. ErGiBt DaS SiNn?");
    assert_eq!(lower, (1, 1, 1));
    assert_eq!(upper, lower);
    assert_eq!(mixed, lower);
}

#[test]
fn count_ignores_surrounding_punctuation() {
    assert_eq!(count_phrases("trivial"), (0, 1, 0));
    assert_eq!(count_phrases(" trivial "), (0, 1, 0));
    assert_eq!(count_phrases("(trivial)"), (0, 1, 0));
    assert_eq!(count_phrases("...trivial!!!"), (0, 1, 0));
    assert_eq!(count_phrases("\ntrivial.\n"), (0, 1, 0));
}

#[test]
fn substring_of_longer_word_does_not_count() {
    assert_eq!(count_phrases("trivially"), (0, 0, 0));
    assert_eq!(count_phrases("Das ist trivialerweise so."), (0, 0, 0));
    assert_eq!(count_phrases("nontrivial"), (0, 0, 0));
    assert_eq!(count_phrases("Xtrivial und trivialX"), (0, 0, 0));
}

#[test]
fn multiword_phrases_allow_flexible_gaps() {
    assert_eq!(count_phrases("de  facto"), (1, 0, 0));
    assert_eq!(count_phrases("de\nfacto"), (1, 0, 0));
    assert_eq!(count_phrases("Ergibt  das\tSinn"), (0, 0, 1));
    assert_eq!(count_phrases("defacto"), (0, 0, 0));
    assert_eq!(count_phrases("de facto"), (1, 0, 0));
}

#[test]
fn empty_transcript_counts_nothing() {
    assert_eq!(count_phrases(""), (0, 0, 0));
}

#[test]
fn collapse_drops_consecutive_repeats_only() {
    let cues = strings(&["a", "a", "b", "b", "b", "a", "c", "c"]);
    let collapsed = collapse_consecutive(&cues);
    assert_eq!(collapsed, strings(&["a", "b", "a", "c"]));
}

#[test]
fn collapse_is_idempotent_on_concrete_input() {
    let cues = strings(&["x", "x", "y", "x", "x"]);
    let once = collapse_consecutive(&cues);
    let twice = collapse_consecutive(&once);
    assert_eq!(once, strings(&["x", "y", "x"]));
    assert_eq!(twice, once);
}

#[test]
fn collapse_keeps_empty_and_single() {
    let empty: Vec<String> = Vec::new();
    assert_eq!(collapse_consecutive(&empty), empty);
    let single = strings(&["only"]);
    assert_eq!(collapse_consecutive(&single), single);
}

fn caption(format: &str, lang: &str, url: &str) -> CaptionTrack {
    CaptionTrack {
        format: Some(format.to_string()),
        lang: Some(lang.to_string()),
        url: Some(url.to_string()),
    }
}

fn config_with(captions: Vec<CaptionTrack>, streams: Vec<MediaStream>) -> RecordingConfig {
    RecordingConfig { title: Some("t".to_string()), captions, streams }
}

fn audio_stream(sources: Vec<StreamSource>) -> MediaStream {
    MediaStream { role: Some("mainAudio".to_string()), mp4: sources }
}

fn source(src: &str, w: u64, h: u64) -> StreamSource {
    StreamSource { src: Some(src.to_string()), width: Some(w), height: Some(h) }
}

#[test]
fn qualifying_track_without_url_triggers_fallback() {
    let track = CaptionTrack {
        format: Some("vtt".to_string()),
        lang: Some("de".to_string()),
        url: None,
    };
    let cfg = config_with(
        vec![track, caption("vtt", "de", "https://later.vtt")],
        vec![audio_stream(vec![source("https://low", 320, 180)])],
    );
    match first_action(&cfg) {
        ResolveAction::Recognize(url) => assert_eq!(url, "https://low"),
        _ => panic!("expected the fallback: the first qualifying track has no URL"),
    }
}

#[test]
fn stream_without_audio_role_does_not_qualify() {
    let presentation = MediaStream {
        role: Some("presentation".to_string()),
        mp4: vec![source("https://pres", 100, 100)],
    };
    let cfg = config_with(vec![], vec![presentation]);
    match first_action(&cfg) {
        ResolveAction::GiveUp => {}
        _ => panic!("expected failure: no stream carries the audio role"),
    }
}

#[test]
fn resolver_prefers_captions() {
    let cfg = config_with(
        vec![caption("vtt", "de", "https://cap.vtt")],
        vec![audio_stream(vec![source("https://low", 320, 180)])],
    );
    match first_action(&cfg) {
        ResolveAction::FetchCaptions(url) => assert_eq!(url, "https://cap.vtt"),
        _ => panic!("expected the captions path"),
    }
}

#[test]
fn resolver_falls_back_to_recognition_without_matching_track() {
    let cfg = config_with(
        vec![caption("vtt", "en", "https://cap-en.vtt"), caption("srt", "de", "https://cap.srt")],
        vec![audio_stream(vec![source("https://low", 320, 180)])],
    );
    match first_action(&cfg) {
        ResolveAction::Recognize(url) => assert_eq!(url, "https://low"),
        _ => panic!("expected the recognition fallback"),
    }
}

#[test]
fn resolver_gives_up_without_track_or_stream() {
    let cfg = config_with(vec![], vec![]);
    match first_action(&cfg) {
        ResolveAction::GiveUp => {}
        _ => panic!("expected resolution to fail without attempting recognition"),
    }
}

#[test]
fn fallback_after_captions_failure_uses_stream() {
    let cfg = config_with(
        vec![caption("vtt", "de", "https://broken.vtt")],
        vec![audio_stream(vec![source("https://low", 320, 180)])],
    );
    match fallback_action(&cfg) {
        ResolveAction::Recognize(url) => assert_eq!(url, "https://low"),
        _ => panic!("expected the recognition fallback"),
    }
}

#[test]
fn fallback_fails_without_stream() {
    let cfg = config_with(vec![caption("vtt", "de", "https://broken.vtt")], vec![]);
    match fallback_action(&cfg) {
        ResolveAction::GiveUp => {}
        _ => panic!("expected resolution to fail"),
    }
}

#[test]
fn segment_texts_concatenate_in_order() {
    let segments = strings(&[" Das ist", " trivial.", ""]);
    assert_eq!(join_segment_texts(&segments), " Das ist trivial.");
    let empty: Vec<String> = Vec::new();
    assert_eq!(join_segment_texts(&empty), "");
}

#[test]
fn recognizer_output_is_used_verbatim() {
    let outcome = accept_recognition("  raw recognizer text\n".to_string());
    match outcome {
        TranscriptOutcome::Recognized(text) => assert_eq!(text, "  raw recognizer text\n"),
        _ => panic!("expected a recognized transcript"),
    }
}

fn row(title: &str) -> DataRow {
    make_row(title.to_string(), "https://link".to_string(), "trivial".to_string())
}

#[test]
fn batch_keeps_successes_in_dispatch_order() {
    let results: Vec<Result<DataRow, String>> =
        vec![Ok(row("a")), Ok(row("b")), Ok(row("c"))];
    let rows = collect_rows(results);
    let titles: Vec<String> = rows.iter().map(|r| r.title.clone()).collect();
    assert_eq!(titles, strings(&["a", "b", "c"]));
}

#[test]
fn batch_isolates_one_failure_among_five() {
    let results: Vec<Result<DataRow, String>> = vec![
        Ok(row("a")),
        Ok(row("b")),
        Err("config fetch failed".to_string()),
        Ok(row("d")),
        Ok(row("e")),
    ];
    let rows = collect_rows(results);
    assert_eq!(rows.len(), 4);
    let titles: Vec<String> = rows.iter().map(|r| r.title.clone()).collect();
    assert_eq!(titles, strings(&["a", "b", "d", "e"]));
    for r in &rows {
        assert_eq!((r.defacto, r.trivial, r.sinn), (0, 1, 0));
    }
}

#[test]
fn batch_of_only_failures_is_empty() {
    let results: Vec<Result<DataRow, String>> =
        vec![Err("x".to_string()), Err("y".to_string())];
    assert_eq!(collect_rows(results).len(), 0);
}

#[test]
fn make_row_counts_the_transcript() {
    let row = make_row(
        "Lecture".to_string(),
        "https://page".to_string(),
        "De facto trivial. De facto. Ergibt das Sinn?".to_string(),
    );
    assert_eq!(row.title, "Lecture");
    assert_eq!(row.link, "https://page");
    assert_eq!((row.defacto, row.trivial, row.sinn), (2, 1, 1));
}

#[test]
fn shortened_row_drops_only_the_transcript() {
    let full = make_row("T".to_string(), "L".to_string(), "trivial trivial".to_string());
    let (defacto, trivial, sinn) = (full.defacto, full.trivial, full.sinn);
    let short = ShortenedDataRow::from(full);
    assert_eq!(short.title, "T");
    assert_eq!(short.link, "L");
    assert_eq!((short.defacto, short.trivial, short.sinn), (defacto, trivial, sinn));
}

#[test]
fn config_defaults_the_cache_path() {
    assert_eq!(default_cache_path(), ".cache");
    let login = LoginData { username: "u".to_string(), password: "p".to_string() };
    let defaulted = Config::new(login, None);
    assert_eq!(defaulted.cache_path, ".cache");
    let login2 = LoginData { username: "u".to_string(), password: "p".to_string() };
    let explicit = Config::new(login2, Some("/tmp/cache".to_string()));
    assert_eq!(explicit.cache_path, "/tmp/cache");
}
