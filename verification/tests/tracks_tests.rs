use autotagger::tracks::{
    filter_subtitle_tracks, get_comparison_track, get_default_track, ocr_plan,
    track_output_extension, ExtractEvent, ExtractionBatch, OcrPlan, SubtitleTrack, TrackChoice,
    TrackKind, TrackLanguage,
};

fn track(number: u64, lang: Option<TrackLanguage>, default: bool, enabled: bool, kind: TrackKind) -> SubtitleTrack {
    SubtitleTrack {
        number,
        uid: number * 100,
        codec_id: String::from("S_TEXT/UTF8"),
        language: lang,
        default,
        enabled,
        kind,
    }
}

fn iso(code: &str) -> Option<TrackLanguage> {
    Some(TrackLanguage::Iso639(String::from(code)))
}

fn ietf(code: &str) -> Option<TrackLanguage> {
    Some(TrackLanguage::Ietf(String::from(code)))
}

#[test]
fn keeps_only_enabled_english_subtitle_tracks() {
    let tracks = vec![
        track(1, iso("eng"), false, true, TrackKind::Subtitle),
        track(2, iso("fra"), false, true, TrackKind::Subtitle),
        track(3, ietf("en-US"), false, true, TrackKind::Subtitle),
        track(4, ietf("en"), false, false, TrackKind::Subtitle),
        track(5, ietf("en-GB"), false, true, TrackKind::Other),
        track(6, None, false, true, TrackKind::Subtitle),
        track(7, ietf("en-GB"), false, true, TrackKind::Subtitle),
    ];
    let kept = filter_subtitle_tracks(tracks);
    let numbers: Vec<u64> = kept.iter().map(|t| t.number).collect();
    assert_eq!(numbers, vec![1, 3, 7]);
}

#[test]
fn default_track_selection() {
    let none: Vec<SubtitleTrack> = Vec::new();
    assert_eq!(get_default_track(&none), None);

    let single = vec![track(1, iso("eng"), false, true, TrackKind::Subtitle)];
    assert_eq!(get_default_track(&single), Some(0));

    let one_default = vec![
        track(1, iso("eng"), false, true, TrackKind::Subtitle),
        track(2, iso("eng"), true, true, TrackKind::Subtitle),
    ];
    assert_eq!(get_default_track(&one_default), Some(1));

    let two_defaults = vec![
        track(1, iso("eng"), true, true, TrackKind::Subtitle),
        track(2, iso("eng"), true, true, TrackKind::Subtitle),
    ];
    assert_eq!(get_default_track(&two_defaults), None);

    let no_default = vec![
        track(1, iso("eng"), false, true, TrackKind::Subtitle),
        track(2, iso("eng"), false, true, TrackKind::Subtitle),
    ];
    assert_eq!(get_default_track(&no_default), None);
}

#[test]
fn comparison_track_choice() {
    let none: Vec<SubtitleTrack> = Vec::new();
    assert!(matches!(get_comparison_track(&none), TrackChoice::NoTracks));

    let single = vec![track(1, iso("eng"), false, true, TrackKind::Subtitle)];
    assert!(matches!(get_comparison_track(&single), TrackChoice::Auto(0)));

    let ambiguous = vec![
        track(1, iso("eng"), false, true, TrackKind::Subtitle),
        track(2, iso("eng"), false, true, TrackKind::Subtitle),
    ];
    assert!(matches!(get_comparison_track(&ambiguous), TrackChoice::NeedsPrompt));
}

#[test]
fn extension_by_codec() {
    assert_eq!(track_output_extension("S_TEXT/UTF8"), "srt");
    assert_eq!(track_output_extension("S_VOBSUB"), "sub");
    assert_eq!(track_output_extension("S_HDMV/PGS"), "sup");
    assert_eq!(track_output_extension("A_AAC"), "dat");
}

#[test]
fn ocr_plan_by_codec() {
    assert!(matches!(ocr_plan("S_VOBSUB"), OcrPlan::OcrDirectly));
    assert!(matches!(ocr_plan("S_HDMV/PGS"), OcrPlan::ConvertThenOcr));
    assert!(matches!(ocr_plan("S_TEXT/UTF8"), OcrPlan::NoOcr));
}

#[test]
fn batch_stops_at_first_failure_keeping_earlier_output() {
    let mut batch = ExtractionBatch::new(3);
    assert!(batch.running());
    batch.step(ExtractEvent::ExtractExit { success: true });
    assert!(batch.running());
    batch.step(ExtractEvent::ExtractExit { success: false });
    // The batch surfaces a fatal error at the failing file and goes no
    // further; the file extracted before it keeps its output.
    assert!(!batch.running());
    assert_eq!(batch.failed, Some(1));
    assert_eq!(batch.extracted, vec![0]);
    assert_eq!(batch.skipped, Vec::<usize>::new());
}

#[test]
fn batch_skips_files_without_suitable_tracks() {
    let mut batch = ExtractionBatch::new(3);
    batch.step(ExtractEvent::NoSuitableTrack);
    batch.step(ExtractEvent::ExtractExit { success: true });
    batch.step(ExtractEvent::NoSuitableTrack);
    assert!(!batch.running());
    assert_eq!(batch.failed, None);
    assert_eq!(batch.extracted, vec![1]);
    assert_eq!(batch.skipped, vec![0, 2]);
}
