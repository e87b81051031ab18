use autotagger::subtitles::{
    build_search_query, summarize_search_results, SubtitleEntry, SubtitleError, SubtitleFileRef,
    TokenCache,
};

fn entry(lang: &str, uploader: &str, rank: &str, files: Vec<(u32, &str)>) -> SubtitleEntry {
    SubtitleEntry {
        language: String::from(lang),
        uploader_name: String::from(uploader),
        uploader_rank: String::from(rank),
        files: files
            .into_iter()
            .map(|(file_id, file_name)| SubtitleFileRef {
                file_id,
                file_name: String::from(file_name),
            })
            .collect(),
    }
}

#[test]
fn summaries_flatten_entries_in_order() {
    let entries = vec![
        entry("en", "bob", "trusted", vec![(11, "a.srt"), (12, "b.srt")]),
        entry("en", "eve", "bronze", vec![(21, "c.srt")]),
    ];
    let summaries = summarize_search_results(&entries).unwrap();
    assert_eq!(summaries.len(), 3);
    assert_eq!(summaries[0].file_id, 11);
    assert_eq!(summaries[0].name, "lang: en, name: a.srt, uploader: bob (trusted)");
    assert_eq!(summaries[1].file_id, 12);
    assert_eq!(summaries[1].name, "lang: en, name: b.srt, uploader: bob (trusted)");
    assert_eq!(summaries[2].file_id, 21);
    assert_eq!(summaries[2].name, "lang: en, name: c.srt, uploader: eve (bronze)");
}

#[test]
fn no_results_is_an_error() {
    let empty: Vec<SubtitleEntry> = Vec::new();
    assert!(matches!(summarize_search_results(&empty), Err(SubtitleError::NoSubtitlesFound)));

    let fileless = vec![entry("en", "bob", "trusted", vec![])];
    assert!(matches!(summarize_search_results(&fileless), Err(SubtitleError::NoSubtitlesFound)));
}

#[test]
fn error_message_text() {
    assert_eq!(SubtitleError::NoSubtitlesFound.message(), "No subtitles found for title");
}

#[test]
fn token_cache_keeps_first_token() {
    let mut cache = TokenCache::new();
    assert!(cache.get().is_none());
    cache.fill(String::from("first-token"));
    assert_eq!(cache.get().unwrap().as_str(), "first-token");
    cache.fill(String::from("second-token"));
    assert_eq!(cache.get().unwrap().as_str(), "first-token");
}

#[test]
fn search_query_is_percent_encoded() {
    assert_eq!(build_search_query("Hello world"), "Hello%20world");
    assert_eq!(build_search_query("Doctor Who (2005)"), "Doctor%20Who%20%282005%29");
}

#[test]
fn unreserved_titles_pass_through() {
    assert_eq!(build_search_query("Firefly"), "Firefly");
    assert_eq!(build_search_query(""), "");
}
