use foxeye::search::{hit_text, summarise_words, MIN_WINDOW};
use foxeye::{snippet, summarise, SearchInput, SummaryError};

fn filler(n: usize) -> Vec<String> {
    (0..n).map(|i| format!("w{}", i)).collect()
}

#[test]
fn short_chunk_gives_raw_chunk() {
    let content = "Some Short Chunk about alpha";
    let s = snippet(content, Some(0), Some(content.chars().count() as i64), "alpha", "Title");
    assert_eq!(s, content);
}

#[test]
fn bad_offsets_give_empty_summary() {
    let content = "abcdef";
    assert_eq!(snippet(content, Some(4), Some(2), "q", "t"), "");
    assert_eq!(snippet(content, Some(0), Some(7), "q", "t"), "");
    assert_eq!(snippet(content, Some(-1), Some(3), "q", "t"), "");
    assert_eq!(snippet(content, Some(1), Some(3), "q", "t"), "bc");
}

#[test]
fn missing_end_is_quarter_of_bytes() {
    let content = "abcdefgh";
    assert_eq!(snippet(content, None, None, "q", "t"), "ab");
}

#[test]
fn window_from_densest_hit() {
    let mut words = filler(300);
    words[10] = "alpha".to_string();
    words[50] = "alpha".to_string();
    words[51] = "alpha".to_string();
    words[200] = "alpha".to_string();
    let text = words.join(" ");
    let r = summarise_words(&text, "alpha", 100).unwrap();
    let expected = words[10..200].join(" ");
    assert_eq!(r, expected);
}

#[test]
fn too_short_and_no_hits() {
    let text = filler(50).join(" ");
    assert_eq!(summarise_words(&text, "w1", 100), Err(SummaryError::TooShort));
    let text = filler(150).join(" ");
    assert_eq!(summarise_words(&text, "zzz", 100), Err(SummaryError::NoWindow));
    let mut words = filler(150);
    words[0] = "the".to_string();
    words[120] = "the".to_string();
    assert_eq!(summarise_words(&words.join(" "), "the", 100), Err(SummaryError::NoWindow));
}

#[test]
fn summarise_lowercases_and_cleans() {
    let mut words = filler(300);
    words[5] = "Alpha".to_string();
    words[150] = "ALPHA".to_string();
    let text = words.join(" ");
    let r = summarise(&text, "alpha", MIN_WINDOW).unwrap();
    let expected: Vec<String> = words[5..150].iter().map(|w| w.to_lowercase()).collect();
    assert_eq!(r, expected.join(" "));
}

#[test]
fn snippet_prefers_window_over_chunk() {
    let mut words = filler(300);
    words[20] = "beta".to_string();
    words[140] = "beta".to_string();
    let content = words.join(" ");
    let n = content.chars().count() as i64;
    let s = snippet(&content, Some(0), Some(n), "beta", "Doc");
    assert_eq!(s, words[20..140].join(" "));
}

#[test]
fn search_input_fields() {
    let q = SearchInput { query: "alpha".to_string(), limit: 10, offset: 0 };
    assert_eq!(q.limit, 10);
}

#[test]
fn hits_need_a_url() {
    assert!(hit_text(None, Some("abc".to_string()), None, Some(0), Some(3), "q").is_none());
    let h = hit_text(Some("http://e.test/".to_string()), Some("abc".to_string()), None, Some(0), Some(2), "q")
        .unwrap();
    assert_eq!(h.url, "http://e.test/");
    assert_eq!(h.title, "");
    assert_eq!(h.summary, "ab");
    let h = hit_text(Some("u".to_string()), None, Some("T".to_string()), None, None, "q").unwrap();
    assert_eq!(h.summary, "");
    assert_eq!(h.title, "T");
}
