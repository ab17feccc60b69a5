use tiny_beast_dictionary::rectify::{rectify, rectify_text, RectifyError};
use tiny_beast_dictionary::registry::OfflineDict;

fn entry(code: &str, name: &str) -> OfflineDict {
    OfflineDict {
        code: code.to_string(),
        name: name.to_string(),
        url: String::new(),
        length_mb: 1,
    }
}

#[test]
fn scenario_two_records() {
    let dump = "\"word\": \"cat\", \"lang\": \"English\", \"lang_code\": \"en\", \"pos\":\"noun\"}\n\"word\": \"dog\", \"lang\": \"English\", \"lang_code\": \"en\", \"pos\":\"noun\"}\n";
    let out = rectify_text(dump, "English", "en", 4);
    assert_eq!(out, "{\"cat\":{\"pos\":\"noun\"},\"dog\":{\"pos\":\"noun\"}}");
}

#[test]
fn empty_dump_rectifies_to_empty_object() {
    let out = rectify_text("", "English", "en", 4);
    assert_eq!(out, "{}");
    let parsed: serde_json::Value = serde_json::from_str(&out).unwrap();
    assert_eq!(parsed.as_object().unwrap().len(), 0);
}

#[test]
fn worker_count_does_not_change_the_text() {
    let mut dump = String::new();
    for i in 0..10 {
        dump.push_str(&format!(
            "\"word\": \"w{}\", \"lang\": \"French\", \"lang_code\": \"fr\", \"n\":{}}}\n",
            i, i
        ));
    }
    let reference = rectify_text(&dump, "French", "fr", 1);
    for workers in 2..6 {
        assert_eq!(rectify_text(&dump, "French", "fr", workers), reference);
    }
}

#[test]
fn records_of_the_wrong_shape_are_skipped() {
    let dump = "garbage line\n\"word\": \"cat\", \"lang\": \"English\", \"lang_code\": \"en\", \"pos\":\"noun\"}\n\"word\": \"late\", \"lang\": \"German\", \"lang_code\": \"de\", \"pos\":\"x\"}\n";
    let out = rectify_text(dump, "English", "en", 4);
    assert_eq!(out, "{\"cat\":{\"pos\":\"noun\"}}");
}

#[test]
fn text_after_the_last_newline_is_dropped() {
    let dump = "\"word\": \"cat\", \"lang\": \"English\", \"lang_code\": \"en\", \"pos\":\"noun\"}\n\"word\": \"dog\", \"lang\": \"English\", \"lang_code\": \"en\", \"pos\":\"noun\"}";
    let out = rectify_text(dump, "English", "en", 4);
    assert_eq!(out, "{\"cat\":{\"pos\":\"noun\"}}");
}

#[test]
fn rectified_text_parses_as_the_reference_mapping() {
    let dump = "\"word\": \"a\", \"lang\": \"English\", \"lang_code\": \"en\", \"n\":1}\nnoise\n\"word\": \"b\", \"lang\": \"English\", \"lang_code\": \"en\", \"n\":{\"m\":[2,3]}}\n";
    let out = rectify_text(dump, "English", "en", 3);
    let parsed: serde_json::Value = serde_json::from_str(&out).unwrap();
    let obj = parsed.as_object().unwrap();
    // the reference mapping: each record parsed on its own, metadata stripped
    let mut reference = serde_json::Map::new();
    reference.insert(
        "a".to_string(),
        serde_json::from_str::<serde_json::Value>("{\"n\":1}").unwrap(),
    );
    reference.insert(
        "b".to_string(),
        serde_json::from_str::<serde_json::Value>("{\"n\":{\"m\":[2,3]}}").unwrap(),
    );
    assert_eq!(obj, &reference);
}

#[test]
fn duplicate_words_resolve_to_the_later_record() {
    let dump = "\"word\": \"cat\", \"lang\": \"English\", \"lang_code\": \"en\", \"n\":1}\n\"word\": \"cat\", \"lang\": \"English\", \"lang_code\": \"en\", \"n\":2}\n";
    let out = rectify_text(dump, "English", "en", 2);
    let parsed: serde_json::Value = serde_json::from_str(&out).unwrap();
    assert_eq!(parsed.as_object().unwrap()["cat"]["n"], 2);
}

#[test]
fn rectify_validates_and_returns_the_text() {
    let dump = "\"word\": \"cat\", \"lang\": \"English\", \"lang_code\": \"en\", \"pos\":\"noun\"}\n";
    let lang = entry("en", "English");
    let out = rectify(dump, &lang, 4).unwrap();
    assert_eq!(out, "{\"cat\":{\"pos\":\"noun\"}}");
}

#[test]
fn rectify_reports_a_malformed_result() {
    // the record's payload is not valid JSON, so the assembled text fails
    // validation and must not be published
    let dump = "\"word\": \"cat\", \"lang\": \"English\", \"lang_code\": \"en\", oops\n";
    let lang = entry("en", "English");
    let r = rectify(dump, &lang, 4);
    assert!(matches!(r, Err(RectifyError::Malformed)));
}

#[test]
fn words_keep_non_ascii_characters() {
    let dump = "\"word\": \"ch\u{e2}teau\", \"lang\": \"French\", \"lang_code\": \"fr\", \"pos\":\"noun\"}\n";
    let out = rectify_text(dump, "French", "fr", 1);
    assert_eq!(out, "{\"ch\u{e2}teau\":{\"pos\":\"noun\"}}");
}

#[test]
fn hyphenated_codes_rectify_too() {
    let dump = "\"word\": \"\u{732b}\", \"lang\": \"Chinese\", \"lang_code\": \"zh-CN\", \"pos\":\"noun\"}\n";
    let out = rectify_text(dump, "Chinese", "zh-CN", 4);
    assert_eq!(out, "{\"\u{732b}\":{\"pos\":\"noun\"}}");
}

#[test]
fn records_of_another_language_are_skipped() {
    // the registry name must match the record's lang field for a record to count
    let dump = "\"word\": \"cat\", \"lang\": \"English\", \"lang_code\": \"en\", \"pos\":\"noun\"}\n";
    assert_eq!(rectify_text(dump, "French", "en", 1), "{}");
    assert_eq!(rectify_text(dump, "English", "fr", 1), "{}");
}
