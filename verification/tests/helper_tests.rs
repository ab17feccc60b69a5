use tiny_beast_dictionary::helper::{find_absolute_path, str_eq, toggle_menu_item_status};
use tiny_beast_dictionary::online::{parse_sentencedict_resp, OnlineTranslator, OtherTranslator};
use tiny_beast_dictionary::textnorm::normalize_word;

#[test]
fn absolute_path_joins_with_a_separator() {
    assert_eq!(find_absolute_path("/cache/app", "json_dictionaries/fr"), "/cache/app/json_dictionaries/fr");
    assert_eq!(find_absolute_path("", ""), "/");
}

#[test]
fn menu_title_reflects_the_toggle() {
    assert_eq!(toggle_menu_item_status("Translate Clipboard", true), "\u{25cf} Translate Clipboard");
    assert_eq!(toggle_menu_item_status("Translate Clipboard", false), "\u{25cb} Translate Clipboard");
}

#[test]
fn str_eq_compares_content() {
    assert!(str_eq("zh-CN", "zh-CN"));
    assert!(!str_eq("zh-CN", "zh-cn"));
    assert!(!str_eq("ab", "abc"));
}

#[test]
fn normalization_trims_and_lowercases() {
    assert_eq!(normalize_word("  CHAT \t"), "chat");
    assert_eq!(normalize_word("\u{c9}T\u{c9}"), "\u{e9}t\u{e9}");
    assert_eq!(normalize_word(""), "");
}

#[test]
fn translator_normalizes_its_query() {
    let t = OnlineTranslator {
        to: "fr".to_string(),
        from: "en".to_string(),
    };
    assert_eq!(t.normalized_query(" Hello "), "hello");
}

const MARKED_PAGE: &str = "<html><!--\u{6700}\u{5927}\u{9ad8}\u{5ea6}\u{4e3a}105px,\u{80fd}\u{663e}\u{793a}5\u{884c}\u{591a}\u{7684}\u{6837}\u{5b50}-->  One example sentence. <!--all\u{7ed3}\u{675f}--> rest</html>";

#[test]
fn sentencedict_page_parses_to_the_marked_section() {
    assert_eq!(parse_sentencedict_resp(MARKED_PAGE), "One example sentence.");
}

#[test]
fn page_without_markers_parses_to_nothing() {
    assert_eq!(parse_sentencedict_resp("<html>nothing here</html>"), "");
}

#[test]
fn page_without_end_marker_parses_to_the_tail() {
    let page = "x<!--\u{6700}\u{5927}\u{9ad8}\u{5ea6}\u{4e3a}105px,\u{80fd}\u{663e}\u{793a}5\u{884c}\u{591a}\u{7684}\u{6837}\u{5b50}--> tail ";
    assert_eq!(parse_sentencedict_resp(page), "tail");
}

#[test]
fn multi_word_queries_skip_the_sentence_dictionary() {
    assert_eq!(OtherTranslator::sentencedict_translate("two words", MARKED_PAGE), "");
    assert_eq!(
        OtherTranslator::sentencedict_translate("word", MARKED_PAGE),
        "One example sentence."
    );
}
