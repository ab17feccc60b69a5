use tiny_beast_dictionary::registry::default_registry;
use tiny_beast_dictionary::store::{Dictionary, DictionaryStore, LookupError};

fn dict(pairs: &[(&str, &str)]) -> Dictionary {
    Dictionary {
        entries: pairs
            .iter()
            .map(|(w, d)| (w.to_string(), d.to_string()))
            .collect(),
    }
}

#[test]
fn lookup_lifecycle_for_a_language() {
    let mut store = DictionaryStore::new(default_registry());
    assert_eq!(
        store.lookup("fr", "chat"),
        Err(LookupError::DictionaryUnavailable)
    );
    assert!(store.install("fr", dict(&[("chat", "{\"pos\":\"noun\"}")])));
    assert_eq!(store.lookup("fr", "chat"), Ok("{\"pos\":\"noun\"}".to_string()));
    assert!(store.delete("fr"));
    assert_eq!(
        store.lookup("fr", "chat"),
        Err(LookupError::DictionaryUnavailable)
    );
}

#[test]
fn lookup_normalizes_the_query() {
    let mut store = DictionaryStore::new(default_registry());
    store.install("fr", dict(&[("chat", "1")]));
    assert_eq!(store.lookup("fr", "  CHAT \n"), Ok("1".to_string()));
    assert_eq!(store.lookup("fr", "Chat"), Ok("1".to_string()));
}

#[test]
fn missing_word_is_not_found() {
    let mut store = DictionaryStore::new(default_registry());
    store.install("en", dict(&[("cat", "1")]));
    assert_eq!(store.lookup("en", "dog"), Err(LookupError::NotFound));
}

#[test]
fn unknown_language_is_unavailable() {
    let store = DictionaryStore::new(default_registry());
    assert_eq!(
        store.lookup("xx", "cat"),
        Err(LookupError::DictionaryUnavailable)
    );
}

#[test]
fn languages_are_independent() {
    let mut store = DictionaryStore::new(default_registry());
    store.install("fr", dict(&[("chat", "1")]));
    store.install("de", dict(&[("katze", "2")]));
    assert_eq!(store.lookup("fr", "chat"), Ok("1".to_string()));
    assert_eq!(store.lookup("de", "katze"), Ok("2".to_string()));
    store.delete("fr");
    assert_eq!(
        store.lookup("fr", "chat"),
        Err(LookupError::DictionaryUnavailable)
    );
    assert_eq!(store.lookup("de", "katze"), Ok("2".to_string()));
}

#[test]
fn dictionary_parse_reads_a_json_object() {
    let d = Dictionary::parse("{\"cat\":{\"pos\":\"noun\"},\"dog\":7}").unwrap();
    assert_eq!(d.get("cat"), Some("{\"pos\":\"noun\"}".to_string()));
    assert_eq!(d.get("dog"), Some("7".to_string()));
    assert_eq!(d.get("fox"), None);
}

#[test]
fn dictionary_parse_rejects_other_texts() {
    assert!(Dictionary::parse("[1,2]").is_none());
    assert!(Dictionary::parse("{\"a\":").is_none());
    assert!(Dictionary::parse("").is_none());
}

#[test]
fn later_entry_wins_in_a_dictionary() {
    let d = dict(&[("cat", "1"), ("cat", "2")]);
    assert_eq!(d.get("cat"), Some("2".to_string()));
    let parsed = Dictionary::parse("{\"cat\":1,\"cat\":2}").unwrap();
    assert_eq!(parsed.get("cat"), Some("2".to_string()));
}

#[test]
fn registry_holds_the_nine_languages() {
    let registry = default_registry();
    assert_eq!(registry.len(), 9);
    let codes: Vec<&str> = registry.iter().map(|e| e.code.as_str()).collect();
    assert_eq!(
        codes,
        vec!["en", "fr", "de", "es", "it", "fa", "pt", "zh-CN", "ar"]
    );
    assert_eq!(registry[5].name, "Persian");
    assert_eq!(registry[5].length_mb, 3);
    assert!(registry.iter().all(|e| e.url.ends_with(".tar.xz")));
}

#[test]
fn reinstall_replaces_the_dictionary() {
    let mut store = DictionaryStore::new(default_registry());
    store.install("fr", dict(&[("chat", "1")]));
    store.install("fr", dict(&[("chien", "2")]));
    assert_eq!(store.lookup("fr", "chat"), Err(LookupError::NotFound));
    assert_eq!(store.lookup("fr", "chien"), Ok("2".to_string()));
}
