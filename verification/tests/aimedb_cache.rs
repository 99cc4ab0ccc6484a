use brokeamu::aimedb::{aimedb_lookup, AimedbStep, aimedb_outcome, aimedb_request_url, quoted_code_of_body, AccessCodeCache, AimedbOutcome, AimedbReply};

#[test]
fn cache_reads_a_json_object_of_strings() {
    let cache = AccessCodeCache::from_json("{\"3500bd2ae3724e58\": \"12345678901234567890\", \"01\": \"x\"}");
    assert_eq!(cache.get("3500bd2ae3724e58").as_deref(), Some("12345678901234567890"));
    assert_eq!(cache.get("01").as_deref(), Some("x"));
    assert_eq!(cache.get("02"), None);
}

#[test]
fn damaged_cache_file_is_an_empty_cache() {
    for text in ["", "not json", "[1, 2]", "{\"a\": 1}", "{\"a\": \"b\""] {
        let cache = AccessCodeCache::from_json(text);
        assert_eq!(cache.get("a"), None, "{text}");
    }
}

#[test]
fn cache_read_after_write() {
    let mut cache = AccessCodeCache::new();
    assert_eq!(cache.get("a"), None);
    cache.insert("a", "1");
    cache.insert("b", "2");
    assert_eq!(cache.get("a").as_deref(), Some("1"));
    cache.insert("a", "3");
    assert_eq!(cache.get("a").as_deref(), Some("3"));
    assert_eq!(cache.get("b").as_deref(), Some("2"));
    assert_eq!(cache.get("c"), None);
}

#[test]
fn cache_written_as_json_reads_back() {
    let mut cache = AccessCodeCache::new();
    cache.insert("3500bd2ae3724e58", "12345678901234567890");
    cache.insert("quote\"d", "line\nbreak");
    let text = cache.to_json().expect("serialisable");
    assert!(text.contains("\"3500bd2ae3724e58\": \"12345678901234567890\""));
    let back = AccessCodeCache::from_json(&text);
    assert_eq!(back.get("3500bd2ae3724e58").as_deref(), Some("12345678901234567890"));
    assert_eq!(back.get("quote\"d").as_deref(), Some("line\nbreak"));
}

#[test]
fn request_url_names_the_idm() {
    assert_eq!(aimedb_request_url("3500bd2ae3724e58"), "https://card.bsnk.me/normalise/sega:3500bd2ae3724e58");
}

#[test]
fn code_is_taken_from_between_the_quotes() {
    assert_eq!(quoted_code_of_body("\"01234567890123456789\"").as_deref(), Some("01234567890123456789"));
    assert_eq!(quoted_code_of_body("\"01234567890123456789").as_deref(), Some("01234567890123456789"));
    assert_eq!(quoted_code_of_body("\"0123456789012345678"), None);
    assert_eq!(quoted_code_of_body(""), None);
    // A multi-byte first character puts byte 1 inside it.
    assert_eq!(quoted_code_of_body("é01234567890123456789"), None);
    // Byte 21 inside a multi-byte character.
    assert_eq!(quoted_code_of_body("\"0123456789012345678é"), None);
    // Multi-byte characters that end on byte 21.
    assert_eq!(quoted_code_of_body("\"012345678901234567é\"").as_deref(), Some("012345678901234567é"));
}

#[test]
fn outcome_of_each_reply() {
    match aimedb_outcome("ff", &AimedbReply::RequestFailed) {
        AimedbOutcome::Uncached(c) => assert_eq!(c, "000255"),
        _ => panic!("a failed request is not cached"),
    }
    match aimedb_outcome("ff", &AimedbReply::Unsuccessful) {
        AimedbOutcome::Cached(c) => assert_eq!(c, "000255"),
        _ => panic!("expected the fallback code"),
    }
    match aimedb_outcome("ff", &AimedbReply::BodyUnreadable) {
        AimedbOutcome::Cached(c) => assert_eq!(c, "000255"),
        _ => panic!("expected the fallback code"),
    }
    match aimedb_outcome("ff", &AimedbReply::Body("\"50123456789012345678\"".to_string())) {
        AimedbOutcome::Cached(c) => assert_eq!(c, "50123456789012345678"),
        _ => panic!("expected the service's code"),
    }
    assert!(matches!(aimedb_outcome("ff", &AimedbReply::Body("\"5\"".to_string())), AimedbOutcome::MalformedBody));
}

#[test]
fn a_recorded_code_needs_no_request() {
    let mut cache = AccessCodeCache::new();
    match aimedb_lookup(&cache, "ff") {
        AimedbStep::Ask(url) => assert_eq!(url, "https://card.bsnk.me/normalise/sega:ff"),
        AimedbStep::Cached(_) => panic!("nothing is cached yet"),
    }
    cache.insert("ff", "50123456789012345678");
    let reloaded = AccessCodeCache::from_json(&cache.to_json().unwrap());
    match aimedb_lookup(&reloaded, "ff") {
        AimedbStep::Cached(code) => assert_eq!(code, "50123456789012345678"),
        AimedbStep::Ask(_) => panic!("a recorded code is asked for again"),
    }
}
