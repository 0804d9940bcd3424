use paytp_merchant::http::{CacheSim, ResponseHeaders, CAPABILITY_HEADER, ROLES_HEADER};

fn cacheable() -> ResponseHeaders {
    ResponseHeaders {
        cache_control: None,
        vary: vec![CAPABILITY_HEADER.to_string(), ROLES_HEADER.to_string()],
    }
}

#[test]
fn quote_402_is_no_store_and_varies_on_both_headers() {
    let h = ResponseHeaders::quote_402();
    assert!(h.is_no_store());
    assert!(h.vary.contains(&CAPABILITY_HEADER.to_string()));
    assert!(h.vary.contains(&ROLES_HEADER.to_string()));
}

#[test]
fn authenticated_responses_have_the_same_headers() {
    assert_eq!(ResponseHeaders::authenticated(), ResponseHeaders::quote_402());
    assert!(!cacheable().is_no_store());
    let other = ResponseHeaders {
        cache_control: Some("max-age=60".to_string()),
        vary: Vec::new(),
    };
    assert!(!other.is_no_store());
}

#[test]
fn no_store_quote_is_never_cached() {
    let mut cache = CacheSim::new();
    let url = "https://api.example/resource";
    let mut built = 0;
    let mut produce = || {
        built += 1;
        (ResponseHeaders::quote_402(), format!("quote-{built}"))
    };
    let a = cache.fetch(url, "1", "roles-A", &mut produce);
    let b = cache.fetch(url, "1", "roles-A", &mut produce);
    assert_eq!(a, "quote-1");
    assert_eq!(b, "quote-2");
    assert_eq!(cache.misses, 2);
    assert_eq!(cache.hits, 0);
}

#[test]
fn cross_role_poisoning_prevented() {
    let mut cache = CacheSim::new();
    let url = "https://api.example/resource";
    let a = cache.fetch(url, "1", "roles-A", || (cacheable(), "body-for-roles-A".to_string()));
    assert_eq!(a, "body-for-roles-A");
    // Another role header is a miss.
    let b = cache.fetch(url, "1", "roles-B", || (cacheable(), "body-for-roles-B".to_string()));
    assert_eq!(b, "body-for-roles-B");
    // The same role header again is served from the cache.
    let a2 = cache.fetch(url, "1", "roles-A", || (cacheable(), "SHOULD-NOT-RUN".to_string()));
    assert_eq!(a2, "body-for-roles-A");
    assert_eq!(cache.hits, 1);
    assert_eq!(cache.misses, 2);
}

#[test]
fn a_response_that_varies_on_nothing_answers_every_request_for_its_url() {
    let mut cache = CacheSim::new();
    let plain = || ResponseHeaders {
        cache_control: None,
        vary: Vec::new(),
    };
    assert_eq!(cache.fetch("u", "1", "a", || (plain(), "x".to_string())), "x");
    assert_eq!(cache.fetch("u", "2", "b", || (plain(), "y".to_string())), "x");
    assert_eq!(cache.fetch("v", "2", "b", || (plain(), "z".to_string())), "z");
    assert_eq!((cache.hits, cache.misses), (1, 2));
    assert_eq!(cache.entries.len(), 2);
}

#[test]
fn the_key_spells_out_the_varying_headers() {
    let vary = vec![ROLES_HEADER.to_string(), "Accept".to_string()];
    let key = paytp_merchant::http::key("u", &vary, "1", "r");
    assert_eq!(key, vec!["u", "PayTP-Roles", "r", "Accept", ""]);
}

#[test]
fn no_header_value_passes_for_another_part_of_the_key() {
    let both = || ResponseHeaders {
        cache_control: None,
        vary: vec!["PayTP".to_string(), "PayTP-Roles".to_string()],
    };
    let mut cache = CacheSim::new();
    let first = cache.fetch("u", "1\u{1f}PayTP-Roles=A", "B", || (both(), "X".to_string()));
    assert_eq!(first, "X");
    let second = cache.fetch("u", "1", "A\u{1f}PayTP-Roles=B", || (both(), "Y".to_string()));
    assert_eq!(second, "Y");
    assert_eq!((cache.hits, cache.misses), (0, 2));
}
