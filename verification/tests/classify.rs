use zurl::classify::{address_gives_port, classify_parsed};
use zurl::{classify_input, InputType, ParsedUrl};

fn full_url(kind: &InputType) -> &str {
    match kind {
        InputType::FullUrl(url) => url.serialization.as_str(),
        InputType::FuzzyPattern(pattern) => panic!("a pattern: {:?}", pattern),
    }
}

fn words(items: &[&str]) -> Vec<String> {
    items.iter().map(|item| item.to_string()).collect()
}

#[test]
fn explicit_scheme_is_a_full_url() {
    let kind = classify_input("https://example.com/blog/posts");
    assert_eq!(full_url(&kind), "https://example.com/blog/posts");
}

#[test]
fn explicit_scheme_keeps_what_the_parser_read() {
    match classify_input("https://EXAMPLE.com:8443/a?b=c") {
        InputType::FullUrl(url) => {
            assert_eq!(url.serialization, "https://example.com:8443/a?b=c");
            assert_eq!(url.host, Some("example.com".to_string()));
            assert_eq!(url.port, Some(8443));
            assert_eq!(url.path_segments, Some(words(&["a"])));
        }
        other => panic!("not a URL: {:?}", other),
    }
}

#[test]
fn explicit_scheme_without_host_dot_is_still_a_full_url() {
    let kind = classify_input("ftp://files/pub");
    assert_eq!(full_url(&kind), "ftp://files/pub");
}

#[test]
fn dotted_host_gets_https() {
    let kind = classify_input("example.com/a");
    assert_eq!(full_url(&kind), "https://example.com/a");
}

#[test]
fn bare_domain_gets_https_and_a_root_path() {
    let kind = classify_input("example.com");
    assert_eq!(full_url(&kind), "https://example.com/");
}

#[test]
fn port_gets_http() {
    let kind = classify_input("localhost:8080");
    assert_eq!(full_url(&kind), "http://localhost:8080/");
}

#[test]
fn default_port_still_makes_a_full_url() {
    match classify_input("localhost:80") {
        InputType::FullUrl(url) => {
            assert_eq!(url.serialization, "http://localhost/");
            assert_eq!(url.port, None);
        }
        other => panic!("not a URL: {:?}", other),
    }
    let kind = classify_input("localhost:80/status");
    assert_eq!(full_url(&kind), "http://localhost/status");
}

#[test]
fn port_on_an_address_in_brackets() {
    let kind = classify_input("[::1]:80");
    assert_eq!(full_url(&kind), "http://[::1]/");
}

#[test]
fn port_too_large_is_a_pattern() {
    assert_eq!(
        classify_input("localhost:99999"),
        InputType::FuzzyPattern(words(&["localhost:99999"]))
    );
}

#[test]
fn colon_without_a_number_is_a_pattern() {
    assert_eq!(
        classify_input("localhost:"),
        InputType::FuzzyPattern(words(&["localhost:"]))
    );
}

#[test]
fn which_addresses_give_a_port() {
    assert!(address_gives_port("localhost:80"));
    assert!(address_gives_port("localhost:8080/a:b"));
    assert!(address_gives_port("example.com:443?x=1"));
    assert!(address_gives_port("example.com:443#top"));
    assert!(address_gives_port("host:80\\path"));
    assert!(address_gives_port("user@host:1"));
    assert!(address_gives_port("[::1]:80"));
    assert!(address_gives_port(":80"));
    assert!(!address_gives_port("localhost"));
    assert!(!address_gives_port("localhost:"));
    assert!(!address_gives_port("localhost:/80"));
    assert!(!address_gives_port("localhost:80a"));
    assert!(!address_gives_port("localhost:a80"));
    assert!(!address_gives_port("user:80@host"));
    assert!(!address_gives_port("[::1]"));
    assert!(!address_gives_port("docs/api:80"));
    assert!(!address_gives_port("80"));
    assert!(!address_gives_port(""));
}

#[test]
fn decision_on_given_parses() {
    let shown = ParsedUrl {
        serialization: "http://localhost/".to_string(),
        host: Some("localhost".to_string()),
        port: None,
        path_segments: Some(words(&[""])),
    };
    assert_eq!(
        classify_parsed("localhost:80", None, Some(shown.clone())),
        InputType::FullUrl(shown.clone())
    );
    assert_eq!(
        classify_parsed("localhost", None, Some(shown.clone())),
        InputType::FuzzyPattern(words(&["localhost"]))
    );
    assert_eq!(
        classify_parsed("x://localhost", Some(shown.clone()), None),
        InputType::FullUrl(shown.clone())
    );
    assert_eq!(
        classify_parsed("localhost", Some(shown), None),
        InputType::FuzzyPattern(words(&["localhost"]))
    );
}

#[test]
fn dotted_host_with_port_gets_http() {
    let kind = classify_input("example.com:3000/x");
    assert_eq!(full_url(&kind), "http://example.com:3000/x");
}

#[test]
fn plain_words_are_a_pattern() {
    assert_eq!(
        classify_input("docs/api"),
        InputType::FuzzyPattern(words(&["docs", "api"]))
    );
}

#[test]
fn single_word_is_a_pattern() {
    assert_eq!(classify_input("docs"), InputType::FuzzyPattern(words(&["docs"])));
}

#[test]
fn pattern_is_lowercased_and_loses_empty_parts() {
    assert_eq!(
        classify_input("/Docs//API/"),
        InputType::FuzzyPattern(words(&["docs", "api"]))
    );
}

#[test]
fn unparsable_scheme_falls_back_to_a_pattern() {
    assert_eq!(
        classify_input("://nowhere"),
        InputType::FuzzyPattern(words(&[":", "nowhere"]))
    );
}

#[test]
fn only_slashes_is_the_empty_pattern() {
    assert_eq!(classify_input("///"), InputType::FuzzyPattern(Vec::new()));
}

#[test]
fn empty_address_is_the_empty_pattern() {
    assert_eq!(classify_input(""), InputType::FuzzyPattern(Vec::new()));
}
