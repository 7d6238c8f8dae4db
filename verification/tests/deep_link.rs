use ytune::deep_link::{
    deep_link_action, navigation_target, parse_auth_token, parse_navigate_url, percent_decode,
    DeepLink,
};

#[test]
fn auth_token_simple() {
    assert_eq!(parse_auth_token("ytune://auth/callback?token=abc"), Some("abc".to_string()));
}

#[test]
fn auth_token_among_other_parameters() {
    assert_eq!(
        parse_auth_token("ytune://auth/callback?state=1&token=xyz&next=2"),
        Some("xyz".to_string())
    );
}

#[test]
fn auth_token_first_matching_parameter_wins() {
    assert_eq!(
        parse_auth_token("ytune://auth/callback?token=one&token=two"),
        Some("one".to_string())
    );
}

#[test]
fn auth_token_repeated_key_is_stripped_again_and_again() {
    assert_eq!(
        parse_auth_token("ytune://auth/callback?token=token=abc"),
        Some("abc".to_string())
    );
}

#[test]
fn auth_token_empty_value() {
    assert_eq!(parse_auth_token("ytune://auth/callback?token="), Some(String::new()));
}

#[test]
fn auth_token_wrong_scheme() {
    assert_eq!(parse_auth_token("ytune://open?token=abc"), None);
    assert_eq!(parse_auth_token("https://auth/callback?token=abc"), None);
}

#[test]
fn auth_token_needs_query() {
    assert_eq!(parse_auth_token("ytune://auth/callback"), None);
    assert_eq!(parse_auth_token("ytune://auth/callback?state=1"), None);
}

#[test]
fn auth_token_query_after_first_question_mark() {
    assert_eq!(
        parse_auth_token("ytune://auth/callback?a=1?b&token=t?x"),
        Some("t?x".to_string())
    );
}

#[test]
fn percent_decode_escapes_and_plus() {
    assert_eq!(percent_decode("a%20b+c"), "a b c");
    assert_eq!(percent_decode("%41%62%7e"), "Ab~");
}

#[test]
fn percent_decode_invalid_escape_drops_the_percent() {
    assert_eq!(percent_decode("%zz"), "zz");
    assert_eq!(percent_decode("a%g1b"), "ag1b");
}

#[test]
fn percent_decode_percent_near_the_end_is_kept() {
    assert_eq!(percent_decode("100%"), "100%");
    assert_eq!(percent_decode("%4"), "%4");
}

#[test]
fn percent_decode_plus_sign_inside_escape() {
    assert_eq!(percent_decode("%+F"), "\u{f}");
}

#[test]
fn percent_decode_works_on_bytes() {
    assert_eq!(percent_decode("%C3%A9"), "\u{c3}\u{a9}");
    assert_eq!(percent_decode("é"), "\u{c3}\u{a9}");
}

#[test]
fn navigate_url_decodes_target() {
    assert_eq!(
        parse_navigate_url("ytune://open?url=https%3A%2F%2Fmusic.youtube.com%2Fwatch%3Fv%3Dabc"),
        Some("https://music.youtube.com/watch?v=abc".to_string())
    );
}

#[test]
fn navigate_url_rejects_other_sites() {
    assert_eq!(parse_navigate_url("ytune://open?url=https%3A%2F%2Fexample.com"), None);
}

#[test]
fn navigate_url_needs_prefix_and_parameter() {
    assert_eq!(parse_navigate_url("ytune://auth/callback?url=music.youtube.com"), None);
    assert_eq!(parse_navigate_url("ytune://open?x=music.youtube.com"), None);
    assert_eq!(parse_navigate_url("ytune://open"), None);
}

#[test]
fn deep_link_first_argument_with_a_link_wins() {
    let args = vec![
        "ytune.exe".to_string(),
        "ytune://open?url=https://music.youtube.com/x".to_string(),
        "ytune://auth/callback?token=t".to_string(),
    ];
    assert_eq!(
        deep_link_action(&args),
        Some(DeepLink::Navigate("https://music.youtube.com/x".to_string()))
    );
}

#[test]
fn deep_link_auth_found_after_plain_arguments() {
    let args = vec!["--flag".to_string(), "ytune://auth/callback?token=t".to_string()];
    assert_eq!(deep_link_action(&args), Some(DeepLink::Auth("t".to_string())));
}

#[test]
fn deep_link_none() {
    let args = vec!["a".to_string(), "ytune://open?url=https://example.com".to_string()];
    assert_eq!(deep_link_action(&args), None);
    assert_eq!(deep_link_action(&Vec::new()), None);
}

#[test]
fn navigation_target_parses_urls() {
    let u = navigation_target("https://music.youtube.com/watch?v=1").unwrap();
    assert_eq!(u.host_str(), Some("music.youtube.com"));
    assert!(navigation_target("not a url").is_none());
}

#[test]
fn percent_decode_plain_text_is_unchanged() {
    assert_eq!(percent_decode("hello-world_1.2~x"), "hello-world_1.2~x");
    assert_eq!(percent_decode(""), "");
}

#[test]
fn auth_token_shape() {
    for url in [
        "ytune://auth/callback?token=abc",
        "ytune://auth/callback?x=1&token=token=q&y",
        "ytune://auth/callback?token=",
    ] {
        let t = parse_auth_token(url).unwrap();
        assert!(!t.contains('&'));
        assert!(!t.starts_with("token="));
        assert!(url.contains(&format!("token={}", t)));
    }
}
