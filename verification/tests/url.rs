use tag_catalog::payload::{BadColumnType, ColumnValue, JsonValue};
use tag_catalog::types::url::constraints::{
    github_url, instagram_url, twitter_url, ConstrainedUrl, GitHubUrl, InstagramUrl, TwitterUrl,
};
use tag_catalog::types::url::{
    is_valid_url, ConstrainedDiscordUrl, DiscordUrl, UrlError, UrlParts,
};

#[test]
fn test_js_non_http_url() {
    let res = DiscordUrl::from_str("javascript:alert(1)");
    assert!(res.is_err(), "Expected url rejection for non http(s) protocols.");
}

#[test]
fn test_mailto_non_http_url() {
    let res = DiscordUrl::from_str("mailto:test@discordlist.gg");
    assert!(res.is_err(), "Expected url rejection for non http(s) protocols.");
}

#[test]
fn test_github_constrained_url_expect_ok() {
    let res = ConstrainedDiscordUrl::<GitHubUrl>::from_str("https://github.com");
    assert!(res.is_ok(), "Expected url pass for GitHubUrl urls.");
}

#[test]
fn test_github_constrained_url_expect_err() {
    let res = ConstrainedDiscordUrl::<GitHubUrl>::from_str("mailto:test@discordlist.gg");
    assert!(res.is_err(), "Expected url rejection for non GitHubUrl urls.");

    let res = ConstrainedDiscordUrl::<GitHubUrl>::from_str("https://discordlist.gg");
    assert!(res.is_err(), "Expected url rejection for non GitHubUrl urls.");
}

#[test]
fn test_twitter_constrained_url_expect_ok() {
    let res = ConstrainedDiscordUrl::<TwitterUrl>::from_str("https://twitter.com");
    assert!(res.is_ok(), "Expected url pass for TwitterUrl urls.");
}

#[test]
fn test_twitter_constrained_url_expect_err() {
    let res = ConstrainedDiscordUrl::<TwitterUrl>::from_str("mailto:test@discordlist.gg");
    assert!(res.is_err(), "Expected url rejection for non TwitterUrl urls.");

    let res = ConstrainedDiscordUrl::<TwitterUrl>::from_str("https://discordlist.gg");
    assert!(res.is_err(), "Expected url rejection for non TwitterUrl urls.");
}

#[test]
fn test_instagram_constrained_url_expect_ok() {
    let res = ConstrainedDiscordUrl::<InstagramUrl>::from_str("https://instagram.com");
    assert!(res.is_ok(), "Expected url pass for InstagramUrl urls.");
}

#[test]
fn test_instagram_constrained_url_expect_err() {
    let res = ConstrainedDiscordUrl::<InstagramUrl>::from_str("mailto:test@discordlist.gg");
    assert!(res.is_err(), "Expected url rejection for non InstagramUrl urls.");

    let res = ConstrainedDiscordUrl::<InstagramUrl>::from_str("https://discordlist.gg");
    assert!(res.is_err(), "Expected url rejection for non InstagramUrl urls.");
}

#[test]
fn url_is_taken_apart_by_the_parser() {
    let url = DiscordUrl::from_str("HTTPS://Example.COM:8080/a b?q=1#frag").unwrap();
    assert_eq!(url.as_str(), "https://example.com:8080/a%20b?q=1#frag");
    assert_eq!(url.0.scheme, "https");
    assert_eq!(url.0.username, "");
    assert_eq!(url.0.password, None);
    assert!(!url.0.cannot_be_a_base);
    assert_eq!(url.domain(), Some("example.com"));
    assert_eq!(url.to_json(), JsonValue::Text("https://example.com:8080/a%20b?q=1#frag".into()));
}

#[test]
fn url_rejections_tell_unparsable_from_invalid() {
    assert_eq!(DiscordUrl::from_str("not a url"), Err(UrlError::Unparsable));
    assert_eq!(DiscordUrl::from_str(""), Err(UrlError::Unparsable));
    assert_eq!(DiscordUrl::from_str("ftp://example.com/"), Err(UrlError::Invalid));
    assert_eq!(DiscordUrl::from_str("https://user@example.com/"), Err(UrlError::Invalid));
    assert_eq!(DiscordUrl::from_str("https://user:pw@example.com/"), Err(UrlError::Invalid));
    assert_eq!(DiscordUrl::from_str("https://:pw@example.com/"), Err(UrlError::Invalid));
    assert_eq!(DiscordUrl::from_str("https://127.0.0.1/"), Err(UrlError::Invalid));
    assert_eq!(DiscordUrl::from_str("https://[::1]/"), Err(UrlError::Invalid));
    assert_eq!(DiscordUrl::from_str("mailto:test@discordlist.gg"), Err(UrlError::Invalid));
    assert!(DiscordUrl::from_str("http://example.com").is_ok());
}

#[test]
fn url_validity_goes_by_the_parts() {
    let good = UrlParts {
        text: "http://a.example/".to_string(),
        scheme: "http".to_string(),
        username: String::new(),
        password: None,
        cannot_be_a_base: false,
        domain: Some("a.example".to_string()),
    };
    assert!(is_valid_url(&good));
    assert_eq!(DiscordUrl::from_parsed(Some(good.clone())), Ok(DiscordUrl(good.clone())));
    assert_eq!(DiscordUrl::from_parsed(None), Err(UrlError::Unparsable));

    let mut bad = good.clone();
    bad.scheme = "ws".to_string();
    assert!(!is_valid_url(&bad));
    assert_eq!(DiscordUrl::from_parsed(Some(bad)), Err(UrlError::Invalid));
    let mut bad = good.clone();
    bad.username = "me".to_string();
    assert!(!is_valid_url(&bad));
    let mut bad = good.clone();
    bad.password = Some(String::new());
    assert!(!is_valid_url(&bad));
    let mut bad = good.clone();
    bad.cannot_be_a_base = true;
    assert!(!is_valid_url(&bad));
    let mut bad = good.clone();
    bad.domain = None;
    assert!(!is_valid_url(&bad));
}

#[test]
fn default_url_is_what_the_parser_gives() {
    let url = DiscordUrl::default();
    assert_eq!(Ok(url.clone()), DiscordUrl::from_str("https://discordlist.gg/"));
    assert_eq!(url.as_str(), "https://discordlist.gg/");
}

#[test]
fn url_from_json_and_storage() {
    let text = || "https://www.gitlab.com/group".to_string();
    let url = DiscordUrl::parse_from_json(Some(JsonValue::Text(text()))).unwrap();
    assert_eq!(url.as_str(), "https://www.gitlab.com/group");
    assert_eq!(DiscordUrl::parse_from_json(None), Err(UrlError::Invalid));
    assert_eq!(DiscordUrl::parse_from_json(Some(JsonValue::Null)), Err(UrlError::Invalid));
    assert_eq!(DiscordUrl::parse_from_json(Some(JsonValue::Integer(1))), Err(UrlError::Invalid));
    assert_eq!(
        DiscordUrl::parse_from_json(Some(JsonValue::Text("::".into()))),
        Err(UrlError::Unparsable)
    );

    assert_eq!(DiscordUrl::from_cql(&ColumnValue::Text(text())), Ok(url.clone()));
    assert_eq!(DiscordUrl::from_cql(&ColumnValue::Ascii(text())), Err(BadColumnType));
    assert_eq!(DiscordUrl::from_cql(&ColumnValue::Text("x".into())), Err(BadColumnType));
    assert_eq!(DiscordUrl::from_cql(&ColumnValue::BigInt(4)), Err(BadColumnType));

    let held = ConstrainedDiscordUrl::<GitHubUrl>::parse_from_json(Some(JsonValue::Text(text())))
        .unwrap();
    assert_eq!(held.url(), &url);
    assert_eq!(held.to_json(), JsonValue::Text(text()));
    assert!(ConstrainedDiscordUrl::<GitHubUrl>::from_cql(&ColumnValue::Text(text())).is_ok());
    assert_eq!(
        ConstrainedDiscordUrl::<TwitterUrl>::from_cql(&ColumnValue::Text(text())),
        Err(BadColumnType)
    );
    assert_eq!(
        ConstrainedDiscordUrl::<TwitterUrl>::parse_from_json(Some(JsonValue::Text(text()))),
        Err(UrlError::Invalid)
    );
    assert_eq!(
        ConstrainedDiscordUrl::<TwitterUrl>::parse_from_json(Some(JsonValue::Text("%".into()))),
        Err(UrlError::Unparsable)
    );
}

#[test]
fn constraints_go_by_the_domain() {
    let at = |s: &str| DiscordUrl::from_str(s).unwrap();
    for site in ["github.com", "gitlab.com", "bitbucket.org"] {
        assert!(github_url(&at(&format!("https://{}/x", site))));
        assert!(github_url(&at(&format!("http://www.{}", site))));
        assert!(!github_url(&at(&format!("https://api.{}", site))));
    }
    assert!(twitter_url(&at("https://twitter.com/someone")));
    assert!(twitter_url(&at("https://www.twitter.com")));
    assert!(!twitter_url(&at("https://twitter.com.evil.example")));
    assert!(!twitter_url(&at("https://instagram.com")));
    assert!(instagram_url(&at("https://instagram.com/p/1")));
    assert!(instagram_url(&at("https://www.instagram.com")));
    assert!(!instagram_url(&at("https://github.com")));
    assert!(GitHubUrl::is_valid(&at("https://github.com")));
    assert!(!TwitterUrl::is_valid(&at("https://github.com")));
    assert!(!InstagramUrl::is_valid(&at("https://github.com")));
    let unchecked = ConstrainedDiscordUrl::<TwitterUrl>::from(at("https://github.com"));
    assert_eq!(unchecked.url().as_str(), "https://github.com/");
}
