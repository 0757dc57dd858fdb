use v8cli::net::{
    browser_label, browser_user_agent, check_import_target, chrome_data_root, chrome_profile_from_state,
    chrome_user_agent, import_browser, platform_user_agent_token, plist_version_from,
    safari_user_agent, scoped_cookie, valid_cookie_domain, valid_cookie_name, valid_cookie_value,
    valid_profile_name, version_from_text, Browser, BrowserCookie, Platform,
};

fn cookie(path: &str, secure: bool) -> BrowserCookie {
    BrowserCookie {
        name: "session".into(),
        value: "secret".into(),
        domain: Some("example.com".into()),
        path: Some(path.into()),
        secure: Some(secure),
        http_only: Some(true),
    }
}

#[test]
fn browser_user_agents_use_installed_version_shape() {
    let chrome = chrome_user_agent("150.0.7871.187", Platform::Other).unwrap();
    assert!(chrome.contains("Chrome/150.0.0.0"));
    assert!(!chrome.contains("7871"));

    let safari = safari_user_agent("26.5.2", Platform::Other).unwrap();
    assert!(safari.contains("Version/26.5.2 Safari/605.1.15"));
}

#[test]
fn imported_cookie_preserves_safe_parent_domain_and_flags() {
    let value = scoped_cookie(&cookie("/account", true), "https://www.example.com/account").unwrap();
    assert_eq!(
        value,
        "session=secret; Domain=example.com; Path=/account; Secure; HttpOnly"
    );
}

#[test]
fn exact_host_cookie_stays_host_only() {
    let value = scoped_cookie(&cookie("/", false), "https://example.com/account").unwrap();
    assert_eq!(value, "session=secret; Path=/; HttpOnly");
}

#[test]
fn cookie_for_unrelated_domain_is_rejected() {
    let mut cookie = cookie("/", false);
    cookie.domain = Some("notexample.com".into());
    assert!(scoped_cookie(&cookie, "https://example.com/").is_none());
}

#[test]
fn cookie_domain_is_lowercased_and_leading_dots_dropped() {
    let mut c = cookie("/", false);
    c.domain = Some("..Example.COM".into());
    assert_eq!(
        scoped_cookie(&c, "https://WWW.example.com/").unwrap(),
        "session=secret; Domain=example.com; Path=/; HttpOnly"
    );
}

#[test]
fn cookie_without_domain_or_path_is_host_only_at_root() {
    let c = BrowserCookie {
        name: "a".into(),
        value: "b".into(),
        domain: None,
        path: None,
        secure: None,
        http_only: None,
    };
    assert_eq!(scoped_cookie(&c, "https://example.com/x").unwrap(), "a=b; Path=/");
}

#[test]
fn unsafe_cookie_path_falls_back_to_root() {
    for path in ["relative", "/a;b", "/a\nb", "/a\rb"] {
        let c = cookie(path, false);
        assert_eq!(
            scoped_cookie(&c, "https://www.example.com/").unwrap(),
            "session=secret; Domain=example.com; Path=/; HttpOnly",
            "path {path:?}"
        );
    }
}

#[test]
fn empty_cookie_domain_is_host_only() {
    let mut c = cookie("/", false);
    c.domain = Some("...".into());
    assert_eq!(
        scoped_cookie(&c, "https://www.example.com/").unwrap(),
        "session=secret; Path=/; HttpOnly"
    );
}

#[test]
fn malformed_cookie_name_or_value_or_target_is_rejected() {
    let mut c = cookie("/", false);
    c.name = "bad name".into();
    assert!(scoped_cookie(&c, "https://example.com/").is_none());
    let mut c = cookie("/", false);
    c.value = "a;b".into();
    assert!(scoped_cookie(&c, "https://example.com/").is_none());
    assert!(scoped_cookie(&cookie("/", false), "not a url").is_none());
    assert!(scoped_cookie(&cookie("/", false), "mailto:someone@example.com").is_none());
}

#[test]
fn cookie_name_value_and_domain_rules() {
    assert!(valid_cookie_name("session_id"));
    assert!(!valid_cookie_name(""));
    assert!(!valid_cookie_name("a=b"));
    assert!(!valid_cookie_name("é"));
    assert!(valid_cookie_value(""));
    assert!(valid_cookie_value("abc-123"));
    assert!(!valid_cookie_value("a b"));
    assert!(!valid_cookie_value("\"quoted\""));
    assert!(!valid_cookie_value("a,b"));
    assert!(valid_cookie_domain("example.com"));
    assert!(valid_cookie_domain("my-site.co.uk"));
    assert!(!valid_cookie_domain(""));
    assert!(!valid_cookie_domain(".example.com"));
    assert!(!valid_cookie_domain("example.com."));
    assert!(!valid_cookie_domain("example..com"));
    assert!(!valid_cookie_domain("exa_mple.com"));
}

#[test]
fn user_agent_platform_tokens() {
    assert_eq!(platform_user_agent_token(Platform::MacOs), "Macintosh; Intel Mac OS X 10_15_7");
    assert_eq!(platform_user_agent_token(Platform::Windows), "Windows NT 10.0; Win64; x64");
    assert_eq!(platform_user_agent_token(Platform::Other), "X11; Linux x86_64");
    assert_eq!(
        chrome_user_agent(" 131.0.1 ", Platform::Windows).unwrap(),
        "Mozilla/5.0 (Windows NT 10.0; Win64; x64) AppleWebKit/537.36 (KHTML, like Gecko) Chrome/131.0.0.0 Safari/537.36"
    );
    assert_eq!(
        safari_user_agent("18.1\n", Platform::MacOs).unwrap(),
        "Mozilla/5.0 (Macintosh; Intel Mac OS X 10_15_7) AppleWebKit/605.1.15 (KHTML, like Gecko) Version/18.1 Safari/605.1.15"
    );
}

#[test]
fn malformed_versions_give_no_user_agent() {
    assert!(chrome_user_agent("", Platform::Other).is_none());
    assert!(chrome_user_agent(".1.2", Platform::Other).is_none());
    assert!(chrome_user_agent("12a.0", Platform::Other).is_none());
    assert!(safari_user_agent("  ", Platform::Other).is_none());
    assert!(safari_user_agent("17.0 beta", Platform::Other).is_none());
}

#[test]
fn browser_user_agent_reports_a_missing_version() {
    assert_eq!(
        browser_user_agent(Browser::Chrome, None, Platform::Other).unwrap_err(),
        "cannot determine the installed Chrome version"
    );
    assert_eq!(
        browser_user_agent(Browser::Safari, Some("x"), Platform::MacOs).unwrap_err(),
        "cannot determine the installed Safari version"
    );
    assert!(browser_user_agent(Browser::Chrome, Some("120.0.1"), Platform::Other)
        .unwrap()
        .contains("Chrome/120.0.0.0"));
}

#[test]
fn profile_names_and_local_state() {
    assert!(valid_profile_name("Default"));
    assert!(valid_profile_name("Profile 1"));
    assert!(!valid_profile_name(""));
    assert!(!valid_profile_name("."));
    assert!(!valid_profile_name(".."));
    assert!(!valid_profile_name("a/b"));
    assert!(!valid_profile_name("a\\b"));

    assert_eq!(
        chrome_profile_from_state(r#"{"profile":{"last_used":"Profile 2"}}"#).unwrap(),
        "Profile 2"
    );
    assert_eq!(
        chrome_profile_from_state(
            r#"{"profile":{"last_used":"..","last_active_profiles":[3,"../x","Profile 1","Default"]}}"#
        )
        .unwrap(),
        "Profile 1"
    );
    assert!(chrome_profile_from_state(r#"{"profile":{}}"#).is_none());
    assert!(chrome_profile_from_state("not json").is_none());
}

#[test]
fn plist_and_version_file_reading() {
    let plist = "<dict>\n<key>CFBundleName</key>\n<string>Safari</string>\n\
                 <key>CFBundleShortVersionString</key>\n<string> 26.5.2 </string>\n</dict>";
    assert_eq!(plist_version_from(plist).unwrap(), "26.5.2");
    assert!(plist_version_from("<dict></dict>").is_none());
    assert!(plist_version_from("<key>CFBundleShortVersionString</key><integer>3</integer>").is_none());
    assert_eq!(version_from_text("  131.0.6778.86\n").unwrap(), "131.0.6778.86");
    assert!(version_from_text(" \n\t").is_none());
}

#[test]
fn import_target_must_be_http_with_host() {
    assert!(check_import_target("https://example.com/").is_ok());
    assert!(check_import_target("http://example.com").is_ok());
    assert_eq!(
        check_import_target("file:///tmp/x").unwrap_err(),
        "browser cookies require an HTTP(S) URL with a host"
    );
    assert!(check_import_target("data:text/html,hi").is_err());
    assert!(check_import_target("nonsense").is_err());
}

#[test]
fn import_scopes_cookies_and_warns_when_none_match() {
    assert_eq!(browser_label(Browser::Chrome), "chrome");
    assert_eq!(browser_label(Browser::Safari), "safari");

    let mut other = cookie("/", false);
    other.domain = Some("other.org".into());
    let cookies = vec![cookie("/", true), other];
    let imp = import_browser(
        Browser::Chrome,
        "https://www.example.com/",
        "UA".to_string(),
        &cookies,
        vec!["w1".to_string()],
    )
    .unwrap();
    assert_eq!(imp.user_agent, "UA");
    assert_eq!(
        imp.cookies,
        vec!["session=secret; Domain=example.com; Path=/; Secure; HttpOnly".to_string()]
    );
    assert_eq!(imp.warnings, vec!["w1".to_string()]);

    let none = import_browser(
        Browser::Safari,
        "https://www.example.com/",
        "UA".to_string(),
        &vec![],
        vec![],
    )
    .unwrap();
    assert!(none.cookies.is_empty());
    assert_eq!(
        none.warnings,
        vec!["no matching cookies were imported from safari for www.example.com".to_string()]
    );

    assert_eq!(
        import_browser(Browser::Chrome, "ftp://example.com/", "UA".to_string(), &cookies, vec![])
            .err()
            .unwrap(),
        "browser cookies require an HTTP(S) URL with a host"
    );
}

#[test]
fn chrome_data_root_follows_the_platform_and_environment() {
    assert_eq!(
        chrome_data_root(Platform::MacOs, Some("/Users/a"), None, None).unwrap(),
        "/Users/a/Library/Application Support/Google/Chrome"
    );
    assert!(chrome_data_root(Platform::MacOs, None, Some("/x"), Some("/y")).is_none());
    assert_eq!(
        chrome_data_root(Platform::Other, Some("/home/a"), None, None).unwrap(),
        "/home/a/.config/google-chrome"
    );
    assert_eq!(
        chrome_data_root(Platform::Other, Some("/home/a"), Some("/cfg/"), None).unwrap(),
        "/cfg/google-chrome"
    );
    assert!(chrome_data_root(Platform::Other, None, None, Some("/y")).is_none());
    assert!(chrome_data_root(Platform::Windows, Some("/home/a"), None, None).is_none());
}
