use v8cli::blocklist::Blocklist;

fn default_list() -> Blocklist {
    Blocklist::new(&[], true)
}

#[test]
fn blocks_third_party_ad_and_tracker_entry_points() {
    let list = default_list();
    let page = "https://www.theverge.com/";
    for url in [
        "https://www.googletagservices.com/tag/js/gpt.js",
        "https://client.aps.amazon-adsystem.com/publisher.js",
        "https://pub.doubleverify.com/dvtag/21236410/DV464041/pub.js",
        "https://www.google-analytics.com/analytics.js",
        "https://connect.facebook.net/en_US/fbevents.js",
        "https://cdn.cookielaw.org/scripttemplates/otSDKStub.js",
    ] {
        assert!(list.blocks(url, page, "script"), "should block {url}");
    }
}

#[test]
fn allows_first_party_application_bundles() {
    let list = default_list();
    for (url, page) in [
        (
            "https://github.githubassets.com/assets/behaviors-1b7c43389cca1102.js",
            "https://github.com/",
        ),
        (
            "https://www.theverge.com/_next/static/chunks/main-fc7a6b72b1ad075e.js",
            "https://www.theverge.com/",
        ),
        (
            "https://abs.twimg.com/responsive-web/client-web/main.abc.js",
            "https://x.com/",
        ),
    ] {
        assert!(!list.blocks(url, page, "script"), "should allow {url}");
    }
}

#[test]
fn allows_code_cdns_and_captcha_that_can_carry_content() {
    let list = default_list();
    let page = "https://example.com/";
    for url in [
        "https://cdn.jsdelivr.net/npm/vue@3/dist/vue.global.js",
        "https://unpkg.com/react@18/umd/react.production.min.js",
        "https://cdnjs.cloudflare.com/ajax/libs/jquery/3.6.0/jquery.min.js",
        "https://www.google.com/recaptcha/api.js",
    ] {
        assert!(!list.blocks(url, page, "script"), "should allow {url}");
    }
}

#[test]
fn blocks_tracker_xhr_beacons_not_just_scripts() {
    let list = default_list();
    assert!(list.blocks(
        "https://www.google-analytics.com/g/collect?v=2",
        "https://www.theverge.com/",
        "xhr",
    ));
}

#[test]
fn malformed_url_is_not_blocked() {
    let list = default_list();
    assert!(!list.blocks("not a url", "https://example.com/", "script"));
}

#[test]
fn default_rules_can_be_disabled() {
    let list = Blocklist::new(&[], false);
    assert!(!list.blocks(
        "https://www.google-analytics.com/analytics.js",
        "https://example.com/",
        "script",
    ));
}

#[test]
fn extra_list_rules_apply_alongside_the_built_in_rules() {
    let extra = vec!["||first-party-cdn.example^\n".to_string()];
    let list = Blocklist::new(&extra, true);
    let page = "https://example.com/";
    assert!(list.blocks("https://first-party-cdn.example/a.js", page, "script"));
    assert!(list.blocks("https://www.google-analytics.com/analytics.js", page, "script"));

    let only_extra = Blocklist::new(&extra, false);
    assert!(only_extra.blocks("https://first-party-cdn.example/a.js", page, "script"));
    assert!(!only_extra.blocks("https://www.google-analytics.com/analytics.js", page, "script"));
}

#[test]
fn exception_rules_override_blocking_rules() {
    let extra = vec!["||ads.example^\n@@||ads.example/allowed.js\n".to_string()];
    let list = Blocklist::new(&extra, false);
    let page = "https://example.com/";
    assert!(list.blocks("https://ads.example/banner.js", page, "script"));
    assert!(!list.blocks("https://ads.example/allowed.js", page, "script"));
}

#[test]
fn third_party_rules_spare_first_party_requests() {
    let list = default_list();
    assert!(!list.blocks(
        "https://www.googletagservices.com/tag/js/gpt.js",
        "https://www.googletagservices.com/",
        "script",
    ));
}
