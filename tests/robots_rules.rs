use foxeye::RobotsTxt;

#[test]
fn robots_disallow_for_named_agent() {
    let r = RobotsTxt::parse("User-agent: Foxeye Search\nDisallow: /private");
    assert!(!r.is_allowed("Foxeye Search", "/private/x"));
    assert!(r.is_allowed("Foxeye Search", "/public"));
}

#[test]
fn robots_not_found_allows_everything() {
    let r = RobotsTxt::from_response(404, "User-agent: *\nDisallow: /");
    assert!(r.is_allowed("Foxeye Search", "/"));
    assert!(r.is_allowed("anyone", "/private"));
}

#[test]
fn robots_found_reads_body() {
    let r = RobotsTxt::from_response(200, "User-agent: *\nDisallow: /");
    assert!(!r.is_allowed("*", "/x"));
    assert!(r.is_allowed("Foxeye Search", "/x"));
}

#[test]
fn robots_allow_wins_over_disallow() {
    let r = RobotsTxt::parse("User-agent: bot\r\nDisallow: /a\r\nAllow: /a/open\r\n");
    assert!(r.is_allowed("bot", "/a/open/page"));
    assert!(!r.is_allowed("bot", "/a/closed"));
    assert!(r.is_allowed("bot", "/b"));
}

#[test]
fn robots_rules_before_any_agent_belong_to_star() {
    let r = RobotsTxt::parse("Disallow: /tmp\nUser-agent: other\nDisallow: /x");
    assert!(!r.is_allowed("*", "/tmp/file"));
    assert!(r.is_allowed("other", "/tmp/file"));
    assert!(!r.is_allowed("other", "/x"));
}

#[test]
fn robots_value_stops_at_second_colon_and_is_trimmed() {
    let r = RobotsTxt::parse("User-agent:   spaced  \nDisallow:  /p:q ");
    assert!(!r.is_allowed("spaced", "/p"));
    assert!(r.is_allowed("spaced", "/q"));
}

#[test]
fn robots_token_is_case_sensitive() {
    let r = RobotsTxt::parse("user-agent: bot\ndisallow: /");
    assert!(r.is_allowed("bot", "/"));
    assert!(r.is_allowed("*", "/"));
}

#[test]
fn robots_empty_file_allows_all() {
    let r = RobotsTxt::parse("");
    assert!(r.is_allowed("Foxeye Search", "/anything"));
}
