use foxeye::crawler::{disposition_for_media, HANDOFF_TTL_SECS, SEEN_TTL_SECS};
use foxeye::{
    classify_response, CrawlMessage, Crawler, Disposition, RobotsTxt, Sites, SitesConfig, Timer,
    Verdict, WebUrl,
};

fn site(url: &str, depth: Option<u32>, rps: Option<u32>, robots: RobotsTxt) -> Sites {
    let cfg = SitesConfig { url: url.to_string(), depth, rps };
    cfg.site(robots, 0).unwrap()
}

#[test]
fn timer_grants_after_period_only() {
    let mut t = Timer::new(1000, 0);
    assert!(!t.can_send(1000));
    assert!(t.can_send(1001));
    assert_eq!(t.start_time, 1001);
    assert!(!t.can_send(1500));
    assert_eq!(t.start_time, 1001);
    assert!(t.can_send(2002));
}

#[test]
fn site_period_from_rate() {
    let s = site("http://example.test/", None, Some(1), RobotsTxt::empty());
    assert_eq!(s.timer.time_between, 1000);
    let s = site("http://example.test/", None, Some(4), RobotsTxt::empty());
    assert_eq!(s.timer.time_between, 250);
    let s = site("http://example.test/", None, None, RobotsTxt::empty());
    assert_eq!(s.timer.time_between, 2000);
}

#[test]
fn site_errors() {
    let bad = SitesConfig { url: "not a url".to_string(), depth: None, rps: None };
    assert_eq!(bad.site(RobotsTxt::empty(), 0).err(), Some(foxeye::ConfigError::BadUrl));
    let zero = SitesConfig { url: "http://example.test/".to_string(), depth: None, rps: Some(0) };
    assert_eq!(zero.site(RobotsTxt::empty(), 0).err(), Some(foxeye::ConfigError::ZeroRate));
}

#[test]
fn robots_location_of_site() {
    let cfg = SitesConfig { url: "https://example.test/a/b?c".to_string(), depth: None, rps: None };
    let loc = cfg.robots_url().unwrap().unwrap();
    assert_eq!(loc.as_str(), "https://example.test/robots.txt");
    let ftp = SitesConfig { url: "ftp://example.test/".to_string(), depth: None, rps: None };
    assert!(ftp.robots_url().unwrap().is_none());
}

#[test]
fn crawler_seeds_queue() {
    let c = Crawler::new(vec![
        site("http://example.test/", None, Some(1), RobotsTxt::empty()),
        site("http://other.test/start", None, None, RobotsTxt::empty()),
    ]);
    assert_eq!(c.queue_len(), 2);
    assert_eq!(c.queue_item(1).url.as_str(), "http://other.test/start");
    assert_eq!(c.queue_item(1).depth, 0);
    assert_eq!(c.hosts(), vec!["example.test".to_string(), "other.test".to_string()]);
}

#[test]
fn rate_limit_second_attempt_requeued() {
    let mut c = Crawler::new(vec![site("http://example.test/", None, Some(1), RobotsTxt::empty())]);
    c.clear_queue();
    let url = WebUrl::parse("http://example.test/page").unwrap();
    let first = c.check_valid(&url, 0, false, 5000);
    assert_eq!(first, Verdict::Accepted);
    assert_eq!(c.queue_len(), 0);
    let second = c.check_valid(&url, 0, false, 5200);
    assert_eq!(second, Verdict::RateLimited);
    assert_eq!(second.reason(), "rate limit exceeded");
    assert_eq!(c.queue_len(), 1);
    assert_eq!(c.queue_item(0).url.as_str(), "http://example.test/page");
    assert_eq!(c.queue_item(0).depth, 0);
}

#[test]
fn seen_url_short_circuits() {
    let mut c = Crawler::new(vec![site("http://example.test/", None, Some(1), RobotsTxt::empty())]);
    let url = WebUrl::parse("http://example.test/p").unwrap();
    let v = c.check_valid(&url, 0, true, 5000);
    assert_eq!(v, Verdict::AlreadySeen);
    assert_eq!(v.reason(), "url exists in redis");
    assert!(!v.is_valid());
}

#[test]
fn admission_order_of_checks() {
    let robots = RobotsTxt::parse("User-agent: Foxeye Search\nDisallow: /private");
    let mut c = Crawler::new(vec![site("http://example.test/", Some(2), Some(1), robots)]);
    let other = WebUrl::parse("http://other.test/").unwrap();
    assert_eq!(c.check_valid(&other, 0, false, 5000), Verdict::UnknownHost);
    let deep = WebUrl::parse("http://example.test/x").unwrap();
    assert_eq!(c.check_valid(&deep, 2, false, 5000), Verdict::DepthReached);
    let private = WebUrl::parse("http://example.test/private/x").unwrap();
    assert_eq!(c.check_valid(&private, 0, true, 5000), Verdict::RobotsDisallowed);
    assert_eq!(c.check_site(&private, 0), Verdict::RobotsDisallowed);
    assert_eq!(c.check_site(&deep, 1), Verdict::Accepted);
    let no_host = WebUrl::parse("mailto:someone@example.test").unwrap();
    assert_eq!(c.check_valid(&no_host, 0, false, 5000), Verdict::NoHost);
    assert_eq!(c.check_valid(&deep, 1, false, 5000), Verdict::Accepted);
    assert_eq!(Verdict::Accepted.reason(), "all checks passed");
}

#[test]
fn frontier_rows_enter_queue() {
    let mut c = Crawler::new(vec![]);
    assert!(c.needs_urls());
    c.extend_queue(vec![
        ("http://example.test/a".to_string(), 1),
        ("::bad::".to_string(), 1),
        ("http://example.test/b".to_string(), -3),
        ("http://example.test/c".to_string(), 2),
    ]);
    assert_eq!(c.queue_len(), 2);
    assert_eq!(c.queue_item(0).url.as_str(), "http://example.test/a");
    assert_eq!(c.queue_item(1).depth, 2);
}

#[test]
fn missing_content_type_marks_seen() {
    assert_eq!(classify_response(None), Disposition::MarkSeen);
}

#[test]
fn content_type_decides() {
    assert_eq!(classify_response(Some("text/html; charset=utf-8")), Disposition::HandOff);
    assert_eq!(classify_response(Some("TEXT/plain")), Disposition::HandOff);
    assert_eq!(classify_response(Some("image/png")), Disposition::MarkSeen);
    assert_eq!(classify_response(Some("not a mime")), Disposition::Drop);
    assert_eq!(disposition_for_media(Some("text")), Disposition::HandOff);
    assert_eq!(disposition_for_media(Some("application")), Disposition::MarkSeen);
    assert_eq!(disposition_for_media(None), Disposition::Drop);
}

#[test]
fn handoff_lifetimes() {
    assert_eq!(HANDOFF_TTL_SECS, 600);
    assert_eq!(SEEN_TTL_SECS, 7 * 24 * 3600);
    let m = CrawlMessage::new("id1".to_string(), "<p>".to_string(), 3, "http://e.test/".to_string());
    assert_eq!(m.depth, 3);
    assert_eq!(m.id, "id1");
}
