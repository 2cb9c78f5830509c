use vstd::prelude::*;
use crate::robots::{allows, RobotsTxt, RulesView};
use crate::text::{chars_of, has_prefix, starts_with};
use crate::timer::Timer;
use crate::weburl::{joined_url, opt_url_view, parsed_url, UrlView, WebUrl};

verus! {

/// The user agent that the crawler sends and obeys robots rules for.
pub const FOXEYE_USER_AGENT: &'static str = "Foxeye Search";

/// Gap between two requests to a site that sets no rate: two seconds.
pub const DEFAULT_PERIOD_MS: u64 = 2000;

/// Why a sites file entry cannot be used.
#[derive(Debug, PartialEq, Eq, Structural)]
pub enum ConfigError {
    /// The entry's URL does not parse.
    BadUrl,
    /// The entry's URL has no host.
    NoHost,
    /// The robots location derived from the entry does not parse.
    BadRobotsUrl,
    /// A rate of zero requests per second.
    ZeroRate,
}

/// One entry of the sites file: a seed URL, an optional depth bound and an
/// optional rate in requests per second.
#[derive(Debug, Clone)]
pub struct SitesConfig {
    pub url: String,
    pub depth: Option<u32>,
    pub rps: Option<u32>,
}

/// Least gap in milliseconds between two requests at `rps` requests per
/// second (whole milliseconds, rounded down).
pub open spec fn period_ms(rps: Option<u32>) -> u64 {
    match rps {
        Some(r) => (1000int / (r as int)) as u64,
        None => DEFAULT_PERIOD_MS,
    }
}

/// Where a site's robots file lives: `robots.txt` resolved against
/// `scheme://host`, for a URL with a host and an `http*` scheme.
pub open spec fn robots_location(u: UrlView) -> Option<Option<UrlView>> {
    match u.host {
        Some(h) => if has_prefix(u.scheme, "http"@) {
            match parsed_url(u.scheme + "://"@ + h) {
                Some(root) => match joined_url(root.href, "robots.txt"@) {
                    Some(r) => Some(Some(r)),
                    None => None,
                },
                None => None,
            }
        } else {
            Some(None)
        },
        None => Some(None),
    }
}

/// A configured site, ready for crawling.
#[derive(Debug)]
pub struct Sites {
    pub url: WebUrl,
    pub depth: Option<u32>,
    pub rps: Option<u32>,
    pub timer: Timer,
    pub robots: RobotsTxt,
}

pub ghost struct SiteView {
    pub url: UrlView,
    pub depth: Option<u32>,
    pub rps: Option<u32>,
    pub timer: Timer,
    pub allow: RulesView,
    pub disallow: RulesView,
}

impl View for Sites {
    type V = SiteView;

    open spec fn view(&self) -> SiteView {
        SiteView {
            url: self.url@,
            depth: self.depth,
            rps: self.rps,
            timer: self.timer,
            allow: self.robots@.0,
            disallow: self.robots@.1,
        }
    }
}

impl Sites {
    /// Whether the site's robots rules let this crawler fetch `path`.
    pub fn is_allowed(&self, path: &str) -> (r: bool)
        ensures
            r == allows(self@.allow, self@.disallow, FOXEYE_USER_AGENT@, path@),
    {
        self.robots.is_allowed(FOXEYE_USER_AGENT, path)
    }
}

impl SitesConfig {
    /// The robots file to fetch for this entry: `Ok(None)` when the URL has
    /// no host or its scheme is not `http*`.
    pub fn robots_url(&self) -> (r: Result<Option<WebUrl>, ConfigError>)
        ensures
            match parsed_url(self.url@) {
                None => r == Err::<Option<WebUrl>, ConfigError>(ConfigError::BadUrl),
                Some(u) => match robots_location(u) {
                    None => r == Err::<Option<WebUrl>, ConfigError>(ConfigError::BadRobotsUrl),
                    Some(loc) => r is Ok && opt_url_view(r->Ok_0) == loc,
                },
            },
    {
        let u = match WebUrl::parse(self.url.as_str()) {
            Some(u) => u,
            None => return Err(ConfigError::BadUrl),
        };
        let host = match u.host() {
            Some(h) => h,
            None => return Ok(None),
        };
        let scheme = chars_of(u.scheme());
        let http = chars_of("http");
        if !starts_with(&scheme, &http) {
            return Ok(None);
        }
        let mut root = String::from_str(u.scheme());
        root.append("://");
        root.append(host.as_str());
        let root = match WebUrl::parse(root.as_str()) {
            Some(r) => r,
            None => return Err(ConfigError::BadRobotsUrl),
        };
        match root.join("robots.txt") {
            Some(r) => Ok(Some(r)),
            None => Err(ConfigError::BadRobotsUrl),
        }
    }

    /// The site for this entry, with its robots rules and a timer whose
    /// first period starts at `now` (milliseconds).
    pub fn site(&self, robots: RobotsTxt, now: u64) -> (r: Result<Sites, ConfigError>)
        ensures
            match parsed_url(self.url@) {
                None => r == Err::<Sites, ConfigError>(ConfigError::BadUrl),
                Some(u) => if self.rps == Some(0u32) {
                    r == Err::<Sites, ConfigError>(ConfigError::ZeroRate)
                } else {
                    r is Ok && r->Ok_0@ == (SiteView {
                        url: u,
                        depth: self.depth,
                        rps: self.rps,
                        timer: Timer { start_time: now, time_between: period_ms(self.rps) },
                        allow: robots@.0,
                        disallow: robots@.1,
                    })
                },
            },
    {
        let url = match WebUrl::parse(self.url.as_str()) {
            Some(u) => u,
            None => return Err(ConfigError::BadUrl),
        };
        let period: u64 = match self.rps {
            Some(0) => return Err(ConfigError::ZeroRate),
            Some(r) => (1000 / r) as u64,
            None => DEFAULT_PERIOD_MS,
        };
        Ok(Sites { url, depth: self.depth, rps: self.rps, timer: Timer::new(period, now), robots })
    }
}

} // verus!
