use vstd::prelude::*;
use crate::config::{SiteView, Sites, FOXEYE_USER_AGENT};
use crate::robots::allows;
use crate::weburl::{opt_view, parsed_url, UrlView, WebUrl};

verus! {

/// Most frontier rows taken per host in one refill.
pub const MAX_QUEUE_SIZE: usize = 100;

/// Lifetime of a crawl hand-off record in the cache: ten minutes.
pub const HANDOFF_TTL_SECS: u32 = 600;

/// Lifetime of a seen-URL marker in the cache: seven days.
pub const SEEN_TTL_SECS: u32 = 604800;

/// A URL waiting to be crawled, with its link depth from the seed.
#[derive(Debug, Clone)]
pub struct CrawlUrl {
    pub url: WebUrl,
    pub depth: u32,
}

impl CrawlUrl {
    pub fn new(url: WebUrl, depth: u32) -> (r: CrawlUrl)
        ensures
            r.url@ == url@,
            r.depth == depth,
    {
        CrawlUrl { url, depth }
    }
}

/// The record that hands a fetched page from the crawler to the parser.
#[derive(Debug, Clone)]
pub struct CrawlMessage {
    pub id: String,
    pub content: String,
    pub depth: u32,
    pub url: String,
}

impl CrawlMessage {
    pub fn new(id: String, content: String, depth: u32, url: String) -> (r: CrawlMessage)
        ensures
            r.id@ == id@,
            r.content@ == content@,
            r.depth == depth,
            r.url@ == url@,
    {
        CrawlMessage { id, content, depth, url }
    }
}

/// Outcome of the admission of one URL.
#[derive(Debug, Clone, Copy, PartialEq, Eq, Structural)]
pub enum Verdict {
    NoHost,
    UnknownHost,
    DepthReached,
    RobotsDisallowed,
    AlreadySeen,
    RateLimited,
    Accepted,
}

impl Verdict {
    pub fn is_valid(&self) -> (r: bool)
        ensures
            r == (*self == Verdict::Accepted),
    {
        match self {
            Verdict::Accepted => true,
            _ => false,
        }
    }

    /// The reason logged for this outcome.
    pub fn reason(&self) -> (r: &'static str)
        ensures
            *self == Verdict::NoHost ==> r@ == "No host found"@,
            *self == Verdict::UnknownHost ==> r@ == "host not found in configured sites"@,
            *self == Verdict::DepthReached ==> r@ == "site depth reached"@,
            *self == Verdict::RobotsDisallowed ==> r@ == "not allowed by robots.txt"@,
            *self == Verdict::AlreadySeen ==> r@ == "url exists in redis"@,
            *self == Verdict::RateLimited ==> r@ == "rate limit exceeded"@,
            *self == Verdict::Accepted ==> r@ == "all checks passed"@,
    {
        match self {
            Verdict::NoHost => "No host found",
            Verdict::UnknownHost => "host not found in configured sites",
            Verdict::DepthReached => "site depth reached",
            Verdict::RobotsDisallowed => "not allowed by robots.txt",
            Verdict::AlreadySeen => "url exists in redis",
            Verdict::RateLimited => "rate limit exceeded",
            Verdict::Accepted => "all checks passed",
        }
    }
}

/// What to do with a fetched page, decided by its `Content-Type`.
#[derive(Debug, Clone, Copy, PartialEq, Eq, Structural)]
pub enum Disposition {
    /// The header does not parse: drop the URL.
    Drop,
    /// No header, or not text: mark the URL seen, hand nothing on.
    MarkSeen,
    /// Text: store the page and hand it to the parser.
    HandOff,
}

/// The top-level media type (lower case) that `mime` reads from a
/// `Content-Type` value, when it parses.
pub uninterp spec fn media_type(s: Seq<char>) -> Option<Seq<char>>;

/// Relies on `mime::Mime`'s `FromStr`: the parsed media type's top-level
/// name.
#[verifier::external_body]
fn media_type_of(s: &str) -> (r: Option<String>)
    ensures
        opt_view(r) == media_type(s@),
{
    match s.parse::<mime::Mime>() {
        Ok(m) => Some(m.type_().as_str().to_string()),
        Err(_) => None,
    }
}

pub open spec fn media_disposition(media: Option<Seq<char>>) -> Disposition {
    match media {
        None => Disposition::Drop,
        Some(t) => if t == "text"@ {
            Disposition::HandOff
        } else {
            Disposition::MarkSeen
        },
    }
}

pub open spec fn response_disposition(content_type: Option<Seq<char>>) -> Disposition {
    match content_type {
        None => Disposition::MarkSeen,
        Some(ct) => media_disposition(media_type(ct)),
    }
}

/// Disposition for a page whose `Content-Type` parsed to top-level type
/// `media` (`None`: it did not parse).
pub fn disposition_for_media(media: Option<&str>) -> (r: Disposition)
    ensures
        r == media_disposition(
            match media {
                Some(t) => Some(t@),
                None => None,
            },
        ),
{
    match media {
        None => Disposition::Drop,
        Some(t) => {
            let text = String::from_str("text");
            if String::from_str(t) == text {
                Disposition::HandOff
            } else {
                Disposition::MarkSeen
            }
        },
    }
}

/// Disposition for a page with the given `Content-Type` header, if any.
pub fn classify_response(content_type: Option<&str>) -> (r: Disposition)
    ensures
        r == response_disposition(
            match content_type {
                Some(t) => Some(t@),
                None => None,
            },
        ),
{
    match content_type {
        None => Disposition::MarkSeen,
        Some(ct) => {
            let media = media_type_of(ct);
            match media {
                Some(t) => disposition_for_media(Some(t.as_str())),
                None => disposition_for_media(None),
            }
        },
    }
}

/// A configured site under its host name.
#[derive(Debug)]
struct HostSite {
    host: String,
    site: Sites,
}

pub type SiteMapView = Seq<(Seq<char>, SiteView)>;

/// The crawler's configured sites (by host) and its in-memory queue.
pub ghost struct CrawlerView {
    pub sites: SiteMapView,
    pub queue: Seq<(UrlView, u32)>,
}

/// `i` is the first entry of `s` for host `h`.
pub open spec fn first_site(s: SiteMapView, h: Seq<char>, i: int) -> bool {
    0 <= i < s.len() && s[i].0 == h && forall|j: int| 0 <= j < i ==> s[j].0 != h
}

pub open spec fn has_site(s: SiteMapView, h: Seq<char>) -> bool {
    exists|i: int| first_site(s, h, i)
}

pub open spec fn site_index(s: SiteMapView, h: Seq<char>) -> int {
    choose|i: int| first_site(s, h, i)
}

/// The site configured for host `h` (meaningful when `has_site(s, h)`).
pub open spec fn site_of(s: SiteMapView, h: Seq<char>) -> SiteView {
    s[site_index(s, h)].1
}

/// `s` with host `h` mapped to `v`, replacing an earlier entry.
pub open spec fn put_site(s: SiteMapView, h: Seq<char>, v: SiteView) -> SiteMapView {
    if has_site(s, h) {
        s.update(site_index(s, h), (h, v))
    } else {
        s.push((h, v))
    }
}

/// No host has two entries.
pub open spec fn unique_hosts(s: SiteMapView) -> bool {
    forall|i: int, j: int| 0 <= i < j < s.len() ==> (#[trigger] s[i]).0 != (#[trigger] s[j]).0
}

/// The crawler built from `sites` in order: each site with a host is
/// mapped under it and queues its seed URL at depth 0.
pub open spec fn seeded(sites: Seq<SiteView>) -> CrawlerView
    decreases sites.len(),
{
    if sites.len() == 0 {
        CrawlerView { sites: seq![], queue: seq![] }
    } else {
        let prev = seeded(sites.drop_last());
        let x = sites.last();
        match x.url.host {
            Some(h) => CrawlerView {
                sites: put_site(prev.sites, h, x),
                queue: prev.queue.push((x.url, 0u32)),
            },
            None => prev,
        }
    }
}

/// The checks that need no outside lookup, in order: a host; a configured
/// host; depth below the site's bound; robots rules. `Accepted` when all
/// pass.
pub open spec fn site_verdict(v: CrawlerView, u: UrlView, depth: u32) -> Verdict {
    match u.host {
        None => Verdict::NoHost,
        Some(h) => if !has_site(v.sites, h) {
            Verdict::UnknownHost
        } else {
            let site = site_of(v.sites, h);
            if site.depth is Some && depth >= site.depth->0 {
                Verdict::DepthReached
            } else if !allows(site.allow, site.disallow, FOXEYE_USER_AGENT@, u.path) {
                Verdict::RobotsDisallowed
            } else {
                Verdict::Accepted
            }
        },
    }
}

/// Admission of a URL, in order: the site checks; not seen recently; the
/// site's timer.
pub open spec fn verdict_of(v: CrawlerView, u: UrlView, depth: u32, seen: bool, now: u64) -> Verdict {
    if site_verdict(v, u, depth) != Verdict::Accepted {
        site_verdict(v, u, depth)
    } else if seen {
        Verdict::AlreadySeen
    } else if !site_of(v.sites, u.host->0).timer.permits(now) {
        Verdict::RateLimited
    } else {
        Verdict::Accepted
    }
}

proof fn lemma_put_keeps_unique(s: SiteMapView, h: Seq<char>, v: SiteView)
    requires
        unique_hosts(s),
    ensures
        unique_hosts(put_site(s, h, v)),
{
    if has_site(s, h) {
        let k = site_index(s, h);
        let f = s.update(k, (h, v));
        assert forall|i: int, j: int| 0 <= i < j < f.len() implies (#[trigger] f[i]).0 != (#[trigger] f[j]).0 by {
            assert(f[i].0 == s[i].0 && f[j].0 == s[j].0);
        }
    } else {
        let f = s.push((h, v));
        assert forall|i: int, j: int| 0 <= i < j < f.len() implies (#[trigger] f[i]).0 != (#[trigger] f[j]).0 by {
            if j == s.len() && f[i].0 == h {
                assert(first_site(s, h, i));
            }
        }
    }
}

/// Each host has at most one entry in the site map of a new crawler.
pub proof fn lemma_seeded_hosts_unique(sites: Seq<SiteView>)
    ensures
        unique_hosts(seeded(sites).sites),
    decreases sites.len(),
{
    if sites.len() > 0 {
        lemma_seeded_hosts_unique(sites.drop_last());
        match sites.last().url.host {
            Some(h) => lemma_put_keeps_unique(seeded(sites.drop_last()).sites, h, sites.last()),
            None => {},
        }
    }
}

/// A URL marked as seen is never fetched: it is refused, whatever
/// the state of the crawler and the time.
pub proof fn lemma_seen_never_fetched(v: CrawlerView, u: UrlView, depth: u32, now: u64)
    ensures
        verdict_of(v, u, depth, true, now) != Verdict::Accepted,
{
}

/// The site map after a request to host `h` was granted at `now`.
pub open spec fn granted_at(s: SiteMapView, h: Seq<char>, now: u64) -> SiteMapView {
    let site = site_of(s, h);
    s.update(
        site_index(s, h),
        (h, SiteView { timer: site.timer.step(now), ..site }),
    )
}

/// Queue entries for frontier rows `(url, depth)`: rows whose URL parses
/// and whose depth is not negative, in order.
pub open spec fn rows_to_queue(rows: Seq<(Seq<char>, i32)>) -> Seq<(UrlView, u32)>
    decreases rows.len(),
{
    if rows.len() == 0 {
        seq![]
    } else {
        let prev = rows_to_queue(rows.drop_last());
        let (u, d) = rows.last();
        match parsed_url(u) {
            Some(v) => if d >= 0 {
                prev.push((v, d as u32))
            } else {
                prev
            },
            None => prev,
        }
    }
}

pub open spec fn row_view(r: (String, i32)) -> (Seq<char>, i32) {
    (r.0@, r.1)
}

/// The crawler's sites and its queue of URLs for the current pass.
#[derive(Debug)]
pub struct Crawler {
    site_map: Vec<HostSite>,
    url_queue: Vec<CrawlUrl>,
}

impl View for Crawler {
    type V = CrawlerView;

    closed spec fn view(&self) -> CrawlerView {
        CrawlerView {
            sites: self.site_map@.map_values(|e: HostSite| (e.host@, e.site@)),
            queue: self.url_queue@.map_values(|c: CrawlUrl| (c.url@, c.depth)),
        }
    }
}

proof fn lemma_first_site_unique(s: SiteMapView, h: Seq<char>, i: int)
    requires
        first_site(s, h, i),
    ensures
        has_site(s, h),
        site_index(s, h) == i,
{
    let k = site_index(s, h);
    if k < i {
        assert(s[k].0 != h);
    } else if k > i {
        assert(s[i].0 != h);
    }
}

impl Crawler {
    /// Index of the first entry for `host`.
    fn find_site(&self, host: &String) -> (r: Option<usize>)
        ensures
            match r {
                Some(i) => first_site(self@.sites, host@, i as int) && i < self.site_map@.len(),
                None => !has_site(self@.sites, host@),
            },
    {
        let ghost s = self@.sites;
        let mut i: usize = 0;
        while i < self.site_map.len()
            invariant
                i <= self.site_map@.len(),
                s == self@.sites,
                s.len() == self.site_map@.len(),
                forall|j: int| 0 <= j < i ==> s[j].0 != host@,
            decreases self.site_map@.len() - i,
        {
            if self.site_map[i].host == *host {
                return Some(i);
            }
            i = i + 1;
        }
        assert forall|k: int| !first_site(s, host@, k) by {
            if 0 <= k < s.len() {
                assert(s[k].0 != host@);
            }
        }
        None
    }

    /// Maps `host` to `site`, replacing an earlier entry for it.
    fn put(&mut self, host: String, site: Sites)
        ensures
            final(self)@.sites == put_site(old(self)@.sites, host@, site@),
            final(self)@.queue == old(self)@.queue,
    {
        let ghost s = self@.sites;
        let ghost v = site@;
        let ghost h = host@;
        match self.find_site(&host) {
            Some(i) => {
                proof {
                    lemma_first_site_unique(s, h, i as int);
                }
                let _ = self.site_map.remove(i);
                self.site_map.insert(i, HostSite { host, site });
                proof {
                    assert(self@.sites =~= s.update(i as int, (h, v)));
                }
            },
            None => {
                self.site_map.push(HostSite { host, site });
                proof {
                    assert(self@.sites =~= s.push((h, v)));
                }
            },
        }
    }

    /// A crawler for `sites`, in order: each site with a host is mapped under
    /// it (a later site for the same host replaces an earlier one) and queues
    /// its seed URL at depth 0.
    pub fn new(sites: Vec<Sites>) -> (r: Crawler)
        ensures
            r@ == seeded(sites@.map_values(|x: Sites| x@)),
    {
        let ghost all = sites@.map_values(|x: Sites| x@);
        let mut rest = sites;
        let mut c = Crawler { site_map: Vec::new(), url_queue: Vec::new() };
        let ghost mut k: int = 0;
        proof {
            assert(c@.sites =~= seeded(all.take(0)).sites);
            assert(c@.queue =~= seeded(all.take(0)).queue);
        }
        while rest.len() > 0
            invariant
                0 <= k <= all.len(),
                rest@.map_values(|x: Sites| x@) == all.skip(k),
                c@ == seeded(all.take(k)),
            decreases rest@.len(),
        {
            proof {
                assert(rest@.map_values(|x: Sites| x@).len() == rest@.len());
                assert(rest@.map_values(|x: Sites| x@)[0] == rest@[0]@);
            }
            let ghost before = rest@;
            let site = rest.remove(0);
            proof {
                assert(forall|j: int| 0 <= j < rest@.len() ==> rest@[j] == before[j + 1]);
                assert(site@ == all[k]);
                assert(all.take(k + 1).drop_last() =~= all.take(k));
                let ghost rv = rest@.map_values(|x: Sites| x@);
                assert forall|j: int| 0 <= j < rest@.len() implies #[trigger] rv[j] == all.skip(
                    k + 1,
                )[j] by {
                    assert(before.map_values(|x: Sites| x@)[j + 1] == before[j + 1]@);
                }
                assert(rest@.map_values(|x: Sites| x@) =~= all.skip(k + 1));
            }
            match site.url.host() {
                Some(h) => {
                    let ghost q = c@.queue;
                    c.url_queue.push(CrawlUrl::new(site.url.copy(), 0));
                    proof {
                        assert(c@.queue =~= q.push((site@.url, 0u32)));
                    }
                    c.put(h, site);
                },
                None => {},
            }
            proof {
                k = k + 1;
            }
        }
        proof {
            assert(all.take(k) =~= all);
        }
        c
    }

    /// The checks on `url` at `depth` that need no outside lookup (host,
    /// configured site, depth, robots rules); `Accepted` when all pass. The
    /// lookup of the seen marker is only worth making after these.
    pub fn check_site(&self, url: &WebUrl, depth: u32) -> (r: Verdict)
        ensures
            r == site_verdict(self@, url@, depth),
    {
        let host = match url.host() {
            None => return Verdict::NoHost,
            Some(h) => h,
        };
        let ghost s = self@.sites;
        let i = match self.find_site(&host) {
            None => return Verdict::UnknownHost,
            Some(i) => i,
        };
        proof {
            lemma_first_site_unique(s, host@, i as int);
            assert(self.site_map[i as int].site@ == site_of(s, host@));
        }
        match self.site_map[i].site.depth {
            Some(d) => {
                if depth >= d {
                    return Verdict::DepthReached;
                }
            },
            None => {},
        }
        if !self.site_map[i].site.is_allowed(url.path()) {
            return Verdict::RobotsDisallowed;
        }
        Verdict::Accepted
    }

    /// Admission of `url` at `depth`. `seen` tells whether the URL is marked
    /// as seen; `now` is the time in milliseconds. On acceptance the site's
    /// timer starts a new period; when the rate limit refuses, the URL goes
    /// back on the queue at the same depth.
    pub fn check_valid(&mut self, url: &WebUrl, depth: u32, seen: bool, now: u64) -> (r: Verdict)
        ensures
            r == verdict_of(old(self)@, url@, depth, seen, now),
            final(self)@.queue == if r == Verdict::RateLimited {
                old(self)@.queue.push((url@, depth))
            } else {
                old(self)@.queue
            },
            final(self)@.sites == if r == Verdict::Accepted {
                granted_at(old(self)@.sites, url@.host->0, now)
            } else {
                old(self)@.sites
            },
    {
        let pre = self.check_site(url, depth);
        if !pre.is_valid() {
            return pre;
        }
        if seen {
            return Verdict::AlreadySeen;
        }
        let host = match url.host() {
            None => return Verdict::NoHost,
            Some(h) => h,
        };
        let ghost s = self@.sites;
        let i = match self.find_site(&host) {
            None => return Verdict::UnknownHost,
            Some(i) => i,
        };
        proof {
            lemma_first_site_unique(s, host@, i as int);
        }
        let mut entry = self.site_map.remove(i);
        let ok = entry.site.timer.can_send(now);
        self.site_map.insert(i, entry);
        if !ok {
            proof {
                assert(self@.sites =~= s);
            }
            let ghost q = self@.queue;
            self.url_queue.push(CrawlUrl::new(url.copy(), depth));
            proof {
                assert(self@.queue =~= q.push((url@, depth)));
            }
            return Verdict::RateLimited;
        }
        proof {
            assert(self@.sites =~= granted_at(s, host@, now));
        }
        Verdict::Accepted
    }

    /// Whether the queue has room for a refill from the frontier.
    pub fn needs_urls(&self) -> (r: bool)
        ensures
            r == (self@.queue.len() < MAX_QUEUE_SIZE),
    {
        self.url_queue.len() < MAX_QUEUE_SIZE
    }

    /// Appends the frontier rows `(url, depth)` whose URL parses (and whose
    /// depth is not negative) to the queue, in order.
    pub fn extend_queue(&mut self, rows: Vec<(String, i32)>)
        ensures
            final(self)@.sites == old(self)@.sites,
            final(self)@.queue == old(self)@.queue + rows_to_queue(rows@.map_values(|r: (String, i32)| row_view(r))),
    {
        let ghost rv = rows@.map_values(|r: (String, i32)| row_view(r));
        let ghost q0 = self@.queue;
        let mut i: usize = 0;
        while i < rows.len()
            invariant
                i <= rows@.len(),
                rv == rows@.map_values(|r: (String, i32)| row_view(r)),
                self@.sites == old(self)@.sites,
                q0 == old(self)@.queue,
                self@.queue == q0 + rows_to_queue(rv.take(i as int)),
            decreases rows@.len() - i,
        {
            proof {
                assert(rv.take(i + 1).drop_last() =~= rv.take(i as int));
            }
            let ghost q = self@.queue;
            let d = rows[i].1;
            match WebUrl::parse(rows[i].0.as_str()) {
                Some(u) => {
                    if d >= 0 {
                        self.url_queue.push(CrawlUrl::new(u, d as u32));
                        proof {
                            assert(self@.queue =~= q.push((u@, d as u32)));
                        }
                    }
                },
                None => {},
            }
            proof {
                assert(self@.queue =~= q0 + rows_to_queue(rv.take(i + 1)));
            }
            i = i + 1;
        }
        proof {
            assert(rv.take(rows@.len() as int) =~= rv);
        }
    }

    /// The configured host names, in map order.
    pub fn hosts(&self) -> (r: Vec<String>)
        ensures
            r@.map_values(|h: String| h@) == self@.sites.map_values(|e: (Seq<char>, SiteView)| e.0),
    {
        let mut out: Vec<String> = Vec::new();
        let mut i: usize = 0;
        while i < self.site_map.len()
            invariant
                i <= self.site_map@.len(),
                self@.sites.len() == self.site_map@.len(),
                out@.map_values(|h: String| h@) == self@.sites.take(i as int).map_values(
                    |e: (Seq<char>, SiteView)| e.0,
                ),
            decreases self.site_map@.len() - i,
        {
            let ghost prev = out@.map_values(|h: String| h@);
            out.push(self.site_map[i].host.clone());
            proof {
                assert(self@.sites[i as int].0 == self.site_map@[i as int].host@);
                assert(out@.map_values(|h: String| h@) =~= prev.push(self.site_map@[i as int].host@));
                assert(out@.map_values(|h: String| h@) =~= self@.sites.take(i + 1).map_values(
                    |e: (Seq<char>, SiteView)| e.0,
                ));
            }
            i = i + 1;
        }
        proof {
            assert(self@.sites.take(i as int) =~= self@.sites);
        }
        out
    }

    pub fn queue_len(&self) -> (r: usize)
        ensures
            r == self@.queue.len(),
    {
        self.url_queue.len()
    }

    /// A copy of the `i`-th queued URL.
    pub fn queue_item(&self, i: usize) -> (r: CrawlUrl)
        requires
            i < self@.queue.len(),
        ensures
            (r.url@, r.depth) == self@.queue[i as int],
    {
        CrawlUrl::new(self.url_queue[i].url.copy(), self.url_queue[i].depth)
    }

    /// Empties the queue at the end of a pass.
    pub fn clear_queue(&mut self)
        ensures
            final(self)@.queue == Seq::<(UrlView, u32)>::empty(),
            final(self)@.sites == old(self)@.sites,
    {
        self.url_queue.clear();
        assert(self@.queue =~= Seq::<(UrlView, u32)>::empty());
    }
}

} // verus!
