use vstd::prelude::*;
use vstd::string::StrSliceExecFns;
use crate::config::ConfigError;
use crate::crawler::CrawlMessage;
use crate::text::{chars_of, has_prefix, starts_with, substring, trim_bounds, trim_range};
use crate::weburl::{joined_url, opt_view, parsed_url, UrlView, WebUrl};

verus! {

/// The document as `scraper` serialises it once its `<script>` and
/// `<style>` elements are removed.
pub uninterp spec fn scriptless(doc: Seq<char>) -> Seq<char>;

/// The text nodes under the first `<title>` of an HTML document, in order,
/// if it has one.
pub uninterp spec fn html_title_nodes(doc: Seq<char>) -> Option<Seq<Seq<char>>>;

/// The text nodes under the first `<body>` of an HTML document, in order,
/// if it has one.
pub uninterp spec fn html_body_nodes(doc: Seq<char>) -> Option<Seq<Seq<char>>>;

/// For each `<a>` element of an HTML document, in order, its `href`
/// attribute if it has one.
pub uninterp spec fn html_anchor_hrefs(doc: Seq<char>) -> Seq<Option<Seq<char>>>;

/// The text with bracketed spans, non-ASCII runs, runs of four spaces and
/// tab, newline and carriage-return characters removed.
pub uninterp spec fn cleaned(s: Seq<char>) -> Seq<char>;

pub open spec fn string_views(v: Seq<String>) -> Seq<Seq<char>> {
    v.map_values(|s: String| s@)
}

pub open spec fn nodes_view(o: Option<Vec<String>>) -> Option<Seq<Seq<char>>> {
    match o {
        Some(v) => Some(string_views(v@)),
        None => None,
    }
}

pub open spec fn hrefs_view(v: Seq<Option<String>>) -> Seq<Option<Seq<char>>> {
    v.map_values(|h: Option<String>| opt_view(h))
}

/// Relies on `scraper`: parses the document, detaches its `script` and
/// `style` elements and serialises what is left.
#[verifier::external_body]
fn strip_scripts(doc: &str) -> (r: String)
    ensures
        r@ == scriptless(doc@),
{
    let mut page = scraper::Html::parse_document(doc);
    if let Ok(strip) = scraper::Selector::parse("script, style") {
        let ids: Vec<_> = page.select(&strip).map(|e| e.id()).collect();
        for id in ids {
            if let Some(mut node) = page.tree.get_mut(id) {
                node.detach();
            }
        }
    }
    page.html()
}

/// Relies on `scraper`: parses the document and collects the text nodes
/// of its first `title` element.
#[verifier::external_body]
fn title_nodes(doc: &str) -> (r: Option<Vec<String>>)
    ensures
        nodes_view(r) == html_title_nodes(doc@),
{
    let page = scraper::Html::parse_document(doc);
    let sel = scraper::Selector::parse("title").ok()?;
    match page.select(&sel).next() {
        Some(e) => Some(e.text().map(|t| t.to_string()).collect()),
        None => None,
    }
}

/// Relies on `scraper`: parses the document and collects the text nodes
/// of its first `body` element.
#[verifier::external_body]
fn body_nodes(doc: &str) -> (r: Option<Vec<String>>)
    ensures
        nodes_view(r) == html_body_nodes(doc@),
{
    let page = scraper::Html::parse_document(doc);
    let sel = scraper::Selector::parse("body").ok()?;
    match page.select(&sel).next() {
        Some(e) => Some(e.text().map(|t| t.to_string()).collect()),
        None => None,
    }
}

/// Relies on `scraper`: parses the document and reads the `href`
/// attribute of each `a` element.
#[verifier::external_body]
fn anchor_hrefs(doc: &str) -> (r: Vec<Option<String>>)
    ensures
        hrefs_view(r@) == html_anchor_hrefs(doc@),
{
    let page = scraper::Html::parse_document(doc);
    match scraper::Selector::parse("a") {
        Ok(sel) => page.select(&sel).map(|e| e.value().attr("href").map(|h| h.to_string())).collect(),
        Err(_) => Vec::new(),
    }
}

/// Relies on `regex::Regex::replace_all` with the fixed pattern
/// `\[.*?]|[^\x00-\x7F]+| {4}|[\t\n\r]`, every match replaced by nothing.
/// Every non-ASCII character and every tab, newline and carriage return
/// matches the pattern, so none is left.
#[verifier::external_body]
fn strip_noise(s: &str) -> (r: String)
    ensures
        r@ == cleaned(s@),
        forall|i: int| 0 <= i < r@.len() ==> is_plain_ascii(#[trigger] r@[i]),
{
    match regex::Regex::new(r"\[.*?]|[^\x00-\x7F]+| {4}|[\t\n\r]") {
        Ok(re) => re.replace_all(s, "").into_owned(),
        Err(_) => s.to_string(),
    }
}

/// ASCII, and neither tab, newline nor carriage return.
pub open spec fn is_plain_ascii(c: char) -> bool {
    c <= '\x7F' && c != '\t' && c != '\n' && c != '\r'
}

/// The cleanup applied to page text and to search snippets.
pub fn clean_text(s: &str) -> (r: String)
    ensures
        r@ == cleaned(s@),
        forall|i: int| 0 <= i < r@.len() ==> is_plain_ascii(#[trigger] r@[i]),
{
    strip_noise(s)
}

/// Why a crawled page was not turned into a document.
#[derive(Debug, Clone, Copy, PartialEq, Eq, Structural)]
pub enum ParseError {
    /// The message carried an empty id.
    EmptyId,
    /// No hand-off record under the id.
    MissingRecord,
    /// The record's URL does not parse.
    BadUrl,
    /// The page has no body text.
    EmptyBody,
}

/// Where an `href` leads from a page at `base`: a relative reference (not
/// starting with `http`, or starting with `/`) is resolved against the
/// page; if that fails, or the reference looks absolute, it is parsed on
/// its own.
pub open spec fn link_target(base: UrlView, href: Seq<char>) -> Option<UrlView> {
    if (!has_prefix(href, "http"@) || has_prefix(href, "/"@)) && joined_url(base.href, href) is Some {
        joined_url(base.href, href)
    } else {
        parsed_url(href)
    }
}

/// Targets of `hrefs` that resolve, in order.
pub open spec fn link_targets(base: UrlView, hrefs: Seq<Seq<char>>) -> Seq<UrlView>
    decreases hrefs.len(),
{
    if hrefs.len() == 0 {
        seq![]
    } else {
        let prev = link_targets(base, hrefs.drop_last());
        match link_target(base, hrefs.last()) {
            Some(u) => prev.push(u),
            None => prev,
        }
    }
}

pub open spec fn url_views(v: Seq<WebUrl>) -> Seq<UrlView> {
    v.map_values(|u: WebUrl| u@)
}

/// The targets of the links `hrefs` found on the page at `base`.
pub fn normalize_links(base: &WebUrl, hrefs: &Vec<String>) -> (r: Vec<WebUrl>)
    ensures
        url_views(r@) == link_targets(base@, hrefs@.map_values(|h: String| h@)),
{
    let ghost hv = hrefs@.map_values(|h: String| h@);
    let http = chars_of("http");
    let slash = chars_of("/");
    let mut out: Vec<WebUrl> = Vec::new();
    let mut i: usize = 0;
    while i < hrefs.len()
        invariant
            i <= hrefs@.len(),
            hv == hrefs@.map_values(|h: String| h@),
            http@ == "http"@,
            slash@ == "/"@,
            url_views(out@) == link_targets(base@, hv.take(i as int)),
        decreases hrefs@.len() - i,
    {
        proof {
            assert(hv.take(i + 1).drop_last() =~= hv.take(i as int));
        }
        let ghost prev = url_views(out@);
        let h = chars_of(hrefs[i].as_str());
        let relative = !starts_with(&h, &http) || starts_with(&h, &slash);
        let mut target: Option<WebUrl> = None;
        if relative {
            target = base.join(hrefs[i].as_str());
        }
        if target.is_none() {
            target = WebUrl::parse(hrefs[i].as_str());
        }
        match target {
            Some(u) => {
                out.push(u);
                proof {
                    assert(url_views(out@) =~= prev.push(u@));
                }
            },
            None => {},
        }
        i = i + 1;
    }
    proof {
        assert(hv.take(i as int) =~= hv);
    }
    out
}

/// `"{title} {body}"`, or nothing when the body is empty.
pub open spec fn page_words(title: Seq<char>, body: Seq<char>) -> Option<Seq<char>> {
    if body.len() == 0 {
        None
    } else {
        Some(title + " "@ + body)
    }
}

/// Title and body joined by a space; `None` when the body is empty.
pub fn compose_text(title: &str, body: &str) -> (r: Option<String>)
    ensures
        opt_view(r) == page_words(title@, body@),
{
    if body.unicode_len() == 0 {
        return None;
    }
    let mut t = String::from_str(title);
    t.append(" ");
    t.append(body);
    Some(t)
}

/// Text nodes joined by single spaces, each trimmed of surrounding
/// whitespace and those left empty skipped.
pub open spec fn joined_text(nodes: Seq<Seq<char>>) -> Seq<char>
    decreases nodes.len(),
{
    if nodes.len() == 0 {
        seq![]
    } else {
        let prev = joined_text(nodes.drop_last());
        let t = trim_range(nodes.last(), 0, nodes.last().len() as int);
        if t.len() == 0 {
            prev
        } else if prev.len() == 0 {
            t
        } else {
            prev + " "@ + t
        }
    }
}

/// The text of an element given its text nodes; none when there is no
/// such element.
pub open spec fn element_text(nodes: Option<Seq<Seq<char>>>) -> Seq<char> {
    match nodes {
        Some(n) => joined_text(n),
        None => seq![],
    }
}

/// The `href`s that are present, in order.
pub open spec fn present_hrefs(v: Seq<Option<Seq<char>>>) -> Seq<Seq<char>>
    decreases v.len(),
{
    if v.len() == 0 {
        seq![]
    } else {
        let prev = present_hrefs(v.drop_last());
        match v.last() {
            Some(h) => prev.push(h),
            None => prev,
        }
    }
}

/// What a page yields from its parts: its links, its title and its cleaned
/// `"{title} {body}"` text; none when the body text is empty.
pub open spec fn page_from(
    title: Option<Seq<Seq<char>>>,
    body: Option<Seq<Seq<char>>>,
    hrefs: Seq<Option<Seq<char>>>,
    base: UrlView,
) -> Option<(Seq<UrlView>, Seq<char>, Seq<char>)> {
    let t = element_text(title);
    match page_words(t, element_text(body)) {
        None => None,
        Some(w) => Some((link_targets(base, present_hrefs(hrefs)), t, cleaned(w))),
    }
}

/// What a page yields, read after its scripts and styles are removed.
pub open spec fn page_of(doc: Seq<char>, base: UrlView) -> Option<(Seq<UrlView>, Seq<char>, Seq<char>)> {
    let s = scriptless(doc);
    page_from(html_title_nodes(s), html_body_nodes(s), html_anchor_hrefs(s), base)
}

/// Joins text nodes: each trimmed, empty ones skipped, single spaces
/// between.
pub fn join_nodes(nodes: &Vec<String>) -> (r: String)
    ensures
        r@ == joined_text(string_views(nodes@)),
{
    let ghost nv = string_views(nodes@);
    let mut out = String::new();
    let mut has_text = false;
    let mut i: usize = 0;
    while i < nodes.len()
        invariant
            i <= nodes@.len(),
            nv == string_views(nodes@),
            out@ == joined_text(nv.take(i as int)),
            has_text == (out@.len() > 0),
        decreases nodes@.len() - i,
    {
        proof {
            assert(nv.take(i + 1).drop_last() =~= nv.take(i as int));
        }
        let ghost before = out@;
        let node = nodes[i].as_str();
        let c = chars_of(node);
        let (a, b) = trim_bounds(&c, 0, c.len());
        if a < b {
            let piece = substring(node, a, b);
            if has_text {
                out.append(" ");
            }
            out.append(piece.as_str());
            has_text = true;
            proof {
                assert(c@.subrange(0, c@.len() as int) =~= c@);
                if before.len() == 0 {
                    assert(out@ =~= piece@);
                } else {
                    assert(out@ =~= before + " "@ + piece@);
                }
            }
        }
        i = i + 1;
    }
    proof {
        assert(nv.take(i as int) =~= nv);
    }
    out
}

/// The `href`s that are present, in order.
pub fn keep_present(hrefs: &Vec<Option<String>>) -> (r: Vec<String>)
    ensures
        string_views(r@) == present_hrefs(hrefs_view(hrefs@)),
{
    let ghost hv = hrefs_view(hrefs@);
    let mut out: Vec<String> = Vec::new();
    let mut i: usize = 0;
    while i < hrefs.len()
        invariant
            i <= hrefs@.len(),
            hv == hrefs_view(hrefs@),
            string_views(out@) == present_hrefs(hv.take(i as int)),
        decreases hrefs@.len() - i,
    {
        proof {
            assert(hv.take(i + 1).drop_last() =~= hv.take(i as int));
        }
        let ghost before = string_views(out@);
        match &hrefs[i] {
            Some(h) => {
                out.push(h.clone());
                proof {
                    assert(string_views(out@) =~= before.push(h@));
                }
            },
            None => {},
        }
        i = i + 1;
    }
    proof {
        assert(hv.take(i as int) =~= hv);
    }
    out
}

/// Builds a page from its extracted parts: the title's and the body's text
/// nodes and the anchors' `href`s. Fails when the body text is empty.
pub fn page_from_parts(
    title: Option<Vec<String>>,
    body: Option<Vec<String>>,
    hrefs: &Vec<Option<String>>,
    base: &WebUrl,
) -> (r: Result<(Vec<WebUrl>, String, String), ParseError>)
    ensures
        match page_from(nodes_view(title), nodes_view(body), hrefs_view(hrefs@), base@) {
            None => r == Err::<(Vec<WebUrl>, String, String), ParseError>(ParseError::EmptyBody),
            Some(p) => r is Ok && url_views(r->Ok_0.0@) == p.0 && r->Ok_0.1@ == p.1
                && r->Ok_0.2@ == p.2,
        },
{
    let t = match &title {
        Some(n) => join_nodes(n),
        None => String::new(),
    };
    let b = match &body {
        Some(n) => join_nodes(n),
        None => String::new(),
    };
    let present = keep_present(hrefs);
    let links = normalize_links(base, &present);
    match compose_text(t.as_str(), b.as_str()) {
        None => Err(ParseError::EmptyBody),
        Some(w) => {
            let text = clean_text(w.as_str());
            Ok((links, t, text))
        },
    }
}

/// Extracts the links (resolved against `base`), the title and the cleaned
/// `"{title} {body}"` text of an HTML page once its scripts and styles are
/// removed; fails when the body text is empty.
pub fn parse_document(doc: &str, base: &WebUrl) -> (r: Result<(Vec<WebUrl>, String, String), ParseError>)
    ensures
        match page_of(doc@, base@) {
            None => r == Err::<(Vec<WebUrl>, String, String), ParseError>(ParseError::EmptyBody),
            Some(p) => r is Ok && url_views(r->Ok_0.0@) == p.0 && r->Ok_0.1@ == p.1
                && r->Ok_0.2@ == p.2,
        },
{
    let page = strip_scripts(doc);
    let title = title_nodes(page.as_str());
    let body = body_nodes(page.as_str());
    let hrefs = anchor_hrefs(page.as_str());
    page_from_parts(title, body, &hrefs, base)
}

/// A page whose body has no text yields no document, whatever its title
/// and links.
pub proof fn lemma_empty_body_no_page(
    title: Option<Seq<Seq<char>>>,
    body: Option<Seq<Seq<char>>>,
    hrefs: Seq<Option<Seq<char>>>,
    base: UrlView,
)
    requires
        element_text(body).len() == 0,
    ensures
        page_from(title, body, hrefs, base) is None,
{
}

/// Hosts of the configured site URLs, in order; the first URL that does
/// not parse, or has no host, makes it an error.
pub open spec fn config_hosts(urls: Seq<Seq<char>>) -> Result<Seq<Seq<char>>, ConfigError>
    decreases urls.len(),
{
    if urls.len() == 0 {
        Ok(seq![])
    } else {
        match config_hosts(urls.drop_last()) {
            Err(e) => Err(e),
            Ok(prev) => match parsed_url(urls.last()) {
                None => Err(ConfigError::BadUrl),
                Some(u) => match u.host {
                    None => Err(ConfigError::NoHost),
                    Some(h) => Ok(prev.push(h)),
                },
            },
        }
    }
}

/// A frontier row: a URL to crawl, its host and its depth.
#[derive(Debug, Clone)]
pub struct FrontierRow {
    pub url: String,
    pub host: String,
    pub depth: u32,
}

pub open spec fn row_views(v: Seq<FrontierRow>) -> Seq<(Seq<char>, Seq<char>, u32)> {
    v.map_values(|r: FrontierRow| (r.url@, r.host@, r.depth))
}

/// Rows for the links `urls` of a page at `depth`: each link whose host is
/// one of `hosts`, at `depth + 1`, in order.
pub open spec fn frontier_of(urls: Seq<UrlView>, hosts: Seq<Seq<char>>, depth: u32) -> Seq<(Seq<char>, Seq<char>, u32)>
    decreases urls.len(),
{
    if urls.len() == 0 {
        seq![]
    } else {
        let prev = frontier_of(urls.drop_last(), hosts, depth);
        let u = urls.last();
        match u.host {
            Some(h) => if hosts.contains(h) {
                prev.push((u.href, h, (depth + 1) as u32))
            } else {
                prev
            },
            None => prev,
        }
    }
}

/// The hosts that the parser may add to the frontier.
#[derive(Debug)]
pub struct SiteConfig {
    hosts: Vec<String>,
}

impl View for SiteConfig {
    type V = Seq<Seq<char>>;

    closed spec fn view(&self) -> Seq<Seq<char>> {
        self.hosts@.map_values(|h: String| h@)
    }
}

fn contains_string(v: &Vec<String>, s: &String) -> (r: bool)
    ensures
        r == v@.map_values(|h: String| h@).contains(s@),
{
    let ghost hv = v@.map_values(|h: String| h@);
    let mut i: usize = 0;
    while i < v.len()
        invariant
            i <= v@.len(),
            hv == v@.map_values(|h: String| h@),
            forall|j: int| 0 <= j < i ==> hv[j] != s@,
        decreases v@.len() - i,
    {
        if v[i] == *s {
            assert(hv[i as int] == s@);
            return true;
        }
        i = i + 1;
    }
    false
}

impl SiteConfig {
    /// The hosts of the configured site URLs.
    pub fn new(urls: &Vec<String>) -> (r: Result<SiteConfig, ConfigError>)
        ensures
            match config_hosts(urls@.map_values(|u: String| u@)) {
                Err(e) => r == Err::<SiteConfig, ConfigError>(e),
                Ok(h) => r is Ok && r->Ok_0@ == h,
            },
    {
        let ghost uv = urls@.map_values(|u: String| u@);
        let mut hosts: Vec<String> = Vec::new();
        proof {
            assert(uv.take(0) =~= Seq::<Seq<char>>::empty());
            assert(hosts@.map_values(|h: String| h@) =~= Seq::<Seq<char>>::empty());
        }
        let mut i: usize = 0;
        while i < urls.len()
            invariant
                i <= urls@.len(),
                uv == urls@.map_values(|u: String| u@),
                config_hosts(uv.take(i as int)) == Ok::<Seq<Seq<char>>, ConfigError>(
                    hosts@.map_values(|h: String| h@),
                ),
            decreases urls@.len() - i,
        {
            proof {
                assert(uv.take(i + 1).drop_last() =~= uv.take(i as int));
            }
            let u = match WebUrl::parse(urls[i].as_str()) {
                Some(u) => u,
                None => {
                    proof {
                        lemma_config_err_sticks(uv, i as int + 1, ConfigError::BadUrl);
                    }
                    return Err(ConfigError::BadUrl);
                },
            };
            let h = match u.host() {
                Some(h) => h,
                None => {
                    proof {
                        lemma_config_err_sticks(uv, i as int + 1, ConfigError::NoHost);
                    }
                    return Err(ConfigError::NoHost);
                },
            };
            let ghost prev = hosts@.map_values(|x: String| x@);
            hosts.push(h);
            proof {
                assert(hosts@.map_values(|x: String| x@) =~= prev.push(u@.host->0));
            }
            i = i + 1;
        }
        proof {
            assert(uv.take(i as int) =~= uv);
        }
        Ok(SiteConfig { hosts })
    }

    /// Whether links to `host` may enter the frontier (at any depth).
    pub fn is_allowed(&self, host: String, _current_depth: u32) -> (r: bool)
        ensures
            r == self@.contains(host@),
    {
        contains_string(&self.hosts, &host)
    }

    /// Frontier rows for the links of a page at `depth`: only links whose
    /// host is configured, each at `depth + 1`.
    pub fn frontier_rows(&self, urls: &Vec<WebUrl>, depth: u32) -> (r: Vec<FrontierRow>)
        requires
            depth < u32::MAX,
        ensures
            row_views(r@) == frontier_of(url_views(urls@), self@, depth),
            forall|k: int| 0 <= k < r@.len() ==> self@.contains(#[trigger] r@[k].host@),
            forall|k: int| 0 <= k < r@.len() ==> #[trigger] r@[k].depth == depth + 1,
    {
        let ghost uv = url_views(urls@);
        let mut rows: Vec<FrontierRow> = Vec::new();
        let mut i: usize = 0;
        while i < urls.len()
            invariant
                i <= urls@.len(),
                depth < u32::MAX,
                uv == url_views(urls@),
                row_views(rows@) == frontier_of(uv.take(i as int), self@, depth),
                forall|k: int| 0 <= k < rows@.len() ==> self@.contains(#[trigger] rows@[k].host@),
                forall|k: int| 0 <= k < rows@.len() ==> #[trigger] rows@[k].depth == depth + 1,
            decreases urls@.len() - i,
        {
            proof {
                assert(uv.take(i + 1).drop_last() =~= uv.take(i as int));
            }
            let ghost prev = row_views(rows@);
            match urls[i].host() {
                Some(h) => {
                    if self.is_allowed(h.clone(), depth + 1) {
                        let row = FrontierRow {
                            url: String::from_str(urls[i].as_str()),
                            host: h,
                            depth: depth + 1,
                        };
                        rows.push(row);
                        proof {
                            assert(row_views(rows@) =~= prev.push((uv[i as int].href, uv[i as int].host->0, (depth + 1) as u32)));
                        }
                    }
                },
                None => {},
            }
            i = i + 1;
        }
        proof {
            assert(uv.take(i as int) =~= uv);
        }
        rows
    }
}

proof fn lemma_config_err_sticks(urls: Seq<Seq<char>>, k: int, e: ConfigError)
    requires
        0 < k <= urls.len(),
        config_hosts(urls.take(k)) == Err::<Seq<Seq<char>>, ConfigError>(e),
    ensures
        config_hosts(urls) == Err::<Seq<Seq<char>>, ConfigError>(e),
    decreases urls.len() - k,
{
    if k < urls.len() {
        assert(urls.take(k + 1).drop_last() =~= urls.take(k));
        lemma_config_err_sticks(urls, k + 1, e);
    } else {
        assert(urls.take(k) =~= urls);
    }
}

/// A parsed page, ready to be stored as a document.
#[derive(Debug)]
pub struct ParsedPage {
    pub url: WebUrl,
    pub depth: u32,
    pub title: String,
    pub text: String,
    pub links: Vec<WebUrl>,
}

/// Turns a crawler hand-off into a document: the id must be non-empty, the
/// record must exist, its URL must parse and its page must have body text.
pub fn parse_message(id: &str, record: Option<CrawlMessage>) -> (r: Result<ParsedPage, ParseError>)
    ensures
        id@.len() == 0 ==> r == Err::<ParsedPage, ParseError>(ParseError::EmptyId),
        id@.len() > 0 && record is None ==> r == Err::<ParsedPage, ParseError>(ParseError::MissingRecord),
        id@.len() > 0 && record is Some ==> {
            let m = record->Some_0;
            match parsed_url(m.url@) {
                None => r == Err::<ParsedPage, ParseError>(ParseError::BadUrl),
                Some(u) => match page_of(m.content@, u) {
                    None => r == Err::<ParsedPage, ParseError>(ParseError::EmptyBody),
                    Some(p) => r is Ok && r->Ok_0.url@ == u && r->Ok_0.depth == m.depth
                        && url_views(r->Ok_0.links@) == p.0 && r->Ok_0.title@ == p.1
                        && r->Ok_0.text@ == p.2,
                },
            }
        },
{
    if id.unicode_len() == 0 {
        return Err(ParseError::EmptyId);
    }
    let m = match record {
        Some(m) => m,
        None => return Err(ParseError::MissingRecord),
    };
    let url = match WebUrl::parse(m.url.as_str()) {
        Some(u) => u,
        None => return Err(ParseError::BadUrl),
    };
    match parse_document(m.content.as_str(), &url) {
        Err(e) => Err(e),
        Ok((links, title, text)) => Ok(ParsedPage { url, depth: m.depth, title, text, links }),
    }
}

/// Documents of `docs` with no id in `chunked`, in order.
pub open spec fn unchunked(docs: Seq<Seq<char>>, chunked: Seq<Seq<char>>) -> Seq<Seq<char>>
    decreases docs.len(),
{
    if docs.len() == 0 {
        seq![]
    } else {
        let prev = unchunked(docs.drop_last(), chunked);
        if chunked.contains(docs.last()) {
            prev
        } else {
            prev.push(docs.last())
        }
    }
}

/// The ids of documents that have no chunk yet: these go to the embedder
/// again at parser start-up.
pub fn missing_ids(docs: &Vec<String>, chunked: &Vec<String>) -> (r: Vec<String>)
    ensures
        string_views(r@) == unchunked(string_views(docs@), string_views(chunked@)),
{
    let ghost dv = string_views(docs@);
    let ghost cv = string_views(chunked@);
    let mut out: Vec<String> = Vec::new();
    let mut i: usize = 0;
    while i < docs.len()
        invariant
            i <= docs@.len(),
            dv == string_views(docs@),
            cv == string_views(chunked@),
            string_views(out@) == unchunked(dv.take(i as int), cv),
        decreases docs@.len() - i,
    {
        proof {
            assert(dv.take(i + 1).drop_last() =~= dv.take(i as int));
        }
        let ghost prev = string_views(out@);
        if !contains_string(chunked, &docs[i]) {
            out.push(docs[i].clone());
            proof {
                assert(string_views(out@) =~= prev.push(dv[i as int]));
            }
        }
        i = i + 1;
    }
    proof {
        assert(dv.take(i as int) =~= dv);
    }
    out
}

/// Reconciliation is idle once every document has a chunk: no id is sent.
pub proof fn lemma_reconcile_idle(docs: Seq<Seq<char>>, chunked: Seq<Seq<char>>)
    requires
        forall|i: int| 0 <= i < docs.len() ==> chunked.contains(#[trigger] docs[i]),
    ensures
        unchunked(docs, chunked).len() == 0,
    decreases docs.len(),
{
    if docs.len() > 0 {
        assert(chunked.contains(docs[docs.len() - 1]));
        lemma_reconcile_idle(docs.drop_last(), chunked);
    }
}

/// Every frontier row that the parser writes has a configured host.
pub proof fn lemma_frontier_hosts_configured(urls: Seq<UrlView>, hosts: Seq<Seq<char>>, depth: u32, k: int)
    requires
        0 <= k < frontier_of(urls, hosts, depth).len(),
    ensures
        hosts.contains(frontier_of(urls, hosts, depth)[k].1),
    decreases urls.len(),
{
    if urls.len() > 0 {
        let prev = frontier_of(urls.drop_last(), hosts, depth);
        if k < prev.len() {
            lemma_frontier_hosts_configured(urls.drop_last(), hosts, depth, k);
        }
    }
}

} // verus!
