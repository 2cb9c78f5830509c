use vstd::prelude::*;

verus! {

/// The parts of an absolute URL that the pipeline reads.
pub ghost struct UrlView {
    /// The whole URL in its normal form.
    pub href: Seq<char>,
    pub scheme: Seq<char>,
    pub host: Option<Seq<char>>,
    pub path: Seq<char>,
}

/// What `url::Url::parse` makes of a string, when it accepts it.
pub uninterp spec fn parsed_url(s: Seq<char>) -> Option<UrlView>;

/// What `url::Url::join` makes of a reference against a base URL (given in
/// normal form), when it accepts it.
pub uninterp spec fn joined_url(base: Seq<char>, reference: Seq<char>) -> Option<UrlView>;

pub open spec fn opt_view(o: Option<String>) -> Option<Seq<char>> {
    match o {
        Some(s) => Some(s@),
        None => None,
    }
}

/// An absolute URL, held as the plain parts that the logic reads.
#[derive(Clone, Debug)]
pub struct WebUrl {
    href: String,
    scheme: String,
    host: Option<String>,
    path: String,
}

impl View for WebUrl {
    type V = UrlView;

    closed spec fn view(&self) -> UrlView {
        UrlView {
            href: self.href@,
            scheme: self.scheme@,
            host: opt_view(self.host),
            path: self.path@,
        }
    }
}

pub open spec fn opt_url_view(o: Option<WebUrl>) -> Option<UrlView> {
    match o {
        Some(u) => Some(u@),
        None => None,
    }
}

/// Relies on `url::Url::parse`: the URL that it reads from `s`, if any,
/// taken apart by its accessors.
#[verifier::external_body]
fn parse_url(s: &str) -> (r: Option<WebUrl>)
    ensures
        opt_url_view(r) == parsed_url(s@),
{
    match url::Url::parse(s) {
        Ok(u) => Some(
            WebUrl {
                href: u.as_str().to_string(),
                scheme: u.scheme().to_string(),
                host: u.host_str().map(|h| h.to_string()),
                path: u.path().to_string(),
            },
        ),
        Err(_) => None,
    }
}

/// Relies on `url::Url::join`: `reference` resolved against `base`, if it
/// resolves. The base is the URL whose normal form is `base.href`.
#[verifier::external_body]
fn join_url(base: &WebUrl, reference: &str) -> (r: Option<WebUrl>)
    ensures
        opt_url_view(r) == joined_url(base@.href, reference@),
{
    let b = match url::Url::parse(&base.href) {
        Ok(b) => b,
        Err(_) => return None,
    };
    match b.join(reference) {
        Ok(u) => Some(
            WebUrl {
                href: u.as_str().to_string(),
                scheme: u.scheme().to_string(),
                host: u.host_str().map(|h| h.to_string()),
                path: u.path().to_string(),
            },
        ),
        Err(_) => None,
    }
}

fn copy_opt(o: &Option<String>) -> (r: Option<String>)
    ensures
        opt_view(r) == opt_view(*o),
{
    match o {
        Some(s) => Some(s.clone()),
        None => None,
    }
}

impl WebUrl {
    /// The absolute URL written in `s`, if it is one.
    pub fn parse(s: &str) -> (r: Option<WebUrl>)
        ensures
            opt_url_view(r) == parsed_url(s@),
    {
        parse_url(s)
    }

    /// `reference` resolved against this URL, if it resolves.
    pub fn join(&self, reference: &str) -> (r: Option<WebUrl>)
        ensures
            opt_url_view(r) == joined_url(self@.href, reference@),
    {
        join_url(self, reference)
    }

    /// The URL in normal form.
    pub fn as_str(&self) -> (r: &str)
        ensures
            r@ == self@.href,
    {
        self.href.as_str()
    }

    pub fn scheme(&self) -> (r: &str)
        ensures
            r@ == self@.scheme,
    {
        self.scheme.as_str()
    }

    pub fn host(&self) -> (r: Option<String>)
        ensures
            opt_view(r) == self@.host,
    {
        copy_opt(&self.host)
    }

    pub fn path(&self) -> (r: &str)
        ensures
            r@ == self@.path,
    {
        self.path.as_str()
    }

    /// A copy with the same parts.
    pub fn copy(&self) -> (r: WebUrl)
        ensures
            r@ == self@,
    {
        WebUrl {
            href: self.href.clone(),
            scheme: self.scheme.clone(),
            host: copy_opt(&self.host),
            path: self.path.clone(),
        }
    }
}

} // verus!
