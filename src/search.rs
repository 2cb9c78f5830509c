use vstd::prelude::*;
use vstd::string::StrSliceExecFns;
use vstd::utf8::encode_utf8;
use crate::parser::{clean_text, cleaned};
use crate::text::{chars_of, is_whitespace, is_ws, skip_ws, slice_chars, substring};

verus! {

/// Words that never count as keyword hits.
pub open spec fn stop_list() -> Seq<Seq<char>> {
    seq![
        "a"@, "an"@, "and"@, "are"@, "as"@, "at"@, "be"@, "but"@, "by"@, "for"@, "from"@,
        "has"@, "have"@, "he"@, "in"@, "is"@, "it"@, "its"@, "of"@, "on"@, "or"@, "that"@,
        "the"@, "their"@, "they"@, "this"@, "to"@, "was"@, "were"@, "will"@, "with"@,
    ]
}

/// What `str::to_lowercase` makes of a string.
pub uninterp spec fn lower_of(s: Seq<char>) -> Seq<char>;

/// Relies on `str::to_lowercase`: the result depends on the characters alone.
#[verifier::external_body]
fn to_lower(s: &str) -> (r: String)
    ensures
        r@ == lower_of(s@),
{
    s.to_lowercase()
}

/// End of the word that starts at `i`: the next whitespace, or the length.
pub open spec fn word_end(s: Seq<char>, i: int) -> int
    decreases s.len() - i,
{
    if i < 0 || i >= s.len() {
        s.len() as int
    } else if is_ws(s[i]) {
        i
    } else {
        word_end(s, i + 1)
    }
}

/// The whitespace-separated words of `s` from position `i` on, as
/// `str::split_whitespace` yields them.
pub open spec fn words_from(s: Seq<char>, i: int) -> Seq<Seq<char>>
    decreases s.len() - i,
{
    let j = skip_ws(s, i);
    if i < 0 || j >= s.len() || j < i {
        seq![]
    } else {
        let e = word_end(s, j);
        if e <= j || e > s.len() {
            seq![]
        } else {
            seq![s.subrange(j, e)] + words_from(s, e)
        }
    }
}

pub open spec fn words(s: Seq<char>) -> Seq<Seq<char>> {
    words_from(s, 0)
}

/// `w` occurs in `q` as a substring.
pub open spec fn occurs_in(q: Seq<char>, w: Seq<char>) -> bool {
    exists|k: int| 0 <= k && k + w.len() <= q.len() && #[trigger] q.subrange(k, k + w.len()) == w
}

pub open spec fn is_hit(w: Seq<char>, q: Seq<char>) -> bool {
    !stop_list().contains(w) && occurs_in(q, w)
}

/// Keyword hits among the first `n` words: `(gap, index)` for each word
/// that is no stop word and occurs in `q`, where the gap is the distance
/// from the previous hit (0 for the first).
pub open spec fn hits_upto(ws: Seq<Seq<char>>, q: Seq<char>, n: int) -> Seq<(int, int)>
    decreases n,
{
    if n <= 0 {
        seq![]
    } else {
        let prev = hits_upto(ws, q, n - 1);
        if is_hit(ws[n - 1], q) {
            let gap = if prev.len() == 0 {
                0
            } else {
                (n - 1) - prev.last().1
            };
            prev.push((gap, n - 1))
        } else {
            prev
        }
    }
}

/// Position in `h` of the first hit in order of gap (the earliest among
/// equal gaps): where a stable sort by gap puts it first.
pub open spec fn densest(h: Seq<(int, int)>) -> int
    decreases h.len(),
{
    if h.len() <= 1 {
        0
    } else {
        let b = densest(h.drop_last());
        if h.last().0 < h[b].0 {
            h.len() - 1
        } else {
            b
        }
    }
}

/// Position in `h` of the last hit, in order of gap (the latest among
/// equal gaps), whose index exceeds `bound`.
pub open spec fn window_end(h: Seq<(int, int)>, bound: int) -> Option<int>
    decreases h.len(),
{
    if h.len() == 0 {
        None
    } else {
        let prev = window_end(h.drop_last(), bound);
        if h.last().1 > bound {
            match prev {
                None => Some(h.len() - 1),
                Some(p) => if h.last().0 >= h[p].0 {
                    Some(h.len() - 1)
                } else {
                    Some(p)
                },
            }
        } else {
            prev
        }
    }
}

/// Words joined by single spaces.
pub open spec fn join_words(ws: Seq<Seq<char>>) -> Seq<char>
    decreases ws.len(),
{
    if ws.len() == 0 {
        seq![]
    } else if ws.len() == 1 {
        ws[0]
    } else {
        join_words(ws.drop_last()) + " "@ + ws.last()
    }
}

/// Why no window was picked.
#[derive(Debug, Clone, Copy, PartialEq, Eq, Structural)]
pub enum SummaryError {
    /// Fewer than `min_window + 1` words.
    TooShort,
    /// No hits, or the window is empty.
    NoWindow,
}

/// The window summary of lower-cased, cleaned text `t` for lower-cased
/// query `q`: from the densest hit to the last hit (in order of gap) that
/// lies more than `min_window` words further, that last word excluded.
pub open spec fn summary_of(t: Seq<char>, q: Seq<char>, min_window: int) -> Result<Seq<char>, SummaryError> {
    let ws = words(t);
    if ws.len() < min_window + 1 {
        Err(SummaryError::TooShort)
    } else {
        let h = hits_upto(ws, q, ws.len() as int);
        if h.len() == 0 {
            Err(SummaryError::NoWindow)
        } else {
            let start = h[densest(h)].1;
            let end = match window_end(h, start + min_window) {
                Some(p) => h[p].1,
                None => 0,
            };
            if start < end && end < ws.len() {
                Ok(join_words(ws.subrange(start, end)))
            } else {
                Err(SummaryError::NoWindow)
            }
        }
    }
}

pub open spec fn range_words(t: Seq<char>, r: Seq<(usize, usize)>) -> Seq<Seq<char>> {
    r.map_values(|p: (usize, usize)| t.subrange(p.0 as int, p.1 as int))
}

/// Bounds of the whitespace-separated words of `t`.
fn split_words(t: &Vec<char>) -> (r: Vec<(usize, usize)>)
    ensures
        range_words(t@, r@) == words(t@),
        forall|k: int| 0 <= k < r@.len() ==> (#[trigger] r@[k]).0 < r@[k].1 <= t@.len(),
{
    let mut out: Vec<(usize, usize)> = Vec::new();
    let mut pos: usize = 0;
    proof {
        assert(range_words(t@, out@) =~= Seq::<Seq<char>>::empty());
        assert(words(t@) =~= range_words(t@, out@) + words_from(t@, 0));
    }
    while pos < t.len()
        invariant
            pos <= t@.len(),
            words(t@) == range_words(t@, out@) + words_from(t@, pos as int),
            forall|k: int| 0 <= k < out@.len() ==> (#[trigger] out@[k]).0 < out@[k].1 <= t@.len(),
        decreases t@.len() - pos,
    {
        let mut j: usize = pos;
        while j < t.len() && is_whitespace(t[j])
            invariant
                pos <= j <= t@.len(),
                skip_ws(t@, pos as int) == skip_ws(t@, j as int),
            decreases t@.len() - j,
        {
            j = j + 1;
        }
        if j >= t.len() {
            proof {
                assert(words_from(t@, pos as int) =~= Seq::<Seq<char>>::empty());
                assert(words(t@) =~= range_words(t@, out@));
            }
            pos = t.len();
            proof {
                assert(words_from(t@, pos as int) =~= Seq::<Seq<char>>::empty());
                assert(words(t@) =~= range_words(t@, out@) + words_from(t@, pos as int));
            }
        } else {
            let mut e: usize = j;
            while e < t.len() && !is_whitespace(t[e])
                invariant
                    j <= e <= t@.len(),
                    j < t@.len(),
                    !is_ws(t@[j as int]),
                    word_end(t@, j as int) == word_end(t@, e as int),
                decreases t@.len() - e,
            {
                e = e + 1;
            }
            proof {
                assert(e > j);
                assert(words_from(t@, pos as int) == seq![t@.subrange(j as int, e as int)]
                    + words_from(t@, e as int));
            }
            let ghost before = range_words(t@, out@);
            out.push((j, e));
            proof {
                assert(range_words(t@, out@) =~= before.push(t@.subrange(j as int, e as int)));
                assert(words(t@) =~= range_words(t@, out@) + words_from(t@, e as int));
            }
            pos = e;
        }
    }
    proof {
        assert(words_from(t@, pos as int) =~= Seq::<Seq<char>>::empty());
        assert(words(t@) =~= range_words(t@, out@));
    }
    out
}

/// `w` occurs at position `k` of `q`.
fn occurs_at(q: &Vec<char>, k: usize, w: &Vec<char>) -> (r: bool)
    requires
        k <= q@.len(),
    ensures
        r == (k + w@.len() <= q@.len() && q@.subrange(k as int, k + w@.len()) == w@),
{
    if w.len() > q.len() - k {
        return false;
    }
    let mut i: usize = 0;
    while i < w.len()
        invariant
            k + w@.len() <= q@.len() <= usize::MAX,
            i <= w@.len(),
            forall|m: int| 0 <= m < i ==> q@[k + m] == w@[m],
        decreases w@.len() - i,
    {
        if q[k + i] != w[i] {
            assert(q@.subrange(k as int, k + w@.len())[i as int] != w@[i as int]);
            return false;
        }
        i = i + 1;
    }
    assert(q@.subrange(k as int, k + w@.len()) =~= w@);
    true
}

/// Whether `w` occurs in `q`.
fn occurs(q: &Vec<char>, w: &Vec<char>) -> (r: bool)
    ensures
        r == occurs_in(q@, w@),
{
    if w.len() > q.len() {
        return false;
    }
    let limit = q.len() - w.len();
    let mut k: usize = 0;
    loop
        invariant
            k <= limit,
            limit + w@.len() == q@.len(),
            forall|m: int|
                0 <= m < k ==> !(m + w@.len() <= q@.len() && #[trigger] q@.subrange(m, m + w@.len()) == w@),
        decreases limit - k,
    {
        if occurs_at(q, k, w) {
            return true;
        }
        if k == limit {
            return false;
        }
        k = k + 1;
    }
}

fn chars_eq(a: &Vec<char>, b: &Vec<char>) -> (r: bool)
    ensures
        r == (a@ == b@),
{
    if a.len() != b.len() {
        return false;
    }
    let mut i: usize = 0;
    while i < a.len()
        invariant
            a@.len() == b@.len(),
            i <= a@.len(),
            forall|m: int| 0 <= m < i ==> a@[m] == b@[m],
        decreases a@.len() - i,
    {
        if a[i] != b[i] {
            return false;
        }
        i = i + 1;
    }
    assert(a@ =~= b@);
    true
}

pub open spec fn char_views(v: Seq<Vec<char>>) -> Seq<Seq<char>> {
    v.map_values(|w: Vec<char>| w@)
}

fn stop_words() -> (r: Vec<Vec<char>>)
    ensures
        char_views(r@) == stop_list(),
{
    let mut v: Vec<Vec<char>> = Vec::new();
    v.push(chars_of("a"));
    v.push(chars_of("an"));
    v.push(chars_of("and"));
    v.push(chars_of("are"));
    v.push(chars_of("as"));
    v.push(chars_of("at"));
    v.push(chars_of("be"));
    v.push(chars_of("but"));
    v.push(chars_of("by"));
    v.push(chars_of("for"));
    v.push(chars_of("from"));
    v.push(chars_of("has"));
    v.push(chars_of("have"));
    v.push(chars_of("he"));
    v.push(chars_of("in"));
    v.push(chars_of("is"));
    v.push(chars_of("it"));
    v.push(chars_of("its"));
    v.push(chars_of("of"));
    v.push(chars_of("on"));
    v.push(chars_of("or"));
    v.push(chars_of("that"));
    v.push(chars_of("the"));
    v.push(chars_of("their"));
    v.push(chars_of("they"));
    v.push(chars_of("this"));
    v.push(chars_of("to"));
    v.push(chars_of("was"));
    v.push(chars_of("were"));
    v.push(chars_of("will"));
    v.push(chars_of("with"));
    assert(char_views(v@) =~= stop_list());
    v
}

fn is_stop_word(stops: &Vec<Vec<char>>, w: &Vec<char>) -> (r: bool)
    requires
        char_views(stops@) == stop_list(),
    ensures
        r == stop_list().contains(w@),
{
    let mut i: usize = 0;
    while i < stops.len()
        invariant
            i <= stops@.len(),
            char_views(stops@) == stop_list(),
            forall|m: int| 0 <= m < i ==> stop_list()[m] != w@,
        decreases stops@.len() - i,
    {
        if chars_eq(&stops[i], w) {
            assert(stop_list()[i as int] == w@);
            return true;
        }
        i = i + 1;
    }
    false
}

pub open spec fn hit_view(h: Seq<(usize, usize)>) -> Seq<(int, int)> {
    h.map_values(|p: (usize, usize)| (p.0 as int, p.1 as int))
}

pub open spec fn summary_matches(r: Result<String, SummaryError>, s: Result<Seq<char>, SummaryError>) -> bool {
    match s {
        Ok(x) => r is Ok && r->Ok_0@ == x,
        Err(e) => r == Err::<String, SummaryError>(e),
    }
}

/// The words `ws[start..end]` of `text` joined by single spaces.
fn join_range(text: &str, t: &Vec<char>, ws: &Vec<(usize, usize)>, start: usize, end: usize) -> (r: String)
    requires
        t@ == text@,
        start <= end <= ws@.len(),
        forall|k: int| 0 <= k < ws@.len() ==> (#[trigger] ws@[k]).0 < ws@[k].1 <= t@.len(),
    ensures
        r@ == join_words(range_words(t@, ws@).subrange(start as int, end as int)),
{
    let ghost all = range_words(t@, ws@);
    let mut out = String::new();
    let mut k: usize = start;
    proof {
        assert(all.subrange(start as int, start as int) =~= Seq::<Seq<char>>::empty());
    }
    while k < end
        invariant
            t@ == text@,
            start <= k <= end <= ws@.len(),
            all == range_words(t@, ws@),
            forall|m: int| 0 <= m < ws@.len() ==> (#[trigger] ws@[m]).0 < ws@[m].1 <= t@.len(),
            out@ == join_words(all.subrange(start as int, k as int)),
        decreases end - k,
    {
        let ghost before = out@;
        if k > start {
            out.append(" ");
        }
        let (a, b) = ws[k];
        let w = substring(text, a, b);
        out.append(w.as_str());
        proof {
            let sub = all.subrange(start as int, k + 1);
            assert(sub.drop_last() =~= all.subrange(start as int, k as int));
            assert(sub.last() == all[k as int]);
            if k == start {
                assert(out@ =~= sub[0]);
            } else {
                assert(out@ =~= before + " "@ + sub.last());
            }
        }
        k = k + 1;
    }
    out
}

/// The window summary of `text` (already cleaned and lower-cased) for
/// `query` (already lower-cased).
pub fn summarise_words(text: &str, query: &str, min_window: usize) -> (r: Result<String, SummaryError>)
    ensures
        summary_matches(r, summary_of(text@, query@, min_window as int)),
{
    let t = chars_of(text);
    let q = chars_of(query);
    let ws = split_words(&t);
    let ghost wv = words(t@);
    if ws.len() <= min_window {
        return Err(SummaryError::TooShort);
    }
    let stops = stop_words();
    let mut hits: Vec<(usize, usize)> = Vec::new();
    let mut i: usize = 0;
    while i < ws.len()
        invariant
            i <= ws@.len(),
            wv == range_words(t@, ws@),
            wv == words(t@),
            q@ == query@,
            char_views(stops@) == stop_list(),
            forall|k: int| 0 <= k < ws@.len() ==> (#[trigger] ws@[k]).0 < ws@[k].1 <= t@.len(),
            hit_view(hits@) == hits_upto(wv, q@, i as int),
            forall|k: int| 0 <= k < hits@.len() ==> (#[trigger] hits@[k]).1 < i,
        decreases ws@.len() - i,
    {
        let ghost before = hit_view(hits@);
        let w = slice_chars(&t, ws[i].0, ws[i].1);
        assert(w@ == wv[i as int]);
        if !is_stop_word(&stops, &w) && occurs(&q, &w) {
            let gap: usize = if hits.len() == 0 {
                0
            } else {
                i - hits[hits.len() - 1].1
            };
            hits.push((gap, i));
            proof {
                assert(hit_view(hits@) =~= before.push((gap as int, i as int)));
            }
        }
        i = i + 1;
    }
    let ghost hv = hit_view(hits@);
    if hits.len() == 0 {
        return Err(SummaryError::NoWindow);
    }
    let mut b: usize = 0;
    let mut k: usize = 1;
    proof {
        assert(hv.take(1).len() == 1);
    }
    while k < hits.len()
        invariant
            1 <= k <= hits@.len(),
            hv == hit_view(hits@),
            b < k,
            b as int == densest(hv.take(k as int)),
        decreases hits@.len() - k,
    {
        proof {
            assert(hv.take(k + 1).drop_last() =~= hv.take(k as int));
        }
        if hits[k].0 < hits[b].0 {
            b = k;
        }
        k = k + 1;
    }
    proof {
        assert(hv.take(k as int) =~= hv);
    }
    let start = hits[b].1;
    let mut p: Option<usize> = None;
    let mut k: usize = 0;
    while k < hits.len()
        invariant
            k <= hits@.len(),
            hv == hit_view(hits@),
            start as int == hv[densest(hv)].1,
            match p {
                None => window_end(hv.take(k as int), start + min_window) is None,
                Some(x) => x < k && window_end(hv.take(k as int), start + min_window) == Some(x as int),
            },
        decreases hits@.len() - k,
    {
        proof {
            assert(hv.take(k + 1).drop_last() =~= hv.take(k as int));
        }
        if hits[k].1 > start && hits[k].1 - start > min_window {
            match p {
                None => {
                    p = Some(k);
                },
                Some(x) => {
                    if hits[k].0 >= hits[x].0 {
                        p = Some(k);
                    }
                },
            }
        }
        k = k + 1;
    }
    proof {
        assert(hv.take(k as int) =~= hv);
    }
    let end: usize = match p {
        Some(x) => hits[x].1,
        None => 0,
    };
    if start < end && end < ws.len() {
        Ok(join_range(text, &t, &ws, start, end))
    } else {
        Err(SummaryError::NoWindow)
    }
}

/// The window summary of `text` for `query`: the text is cleaned and both
/// are lower-cased first.
pub fn summarise(text: &str, query: &str, min_window: usize) -> (r: Result<String, SummaryError>)
    ensures
        summary_matches(r, summary_of(lower_of(cleaned(text@)), lower_of(query@), min_window as int)),
{
    let cleaned_text = clean_text(text);
    let t = to_lower(cleaned_text.as_str());
    let q = to_lower(query);
    summarise_words(t.as_str(), q.as_str(), min_window)
}

/// Least window length, in words, of a search snippet.
pub const MIN_WINDOW: usize = 100;

/// The character range of a chunk in a document of `n` characters and
/// `byte_len` bytes: a missing start is 0, a missing end a quarter of the
/// byte length; `None` when the range is out of order or out of bounds.
pub open spec fn chunk_range(n: int, byte_len: int, chunk_start: Option<i64>, chunk_end: Option<i64>) -> Option<(int, int)> {
    let s: int = match chunk_start {
        Some(x) => x as int,
        None => 0,
    };
    let e: int = match chunk_end {
        Some(x) => x as int,
        None => byte_len / 4,
    };
    if s < 0 || s > e || e > n {
        None
    } else {
        Some((s, e))
    }
}

/// The summary shown for a hit whose content is `byte_len` bytes long in
/// UTF-8: empty when the chunk range is unusable;
/// else the window summary of the chunk for `"{query} {title}"`, or the
/// chunk itself when no window is found.
pub open spec fn snippet_of(
    content: Seq<char>,
    byte_len: int,
    chunk_start: Option<i64>,
    chunk_end: Option<i64>,
    query: Seq<char>,
    title: Seq<char>,
) -> Seq<char> {
    match chunk_range(content.len() as int, byte_len, chunk_start, chunk_end) {
        None => seq![],
        Some((s, e)) => {
            let chunk = content.subrange(s, e);
            match summary_of(
                lower_of(cleaned(chunk)),
                lower_of(query + " "@ + title),
                MIN_WINDOW as int,
            ) {
                Ok(x) => x,
                Err(_) => chunk,
            }
        },
    }
}

/// The summary for a search hit whose best chunk spans
/// `chunk_start..chunk_end` (characters) of `content`.
pub fn snippet(
    content: &str,
    chunk_start: Option<i64>,
    chunk_end: Option<i64>,
    query: &str,
    title: &str,
) -> (r: String)
    ensures
        r@ == snippet_of(content@, content.len() as int, chunk_start, chunk_end, query@, title@),
{
    let n = content.unicode_len();
    let s: i64 = match chunk_start {
        Some(x) => x,
        None => 0,
    };
    let e: i64 = match chunk_end {
        Some(x) => x,
        None => (content.len() / 4) as i64,
    };
    if s < 0 || s > e || e as u64 > n as u64 {
        return String::new();
    }
    let chunk = substring(content, s as usize, e as usize);
    let mut q = String::from_str(query);
    q.append(" ");
    q.append(title);
    match summarise(chunk.as_str(), q.as_str(), MIN_WINDOW) {
        Ok(x) => x,
        Err(_) => chunk,
    }
}

/// A search hit without its score: the document's URL, the snippet and
/// the title.
#[derive(Debug, Clone)]
pub struct HitText {
    pub url: String,
    pub summary: String,
    pub title: String,
}

pub open spec fn text_or_empty(o: Option<String>) -> Seq<char> {
    match o {
        Some(s) => s@,
        None => seq![],
    }
}

/// The text of a hit from a ranked row: none for a row without a URL; a
/// missing title or content counts as empty.
pub fn hit_text(
    url: Option<String>,
    content: Option<String>,
    title: Option<String>,
    chunk_start: Option<i64>,
    chunk_end: Option<i64>,
    query: &str,
) -> (r: Option<HitText>)
    ensures
        url is None ==> r is None,
        url is Some ==> r is Some && r->Some_0.url@ == url->Some_0@
            && r->Some_0.title@ == text_or_empty(title)
            && r->Some_0.summary@ == snippet_of(
                text_or_empty(content),
                encode_utf8(text_or_empty(content)).len() as usize as int,
                chunk_start,
                chunk_end,
                query@,
                text_or_empty(title),
            ),
{
    let url = match url {
        Some(u) => u,
        None => return None,
    };
    let title = match title {
        Some(t) => t,
        None => String::new(),
    };
    let content = match content {
        Some(c) => c,
        None => String::new(),
    };
    let summary = snippet(content.as_str(), chunk_start, chunk_end, query, title.as_str());
    Some(HitText { url, summary, title })
}

/// A search request: the query text and the page of results wanted.
#[derive(Debug, Clone)]
pub struct SearchInput {
    pub query: String,
    pub limit: u32,
    pub offset: u32,
}

} // verus!
