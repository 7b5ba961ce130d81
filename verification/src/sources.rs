//! General Feed source adapters: discovery, not extraction.
//!
//! A collector answers "which URLs did this source surface, and what does it
//! call them". Building the item belongs to the media reader, so a
//! repository found on Trending and the same repository pasted by hand land
//! at the same quality. Every run is bounded by configuration.
//!
//! The HTTP request a source needs is described here and made around this
//! library; the page that comes back is parsed here.

use vstd::prelude::*;
use crate::text::{
    append, contains, contains_exec, decimal_exec, find, is_blank, join, replace_all,
    replace_exec, slice, split_char, split_char_exec, split_on, split_on_exec, split_once,
    split_once_exec, squash_ws, squash_ws_exec, starts_with, starts_with_exec, str_eq,
    string_views, to_chars, to_string, trim, trim_char, trim_char_exec, trim_exec,
};

verus! {

/// At most this many items per source run.
pub const MAX_SOURCE_ITEMS: usize = 30;

/// One configured Feed source.
pub struct FeedSourceConfig {
    pub id: String,
    /// `github-trending` or `arxiv`.
    pub adapter: String,
    pub enabled: bool,
    pub language: Option<String>,
    pub since: Option<String>,
    pub query: Option<String>,
    pub limit: usize,
}

/// Why a source cannot run.
pub enum CommsError {
    /// The source's configuration cannot describe a run.
    Config(String),
    /// The request failed on the way out or back.
    Http(String),
}

/// One URL a source surfaced, plus what that source calls it. The label is
/// origin provenance, not content.
#[derive(Debug, Clone, PartialEq)]
pub struct Discovered {
    pub url: String,
    pub label: Option<String>,
}

pub type DiscoveredView = (Seq<char>, Option<Seq<char>>);

impl Discovered {
    pub open spec fn view(&self) -> DiscoveredView {
        (
            self.url@,
            match self.label {
                Some(l) => Some(l@),
                None => None,
            },
        )
    }

    pub fn new(url: &Vec<char>, label: &Vec<char>) -> (r: Self)
        ensures
            r.view() == (url@, Some(label@)),
    {
        Discovered { url: to_string(url), label: Some(to_string(label)) }
    }
}

/// The GET a source run makes: a URL and its query pairs, in order.
pub struct Request {
    pub url: String,
    pub query: Vec<(String, String)>,
}

// ---------------------------------------------------------------------------
// Specification
// ---------------------------------------------------------------------------

pub open spec fn opt_str(o: Option<String>) -> Option<Seq<char>> {
    match o {
        Some(s) => Some(s@),
        None => None,
    }
}

/// `weekly` and `monthly` are kept; anything else is `daily`.
pub open spec fn since_of(value: Option<Seq<char>>) -> Seq<char> {
    match value {
        Some(v) => if v == "weekly"@ {
            "weekly"@
        } else if v == "monthly"@ {
            "monthly"@
        } else {
            "daily"@
        },
        None => "daily"@,
    }
}

/// The run bound: between one and `MAX_SOURCE_ITEMS`.
pub open spec fn bounded(limit: nat) -> nat {
    if limit < 1 {
        1
    } else if limit > MAX_SOURCE_ITEMS {
        MAX_SOURCE_ITEMS as nat
    } else {
        limit
    }
}

pub open spec fn language_path(language: Option<Seq<char>>) -> Seq<char> {
    match language {
        Some(l) => if is_blank(l) {
            Seq::<char>::empty()
        } else {
            "/"@ + trim(l)
        },
        None => Seq::<char>::empty(),
    }
}

/// The page a source reads; empty for an unknown adapter.
pub open spec fn url_of(adapter: Seq<char>, language: Option<Seq<char>>, since: Option<Seq<char>>) -> Seq<char> {
    if adapter == "github-trending"@ {
        "https://github.com/trending"@ + language_path(language) + "?since="@ + since_of(since)
    } else if adapter == "arxiv"@ {
        "https://export.arxiv.org/api/query"@
    } else {
        Seq::<char>::empty()
    }
}

/// The basic HTML entities, `&amp;` last so `&amp;lt;` stays `&lt;`.
pub open spec fn basic_entity(k: int) -> (Seq<char>, Seq<char>) {
    if k == 0 {
        ("&lt;"@, "<"@)
    } else if k == 1 {
        ("&gt;"@, ">"@)
    } else if k == 2 {
        ("&quot;"@, "\""@)
    } else if k == 3 {
        ("&#39;"@, "'"@)
    } else if k == 4 {
        ("&apos;"@, "'"@)
    } else {
        ("&amp;"@, "&"@)
    }
}

pub open spec fn decode_basic_n(s: Seq<char>, n: nat) -> Seq<char>
    decreases n,
{
    if n == 0 {
        s
    } else {
        replace_all(decode_basic_n(s, (n - 1) as nat), basic_entity(n - 1).0, basic_entity(n - 1).1)
    }
}

pub open spec fn decode_basic(s: Seq<char>) -> Seq<char> {
    decode_basic_n(s, 6)
}

/// The decoded, trimmed value of `name="…"` in a tag.
pub open spec fn attribute_of(tag: Seq<char>, name: Seq<char>) -> Option<Seq<char>> {
    match split_once(tag, name + "=\""@) {
        None => None,
        Some((_, rest)) => match split_once(rest, "\""@) {
            None => None,
            Some((value, _)) => Some(trim(decode_basic(value))),
        },
    }
}

/// The decoded text of the first `<tag>…</tag>`, whitespace runs squashed.
pub open spec fn xml_field_of(body: Seq<char>, tag: Seq<char>) -> Option<Seq<char>> {
    let open = "<"@ + tag + ">"@;
    match find(body, open) {
        None => None,
        Some(i) => {
            let rest = body.skip(i + open.len());
            match find(rest, "</"@ + tag + ">"@) {
                None => None,
                Some(end) => Some(squash_ws(decode_basic(rest.take(end)))),
            }
        },
    }
}

/// The text of an element up to its closing marker, if it closes.
pub open spec fn closed_part(chunk: Seq<char>, close: Seq<char>) -> Option<Seq<char>> {
    match split_once(chunk, close) {
        Some((inside, _)) => Some(inside),
        None => None,
    }
}

/// The repository a Trending card links to, if its heading holds an
/// `owner/repo` link.
pub open spec fn trending_repo(article: Seq<char>) -> Option<(Seq<char>, Seq<char>)> {
    match split_once(article, "<h2"@) {
        None => None,
        Some((_, after)) => match split_once(after, "</h2>"@) {
            None => None,
            Some((heading, _)) => match attribute_of(heading, "href"@) {
                None => None,
                Some(href) => {
                    let parts = split_char(trim_char(href, '/'), '/');
                    if parts.len() != 2 {
                        None
                    } else {
                        let owner = trim(parts[0]);
                        let repo = trim(parts[1]);
                        if owner.len() == 0 || repo.len() == 0 {
                            None
                        } else {
                            Some((owner, repo))
                        }
                    }
                },
            },
        },
    }
}

pub open spec fn trending_card(chunk: Seq<char>, since: Seq<char>) -> Option<DiscoveredView> {
    match closed_part(chunk, "</article>"@) {
        None => None,
        Some(article) => match trending_repo(article) {
            None => None,
            Some((owner, repo)) => Some(
                (
                    "https://github.com/"@ + owner + "/"@ + repo,
                    Some("GitHub Trending ("@ + since + ")"@),
                ),
            ),
        },
    }
}

/// An arXiv id as its `https://arxiv.org/abs/` URL.
pub open spec fn arxiv_url(id: Seq<char>) -> Seq<char> {
    replace_all(
        replace_all(id, "http://arxiv.org/abs/"@, "https://arxiv.org/abs/"@),
        "http://export.arxiv.org/abs/"@,
        "https://arxiv.org/abs/"@,
    )
}

pub open spec fn arxiv_entry(chunk: Seq<char>) -> Option<DiscoveredView> {
    match closed_part(chunk, "</entry>"@) {
        None => None,
        Some(entry) => match xml_field_of(entry, "id"@) {
            None => None,
            Some(id) => {
                let url = arxiv_url(id);
                if starts_with(url, "https://arxiv.org/abs/"@) {
                    Some((url, Some("arXiv query"@)))
                } else {
                    None
                }
            },
        },
    }
}

/// The `Some` values, in order.
pub open spec fn somes(s: Seq<Option<DiscoveredView>>) -> Seq<DiscoveredView>
    decreases s.len(),
{
    if s.len() == 0 {
        seq![]
    } else {
        let rest = somes(s.drop_last());
        match s.last() {
            Some(d) => rest.push(d),
            None => rest,
        }
    }
}

pub open spec fn at_most(s: Seq<DiscoveredView>, n: nat) -> Seq<DiscoveredView> {
    if s.len() <= n {
        s
    } else {
        s.take(n as int)
    }
}

/// The repositories of a Trending page, at most `limit`, in page order.
pub open spec fn trending_of(body: Seq<char>, limit: nat, since: Seq<char>) -> Seq<DiscoveredView> {
    at_most(
        somes(split_on(body, "<article"@).skip(1).map_values(|c: Seq<char>| trending_card(c, since))),
        limit,
    )
}

/// The papers of an Atom response, at most `limit`, in order.
pub open spec fn arxiv_of(body: Seq<char>, limit: nat) -> Seq<DiscoveredView> {
    at_most(somes(split_on(body, "<entry>"@).skip(1).map_values(|c: Seq<char>| arxiv_entry(c))), limit)
}

pub open spec fn found_views(v: Seq<Discovered>) -> Seq<DiscoveredView> {
    v.map_values(|d: Discovered| d.view())
}

/// Every run is bounded: a page never yields more than the limit asked
/// for, and a source never more than `MAX_SOURCE_ITEMS`.
pub proof fn a_run_is_bounded(body: Seq<char>, limit: nat, since: Seq<char>)
    ensures
        trending_of(body, limit, since).len() <= limit,
        arxiv_of(body, limit).len() <= limit,
        bounded(limit) <= MAX_SOURCE_ITEMS,
        bounded(limit) >= 1,
{
}

// ---------------------------------------------------------------------------
// Exec
// ---------------------------------------------------------------------------

/// The run bound: between one and `MAX_SOURCE_ITEMS`.
pub fn bounded_limit(limit: usize) -> (r: usize)
    ensures
        r as nat == bounded(limit as nat),
{
    if limit < 1 {
        1
    } else if limit > MAX_SOURCE_ITEMS {
        MAX_SOURCE_ITEMS
    } else {
        limit
    }
}

pub fn normalized_since(value: Option<&str>) -> (r: &'static str)
    ensures
        r@ == since_of(
            match value {
                Some(v) => Some(v@),
                None => None,
            },
        ),
{
    match value {
        Some(v) => if str_eq(v, "weekly") {
            "weekly"
        } else if str_eq(v, "monthly") {
            "monthly"
        } else {
            "daily"
        },
        None => "daily",
    }
}

fn since_of_config(source: &FeedSourceConfig) -> (r: &'static str)
    ensures
        r@ == since_of(opt_str(source.since)),
{
    match &source.since {
        Some(s) => normalized_since(Some(s.as_str())),
        None => normalized_since(None),
    }
}

/// The page a source reads; empty for an unknown adapter.
pub fn source_url(source: &FeedSourceConfig) -> (r: String)
    ensures
        r@ == url_of(source.adapter@, opt_str(source.language), opt_str(source.since)),
{
    if str_eq(source.adapter.as_str(), "github-trending") {
        let mut out = to_chars("https://github.com/trending");
        match &source.language {
            Some(l) => {
                let t = trim_exec(&to_chars(l.as_str()));
                if t.len() > 0 {
                    append(&mut out, &to_chars("/"));
                    append(&mut out, &t);
                }
            },
            None => {},
        }
        append(&mut out, &to_chars("?since="));
        append(&mut out, &to_chars(since_of_config(source)));
        to_string(&out)
    } else if str_eq(source.adapter.as_str(), "arxiv") {
        to_string(&to_chars("https://export.arxiv.org/api/query"))
    } else {
        String::new()
    }
}

fn basic_entity_exec(k: usize) -> (r: (&'static str, &'static str))
    requires
        k < 6,
    ensures
        r.0@ == basic_entity(k as int).0,
        r.1@ == basic_entity(k as int).1,
{
    if k == 0 {
        ("&lt;", "<")
    } else if k == 1 {
        ("&gt;", ">")
    } else if k == 2 {
        ("&quot;", "\"")
    } else if k == 3 {
        ("&#39;", "'")
    } else if k == 4 {
        ("&apos;", "'")
    } else {
        ("&amp;", "&")
    }
}

fn decode_basic_exec(s: &Vec<char>) -> (r: Vec<char>)
    ensures
        r@ == decode_basic(s@),
{
    let mut out = s.clone();
    let mut k: usize = 0;
    while k < 6
        invariant
            k <= 6,
            out@ == decode_basic_n(s@, k as nat),
        decreases 6 - k,
    {
        let (e, rep) = basic_entity_exec(k);
        out = replace_exec(&out, &to_chars(e), &to_chars(rep));
        k += 1;
    }
    out
}

/// The decoded, trimmed value of `name="…"` in a tag.
pub fn attribute(tag: &Vec<char>, name: &str) -> (r: Option<Vec<char>>)
    ensures
        match r {
            Some(v) => attribute_of(tag@, name@) == Some(v@),
            None => attribute_of(tag@, name@) is None,
        },
{
    let mut marker = to_chars(name);
    append(&mut marker, &to_chars("=\""));
    match split_once_exec(tag, &marker) {
        None => None,
        Some((_, rest)) => match split_once_exec(&rest, &to_chars("\"")) {
            None => None,
            Some((value, _)) => Some(trim_exec(&decode_basic_exec(&value))),
        },
    }
}

/// The decoded text of the first `<tag>…</tag>`, whitespace runs squashed.
pub fn xml_field(body: &Vec<char>, tag: &str) -> (r: Option<Vec<char>>)
    ensures
        match r {
            Some(v) => xml_field_of(body@, tag@) == Some(v@),
            None => xml_field_of(body@, tag@) is None,
        },
{
    let mut open = to_chars("<");
    append(&mut open, &to_chars(tag));
    append(&mut open, &to_chars(">"));
    let mut close = to_chars("</");
    append(&mut close, &to_chars(tag));
    append(&mut close, &to_chars(">"));
    match crate::text::find_exec(body, &open) {
        None => None,
        Some(i) => {
            proof {
                crate::text::lemma_find_from_bounds(body@, open@, 0);
            }
            assert(i + open.len() <= body.len());
            let rest = slice(body, i + open.len(), body.len());
            assert(rest@ == body@.skip(i + open@.len()));
            match crate::text::find_exec(&rest, &close) {
                None => None,
                Some(end) => {
                    proof {
                        crate::text::lemma_find_from_bounds(rest@, close@, 0);
                    }
                    let inner = slice(&rest, 0, end);
                    assert(inner@ == rest@.take(end as int));
                    Some(squash_ws_exec(&decode_basic_exec(&inner)))
                },
            }
        },
    }
}

fn closed_part_exec(chunk: &Vec<char>, close: &str) -> (r: Option<Vec<char>>)
    ensures
        match r {
            Some(v) => closed_part(chunk@, close@) == Some(v@),
            None => closed_part(chunk@, close@) is None,
        },
{
    match split_once_exec(chunk, &to_chars(close)) {
        Some((inside, _)) => Some(inside),
        None => None,
    }
}

fn trending_repo_exec(article: &Vec<char>) -> (r: Option<(Vec<char>, Vec<char>)>)
    ensures
        match r {
            Some((o, p)) => trending_repo(article@) == Some((o@, p@)),
            None => trending_repo(article@) is None,
        },
{
    let after = match split_once_exec(article, &to_chars("<h2")) {
        None => return None,
        Some((_, after)) => after,
    };
    let heading = match split_once_exec(&after, &to_chars("</h2>")) {
        None => return None,
        Some((heading, _)) => heading,
    };
    let href = match attribute(&heading, "href") {
        None => return None,
        Some(h) => h,
    };
    let parts = split_char_exec(&trim_char_exec(&href, '/'), '/');
    if parts.len() != 2 {
        return None;
    }
    let owner = trim_exec(&parts[0]);
    let repo = trim_exec(&parts[1]);
    if owner.len() == 0 || repo.len() == 0 {
        return None;
    }
    Some((owner, repo))
}

fn trending_card_exec(chunk: &Vec<char>, since: &str) -> (r: Option<Discovered>)
    ensures
        match r {
            Some(d) => trending_card(chunk@, since@) == Some(d.view()),
            None => trending_card(chunk@, since@) is None,
        },
{
    let article = match closed_part_exec(chunk, "</article>") {
        None => return None,
        Some(a) => a,
    };
    match trending_repo_exec(&article) {
        None => None,
        Some((owner, repo)) => {
            let mut url = to_chars("https://github.com/");
            append(&mut url, &owner);
            append(&mut url, &to_chars("/"));
            append(&mut url, &repo);
            let mut label = to_chars("GitHub Trending (");
            append(&mut label, &to_chars(since));
            append(&mut label, &to_chars(")"));
            Some(Discovered::new(&url, &label))
        },
    }
}

fn arxiv_entry_exec(chunk: &Vec<char>) -> (r: Option<Discovered>)
    ensures
        match r {
            Some(d) => arxiv_entry(chunk@) == Some(d.view()),
            None => arxiv_entry(chunk@) is None,
        },
{
    let entry = match closed_part_exec(chunk, "</entry>") {
        None => return None,
        Some(e) => e,
    };
    match xml_field(&entry, "id") {
        None => None,
        Some(id) => {
            let a = replace_exec(&id, &to_chars("http://arxiv.org/abs/"), &to_chars("https://arxiv.org/abs/"));
            let url = replace_exec(
                &a,
                &to_chars("http://export.arxiv.org/abs/"),
                &to_chars("https://arxiv.org/abs/"),
            );
            if starts_with_exec(&url, &to_chars("https://arxiv.org/abs/")) {
                Some(Discovered::new(&url, &to_chars("arXiv query")))
            } else {
                None
            }
        },
    }
}

proof fn lemma_at_most_step(prev: Seq<DiscoveredView>, next: Seq<DiscoveredView>, n: nat)
    requires
        next == prev || (exists|d: DiscoveredView| next == prev.push(d)),
    ensures
        at_most(prev, n).len() < n ==> at_most(next, n) == next,
        at_most(prev, n).len() >= n ==> at_most(next, n) == at_most(prev, n),
{
    if next != prev {
        let d = choose|d: DiscoveredView| next == prev.push(d);
        if prev.len() >= n {
            assert(next.take(n as int) =~= prev.take(n as int));
        }
    }
}

/// The repositories of a Trending page, at most `limit`, in page order. The
/// card's visible text is deliberately not carried: only the URL and the
/// origin label are.
pub fn parse_github_trending(body: &str, limit: usize, since: &str) -> (r: Vec<Discovered>)
    ensures
        found_views(r@) == trending_of(body@, limit as nat, since@),
{
    proof {
        reveal_strlit("<article");
    }
    let pieces = split_on_exec(&to_chars(body), &to_chars("<article"));
    let ghost ps = split_on(body@, "<article"@);
    let ghost cards = ps.skip(1).map_values(|c: Seq<char>| trending_card(c, since@));
    let mut out: Vec<Discovered> = Vec::new();
    if pieces.len() == 0 {
        assert(cards.len() == 0);
        assert(somes(cards) =~= Seq::<DiscoveredView>::empty());
        return out;
    }
    let mut k: usize = 1;
    assert(cards.take(0) =~= Seq::<Option<DiscoveredView>>::empty());
    while k < pieces.len()
        invariant
            1 <= k <= pieces@.len(),
            pieces@.map_values(|v: Vec<char>| v@) == ps,
            cards == ps.skip(1).map_values(|c: Seq<char>| trending_card(c, since@)),
            found_views(out@) == at_most(somes(cards.take(k - 1)), limit as nat),
        decreases pieces.len() - k,
    {
        let ghost prev = somes(cards.take(k - 1));
        let ghost before = out@;
        let card = trending_card_exec(&pieces[k], since);
        assert(cards[k - 1] == trending_card(pieces@[k as int]@, since@));
        assert(cards.take(k as int).drop_last() == cards.take(k - 1));
        assert(cards.take(k as int).last() == cards[k - 1]);
        proof {
            lemma_at_most_step(prev, somes(cards.take(k as int)), limit as nat);
        }
        match card {
            Some(d) => {
                if out.len() < limit {
                    out.push(d);
                    assert(found_views(out@) =~= found_views(before).push(d.view()));
                }
            },
            None => {},
        }
        k += 1;
    }
    assert(cards.take(k - 1) =~= cards);
    out
}

/// The papers of an Atom response, at most `limit`, in order. Title,
/// authors and abstract are not lifted: the media reader reads them from the
/// same identifier.
pub fn parse_arxiv_entries(body: &str, limit: usize) -> (r: Vec<Discovered>)
    ensures
        found_views(r@) == arxiv_of(body@, limit as nat),
{
    proof {
        reveal_strlit("<entry>");
    }
    let pieces = split_on_exec(&to_chars(body), &to_chars("<entry>"));
    let ghost ps = split_on(body@, "<entry>"@);
    let ghost entries = ps.skip(1).map_values(|c: Seq<char>| arxiv_entry(c));
    let mut out: Vec<Discovered> = Vec::new();
    if pieces.len() == 0 {
        assert(entries.len() == 0);
        assert(somes(entries) =~= Seq::<DiscoveredView>::empty());
        return out;
    }
    let mut k: usize = 1;
    assert(entries.take(0) =~= Seq::<Option<DiscoveredView>>::empty());
    while k < pieces.len()
        invariant
            1 <= k <= pieces@.len(),
            pieces@.map_values(|v: Vec<char>| v@) == ps,
            entries == ps.skip(1).map_values(|c: Seq<char>| arxiv_entry(c)),
            found_views(out@) == at_most(somes(entries.take(k - 1)), limit as nat),
        decreases pieces.len() - k,
    {
        let ghost prev = somes(entries.take(k - 1));
        let ghost before = out@;
        let entry = arxiv_entry_exec(&pieces[k]);
        assert(entries[k - 1] == arxiv_entry(pieces@[k as int]@));
        assert(entries.take(k as int).drop_last() == entries.take(k - 1));
        assert(entries.take(k as int).last() == entries[k - 1]);
        proof {
            lemma_at_most_step(prev, somes(entries.take(k as int)), limit as nat);
        }
        match entry {
            Some(d) => {
                if out.len() < limit {
                    out.push(d);
                    assert(found_views(out@) =~= found_views(before).push(d.view()));
                }
            },
            None => {},
        }
        k += 1;
    }
    assert(entries.take(k - 1) =~= entries);
    out
}

/// A configuration refusal with exactly this message.
pub open spec fn refused_with<T>(r: Result<T, CommsError>, message: Seq<char>) -> bool {
    match r {
        Err(CommsError::Config(m)) => m@ == message,
        _ => false,
    }
}

/// The refusal for an adapter this library does not know.
pub open spec fn unknown_adapter(adapter: Seq<char>) -> Seq<char> {
    "unknown Feed source adapter '"@ + adapter + "'"@
}

/// Whether an arXiv source has a non-blank query to run.
pub open spec fn arxiv_query(source: FeedSourceConfig) -> Option<Seq<char>> {
    match source.query {
        Some(q) => if is_blank(q@) {
            None
        } else {
            Some(trim(q@))
        },
        None => None,
    }
}

/// The request a source run makes, or why it cannot make one: an unknown
/// adapter, or an arXiv source without a query.
pub fn request(source: &FeedSourceConfig) -> (r: Result<Request, CommsError>)
    ensures
        source.adapter@ == "github-trending"@ ==> (r matches Ok(req) && req.url@ == url_of(
            source.adapter@,
            opt_str(source.language),
            opt_str(source.since),
        ) && req.query@.len() == 0),
        source.adapter@ == "arxiv"@ ==> match arxiv_query(*source) {
            None => refused_with(r, "arXiv source '"@ + source.id@ + "' needs query"@),
            Some(q) => r matches Ok(req) && req.url@ == "https://export.arxiv.org/api/query"@
                && req.query@.len() == 5 && req.query@[0].0@ == "search_query"@ && req.query@[0].1@
                == q && req.query@[1].0@ == "start"@ && req.query@[1].1@ == "0"@
                && req.query@[2].0@ == "max_results"@ && req.query@[2].1@ == crate::text::decimal(
                bounded(source.limit as nat),
            ) && req.query@[3].0@ == "sortBy"@ && req.query@[3].1@ == "submittedDate"@
                && req.query@[4].0@ == "sortOrder"@ && req.query@[4].1@ == "descending"@,
        },
        source.adapter@ != "github-trending"@ && source.adapter@ != "arxiv"@ ==> refused_with(r, unknown_adapter(source.adapter@)),
{
    proof {
        reveal_strlit("arxiv");
        reveal_strlit("github-trending");
        assert("arxiv"@ != "github-trending"@) by {
            assert("arxiv"@.len() != "github-trending"@.len());
        }
    }
    if str_eq(source.adapter.as_str(), "github-trending") {
        Ok(Request { url: source_url(source), query: Vec::new() })
    } else if str_eq(source.adapter.as_str(), "arxiv") {
        let q = match &source.query {
            Some(q) => trim_exec(&to_chars(q.as_str())),
            None => Vec::new(),
        };
        if q.len() == 0 {
            let mut msg = to_chars("arXiv source '");
            append(&mut msg, &to_chars(source.id.as_str()));
            append(&mut msg, &to_chars("' needs query"));
            return Err(CommsError::Config(to_string(&msg)));
        }
        let limit = bounded_limit(source.limit);
        let mut query: Vec<(String, String)> = Vec::new();
        query.push((to_string(&to_chars("search_query")), to_string(&q)));
        query.push((to_string(&to_chars("start")), to_string(&to_chars("0"))));
        query.push((to_string(&to_chars("max_results")), to_string(&decimal_exec(limit as u128))));
        query.push((to_string(&to_chars("sortBy")), to_string(&to_chars("submittedDate"))));
        query.push((to_string(&to_chars("sortOrder")), to_string(&to_chars("descending"))));
        Ok(Request { url: source_url(source), query })
    } else {
        let mut msg = to_chars("unknown Feed source adapter '");
        append(&mut msg, &to_chars(source.adapter.as_str()));
        append(&mut msg, &to_chars("'"));
        Err(CommsError::Config(to_string(&msg)))
    }
}

/// What a source surfaced, from the page its request fetched.
pub fn fetch(source: &FeedSourceConfig, body: &str) -> (r: Result<Vec<Discovered>, CommsError>)
    ensures
        source.adapter@ == "github-trending"@ ==> (r matches Ok(v) && found_views(v@) == trending_of(
            body@,
            bounded(source.limit as nat),
            since_of(opt_str(source.since)),
        )),
        source.adapter@ == "arxiv"@ ==> (r matches Ok(v) && found_views(v@) == arxiv_of(
            body@,
            bounded(source.limit as nat),
        )),
        source.adapter@ != "github-trending"@ && source.adapter@ != "arxiv"@ ==> refused_with(r, unknown_adapter(source.adapter@)),
{
    proof {
        reveal_strlit("arxiv");
        reveal_strlit("github-trending");
        assert("arxiv"@ != "github-trending"@) by {
            assert("arxiv"@.len() != "github-trending"@.len());
        }
    }
    if str_eq(source.adapter.as_str(), "github-trending") {
        Ok(parse_github_trending(body, bounded_limit(source.limit), since_of_config(source)))
    } else if str_eq(source.adapter.as_str(), "arxiv") {
        Ok(parse_arxiv_entries(body, bounded_limit(source.limit)))
    } else {
        let mut msg = to_chars("unknown Feed source adapter '");
        append(&mut msg, &to_chars(source.adapter.as_str()));
        append(&mut msg, &to_chars("'"));
        Err(CommsError::Config(to_string(&msg)))
    }
}

// ---------------------------------------------------------------------------
// A scan over the configured sources
// ---------------------------------------------------------------------------

/// Whether a scan takes this source: enabled, and the one asked for when a
/// source was named.
pub open spec fn selected(source: FeedSourceConfig, requested: Option<Seq<char>>) -> bool {
    source.enabled && match requested {
        Some(id) => id == source.id@,
        None => true,
    }
}

/// The positions of the sources a scan runs, in configuration order, or
/// why none is run.
pub fn select_sources(sources: &Vec<FeedSourceConfig>, requested: Option<&str>) -> (r: Result<Vec<usize>, String>)
    ensures
        match r {
            Ok(ix) => ix@.len() > 0 && ix@ == Seq::new(sources@.len(), |i: int| i).filter(
                |i: int| selected(sources@[i], opt_str_ref(requested)),
            ).map_values(|i: int| i as usize),
            Err(e) => e@ == "no matching enabled Feed source"@ && Seq::new(sources@.len(), |i: int| i).filter(
                |i: int| selected(sources@[i], opt_str_ref(requested)),
            ).len() == 0,
        },
{
    let ghost all = Seq::new(sources@.len(), |i: int| i);
    let ghost keep = |i: int| selected(sources@[i], opt_str_ref(requested));
    let mut out: Vec<usize> = Vec::new();
    let mut i: usize = 0;
    while i < sources.len()
        invariant
            i <= sources@.len(),
            all == Seq::new(sources@.len(), |i: int| i),
            keep == (|i: int| selected(sources@[i], opt_str_ref(requested))),
            out@ == all.take(i as int).filter(keep).map_values(|i: int| i as usize),
        decreases sources.len() - i,
    {
        let ghost prev = out@;
        proof {
            reveal_with_fuel(Seq::<_>::filter, 1);
            assert(all.take(i + 1).drop_last() == all.take(i as int));
            assert(all.take(i + 1).last() == i as int);
        }
        let take = sources[i].enabled && match requested {
            Some(id) => str_eq(id, sources[i].id.as_str()),
            None => true,
        };
        if take {
            out.push(i);
            assert(out@ =~= all.take(i + 1).filter(keep).map_values(|i: int| i as usize));
        } else {
            assert(all.take(i + 1).filter(keep) == all.take(i as int).filter(keep));
        }
        i += 1;
    }
    assert(all.take(sources@.len() as int) == all);
    if out.len() == 0 {
        Err(to_string(&to_chars("no matching enabled Feed source")))
    } else {
        Ok(out)
    }
}

pub open spec fn opt_str_ref(o: Option<&str>) -> Option<Seq<char>> {
    match o {
        Some(s) => Some(s@),
        None => None,
    }
}

/// One source's line in a scan report.
pub struct SourceTally {
    pub discovered: usize,
    /// Discovered URLs that were read and stored.
    pub fetched: usize,
    pub new_count: usize,
    /// Stored items the store already had.
    pub known_count: usize,
}

/// Tally one source: `failed` of its `discovered` URLs could not be read,
/// and `new_count` of the rest were new to the store.
pub fn tally_source(discovered: usize, failed: usize, new_count: usize) -> (r: SourceTally)
    requires
        failed <= discovered,
    ensures
        r.discovered == discovered,
        r.fetched == discovered - failed,
        r.new_count == new_count,
        r.known_count == if new_count >= discovered - failed { 0 } else { discovered - failed - new_count },
{
    let fetched = discovered - failed;
    SourceTally {
        discovered,
        fetched,
        new_count,
        known_count: if new_count >= fetched {
            0
        } else {
            fetched - new_count
        },
    }
}

/// A scan in which every selected source failed is an error, not a quiet
/// day; a partial failure is still a success.
pub fn scan_failure(source_errors: usize, selected_count: usize) -> (r: Option<String>)
    ensures
        r is Some <==> (source_errors > 0 && source_errors == selected_count),
        r matches Some(m) ==> m@ == "every selected Feed source failed ("@ + crate::text::decimal(
            source_errors as nat,
        ) + " of "@ + crate::text::decimal(selected_count as nat)
            + ") \u{2014} see the comms log for each"@,
{
    if source_errors > 0 && source_errors == selected_count {
        let mut m = to_chars("every selected Feed source failed (");
        append(&mut m, &decimal_exec(source_errors as u128));
        append(&mut m, &to_chars(" of "));
        append(&mut m, &decimal_exec(selected_count as u128));
        append(&mut m, &to_chars(") \u{2014} see the comms log for each"));
        Some(to_string(&m))
    } else {
        None
    }
}

} // verus!
