//! TELOS relevance for the general Feed: the text that goes into a ranking,
//! and the words that come out of one.
//!
//! Profiles and items are bounded documents; a lens note's frontmatter can
//! name an explicit `relevance_query` that replaces the note's scaffolding.
//! The scores themselves are floating point and computed around this
//! library; what is decided here is exact.

use vstd::prelude::*;
use crate::hashing::{hex, sha256, sha256_hex_str};
use crate::store::FeedItem;
use crate::text::{
    alnum, append, trim_char, trim_char_exec, ascii_lower, is_alphanumeric, is_blank, join, join_exec, lines, lines_exec,
    lower_exec, lowercase, slice, starts_with, starts_with_exec, str_eq, string_views,
    to_ascii_lowercase, to_chars, to_string, trim, trim_exec,
};

verus! {

/// A model embedding accepts about 512 tokens; documents are capped in
/// characters well inside that.
pub const DOCUMENT_CAP: usize = 1800;

pub const PROFILE_CAP: usize = 1800;

/// One configured focus lens.
pub struct InterestProfile {
    pub key: String,
    pub label: String,
    pub focus: String,
    pub text: String,
    pub fingerprint: String,
}

// ---------------------------------------------------------------------------
// Specification
// ---------------------------------------------------------------------------

/// The value after `key:` on a frontmatter line, trimmed and unquoted.
pub open spec fn field_value(line: Seq<char>, key: Seq<char>) -> Seq<char> {
    trim_char(trim(line.skip(key.len() + 1int)), '"')
}

/// Scan frontmatter lines from `i` for `key:`, stopping at the closing `---`.
pub open spec fn frontmatter_scan(ls: Seq<Seq<char>>, key: Seq<char>, i: int) -> Option<Seq<char>>
    decreases ls.len() - i,
{
    if i < 0 || i >= ls.len() {
        None
    } else {
        let line = trim(ls[i]);
        if line == "---"@ {
            None
        } else if starts_with(line, key + ":"@) {
            Some(field_value(line, key))
        } else {
            frontmatter_scan(ls, key, i + 1)
        }
    }
}

/// The value of `key` in a note's leading `---` block, if it has one.
pub open spec fn frontmatter(body: Seq<char>, key: Seq<char>) -> Option<Seq<char>> {
    let ls = lines(body);
    if ls.len() == 0 || trim(ls[0]) != "---"@ {
        None
    } else {
        frontmatter_scan(ls, key, 1)
    }
}

/// The first `n` characters.
pub open spec fn cap(s: Seq<char>, n: nat) -> Seq<char> {
    if s.len() <= n {
        s
    } else {
        s.take(n as int)
    }
}

/// What a lens is embedded as: its explicit `relevance_query` when it has a
/// non-blank one, else the label, frontmatter parts and note, capped.
pub open spec fn profile_text(
    label: Seq<char>,
    summary: Seq<char>,
    current_focus: Seq<char>,
    affinity: Seq<char>,
    body: Seq<char>,
) -> Seq<char> {
    let text = match frontmatter(body, "relevance_query"@) {
        Some(q) => if is_blank(q) {
            label + "\n"@ + summary + "\n"@ + current_focus + "\n"@ + affinity + "\n"@ + body
        } else {
            q
        },
        None => label + "\n"@ + summary + "\n"@ + current_focus + "\n"@ + affinity + "\n"@ + body,
    };
    cap(text, PROFILE_CAP as nat)
}

pub open spec fn or_empty(o: Option<String>) -> Seq<char> {
    match o {
        Some(s) => s@,
        None => Seq::<char>::empty(),
    }
}

/// What an item is embedded as: title, author and content on three lines,
/// capped. Once a summary exists it replaces the transcript.
pub open spec fn item_text(item: FeedItem) -> Seq<char> {
    cap(
        join(seq![or_empty(item.title), or_empty(item.author), item_content(item)], "\n"@),
        DOCUMENT_CAP as nat,
    )
}

/// The summary once there is one, else the transcript.
pub open spec fn item_content(item: FeedItem) -> Seq<char> {
    match item.summary {
        Some(s) => s@,
        None => or_empty(item.transcript),
    }
}

/// The pieces of a text between non-alphanumeric characters, empty ones
/// included, as `str::split` gives them.
pub open spec fn words(s: Seq<char>) -> Seq<Seq<char>>
    decreases s.len(),
{
    if s.len() == 0 {
        seq![Seq::<char>::empty()]
    } else {
        let w = words(s.drop_last());
        if alnum(s.last()) {
            w.drop_last().push(w.last().push(s.last()))
        } else {
            w.push(Seq::<char>::empty())
        }
    }
}

pub open spec fn long_enough() -> spec_fn(Seq<char>) -> bool {
    |t: Seq<char>| t.len() >= 3
}

/// The lexical tokens of a text: its lowercase words of three or more
/// characters, in order.
pub open spec fn tokens_of(text: Seq<char>) -> Seq<Seq<char>> {
    words(lowercase(text)).filter(long_enough())
}

/// The non-blank parts of a lens's frontmatter, joined with ` · `.
pub open spec fn focus_text(summary: Seq<char>, current_focus: Seq<char>, affinity: Seq<char>) -> Seq<char> {
    join(
        seq![summary, current_focus, affinity].filter(|p: Seq<char>| !is_blank(p)),
        " · "@,
    )
}

/// A note named `focus` or `readme` (any case) is not a lens.
pub open spec fn excluded_label(label: Seq<char>) -> bool {
    ascii_lower(label) == "focus"@ || ascii_lower(label) == "readme"@
}

pub open spec fn or_blank(o: Option<Seq<char>>) -> Seq<char> {
    match o {
        Some(v) => v,
        None => Seq::<char>::empty(),
    }
}

/// How a ranking method reads in a rationale.
pub open spec fn method_text(mode: Seq<char>) -> Seq<char> {
    if mode == "reranked"@ {
        "Reranked relevance"@
    } else if mode == "semantic"@ {
        "Semantic similarity"@
    } else {
        "Lexical similarity"@
    }
}

/// Why an item matched a lens, in English.
pub open spec fn rationale_text(mode: Seq<char>, label: Seq<char>, focus: Seq<char>) -> Seq<char> {
    if focus.len() == 0 {
        method_text(mode) + " for the TELOS lens "@ + label
    } else {
        method_text(mode) + " for "@ + label + " · "@ + focus
    }
}

// ---------------------------------------------------------------------------
// Exec
// ---------------------------------------------------------------------------

/// The value of `key` in a note's leading `---` block.
pub fn frontmatter_value(body: &str, key: &str) -> (r: Option<String>)
    ensures
        match r {
            Some(v) => frontmatter(body@, key@) == Some(v@),
            None => frontmatter(body@, key@) is None,
        },
{
    let ls = lines_exec(&to_chars(body));
    let ghost all = lines(body@);
    if ls.len() == 0 {
        return None;
    }
    let first = trim_exec(&ls[0]);
    if !str_eq(to_string(&first).as_str(), "---") {
        return None;
    }
    let mut prefix = to_chars(key);
    append(&mut prefix, &to_chars(":"));
    let mut i: usize = 1;
    while i < ls.len()
        invariant
            1 <= i <= ls@.len(),
            ls@.len() == all.len(),
            all == lines(body@),
            forall|k: int| 0 <= k < ls@.len() ==> #[trigger] ls@[k]@ == all[k],
            prefix@ == key@ + ":"@,
            frontmatter(body@, key@) == frontmatter_scan(all, key@, i as int),
        decreases ls.len() - i,
    {
        let line = trim_exec(&ls[i]);
        assert(line@ == trim(all[i as int]));
        if str_eq(to_string(&line).as_str(), "---") {
            return None;
        }
        if starts_with_exec(&line, &prefix) {
            let rest = slice(&line, prefix.len(), line.len());
            proof {
                reveal_strlit(":");
                assert(prefix@.len() == key@.len() + 1);
                assert(rest@ =~= line@.skip(key@.len() + 1int));
            }
            let v = trim_char_exec(&trim_exec(&rest), '"');
            return Some(to_string(&v));
        }
        i += 1;
    }
    None
}

/// The first `n` characters of a text.
pub fn cap_chars(text: &str, n: usize) -> (r: String)
    ensures
        r@ == cap(text@, n as nat),
{
    let c = to_chars(text);
    if c.len() <= n {
        to_string(&c)
    } else {
        to_string(&slice(&c, 0, n))
    }
}

fn cap_vec(v: &Vec<char>, n: usize) -> (r: String)
    ensures
        r@ == cap(v@, n as nat),
{
    if v.len() <= n {
        to_string(v)
    } else {
        to_string(&slice(v, 0, n))
    }
}

/// What a lens is embedded as.
pub fn profile_embedding_text(
    label: &str,
    summary: &str,
    current_focus: &str,
    affinity: &str,
    body: &str,
) -> (r: String)
    ensures
        r@ == profile_text(label@, summary@, current_focus@, affinity@, body@),
{
    let mut whole = to_chars(label);
    append(&mut whole, &to_chars("\n"));
    append(&mut whole, &to_chars(summary));
    append(&mut whole, &to_chars("\n"));
    append(&mut whole, &to_chars(current_focus));
    append(&mut whole, &to_chars("\n"));
    append(&mut whole, &to_chars(affinity));
    append(&mut whole, &to_chars("\n"));
    append(&mut whole, &to_chars(body));
    match frontmatter_value(body, "relevance_query") {
        Some(q) => {
            let qc = to_chars(q.as_str());
            if trim_exec(&qc).len() > 0 {
                cap_vec(&qc, PROFILE_CAP)
            } else {
                cap_vec(&whole, PROFILE_CAP)
            }
        },
        None => cap_vec(&whole, PROFILE_CAP),
    }
}

fn or_empty_exec(o: &Option<String>) -> (r: Vec<char>)
    ensures
        r@ == or_empty(*o),
{
    match o {
        Some(s) => to_chars(s.as_str()),
        None => Vec::new(),
    }
}

/// What an item is embedded as.
pub fn item_document(item: &FeedItem) -> (r: String)
    ensures
        r@ == item_text(*item),
{
    let ghost expected = item_content(*item);
    let content = match &item.summary {
        Some(s) => to_chars(s.as_str()),
        None => or_empty_exec(&item.transcript),
    };
    assert(content@ == expected);
    let mut parts: Vec<Vec<char>> = Vec::new();
    parts.push(or_empty_exec(&item.title));
    parts.push(or_empty_exec(&item.author));
    parts.push(content);
    let joined = join_exec(&parts, &to_chars("\n"));
    assert(parts@.map_values(|v: Vec<char>| v@) =~= seq![
        or_empty(item.title),
        or_empty(item.author),
        expected,
    ]);
    assert(joined@ == join(seq![or_empty(item.title), or_empty(item.author), expected], "\n"@));
    cap_vec(&joined, DOCUMENT_CAP)
}

proof fn lemma_words_nonempty(s: Seq<char>)
    ensures
        words(s).len() >= 1,
    decreases s.len(),
{
    if s.len() > 0 {
        lemma_words_nonempty(s.drop_last());
    }
}

/// The lexical tokens of a text.
pub fn tokens(text: &str) -> (r: Vec<String>)
    ensures
        string_views(r@) == tokens_of(text@),
{
    let low = lower_exec(&to_chars(text));
    let ghost all = lowercase(text@);
    let mut done: Vec<Vec<char>> = Vec::new();
    let mut cur: Vec<char> = Vec::new();
    let mut i: usize = 0;
    assert(low@.take(0) =~= Seq::<char>::empty());
    while i < low.len()
        invariant
            i <= low@.len(),
            low@ == all,
            done@.map_values(|v: Vec<char>| v@).push(cur@) == words(all.take(i as int)),
        decreases low.len() - i,
    {
        let c = low[i];
        let ghost prev = all.take(i as int);
        assert(all.take(i + 1).drop_last() == prev);
        assert(all.take(i + 1).last() == c);
        proof {
            lemma_words_nonempty(prev);
        }
        if is_alphanumeric(c) {
            cur.push(c);
            assert(done@.map_values(|v: Vec<char>| v@).push(cur@) =~= words(all.take(i + 1)));
        } else {
            let ghost before = done@.map_values(|v: Vec<char>| v@);
            let finished = cur;
            done.push(finished);
            cur = Vec::new();
            assert(done@.map_values(|v: Vec<char>| v@) =~= before.push(finished@));
            assert(done@.map_values(|v: Vec<char>| v@).push(cur@) =~= words(all.take(i + 1)));
        }
        i += 1;
    }
    assert(all.take(low@.len() as int) == all);
    done.push(cur);
    let ghost ws = words(all);
    assert(done@.map_values(|v: Vec<char>| v@) == ws);
    let mut out: Vec<String> = Vec::new();
    let mut k: usize = 0;
    while k < done.len()
        invariant
            k <= done@.len(),
            done@.map_values(|v: Vec<char>| v@) == ws,
            string_views(out@) == ws.take(k as int).filter(long_enough()),
        decreases done.len() - k,
    {
        let ghost prev = out@;
        proof {
            reveal_with_fuel(Seq::<_>::filter, 1);
            assert(ws.take(k + 1).drop_last() == ws.take(k as int));
            assert(ws.take(k + 1).last() == ws[k as int]);
            assert(ws[k as int] == done@[k as int]@);
        }
        if done[k].len() >= 3 {
            out.push(to_string(&done[k]));
            assert(string_views(out@) =~= string_views(prev).push(done@[k as int]@));
        }
        k += 1;
    }
    assert(ws.take(done@.len() as int) == ws);
    out
}

/// The non-blank parts of a lens's frontmatter, joined with ` · `.
pub fn profile_focus(summary: &str, current_focus: &str, affinity: &str) -> (r: String)
    ensures
        r@ == focus_text(summary@, current_focus@, affinity@),
{
    let ghost all = seq![summary@, current_focus@, affinity@];
    let ghost keep = |p: Seq<char>| !is_blank(p);
    let mut parts: Vec<Vec<char>> = Vec::new();
    let s = to_chars(summary);
    let c = to_chars(current_focus);
    let a = to_chars(affinity);
    proof {
        reveal_with_fuel(Seq::<_>::filter, 4);
        assert(all.take(1).drop_last() =~= all.take(0));
        assert(all.take(2).drop_last() =~= all.take(1));
        assert(all.take(3).drop_last() =~= all.take(2));
        assert(all.take(3) =~= all);
    }
    if trim_exec(&s).len() > 0 {
        parts.push(s);
    }
    assert(parts@.map_values(|v: Vec<char>| v@) =~= all.take(1).filter(keep));
    if trim_exec(&c).len() > 0 {
        parts.push(c);
    }
    assert(parts@.map_values(|v: Vec<char>| v@) =~= all.take(2).filter(keep));
    if trim_exec(&a).len() > 0 {
        parts.push(a);
    }
    assert(parts@.map_values(|v: Vec<char>| v@) =~= all.take(3).filter(keep));
    to_string(&join_exec(&parts, &to_chars(" · ")))
}

/// A lens from its note: `stem` is the file name without extension, `path`
/// the note's path, `body` its text. A note named `focus` or `readme` is no
/// lens. The key is the hash of the path and the fingerprint the hash of
/// the embedded text.
pub fn profile_from(stem: &str, path: &str, body: &str) -> (r: Option<InterestProfile>)
    ensures
        match r {
            None => excluded_label(trim(stem@)),
            Some(p) => {
                let summary = or_blank(frontmatter(body@, "summary"@));
                let current = or_blank(frontmatter(body@, "current_focus"@));
                let affinity = or_blank(frontmatter(body@, "category_affinity"@));
                let text = profile_text(trim(stem@), summary, current, affinity, body@);
                &&& !excluded_label(trim(stem@))
                &&& p.label@ == trim(stem@)
                &&& p.focus@ == focus_text(summary, current, affinity)
                &&& p.text@ == text
                &&& p.fingerprint@ == hex(sha256(vstd::utf8::encode_utf8(text)))
                &&& p.key@ == hex(sha256(vstd::utf8::encode_utf8(path@)))
            },
        },
{
    let label = trim_exec(&to_chars(stem));
    let lower = to_ascii_lowercase(&label);
    let ls = to_string(&lower);
    if str_eq(ls.as_str(), "focus") || str_eq(ls.as_str(), "readme") {
        return None;
    }
    let label_s = to_string(&label);
    let summary = or_text(frontmatter_value(body, "summary"));
    let current = or_text(frontmatter_value(body, "current_focus"));
    let affinity = or_text(frontmatter_value(body, "category_affinity"));
    let focus = profile_focus(summary.as_str(), current.as_str(), affinity.as_str());
    let text = profile_embedding_text(
        label_s.as_str(),
        summary.as_str(),
        current.as_str(),
        affinity.as_str(),
        body,
    );
    let fingerprint = sha256_hex_str(text.as_str());
    let key = sha256_hex_str(path);
    Some(InterestProfile { key, label: label_s, focus, text, fingerprint })
}

fn or_text(o: Option<String>) -> (r: String)
    ensures
        r@ == match o {
            Some(v) => v@,
            None => Seq::<char>::empty(),
        },
{
    match o {
        Some(v) => v,
        None => String::new(),
    }
}

/// Why an item matched a lens, in English.
pub fn rationale(mode: &str, label: &str, focus: &str) -> (r: String)
    ensures
        r@ == rationale_text(mode@, label@, focus@),
{
    let method = if str_eq(mode, "reranked") {
        "Reranked relevance"
    } else if str_eq(mode, "semantic") {
        "Semantic similarity"
    } else {
        "Lexical similarity"
    };
    let mut out = to_chars(method);
    if to_chars(focus).len() == 0 {
        append(&mut out, &to_chars(" for the TELOS lens "));
        append(&mut out, &to_chars(label));
    } else {
        append(&mut out, &to_chars(" for "));
        append(&mut out, &to_chars(label));
        append(&mut out, &to_chars(" · "));
        append(&mut out, &to_chars(focus));
    }
    to_string(&out)
}

/// What goes to the embedder is bounded: an item document and a lens text
/// are never longer than their caps, whatever the item or note holds.
pub proof fn embedding_inputs_are_bounded(
    item: FeedItem,
    label: Seq<char>,
    summary: Seq<char>,
    current_focus: Seq<char>,
    affinity: Seq<char>,
    body: Seq<char>,
)
    ensures
        item_text(item).len() <= DOCUMENT_CAP,
        profile_text(label, summary, current_focus, affinity, body).len() <= PROFILE_CAP,
{
}


/// Whether an embedding role is usable: there is one, and both its backend's
/// base URL and its model name are more than white space. `role` is the pair
/// `(base_url, model)` of the resolved role.
pub fn embedding_backend_configured(role: Option<(&str, &str)>) -> (r: bool)
    ensures
        r == match role {
            Some((base_url, model)) => !is_blank(base_url@) && !is_blank(model@),
            None => false,
        },
{
    match role {
        Some((base_url, model)) => trim_exec(&to_chars(base_url)).len() > 0 && trim_exec(
            &to_chars(model),
        ).len() > 0,
        None => false,
    }
}


/// What a declared profile path turned out to be on disk.
pub enum DeclaredPath {
    /// A file, read as one lens.
    File,
    /// A directory whose markdown notes are the lenses.
    Directory,
    /// A directory that could not be listed, with the reason.
    UnreadableDirectory(String),
    /// Neither a file nor a directory.
    Missing,
}

pub open spec fn path_error(p: DeclaredPath) -> Option<Seq<char>> {
    match p {
        DeclaredPath::UnreadableDirectory(e) => Some(
            "a declared TELOS profile directory cannot be read: "@ + e@,
        ),
        DeclaredPath::Missing => Some("a declared TELOS profile path does not exist"@),
        _ => None,
    }
}

/// The error of the first declared path that fails, in declaration order.
pub open spec fn first_path_error(ps: Seq<DeclaredPath>) -> Option<Seq<char>>
    decreases ps.len(),
{
    if ps.len() == 0 {
        None
    } else {
        match path_error(ps[0]) {
            Some(e) => Some(e),
            None => first_path_error(ps.drop_first()),
        }
    }
}

/// Why loading the lenses fails, if it does: a declared path that fails;
/// else, when paths were declared, that none of them gave a readable lens.
/// Declaring no path at all is no error: it gives no lens.
pub open spec fn profiles_error(ps: Seq<DeclaredPath>, readable: nat) -> Option<Seq<char>> {
    match first_path_error(ps) {
        Some(e) => Some(e),
        None => if ps.len() == 0 {
            None
        } else if readable == 0 {
            Some("declared TELOS profile paths yielded no readable profiles"@)
        } else {
            None
        },
    }
}

pub open spec fn error_view(r: Option<String>) -> Option<Seq<char>> {
    match r {
        Some(s) => Some(s@),
        None => None,
    }
}

/// Whether the lenses load: `paths` is what each declared path turned out to
/// be, in order, and `readable` how many lenses the files found gave. `None`:
/// the lenses read are the answer, none when nothing was declared.
pub fn profiles_verdict(paths: &Vec<DeclaredPath>, readable: usize) -> (r: Option<String>)
    ensures
        error_view(r) == profiles_error(paths@, readable as nat),
{
    let mut i: usize = 0;
    assert(paths@.skip(0) =~= paths@);
    while i < paths.len()
        invariant
            i <= paths@.len(),
            first_path_error(paths@) == first_path_error(paths@.skip(i as int)),
        decreases paths.len() - i,
    {
        assert(paths@.skip(i as int)[0] == paths@[i as int]);
        assert(paths@.skip(i as int).drop_first() =~= paths@.skip(i + 1));
        match &paths[i] {
            DeclaredPath::UnreadableDirectory(e) => {
                let mut v = to_chars("a declared TELOS profile directory cannot be read: ");
                append(&mut v, &to_chars(e.as_str()));
                return Some(to_string(&v));
            },
            DeclaredPath::Missing => {
                return Some(to_string(&to_chars("a declared TELOS profile path does not exist")));
            },
            _ => {},
        }
        i += 1;
    }
    assert(paths@.skip(i as int).len() == 0);
    if paths.len() == 0 {
        None
    } else if readable == 0 {
        Some(to_string(&to_chars("declared TELOS profile paths yielded no readable profiles")))
    } else {
        None
    }
}

} // verus!
