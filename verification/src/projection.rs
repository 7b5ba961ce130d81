//! Every saved feed item as one markdown note in `Resources/Sources/`.
//!
//! Only the shape lives here: what a saved link looks like as a note, which
//! name it takes, what an export run reports, and which existing notes a
//! sweep removes. Writing and deleting files belongs to the vault root.
//!
//! Every frontmatter key written has a reader in the vault; everything else
//! the store knows stays in the store. Values are always quoted, with `\` and
//! `"` escaped.

use vstd::prelude::*;
use crate::store::FeedItem;
use crate::text::{
    append, decimal, decimal_exec, find, lemma_find_from_bounds, matches_at, starts_with,
    string_views, is_blank, replace_all, replace_exec, slice, str_eq, to_chars,
    to_string, trim, trim_exec,
};

verus! {

broadcast use vstd::seq_lib::group_to_multiset_ensures, vstd::multiset::group_multiset_axioms;

/// The projection marker owner. Changing it makes every file already in the
/// vault look foreign.
pub const OWNER: &'static str = "comms";

/// Bumped when the rendered shape changes.
pub const VERSION: u32 = 1;

/// The vault folder of the feed library.
pub const DIR: &'static str = "Resources/Sources";

/// The store's `status` value that means saved.
pub const SAVED: &'static str = "keeper";

/// One saved item's file name and body, ready to write.
pub struct Projection {
    /// Vault-relative, `Resources/Sources/<name>.md`.
    pub path: String,
    pub body: String,
}

// ---------------------------------------------------------------------------
// The shape of one note
// ---------------------------------------------------------------------------

/// A value inside double quotes: `\` and `"` escaped, in that order.
pub open spec fn escape(v: Seq<char>) -> Seq<char> {
    replace_all(replace_all(v, "\\"@, "\\\\"@), "\""@, "\\\""@)
}

/// One frontmatter line, value always quoted.
pub open spec fn field(key: Seq<char>, value: Seq<char>) -> Seq<char> {
    key + ": \""@ + escape(value) + "\"\n"@
}

/// A feed `kind` as the word the vault uses for that format, if it has one.
pub open spec fn format_word(kind: Seq<char>) -> Option<Seq<char>> {
    if kind == "youtube"@ || kind == "instagram"@ {
        Some("video"@)
    } else if kind == "podcast"@ {
        Some("podcast"@)
    } else if kind == "article"@ {
        Some("article"@)
    } else if kind == "github"@ || kind == "huggingface"@ {
        Some("repo"@)
    } else if kind == "arxiv"@ {
        Some("paper"@)
    } else if kind == "reddit"@ {
        Some("thread"@)
    } else {
        None
    }
}

/// The trimmed title, or the URL when there is no non-blank title.
pub open spec fn title_of(item: FeedItem) -> Seq<char> {
    match item.title {
        Some(t) => if is_blank(t@) {
            item.url@
        } else {
            trim(t@)
        },
        None => item.url@,
    }
}

/// The last eight characters of an id (all of it when shorter).
pub open spec fn id_tail(id: Seq<char>) -> Seq<char> {
    if id.len() > 8 {
        id.skip(id.len() - 8)
    } else {
        id
    }
}

pub open spec fn format_line(kind: Seq<char>) -> Seq<char> {
    match format_word(kind) {
        Some(w) => field("format"@, w),
        None => Seq::<char>::empty(),
    }
}

pub open spec fn author_line(author: Option<String>) -> Seq<char> {
    match author {
        Some(a) => if is_blank(a@) {
            Seq::<char>::empty()
        } else {
            field("author"@, a@)
        },
        None => Seq::<char>::empty(),
    }
}

pub open spec fn created_line(day: Seq<char>) -> Seq<char> {
    if is_blank(day) {
        Seq::<char>::empty()
    } else {
        field("created"@, day)
    }
}

/// The frontmatter block: the vault's keys in the Source template's order,
/// then the machine keys.
pub open spec fn frontmatter(item: FeedItem) -> Seq<char> {
    "---\n"@ + field("type"@, "source"@) + format_line(item.kind@) + field("status"@, "backlog"@)
        + author_line(item.author) + field("url"@, item.url@) + created_line(item.day@) + field(
        "axon_feed_id"@,
        item.id@,
    ) + field("axon_projection_version"@, decimal(VERSION as nat)) + "---\n\n"@
}

/// The summary verbatim (trimmed), or a line saying none is stored yet.
pub open spec fn body_text(summary: Option<String>) -> Seq<char> {
    match summary {
        Some(s) => if is_blank(s@) {
            "_No summary stored yet._\n"@
        } else {
            trim(s@) + "\n"@
        },
        None => "_No summary stored yet._\n"@,
    }
}

/// One saved item as a whole document, frontmatter first.
pub open spec fn rendered(item: FeedItem) -> Seq<char> {
    frontmatter(item) + "# "@ + title_of(item) + "\n\n"@ + body_text(item.summary)
}

// ---------------------------------------------------------------------------
// Names for a whole library
// ---------------------------------------------------------------------------

/// How many items share the stem `s`.
pub open spec fn occurrences(stems: Seq<Seq<char>>, s: Seq<char>) -> nat {
    stems.to_multiset().count(s)
}

/// The name item `i` takes: its stem, with its id suffix when another item
/// has the same stem.
pub open spec fn unique_stem(stems: Seq<Seq<char>>, ids: Seq<Seq<char>>, i: int) -> Seq<char> {
    if occurrences(stems, stems[i]) > 1 {
        stems[i] + " ("@ + id_tail(ids[i]) + ")"@
    } else {
        stems[i]
    }
}

pub open spec fn note_path(stem: Seq<char>) -> Seq<char> {
    "Resources/Sources/"@ + stem + ".md"@
}

pub open spec fn item_ids(items: Seq<FeedItem>) -> Seq<Seq<char>> {
    items.map_values(|it: FeedItem| it.id@)
}

/// A name never depends on the order of the library: two libraries holding
/// the same stems give an item with the same stem and id the same name.
pub proof fn names_ignore_order(
    stems1: Seq<Seq<char>>,
    ids1: Seq<Seq<char>>,
    i: int,
    stems2: Seq<Seq<char>>,
    ids2: Seq<Seq<char>>,
    j: int,
)
    requires
        0 <= i < stems1.len(),
        0 <= j < stems2.len(),
        stems1.to_multiset() == stems2.to_multiset(),
        stems1[i] == stems2[j],
        ids1[i] == ids2[j],
    ensures
        unique_stem(stems1, ids1, i) == unique_stem(stems2, ids2, j),
{
}

/// When two items share a stem, both are renamed, never only one.
pub proof fn a_shared_stem_renames_both(stems: Seq<Seq<char>>, ids: Seq<Seq<char>>, i: int, j: int)
    requires
        0 <= i < stems.len(),
        0 <= j < stems.len(),
        i != j,
        stems[i] == stems[j],
    ensures
        unique_stem(stems, ids, i) == stems[i] + " ("@ + id_tail(ids[i]) + ")"@,
        unique_stem(stems, ids, j) == stems[j] + " ("@ + id_tail(ids[j]) + ")"@,
{
    let s = stems[i];
    let rest = stems.remove(i);
    assert(rest.contains(s)) by {
        if j < i {
            assert(rest[j] == s);
        } else {
            assert(rest[j - 1] == s);
        }
    }
    assert(stems.to_multiset().count(s) == rest.to_multiset().count(s) + 1);
}

// ---------------------------------------------------------------------------
// Exec
// ---------------------------------------------------------------------------

fn push_field(out: &mut Vec<char>, key: &str, value: &Vec<char>)
    ensures
        final(out)@ == old(out)@ + field(key@, value@),
{
    let a = replace_exec(value, &to_chars("\\"), &to_chars("\\\\"));
    let b = replace_exec(&a, &to_chars("\""), &to_chars("\\\""));
    append(out, &to_chars(key));
    append(out, &to_chars(": \""));
    append(out, &b);
    append(out, &to_chars("\"\n"));
}

fn format_word_exec(kind: &str) -> (r: Option<&'static str>)
    ensures
        match r {
            Some(w) => format_word(kind@) == Some(w@),
            None => format_word(kind@) is None,
        },
{
    if str_eq(kind, "youtube") || str_eq(kind, "instagram") {
        Some("video")
    } else if str_eq(kind, "podcast") {
        Some("podcast")
    } else if str_eq(kind, "article") {
        Some("article")
    } else if str_eq(kind, "github") || str_eq(kind, "huggingface") {
        Some("repo")
    } else if str_eq(kind, "arxiv") {
        Some("paper")
    } else if str_eq(kind, "reddit") {
        Some("thread")
    } else {
        None
    }
}

/// The item's title: the trimmed stored title, or the URL when there is none
/// or it is blank.
pub fn title(item: &FeedItem) -> (r: String)
    ensures
        r@ == title_of(*item),
{
    match &item.title {
        Some(t) => {
            let tt = trim_exec(&to_chars(t.as_str()));
            if tt.len() > 0 {
                to_string(&tt)
            } else {
                to_string(&to_chars(item.url.as_str()))
            }
        },
        None => to_string(&to_chars(item.url.as_str())),
    }
}

/// The tail of a feed id: its last eight characters, all of it when shorter.
pub fn id_suffix(id: &str) -> (r: String)
    ensures
        r@ == id_tail(id@),
{
    let c = to_chars(id);
    if c.len() > 8 {
        to_string(&slice(&c, c.len() - 8, c.len()))
    } else {
        to_string(&c)
    }
}

/// One saved item as a whole document, frontmatter first.
pub fn render(item: &FeedItem) -> (r: String)
    ensures
        r@ == rendered(*item),
{
    let mut out = to_chars("---\n");
    push_field(&mut out, "type", &to_chars("source"));
    match format_word_exec(item.kind.as_str()) {
        Some(w) => push_field(&mut out, "format", &to_chars(w)),
        None => {},
    }
    push_field(&mut out, "status", &to_chars("backlog"));
    match &item.author {
        Some(a) => {
            let ac = to_chars(a.as_str());
            if trim_exec(&ac).len() > 0 {
                push_field(&mut out, "author", &ac);
            }
        },
        None => {},
    }
    push_field(&mut out, "url", &to_chars(item.url.as_str()));
    let day = to_chars(item.day.as_str());
    if trim_exec(&day).len() > 0 {
        push_field(&mut out, "created", &day);
    }
    push_field(&mut out, "axon_feed_id", &to_chars(item.id.as_str()));
    push_field(&mut out, "axon_projection_version", &decimal_exec(VERSION as u128));
    append(&mut out, &to_chars("---\n\n"));
    let ghost head = out@;
    assert(head == frontmatter(*item));
    append(&mut out, &to_chars("# "));
    append(&mut out, &to_chars(title(item).as_str()));
    append(&mut out, &to_chars("\n\n"));
    match &item.summary {
        Some(s) => {
            let t = trim_exec(&to_chars(s.as_str()));
            if t.len() > 0 {
                append(&mut out, &t);
                append(&mut out, &to_chars("\n"));
            } else {
                append(&mut out, &to_chars("_No summary stored yet._\n"));
            }
        },
        None => append(&mut out, &to_chars("_No summary stored yet._\n")),
    }
    to_string(&out)
}

/// How many of `stems` equal `s`.
fn count_stem(stems: &[String], s: &str) -> (r: usize)
    ensures
        r as nat == occurrences(string_views(stems@), s@),
{
    let ghost all = string_views(stems@);
    let mut n: usize = 0;
    let mut j: usize = 0;
    assert(all.take(0) =~= Seq::<Seq<char>>::empty());
    while j < stems.len()
        invariant
            j <= stems@.len(),
            all == string_views(stems@),
            n as nat == all.take(j as int).to_multiset().count(s@),
            n <= j,
        decreases stems.len() - j,
    {
        assert(all.take(j + 1) =~= all.take(j as int).push(all[j as int]));
        if str_eq(stems[j].as_str(), s) {
            n += 1;
        }
        j += 1;
    }
    assert(all.take(stems@.len() as int) =~= all);
    n
}

/// Render every saved item and name its file. `stems[i]` is the file stem
/// the vault root makes of `items[i]`'s [`title`] and [`id_suffix`]; an item whose stem another item shares takes its
/// id suffix too, so no name depends on iteration order.
pub fn render_all(items: &[FeedItem], stems: &[String]) -> (r: Vec<Projection>)
    requires
        stems@.len() == items@.len(),
    ensures
        r@.len() == items@.len(),
        forall|i: int|
            0 <= i < items@.len() ==> {
                &&& (#[trigger] r@[i]).path@ == note_path(
                    unique_stem(string_views(stems@), item_ids(items@), i),
                )
                &&& r@[i].body@ == rendered(items@[i])
            },
{
    let ghost sv = string_views(stems@);
    let ghost iv = item_ids(items@);
    let mut out: Vec<Projection> = Vec::new();
    let mut i: usize = 0;
    while i < items.len()
        invariant
            i <= items@.len(),
            stems@.len() == items@.len(),
            sv == string_views(stems@),
            iv == item_ids(items@),
            out@.len() == i,
            forall|k: int|
                0 <= k < i ==> {
                    &&& (#[trigger] out@[k]).path@ == note_path(unique_stem(sv, iv, k))
                    &&& out@[k].body@ == rendered(items@[k])
                },
        decreases items.len() - i,
    {
        let stem = to_chars(stems[i].as_str());
        let n = count_stem(stems, stems[i].as_str());
        let mut name = stem;
        if n > 1 {
            append(&mut name, &to_chars(" ("));
            append(&mut name, &to_chars(id_suffix(items[i].id.as_str()).as_str()));
            append(&mut name, &to_chars(")"));
        }
        assert(sv[i as int] == stems@[i as int]@);
        assert(iv[i as int] == items@[i as int].id@);
        let mut path = to_chars("Resources/Sources/");
        append(&mut path, &name);
        append(&mut path, &to_chars(".md"));
        out.push(Projection { path: to_string(&path), body: render(&items[i]) });
        i += 1;
    }
    out
}

// ---------------------------------------------------------------------------
// What an export run did
// ---------------------------------------------------------------------------

/// What writing one projection did to its file.
#[derive(Debug, Clone, Copy, PartialEq, Eq, Structural)]
pub enum Outcome {
    Created,
    Updated,
    Unchanged,
    /// The file holds a note comms did not write.
    NotOurs,
}

/// What one export run did. Counts for the ordinary outcomes, paths for the
/// two a human has to look at.
#[derive(Debug, PartialEq, Eq)]
pub struct Report {
    pub created: usize,
    pub updated: usize,
    pub unchanged: usize,
    /// Paths holding a file comms did not write.
    pub refused: Vec<String>,
    /// Notes whose item is no longer saved, or whose title changed.
    pub removed: Vec<String>,
}

impl Default for Report {
    fn default() -> (r: Self)
        ensures
            r.created == 0,
            r.updated == 0,
            r.unchanged == 0,
            r.refused@.len() == 0,
            r.removed@.len() == 0,
    {
        Report { created: 0, updated: 0, unchanged: 0, refused: Vec::new(), removed: Vec::new() }
    }
}

impl Report {
    /// Count one write's outcome; a refused write is kept by its path.
    pub fn record(&mut self, outcome: Outcome, path: &str)
        requires
            old(self).created < usize::MAX,
            old(self).updated < usize::MAX,
            old(self).unchanged < usize::MAX,
        ensures
            final(self).created == old(self).created + if outcome is Created { 1int } else { 0 },
            final(self).updated == old(self).updated + if outcome is Updated { 1int } else { 0 },
            final(self).unchanged == old(self).unchanged + if outcome is Unchanged { 1int } else { 0 },
            string_views(final(self).refused@) == if outcome is NotOurs {
                string_views(old(self).refused@).push(path@)
            } else {
                string_views(old(self).refused@)
            },
            final(self).removed@ == old(self).removed@,
    {
        let ghost before = self.refused@;
        match outcome {
            Outcome::Created => self.created = self.created + 1,
            Outcome::Updated => self.updated = self.updated + 1,
            Outcome::Unchanged => self.unchanged = self.unchanged + 1,
            Outcome::NotOurs => {
                self.refused.push(to_string(&to_chars(path)));
                assert(string_views(self.refused@) =~= string_views(before).push(path@));
            },
        }
    }
}

/// Existing notes that no rendered projection names, in their order: what a
/// sweep offers for removal. Only files carrying comms' header are removed
/// by the vault root; the rest is somebody's writing.
pub fn stale(existing: &[String], rendered: &[Projection]) -> (r: Vec<String>)
    ensures
        string_views(r@) == string_views(existing@).filter(
            |id: Seq<char>| !exists|k: int| 0 <= k < rendered@.len() && (#[trigger] rendered@[k]).path@ == id,
        ),
{
    let ghost ev = string_views(existing@);
    let ghost keep = |id: Seq<char>| !exists|k: int| 0 <= k < rendered@.len() && (#[trigger] rendered@[k]).path@ == id;
    let mut out: Vec<String> = Vec::new();
    let mut i: usize = 0;
    while i < existing.len()
        invariant
            i <= existing@.len(),
            ev == string_views(existing@),
            keep == (|id: Seq<char>| !exists|k: int| 0 <= k < rendered@.len() && (#[trigger] rendered@[k]).path@ == id),
            string_views(out@) == ev.take(i as int).filter(keep),
        decreases existing.len() - i,
    {
        let ghost prev = out@;
        let mut found = false;
        let mut k: usize = 0;
        while k < rendered.len()
            invariant
                k <= rendered@.len(),
                i < existing@.len(),
                found <==> exists|m: int| 0 <= m < k && (#[trigger] rendered@[m]).path@ == existing@[i as int]@,
            decreases rendered.len() - k,
        {
            if str_eq(rendered[k].path.as_str(), existing[i].as_str()) {
                found = true;
            }
            k += 1;
        }
        proof {
            reveal_with_fuel(Seq::<_>::filter, 1);
            assert(ev.take(i + 1).drop_last() == ev.take(i as int));
            assert(ev.take(i + 1).last() == ev[i as int]);
            assert(ev[i as int] == existing@[i as int]@);
        }
        if !found {
            out.push(to_string(&to_chars(existing[i].as_str())));
            assert(string_views(out@) =~= string_views(prev).push(existing@[i as int]@));
        }
        i += 1;
    }
    assert(ev.take(existing@.len() as int) == ev);
    out
}


/// A value with no `\` and no `"` is written as it is.
proof fn lemma_plain_escape(v: Seq<char>)
    requires
        forall|i: int| 0 <= i < v.len() ==> v[i] != '\\' && v[i] != '"',
    ensures
        escape(v) == v,
{
    reveal_strlit("\\");
    reveal_strlit("\"");
    lemma_find_from_bounds(v, "\\"@, 0);
    if let Some(j) = find(v, "\\"@) {
        assert(v.subrange(j, j + 1)[0] == v[j]);
    }
    assert(replace_all(v, "\\"@, "\\\\"@) == v);
    lemma_find_from_bounds(v, "\""@, 0);
    if let Some(j) = find(v, "\""@) {
        assert(v.subrange(j, j + 1)[0] == v[j]);
    }
}

proof fn lemma_take_concat(x: Seq<char>, y: Seq<char>, k: int)
    requires
        0 <= k <= x.len(),
    ensures
        (x + y).take(k) == x.take(k),
{
    assert((x + y).take(k) =~= x.take(k));
}

/// The note opens with its first three frontmatter entries.
pub open spec fn note_head(item: FeedItem) -> Seq<char> {
    "---\n"@ + field("type"@, "source"@) + format_line(item.kind@) + field("status"@, "backlog"@)
}

proof fn lemma_note_head(item: FeedItem)
    ensures
        rendered(item).take(note_head(item).len() as int) == note_head(item),
{
    let c = note_head(item);
    let k = c.len() as int;
    let f1 = c + author_line(item.author);
    let f2 = f1 + field("url"@, item.url@);
    let f3 = f2 + created_line(item.day@);
    let f4 = f3 + field("axon_feed_id"@, item.id@);
    let f5 = f4 + field("axon_projection_version"@, decimal(VERSION as nat));
    let f6 = f5 + "---\n\n"@;
    assert(f6 == frontmatter(item));
    let r1 = f6 + "# "@;
    let r2 = r1 + title_of(item);
    let r3 = r2 + "\n\n"@;
    assert(r3 + body_text(item.summary) == rendered(item));
    assert(c.take(k) =~= c);
    lemma_take_concat(c, author_line(item.author), k);
    lemma_take_concat(f1, field("url"@, item.url@), k);
    lemma_take_concat(f2, created_line(item.day@), k);
    lemma_take_concat(f3, field("axon_feed_id"@, item.id@), k);
    lemma_take_concat(f4, field("axon_projection_version"@, decimal(VERSION as nat)), k);
    lemma_take_concat(f5, "---\n\n"@, k);
    lemma_take_concat(f6, "# "@, k);
    lemma_take_concat(r1, title_of(item), k);
    lemma_take_concat(r2, "\n\n"@, k);
    lemma_take_concat(r3, body_text(item.summary), k);
}

/// The note opens with the type line and then `second`.
proof fn lemma_opens_with(item: FeedItem, second: Seq<char>)
    requires
        second.len() <= (format_line(item.kind@) + field("status"@, "backlog"@)).len(),
        (format_line(item.kind@) + field("status"@, "backlog"@)).take(second.len() as int) == second,
    ensures
        starts_with(rendered(item), "---\ntype: \"source\"\n"@ + second),
{
    reveal_strlit("source");
    lemma_plain_escape("source"@);
    reveal_strlit("---\n");
    reveal_strlit("type");
    reveal_strlit(": \"");
    reveal_strlit("\"\n");
    reveal_strlit("---\ntype: \"source\"\n");
    let head = "---\n"@ + field("type"@, "source"@);
    assert(head =~= "---\ntype: \"source\"\n"@);
    let mid = format_line(item.kind@) + field("status"@, "backlog"@);
    let c = note_head(item);
    assert(c =~= head + mid);
    lemma_note_head(item);
    let p = head + second;
    assert(c.take(p.len() as int) =~= p);
    assert(rendered(item).take(p.len() as int) =~= c.take(p.len() as int));
}

/// The format word a kind is written with: `second` is the note's second
/// frontmatter line when the kind has the word `w`.
proof fn lemma_format_head(item: FeedItem, w: Seq<char>)
    requires
        format_word(item.kind@) == Some(w),
        forall|i: int| 0 <= i < w.len() ==> w[i] != '\\' && w[i] != '"',
    ensures
        starts_with(rendered(item), "---\ntype: \"source\"\n"@ + ("format: \""@ + w + "\"\n"@)),
{
    lemma_plain_escape(w);
    reveal_strlit("format");
    reveal_strlit(": \"");
    reveal_strlit("\"\n");
    let second = "format: \""@ + w + "\"\n"@;
    reveal_strlit("format: \"");
    assert(field("format"@, w) =~= second);
    let mid = format_line(item.kind@) + field("status"@, "backlog"@);
    assert(mid.take(second.len() as int) =~= second);
    lemma_opens_with(item, second);
}


/// The kinds the vault has a word for are eight different words.
proof fn lemma_kinds_distinct()
    ensures
        "youtube"@ != "instagram"@ && "youtube"@ != "podcast"@ && "youtube"@ != "article"@
            && "youtube"@ != "github"@ && "youtube"@ != "huggingface"@ && "youtube"@ != "arxiv"@
            && "youtube"@ != "reddit"@,
        "instagram"@ != "podcast"@ && "instagram"@ != "article"@ && "instagram"@ != "github"@
            && "instagram"@ != "huggingface"@ && "instagram"@ != "arxiv"@ && "instagram"@
            != "reddit"@,
        "podcast"@ != "article"@ && "podcast"@ != "github"@ && "podcast"@ != "huggingface"@
            && "podcast"@ != "arxiv"@ && "podcast"@ != "reddit"@,
        "article"@ != "github"@ && "article"@ != "huggingface"@ && "article"@ != "arxiv"@
            && "article"@ != "reddit"@,
        "github"@ != "huggingface"@ && "github"@ != "arxiv"@ && "github"@ != "reddit"@,
        "huggingface"@ != "arxiv"@ && "huggingface"@ != "reddit"@,
        "arxiv"@ != "reddit"@,
{
    reveal_strlit("youtube");
    reveal_strlit("instagram");
    reveal_strlit("podcast");
    reveal_strlit("article");
    reveal_strlit("github");
    reveal_strlit("huggingface");
    reveal_strlit("arxiv");
    reveal_strlit("reddit");
    assert("youtube"@.len() != "instagram"@.len());
    assert("youtube"@[0] != "podcast"@[0]);
    assert("youtube"@[0] != "article"@[0]);
    assert("youtube"@.len() != "github"@.len());
    assert("youtube"@.len() != "huggingface"@.len());
    assert("youtube"@.len() != "arxiv"@.len());
    assert("youtube"@.len() != "reddit"@.len());
    assert("instagram"@.len() != "podcast"@.len());
    assert("instagram"@.len() != "article"@.len());
    assert("instagram"@.len() != "github"@.len());
    assert("instagram"@.len() != "huggingface"@.len());
    assert("instagram"@.len() != "arxiv"@.len());
    assert("instagram"@.len() != "reddit"@.len());
    assert("podcast"@[0] != "article"@[0]);
    assert("podcast"@.len() != "github"@.len());
    assert("podcast"@.len() != "huggingface"@.len());
    assert("podcast"@.len() != "arxiv"@.len());
    assert("podcast"@.len() != "reddit"@.len());
    assert("article"@.len() != "github"@.len());
    assert("article"@.len() != "huggingface"@.len());
    assert("article"@.len() != "arxiv"@.len());
    assert("article"@.len() != "reddit"@.len());
    assert("github"@.len() != "huggingface"@.len());
    assert("github"@.len() != "arxiv"@.len());
    assert("github"@[0] != "reddit"@[0]);
    assert("huggingface"@.len() != "arxiv"@.len());
    assert("huggingface"@.len() != "reddit"@.len());
    assert("arxiv"@.len() != "reddit"@.len());
}

/// The word the vault's Source template has for each kind of item is the
/// note's second frontmatter line: a YouTube or Instagram item is a
/// `video`, a podcast a `podcast`, an article an `article`, a GitHub or
/// Hugging Face item a `repo`, an arXiv item a `paper`, a Reddit item a
/// `thread`. Any other kind has no format line: the status line follows the
/// type line directly.
pub proof fn each_kind_gets_its_vault_word(item: FeedItem)
    ensures
        (item.kind@ == "youtube"@ || item.kind@ == "instagram"@) ==> starts_with(
            rendered(item),
            "---\ntype: \"source\"\n"@ + ("format: \""@ + "video"@ + "\"\n"@),
        ),
        item.kind@ == "podcast"@ ==> starts_with(
            rendered(item),
            "---\ntype: \"source\"\n"@ + ("format: \""@ + "podcast"@ + "\"\n"@),
        ),
        item.kind@ == "article"@ ==> starts_with(
            rendered(item),
            "---\ntype: \"source\"\n"@ + ("format: \""@ + "article"@ + "\"\n"@),
        ),
        (item.kind@ == "github"@ || item.kind@ == "huggingface"@) ==> starts_with(
            rendered(item),
            "---\ntype: \"source\"\n"@ + ("format: \""@ + "repo"@ + "\"\n"@),
        ),
        item.kind@ == "arxiv"@ ==> starts_with(
            rendered(item),
            "---\ntype: \"source\"\n"@ + ("format: \""@ + "paper"@ + "\"\n"@),
        ),
        item.kind@ == "reddit"@ ==> starts_with(
            rendered(item),
            "---\ntype: \"source\"\n"@ + ("format: \""@ + "thread"@ + "\"\n"@),
        ),
        !(item.kind@ == "youtube"@ || item.kind@ == "instagram"@ || item.kind@ == "podcast"@
            || item.kind@ == "article"@ || item.kind@ == "github"@ || item.kind@ == "huggingface"@
            || item.kind@ == "arxiv"@ || item.kind@ == "reddit"@) ==> starts_with(
            rendered(item),
            "---\ntype: \"source\"\n"@ + ("status: \""@ + "backlog"@ + "\"\n"@),
        ),
{
    lemma_kinds_distinct();
    reveal_strlit("video");
    reveal_strlit("podcast");
    reveal_strlit("article");
    reveal_strlit("repo");
    reveal_strlit("paper");
    reveal_strlit("thread");
    let k = item.kind@;
    if k == "youtube"@ || k == "instagram"@ {
        lemma_format_head(item, "video"@);
    } else if k == "podcast"@ {
        lemma_format_head(item, "podcast"@);
    } else if k == "article"@ {
        lemma_format_head(item, "article"@);
    } else if k == "github"@ || k == "huggingface"@ {
        lemma_format_head(item, "repo"@);
    } else if k == "arxiv"@ {
        lemma_format_head(item, "paper"@);
    } else if k == "reddit"@ {
        lemma_format_head(item, "thread"@);
    } else {
        reveal_strlit("backlog");
        reveal_strlit("status");
        reveal_strlit(": \"");
        reveal_strlit("\"\n");
        reveal_strlit("status: \"");
        lemma_plain_escape("backlog"@);
        let second = "status: \""@ + "backlog"@ + "\"\n"@;
        assert(field("status"@, "backlog"@) =~= second);
        let mid = format_line(k) + field("status"@, "backlog"@);
        assert(mid =~= second);
        assert(mid.take(second.len() as int) =~= second);
        lemma_opens_with(item, second);
    }
}

} // verus!
