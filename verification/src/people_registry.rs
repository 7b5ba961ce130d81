//! The names this operator actually knows: the first rung of redaction.
//!
//! Shape-based redaction only catches a person after a salutation. This
//! registry closes that gap by consulting a list instead of guessing.
//!
//! The list is deployment data, read once per process by the program around
//! this library. Absent is not empty: a missing file gives an empty registry
//! whose state says so, and a file that cannot be parsed is reported apart
//! from a missing one.

use vstd::prelude::*;
use crate::text::{
    ascii_lower, ascii_lower_char, ascii_alnum, ascii_text, contains, string_views, str_eq,
    to_ascii_lowercase, to_chars, to_string, trim_nonalnum, trim_nonalnum_exec, contains_exec,
    trim_ascii_nonalnum, trim_start_ascii_nonalnum, trim_end_ascii_nonalnum,
};

verus! {

/// Whether the registry loaded, and how many names it holds.
#[derive(Debug, Clone, Copy, PartialEq, Eq, Structural)]
pub enum State {
    /// No path resolved, or the file is not there. Shape rules only.
    Absent,
    /// Loaded, with this many single-token names.
    Loaded(usize),
    /// The file exists and could not be parsed.
    Unreadable,
}

/// Single-word names, stored lowercased, each once.
pub struct Registry {
    single: Vec<String>,
    state: State,
}

/// The name a token of the file contributes: none for a non-string entry or
/// a phrase (a whitespace-split token can never match one), else the token
/// lowercased.
pub open spec fn token_name(tokens: Seq<Option<Seq<char>>>, i: int) -> Option<Seq<char>> {
    match tokens[i] {
        Some(t) => if contains(t, " "@) {
            None
        } else {
            Some(ascii_lower(t))
        },
        None => None,
    }
}

/// Every name the tokens of a registry file contribute.
pub open spec fn names_of(tokens: Seq<Option<Seq<char>>>) -> Set<Seq<char>> {
    Set::new(
        |n: Seq<char>| exists|i: int| 0 <= i < tokens.len() && #[trigger] token_name(tokens, i) == Some(n),
    )
}

pub open spec fn opt_views(v: Seq<Option<String>>) -> Seq<Option<Seq<char>>> {
    v.map_values(
        |o: Option<String>|
            match o {
                Some(s) => Some(s@),
                None => None,
            },
    )
}

/// Whether a whitespace-split token names a known person: surrounding
/// punctuation is stripped, fewer than three characters never match, and
/// case is ignored.
pub open spec fn known_person(names: Set<Seq<char>>, token: Seq<char>) -> bool {
    let cleaned = trim_nonalnum(token);
    cleaned.len() >= 3 && names.contains(ascii_lower(cleaned))
}

/// [`known_person`] on an ASCII token: the punctuation stripped is every
/// character that is neither an ASCII letter nor a digit.
pub open spec fn known_person_ascii(names: Set<Seq<char>>, token: Seq<char>) -> bool {
    let cleaned = trim_ascii_nonalnum(token);
    cleaned.len() >= 3 && names.contains(ascii_lower(cleaned))
}


/// What a registry file's text holds: `None` when the text is not JSON or has
/// no `tokens` array, else each entry of that array, a string or not. Named
/// after `serde_json`'s parse of the text, which takes pages to state.
pub uninterp spec fn registry_tokens_of(text: Seq<char>) -> Option<Seq<Option<Seq<char>>>>;

pub open spec fn tokens_view(r: Option<Vec<Option<String>>>) -> Option<Seq<Option<Seq<char>>>> {
    match r {
        Some(v) => Some(opt_views(v@)),
        None => None,
    }
}

/// Wraps `serde_json::from_str::<Value>`, then `Value::get("tokens")`,
/// `Value::as_array` and `Value::as_str` on each entry. The result is a
/// fixed function of the text, named by `registry_tokens_of`; the JSON
/// grammar is not restated.
#[verifier::external_body]
pub fn registry_tokens(text: &str) -> (r: Option<Vec<Option<String>>>)
    ensures
        tokens_view(r) == registry_tokens_of(text@),
{
    let value: serde_json::Value = serde_json::from_str(text).ok()?;
    let tokens = value.get("tokens")?.as_array()?;
    Some(tokens.iter().map(|t| t.as_str().map(str::to_string)).collect())
}

impl Registry {
    pub closed spec fn name_seq(&self) -> Seq<Seq<char>> {
        string_views(self.single@)
    }

    /// The names held.
    pub closed spec fn names(&self) -> Set<Seq<char>> {
        self.name_seq().to_set()
    }

    pub closed spec fn state_of(&self) -> State {
        self.state
    }

    /// Each name once, and a state that matches what is held.
    pub closed spec fn wf(&self) -> bool {
        &&& self.name_seq().no_duplicates()
        &&& match self.state {
            State::Loaded(n) => n == self.single@.len(),
            _ => self.single@.len() == 0,
        }
    }

    /// No registry file: an empty registry that says so.
    pub fn absent() -> (r: Registry)
        ensures
            r.wf(),
            r.state_of() == State::Absent,
            r.names() == Set::<Seq<char>>::empty(),
    {
        let r = Registry { single: Vec::new(), state: State::Absent };
        assert(r.names() =~= Set::<Seq<char>>::empty());
        r
    }

    /// The registry of a registry file: `None` when there is no file to read,
    /// else the file's text. A missing file gives an empty registry that says
    /// it is absent; a file that is not JSON or has no `tokens` array gives an
    /// empty one that says it is unreadable; otherwise every string token
    /// without a space is held, lowered, once.
    pub fn from_text(text: Option<&str>) -> (r: Registry)
        ensures
            r.wf(),
            match text {
                None => r.state_of() == State::Absent && r.names() == Set::<Seq<char>>::empty(),
                Some(t) => match registry_tokens_of(t@) {
                    None => r.state_of() == State::Unreadable && r.names() == Set::<
                        Seq<char>,
                    >::empty(),
                    Some(ts) => {
                        &&& r.names() == names_of(ts)
                        &&& r.state_of() matches State::Loaded(n) && n == r.names().len()
                    },
                },
            },
    {
        match text {
            None => Registry::absent(),
            Some(t) => Registry::from_file(registry_tokens(t)),
        }
    }

    /// The registry a file gives. `tokens` is the file's `tokens` array, each
    /// entry a string or not; `None` when the file is not JSON or has no such
    /// array.
    pub fn from_file(tokens: Option<Vec<Option<String>>>) -> (r: Registry)
        ensures
            r.wf(),
            match tokens {
                None => r.state_of() == State::Unreadable && r.names() == Set::<Seq<char>>::empty(),
                Some(ts) => {
                    &&& r.names() == names_of(opt_views(ts@))
                    &&& r.state_of() matches State::Loaded(n) && n == r.names().len()
                },
            },
    {
        match tokens {
            None => {
                let r = Registry { single: Vec::new(), state: State::Unreadable };
                assert(r.names() =~= Set::<Seq<char>>::empty());
                r
            },
            Some(ts) => {
                let ghost tv = opt_views(ts@);
                let mut single: Vec<String> = Vec::new();
                let mut i: usize = 0;
                while i < ts.len()
                    invariant
                        i <= ts@.len(),
                        tv == opt_views(ts@),
                        string_views(single@).no_duplicates(),
                        forall|n: Seq<char>|
                            #[trigger] string_views(single@).contains(n) <==> exists|k: int|
                                0 <= k < i && #[trigger] token_name(tv, k) == Some(n),
                    decreases ts.len() - i,
                {
                    let ghost before = string_views(single@);
                    assert(tv[i as int] == match ts@[i as int] {
                        Some(s) => Some(s@),
                        None => None::<Seq<char>>,
                    });
                    match &ts[i] {
                        Some(t) => {
                            let tc = to_chars(t.as_str());
                            if !contains_exec(&tc, &to_chars(" ")) {
                                let low = to_ascii_lowercase(&tc);
                                assert(token_name(tv, i as int) == Some(low@));
                                let mut seen = false;
                                let mut k: usize = 0;
                                while k < single.len()
                                    invariant
                                        k <= single@.len(),
                                        seen <==> exists|m: int| 0 <= m < k && (#[trigger] single@[m])@ == low@,
                                    decreases single.len() - k,
                                {
                                    if str_eq(single[k].as_str(), to_string(&low).as_str()) {
                                        seen = true;
                                    }
                                    k += 1;
                                }
                                if !seen {
                                    single.push(to_string(&low));
                                    let ghost after = string_views(single@);
                                    assert(after =~= before.push(low@));
                                    assert(!before.contains(low@)) by {
                                        if before.contains(low@) {
                                            let m = choose|m: int| 0 <= m < before.len() && before[m] == low@;
                                            assert(single@[m]@ == low@);
                                        }
                                    }
                                    assert forall|n: Seq<char>|
                                        after.contains(n) <==> exists|k: int|
                                            0 <= k < i + 1 && #[trigger] token_name(tv, k) == Some(n) by {
                                        if after.contains(n) && n != low@ {
                                            assert(before.contains(n)) by {
                                                let m = choose|m: int| 0 <= m < after.len() && after[m] == n;
                                                assert(before[m] == n);
                                            }
                                        }
                                        if exists|k: int| 0 <= k < i + 1 && #[trigger] token_name(tv, k) == Some(n) {
                                            if n != low@ {
                                                let k = choose|k: int| 0 <= k < i + 1 && #[trigger] token_name(tv, k) == Some(n);
                                                assert(k < i);
                                                assert(before.contains(n));
                                                let m = choose|m: int| 0 <= m < before.len() && before[m] == n;
                                                assert(after[m] == n);
                                            } else {
                                                assert(after[after.len() - 1] == n);
                                            }
                                        }
                                    }
                                } else {
                                    assert(before.contains(low@)) by {
                                        let m = choose|m: int| 0 <= m < k && (#[trigger] single@[m])@ == low@;
                                        assert(before[m] == low@);
                                    }
                                    assert forall|n: Seq<char>|
                                        before.contains(n) <==> exists|k: int|
                                            0 <= k < i + 1 && #[trigger] token_name(tv, k) == Some(n) by {
                                        if exists|k: int| 0 <= k < i + 1 && #[trigger] token_name(tv, k) == Some(n) {
                                            let k = choose|k: int| 0 <= k < i + 1 && #[trigger] token_name(tv, k) == Some(n);
                                            if k < i {
                                            } else {
                                                assert(n == low@);
                                            }
                                        }
                                    }
                                }
                            } else {
                                assert(token_name(tv, i as int) is None);
                                assert forall|n: Seq<char>|
                                    before.contains(n) <==> exists|k: int|
                                        0 <= k < i + 1 && #[trigger] token_name(tv, k) == Some(n) by {
                                    if exists|k: int| 0 <= k < i + 1 && #[trigger] token_name(tv, k) == Some(n) {
                                        let k = choose|k: int| 0 <= k < i + 1 && #[trigger] token_name(tv, k) == Some(n);
                                        assert(k < i);
                                    }
                                }
                            }
                        },
                        None => {
                            assert(token_name(tv, i as int) is None);
                            assert forall|n: Seq<char>|
                                before.contains(n) <==> exists|k: int|
                                    0 <= k < i + 1 && #[trigger] token_name(tv, k) == Some(n) by {
                                if exists|k: int| 0 <= k < i + 1 && #[trigger] token_name(tv, k) == Some(n) {
                                    let k = choose|k: int| 0 <= k < i + 1 && #[trigger] token_name(tv, k) == Some(n);
                                    assert(k < i);
                                }
                            }
                        },
                    }
                    i += 1;
                }
                let n = single.len();
                let r = Registry { single, state: State::Loaded(n) };
                proof {
                    let ns = r.name_seq();
                    assert(r.names() =~= names_of(tv));
                    ns.unique_seq_to_set();
                }
                r
            },
        }
    }

    /// Whether the registry loaded, and how many names it holds.
    pub fn state(&self) -> (r: State)
        ensures
            r == self.state_of(),
    {
        self.state
    }

    /// Is this token a person this operator knows? Surrounding punctuation is
    /// stripped first, because the caller splits on whitespace.
    pub fn is_known_person(&self, token: &str) -> (r: bool)
        ensures
            r == known_person(self.names(), token@),
            ascii_text(token@) ==> r == known_person_ascii(self.names(), token@),
    {
        let cleaned = trim_nonalnum_exec(&to_chars(token));
        if cleaned.len() < 3 {
            return false;
        }
        let low = to_ascii_lowercase(&cleaned);
        let mut k: usize = 0;
        while k < self.single.len()
            invariant
                k <= self.single@.len(),
                cleaned@ == trim_nonalnum(token@),
                ascii_text(token@) ==> cleaned@ == trim_ascii_nonalnum(token@),
                cleaned@.len() >= 3,
                low@ == ascii_lower(cleaned@),
                forall|m: int| 0 <= m < k ==> (#[trigger] self.single@[m])@ != low@,
            decreases self.single.len() - k,
        {
            if str_eq(self.single[k].as_str(), to_string(&low).as_str()) {
                proof {
                    assert(cleaned@ == trim_nonalnum(token@));
                    assert(cleaned@.len() >= 3);
                    assert(self.single@[k as int]@ == low@);
                    assert(self.name_seq()[k as int] == low@);
                    assert(self.name_seq().contains(low@));
                    assert(self.names().contains(low@));
                }
                return true;
            }
            k += 1;
        }
        proof {
            if self.names().contains(low@) {
                let m = choose|m: int| 0 <= m < self.name_seq().len() && self.name_seq()[m] == low@;
                assert(self.single@[m]@ == low@);
            }
        }
        false
    }
}

/// How a receipt states the registry: `loaded` with its size, or `absent`
/// or `unreadable` with none. Both receipts that report it use these words.
pub fn receipt(state: State) -> (r: (&'static str, usize))
    ensures
        match state {
            State::Loaded(n) => r.0@ == "loaded"@ && r.1 == n,
            State::Absent => r.0@ == "absent"@ && r.1 == 0,
            State::Unreadable => r.0@ == "unreadable"@ && r.1 == 0,
        },
{
    match state {
        State::Loaded(names) => ("loaded", names),
        State::Absent => ("absent", 0),
        State::Unreadable => ("unreadable", 0),
    }
}


proof fn lemma_trim_start_past(pre: Seq<char>, x: Seq<char>)
    requires
        forall|k: int| 0 <= k < pre.len() ==> !ascii_alnum(#[trigger] pre[k]),
    ensures
        trim_start_ascii_nonalnum(pre + x) == trim_start_ascii_nonalnum(x),
    decreases pre.len(),
{
    if pre.len() > 0 {
        assert((pre + x).drop_first() =~= pre.drop_first() + x);
        assert(!ascii_alnum(pre[0]));
        lemma_trim_start_past(pre.drop_first(), x);
    } else {
        assert(pre + x =~= x);
    }
}

proof fn lemma_trim_end_past(x: Seq<char>, post: Seq<char>)
    requires
        forall|k: int| 0 <= k < post.len() ==> !ascii_alnum(#[trigger] post[k]),
    ensures
        trim_end_ascii_nonalnum(x + post) == trim_end_ascii_nonalnum(x),
    decreases post.len(),
{
    if post.len() > 0 {
        assert((x + post).drop_last() =~= x + post.drop_last());
        assert(!ascii_alnum(post[post.len() - 1]));
        lemma_trim_end_past(x, post.drop_last());
    } else {
        assert(x + post =~= x);
    }
}

/// Punctuation around a name does not hide it: with `w` starting and ending
/// in a letter or digit, and `pre` and `post` made of anything else, the token
/// `pre + w + post` is known exactly when `w` has at least three characters
/// and its lowered form is a registered name.
pub proof fn punctuation_around_a_name_is_ignored(
    names: Set<Seq<char>>,
    pre: Seq<char>,
    w: Seq<char>,
    post: Seq<char>,
)
    requires
        w.len() > 0,
        ascii_alnum(w[0]),
        ascii_alnum(w.last()),
        forall|k: int| 0 <= k < pre.len() ==> !ascii_alnum(#[trigger] pre[k]),
        forall|k: int| 0 <= k < post.len() ==> !ascii_alnum(#[trigger] post[k]),
    ensures
        known_person_ascii(names, pre + w + post) == (w.len() >= 3 && names.contains(
            ascii_lower(w),
        )),
{
    assert(pre + w + post =~= pre + (w + post));
    lemma_trim_start_past(pre, w + post);
    assert((w + post)[0] == w[0]);
    assert(trim_start_ascii_nonalnum(w + post) == w + post);
    lemma_trim_end_past(w, post);
    assert(trim_end_ascii_nonalnum(w) == w);
}

proof fn lemma_lower_trim_start(t: Seq<char>)
    ensures
        trim_start_ascii_nonalnum(ascii_lower(t)) == ascii_lower(trim_start_ascii_nonalnum(t)),
    decreases t.len(),
{
    if t.len() > 0 {
        assert(ascii_lower(t)[0] == ascii_lower_char(t[0]));
        assert(ascii_alnum(ascii_lower_char(t[0])) == ascii_alnum(t[0]));
        if !ascii_alnum(t[0]) {
            assert(ascii_lower(t).drop_first() =~= ascii_lower(t.drop_first()));
            lemma_lower_trim_start(t.drop_first());
        }
    }
}

proof fn lemma_lower_trim_end(t: Seq<char>)
    ensures
        trim_end_ascii_nonalnum(ascii_lower(t)) == ascii_lower(trim_end_ascii_nonalnum(t)),
    decreases t.len(),
{
    if t.len() > 0 {
        assert(ascii_lower(t).last() == ascii_lower_char(t.last()));
        assert(ascii_alnum(ascii_lower_char(t.last())) == ascii_alnum(t.last()));
        if !ascii_alnum(t.last()) {
            assert(ascii_lower(t).drop_last() =~= ascii_lower(t.drop_last()));
            lemma_lower_trim_end(t.drop_last());
        }
    }
}

/// Case does not matter: a token and its lowered form are known alike.
pub proof fn case_is_ignored(names: Set<Seq<char>>, t: Seq<char>)
    ensures
        known_person_ascii(names, ascii_lower(t)) == known_person_ascii(names, t),
{
    lemma_lower_trim_start(t);
    lemma_lower_trim_end(trim_start_ascii_nonalnum(t));
    let c = trim_ascii_nonalnum(t);
    assert(trim_ascii_nonalnum(ascii_lower(t)) == ascii_lower(c));
    assert(ascii_lower(ascii_lower(c)) =~= ascii_lower(c));
}

} // verus!
