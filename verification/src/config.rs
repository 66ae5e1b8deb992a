//! Config resolver: which library crates to build for a target.
//!
//! The configuration file maps a target name to a list of crate names.  The
//! resolved list always contains the baseline crate, is sorted and holds no
//! duplicates, whatever the configuration says.

use vstd::prelude::*;
use crate::strutil::{views, lex_lt, lemma_lex_lt_trans, lemma_lex_lt_connected, lemma_lex_lt_irrefl};

verus! {

/// The crate every sysroot must contain.
pub open spec fn baseline() -> Seq<char> {
    "core"@
}

/// A sequence of names in strictly increasing lexicographic order
/// (which also means it holds no duplicates).
pub open spec fn strictly_sorted(s: Seq<Seq<char>>) -> bool {
    forall|i: int, j: int| 0 <= i < j < s.len() ==> lex_lt(s[i], s[j])
}

/// What an optional per-target configuration entry resolves to: the names it
/// lists, together with the baseline crate.
pub open spec fn resolved_set(found: Option<Seq<Seq<char>>>) -> Set<Seq<char>> {
    (match found {
        Some(l) => l.to_set(),
        None => Set::<Seq<char>>::empty(),
    }).insert(baseline())
}

/// Result of looking the target up in the configuration text: `None` when the
/// text is not well-formed configuration or has no such entry, otherwise the
/// listed crate names.  The text alone determines the outcome.
pub uninterp spec fn toml_crates_of(text: Seq<char>, target: Seq<char>) -> Option<Seq<Seq<char>>>;

/// Relies on `toml::Table::from_str` to parse the configuration text and on
/// `toml::Table::get` / `toml::Value::get` / `as_array` / `as_str` to read
/// the `crates` list of `[target.<name>]`: the outcome is a function of the
/// two strings alone.
#[verifier::external_body]
fn lookup_target_crates(text: &str, target: &str) -> (r: Option<Vec<String>>)
    ensures
        (match r {
            Some(v) => Some(views(v@)),
            None => None,
        }) == toml_crates_of(text@, target@),
{
    let table: toml::Table = match text.parse() {
        Ok(v) => v,
        Err(_) => return None,
    };
    let list = table.get("target")?.get(target)?.get("crates")?.as_array()?;
    let mut out: Vec<String> = Vec::new();
    for item in list {
        out.push(item.as_str()?.to_owned());
    }
    Some(out)
}

/// Inserts a name into a strictly sorted list, keeping it strictly sorted;
/// a name already present is left alone.
fn insert_sorted(v: &mut Vec<String>, x: String)
    requires
        strictly_sorted(views(old(v)@)),
    ensures
        strictly_sorted(views(final(v)@)),
        views(final(v)@).to_set() == views(old(v)@).to_set().insert(x@),
{
    let ghost vs = views(v@);
    let mut idx: usize = 0;
    while idx < v.len() && str_lt_string(&v[idx], &x)
        invariant
            vs == views(v@),
            strictly_sorted(vs),
            0 <= idx <= v@.len(),
            forall|j: int| 0 <= j < idx ==> lex_lt(vs[j], x@),
        decreases v@.len() - idx,
    {
        idx = idx + 1;
    }
    if idx < v.len() && v[idx] == x {
        proof {
            assert(vs.to_set().contains(x@)) by {
                assert(vs[idx as int] == x@);
                assert(vs.contains(x@));
            }
            assert(vs.to_set() =~= vs.to_set().insert(x@));
        }
        return;
    }
    proof {
        if idx < vs.len() {
            assert(!lex_lt(vs[idx as int], x@));
            if !lex_lt(x@, vs[idx as int]) {
                lemma_lex_lt_connected(x@, vs[idx as int]);
                assert(false);
            }
        }
    }
    v.insert(idx, x);
    proof {
        let ws = views(v@);
        assert(ws =~= vs.insert(idx as int, x@));
        assert forall|i: int, j: int| 0 <= i < j < ws.len() implies lex_lt(ws[i], ws[j]) by {
            if i < idx && j == idx {
            } else if i == idx && j > idx {
                if idx < vs.len() {
                    if j > idx + 1 {
                        assert(lex_lt(vs[idx as int], vs[j - 1]));
                        lemma_lex_lt_trans(x@, vs[idx as int], vs[j - 1]);
                    }
                }
            } else if i < idx && j > idx {
                assert(lex_lt(ws[i], x@));
                if idx < vs.len() {
                    if j == idx + 1 {
                        lemma_lex_lt_trans(ws[i], x@, vs[idx as int]);
                    } else {
                        lemma_lex_lt_trans(ws[i], x@, vs[idx as int]);
                        lemma_lex_lt_trans(ws[i], vs[idx as int], vs[j - 1]);
                    }
                }
            } else {
            }
        }
        assert forall|e: Seq<char>|
            ws.to_set().contains(e) <==> vs.to_set().contains(e) || e == x@ by {
            if ws.contains(e) {
                let k = choose|k: int| 0 <= k < ws.len() && ws[k] == e;
                if k < idx {
                    assert(vs[k] == e);
                    assert(vs.contains(e));
                } else if k > idx {
                    assert(vs[k - 1] == e);
                    assert(vs.contains(e));
                } else {
                    assert(e == x@);
                }
            }
            if vs.contains(e) {
                let k = choose|k: int| 0 <= k < vs.len() && vs[k] == e;
                if k < idx {
                    assert(ws[k] == e);
                } else {
                    assert(ws[k + 1] == e);
                }
                assert(ws.contains(e));
            }
            if e == x@ {
                assert(ws[idx as int] == e);
                assert(ws.contains(e));
            }
        }
        assert(ws.to_set() =~= vs.to_set().insert(x@));
    }
}

/// `str_lt` lifted to `String`.
fn str_lt_string(a: &String, b: &String) -> (r: bool)
    ensures
        r == lex_lt(a@, b@),
{
    crate::strutil::str_lt(a.as_str(), b.as_str())
}

/// Turns the names a configuration entry listed (or nothing) into the final
/// crate list: the baseline crate joined in, sorted, without duplicates.
pub fn resolve_crates(found: Option<Vec<String>>) -> (r: Vec<String>)
    ensures
        strictly_sorted(views(r@)),
        views(r@).to_set() == resolved_set(match found {
            Some(l) => Some(views(l@)),
            None => None,
        }),
{
    let mut out: Vec<String> = Vec::new();
    proof {
        assert(views(out@) =~= Seq::<Seq<char>>::empty());
        assert(views(out@).to_set() =~= Set::<Seq<char>>::empty());
    }
    match found {
        None => {
            insert_sorted(&mut out, "core".to_owned());
            proof {
                assert(views(out@).to_set() =~= resolved_set(None));
            }
            out
        },
        Some(l) => {
            let ghost lv = views(l@);
            let mut i: usize = 0;
            while i < l.len()
                invariant
                    lv == views(l@),
                    0 <= i <= l@.len(),
                    strictly_sorted(views(out@)),
                    views(out@).to_set() == lv.take(i as int).to_set(),
                decreases l@.len() - i,
            {
                let name = l[i].clone();
                insert_sorted(&mut out, name);
                proof {
                    assert(lv.take(i + 1) =~= lv.take(i as int).push(lv[i as int]));
                    lemma_to_set_push(lv.take(i as int), lv[i as int]);
                }
                i = i + 1;
            }
            insert_sorted(&mut out, "core".to_owned());
            proof {
                assert(lv.take(l@.len() as int) =~= lv);
                assert(views(out@).to_set() =~= resolved_set(Some(lv)));
            }
            out
        },
    }
}

/// The set of a sequence grows by exactly the pushed element.
proof fn lemma_to_set_push(s: Seq<Seq<char>>, x: Seq<char>)
    ensures
        s.push(x).to_set() == s.to_set().insert(x),
{
    assert forall|e: Seq<char>|
        s.push(x).to_set().contains(e) <==> s.to_set().contains(e) || e == x by {
        if s.push(x).contains(e) {
            let k = choose|k: int| 0 <= k < s.push(x).len() && s.push(x)[k] == e;
            if k < s.len() {
                assert(s[k] == e);
                assert(s.contains(e));
            } else {
                assert(e == x);
            }
        }
        if s.contains(e) {
            let k = choose|k: int| 0 <= k < s.len() && s[k] == e;
            assert(s.push(x)[k] == e);
            assert(s.push(x).contains(e));
        }
        if e == x {
            assert(s.push(x)[s.len() as int] == e);
            assert(s.push(x).contains(e));
        }
        assert(s.to_set().insert(x).contains(e) == (s.to_set().contains(e) || e == x));
    }
    assert forall|e: Seq<char>|
        s.push(x).to_set().contains(e) == s.to_set().insert(x).contains(e) by {
        assert(s.to_set().insert(x).contains(e) == (s.to_set().contains(e) || e == x));
    }
    assert(s.push(x).to_set() =~= s.to_set().insert(x));
}

/// The optional text of the configuration file, as the run found it.
pub struct Config {
    pub text: Option<String>,
}

impl Config {
    /// A configuration backed by the given file text, or by nothing.
    pub fn from_text(text: Option<String>) -> (c: Config)
        ensures
            c.text == text,
    {
        Config { text }
    }

    /// What the configuration resolves to for one target.
    pub open spec fn crate_set(self, target: Seq<char>) -> Set<Seq<char>> {
        resolved_set(match self.text {
            Some(t) => toml_crates_of(t@, target),
            None => None,
        })
    }

    /// The crates to build for `target`: the configured names for that target
    /// (none, when the file is absent, malformed or silent about the target)
    /// plus the baseline crate, sorted and deduplicated.
    pub fn crates(&self, target: &str) -> (r: Vec<String>)
        ensures
            strictly_sorted(views(r@)),
            views(r@).to_set() == self.crate_set(target@),
            views(r@).to_set().contains(baseline()),
    {
        let found = match &self.text {
            Some(t) => lookup_target_crates(t.as_str(), target),
            None => None,
        };
        proof {
            let fv = match &found {
                Some(v) => Some(views(v@)),
                None => None,
            };
            assert(resolved_set(fv) == self.crate_set(target@));
        }
        resolve_crates(found)
    }
}

/// The resolved crate list always contains the baseline crate, whatever was
/// configured.
pub proof fn lemma_baseline_always_resolved(found: Option<Seq<Seq<char>>>)
    ensures
        resolved_set(found).contains(baseline()),
{
}

/// A strictly sorted list holds each name exactly once: the baseline crate,
/// like every other entry, never appears twice.
pub proof fn lemma_strictly_sorted_unique(s: Seq<Seq<char>>)
    requires
        strictly_sorted(s),
    ensures
        forall|i: int, j: int| 0 <= i < j < s.len() ==> s[i] != s[j],
{
    assert forall|i: int, j: int| 0 <= i < j < s.len() implies s[i] != s[j] by {
        if s[i] == s[j] {
            assert(lex_lt(s[i], s[j]));
            lemma_lex_lt_irrefl(s[i]);
        }
    }
}

} // verus!
