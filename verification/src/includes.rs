//! Quote-include extraction and transitive header resolution.
//!
//! The surrounding binary reads files and hands their text here; a snapshot
//! of every inspected file's direct quote-includes (`FileEntry`) is the sole
//! input of resolution. Resolution is memoized per target through a cache
//! keyed by the raw include string, and an in-progress set breaks mutual
//! include cycles.

use vstd::prelude::*;
use vstd::string::*;
use itertools::Itertools;
use crate::strutil::svs;
use crate::strutil::spec_take_until;
use crate::strutil::spec_starts_with;
use crate::strutil::lemma_take_until_at;
use crate::strutil::find_char;
use crate::strutil::str_starts_with;
use crate::strutil::concat3;
use crate::strutil::contains_string;
use crate::strutil::clone_string_vec;

verus! {

/// One inspected file: its path and the include targets that its text
/// declares directly, in file order.
#[derive(Debug, Clone)]
pub struct FileEntry {
    pub path: String,
    pub includes: Vec<String>,
}

/// One memoized resolution: an include string and the transitive headers it
/// reaches, itself last.
#[derive(Debug, Clone)]
pub struct CacheEntry {
    pub sub: String,
    pub headers: Vec<String>,
}

/// Resolution failure. A file that cannot be found in the snapshot makes
/// every build decision untrustworthy, so it is fatal.
#[derive(Debug)]
pub enum ResolveError {
    MissingFile(String),
    DepthExceeded,
}

/// Spec-level image of a `ResolveError`.
pub enum ResolveErrM {
    MissingFile(Seq<char>),
    DepthExceeded,
}

pub open spec fn err_model(e: ResolveError) -> ResolveErrM {
    match e {
        ResolveError::MissingFile(p) => ResolveErrM::MissingFile(p@),
        ResolveError::DepthExceeded => ResolveErrM::DepthExceeded,
    }
}

/// A snapshot or cache as a sequence of key/value pairs of character
/// sequences.
pub open spec fn fs_model(s: Seq<FileEntry>) -> Seq<(Seq<char>, Seq<Seq<char>>)> {
    Seq::new(s.len(), |i: int| (s[i].path@, svs(s[i].includes@)))
}

pub open spec fn cache_model(s: Seq<CacheEntry>) -> Seq<(Seq<char>, Seq<Seq<char>>)> {
    Seq::new(s.len(), |i: int| (s[i].sub@, svs(s[i].headers@)))
}

/// First-match lookup in a key/value sequence.
pub open spec fn spec_lookup(m: Seq<(Seq<char>, Seq<Seq<char>>)>, key: Seq<char>) -> Option<
    Seq<Seq<char>>,
>
    decreases m.len(),
{
    if m.len() == 0 {
        None
    } else if m[0].0 == key {
        Some(m[0].1)
    } else {
        spec_lookup(m.drop_first(), key)
    }
}

/// The direct includes recorded for `key`, or `None` when the snapshot
/// holds no entry for it.
pub fn lookup_includes<'a>(entries: &'a Vec<FileEntry>, key: &String) -> (r: Option<
    &'a Vec<String>,
>)
    ensures
        match r {
            Some(v) => spec_lookup(fs_model(entries@), key@) == Some(svs(v@)),
            None => spec_lookup(fs_model(entries@), key@) is None,
        },
{
    let ghost m = fs_model(entries@);
    let mut i: usize = 0;
    proof {
        assert(m.skip(0) =~= m);
    }
    while i < entries.len()
        invariant
            i <= entries.len(),
            m == fs_model(entries@),
            m.len() == entries@.len(),
            spec_lookup(m, key@) == spec_lookup(m.skip(i as int), key@),
        decreases entries.len() - i,
    {
        if entries[i].path == *key {
            proof {
                assert(m.skip(i as int)[0] == m[i as int]);
            }
            return Some(&entries[i].includes);
        }
        proof {
            assert(m.skip(i as int)[0] == m[i as int]);
            assert(m.skip(i as int).drop_first() =~= m.skip(i + 1 as int));
        }
        i += 1;
    }
    proof {
        assert(m.skip(entries@.len() as int) =~= Seq::<(Seq<char>, Seq<Seq<char>>)>::empty());
    }
    None
}

fn cache_lookup<'a>(cache: &'a Vec<CacheEntry>, sub: &String) -> (r: Option<&'a Vec<String>>)
    ensures
        match r {
            Some(v) => spec_lookup(cache_model(cache@), sub@) == Some(svs(v@)),
            None => spec_lookup(cache_model(cache@), sub@) is None,
        },
{
    let ghost m = cache_model(cache@);
    let mut i: usize = 0;
    proof {
        assert(m.skip(0) =~= m);
    }
    while i < cache.len()
        invariant
            i <= cache.len(),
            m == cache_model(cache@),
            m.len() == cache@.len(),
            spec_lookup(m, sub@) == spec_lookup(m.skip(i as int), sub@),
        decreases cache.len() - i,
    {
        if cache[i].sub == *sub {
            proof {
                assert(m.skip(i as int)[0] == m[i as int]);
            }
            return Some(&cache[i].headers);
        }
        proof {
            assert(m.skip(i as int)[0] == m[i as int]);
            assert(m.skip(i as int).drop_first() =~= m.skip(i + 1 as int));
        }
        i += 1;
    }
    proof {
        assert(m.skip(cache@.len() as int) =~= Seq::<(Seq<char>, Seq<Seq<char>>)>::empty());
    }
    None
}

/// Resolution of one include string: a cycle hit yields nothing, a cache
/// hit yields the memoized list, otherwise the include's own includes are
/// resolved first and the include itself comes last, and the completed list
/// is memoized. Returns the produced list together with the grown cache.
pub open spec fn spec_resolve_sub(
    fs: Seq<(Seq<char>, Seq<Seq<char>>)>,
    inc_dir: Seq<char>,
    sub: Seq<char>,
    in_prog: Seq<Seq<char>>,
    cache: Seq<(Seq<char>, Seq<Seq<char>>)>,
    fuel: nat,
) -> (Result<Seq<Seq<char>>, ResolveErrM>, Seq<(Seq<char>, Seq<Seq<char>>)>)
    decreases fuel, 0nat,
{
    if in_prog.contains(sub) {
        (Ok(Seq::empty()), cache)
    } else {
        match spec_lookup(cache, sub) {
            Some(hs) => (Ok(hs), cache),
            None => {
                let hpath = inc_dir + "/"@ + sub;
                match spec_lookup(fs, hpath) {
                    None => (Err(ResolveErrM::MissingFile(hpath)), cache),
                    Some(children) => {
                        if fuel == 0 {
                            (Err(ResolveErrM::DepthExceeded), cache)
                        } else {
                            let r = spec_resolve_list(
                                fs,
                                inc_dir,
                                children,
                                in_prog.push(sub),
                                cache,
                                (fuel - 1) as nat,
                            );
                            match r.0 {
                                Err(e) => (Err(e), r.1),
                                Ok(hs) => {
                                    let full = hs.push(hpath);
                                    (Ok(full), r.1.push((sub, full)))
                                },
                            }
                        }
                    },
                }
            },
        }
    }
}

/// Resolution of a list of include strings, left to right, threading the
/// cache and concatenating the produced lists.
pub open spec fn spec_resolve_list(
    fs: Seq<(Seq<char>, Seq<Seq<char>>)>,
    inc_dir: Seq<char>,
    subs: Seq<Seq<char>>,
    in_prog: Seq<Seq<char>>,
    cache: Seq<(Seq<char>, Seq<Seq<char>>)>,
    fuel: nat,
) -> (Result<Seq<Seq<char>>, ResolveErrM>, Seq<(Seq<char>, Seq<Seq<char>>)>)
    decreases fuel, subs.len() + 1,
{
    if subs.len() == 0 {
        (Ok(Seq::empty()), cache)
    } else {
        let r0 = spec_resolve_sub(fs, inc_dir, subs[0], in_prog, cache, fuel);
        match r0.0 {
            Err(e) => (Err(e), r0.1),
            Ok(h0) => {
                let r1 = spec_resolve_list(fs, inc_dir, subs.drop_first(), in_prog, r0.1, fuel);
                match r1.0 {
                    Err(e) => (Err(e), r1.1),
                    Ok(h1) => (Ok(h0 + h1), r1.1),
                }
            },
        }
    }
}

/// First-seen-order deduplication.
pub open spec fn spec_dedup_from(s: Seq<Seq<char>>, seen: Seq<Seq<char>>) -> Seq<Seq<char>>
    decreases s.len(),
{
    if s.len() == 0 {
        Seq::empty()
    } else if seen.contains(s[0]) {
        spec_dedup_from(s.drop_first(), seen)
    } else {
        seq![s[0]] + spec_dedup_from(s.drop_first(), seen.push(s[0]))
    }
}

pub open spec fn spec_dedup(s: Seq<Seq<char>>) -> Seq<Seq<char>> {
    spec_dedup_from(s, Seq::empty())
}

/// The full resolution of one source file: its own includes resolved in
/// order against the cache, the result deduplicated first-seen-first.
pub open spec fn spec_resolve_source(
    fs: Seq<(Seq<char>, Seq<Seq<char>>)>,
    inc_dir: Seq<char>,
    src_path: Seq<char>,
    cache: Seq<(Seq<char>, Seq<Seq<char>>)>,
    fuel: nat,
) -> (Result<Seq<Seq<char>>, ResolveErrM>, Seq<(Seq<char>, Seq<Seq<char>>)>) {
    match spec_lookup(fs, src_path) {
        None => (Err(ResolveErrM::MissingFile(src_path)), cache),
        Some(subs) => {
            let r = spec_resolve_list(fs, inc_dir, subs, Seq::empty(), cache, fuel);
            match r.0 {
                Err(e) => (Err(e), r.1),
                Ok(hs) => (Ok(spec_dedup(hs)), r.1),
            }
        },
    }
}

/// Relies on itertools::Itertools::unique: it yields the iterator's
/// elements in order, keeping only the first occurrence of each element,
/// compared by equality.
#[verifier::external_body]
fn unique_strings(v: Vec<String>) -> (r: Vec<String>)
    ensures
        svs(r@) == spec_dedup(svs(v@)),
{
    v.into_iter().unique().collect()
}

fn resolve_sub(
    entries: &Vec<FileEntry>,
    inc_dir: &str,
    sub: &String,
    in_prog: &Vec<String>,
    cache: &mut Vec<CacheEntry>,
    fuel: usize,
) -> (r: Result<Vec<String>, ResolveError>)
    ensures
        ({
            let sr = spec_resolve_sub(
                fs_model(entries@),
                inc_dir@,
                sub@,
                svs(in_prog@),
                cache_model(old(cache)@),
                fuel as nat,
            );
            cache_model(final(cache)@) == sr.1 && (match r {
                Ok(v) => sr.0 == Ok::<Seq<Seq<char>>, ResolveErrM>(svs(v@)),
                Err(e) => sr.0 is Err && err_model(e) == sr.0->Err_0,
            })
        }),
    decreases fuel, 0int,
{
    let ghost sr = spec_resolve_sub(
        fs_model(entries@),
        inc_dir@,
        sub@,
        svs(in_prog@),
        cache_model(cache@),
        fuel as nat,
    );
    if contains_string(in_prog, sub) {
        proof {
            assert(svs(Seq::<String>::empty()) =~= Seq::<Seq<char>>::empty());
        }
        let r: Vec<String> = Vec::new();
        proof {
            assert(svs(r@) =~= Seq::<Seq<char>>::empty());
        }
        return Ok(r);
    }
    let hit = cache_lookup(cache, sub);
    match hit {
        Some(hs) => {
            let out = clone_string_vec(hs);
            return Ok(out);
        },
        None => {},
    }
    let hpath = concat3(inc_dir, "/", sub.as_str());
    match lookup_includes(entries, &hpath) {
        None => Err(ResolveError::MissingFile(hpath)),
        Some(children) => {
            if fuel == 0 {
                return Err(ResolveError::DepthExceeded);
            }
            let mut ip2 = clone_string_vec(in_prog);
            ip2.push(sub.clone());
            proof {
                assert(svs(ip2@) =~= svs(in_prog@).push(sub@));
                assert(svs(children@).skip(0) =~= svs(children@));
            }
            match resolve_list(entries, inc_dir, children, 0, &ip2, cache, fuel - 1) {
                Err(e) => Err(e),
                Ok(hs) => {
                    let mut out = hs;
                    let ghost out0 = svs(out@);
                    out.push(hpath.clone());
                    proof {
                        assert(svs(out@) =~= out0.push(hpath@));
                    }
                    let hdrs = clone_string_vec(&out);
                    let ghost cm0 = cache_model(cache@);
                    cache.push(CacheEntry { sub: sub.clone(), headers: hdrs });
                    proof {
                        assert(cache_model(cache@) =~= cm0.push((sub@, svs(out@))));
                    }
                    Ok(out)
                },
            }
        },
    }
}

fn resolve_list(
    entries: &Vec<FileEntry>,
    inc_dir: &str,
    subs: &Vec<String>,
    k: usize,
    in_prog: &Vec<String>,
    cache: &mut Vec<CacheEntry>,
    fuel: usize,
) -> (r: Result<Vec<String>, ResolveError>)
    requires
        k <= subs@.len(),
    ensures
        ({
            let sr = spec_resolve_list(
                fs_model(entries@),
                inc_dir@,
                svs(subs@).skip(k as int),
                svs(in_prog@),
                cache_model(old(cache)@),
                fuel as nat,
            );
            cache_model(final(cache)@) == sr.1 && (match r {
                Ok(v) => sr.0 == Ok::<Seq<Seq<char>>, ResolveErrM>(svs(v@)),
                Err(e) => sr.0 is Err && err_model(e) == sr.0->Err_0,
            })
        }),
    decreases fuel, subs@.len() - k + 1,
{
    let ghost rest = svs(subs@).skip(k as int);
    if k == subs.len() {
        proof {
            assert(rest =~= Seq::<Seq<char>>::empty());
        }
        let r: Vec<String> = Vec::new();
        proof {
            assert(svs(r@) =~= Seq::<Seq<char>>::empty());
        }
        return Ok(r);
    }
    proof {
        assert(rest[0] == svs(subs@)[k as int]);
        assert(rest.drop_first() =~= svs(subs@).skip(k + 1 as int));
    }
    let sub = &subs[k];
    match resolve_sub(entries, inc_dir, sub, in_prog, cache, fuel) {
        Err(e) => Err(e),
        Ok(h0) => {
            match resolve_list(entries, inc_dir, subs, k + 1, in_prog, cache, fuel) {
                Err(e) => Err(e),
                Ok(h1) => {
                    let mut out = h0;
                    let mut tail = h1;
                    let ghost a = svs(out@);
                    let ghost b = svs(tail@);
                    out.append(&mut tail);
                    proof {
                        assert(svs(out@) =~= a + b);
                    }
                    Ok(out)
                },
            }
        },
    }
}

/// Resolves the full transitive header set of one source file, growing the
/// target's cache; the result holds each header exactly once, dependencies
/// before dependents, in first-seen order.
pub fn resolve_source(
    entries: &Vec<FileEntry>,
    inc_dir: &str,
    src_path: &String,
    cache: &mut Vec<CacheEntry>,
) -> (r: Result<Vec<String>, ResolveError>)
    requires
        entries@.len() < usize::MAX,
    ensures
        ({
            let sr = spec_resolve_source(
                fs_model(entries@),
                inc_dir@,
                src_path@,
                cache_model(old(cache)@),
                (entries@.len() + 1) as nat,
            );
            cache_model(final(cache)@) == sr.1 && (match r {
                Ok(v) => sr.0 == Ok::<Seq<Seq<char>>, ResolveErrM>(svs(v@)),
                Err(e) => sr.0 is Err && err_model(e) == sr.0->Err_0,
            })
        }),
{
    let fuel = entries.len() + 1;
    match lookup_includes(entries, src_path) {
        None => Err(ResolveError::MissingFile(src_path.clone())),
        Some(subs) => {
            let ip: Vec<String> = Vec::new();
            proof {
                assert(svs(ip@) =~= Seq::<Seq<char>>::empty());
                assert(svs(subs@).skip(0) =~= svs(subs@));
            }
            match resolve_list(entries, inc_dir, subs, 0, &ip, cache, fuel) {
                Err(e) => Err(e),
                Ok(hs) => Ok(unique_strings(hs)),
            }
        },
    }
}

/// A line declares a quote-include when it starts with `#include "`.
pub open spec fn spec_is_include_line(l: Seq<char>) -> bool {
    spec_starts_with(l, "#include \""@)
}

/// The declared target: the characters between the quotes, or to the end
/// of the line when the closing quote is missing.
pub open spec fn spec_include_of_line(l: Seq<char>) -> Seq<char> {
    spec_take_until(l.skip("#include \""@.len() as int), '"')
}

/// The first line of `s`: up to the first newline, a trailing carriage
/// return stripped.
pub open spec fn spec_first_line(s: Seq<char>) -> Seq<char> {
    let l = spec_take_until(s, '\n');
    if l.len() > 0 && l.last() == '\r' {
        l.drop_last()
    } else {
        l
    }
}

/// The ordered quote-include targets of a file's text; angle-bracket
/// includes are deliberately not collected.
pub open spec fn spec_extract_includes(s: Seq<char>) -> Seq<Seq<char>>
    decreases s.len(),
    via spec_extract_includes_dec
{
    if s.len() == 0 {
        Seq::empty()
    } else {
        let l = spec_take_until(s, '\n');
        let line = spec_first_line(s);
        let this = if spec_is_include_line(line) {
            seq![spec_include_of_line(line)]
        } else {
            Seq::<Seq<char>>::empty()
        };
        if l.len() < s.len() {
            this + spec_extract_includes(s.skip(l.len() as int + 1))
        } else {
            this
        }
    }
}

#[via_fn]
proof fn spec_extract_includes_dec(s: Seq<char>) {
    crate::strutil::lemma_take_until_le(s, '\n');
}

/// Scans one file's text for `#include "..."` lines and returns the
/// referenced targets, in file order.
pub fn extract_includes(text: &str) -> (r: Vec<String>)
    ensures
        svs(r@) == spec_extract_includes(text@),
    decreases text@.len(),
{
    let n = text.unicode_len();
    let mut out: Vec<String> = Vec::new();
    if n == 0 {
        proof {
            assert(svs(out@) =~= Seq::<Seq<char>>::empty());
        }
        return out;
    }
    let k = find_char(text, '\n');
    proof {
        lemma_take_until_at(text@, '\n', k as int);
    }
    let mut line_end = k;
    if k > 0 && text.get_char(k - 1) == '\r' {
        line_end = k - 1;
    }
    let line = text.substring_char(0, line_end);
    proof {
        let l = spec_take_until(text@, '\n');
        assert(l == text@.take(k as int));
        if k > 0 && text@[k - 1] == '\r' {
            assert(text@.subrange(0, line_end as int) =~= l.drop_last());
        } else {
            assert(text@.subrange(0, line_end as int) =~= l);
        }
        assert(line@ == spec_first_line(text@));
    }
    let pfx = "#include \"";
    if str_starts_with(line, pfx) {
        let pl = pfx.unicode_len();
        let ll = line.unicode_len();
        let rest = line.substring_char(pl, ll);
        let q = find_char(rest, '"');
        proof {
            assert(rest@ =~= line@.skip(pl as int));
            lemma_take_until_at(rest@, '"', q as int);
        }
        let inc = rest.substring_char(0, q).to_owned();
        out.push(inc);
        proof {
            assert(rest@.subrange(0, q as int) == rest@.take(q as int));
            assert(svs(out@) =~= seq![spec_include_of_line(line@)]);
        }
    } else {
        proof {
            assert(svs(out@) =~= Seq::<Seq<char>>::empty());
        }
    }
    let ghost this = svs(out@);
    if k < n {
        let restall = text.substring_char(k + 1, n);
        proof {
            assert(restall@ =~= text@.skip(k + 1 as int));
        }
        let mut tail = extract_includes(restall);
        let ghost b = svs(tail@);
        out.append(&mut tail);
        proof {
            assert(svs(out@) =~= this + b);
        }
    }
    out
}

/// Seq contains unfolds over the head and tail.
proof fn lemma_contains_unfold(s: Seq<Seq<char>>, x: Seq<char>)
    requires
        s.len() > 0,
    ensures
        s.contains(x) <==> (s[0] == x || s.drop_first().contains(x)),
{
    if s.contains(x) {
        let i = choose|i: int| 0 <= i < s.len() && s[i] == x;
        if i > 0 {
            assert(s.drop_first()[i - 1] == x);
        }
    }
    if s.drop_first().contains(x) {
        let i = choose|i: int| 0 <= i < s.drop_first().len() && s.drop_first()[i] == x;
        assert(s[i + 1] == x);
    }
}

proof fn lemma_push_contains(s: Seq<Seq<char>>, y: Seq<char>, x: Seq<char>)
    ensures
        s.push(y).contains(x) <==> (s.contains(x) || x == y),
{
    if s.push(y).contains(x) {
        let i = choose|i: int| 0 <= i < s.push(y).len() && s.push(y)[i] == x;
        if i < s.len() {
            assert(s[i] == x);
        }
    }
    if s.contains(x) {
        let i = choose|i: int| 0 <= i < s.len() && s[i] == x;
        assert(s.push(y)[i] == x);
    }
    if x == y {
        assert(s.push(y)[s.len() as int] == x);
    }
}

/// Deduplication keeps exactly the unseen elements and never repeats one.
pub proof fn lemma_dedup_from_props(s: Seq<Seq<char>>, seen: Seq<Seq<char>>)
    ensures
        forall|x: Seq<char>|
            #[trigger] spec_dedup_from(s, seen).contains(x) <==> (s.contains(x) && !seen.contains(
                x,
            )),
        spec_dedup_from(s, seen).no_duplicates(),
    decreases s.len(),
{
    if s.len() == 0 {
        assert forall|x: Seq<char>| !spec_dedup_from(s, seen).contains(x) by {
            if spec_dedup_from(s, seen).contains(x) {
                let i = choose|i: int|
                    0 <= i < spec_dedup_from(s, seen).len() && spec_dedup_from(s, seen)[i] == x;
            }
        }
        assert forall|x: Seq<char>| !s.contains(x) by {
            if s.contains(x) {
                let i = choose|i: int| 0 <= i < s.len() && s[i] == x;
            }
        }
    } else if seen.contains(s[0]) {
        lemma_dedup_from_props(s.drop_first(), seen);
        assert forall|x: Seq<char>|
            #[trigger] spec_dedup_from(s, seen).contains(x) <==> (s.contains(x) && !seen.contains(
                x,
            )) by {
            lemma_contains_unfold(s, x);
        }
    } else {
        lemma_dedup_from_props(s.drop_first(), seen.push(s[0]));
        let d = spec_dedup_from(s.drop_first(), seen.push(s[0]));
        let whole = spec_dedup_from(s, seen);
        assert(whole == seq![s[0]] + d);
        assert forall|x: Seq<char>| #[trigger] whole.contains(x) <==> (s.contains(x)
            && !seen.contains(x)) by {
            lemma_contains_unfold(s, x);
            lemma_contains_unfold(whole, x);
            lemma_push_contains(seen, s[0], x);
            assert(whole[0] == s[0]);
            assert(whole.drop_first() =~= d);
        }
        assert(whole.no_duplicates()) by {
            assert(whole[0] == s[0]);
            assert(whole.drop_first() =~= d);
            lemma_push_contains(seen, s[0], s[0]);
            assert(!d.contains(s[0]));
            assert forall|i: int, j: int| 0 <= i < whole.len() && 0 <= j < whole.len() && i != j
                implies whole[i] != whole[j] by {
                if i > 0 && j > 0 {
                    assert(whole[i] == d[i - 1]);
                    assert(whole[j] == d[j - 1]);
                } else if i == 0 && j > 0 {
                    assert(whole[j] == d[j - 1]);
                    assert(d.contains(d[j - 1]));
                } else if j == 0 && i > 0 {
                    assert(whole[i] == d[i - 1]);
                    assert(d.contains(d[i - 1]));
                }
            }
        }
    }
}

/// A header reachable along several include paths from one source appears
/// exactly once in the resolved set.
pub proof fn lemma_resolved_no_duplicates(
    fs: Seq<(Seq<char>, Seq<Seq<char>>)>,
    inc_dir: Seq<char>,
    src_path: Seq<char>,
    cache: Seq<(Seq<char>, Seq<Seq<char>>)>,
    fuel: nat,
)
    ensures
        ({
            let r = spec_resolve_source(fs, inc_dir, src_path, cache, fuel).0;
            r matches Ok(hs) ==> hs.no_duplicates()
        }),
{
    match spec_lookup(fs, src_path) {
        None => {},
        Some(subs) => {
            let r = spec_resolve_list(fs, inc_dir, subs, Seq::empty(), cache, fuel);
            match r.0 {
                Err(_) => {},
                Ok(hs) => {
                    lemma_dedup_from_props(hs, Seq::empty());
                },
            }
        },
    }
}

/// No two cache entries share a key.
pub open spec fn cache_keys_unique(m: Seq<(Seq<char>, Seq<Seq<char>>)>) -> bool {
    forall|i: int, j: int| 0 <= i < j < m.len() ==> m[i].0 != m[j].0
}

/// Nothing under resolution is already memoized.
pub open spec fn in_prog_uncached(
    m: Seq<(Seq<char>, Seq<Seq<char>>)>,
    in_prog: Seq<Seq<char>>,
) -> bool {
    forall|k: Seq<char>| #[trigger] in_prog.contains(k) ==> spec_lookup(m, k) is None
}

proof fn lemma_lookup_none(m: Seq<(Seq<char>, Seq<Seq<char>>)>, k: Seq<char>)
    requires
        spec_lookup(m, k) is None,
    ensures
        forall|i: int| 0 <= i < m.len() ==> m[i].0 != k,
    decreases m.len(),
{
    if m.len() == 0 {
    } else {
        lemma_lookup_none(m.drop_first(), k);
        assert forall|i: int| 0 <= i < m.len() implies m[i].0 != k by {
            if i > 0 {
                assert(m.drop_first()[i - 1] == m[i]);
            }
        }
    }
}

proof fn lemma_lookup_push_none(
    m: Seq<(Seq<char>, Seq<Seq<char>>)>,
    p: (Seq<char>, Seq<Seq<char>>),
    k: Seq<char>,
)
    requires
        spec_lookup(m, k) is None,
        p.0 != k,
    ensures
        spec_lookup(m.push(p), k) is None,
    decreases m.len(),
{
    if m.len() == 0 {
        assert(m.push(p)[0] == p);
        assert(m.push(p).drop_first() =~= Seq::<(Seq<char>, Seq<Seq<char>>)>::empty());
        assert(spec_lookup(m.push(p).drop_first(), k) is None);
    } else {
        assert(m[0].0 != k);
        assert(spec_lookup(m.drop_first(), k) is None);
        lemma_lookup_push_none(m.drop_first(), p, k);
        assert(m.push(p)[0] == m[0]);
        assert(m.push(p).drop_first() =~= m.drop_first().push(p));
        assert(spec_lookup(m.push(p), k) == spec_lookup(m.push(p).drop_first(), k));
    }
}

/// Resolution memoizes each include string at most once: the cache's keys
/// stay unique, and nothing under resolution is memoized until its own
/// resolution completes — so a repeated (diamond) reference is answered
/// from the cache instead of being computed again.
pub proof fn lemma_resolve_sub_cache_unique(
    fs: Seq<(Seq<char>, Seq<Seq<char>>)>,
    inc_dir: Seq<char>,
    sub: Seq<char>,
    in_prog: Seq<Seq<char>>,
    cache: Seq<(Seq<char>, Seq<Seq<char>>)>,
    fuel: nat,
)
    requires
        cache_keys_unique(cache),
        in_prog_uncached(cache, in_prog),
    ensures
        ({
            let r = spec_resolve_sub(fs, inc_dir, sub, in_prog, cache, fuel);
            cache_keys_unique(r.1) && in_prog_uncached(r.1, in_prog)
        }),
    decreases fuel, 0nat,
{
    if in_prog.contains(sub) {
    } else {
        match spec_lookup(cache, sub) {
            Some(_) => {},
            None => {
                let hpath = inc_dir + "/"@ + sub;
                match spec_lookup(fs, hpath) {
                    None => {},
                    Some(children) => {
                        if fuel == 0 {
                        } else {
                            let ip1 = in_prog.push(sub);
                            assert forall|k: Seq<char>| ip1.contains(k) implies spec_lookup(cache, k) is None by {
                                lemma_push_contains(in_prog, sub, k);
                            }
                            lemma_resolve_list_cache_unique(
                                fs,
                                inc_dir,
                                children,
                                ip1,
                                cache,
                                (fuel - 1) as nat,
                            );
                            let r = spec_resolve_list(
                                fs,
                                inc_dir,
                                children,
                                ip1,
                                cache,
                                (fuel - 1) as nat,
                            );
                            match r.0 {
                                Err(_) => {
                                    assert forall|k: Seq<char>| in_prog.contains(k) implies
                                        spec_lookup(r.1, k) is None by {
                                        lemma_push_contains(in_prog, sub, k);
                                        assert(ip1.contains(k));
                                    }
                                },
                                Ok(hs) => {
                                    let full = hs.push(hpath);
                                    let entry = (sub, full);
                                    assert(ip1.contains(sub)) by {
                                        lemma_push_contains(in_prog, sub, sub);
                                    }
                                    assert(spec_lookup(r.1, sub) is None);
                                    lemma_lookup_none(r.1, sub);
                                    assert forall|i: int, j: int|
                                        0 <= i < j < r.1.push(entry).len() implies r.1.push(
                                        entry,
                                    )[i].0 != r.1.push(entry)[j].0 by {
                                        if j < r.1.len() {
                                            assert(r.1.push(entry)[i] == r.1[i]);
                                            assert(r.1.push(entry)[j] == r.1[j]);
                                        } else {
                                            assert(r.1.push(entry)[i] == r.1[i]);
                                            assert(r.1.push(entry)[j] == entry);
                                        }
                                    }
                                    assert forall|k: Seq<char>| in_prog.contains(k) implies
                                        spec_lookup(r.1.push(entry), k) is None by {
                                        lemma_push_contains(in_prog, sub, k);
                                        assert(ip1.contains(k));
                                        assert(spec_lookup(r.1, k) is None);
                                        lemma_lookup_push_none(r.1, entry, k);
                                    }
                                },
                            }
                        }
                    },
                }
            },
        }
    }
}

proof fn lemma_resolve_list_cache_unique(
    fs: Seq<(Seq<char>, Seq<Seq<char>>)>,
    inc_dir: Seq<char>,
    subs: Seq<Seq<char>>,
    in_prog: Seq<Seq<char>>,
    cache: Seq<(Seq<char>, Seq<Seq<char>>)>,
    fuel: nat,
)
    requires
        cache_keys_unique(cache),
        in_prog_uncached(cache, in_prog),
    ensures
        ({
            let r = spec_resolve_list(fs, inc_dir, subs, in_prog, cache, fuel);
            cache_keys_unique(r.1) && in_prog_uncached(r.1, in_prog)
        }),
    decreases fuel, subs.len() + 1,
{
    if subs.len() == 0 {
    } else {
        lemma_resolve_sub_cache_unique(fs, inc_dir, subs[0], in_prog, cache, fuel);
        let r0 = spec_resolve_sub(fs, inc_dir, subs[0], in_prog, cache, fuel);
        match r0.0 {
            Err(_) => {},
            Ok(_) => {
                lemma_resolve_list_cache_unique(
                    fs,
                    inc_dir,
                    subs.drop_first(),
                    in_prog,
                    r0.1,
                    fuel,
                );
            },
        }
    }
}

/// The cache a source resolution leaves behind holds each include string
/// at most once.
pub proof fn lemma_cache_computed_once(
    fs: Seq<(Seq<char>, Seq<Seq<char>>)>,
    inc_dir: Seq<char>,
    src_path: Seq<char>,
    cache: Seq<(Seq<char>, Seq<Seq<char>>)>,
    fuel: nat,
)
    requires
        cache_keys_unique(cache),
    ensures
        cache_keys_unique(spec_resolve_source(fs, inc_dir, src_path, cache, fuel).1),
{
    match spec_lookup(fs, src_path) {
        None => {},
        Some(subs) => {
            assert forall|k: Seq<char>| Seq::<Seq<char>>::empty().contains(k) implies spec_lookup(cache, k) is None by {
                let i = choose|i: int|
                    0 <= i < Seq::<Seq<char>>::empty().len() && Seq::<Seq<char>>::empty()[i] == k;
            }
            lemma_resolve_list_cache_unique(fs, inc_dir, subs, Seq::empty(), cache, fuel);
        },
    }
}

proof fn lemma_lookup_some_index(m: Seq<(Seq<char>, Seq<Seq<char>>)>, k: Seq<char>)
    requires
        spec_lookup(m, k) is Some,
    ensures
        exists|i: int| 0 <= i < m.len() && (#[trigger] m[i]).0 == k,
    decreases m.len(),
{
    if m.len() == 0 {
    } else if m[0].0 == k {
        assert((m[0]).0 == k);
    } else {
        lemma_lookup_some_index(m.drop_first(), k);
        let i = choose|i: int| 0 <= i < m.drop_first().len() && (#[trigger] m.drop_first()[i]).0 == k;
        assert((m[i + 1]).0 == k);
    }
}

/// Prefixing with the include root keeps include strings distinct.
proof fn lemma_hpath_injective(inc_dir: Seq<char>, a: Seq<char>, b: Seq<char>)
    requires
        inc_dir + "/"@ + a == inc_dir + "/"@ + b,
    ensures
        a == b,
{
    let p = inc_dir + "/"@;
    assert(p + a == p + b);
    assert((p + a).len() == p.len() + a.len());
    assert((p + b).len() == p.len() + b.len());
    assert(a.len() == b.len());
    assert forall|i: int| 0 <= i < a.len() implies a[i] == b[i] by {
        assert((p + a)[p.len() + i] == a[i]);
        assert((p + b)[p.len() + i] == b[i]);
    }
    assert(a =~= b);
}

/// The include strings under resolution map, each through its resolved
/// path, to distinct keys of the snapshot, so there can be no more of them
/// than the snapshot has entries.
proof fn lemma_in_prog_bounded(
    fs: Seq<(Seq<char>, Seq<Seq<char>>)>,
    inc_dir: Seq<char>,
    in_prog: Seq<Seq<char>>,
)
    requires
        in_prog.no_duplicates(),
        forall|j: int|
            0 <= j < in_prog.len() ==> spec_lookup(fs, inc_dir + "/"@ + #[trigger] in_prog[j])
                is Some,
    ensures
        in_prog.len() <= fs.len(),
{
    broadcast use vstd::seq_lib::seq_to_set_is_finite;

    let hp = |a: Seq<char>| inc_dir + "/"@ + a;
    let aset = in_prog.to_set();
    in_prog.unique_seq_to_set();
    assert(vstd::relations::injective_on(hp, aset)) by {
        assert forall|a1: Seq<char>, a2: Seq<char>|
            aset.contains(a1) && aset.contains(a2) && #[trigger] hp(a1) == #[trigger] hp(
                a2,
            ) implies a1 == a2 by {
            lemma_hpath_injective(inc_dir, a1, a2);
        }
    }
    let img = aset.map(hp);
    vstd::set_lib::lemma_map_size(aset, img, hp);
    let n = fs.len() as int;
    let idx = vstd::set_lib::set_int_range(0, n);
    let keyf = |i: int| fs[i].0;
    let kset = idx.map(keyf);
    vstd::set_lib::lemma_int_range(0, n);
    vstd::set_lib::lemma_map_size_bound(idx, kset, keyf);
    assert forall|x: Seq<char>| img.contains(x) implies kset.contains(x) by {
        let a = choose|a: Seq<char>| aset.contains(a) && x == hp(a);
        let j = choose|j: int| 0 <= j < in_prog.len() && in_prog[j] == a;
        assert(spec_lookup(fs, inc_dir + "/"@ + in_prog[j]) is Some);
        lemma_lookup_some_index(fs, hp(a));
        let i = choose|i: int| 0 <= i < fs.len() && (#[trigger] fs[i]).0 == hp(a);
        assert(idx.contains(i));
        assert(idx.contains(i) && x == keyf(i));
    }
    vstd::set_lib::lemma_len_subset(img, kset);
}

/// With fuel beyond the snapshot's size, resolving one include never runs
/// out of depth: every level of nesting adds a distinct include string,
/// each found in the snapshot, so recursion cannot nest deeper than the
/// snapshot is large.
pub proof fn lemma_fuel_sufficient_sub(
    fs: Seq<(Seq<char>, Seq<Seq<char>>)>,
    inc_dir: Seq<char>,
    sub: Seq<char>,
    in_prog: Seq<Seq<char>>,
    cache: Seq<(Seq<char>, Seq<Seq<char>>)>,
    fuel: nat,
)
    requires
        in_prog.no_duplicates(),
        forall|j: int|
            0 <= j < in_prog.len() ==> spec_lookup(fs, inc_dir + "/"@ + #[trigger] in_prog[j])
                is Some,
        fuel + in_prog.len() > fs.len(),
    ensures
        spec_resolve_sub(fs, inc_dir, sub, in_prog, cache, fuel).0 != Err::<
            Seq<Seq<char>>,
            ResolveErrM,
        >(ResolveErrM::DepthExceeded),
    decreases fuel, 0nat,
{
    if in_prog.contains(sub) {
    } else {
        match spec_lookup(cache, sub) {
            Some(_) => {},
            None => {
                let hpath = inc_dir + "/"@ + sub;
                match spec_lookup(fs, hpath) {
                    None => {},
                    Some(children) => {
                        let ip1 = in_prog.push(sub);
                        assert(ip1.no_duplicates()) by {
                            assert forall|i: int, j: int|
                                0 <= i < j < ip1.len() implies ip1[i] != ip1[j] by {
                                if j == in_prog.len() {
                                    assert(ip1[i] == in_prog[i]);
                                    assert(in_prog.contains(in_prog[i]));
                                }
                            }
                        }
                        assert forall|j: int| 0 <= j < ip1.len() implies spec_lookup(
                            fs,
                            inc_dir + "/"@ + #[trigger] ip1[j],
                        ) is Some by {
                            if j < in_prog.len() {
                                assert(ip1[j] == in_prog[j]);
                            } else {
                                assert(ip1[j] == sub);
                            }
                        }
                        lemma_in_prog_bounded(fs, inc_dir, ip1);
                        assert(in_prog.len() + 1 <= fs.len());
                        assert(fuel >= 1);
                        lemma_fuel_sufficient_list(
                            fs,
                            inc_dir,
                            children,
                            ip1,
                            cache,
                            (fuel - 1) as nat,
                        );
                    },
                }
            },
        }
    }
}

proof fn lemma_fuel_sufficient_list(
    fs: Seq<(Seq<char>, Seq<Seq<char>>)>,
    inc_dir: Seq<char>,
    subs: Seq<Seq<char>>,
    in_prog: Seq<Seq<char>>,
    cache: Seq<(Seq<char>, Seq<Seq<char>>)>,
    fuel: nat,
)
    requires
        in_prog.no_duplicates(),
        forall|j: int|
            0 <= j < in_prog.len() ==> spec_lookup(fs, inc_dir + "/"@ + #[trigger] in_prog[j])
                is Some,
        fuel + in_prog.len() > fs.len(),
    ensures
        spec_resolve_list(fs, inc_dir, subs, in_prog, cache, fuel).0 != Err::<
            Seq<Seq<char>>,
            ResolveErrM,
        >(ResolveErrM::DepthExceeded),
    decreases fuel, subs.len() + 1,
{
    if subs.len() == 0 {
    } else {
        lemma_fuel_sufficient_sub(fs, inc_dir, subs[0], in_prog, cache, fuel);
        let r0 = spec_resolve_sub(fs, inc_dir, subs[0], in_prog, cache, fuel);
        match r0.0 {
            Err(_) => {},
            Ok(_) => {
                lemma_fuel_sufficient_list(fs, inc_dir, subs.drop_first(), in_prog, r0.1, fuel);
            },
        }
    }
}

/// With fuel beyond the snapshot's size — as the executable resolver
/// chooses it — a source resolution never gives up on depth: its only
/// failure is an include absent from the snapshot.
pub proof fn lemma_fuel_sufficient(
    fs: Seq<(Seq<char>, Seq<Seq<char>>)>,
    inc_dir: Seq<char>,
    src_path: Seq<char>,
    cache: Seq<(Seq<char>, Seq<Seq<char>>)>,
    fuel: nat,
)
    requires
        fuel > fs.len(),
    ensures
        spec_resolve_source(fs, inc_dir, src_path, cache, fuel).0 != Err::<
            Seq<Seq<char>>,
            ResolveErrM,
        >(ResolveErrM::DepthExceeded),
{
    match spec_lookup(fs, src_path) {
        None => {},
        Some(subs) => {
            lemma_fuel_sufficient_list(fs, inc_dir, subs, Seq::empty(), cache, fuel);
        },
    }
}

/// Resolution is a function of the file snapshot, include root and cache
/// alone: resolving the same source twice against an unchanged snapshot
/// from the same cache state yields the same header set.
pub proof fn lemma_resolve_idempotent(
    fs: Seq<(Seq<char>, Seq<Seq<char>>)>,
    inc_dir: Seq<char>,
    src_path: Seq<char>,
    cache: Seq<(Seq<char>, Seq<Seq<char>>)>,
    fuel: nat,
)
    ensures
        spec_resolve_source(fs, inc_dir, src_path, cache, fuel) == spec_resolve_source(
            fs,
            inc_dir,
            src_path,
            cache,
            fuel,
        ),
{
}

} // verus!
