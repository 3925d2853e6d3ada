//! String primitives with exact specifications: concatenation, searching,
//! prefix/suffix tests, whitespace splitting and substring replacement.

use vstd::prelude::*;
use vstd::string::*;

verus! {

/// A sequence of strings, viewed as a sequence of character sequences.
pub open spec fn svs(s: Seq<String>) -> Seq<Seq<char>> {
    Seq::new(s.len(), |i: int| s[i]@)
}

/// The whitespace characters recognized when splitting package declarations.
pub open spec fn is_ws(c: char) -> bool {
    c == ' ' || c == '\t' || c == '\n' || c == '\r'
}

pub fn is_ws_char(c: char) -> (b: bool)
    ensures
        b == is_ws(c),
{
    c == ' ' || c == '\t' || c == '\n' || c == '\r'
}

pub fn concat2(a: &str, b: &str) -> (r: String)
    ensures
        r@ == a@ + b@,
{
    let mut s = a.to_owned();
    s.append(b);
    s
}

pub fn concat3(a: &str, b: &str, c: &str) -> (r: String)
    ensures
        r@ == a@ + b@ + c@,
{
    let mut s = a.to_owned();
    s.append(b);
    s.append(c);
    s
}

/// Index of the first occurrence of `c` in `s`; `s@.len()` when absent.
pub fn find_char(s: &str, c: char) -> (k: usize)
    ensures
        k <= s@.len(),
        forall|j: int| 0 <= j < k ==> s@[j] != c,
        k < s@.len() ==> s@[k as int] == c,
{
    let n = s.unicode_len();
    let mut i: usize = 0;
    while i < n
        invariant
            i <= n,
            n == s@.len(),
            forall|j: int| 0 <= j < i ==> s@[j] != c,
        decreases n - i,
    {
        if s.get_char(i) == c {
            return i;
        }
        i += 1;
    }
    i
}

/// Index of the last occurrence of `c` in `s`, or `None` when absent.
pub fn rfind_char(s: &str, c: char) -> (r: Option<usize>)
    ensures
        match r {
            Some(k) => k < s@.len() && s@[k as int] == c && (forall|j: int|
                k < j < s@.len() ==> s@[j] != c),
            None => forall|j: int| 0 <= j < s@.len() ==> s@[j] != c,
        },
{
    let n = s.unicode_len();
    let mut i: usize = n;
    while i > 0
        invariant
            i <= n,
            n == s@.len(),
            forall|j: int| i <= j < n ==> s@[j] != c,
        decreases i,
    {
        i -= 1;
        if s.get_char(i) == c {
            return Some(i);
        }
    }
    None
}

pub open spec fn spec_starts_with(s: Seq<char>, p: Seq<char>) -> bool {
    s.len() >= p.len() && s.take(p.len() as int) == p
}

pub fn str_starts_with(s: &str, p: &str) -> (r: bool)
    ensures
        r == spec_starts_with(s@, p@),
{
    let n = s.unicode_len();
    let m = p.unicode_len();
    if n < m {
        return false;
    }
    let mut i: usize = 0;
    while i < m
        invariant
            i <= m,
            m <= n,
            n == s@.len(),
            m == p@.len(),
            forall|j: int| 0 <= j < i ==> s@[j] == p@[j],
        decreases m - i,
    {
        if s.get_char(i) != p.get_char(i) {
            proof {
                if s@.take(m as int) == p@ {
                    assert(s@.take(m as int)[i as int] == p@[i as int]);
                }
            }
            return false;
        }
        i += 1;
    }
    proof {
        assert(s@.take(m as int) =~= p@);
    }
    true
}

pub open spec fn spec_ends_with(s: Seq<char>, p: Seq<char>) -> bool {
    s.len() >= p.len() && s.skip(s.len() - p.len()) == p
}

pub fn str_ends_with(s: &str, p: &str) -> (r: bool)
    ensures
        r == spec_ends_with(s@, p@),
{
    let n = s.unicode_len();
    let m = p.unicode_len();
    if n < m {
        return false;
    }
    let mut i: usize = 0;
    while i < m
        invariant
            i <= m,
            m <= n,
            n == s@.len(),
            m == p@.len(),
            forall|j: int| 0 <= j < i ==> s@[n - m + j] == p@[j],
        decreases m - i,
    {
        if s.get_char(n - m + i) != p.get_char(i) {
            proof {
                if s@.skip(n - m) == p@ {
                    assert(s@.skip(n - m)[i as int] == p@[i as int]);
                }
            }
            return false;
        }
        i += 1;
    }
    proof {
        assert(s@.skip(n - m) =~= p@);
    }
    true
}

/// Characters of `s` before the first occurrence of `c` (all of `s` when
/// `c` does not occur).
pub open spec fn spec_take_until(s: Seq<char>, c: char) -> Seq<char>
    decreases s.len(),
{
    if s.len() == 0 {
        s
    } else if s[0] == c {
        Seq::empty()
    } else {
        seq![s[0]] + spec_take_until(s.drop_first(), c)
    }
}

pub proof fn lemma_take_until_at(s: Seq<char>, c: char, k: int)
    requires
        0 <= k <= s.len(),
        forall|j: int| 0 <= j < k ==> s[j] != c,
        k < s.len() ==> s[k] == c,
    ensures
        spec_take_until(s, c) == s.take(k),
    decreases k,
{
    if k == 0 {
        if s.len() == 0 {
            assert(s.take(0) =~= s);
        } else {
            assert(s.take(0) =~= Seq::<char>::empty());
        }
    } else {
        lemma_take_until_at(s.drop_first(), c, k - 1);
        assert(seq![s[0]] + s.drop_first().take(k - 1) =~= s.take(k));
    }
}

pub proof fn lemma_take_until_le(s: Seq<char>, c: char)
    ensures
        spec_take_until(s, c).len() <= s.len(),
    decreases s.len(),
{
    if s.len() == 0 || s[0] == c {
    } else {
        lemma_take_until_le(s.drop_first(), c);
    }
}

/// Characters of `s` after the last occurrence of `c` (all of `s` when
/// `c` does not occur).
pub open spec fn spec_after_last(s: Seq<char>, c: char) -> Seq<char>
    decreases s.len(),
{
    if s.len() == 0 {
        s
    } else if s.last() == c {
        Seq::empty()
    } else {
        spec_after_last(s.drop_last(), c).push(s.last())
    }
}

pub proof fn lemma_after_last_at(s: Seq<char>, c: char, k: int)
    requires
        -1 <= k < s.len(),
        k >= 0 ==> s[k] == c,
        forall|j: int| k < j < s.len() ==> s[j] != c,
    ensures
        spec_after_last(s, c) == s.skip(k + 1),
    decreases s.len(),
{
    if s.len() == 0 {
        assert(s.skip(0) =~= s);
    } else if k == s.len() - 1 {
        assert(s.skip(k + 1) =~= Seq::<char>::empty());
    } else {
        assert(s.last() != c);
        lemma_after_last_at(s.drop_last(), c, k);
        assert(s.drop_last().skip(k + 1).push(s.last()) =~= s.skip(k + 1));
    }
}

/// The stem of a file path: the part of the last path component before its
/// first dot.
pub open spec fn spec_file_stem(path: Seq<char>) -> Seq<char> {
    spec_take_until(spec_after_last(path, '/'), '.')
}

pub fn file_stem(path: &str) -> (r: String)
    ensures
        r@ == spec_file_stem(path@),
{
    let n = path.unicode_len();
    let base: &str = match rfind_char(path, '/') {
        Some(k) => {
            proof {
                lemma_after_last_at(path@, '/', k as int);
            }
            path.substring_char(k + 1, n)
        },
        None => {
            proof {
                lemma_after_last_at(path@, '/', -1);
                assert(path@.skip(0) =~= path@);
            }
            path
        },
    };
    let k2 = find_char(base, '.');
    proof {
        lemma_take_until_at(base@, '.', k2 as int);
    }
    let stem = base.substring_char(0, k2);
    proof {
        assert(base@.subrange(0, k2 as int) == base@.take(k2 as int));
    }
    stem.to_owned()
}

/// Length of the leading run of non-whitespace characters.
pub open spec fn spec_token_len(s: Seq<char>) -> nat
    decreases s.len(),
{
    if s.len() == 0 || is_ws(s[0]) {
        0
    } else {
        1 + spec_token_len(s.drop_first())
    }
}

pub proof fn lemma_token_len_le(s: Seq<char>)
    ensures
        spec_token_len(s) <= s.len(),
    decreases s.len(),
{
    if s.len() == 0 || is_ws(s[0]) {
    } else {
        lemma_token_len_le(s.drop_first());
    }
}

pub proof fn lemma_token_len_at(s: Seq<char>, k: int)
    requires
        0 <= k <= s.len(),
        forall|j: int| 0 <= j < k ==> !is_ws(s[j]),
        k < s.len() ==> is_ws(s[k]),
    ensures
        spec_token_len(s) == k,
    decreases k,
{
    if k == 0 {
    } else {
        lemma_token_len_at(s.drop_first(), k - 1);
    }
}

/// The maximal runs of non-whitespace characters of `s`, in order.
pub open spec fn spec_tokens(s: Seq<char>) -> Seq<Seq<char>>
    decreases s.len(),
    via spec_tokens_dec
{
    if s.len() == 0 {
        Seq::empty()
    } else if is_ws(s[0]) {
        spec_tokens(s.drop_first())
    } else {
        seq![s.take(spec_token_len(s) as int)] + spec_tokens(s.skip(spec_token_len(s) as int))
    }
}

#[via_fn]
proof fn spec_tokens_dec(s: Seq<char>) {
    lemma_token_len_le(s);
}

/// First whitespace position at or after `start`; `s@.len()` when none.
fn scan_token_end(s: &str, start: usize) -> (j: usize)
    requires
        start <= s@.len(),
    ensures
        start <= j <= s@.len(),
        forall|q: int| start <= q < j ==> !is_ws(s@[q]),
        j < s@.len() ==> is_ws(s@[j as int]),
{
    let n = s.unicode_len();
    let mut j: usize = start;
    while j < n
        invariant
            start <= j <= n,
            n == s@.len(),
            forall|q: int| start <= q < j ==> !is_ws(s@[q]),
        decreases n - j,
    {
        if is_ws_char(s.get_char(j)) {
            return j;
        }
        j += 1;
    }
    j
}

pub fn split_ws(s: &str) -> (r: Vec<String>)
    ensures
        svs(r@) == spec_tokens(s@),
{
    let n = s.unicode_len();
    let mut out: Vec<String> = Vec::new();
    let mut i: usize = 0;
    proof {
        assert(s@.skip(0) =~= s@);
        assert(svs(out@) + spec_tokens(s@) =~= spec_tokens(s@));
    }
    while i < n
        invariant
            i <= n,
            n == s@.len(),
            svs(out@) + spec_tokens(s@.skip(i as int)) == spec_tokens(s@),
        decreases n - i,
    {
        if is_ws_char(s.get_char(i)) {
            proof {
                assert(s@.skip(i as int).drop_first() =~= s@.skip(i + 1 as int));
            }
            i += 1;
        } else {
            let start = i;
            let j = scan_token_end(s, start);
            let tok = s.substring_char(start, j).to_owned();
            proof {
                let rest = s@.skip(start as int);
                lemma_token_len_at(rest, j - start);
                assert(rest.take((j - start) as int) =~= s@.subrange(start as int, j as int));
                assert(rest.skip((j - start) as int) =~= s@.skip(j as int));
                assert(svs(out@.push(tok)) =~= svs(out@).push(tok@));
                assert(svs(out@).push(tok@) + spec_tokens(s@.skip(j as int)) =~= svs(out@) + (seq![
                    tok@,
                ] + spec_tokens(s@.skip(j as int))));
            }
            out.push(tok);
            i = j;
        }
    }
    proof {
        assert(spec_tokens(s@.skip(n as int)) =~= Seq::<Seq<char>>::empty());
        assert(svs(out@) + Seq::<Seq<char>>::empty() =~= svs(out@));
    }
    out
}

/// Substring match at a given position.
pub fn str_match_at(s: &str, pat: &str, i: usize) -> (r: bool)
    requires
        i + pat@.len() <= s@.len(),
    ensures
        r == (s@.subrange(i as int, i + pat@.len()) == pat@),
{
    let n = s.unicode_len();
    let m = pat.unicode_len();
    let mut j: usize = 0;
    while j < m
        invariant
            j <= m,
            m == pat@.len(),
            n == s@.len(),
            i + m <= n,
            forall|q: int| 0 <= q < j ==> s@[i + q] == pat@[q],
        decreases m - j,
    {
        if s.get_char(i + j) != pat.get_char(j) {
            proof {
                if s@.subrange(i as int, i + pat@.len()) == pat@ {
                    assert(s@.subrange(i as int, i + pat@.len())[j as int] == pat@[j as int]);
                }
            }
            return false;
        }
        j += 1;
    }
    proof {
        assert(s@.subrange(i as int, i + pat@.len()) =~= pat@);
    }
    true
}

/// `s` with every non-overlapping occurrence of `pat`, found left to right,
/// replaced by `rep`.
pub open spec fn spec_replace(s: Seq<char>, pat: Seq<char>, rep: Seq<char>) -> Seq<char>
    decreases s.len(),
{
    if pat.len() == 0 || s.len() < pat.len() {
        s
    } else if s.take(pat.len() as int) == pat {
        rep + spec_replace(s.skip(pat.len() as int), pat, rep)
    } else {
        seq![s[0]] + spec_replace(s.drop_first(), pat, rep)
    }
}

pub fn replace_all(s: &str, pat: &str, rep: &str) -> (r: String)
    requires
        pat@.len() >= 1,
    ensures
        r@ == spec_replace(s@, pat@, rep@),
{
    let n = s.unicode_len();
    let m = pat.unicode_len();
    let mut out = String::new();
    let mut i: usize = 0;
    proof {
        assert(s@.skip(0) =~= s@);
        assert(out@ + spec_replace(s@, pat@, rep@) =~= spec_replace(s@, pat@, rep@));
    }
    while i < n
        invariant
            i <= n,
            n == s@.len(),
            m == pat@.len(),
            m >= 1,
            out@ + spec_replace(s@.skip(i as int), pat@, rep@) == spec_replace(s@, pat@, rep@),
        decreases n - i,
    {
        let ghost rest = s@.skip(i as int);
        if m <= n - i && str_match_at(s, pat, i) {
            out.append(rep);
            proof {
                assert(rest.take(m as int) =~= s@.subrange(i as int, i + m as int));
                assert(rest.skip(m as int) =~= s@.skip(i + m as int));
            }
            i += m;
        } else {
            let ch = s.substring_char(i, i + 1);
            out.append(ch);
            proof {
                if m <= rest.len() && rest.take(m as int) == pat@ {
                    assert(rest.take(m as int) =~= s@.subrange(i as int, i + m as int));
                }
                assert(seq![rest[0]] =~= s@.subrange(i as int, i + 1 as int));
                assert(rest.drop_first() =~= s@.skip(i + 1 as int));
            }
            i += 1;
        }
    }
    proof {
        assert(s@.skip(n as int) =~= Seq::<char>::empty());
        assert(out@ + Seq::<char>::empty() =~= out@);
    }
    out
}

/// A path with backslashes turned to slashes and `/./` and `//` collapsed,
/// in that order.
pub open spec fn spec_normalize_path(s: Seq<char>) -> Seq<char> {
    spec_replace(spec_replace(spec_replace(s, "\\"@, "/"@), "/./"@, "/"@), "//"@, "/"@)
}

pub fn normalize_path(s: &str) -> (r: String)
    ensures
        r@ == spec_normalize_path(s@),
{
    proof {
        reveal_strlit("\\");
        reveal_strlit("/");
        reveal_strlit("/./");
        reveal_strlit("//");
    }
    let a = replace_all(s, "\\", "/");
    let b = replace_all(a.as_str(), "/./", "/");
    replace_all(b.as_str(), "//", "/")
}

/// Whether some string of `v` has exactly the characters of `x`.
pub fn contains_string(v: &Vec<String>, x: &String) -> (r: bool)
    ensures
        r == svs(v@).contains(x@),
{
    let mut i: usize = 0;
    while i < v.len()
        invariant
            i <= v.len(),
            forall|j: int| 0 <= j < i ==> v@[j]@ != x@,
        decreases v.len() - i,
    {
        if v[i] == *x {
            proof {
                assert(svs(v@)[i as int] == x@);
            }
            return true;
        }
        i += 1;
    }
    proof {
        assert(forall|j: int| 0 <= j < svs(v@).len() ==> svs(v@)[j] != x@);
    }
    false
}

pub fn clone_string_vec(v: &Vec<String>) -> (r: Vec<String>)
    ensures
        r@ == v@,
{
    let mut r: Vec<String> = Vec::new();
    let mut i: usize = 0;
    while i < v.len()
        invariant
            i <= v.len(),
            r@ == v@.take(i as int),
        decreases v.len() - i,
    {
        let x = v[i].clone();
        r.push(x);
        proof {
            assert(v@.take(i as int).push(v@[i as int]) =~= v@.take(i + 1 as int));
        }
        i += 1;
    }
    proof {
        assert(v@.take(v@.len() as int) =~= v@);
    }
    r
}

} // verus!
