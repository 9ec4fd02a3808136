//! Sanitizing of report URLs.
//!
//! A report's URL must never carry a username, a password, or a fragment.
//! URLs are modeled as character sequences: the fragment is everything from
//! the first `#`; the authority component starts after the first `//` and
//! ends at the first `/`, `?` or `#` after it; the userinfo (username and
//! password) is everything in the authority up to its last `@`. Stripping
//! removes the fragment and the userinfo; malformed URLs are never rejected.

use vstd::prelude::*;

verus! {

/// Index of the first occurrence of `c` in `s` at or after `i`, or `s.len()` if none.
pub open spec fn first_from(s: Seq<char>, i: int, c: char) -> int
    decreases s.len() - i,
{
    if i < 0 || i >= s.len() {
        s.len() as int
    } else if s[i] == c {
        i
    } else {
        first_from(s, i + 1, c)
    }
}

/// Index of the first `//` in `s` at or after `i` (index of its first `/`),
/// or `s.len()` if none.
pub open spec fn first_double_slash(s: Seq<char>, i: int) -> int
    decreases s.len() - i,
{
    if i < 0 || i + 1 >= s.len() {
        s.len() as int
    } else if s[i] == '/' && s[i + 1] == '/' {
        i
    } else {
        first_double_slash(s, i + 1)
    }
}

/// A character that ends the authority component of a URL.
pub open spec fn authority_stop(c: char) -> bool {
    c == '/' || c == '?' || c == '#'
}

/// Index of the first character at or after `i` that ends the authority,
/// or `s.len()` if none.
pub open spec fn authority_end(s: Seq<char>, i: int) -> int
    decreases s.len() - i,
{
    if i < 0 || i >= s.len() {
        s.len() as int
    } else if authority_stop(s[i]) {
        i
    } else {
        authority_end(s, i + 1)
    }
}

/// Index of the last `@` in `s` within `[lo, hi)`, or `-1` if none.
pub open spec fn last_at_in(s: Seq<char>, lo: int, hi: int) -> int
    decreases hi - lo,
{
    if lo < 0 || hi <= lo || hi > s.len() {
        -1
    } else if s[hi - 1] == '@' {
        hi - 1
    } else {
        last_at_in(s, lo, hi - 1)
    }
}

/// `t` with its userinfo removed: if `t` has an authority component holding
/// an `@`, the characters from the start of the authority up to and including
/// the last such `@` are dropped; otherwise `t` is unchanged.
pub open spec fn remove_credentials(t: Seq<char>) -> Seq<char> {
    let d = first_double_slash(t, 0);
    if d == t.len() {
        t
    } else {
        let a = d + 2;
        let e = authority_end(t, a);
        let u = last_at_in(t, a, e);
        if u < a {
            t
        } else {
            t.take(a) + t.subrange(u + 1, t.len() as int)
        }
    }
}

/// The sanitized form of a URL: the fragment (from the first `#`) is cut off,
/// then the userinfo is removed.
pub open spec fn strip_report_url(s: Seq<char>) -> Seq<char> {
    remove_credentials(s.take(first_from(s, 0, '#')))
}

/// Whether `s` contains a fragment: any `#` at all.
pub open spec fn has_fragment(s: Seq<char>) -> bool {
    first_from(s, 0, '#') < s.len()
}

/// Whether `s` contains a username or password: an `@` inside its authority
/// component.
pub open spec fn has_credentials(s: Seq<char>) -> bool {
    let d = first_double_slash(s, 0);
    d < s.len() && last_at_in(s, d + 2, authority_end(s, d + 2)) >= d + 2
}

pub proof fn lemma_first_from_props(s: Seq<char>, i: int, c: char)
    requires
        0 <= i <= s.len(),
    ensures
        i <= first_from(s, i, c) <= s.len(),
        forall|j: int| i <= j < first_from(s, i, c) ==> s[j] != c,
        first_from(s, i, c) < s.len() ==> s[first_from(s, i, c)] == c,
    decreases s.len() - i,
{
    if i < s.len() && s[i] != c {
        lemma_first_from_props(s, i + 1, c);
    }
}

pub proof fn lemma_first_from_none(s: Seq<char>, i: int, c: char)
    requires
        0 <= i <= s.len(),
        forall|j: int| i <= j < s.len() ==> s[j] != c,
    ensures
        first_from(s, i, c) == s.len(),
    decreases s.len() - i,
{
    if i < s.len() {
        lemma_first_from_none(s, i + 1, c);
    }
}

pub proof fn lemma_first_double_slash_props(s: Seq<char>, i: int)
    requires
        0 <= i <= s.len(),
    ensures
        i <= first_double_slash(s, i) <= s.len(),
        forall|j: int|
            i <= j < first_double_slash(s, i) && j + 1 < s.len() ==> !((#[trigger] s[j]) == '/'
                && s[j + 1] == '/'),
        first_double_slash(s, i) < s.len() ==> first_double_slash(s, i) + 1 < s.len() && s[
            first_double_slash(s, i)
        ] == '/' && s[first_double_slash(s, i) + 1] == '/',
    decreases s.len() - i,
{
    if i + 1 < s.len() && !(s[i] == '/' && s[i + 1] == '/') {
        lemma_first_double_slash_props(s, i + 1);
    }
}

pub proof fn lemma_first_double_slash_is(s: Seq<char>, i: int, p: int)
    requires
        0 <= i <= p,
        p + 1 < s.len(),
        s[p] == '/' && s[p + 1] == '/',
        forall|j: int| i <= j < p ==> !((#[trigger] s[j]) == '/' && s[j + 1] == '/'),
    ensures
        first_double_slash(s, i) == p,
    decreases p - i,
{
    if i < p {
        lemma_first_double_slash_is(s, i + 1, p);
    }
}

pub proof fn lemma_authority_end_props(s: Seq<char>, i: int)
    requires
        0 <= i <= s.len(),
    ensures
        i <= authority_end(s, i) <= s.len(),
        forall|j: int| i <= j < authority_end(s, i) ==> !authority_stop(s[j]),
        authority_end(s, i) < s.len() ==> authority_stop(s[authority_end(s, i)]),
    decreases s.len() - i,
{
    if i < s.len() && !authority_stop(s[i]) {
        lemma_authority_end_props(s, i + 1);
    }
}

pub proof fn lemma_authority_end_is(s: Seq<char>, i: int, p: int)
    requires
        0 <= i <= p <= s.len(),
        forall|j: int| i <= j < p ==> !authority_stop(s[j]),
        p < s.len() ==> authority_stop(s[p]),
    ensures
        authority_end(s, i) == p,
    decreases p - i,
{
    if i < p {
        lemma_authority_end_is(s, i + 1, p);
    }
}

pub proof fn lemma_last_at_props(s: Seq<char>, lo: int, hi: int)
    requires
        0 <= lo <= hi <= s.len(),
    ensures
        last_at_in(s, lo, hi) == -1 ==> forall|j: int| lo <= j < hi ==> s[j] != '@',
        last_at_in(s, lo, hi) != -1 ==> lo <= last_at_in(s, lo, hi) < hi && s[last_at_in(
            s,
            lo,
            hi,
        )] == '@' && forall|j: int| last_at_in(s, lo, hi) < j < hi ==> s[j] != '@',
    decreases hi - lo,
{
    if hi > lo && s[hi - 1] != '@' {
        lemma_last_at_props(s, lo, hi - 1);
    }
}

pub proof fn lemma_last_at_none(s: Seq<char>, lo: int, hi: int)
    requires
        0 <= lo <= hi <= s.len(),
        forall|j: int| lo <= j < hi ==> s[j] != '@',
    ensures
        last_at_in(s, lo, hi) == -1,
    decreases hi - lo,
{
    if hi > lo {
        lemma_last_at_none(s, lo, hi - 1);
    }
}

/// Law: a stripped URL contains no username, no password, and no fragment.
pub proof fn lemma_stripped_url_is_clean(s: Seq<char>)
    ensures
        !has_fragment(strip_report_url(s)),
        !has_credentials(strip_report_url(s)),
{
    let f = first_from(s, 0, '#');
    lemma_first_from_props(s, 0, '#');
    let t = s.take(f);
    assert(forall|j: int| 0 <= j < t.len() ==> t[j] != '#');
    let r = strip_report_url(s);
    let d = first_double_slash(t, 0);
    lemma_first_double_slash_props(t, 0);
    if d == t.len() {
        assert(r == t);
        lemma_first_from_none(t, 0, '#');
    } else {
        let a = d + 2;
        let e = authority_end(t, a);
        lemma_authority_end_props(t, a);
        let u = last_at_in(t, a, e);
        lemma_last_at_props(t, a, e);
        if u < a {
            assert(r == t);
            lemma_first_from_none(t, 0, '#');
        } else {
            assert(r == t.take(a) + t.subrange(u + 1, t.len() as int));
            let p = a + (e - u - 1);
            assert(r.len() == a + (t.len() - u - 1));
            assert(forall|j: int| 0 <= j < a ==> r[j] == t[j]);
            assert(forall|j: int| a <= j < r.len() ==> r[j] == t[u + 1 + (j - a)]);
            assert(forall|j: int| 0 <= j < r.len() ==> r[j] != '#');
            lemma_first_from_none(r, 0, '#');
            lemma_first_double_slash_is(r, 0, d);
            lemma_authority_end_is(r, a, p);
            lemma_last_at_none(r, a, p);
        }
    }
}

/// Finds the first occurrence of `c` in `s` at or after `from`.
fn find_char_from(s: &str, from: usize, c: char) -> (r: usize)
    requires
        from as int <= s@.len(),
    ensures
        r as int == first_from(s@, from as int, c),
        from <= r,
        r as int <= s@.len(),
{
    let n = s.unicode_len();
    let mut i: usize = from;
    while i < n
        invariant
            from <= i <= n,
            n as int == s@.len(),
            first_from(s@, from as int, c) == first_from(s@, i as int, c),
        decreases n - i,
    {
        if s.get_char(i) == c {
            return i;
        }
        i += 1;
    }
    i
}

/// Finds the first `//` in `s`.
fn find_double_slash(s: &str) -> (r: usize)
    ensures
        r as int == first_double_slash(s@, 0),
        r as int <= s@.len(),
        (r as int) < s@.len() ==> (r as int) + 1 < s@.len(),
{
    let n = s.unicode_len();
    let mut i: usize = 0;
    while i + 1 < n
        invariant
            i <= n,
            i > 0 ==> i < n,
            n as int == s@.len(),
            first_double_slash(s@, 0) == first_double_slash(s@, i as int),
        decreases n - i,
    {
        if s.get_char(i) == '/' && s.get_char(i + 1) == '/' {
            return i;
        }
        i += 1;
    }
    n
}

/// Finds the first authority-ending character in `s` at or after `from`.
fn find_authority_end(s: &str, from: usize) -> (r: usize)
    requires
        from as int <= s@.len(),
    ensures
        r as int == authority_end(s@, from as int),
        from <= r,
        r as int <= s@.len(),
{
    let n = s.unicode_len();
    let mut i: usize = from;
    while i < n
        invariant
            from <= i <= n,
            n as int == s@.len(),
            authority_end(s@, from as int) == authority_end(s@, i as int),
        decreases n - i,
    {
        let c = s.get_char(i);
        if c == '/' || c == '?' || c == '#' {
            return i;
        }
        i += 1;
    }
    i
}

/// Finds the last `@` in `s` within `[lo, hi)`, if any.
fn find_last_at(s: &str, lo: usize, hi: usize) -> (r: Option<usize>)
    requires
        lo <= hi,
        hi as int <= s@.len(),
    ensures
        match r {
            Some(u) => lo <= u < hi && u as int == last_at_in(s@, lo as int, hi as int),
            None => last_at_in(s@, lo as int, hi as int) == -1,
        },
{
    let mut j: usize = hi;
    while j > lo
        invariant
            lo <= j <= hi,
            hi as int <= s@.len(),
            last_at_in(s@, lo as int, hi as int) == last_at_in(s@, lo as int, j as int),
        decreases j,
    {
        if s.get_char(j - 1) == '@' {
            return Some(j - 1);
        }
        j -= 1;
    }
    None
}

/// Strips the username, password, and fragment from a URL string. Malformed
/// URLs are sanitized on a best-effort basis, never rejected.
pub fn strip_url_for_reports(url: &str) -> (r: String)
    ensures
        r@ == strip_report_url(url@),
{
    let f = find_char_from(url, 0, '#');
    let head = url.substring_char(0, f);
    proof {
        assert(head@ =~= url@.take(f as int));
    }
    let n = head.unicode_len();
    let d = find_double_slash(head);
    if d == n {
        return head.to_owned();
    }
    let a = d + 2;
    let e = find_authority_end(head, a);
    match find_last_at(head, a, e) {
        None => head.to_owned(),
        Some(u) => {
            let front = head.substring_char(0, a);
            let back = head.substring_char(u + 1, n);
            let r = front.to_owned().concat(back);
            proof {
                assert(front@ =~= head@.take(a as int));
                assert(r@ =~= head@.take(a as int) + head@.subrange(
                    u as int + 1,
                    head@.len() as int,
                ));
            }
            r
        },
    }
}

} // verus!
