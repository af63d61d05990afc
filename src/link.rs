//! The `Link` response header (web linking): finds the target of the first
//! link whose relation types include `next`.
//!
//! A field value is a list of elements separated by commas that stand in
//! plain text: outside angle brackets and outside quoted strings (`"..."`,
//! where a backslash escapes the next character). Each element is blank or a
//! link value: `<target>` after optional blanks, then nothing but blanks or
//! parameters, each introduced by a `;` in plain text. The relation types of
//! a link value are the blank-separated words of its `rel` parameter, quoted
//! or not. Parameter names and relation types compare without regard to
//! ASCII case. A field with an element that is not a link value, or that
//! ends inside a quoted string, is malformed. The `Link` fields of a response
//! make up one header: where any of them is malformed, it announces nothing.
use vstd::prelude::*;

verus! {

/// A response header field as received: its name and its value.
#[derive(Debug)]
pub struct HeaderField {
    pub name: String,
    pub value: String,
}

pub open spec fn is_blank(c: char) -> bool {
    c == ' ' || c == '\t'
}

/// `c` equals the character `l`, or is its ASCII upper-case form.
pub open spec fn char_eq_ci(c: char, l: char) -> bool {
    c == l || (97 <= (l as u32) <= 122 && (c as u32) + 32 == (l as u32))
}

/// `w` equals `l` without regard to ASCII case (`l` written in lower case).
pub open spec fn eq_ci(w: Seq<char>, l: Seq<char>) -> bool {
    w.len() == l.len() && forall|i: int| 0 <= i < w.len() ==> char_eq_ci(#[trigger] w[i], l[i])
}

/// The first index in `lo..hi` that holds no blank, or `hi`.
pub open spec fn skip_blanks(s: Seq<char>, lo: int, hi: int) -> int
    decreases hi - lo,
{
    if lo < hi && is_blank(s[lo]) {
        skip_blanks(s, lo + 1, hi)
    } else {
        lo
    }
}

/// The end of `lo..hi` once trailing blanks are dropped.
pub open spec fn trim_blanks_end(s: Seq<char>, lo: int, hi: int) -> int
    decreases hi - lo,
{
    if lo < hi && is_blank(s[hi - 1]) {
        trim_blanks_end(s, lo, hi - 1)
    } else {
        hi
    }
}

/// The first index in `lo..hi` that holds `c`, or `hi`.
pub open spec fn find_char(s: Seq<char>, c: char, lo: int, hi: int) -> int
    decreases hi - lo,
{
    if lo < hi {
        if s[lo] == c {
            lo
        } else {
            find_char(s, c, lo + 1, hi)
        }
    } else {
        hi
    }
}

/// One of the blank-separated words of `s[start..hi]`, from the word that
/// began at `start` and has been read up to `i`, is `next`.
pub open spec fn words_have_next(s: Seq<char>, start: int, i: int, hi: int) -> bool
    decreases hi - i,
{
    if i < hi {
        if is_blank(s[i]) {
            eq_ci(s.subrange(start, i), "next"@) || words_have_next(s, i + 1, i + 1, hi)
        } else {
            words_have_next(s, start, i + 1, hi)
        }
    } else {
        eq_ci(s.subrange(start, hi), "next"@)
    }
}

/// The bounds of a parameter's value, without its surrounding quotes.
pub open spec fn unquote(s: Seq<char>, a: int, b: int) -> (int, int) {
    if b - a >= 2 && s[a] == '"' && s[b - 1] == '"' {
        (a + 1, b - 1)
    } else {
        (a, b)
    }
}

/// `s[lo..hi]` is a `rel` parameter whose relation types include `next`.
pub open spec fn param_is_next_rel(s: Seq<char>, lo: int, hi: int) -> bool {
    let eq = find_char(s, '=', lo, hi);
    let a = skip_blanks(s, lo, eq);
    let b = trim_blanks_end(s, a, eq);
    let va = skip_blanks(s, eq + 1, hi);
    let vb = trim_blanks_end(s, va, hi);
    let (qa, qb) = unquote(s, va, vb);
    eq < hi && eq_ci(s.subrange(a, b), "rel"@) && words_have_next(s, qa, qa, qb)
}

/// Where a reader of a field value stands: in plain text, inside angle
/// brackets, inside a quoted string, or right after a backslash there.
#[derive(Debug, Clone, Copy, PartialEq, Eq, Structural)]
pub enum Lex {
    Plain,
    Target,
    Quoted,
    Escaped,
}

/// Where the reader stands after reading `c` from `st`.
pub open spec fn lex_step(st: Lex, c: char) -> Lex {
    match st {
        Lex::Plain => if c == '<' {
            Lex::Target
        } else if c == '"' {
            Lex::Quoted
        } else {
            Lex::Plain
        },
        Lex::Target => if c == '>' {
            Lex::Plain
        } else {
            Lex::Target
        },
        Lex::Quoted => if c == '\\' {
            Lex::Escaped
        } else if c == '"' {
            Lex::Plain
        } else {
            Lex::Quoted
        },
        Lex::Escaped => Lex::Quoted,
    }
}

/// One of the parameters of `s[start..hi]`, split at each `;` in plain text,
/// from the parameter that began at `start` and has been read up to `i` (the
/// reader standing at `st`), is a `rel` with `next`.
pub open spec fn params_have_next(s: Seq<char>, start: int, i: int, hi: int, st: Lex) -> bool
    decreases hi - i,
{
    if i < hi {
        if s[i] == ';' && st == Lex::Plain {
            param_is_next_rel(s, start, i) || params_have_next(s, i + 1, i + 1, hi, Lex::Plain)
        } else {
            params_have_next(s, start, i + 1, hi, lex_step(st, s[i]))
        }
    } else {
        param_is_next_rel(s, start, hi)
    }
}

/// The bounds of the target of the link value `s[lo..hi]`, if it has one.
pub open spec fn link_target(s: Seq<char>, lo: int, hi: int) -> Option<(int, int)> {
    let a = skip_blanks(s, lo, hi);
    let k = find_char(s, '>', a + 1, hi);
    if a < hi && s[a] == '<' && k < hi {
        Some((a + 1, k))
    } else {
        None
    }
}

/// The target of the link value `s[lo..hi]`, if its relation types include
/// `next`.
pub open spec fn entry_next(s: Seq<char>, lo: int, hi: int) -> Option<Seq<char>> {
    match link_target(s, lo, hi) {
        Some((u, k)) => if params_have_next(s, k + 1, k + 1, hi, Lex::Plain) {
            Some(s.subrange(u, k))
        } else {
            None
        },
        None => None,
    }
}

/// `s[lo..hi]` is blank, or a link value: `<target>` after optional blanks,
/// then nothing but blanks, or parameters introduced by `;`.
pub open spec fn element_ok(s: Seq<char>, lo: int, hi: int) -> bool {
    skip_blanks(s, lo, hi) == hi || match link_target(s, lo, hi) {
        Some((u, k)) => {
            let p = skip_blanks(s, k + 1, hi);
            p == hi || s[p] == ';'
        },
        None => false,
    }
}

/// The bounds of the elements of `s`, split at each comma in plain text, from
/// the element that began at `start` and has been read up to `i`, the reader
/// standing at `st`.
pub open spec fn element_bounds(s: Seq<char>, start: int, i: int, st: Lex) -> Seq<(int, int)>
    decreases s.len() - i,
{
    if i < s.len() {
        if s[i] == ',' && st == Lex::Plain {
            seq![(start, i)] + element_bounds(s, i + 1, i + 1, Lex::Plain)
        } else {
            element_bounds(s, start, i + 1, lex_step(st, s[i]))
        }
    } else {
        seq![(start, s.len() as int)]
    }
}

/// The elements of the field value `v`, in order.
pub open spec fn elements(v: Seq<char>) -> Seq<(int, int)> {
    element_bounds(v, 0, 0, Lex::Plain)
}

/// Reading `s` from `i`, the reader standing at `st`, ends in plain text.
pub open spec fn ends_plain(s: Seq<char>, i: int, st: Lex) -> bool
    decreases s.len() - i,
{
    if 0 <= i < s.len() {
        ends_plain(s, i + 1, lex_step(st, s[i]))
    } else {
        st == Lex::Plain
    }
}

/// Each of the elements `es` of `s` is blank or a link value.
pub open spec fn all_elements_ok(s: Seq<char>, es: Seq<(int, int)>) -> bool
    decreases es.len(),
{
    es.len() == 0 || (element_ok(s, es[0].0, es[0].1) && all_elements_ok(s, es.drop_first()))
}

/// The field value `v` is well formed: every element is blank or a link
/// value, and no quoted string is left open.
pub open spec fn well_formed_field(v: Seq<char>) -> bool {
    ends_plain(v, 0, Lex::Plain) && all_elements_ok(v, elements(v))
}

/// The target of the first of the elements `es` of `s` that is a link value
/// whose relation types include `next`.
pub open spec fn first_next_element(s: Seq<char>, es: Seq<(int, int)>) -> Option<Seq<char>>
    decreases es.len(),
{
    if es.len() == 0 {
        None
    } else {
        match entry_next(s, es[0].0, es[0].1) {
            Some(u) => Some(u),
            None => first_next_element(s, es.drop_first()),
        }
    }
}

/// The reader `scan_links` splits a field value into `elements` and checks
/// each: it finds the field well formed exactly where `well_formed_field`
/// holds, and then the first `next` target.
pub proof fn lemma_scan_is_first_element(
    s: Seq<char>,
    start: int,
    i: int,
    st: Lex,
    found: Option<Seq<char>>,
)
    requires
        0 <= start <= i <= s.len(),
    ensures
        scan_links(s, start, i, st, found) == ({
            let es = element_bounds(s, start, i, st);
            if ends_plain(s, i, st) && all_elements_ok(s, es) {
                Some(
                    if found is Some {
                        found
                    } else {
                        first_next_element(s, es)
                    },
                )
            } else {
                None
            }
        }),
    decreases s.len() - i,
{
    let es = element_bounds(s, start, i, st);
    if i < s.len() {
        if s[i] == ',' && st == Lex::Plain {
            let f = if found is Some {
                found
            } else {
                entry_next(s, start, i)
            };
            lemma_scan_is_first_element(s, i + 1, i + 1, Lex::Plain, f);
            let rest = element_bounds(s, i + 1, i + 1, Lex::Plain);
            assert(es.drop_first() =~= rest);
            assert(es[0] == (start, i));
            assert(lex_step(st, s[i]) == Lex::Plain);
            assert(ends_plain(s, i, st) == ends_plain(s, i + 1, Lex::Plain));
            assert(all_elements_ok(s, es) == (element_ok(s, start, i) && all_elements_ok(s, rest)));
            assert(first_next_element(s, es) == match entry_next(s, start, i) {
                Some(u) => Some(u),
                None => first_next_element(s, rest),
            });
        } else {
            lemma_scan_is_first_element(s, start, i + 1, lex_step(st, s[i]), found);
            assert(ends_plain(s, i, st) == ends_plain(s, i + 1, lex_step(st, s[i])));
        }
    } else {
        let none = Seq::<(int, int)>::empty();
        assert(es.drop_first() =~= none);
        assert(es[0] == (start, s.len() as int));
        assert(all_elements_ok(s, none));
        assert(first_next_element(s, none) is None);
        assert(ends_plain(s, i, st) == (st == Lex::Plain));
        assert(all_elements_ok(s, es) == element_ok(s, start, s.len() as int));
    }
}

/// Reads the field value `s` on from the element that began at `start`,
/// read up to `i` with the reader standing at `st`; `found` is the first
/// `next` target among the elements before it. `None` where an element is
/// not well formed or the value ends inside a quoted string; otherwise the
/// first `next` target, if any. This is the reading that `scan_field`
/// performs; `lemma_scan_is_first_element` ties it to `field_next`.
pub open spec fn scan_links(
    s: Seq<char>,
    start: int,
    i: int,
    st: Lex,
    found: Option<Seq<char>>,
) -> Option<Option<Seq<char>>>
    decreases s.len() - i,
{
    if i < s.len() {
        if s[i] == ',' && st == Lex::Plain {
            if element_ok(s, start, i) {
                let f = if found is Some {
                    found
                } else {
                    entry_next(s, start, i)
                };
                scan_links(s, i + 1, i + 1, Lex::Plain, f)
            } else {
                None
            }
        } else {
            scan_links(s, start, i + 1, lex_step(st, s[i]), found)
        }
    } else if st == Lex::Plain && element_ok(s, start, s.len() as int) {
        Some(
            if found is Some {
                found
            } else {
                entry_next(s, start, s.len() as int)
            },
        )
    } else {
        None
    }
}

/// The target of the first link value of the field value `v` whose relation
/// types include `next`, where `v` is well formed; `None` otherwise.
pub open spec fn field_next(v: Seq<char>) -> Option<Seq<char>> {
    if well_formed_field(v) {
        first_next_element(v, elements(v))
    } else {
        None
    }
}

pub open spec fn is_link_field(name: Seq<char>) -> bool {
    eq_ci(name, "link"@)
}

/// The first `next` target over the `Link` fields of `hs[i..]`, in order.
pub open spec fn headers_next_from(hs: Seq<HeaderField>, i: int) -> Option<Seq<char>>
    decreases hs.len() - i,
{
    if 0 <= i < hs.len() {
        if is_link_field(hs[i].name@) && field_next(hs[i].value@) is Some {
            field_next(hs[i].value@)
        } else {
            headers_next_from(hs, i + 1)
        }
    } else {
        None
    }
}

/// Every `Link` field of `hs` is well formed.
pub open spec fn link_fields_well_formed(hs: Seq<HeaderField>) -> bool {
    forall|j: int|
        0 <= j < hs.len() && is_link_field(#[trigger] hs[j].name@) ==> well_formed_field(
            hs[j].value@,
        )
}

/// The next page announced by a response's header fields. The `Link` fields
/// together make up one header: where any of them is malformed there is no
/// next page; otherwise it is the target of the first link, over all `Link`
/// fields in order, whose relation types include `next`, if any.
pub open spec fn link_next(hs: Seq<HeaderField>) -> Option<Seq<char>> {
    if link_fields_well_formed(hs) {
        headers_next_from(hs, 0)
    } else {
        None
    }
}

/// The view of an optional string.
pub open spec fn view_opt(o: Option<String>) -> Option<Seq<char>> {
    match o {
        Some(s) => Some(s@),
        None => None,
    }
}

fn blank(c: char) -> (r: bool)
    ensures
        r == is_blank(c),
{
    c == ' ' || c == '\t'
}

fn char_matches(c: char, l: char) -> (r: bool)
    ensures
        r == char_eq_ci(c, l),
{
    let cu = c as u32;
    let lu = l as u32;
    c == l || (97 <= lu && lu <= 122 && cu == lu - 32)
}

/// `s[lo..hi]` equals `l` without regard to ASCII case.
fn range_eq_ci(s: &str, lo: usize, hi: usize, l: &str) -> (r: bool)
    requires
        lo <= hi <= s@.len(),
    ensures
        r == eq_ci(s@.subrange(lo as int, hi as int), l@),
{
    let n = l.unicode_len();
    if hi - lo != n {
        return false;
    }
    let ghost w = s@.subrange(lo as int, hi as int);
    let mut j: usize = 0;
    while j < n
        invariant
            n == l@.len(),
            hi - lo == n,
            lo <= hi <= s@.len(),
            j <= n,
            w == s@.subrange(lo as int, hi as int),
            forall|k: int| 0 <= k < j ==> char_eq_ci(#[trigger] w[k], l@[k]),
        decreases n - j,
    {
        if !char_matches(s.get_char(lo + j), l.get_char(j)) {
            assert(!char_eq_ci(w[j as int], l@[j as int]));
            return false;
        }
        j += 1;
    }
    true
}

/// `s` equals `l` without regard to ASCII case.
fn eq_ignore_case(s: &str, l: &str) -> (r: bool)
    ensures
        r == eq_ci(s@, l@),
{
    let n = s.unicode_len();
    assert(s@.subrange(0, n as int) =~= s@);
    range_eq_ci(s, 0, n, l)
}

fn skip_blanks_exec(s: &str, lo: usize, hi: usize) -> (r: usize)
    requires
        lo <= hi <= s@.len(),
    ensures
        r == skip_blanks(s@, lo as int, hi as int),
        lo <= r <= hi,
{
    let mut i = lo;
    while i < hi && blank(s.get_char(i))
        invariant
            lo <= i <= hi <= s@.len(),
            skip_blanks(s@, lo as int, hi as int) == skip_blanks(s@, i as int, hi as int),
        decreases hi - i,
    {
        i += 1;
    }
    i
}

fn trim_blanks_end_exec(s: &str, lo: usize, hi: usize) -> (r: usize)
    requires
        lo <= hi <= s@.len(),
    ensures
        r == trim_blanks_end(s@, lo as int, hi as int),
        lo <= r <= hi,
{
    let mut j = hi;
    while j > lo && blank(s.get_char(j - 1))
        invariant
            lo <= j <= hi <= s@.len(),
            trim_blanks_end(s@, lo as int, hi as int) == trim_blanks_end(s@, lo as int, j as int),
        decreases j,
    {
        j -= 1;
    }
    j
}

fn find_char_exec(s: &str, c: char, lo: usize, hi: usize) -> (r: usize)
    requires
        lo <= hi <= s@.len(),
    ensures
        r == find_char(s@, c, lo as int, hi as int),
        lo <= r <= hi,
{
    let mut i = lo;
    while i < hi && s.get_char(i) != c
        invariant
            lo <= i <= hi <= s@.len(),
            find_char(s@, c, lo as int, hi as int) == find_char(s@, c, i as int, hi as int),
        decreases hi - i,
    {
        i += 1;
    }
    i
}

fn words_have_next_exec(s: &str, lo: usize, hi: usize) -> (r: bool)
    requires
        lo <= hi <= s@.len(),
    ensures
        r == words_have_next(s@, lo as int, lo as int, hi as int),
{
    let mut start = lo;
    let mut i = lo;
    while i < hi
        invariant
            lo <= start <= i <= hi <= s@.len(),
            words_have_next(s@, lo as int, lo as int, hi as int) == words_have_next(
                s@,
                start as int,
                i as int,
                hi as int,
            ),
        decreases hi - i,
    {
        if blank(s.get_char(i)) {
            if range_eq_ci(s, start, i, "next") {
                return true;
            }
            start = i + 1;
        }
        i += 1;
    }
    range_eq_ci(s, start, hi, "next")
}

fn param_is_next_rel_exec(s: &str, lo: usize, hi: usize) -> (r: bool)
    requires
        lo <= hi <= s@.len(),
    ensures
        r == param_is_next_rel(s@, lo as int, hi as int),
{
    let eq = find_char_exec(s, '=', lo, hi);
    if eq >= hi {
        return false;
    }
    let a = skip_blanks_exec(s, lo, eq);
    let b = trim_blanks_end_exec(s, a, eq);
    if !range_eq_ci(s, a, b, "rel") {
        return false;
    }
    let va = skip_blanks_exec(s, eq + 1, hi);
    let vb = trim_blanks_end_exec(s, va, hi);
    let (qa, qb) = if vb - va >= 2 && s.get_char(va) == '"' && s.get_char(vb - 1) == '"' {
        (va + 1, vb - 1)
    } else {
        (va, vb)
    };
    words_have_next_exec(s, qa, qb)
}

fn lex_next(st: Lex, c: char) -> (r: Lex)
    ensures
        r == lex_step(st, c),
{
    match st {
        Lex::Plain => if c == '<' {
            Lex::Target
        } else if c == '"' {
            Lex::Quoted
        } else {
            Lex::Plain
        },
        Lex::Target => if c == '>' {
            Lex::Plain
        } else {
            Lex::Target
        },
        Lex::Quoted => if c == '\\' {
            Lex::Escaped
        } else if c == '"' {
            Lex::Plain
        } else {
            Lex::Quoted
        },
        Lex::Escaped => Lex::Quoted,
    }
}

fn params_have_next_exec(s: &str, lo: usize, hi: usize) -> (r: bool)
    requires
        lo <= hi <= s@.len(),
    ensures
        r == params_have_next(s@, lo as int, lo as int, hi as int, Lex::Plain),
{
    let mut start = lo;
    let mut i = lo;
    let mut st = Lex::Plain;
    while i < hi
        invariant
            lo <= start <= i <= hi <= s@.len(),
            params_have_next(s@, lo as int, lo as int, hi as int, Lex::Plain) == params_have_next(
                s@,
                start as int,
                i as int,
                hi as int,
                st,
            ),
        decreases hi - i,
    {
        let c = s.get_char(i);
        if c == ';' && st == Lex::Plain {
            if param_is_next_rel_exec(s, start, i) {
                return true;
            }
            start = i + 1;
        } else {
            st = lex_next(st, c);
        }
        i += 1;
    }
    param_is_next_rel_exec(s, start, hi)
}

fn element_ok_exec(s: &str, lo: usize, hi: usize) -> (r: bool)
    requires
        lo <= hi <= s@.len(),
    ensures
        r == element_ok(s@, lo as int, hi as int),
{
    let a = skip_blanks_exec(s, lo, hi);
    if a == hi {
        return true;
    }
    if s.get_char(a) == '<' {
        let k = find_char_exec(s, '>', a + 1, hi);
        if k < hi {
            let p = skip_blanks_exec(s, k + 1, hi);
            return p == hi || s.get_char(p) == ';';
        }
    }
    false
}

fn entry_next_exec(s: &str, lo: usize, hi: usize) -> (r: Option<String>)
    requires
        lo <= hi <= s@.len(),
    ensures
        view_opt(r) == entry_next(s@, lo as int, hi as int),
{
    let a = skip_blanks_exec(s, lo, hi);
    if a < hi && s.get_char(a) == '<' {
        let k = find_char_exec(s, '>', a + 1, hi);
        if k < hi && params_have_next_exec(s, k + 1, hi) {
            return Some(String::from_str(s.substring_char(a + 1, k)));
        }
    }
    None
}

/// The view of an optional optional string.
pub open spec fn view_opt2(o: Option<Option<String>>) -> Option<Option<Seq<char>>> {
    match o {
        Some(n) => Some(view_opt(n)),
        None => None,
    }
}

/// Reads the field value `v`: `None` where it is malformed, otherwise the
/// target of its first link whose relation types include `next`, if any.
fn scan_field(v: &str) -> (r: Option<Option<String>>)
    ensures
        r is Some <==> well_formed_field(v@),
        r is Some ==> view_opt(r->Some_0) == first_next_element(v@, elements(v@)),
{
    proof {
        lemma_scan_is_first_element(v@, 0, 0, Lex::Plain, None);
    }
    let n = v.unicode_len();
    let mut start: usize = 0;
    let mut i: usize = 0;
    let mut st = Lex::Plain;
    let mut found: Option<String> = None;
    while i < n
        invariant
            start <= i <= n == v@.len(),
            scan_links(v@, 0, 0, Lex::Plain, None) == (if well_formed_field(v@) {
                Some(first_next_element(v@, elements(v@)))
            } else {
                None
            }),
            scan_links(v@, 0, 0, Lex::Plain, None) == scan_links(
                v@,
                start as int,
                i as int,
                st,
                view_opt(found),
            ),
        decreases n - i,
    {
        let c = v.get_char(i);
        if c == ',' && st == Lex::Plain {
            if !element_ok_exec(v, start, i) {
                assert(scan_links(v@, start as int, i as int, st, view_opt(found)) is None);
                return None;
            }
            if found.is_none() {
                found = entry_next_exec(v, start, i);
            }
            start = i + 1;
        } else {
            st = lex_next(st, c);
        }
        i += 1;
    }
    if st == Lex::Plain && element_ok_exec(v, start, n) {
        if found.is_none() {
            found = entry_next_exec(v, start, n);
        }
        Some(found)
    } else {
        None
    }
}

/// The target of the first link value of the field value `v` whose relation
/// types include `next`; `None` where there is none or `v` is malformed.
pub fn field_next_link(v: &str) -> (r: Option<String>)
    ensures
        view_opt(r) == field_next(v@),
{
    match scan_field(v) {
        Some(n) => n,
        None => None,
    }
}

/// The next page announced by a response's header fields: `None` where any
/// `Link` field is malformed; otherwise the target of the first link, over all
/// `Link` fields in order, whose relation types include `next`, if any.
pub fn extract_link_next(headers: &Vec<HeaderField>) -> (r: Option<String>)
    ensures
        view_opt(r) == link_next(headers@),
{
    let ghost hs = headers@;
    let mut found: Option<String> = None;
    let mut i: usize = 0;
    while i < headers.len()
        invariant
            hs == headers@,
            i <= hs.len(),
            forall|j: int|
                0 <= j < i && is_link_field(#[trigger] hs[j].name@) ==> well_formed_field(
                    hs[j].value@,
                ),
            found is None ==> headers_next_from(hs, 0) == headers_next_from(hs, i as int),
            found is Some ==> headers_next_from(hs, 0) == view_opt(found),
        decreases hs.len() - i,
    {
        let f = &headers[i];
        if eq_ignore_case(f.name.as_str(), "link") {
            match scan_field(f.value.as_str()) {
                None => {
                    assert(!link_fields_well_formed(hs));
                    return None;
                },
                Some(n) => {
                    if found.is_none() {
                        found = n;
                    }
                },
            }
        }
        i += 1;
    }
    found
}

} // verus!
