//! What the `Link` parser returns: on a field written from known links, and
//! on any field value read as a list of elements.
use vstd::prelude::*;
use crate::link::{
    HeaderField,
    Lex,
    element_ok,
    elements,
    entry_next,
    field_next,
    find_char,
    first_next_element,
    headers_next_from,
    is_blank,
    is_link_field,
    lemma_scan_is_first_element,
    lex_step,
    link_fields_well_formed,
    link_next,
    param_is_next_rel,
    params_have_next,
    scan_links,
    skip_blanks,
    trim_blanks_end,
    unquote,
    well_formed_field,
    words_have_next,
};

verus! {

/// A link target that holds no angle bracket.
pub open spec fn plain_target(u: Seq<char>) -> bool {
    forall|i: int| 0 <= i < u.len() ==> u[i] != '<' && u[i] != '>'
}

/// A `rel` value that holds no angle bracket, comma, semicolon, quote or
/// backslash.
pub open spec fn plain_rel(r: Seq<char>) -> bool {
    forall|i: int|
        0 <= i < r.len() ==> r[i] != '<' && r[i] != '>' && r[i] != ',' && r[i] != ';' && r[i]
            != '"' && r[i] != '\\'
}

/// Links, each a target and a `rel` value, that can be written plainly.
pub open spec fn plain_links(ls: Seq<(Seq<char>, Seq<char>)>) -> bool {
    forall|i: int| 0 <= i < ls.len() ==> plain_target(#[trigger] ls[i].0) && plain_rel(ls[i].1)
}

pub open spec fn rel_lead() -> Seq<char> {
    seq!['>', ';', ' ', 'r', 'e', 'l', '=', '"']
}

/// ` <u>; rel="r"`.
pub open spec fn render_link(u: Seq<char>, r: Seq<char>) -> Seq<char> {
    seq![' ', '<'] + u + rel_lead() + r + seq!['"']
}

/// The links written one after the other, separated by commas.
pub open spec fn render_links(ls: Seq<(Seq<char>, Seq<char>)>) -> Seq<char>
    decreases ls.len(),
{
    if ls.len() == 0 {
        Seq::empty()
    } else if ls.len() == 1 {
        render_link(ls[0].0, ls[0].1)
    } else {
        render_link(ls[0].0, ls[0].1) + seq![','] + render_links(ls.drop_first())
    }
}

/// One of the blank-separated words of the `rel` value `r` is `next`.
pub open spec fn rel_has_next(r: Seq<char>) -> bool {
    words_have_next(r, 0, 0, r.len() as int)
}

/// The target of the first of `ls` whose relation types include `next`.
pub open spec fn first_next(ls: Seq<(Seq<char>, Seq<char>)>) -> Option<Seq<char>>
    decreases ls.len(),
{
    if ls.len() == 0 {
        None
    } else if rel_has_next(ls[0].1) {
        Some(ls[0].0)
    } else {
        first_next(ls.drop_first())
    }
}

proof fn lemma_find_char(s: Seq<char>, c: char, p: int, q: int, hi: int)
    requires
        p <= q <= hi <= s.len(),
        0 <= p,
        forall|j: int| p <= j < q ==> s[j] != c,
        q < hi ==> s[q] == c,
    ensures
        find_char(s, c, p, hi) == q,
    decreases q - p,
{
    if p < q {
        lemma_find_char(s, c, p + 1, q, hi);
    }
}

proof fn lemma_params_without_semicolon(s: Seq<char>, st: int, i: int, hi: int, lx: Lex)
    requires
        st <= i <= hi <= s.len(),
        0 <= st,
        forall|j: int| i <= j < hi ==> s[j] != ';',
    ensures
        params_have_next(s, st, i, hi, lx) == param_is_next_rel(s, st, hi),
    decreases hi - i,
{
    if i < hi {
        lemma_params_without_semicolon(s, st, i + 1, hi, lex_step(lx, s[i]));
    }
}

proof fn lemma_words_shift(s: Seq<char>, r: Seq<char>, a: int, st: int, i: int)
    requires
        0 <= a,
        a + r.len() <= s.len(),
        s.subrange(a, a + r.len()) == r,
        0 <= st <= i <= r.len(),
    ensures
        words_have_next(s, a + st, a + i, a + r.len()) == words_have_next(
            r,
            st,
            i,
            r.len() as int,
        ),
    decreases r.len() - i,
{
    if i < r.len() {
        assert(s[a + i] == r[i]);
        assert(s.subrange(a + st, a + i) =~= r.subrange(st, i));
        lemma_words_shift(s, r, a, i + 1, i + 1);
        lemma_words_shift(s, r, a, st, i + 1);
    } else {
        assert(s.subrange(a + st, a + i) =~= r.subrange(st, i));
    }
}

/// The characters of a written link, place by place.
proof fn lemma_render_link_chars(u: Seq<char>, r: Seq<char>)
    ensures
        ({
            let x = render_link(u, r);
            let n = u.len() as int;
            &&& x.len() == n + r.len() + 11
            &&& x[0] == ' ' && x[1] == '<'
            &&& forall|j: int| 0 <= j < n ==> x[2 + j] == u[j]
            &&& x[2 + n] == '>' && x[3 + n] == ';' && x[4 + n] == ' '
            &&& x[5 + n] == 'r' && x[6 + n] == 'e' && x[7 + n] == 'l'
            &&& x[8 + n] == '=' && x[9 + n] == '"'
            &&& forall|j: int| 0 <= j < r.len() ==> x[10 + n + j] == r[j]
            &&& x[10 + n + r.len()] == '"'
        }),
{
    let x = render_link(u, r);
    let n = u.len() as int;
    let lead = rel_lead();
    assert(x =~= seq![' ', '<'] + u + lead + r + seq!['"']);
    assert(lead[0] == '>' && lead[1] == ';' && lead[2] == ' ' && lead[3] == 'r');
    assert(lead[4] == 'e' && lead[5] == 'l' && lead[6] == '=' && lead[7] == '"');
}

/// Where the reader stands after reading `m` characters of a written link
/// whose target has length `n` and whose `rel` value has length `nr`.
spec fn lex_after(m: int, n: int, nr: int) -> Lex {
    if 2 <= m <= 2 + n {
        Lex::Target
    } else if 10 + n <= m <= 10 + n + nr {
        Lex::Quoted
    } else {
        Lex::Plain
    }
}

proof fn lemma_scan_link_step(
    s: Seq<char>,
    lo: int,
    u: Seq<char>,
    r: Seq<char>,
    m: int,
    found: Option<Seq<char>>,
)
    requires
        0 <= lo,
        lo + render_link(u, r).len() <= s.len(),
        s.subrange(lo, lo + render_link(u, r).len()) == render_link(u, r),
        plain_target(u),
        plain_rel(r),
        0 <= m < render_link(u, r).len(),
    ensures
        scan_links(s, lo, lo + m, lex_after(m, u.len() as int, r.len() as int), found)
            == scan_links(
            s,
            lo,
            lo + m + 1,
            lex_after(m + 1, u.len() as int, r.len() as int),
            found,
        ),
{
    let x = render_link(u, r);
    let n = u.len() as int;
    lemma_render_link_chars(u, r);
    assert(s[lo + m] == x[m]);
    if 2 <= m < 2 + n {
        assert(x[2 + (m - 2)] == u[m - 2]);
    }
    if 10 + n <= m < 10 + n + r.len() {
        assert(x[10 + n + (m - 10 - n)] == r[m - 10 - n]);
    }
}

proof fn lemma_scan_link_prefix(
    s: Seq<char>,
    lo: int,
    u: Seq<char>,
    r: Seq<char>,
    m: int,
    found: Option<Seq<char>>,
)
    requires
        0 <= lo,
        lo + render_link(u, r).len() <= s.len(),
        s.subrange(lo, lo + render_link(u, r).len()) == render_link(u, r),
        plain_target(u),
        plain_rel(r),
        0 <= m <= render_link(u, r).len(),
    ensures
        scan_links(s, lo, lo, Lex::Plain, found) == scan_links(
            s,
            lo,
            lo + m,
            lex_after(m, u.len() as int, r.len() as int),
            found,
        ),
    decreases m,
{
    if m > 0 {
        lemma_scan_link_prefix(s, lo, u, r, m - 1, found);
        lemma_scan_link_step(s, lo, u, r, m - 1, found);
    }
}

proof fn lemma_entry_next_of_link(s: Seq<char>, lo: int, u: Seq<char>, r: Seq<char>)
    requires
        0 <= lo,
        lo + render_link(u, r).len() <= s.len(),
        s.subrange(lo, lo + render_link(u, r).len()) == render_link(u, r),
        plain_target(u),
        plain_rel(r),
    ensures
        entry_next(s, lo, lo + render_link(u, r).len()) == (if rel_has_next(r) {
            Some(u)
        } else {
            None
        }),
        element_ok(s, lo, lo + render_link(u, r).len()),
{
    let x = render_link(u, r);
    let n = u.len() as int;
    let hi = lo + x.len();
    lemma_render_link_chars(u, r);
    assert forall|j: int| 0 <= j < x.len() implies s[lo + j] == x[j] by {}
    let k = lo + 2 + n;
    assert(skip_blanks(s, lo + 1, hi) == lo + 1);
    assert(skip_blanks(s, lo, hi) == lo + 1);
    assert forall|j: int| lo + 2 <= j < k implies s[j] != '>' by {
        assert(s[j] == x[j - lo]);
        assert(x[2 + (j - lo - 2)] == u[j - lo - 2]);
    }
    lemma_find_char(s, '>', lo + 2, k, hi);
    assert(s[k + 1] == ';');
    assert(find_char(s, '=', k + 1, k + 1) == k + 1);
    assert(!param_is_next_rel(s, k + 1, k + 1));
    assert forall|j: int| k + 2 <= j < hi implies s[j] != ';' by {
        assert(s[j] == x[j - lo]);
        if 10 + n <= j - lo < 10 + n + r.len() {
            assert(x[10 + n + (j - lo - 10 - n)] == r[j - lo - 10 - n]);
        }
    }
    lemma_params_without_semicolon(s, k + 2, k + 2, hi, Lex::Plain);
    assert(params_have_next(s, k + 1, k + 1, hi, Lex::Plain) == params_have_next(
        s,
        k + 2,
        k + 2,
        hi,
        Lex::Plain,
    ));
    assert(skip_blanks(s, k + 1, hi) == k + 1);
    let eq = k + 6;
    lemma_find_char(s, '=', k + 2, eq, hi);
    assert(skip_blanks(s, k + 3, eq) == k + 3);
    assert(skip_blanks(s, k + 2, eq) == k + 3);
    assert(trim_blanks_end(s, k + 3, eq) == eq);
    assert(s.subrange(k + 3, eq) =~= "rel"@) by {
        reveal_strlit("rel");
    }
    assert(skip_blanks(s, eq + 1, hi) == eq + 1);
    assert(s[hi - 1] == '"');
    assert(!is_blank(s[hi - 1]));
    assert(trim_blanks_end(s, eq + 1, hi) == hi);
    assert(unquote(s, eq + 1, hi) == (eq + 2, hi - 1));
    let a = eq + 2;
    assert(s.subrange(a, a + r.len()) =~= r) by {
        assert forall|j: int| 0 <= j < r.len() implies s.subrange(a, a + r.len())[j] == r[j] by {
            assert(s[a + j] == x[10 + n + j]);
        }
    }
    lemma_words_shift(s, r, a, 0, 0);
    assert(s.subrange(lo + 2, k) =~= u) by {
        assert forall|j: int| 0 <= j < n implies s.subrange(lo + 2, k)[j] == u[j] by {
            assert(s[lo + 2 + j] == x[2 + j]);
        }
    }
}

proof fn lemma_scan_rendered(
    p: Seq<char>,
    ls: Seq<(Seq<char>, Seq<char>)>,
    found: Option<Seq<char>>,
)
    requires
        plain_links(ls),
    ensures
        scan_links(p + render_links(ls), p.len() as int, p.len() as int, Lex::Plain, found)
            == Some(
            if found is Some {
                found
            } else {
                first_next(ls)
            },
        ),
    decreases ls.len(),
{
    let s = p + render_links(ls);
    let lo = p.len() as int;
    if ls.len() == 0 {
        assert(s.len() == lo);
        assert(skip_blanks(s, lo, lo) == lo);
    } else {
        let (u, r) = ls[0];
        assert(plain_target(ls[0].0) && plain_rel(ls[0].1));
        let x = render_link(u, r);
        let hi = lo + x.len();
        let rest = ls.drop_first();
        if ls.len() == 1 {
            assert(s.subrange(lo, hi) =~= x);
        } else {
            assert(s =~= p + x + seq![','] + render_links(rest));
            assert(s.subrange(lo, hi) =~= x);
        }
        lemma_scan_link_prefix(s, lo, u, r, x.len() as int, found);
        lemma_entry_next_of_link(s, lo, u, r);
        let f = if found is Some {
            found
        } else {
            entry_next(s, lo, hi)
        };
        if ls.len() == 1 {
            assert(rest.len() == 0);
        } else {
            let p_after = p + x + seq![','];
            assert(s =~= p_after + render_links(rest));
            assert(s[hi] == ',');
            assert(plain_links(rest)) by {
                assert forall|i: int| 0 <= i < rest.len() implies plain_target(
                    #[trigger] rest[i].0,
                ) && plain_rel(rest[i].1) by {
                    assert(rest[i] == ls[i + 1]);
                }
            }
            lemma_scan_rendered(p_after, rest, f);
        }
    }
}

/// A `Link` field written from plain links yields the target of the first of
/// them whose relation types include `next`, and nothing where none has it.
pub proof fn lemma_field_finds_first_next(ls: Seq<(Seq<char>, Seq<char>)>)
    requires
        plain_links(ls),
    ensures
        well_formed_field(render_links(ls)),
        field_next(render_links(ls)) == first_next(ls),
{
    lemma_scan_rendered(Seq::empty(), ls, None);
    assert(Seq::<char>::empty() + render_links(ls) =~= render_links(ls));
    lemma_scan_is_first_element(render_links(ls), 0, 0, Lex::Plain, None);
}

proof fn lemma_headers_from(hs: Seq<HeaderField>, k: int, i: int)
    requires
        0 <= i <= hs.len(),
        0 <= k < hs.len(),
        is_link_field(hs[k].name@),
        forall|j: int| 0 <= j < hs.len() && j != k ==> !is_link_field(#[trigger] hs[j].name@),
    ensures
        headers_next_from(hs, i) == (if i <= k {
            field_next(hs[k].value@)
        } else {
            None
        }),
    decreases hs.len() - i,
{
    if i < hs.len() {
        lemma_headers_from(hs, k, i + 1);
    }
}

/// Of header fields among which one `Link` field, written from plain links,
/// stands, the parser returns the target of the first link whose relation
/// types include `next`; where none has it, the terminal `None`.
pub proof fn lemma_parser_finds_first_next(
    hs: Seq<HeaderField>,
    k: int,
    ls: Seq<(Seq<char>, Seq<char>)>,
)
    requires
        0 <= k < hs.len(),
        is_link_field(hs[k].name@),
        hs[k].value@ == render_links(ls),
        forall|j: int| 0 <= j < hs.len() && j != k ==> !is_link_field(#[trigger] hs[j].name@),
        plain_links(ls),
    ensures
        link_next(hs) == first_next(ls),
{
    lemma_headers_from(hs, k, 0);
    lemma_field_finds_first_next(ls);
    assert(link_fields_well_formed(hs));
}

/// Where any `Link` field is malformed, the header announces no next page,
/// whatever the other `Link` fields hold.
pub proof fn lemma_malformed_link_field_is_terminal(hs: Seq<HeaderField>, k: int)
    requires
        0 <= k < hs.len(),
        is_link_field(hs[k].name@),
        !well_formed_field(hs[k].value@),
    ensures
        link_next(hs) is None,
{
    assert(!link_fields_well_formed(hs));
}

/// Header fields without any `Link` field announce no next page.
pub proof fn lemma_no_link_field_is_terminal(hs: Seq<HeaderField>, i: int)
    requires
        0 <= i <= hs.len(),
        forall|j: int| 0 <= j < hs.len() ==> !is_link_field(#[trigger] hs[j].name@),
    ensures
        headers_next_from(hs, i) is None,
        i == 0 ==> link_next(hs) is None,
    decreases hs.len() - i,
{
    if i < hs.len() {
        lemma_no_link_field_is_terminal(hs, i + 1);
    }
}

proof fn lemma_first_next_at(s: Seq<char>, es: Seq<(int, int)>, j: int)
    requires
        0 <= j < es.len(),
        entry_next(s, es[j].0, es[j].1) is Some,
        forall|k: int| 0 <= k < j ==> entry_next(s, (#[trigger] es[k]).0, es[k].1) is None,
    ensures
        first_next_element(s, es) == entry_next(s, es[j].0, es[j].1),
    decreases j,
{
    if j > 0 {
        let rest = es.drop_first();
        assert(entry_next(s, es[0].0, es[0].1) is None);
        assert forall|k: int| 0 <= k < j - 1 implies entry_next(
            s,
            (#[trigger] rest[k]).0,
            rest[k].1,
        ) is None by {
            assert(rest[k] == es[k + 1]);
        }
        assert(rest[j - 1] == es[j]);
        lemma_first_next_at(s, rest, j - 1);
    }
}

/// In a well-formed field, the element chosen is the first by relation, not
/// by position: where the elements before the `j`th carry no `next` relation
/// (a `prev` link, say) and the `j`th does, its target is returned.
pub proof fn lemma_first_by_relation(v: Seq<char>, j: int)
    requires
        well_formed_field(v),
        0 <= j < elements(v).len(),
        entry_next(v, elements(v)[j].0, elements(v)[j].1) is Some,
        forall|k: int|
            0 <= k < j ==> entry_next(v, (#[trigger] elements(v)[k]).0, elements(v)[k].1) is None,
    ensures
        field_next(v) == entry_next(v, elements(v)[j].0, elements(v)[j].1),
{
    lemma_first_next_at(v, elements(v), j);
}

} // verus!
