use crate::parser::{
    comma_len, decimal_value, digit_value, digits_len, head_at, is_digit, is_space, items_at,
    keyword, opt_uint_at, params_at, parse_spec, river_at, spaces_len, starts_with, tail_params_at,
    uint_at, lemma_comma_len_bound, MAX_DEPTH,
};
use crate::river::{height, heights, Kind, RiverParameters, RiverView};
use crate::visualize::{dec, digit_char};
use vstd::prelude::*;

verus! {

// ---------------------------------------------------------------------------
// The text that writes a type down, and what parsing it gives.
// ---------------------------------------------------------------------------

pub open spec fn opt_source(v: Option<usize>) -> Seq<char> {
    match v {
        Some(x) => dec(x as nat),
        None => Seq::empty(),
    }
}

/// Spaces and tabs only.
pub open spec fn blank(g: Seq<char>) -> bool {
    forall|k: int| 0 <= k < g.len() ==> is_space(#[trigger] g[k])
}

/// A comma followed by the gap `g`.
pub open spec fn sep(g: Seq<char>) -> Seq<char> {
    seq![','] + g
}

/// The given parameters, from the first one on, each after a comma and the
/// gap `g` but the first, an unspecified one as an empty field and the
/// empty fields at the end left out (`1`, `1, 2`, `1, , 3` for the gap `" "`).
pub open spec fn params_body(e: usize, p: RiverParameters, g: Seq<char>) -> Seq<char> {
    if p.userbits is Some {
        dec(e as nat) + sep(g) + opt_source(p.complexity) + sep(g) + opt_source(p.userbits)
    } else if p.complexity is Some {
        dec(e as nat) + sep(g) + opt_source(p.complexity)
    } else {
        dec(e as nat)
    }
}

/// The parameters as written after the child: nothing where all are
/// unspecified, else a comma, the gap `g` and the given parameters.
pub open spec fn params_source(p: RiverParameters, g: Seq<char>) -> Seq<char> {
    match p.elements {
        None => Seq::empty(),
        Some(e) => sep(g) + params_body(e, p, g),
    }
}

/// The text of `t`, with the gap `g` after each comma and no space elsewhere.
pub open spec fn source_of(t: RiverView, g: Seq<char>) -> Seq<char>
    decreases t, 0int,
{
    match t {
        RiverView::Bits(w) => keyword(Kind::Bits) + dec(w as nat) + seq!['>'],
        RiverView::Root(c, p) => keyword(Kind::Root) + source_of(*c, g) + params_source(p, g)
            + seq!['>'],
        RiverView::Dim(c, p) => keyword(Kind::Dim) + source_of(*c, g) + params_source(p, g) + seq![
            '>',
        ],
        RiverView::New(c, p) => keyword(Kind::New) + source_of(*c, g) + params_source(p, g) + seq![
            '>',
        ],
        RiverView::Rev(c, p) => keyword(Kind::Rev) + source_of(*c, g) + params_source(p, g) + seq![
            '>',
        ],
        RiverView::Group(cs) => keyword(Kind::Group) + list_source(cs, g) + seq!['>'],
        RiverView::Union(cs) => keyword(Kind::Union) + list_source(cs, g) + seq!['>'],
    }
}

/// The texts of `cs`, separated by a comma and the gap `g`.
pub open spec fn list_source(cs: Seq<RiverView>, g: Seq<char>) -> Seq<char>
    decreases cs, 0int,
{
    if cs.len() == 0 {
        Seq::empty()
    } else if cs.len() == 1 {
        source_of(cs[0], g)
    } else {
        source_of(cs[0], g) + sep(g) + list_source(cs.subrange(1, cs.len() as int), g)
    }
}

/// Parameters that the grammar can write: the first is given wherever a
/// later one is.
pub open spec fn params_writable(p: RiverParameters) -> bool {
    p.elements is None ==> p.complexity is None && p.userbits is None
}

/// A type that the grammar can write: each `Group` and `Union` has a child,
/// and all parameters can be written.
pub open spec fn writable(t: RiverView) -> bool
    decreases t, 0int,
{
    match t {
        RiverView::Bits(_) => true,
        RiverView::Root(c, p) => writable(*c) && params_writable(p),
        RiverView::Dim(c, p) => writable(*c) && params_writable(p),
        RiverView::New(c, p) => writable(*c) && params_writable(p),
        RiverView::Rev(c, p) => writable(*c) && params_writable(p),
        RiverView::Group(cs) => cs.len() > 0 && all_writable(cs),
        RiverView::Union(cs) => cs.len() > 0 && all_writable(cs),
    }
}

pub open spec fn all_writable(cs: Seq<RiverView>) -> bool
    decreases cs, 0int,
{
    if cs.len() == 0 {
        true
    } else {
        writable(cs[0]) && all_writable(cs.subrange(1, cs.len() as int))
    }
}

/// `y` stands in `s` at `i`.
pub open spec fn stands_at(s: Seq<char>, i: int, y: Seq<char>) -> bool {
    0 <= i && i + y.len() <= s.len() && s.subrange(i, i + y.len()) == y
}

proof fn lemma_stands_within(s: Seq<char>, i: int, x: Seq<char>, off: int, y: Seq<char>)
    requires
        stands_at(s, i, x),
        0 <= off,
        off + y.len() <= x.len(),
        x.subrange(off, off + y.len()) =~= y,
    ensures
        stands_at(s, i + off, y),
{
    assert forall|k: int| 0 <= k < y.len() implies s.subrange(i + off, i + off + y.len())[k]
        == y[k] by {
        assert(s.subrange(i, i + x.len())[off + k] == x[off + k]);
        assert(x.subrange(off, off + y.len())[k] == x[off + k]);
    }
    assert(s.subrange(i + off, i + off + y.len()) =~= y);
}

proof fn lemma_char_at(s: Seq<char>, i: int, x: Seq<char>, off: int)
    requires
        stands_at(s, i, x),
        0 <= off < x.len(),
    ensures
        s[i + off] == x[off],
{
    assert(s.subrange(i, i + x.len())[off] == x[off]);
}

proof fn lemma_dec(n: nat)
    ensures
        dec(n).len() >= 1,
        forall|k: int| 0 <= k < dec(n).len() ==> is_digit(#[trigger] dec(n)[k]),
        decimal_value(dec(n)) == n,
    decreases n,
{
    let d = n % 10;
    assert(is_digit(digit_char(d)) && digit_value(digit_char(d)) == d) by {
        assert(d < 10);
        if d == 0 {} else if d == 1 {} else if d == 2 {} else if d == 3 {} else if d == 4 {
        } else if d == 5 {} else if d == 6 {} else if d == 7 {} else if d == 8 {} else {}
    }
    if n >= 10 {
        lemma_dec(n / 10);
        assert(dec(n).drop_last() =~= dec(n / 10));
        assert(dec(n).last() == digit_char(d));
        assert((n / 10) * 10 + d == n);
    } else {
        assert(dec(n).drop_last() =~= Seq::<char>::empty());
        assert(decimal_value(Seq::<char>::empty()) == 0);
        assert(d == n);
    }
}

proof fn lemma_digits_len_of(s: Seq<char>, i: int, d: Seq<char>)
    requires
        stands_at(s, i, d),
        forall|k: int| 0 <= k < d.len() ==> is_digit(#[trigger] d[k]),
        i + d.len() < s.len(),
        !is_digit(s[i + d.len()]),
    ensures
        digits_len(s, i) == d.len(),
    decreases d.len(),
{
    if d.len() > 0 {
        lemma_char_at(s, i, d, 0);
        let rest = d.subrange(1, d.len() as int);
        lemma_stands_within(s, i, d, 1, rest);
        lemma_digits_len_of(s, i + 1, rest);
    }
}

proof fn lemma_uint_of(s: Seq<char>, i: int, w: usize)
    requires
        stands_at(s, i, dec(w as nat)),
        i + dec(w as nat).len() < s.len(),
        !is_digit(s[i + dec(w as nat).len()]),
    ensures
        uint_at(s, i) == Some((w, dec(w as nat).len())),
{
    lemma_dec(w as nat);
    lemma_digits_len_of(s, i, dec(w as nat));
}

proof fn lemma_no_uint(s: Seq<char>, i: int)
    requires
        0 <= i < s.len(),
        !is_digit(s[i]),
    ensures
        uint_at(s, i) is None,
{
}

proof fn lemma_head_of(s: Seq<char>, i: int, k: Kind)
    requires
        starts_with(s, i, keyword(k)),
    ensures
        head_at(s, i) == Some(k),
{
    assert forall|k2: Kind| #[trigger] starts_with(s, i, keyword(k2)) implies s[i] == keyword(
        k2,
    )[0] && s[i + 1] == keyword(k2)[1] by {
        let w = keyword(k2);
        assert(s.subrange(i, i + w.len())[0] == s[i]);
        assert(s.subrange(i, i + w.len())[1] == s[i + 1]);
    }
    assert(starts_with(s, i, keyword(k)));
}

proof fn lemma_opt_uint_of(s: Seq<char>, i: int, v: Option<usize>, next: char)
    requires
        stands_at(s, i, opt_source(v) + seq![next]),
        !is_digit(next),
    ensures
        opt_uint_at(s, i) == (v, opt_source(v).len()),
{
    let x = opt_source(v) + seq![next];
    lemma_char_at(s, i, x, opt_source(v).len() as int);
    match v {
        Some(w) => {
            lemma_stands_within(s, i, x, 0, opt_source(v));
            lemma_uint_of(s, i, w);
        },
        None => lemma_no_uint(s, i),
    }
}

proof fn lemma_spaces_len_of(s: Seq<char>, i: int, g: Seq<char>)
    requires
        stands_at(s, i, g),
        blank(g),
        i + g.len() < s.len(),
        !is_space(s[i + g.len()]),
    ensures
        spaces_len(s, i) == g.len(),
    decreases g.len(),
{
    if g.len() > 0 {
        lemma_char_at(s, i, g, 0);
        let rest = g.subrange(1, g.len() as int);
        lemma_stands_within(s, i, g, 1, rest);
        lemma_spaces_len_of(s, i + 1, rest);
    }
}

/// A comma, the gap `g` and then a character that is no space.
proof fn lemma_comma_of(s: Seq<char>, i: int, g: Seq<char>, y: Seq<char>)
    requires
        stands_at(s, i, sep(g) + y),
        blank(g),
        y.len() > 0,
        !is_space(y[0]),
    ensures
        comma_len(s, i) == 1 + g.len(),
        stands_at(s, i + 1 + g.len(), y),
{
    let x = sep(g) + y;
    lemma_char_at(s, i, x, 0);
    lemma_stands_within(s, i, x, 1, g);
    lemma_char_at(s, i, x, (1 + g.len()) as int);
    lemma_spaces_len_of(s, i + 1, g);
    lemma_stands_within(s, i, x, (1 + g.len()) as int, y);
}

proof fn lemma_opt_first(v: Option<usize>, next: char)
    requires
        !is_space(next),
        !is_digit(next),
    ensures
        !is_space((opt_source(v) + seq![next])[0]),
{
    if let Some(x) = v {
        lemma_dec(x as nat);
        assert((opt_source(v) + seq![next])[0] == opt_source(v)[0]);
    }
}

proof fn lemma_params_full_of(s: Seq<char>, a: int, p: RiverParameters, g: Seq<char>)
    requires
        p.elements is Some,
        blank(g),
        stands_at(
            s,
            a,
            dec(p.elements->0 as nat) + sep(g) + opt_source(p.complexity) + sep(g) + opt_source(
                p.userbits,
            ) + seq!['>'],
        ),
    ensures
        params_at(s, a) == Some(
            (
                p,
                (dec(p.elements->0 as nat) + sep(g) + opt_source(p.complexity) + sep(g)
                    + opt_source(p.userbits)).len(),
            ),
        ),
{
    let e = p.elements->0;
    let de = dec(e as nat);
    let oc = opt_source(p.complexity);
    let ou = opt_source(p.userbits);
    let y1 = de + sep(g) + oc + sep(g) + ou + seq!['>'];
    lemma_dec(e as nat);
    let y2 = oc + sep(g) + ou + seq!['>'];
    let y3 = ou + seq!['>'];
    assert(y1 =~= de + (sep(g) + y2));
    assert(y2 =~= oc + (sep(g) + y3));
    lemma_stands_within(s, a, y1, 0, de + seq![',']);
    lemma_char_at(s, a, de + seq![','], de.len() as int);
    lemma_stands_within(s, a, y1, 0, de);
    lemma_uint_of(s, a, e);
    lemma_stands_within(s, a, y1, de.len() as int, sep(g) + y2);
    lemma_opt_first(p.complexity, ',');
    assert(y2[0] == (oc + seq![','])[0]);
    lemma_comma_of(s, a + de.len(), g, y2);
    let b = a + de.len() + 1 + g.len();
    lemma_stands_within(s, b, y2, 0, oc + seq![',']);
    lemma_opt_uint_of(s, b, p.complexity, ',');
    lemma_stands_within(s, b, y2, oc.len() as int, sep(g) + y3);
    lemma_opt_first(p.userbits, '>');
    lemma_comma_of(s, b + oc.len(), g, y3);
    let c = b + oc.len() + 1 + g.len();
    lemma_opt_uint_of(s, c, p.userbits, '>');
}

proof fn lemma_params_short_of(s: Seq<char>, a: int, p: RiverParameters, g: Seq<char>)
    requires
        p.elements is Some,
        p.userbits is None,
        blank(g),
        stands_at(s, a, params_body(p.elements->0, p, g) + seq!['>']),
    ensures
        params_at(s, a) == Some((p, params_body(p.elements->0, p, g).len())),
{
    let e = p.elements->0;
    let de = dec(e as nat);
    lemma_dec(e as nat);
    match p.complexity {
        None => {
            let y = de + seq!['>'];
            lemma_stands_within(s, a, y, 0, de);
            lemma_char_at(s, a, y, de.len() as int);
            lemma_uint_of(s, a, e);
            lemma_no_uint(s, a + de.len());
        },
        Some(cv) => {
            let dc = dec(cv as nat);
            lemma_dec(cv as nat);
            let y2 = dc + seq!['>'];
            let y1 = de + sep(g) + dc + seq!['>'];
            assert(y1 =~= de + (sep(g) + y2));
            lemma_stands_within(s, a, y1, 0, de);
            lemma_char_at(s, a, y1, de.len() as int);
            lemma_uint_of(s, a, e);
            lemma_stands_within(s, a, y1, de.len() as int, sep(g) + y2);
            assert(y2[0] == dc[0]);
            lemma_comma_of(s, a + de.len(), g, y2);
            let b = a + de.len() + 1 + g.len();
            lemma_stands_within(s, b, y2, 0, dc);
            lemma_char_at(s, b, y2, dc.len() as int);
            lemma_uint_of(s, b, cv);
            lemma_no_uint(s, b + dc.len());
        },
    }
}

proof fn lemma_params_of(s: Seq<char>, a: int, p: RiverParameters, g: Seq<char>)
    requires
        p.elements is Some,
        blank(g),
        stands_at(s, a, params_body(p.elements->0, p, g) + seq!['>']),
    ensures
        params_at(s, a) == Some((p, params_body(p.elements->0, p, g).len())),
{
    if p.userbits is Some {
        lemma_params_full_of(s, a, p, g);
    } else {
        lemma_params_short_of(s, a, p, g);
    }
}

proof fn lemma_tail_params_of(s: Seq<char>, q: int, p: RiverParameters, g: Seq<char>)
    requires
        params_writable(p),
        blank(g),
        stands_at(s, q, params_source(p, g) + seq!['>']),
    ensures
        tail_params_at(s, q) == (p, params_source(p, g).len()),
{
    if p.elements is None {
        assert(p == RiverParameters::unspecified());
        lemma_char_at(s, q, params_source(p, g) + seq!['>'], 0);
    } else {
        let e = p.elements->0;
        let body = params_body(e, p, g);
        let y1 = body + seq!['>'];
        lemma_dec(e as nat);
        assert(y1[0] == dec(e as nat)[0]);
        assert(params_source(p, g) + seq!['>'] =~= sep(g) + y1);
        lemma_comma_of(s, q, g, y1);
        lemma_params_of(s, q + 1 + g.len(), p, g);
        lemma_tail_from_params(s, q, g, p, body.len());
    }
}

proof fn lemma_tail_from_params(s: Seq<char>, q: int, g: Seq<char>, p: RiverParameters, m: nat)
    requires
        comma_len(s, q) == 1 + g.len(),
        params_at(s, q + 1 + g.len()) == Some((p, m)),
    ensures
        tail_params_at(s, q) == (p, 1 + g.len() + m),
{
}

proof fn lemma_first_char(t: RiverView, g: Seq<char>)
    ensures
        source_of(t, g).len() > 0,
        !is_space(source_of(t, g)[0]),
        source_of(t, g)[0] != ',',
{
    match t {
        RiverView::Bits(_) => assert(source_of(t, g)[0] == 'B'),
        RiverView::Root(_, _) => assert(source_of(t, g)[0] == 'R'),
        RiverView::Dim(_, _) => assert(source_of(t, g)[0] == 'D'),
        RiverView::New(_, _) => assert(source_of(t, g)[0] == 'N'),
        RiverView::Rev(_, _) => assert(source_of(t, g)[0] == 'R'),
        RiverView::Group(_) => assert(source_of(t, g)[0] == 'G'),
        RiverView::Union(_) => assert(source_of(t, g)[0] == 'U'),
    }
}

/// The text of a type that the grammar can write parses to that type,
/// wherever it stands, whatever follows it and whatever the gap after its
/// commas.
pub proof fn lemma_river_of(s: Seq<char>, i: int, t: RiverView, g: Seq<char>, d: nat)
    requires
        writable(t),
        blank(g),
        height(t) <= d,
        stands_at(s, i, source_of(t, g)),
    ensures
        river_at(s, i, d) == Ok::<(RiverView, nat), int>((t, source_of(t, g).len())),
    decreases t, 1int,
{
    match t {
        RiverView::Bits(w) => {
            let x = source_of(t, g);
            let k = keyword(Kind::Bits);
            let d = dec(w as nat);
            lemma_stands_within(s, i, x, 0, k);
            lemma_head_of(s, i, Kind::Bits);
            lemma_stands_within(s, i, x, k.len() as int, d);
            lemma_char_at(s, i, x, (k.len() + d.len()) as int);
            lemma_uint_of(s, i + k.len(), w);
        },
        RiverView::Root(c, p) => lemma_single_of(s, i, Kind::Root, *c, p, g, d),
        RiverView::Dim(c, p) => lemma_single_of(s, i, Kind::Dim, *c, p, g, d),
        RiverView::New(c, p) => lemma_single_of(s, i, Kind::New, *c, p, g, d),
        RiverView::Rev(c, p) => lemma_single_of(s, i, Kind::Rev, *c, p, g, d),
        RiverView::Group(cs) => lemma_composite_of(s, i, Kind::Group, cs, g, d),
        RiverView::Union(cs) => lemma_composite_of(s, i, Kind::Union, cs, g, d),
    }
}

proof fn lemma_single_of(
    s: Seq<char>,
    i: int,
    k: Kind,
    c: RiverView,
    p: RiverParameters,
    g: Seq<char>,
    d: nat,
)
    requires
        k == Kind::Root || k == Kind::Dim || k == Kind::New || k == Kind::Rev,
        writable(c),
        height(c) + 1 <= d,
        params_writable(p),
        blank(g),
        stands_at(s, i, keyword(k) + source_of(c, g) + params_source(p, g) + seq!['>']),
    ensures
        river_at(s, i, d) == Ok::<(RiverView, nat), int>(
            (
                RiverView::wrap(k, c, p),
                (keyword(k) + source_of(c, g) + params_source(p, g) + seq!['>']).len(),
            ),
        ),
    decreases c, 2int,
{
    let x = keyword(k) + source_of(c, g) + params_source(p, g) + seq!['>'];
    let kw = keyword(k);
    let sc = source_of(c, g);
    let ps = params_source(p, g);
    lemma_stands_within(s, i, x, 0, kw);
    lemma_head_of(s, i, k);
    lemma_stands_within(s, i, x, kw.len() as int, sc);
    lemma_river_of(s, i + kw.len(), c, g, (d - 1) as nat);
    lemma_stands_within(s, i, x, (kw.len() + sc.len()) as int, ps + seq!['>']);
    lemma_tail_params_of(s, i + kw.len() + sc.len(), p, g);
    lemma_char_at(s, i, x, x.len() - 1);
    lemma_single_from_parts(s, i, k, c, p, d, sc.len(), ps.len());
}

proof fn lemma_single_from_parts(
    s: Seq<char>,
    i: int,
    k: Kind,
    c: RiverView,
    p: RiverParameters,
    d: nat,
    n: nat,
    m: nat,
)
    requires
        k == Kind::Root || k == Kind::Dim || k == Kind::New || k == Kind::Rev,
        d > 0,
        head_at(s, i) == Some(k),
        river_at(s, i + keyword(k).len(), (d - 1) as nat) == Ok::<(RiverView, nat), int>((c, n)),
        tail_params_at(s, i + keyword(k).len() + n) == (p, m),
        crate::parser::closes_at(s, i + keyword(k).len() + n + m),
    ensures
        river_at(s, i, d) == Ok::<(RiverView, nat), int>(
            (RiverView::wrap(k, c, p), keyword(k).len() + n + m + 1),
        ),
{
}

proof fn lemma_composite_of(
    s: Seq<char>,
    i: int,
    k: Kind,
    cs: Seq<RiverView>,
    g: Seq<char>,
    d: nat,
)
    requires
        k == Kind::Group || k == Kind::Union,
        cs.len() > 0,
        heights(cs) + 1 <= d,
        all_writable(cs),
        blank(g),
        stands_at(s, i, keyword(k) + list_source(cs, g) + seq!['>']),
    ensures
        river_at(s, i, d) == Ok::<(RiverView, nat), int>(
            (RiverView::composite(k, cs), (keyword(k) + list_source(cs, g) + seq!['>']).len()),
        ),
    decreases cs, 2int,
{
    let x = keyword(k) + list_source(cs, g) + seq!['>'];
    let kw = keyword(k);
    lemma_stands_within(s, i, x, 0, kw);
    lemma_head_of(s, i, k);
    lemma_stands_within(s, i, x, kw.len() as int, list_source(cs, g) + seq!['>']);
    lemma_items_of(s, i + kw.len(), cs, g, '>', (d - 1) as nat);
    lemma_char_at(s, i, x, x.len() - 1);
    lemma_composite_from_parts(s, i, k, cs, d, list_source(cs, g).len());
}

proof fn lemma_composite_from_parts(
    s: Seq<char>,
    i: int,
    k: Kind,
    cs: Seq<RiverView>,
    d: nat,
    n: nat,
)
    requires
        k == Kind::Group || k == Kind::Union,
        d > 0,
        head_at(s, i) == Some(k),
        items_at(s, i + keyword(k).len(), (d - 1) as nat) == Ok::<(Seq<RiverView>, nat), int>(
            (cs, n),
        ),
        crate::parser::closes_at(s, i + keyword(k).len() + n),
    ensures
        river_at(s, i, d) == Ok::<(RiverView, nat), int>(
            (RiverView::composite(k, cs), keyword(k).len() + n + 1),
        ),
{
}

proof fn lemma_items_of(
    s: Seq<char>,
    i: int,
    cs: Seq<RiverView>,
    g: Seq<char>,
    next: char,
    d: nat,
)
    requires
        cs.len() > 0,
        heights(cs) <= d,
        all_writable(cs),
        blank(g),
        next != ',',
        stands_at(s, i, list_source(cs, g) + seq![next]),
    ensures
        items_at(s, i, d) == Ok::<(Seq<RiverView>, nat), int>((cs, list_source(cs, g).len())),
    decreases cs, 1int,
{
    let x = list_source(cs, g) + seq![next];
    let s0 = source_of(cs[0], g);
    lemma_stands_within(s, i, x, 0, s0);
    lemma_river_of(s, i, cs[0], g, d);
    lemma_char_at(s, i, x, s0.len() as int);
    if cs.len() == 1 {
        assert(seq![cs[0]] =~= cs);
    } else {
        let rest = cs.subrange(1, cs.len() as int);
        let rs = list_source(rest, g);
        assert(rest[0] == cs[1]);
        lemma_first_char(rest[0], g);
        if rest.len() > 1 {
            assert(rs[0] == source_of(rest[0], g)[0]);
        }
        assert((rs + seq![next])[0] == rs[0]);
        assert(x =~= s0 + (sep(g) + (rs + seq![next])));
        lemma_stands_within(s, i, x, s0.len() as int, sep(g) + (rs + seq![next]));
        lemma_comma_of(s, i + s0.len(), g, rs + seq![next]);
        lemma_items_of(s, i + s0.len() + 1 + g.len(), rest, g, next, d);
        assert(seq![cs[0]] + rest =~= cs);
    }
}

/// Parsing the text of a type that the grammar can write, and that nests no
/// deeper than `MAX_DEPTH`, gives back that type, the whole text being taken,
/// whatever run of spaces and tabs follows each comma.
pub proof fn lemma_parse_source(t: RiverView, g: Seq<char>)
    requires
        writable(t),
        height(t) <= MAX_DEPTH,
        blank(g),
    ensures
        parse_spec(source_of(t, g)) == Ok::<RiverView, int>(t),
{
    let s = source_of(t, g);
    assert(s.subrange(0, s.len() as int) =~= s);
    lemma_river_of(s, 0, t, g, MAX_DEPTH as nat);
}

/// Two texts of the same type that differ only in the spaces after their
/// commas parse to the same tree.
pub proof fn lemma_gaps_do_not_matter(t: RiverView, g1: Seq<char>, g2: Seq<char>)
    requires
        writable(t),
        height(t) <= MAX_DEPTH,
        blank(g1),
        blank(g2),
    ensures
        parse_spec(source_of(t, g1)) == parse_spec(source_of(t, g2)),
        parse_spec(source_of(t, g1)) == Ok::<RiverView, int>(t),
{
    lemma_parse_source(t, g1);
    lemma_parse_source(t, g2);
}

/// Every type that parsing gives can be written: each `Group` and `Union`
/// has a child, and no parameter is given without the first one.
pub proof fn lemma_parsed_writable(s: Seq<char>, i: int, d: nat)
    ensures
        river_at(s, i, d) matches Ok((t, _)) ==> writable(t),
    decreases s.len() - i, 0int,
{
    if let Some(k) = head_at(s, i) {
        if d > 0 {
            let p = i + keyword(k).len();
            if k == Kind::Group || k == Kind::Union {
                lemma_items_writable(s, p, (d - 1) as nat);
            } else if k != Kind::Bits {
                lemma_parsed_writable(s, p, (d - 1) as nat);
            }
        }
    }
}

proof fn lemma_items_writable(s: Seq<char>, i: int, d: nat)
    ensures
        items_at(s, i, d) matches Ok((cs, _)) ==> cs.len() > 0 && all_writable(cs),
    decreases s.len() - i, 1int,
{
    lemma_parsed_writable(s, i, d);
    if let Ok((r, n)) = river_at(s, i, d) {
        let c = comma_len(s, i + n);
        assert(seq![r].subrange(1, 1) =~= Seq::<RiverView>::empty());
        assert(all_writable(Seq::<RiverView>::empty()));
        assert(seq![r][0] == r);
        if c > 0 {
            lemma_comma_len_bound(s);
            lemma_items_writable(s, i + n + c, d);
            if let Ok((rs, m)) = items_at(s, i + n + c, d) {
                assert((seq![r] + rs).subrange(1, rs.len() + 1 as int) =~= rs);
                assert((seq![r] + rs)[0] == r);
            }
        }
    }
}

} // verus!
