use crate::river::{
    size, sizes, view_of, views_of, Kind, River, RiverParameters, RiverView,
};
use vstd::prelude::*;

verus! {

broadcast use vstd::std_specs::vec::group_vec_axioms;

// ---------------------------------------------------------------------------
// The grammar, as spec functions over the characters of the input.
//
// Each `..._at(s, i)` describes what is recognised at position `i` of `s`.
// Lengths are counted in characters; a failure carries the position at which
// no rule could go on.
// ---------------------------------------------------------------------------

pub open spec fn is_digit(c: char) -> bool {
    '0' <= c && c <= '9'
}

/// Space characters accepted after a separating comma.
pub open spec fn is_space(c: char) -> bool {
    c == ' ' || c == '\t'
}

/// Length of the run of digits that starts at `i`.
pub open spec fn digits_len(s: Seq<char>, i: int) -> nat
    decreases s.len() - i,
{
    if 0 <= i < s.len() && is_digit(s[i]) {
        1 + digits_len(s, i + 1)
    } else {
        0
    }
}

/// Length of the run of spaces that starts at `i`.
pub open spec fn spaces_len(s: Seq<char>, i: int) -> nat
    decreases s.len() - i,
{
    if 0 <= i < s.len() && is_space(s[i]) {
        1 + spaces_len(s, i + 1)
    } else {
        0
    }
}

pub open spec fn digit_value(c: char) -> nat {
    (c as int - '0' as int) as nat
}

/// The number that a string of decimal digits denotes.
pub open spec fn decimal_value(d: Seq<char>) -> nat
    decreases d.len(),
{
    if d.len() == 0 {
        0
    } else {
        decimal_value(d.drop_last()) * 10 + digit_value(d.last())
    }
}

/// An unsigned integer literal at `i`: its value and its length. There is
/// none where no digit stands at `i` or where the value does not fit a `usize`.
pub open spec fn uint_at(s: Seq<char>, i: int) -> Option<(usize, nat)> {
    let n = digits_len(s, i);
    let v = decimal_value(s.subrange(i, i + n));
    if n > 0 && v <= usize::MAX {
        Some((v as usize, n))
    } else {
        None
    }
}

/// An optional integer literal: absent (and nothing read) where `uint_at` has none.
pub open spec fn opt_uint_at(s: Seq<char>, i: int) -> (Option<usize>, nat) {
    match uint_at(s, i) {
        Some((v, n)) => (Some(v), n),
        None => (None, 0),
    }
}

/// Length of a separating comma at `i` with the spaces after it; 0 where
/// no comma stands at `i`.
pub open spec fn comma_len(s: Seq<char>, i: int) -> nat {
    if 0 <= i < s.len() && s[i] == ',' {
        1 + spaces_len(s, i + 1)
    } else {
        0
    }
}

/// `Params := UInt ("," UInt?)? ("," UInt?)?`: the parameters and their length.
pub open spec fn params_at(s: Seq<char>, i: int) -> Option<(RiverParameters, nat)> {
    match uint_at(s, i) {
        None => None,
        Some((e, n1)) => {
            let at_sep1 = i + n1;
            let at_c = at_sep1 + comma_len(s, at_sep1);
            let c = opt_uint_at(s, at_c);
            let at_sep2 = at_c + c.1;
            let at_u = at_sep2 + comma_len(s, at_sep2);
            let u = opt_uint_at(s, at_u);
            Some(
                (
                    RiverParameters { elements: Some(e), complexity: c.0, userbits: u.0 },
                    (at_u + u.1 - i) as nat,
                ),
            )
        },
    }
}

} // verus!

verus! {

/// The keyword of a form together with its opening angle bracket.
pub open spec fn keyword(k: Kind) -> Seq<char> {
    match k {
        Kind::Bits => seq!['B', 'i', 't', 's', '<'],
        Kind::Root => seq!['R', 'o', 'o', 't', '<'],
        Kind::Group => seq!['G', 'r', 'o', 'u', 'p', '<'],
        Kind::Dim => seq!['D', 'i', 'm', '<'],
        Kind::New => seq!['N', 'e', 'w', '<'],
        Kind::Rev => seq!['R', 'e', 'v', '<'],
        Kind::Union => seq!['U', 'n', 'i', 'o', 'n', '<'],
    }
}

pub open spec fn starts_with(s: Seq<char>, i: int, w: Seq<char>) -> bool {
    0 <= i && i + w.len() <= s.len() && s.subrange(i, i + w.len()) == w
}

/// The form whose keyword opens at `i`, tried in the order
/// `Union, Rev, New, Dim, Group, Root, Bits`.
pub open spec fn head_at(s: Seq<char>, i: int) -> Option<Kind> {
    if starts_with(s, i, keyword(Kind::Union)) {
        Some(Kind::Union)
    } else if starts_with(s, i, keyword(Kind::Rev)) {
        Some(Kind::Rev)
    } else if starts_with(s, i, keyword(Kind::New)) {
        Some(Kind::New)
    } else if starts_with(s, i, keyword(Kind::Dim)) {
        Some(Kind::Dim)
    } else if starts_with(s, i, keyword(Kind::Group)) {
        Some(Kind::Group)
    } else if starts_with(s, i, keyword(Kind::Root)) {
        Some(Kind::Root)
    } else if starts_with(s, i, keyword(Kind::Bits)) {
        Some(Kind::Bits)
    } else {
        None
    }
}

pub open spec fn closes_at(s: Seq<char>, i: int) -> bool {
    0 <= i < s.len() && s[i] == '>'
}

/// What may follow the child of a single-child form: a comma and then
/// parameters, possibly none at all. Absent parameters are all unspecified.
pub open spec fn tail_params_at(s: Seq<char>, i: int) -> (RiverParameters, nat) {
    let c = comma_len(s, i);
    if c == 0 {
        (RiverParameters::unspecified(), 0)
    } else {
        match params_at(s, i + c) {
            Some((p, m)) => (p, c + m),
            None => (RiverParameters::unspecified(), c),
        }
    }
}

/// `River` at position `i`, nested at most `d` deep: the type and the number
/// of characters it takes, or the position at which the input stops matching
/// (where a form would nest deeper than `d`, the position where it starts).
pub open spec fn river_at(s: Seq<char>, i: int, d: nat) -> Result<(RiverView, nat), int>
    decreases s.len() - i, 0int,
{
    match head_at(s, i) {
        None => Err(i),
        Some(_) if d == 0 => Err(i),
        Some(k) => {
            let p = i + keyword(k).len();
            if k == Kind::Bits {
                match uint_at(s, p) {
                    None => Err(p),
                    Some((w, n)) => if closes_at(s, p + n) {
                        Ok((RiverView::Bits(w), (p + n + 1 - i) as nat))
                    } else {
                        Err(p + n)
                    },
                }
            } else if k == Kind::Group || k == Kind::Union {
                match items_at(s, p, (d - 1) as nat) {
                    Err(e) => Err(e),
                    Ok((cs, n)) => if closes_at(s, p + n) {
                        Ok((RiverView::composite(k, cs), (p + n + 1 - i) as nat))
                    } else {
                        Err(p + n)
                    },
                }
            } else {
                match river_at(s, p, (d - 1) as nat) {
                    Err(e) => Err(e),
                    Ok((c, n)) => {
                        let t = tail_params_at(s, p + n);
                        if closes_at(s, p + n + t.1) {
                            Ok((RiverView::wrap(k, c, t.0), (p + n + t.1 + 1 - i) as nat))
                        } else {
                            Err(p + n + t.1)
                        }
                    },
                }
            }
        },
    }
}

/// One or more `River`s separated by commas, at position `i`. Where what
/// follows a comma is no `River`, the list ends before that comma.
pub open spec fn items_at(s: Seq<char>, i: int, d: nat) -> Result<(Seq<RiverView>, nat), int>
    decreases s.len() - i, 1int,
    via items_at_decreases
{
    match river_at(s, i, d) {
        Err(e) => Err(e),
        Ok((r, n)) => {
            let c = comma_len(s, i + n);
            if c == 0 {
                Ok((seq![r], n))
            } else {
                match items_at(s, i + n + c, d) {
                    Err(_) => Ok((seq![r], n)),
                    Ok((rs, m)) => Ok((seq![r] + rs, n + c + m)),
                }
            }
        },
    }
}

proof fn lemma_spaces_len_bound(s: Seq<char>, i: int)
    requires
        0 <= i <= s.len(),
    ensures
        i + spaces_len(s, i) <= s.len(),
    decreases s.len() - i,
{
    if i < s.len() {
        lemma_spaces_len_bound(s, i + 1);
    }
}

pub proof fn lemma_comma_len_bound(s: Seq<char>)
    ensures
        forall|j: int| #[trigger] comma_len(s, j) > 0 ==> j + comma_len(s, j) <= s.len(),
{
    assert forall|j: int| #[trigger] comma_len(s, j) > 0 implies j + comma_len(s, j) <= s.len() by {
        lemma_spaces_len_bound(s, j + 1);
    }
}

#[via_fn]
proof fn items_at_decreases(s: Seq<char>, i: int, d: nat) {
    lemma_comma_len_bound(s);
}

} // verus!

verus! {

// ---------------------------------------------------------------------------
// Lexical pieces.
// ---------------------------------------------------------------------------

proof fn lemma_digits_len_bound(s: Seq<char>, i: int)
    requires
        0 <= i <= s.len(),
    ensures
        i + digits_len(s, i) <= s.len(),
    decreases s.len() - i,
{
    if i < s.len() {
        lemma_digits_len_bound(s, i + 1);
    }
}

/// A prefix of a digit string denotes no more than the whole string.
proof fn lemma_decimal_prefix(d: Seq<char>, k: int)
    requires
        0 <= k <= d.len(),
    ensures
        decimal_value(d.subrange(0, k)) <= decimal_value(d),
    decreases d.len(),
{
    if k == d.len() {
        assert(d.subrange(0, k) =~= d);
    } else {
        lemma_decimal_prefix(d.drop_last(), k);
        assert(d.drop_last().subrange(0, k) =~= d.subrange(0, k));
    }
}

fn skip_spaces(s: &Vec<char>, i: usize) -> (r: usize)
    requires
        i <= s.len(),
    ensures
        r == i + spaces_len(s@, i as int),
        r <= s@.len(),
{
    let mut j = i;
    while j < s.len() && (s[j] == ' ' || s[j] == '\t')
        invariant
            i <= j <= s@.len(),
            spaces_len(s@, i as int) == (j - i) + spaces_len(s@, j as int),
        decreases s@.len() - j,
    {
        j += 1;
    }
    j
}

/// Length of a separating comma and the spaces after it, 0 where none stands at `i`.
fn parse_comma(s: &Vec<char>, i: usize) -> (r: usize)
    requires
        i <= s.len(),
    ensures
        r == comma_len(s@, i as int),
        i + r <= s@.len(),
{
    if i < s.len() && s[i] == ',' {
        let j = skip_spaces(s, i + 1);
        j - i
    } else {
        0
    }
}

/// An unsigned integer literal at `i`: its value and length.
fn parse_uint(s: &Vec<char>, i: usize) -> (r: Option<(usize, usize)>)
    requires
        i <= s.len(),
    ensures
        match uint_at(s@, i as int) {
            Some((v, n)) => r matches Some((x, m)) && x == v && m == n,
            None => r is None,
        },
        r matches Some((_, n)) ==> i + n <= s@.len(),
{
    let ghost g = s@;
    let mut j = i;
    let mut v: usize = 0;
    while j < s.len() && '0' <= s[j] && s[j] <= '9'
        invariant
            i <= j <= g.len(),
            g == s@,
            digits_len(g, i as int) == (j - i) + digits_len(g, j as int),
            v == decimal_value(g.subrange(i as int, j as int)),
        decreases g.len() - j,
    {
        let d = (s[j] as u32 - '0' as u32) as usize;
        assert(g.subrange(i as int, j + 1).drop_last() =~= g.subrange(i as int, j as int));
        proof {
            lemma_digits_len_bound(g, i as int);
            let n = digits_len(g, i as int);
            assert(g.subrange(i as int, i + n).subrange(0, j + 1 - i) =~= g.subrange(
                i as int,
                j + 1,
            ));
            lemma_decimal_prefix(g.subrange(i as int, i + n), j + 1 - i);
        }
        match v.checked_mul(10) {
            None => {
                return None;
            },
            Some(v10) => match v10.checked_add(d) {
                None => {
                    return None;
                },
                Some(nv) => {
                    v = nv;
                },
            },
        }
        j += 1;
    }
    if j == i {
        None
    } else {
        Some((v, j - i))
    }
}

} // verus!

verus! {

// ---------------------------------------------------------------------------
// The parser.
// ---------------------------------------------------------------------------

fn keyword_chars(k: Kind) -> (r: Vec<char>)
    ensures
        r@ == keyword(k),
{
    match k {
        Kind::Bits => vec!['B', 'i', 't', 's', '<'],
        Kind::Root => vec!['R', 'o', 'o', 't', '<'],
        Kind::Group => vec!['G', 'r', 'o', 'u', 'p', '<'],
        Kind::Dim => vec!['D', 'i', 'm', '<'],
        Kind::New => vec!['N', 'e', 'w', '<'],
        Kind::Rev => vec!['R', 'e', 'v', '<'],
        Kind::Union => vec!['U', 'n', 'i', 'o', 'n', '<'],
    }
}

fn parse_keyword(s: &Vec<char>, i: usize, k: Kind) -> (r: bool)
    requires
        i <= s.len(),
    ensures
        r == starts_with(s@, i as int, keyword(k)),
{
    let w = keyword_chars(k);
    if w.len() > s.len() - i {
        return false;
    }
    let mut m: usize = 0;
    while m < w.len()
        invariant
            w@ == keyword(k),
            m <= w@.len(),
            i + w@.len() <= s.len(),
            forall|x: int| 0 <= x < m ==> s@[i + x] == w@[x],
        decreases w@.len() - m,
    {
        if s[i + m] != w[m] {
            assert(s@.subrange(i as int, i + w@.len())[m as int] != w@[m as int]);
            return false;
        }
        m += 1;
    }
    assert(s@.subrange(i as int, i + w@.len()) =~= w@);
    true
}

fn parse_head(s: &Vec<char>, i: usize) -> (r: Option<Kind>)
    requires
        i <= s.len(),
    ensures
        r == head_at(s@, i as int),
{
    if parse_keyword(s, i, Kind::Union) {
        Some(Kind::Union)
    } else if parse_keyword(s, i, Kind::Rev) {
        Some(Kind::Rev)
    } else if parse_keyword(s, i, Kind::New) {
        Some(Kind::New)
    } else if parse_keyword(s, i, Kind::Dim) {
        Some(Kind::Dim)
    } else if parse_keyword(s, i, Kind::Group) {
        Some(Kind::Group)
    } else if parse_keyword(s, i, Kind::Root) {
        Some(Kind::Root)
    } else if parse_keyword(s, i, Kind::Bits) {
        Some(Kind::Bits)
    } else {
        None
    }
}

fn parse_opt_uint(s: &Vec<char>, i: usize) -> (r: (Option<usize>, usize))
    requires
        i <= s.len(),
    ensures
        (r.0, r.1 as nat) == opt_uint_at(s@, i as int),
        i + r.1 <= s@.len(),
{
    match parse_uint(s, i) {
        Some((v, n)) => (Some(v), n),
        None => (None, 0),
    }
}

/// Parameters at `i`: their value and length.
fn parse_params(s: &Vec<char>, i: usize) -> (r: Option<(RiverParameters, usize)>)
    requires
        i <= s.len(),
    ensures
        match params_at(s@, i as int) {
            Some((p, n)) => r matches Some((x, m)) && x == p && m == n,
            None => r is None,
        },
        r matches Some((_, n)) ==> i + n <= s@.len(),
{
    match parse_uint(s, i) {
        None => None,
        Some((e, n1)) => {
            let at_sep1 = i + n1;
            let at_c = at_sep1 + parse_comma(s, at_sep1);
            let c = parse_opt_uint(s, at_c);
            let at_sep2 = at_c + c.1;
            let at_u = at_sep2 + parse_comma(s, at_sep2);
            let u = parse_opt_uint(s, at_u);
            Some((RiverParameters { elements: Some(e), complexity: c.0, userbits: u.0 }, at_u + u.1 - i))
        },
    }
}

fn parse_tail_params(s: &Vec<char>, i: usize) -> (r: (RiverParameters, usize))
    requires
        i <= s.len(),
    ensures
        (r.0, r.1 as nat) == tail_params_at(s@, i as int),
        i + r.1 <= s@.len(),
{
    let c = parse_comma(s, i);
    if c == 0 {
        (RiverParameters { elements: None, complexity: None, userbits: None }, 0)
    } else {
        match parse_params(s, i + c) {
            Some((p, m)) => (p, c + m),
            None => (RiverParameters { elements: None, complexity: None, userbits: None }, c),
        }
    }
}

/// `items_at` on a list whose first items `pre` are already known: they take
/// `back` characters, and `d` with the comma after them. Where no item
/// follows that comma, the list is `pre`.
pub open spec fn extend(
    pre: Seq<RiverView>,
    d: nat,
    back: nat,
    rest: Result<(Seq<RiverView>, nat), int>,
) -> Result<(Seq<RiverView>, nat), int> {
    match rest {
        Ok((rs, m)) => Ok((pre + rs, d + m)),
        Err(e) => if pre.len() == 0 {
            Err(e)
        } else {
            Ok((pre, back))
        },
    }
}

proof fn lemma_views_push(rs: Seq<River>, r: River)
    ensures
        views_of(rs.push(r)) == views_of(rs).push(view_of(r)),
        sizes(views_of(rs.push(r))) == sizes(views_of(rs)) + size(view_of(r)),
{
    assert(rs.push(r).subrange(0, rs.len() as int) =~= rs);
    let v = views_of(rs.push(r));
    assert(v.subrange(0, v.len() - 1) =~= views_of(rs));
}

/// A `River` at position `i`.
#[verifier::rlimit(40)]
pub fn parse_river(s: &Vec<char>, i: usize, d: usize) -> (r: Result<(River, usize), usize>)
    requires
        i <= s.len(),
    ensures
        match river_at(s@, i as int, d as nat) {
            Ok((t, n)) => r matches Ok((x, m)) && x@ == t && m == n && i + m <= s@.len()
                && size(t) <= n,
            Err(p) => r matches Err(q) && q == p,
        },
    decreases s@.len() - i, 0int,
{
    match parse_head(s, i) {
        None => Err(i),
        Some(_) if d == 0 => Err(i),
        Some(k) => {
            let p = i + keyword_chars(k).len();
            match k {
                Kind::Bits => match parse_uint(s, p) {
                    None => Err(p),
                    Some((w, n)) => {
                        if p + n < s.len() && s[p + n] == '>' {
                            Ok((River::Bits(w), p + n + 1 - i))
                        } else {
                            Err(p + n)
                        }
                    },
                },
                Kind::Group | Kind::Union => match parse_items(s, p, d - 1) {
                    Err(e) => Err(e),
                    Ok((cs, n)) => {
                        if p + n < s.len() && s[p + n] == '>' {
                            let t = if k == Kind::Group {
                                River::Group(cs)
                            } else {
                                River::Union(cs)
                            };
                            Ok((t, p + n + 1 - i))
                        } else {
                            Err(p + n)
                        }
                    },
                },
                _ => match parse_river(s, p, d - 1) {
                    Err(e) => Err(e),
                    Ok((c, n)) => {
                        let tp = parse_tail_params(s, p + n);
                        let q = p + n + tp.1;
                        if q < s.len() && s[q] == '>' {
                            let b = Box::new(c);
                            let t = match k {
                                Kind::Root => River::Root(b, tp.0),
                                Kind::Dim => River::Dim(b, tp.0),
                                Kind::New => River::New(b, tp.0),
                                _ => River::Rev(b, tp.0),
                            };
                            Ok((t, q + 1 - i))
                        } else {
                            Err(q)
                        }
                    },
                },
            }
        },
    }
}

/// One or more `River`s separated by commas, at position `i`; the list ends
/// before a comma that no `River` follows.
pub fn parse_items(s: &Vec<char>, i: usize, d: usize) -> (r: Result<(Vec<River>, usize), usize>)
    requires
        i <= s.len(),
    ensures
        match items_at(s@, i as int, d as nat) {
            Ok((ts, n)) => r matches Ok((xs, m)) && views_of(xs@) == ts && m == n && i + m
                <= s@.len() && sizes(ts) <= n,
            Err(p) => r matches Err(q) && q == p,
        },
    decreases s@.len() - i, 1int,
{
    let ghost g = s@;
    let mut kids: Vec<River> = Vec::new();
    let mut cur = i;
    let mut back: usize = 0;
    assert(extend(views_of(kids@), 0, 0, items_at(g, i as int, d as nat)) =~= items_at(
        g,
        i as int,
        d as nat,
    )) by {
        match items_at(g, i as int, d as nat) {
            Ok((rs, m)) => assert(views_of(kids@) + rs =~= rs),
            Err(_) => {},
        }
    }
    loop
        invariant
            g == s@,
            i <= cur <= s.len(),
            items_at(g, i as int, d as nat) == extend(
                views_of(kids@),
                (cur - i) as nat,
                back as nat,
                items_at(g, cur as int, d as nat),
            ),
            sizes(views_of(kids@)) <= back,
            back <= cur - i,
        decreases g.len() - cur,
    {
        match parse_river(s, cur, d) {
            Err(p) => {
                if kids.len() == 0 {
                    return Err(p);
                }
                return Ok((kids, back));
            },
            Ok((x, n)) => {
                let e = cur + n;
                let c = parse_comma(s, e);
                proof {
                    lemma_views_push(kids@, x);
                }
                let ghost old_kids = kids@;
                kids.push(x);
                if c == 0 {
                    assert(views_of(old_kids) + seq![x@] =~= views_of(kids@));
                    return Ok((kids, e - i));
                }
                proof {
                    match items_at(g, e + c, d as nat) {
                        Ok((rs, m)) => {
                            assert(views_of(old_kids) + (seq![x@] + rs) =~= views_of(kids@) + rs);
                        },
                        Err(_) => {
                            assert(views_of(old_kids) + seq![x@] =~= views_of(kids@));
                        },
                    }
                }
                cur = e + c;
                back = e - i;
            },
        }
    }
}

} // verus!

verus! {

// ---------------------------------------------------------------------------
// Entry points on text.
// ---------------------------------------------------------------------------

/// A syntax error: the character offset at which the input stops matching
/// the grammar.
#[derive(Clone, Copy, Debug, PartialEq, Eq)]
pub struct ParseError {
    pub offset: usize,
}

fn chars_of(input: &str) -> (r: Vec<char>)
    ensures
        r@ == input@,
{
    broadcast use vstd::string::group_string_axioms;

    let mut v: Vec<char> = Vec::new();
    for c in it: input.chars()
        invariant
            v@ == it.seq().take(it.index()),
    {
        assert(it.seq().take(it.index() + 1) =~= v@.push(c));
        v.push(c);
    }
    assert(v@ =~= input@);
    v
}

/// How deep types may nest in the text that `parse` and the other entry
/// points read; deeper input is a syntax error.
pub const MAX_DEPTH: usize = 100;

/// Parsing a whole input, nested at most `d` deep: a type that takes all of
/// it, or the offset of the first character that does not fit.
pub open spec fn parse_limited(s: Seq<char>, d: nat) -> Result<RiverView, int> {
    match river_at(s, 0, d) {
        Ok((t, n)) => if n == s.len() {
            Ok(t)
        } else {
            Err(n as int)
        },
        Err(p) => Err(p),
    }
}

/// Parsing a whole input, nested at most `MAX_DEPTH` deep.
pub open spec fn parse_spec(s: Seq<char>) -> Result<RiverView, int> {
    parse_limited(s, MAX_DEPTH as nat)
}

/// A form of kind `k` at the start of `s`, and nothing else.
pub open spec fn form_at(s: Seq<char>, k: Kind) -> Result<(RiverView, nat), int> {
    if head_at(s, 0) == Some(k) {
        river_at(s, 0, MAX_DEPTH as nat)
    } else {
        Err(0)
    }
}

/// The input that follows the first `n` characters.
pub open spec fn rest_after(s: Seq<char>, n: nat) -> Seq<char> {
    s.subrange(n as int, s.len() as int)
}

/// The text of one River type, all of it, nested at most `MAX_DEPTH` deep.
/// The tree it describes has at most as many nodes as the text has
/// characters.
pub fn parse(input: &str) -> (r: Result<River, ParseError>)
    ensures
        match parse_spec(input@) {
            Ok(t) => r matches Ok(x) && x@ == t && size(t) <= input@.len() && size(t)
                <= usize::MAX,
            Err(p) => r matches Err(e) && e.offset == p,
        },
{
    parse_with_limit(input, MAX_DEPTH)
}

/// The text of one River type, all of it, nested at most `max_depth` deep.
pub fn parse_with_limit(input: &str, max_depth: usize) -> (r: Result<River, ParseError>)
    ensures
        match parse_limited(input@, max_depth as nat) {
            Ok(t) => r matches Ok(x) && x@ == t && size(t) <= input@.len() && size(t)
                <= usize::MAX,
            Err(p) => r matches Err(e) && e.offset == p,
        },
{
    let s = chars_of(input);
    assert(s@.len() == s.len());
    match parse_river(&s, 0, max_depth) {
        Ok((t, n)) => if n == s.len() {
            Ok(t)
        } else {
            Err(ParseError { offset: n })
        },
        Err(p) => Err(ParseError { offset: p }),
    }
}

/// Parses a River type at the start of `input`; returns what follows it.
pub fn river_type<'a>(input: &'a str) -> (r: Result<(&'a str, River), ParseError>)
    ensures
        match river_at(input@, 0, MAX_DEPTH as nat) {
            Ok((t, n)) => r matches Ok((rest, x)) && x@ == t && rest@ == rest_after(input@, n),
            Err(p) => r matches Err(e) && e.offset == p,
        },
{
    let s = chars_of(input);
    match parse_river(&s, 0, MAX_DEPTH) {
        Ok((t, n)) => Ok((input.substring_char(n, s.len()), t)),
        Err(p) => Err(ParseError { offset: p }),
    }
}

fn river_form<'a>(input: &'a str, k: Kind) -> (r: Result<(&'a str, River), ParseError>)
    ensures
        match form_at(input@, k) {
            Ok((t, n)) => r matches Ok((rest, x)) && x@ == t && rest@ == rest_after(input@, n),
            Err(p) => r matches Err(e) && e.offset == p,
        },
{
    let s = chars_of(input);
    match parse_head(&s, 0) {
        Some(h) => if h == k {
            match parse_river(&s, 0, MAX_DEPTH) {
                Ok((t, n)) => Ok((input.substring_char(n, s.len()), t)),
                Err(p) => Err(ParseError { offset: p }),
            }
        } else {
            Err(ParseError { offset: 0 })
        },
        None => Err(ParseError { offset: 0 }),
    }
}

/// Parses a `Bits<b>` at the start of `input`.
pub fn bits<'a>(input: &'a str) -> (r: Result<(&'a str, River), ParseError>)
    ensures
        match form_at(input@, Kind::Bits) {
            Ok((t, n)) => r matches Ok((rest, x)) && x@ == t && rest@ == rest_after(input@, n),
            Err(p) => r matches Err(e) && e.offset == p,
        },
{
    river_form(input, Kind::Bits)
}

/// Parses a `Root<T, N, C, U>` at the start of `input`.
pub fn root<'a>(input: &'a str) -> (r: Result<(&'a str, River), ParseError>)
    ensures
        match form_at(input@, Kind::Root) {
            Ok((t, n)) => r matches Ok((rest, x)) && x@ == t && rest@ == rest_after(input@, n),
            Err(p) => r matches Err(e) && e.offset == p,
        },
{
    river_form(input, Kind::Root)
}

/// Parses a `Group<T, U, ...>` at the start of `input`.
pub fn group<'a>(input: &'a str) -> (r: Result<(&'a str, River), ParseError>)
    ensures
        match form_at(input@, Kind::Group) {
            Ok((t, n)) => r matches Ok((rest, x)) && x@ == t && rest@ == rest_after(input@, n),
            Err(p) => r matches Err(e) && e.offset == p,
        },
{
    river_form(input, Kind::Group)
}

/// Parses a `Dim<T, N, C, U>` at the start of `input`.
pub fn dim<'a>(input: &'a str) -> (r: Result<(&'a str, River), ParseError>)
    ensures
        match form_at(input@, Kind::Dim) {
            Ok((t, n)) => r matches Ok((rest, x)) && x@ == t && rest@ == rest_after(input@, n),
            Err(p) => r matches Err(e) && e.offset == p,
        },
{
    river_form(input, Kind::Dim)
}

/// Parses a `New<T, N, C, U>` at the start of `input`.
pub fn new<'a>(input: &'a str) -> (r: Result<(&'a str, River), ParseError>)
    ensures
        match form_at(input@, Kind::New) {
            Ok((t, n)) => r matches Ok((rest, x)) && x@ == t && rest@ == rest_after(input@, n),
            Err(p) => r matches Err(e) && e.offset == p,
        },
{
    river_form(input, Kind::New)
}

/// Parses a `Rev<T, N, C, U>` at the start of `input`.
pub fn rev<'a>(input: &'a str) -> (r: Result<(&'a str, River), ParseError>)
    ensures
        match form_at(input@, Kind::Rev) {
            Ok((t, n)) => r matches Ok((rest, x)) && x@ == t && rest@ == rest_after(input@, n),
            Err(p) => r matches Err(e) && e.offset == p,
        },
{
    river_form(input, Kind::Rev)
}

/// Parses a `Union<T, U, ...>` at the start of `input`.
pub fn union<'a>(input: &'a str) -> (r: Result<(&'a str, River), ParseError>)
    ensures
        match form_at(input@, Kind::Union) {
            Ok((t, n)) => r matches Ok((rest, x)) && x@ == t && rest@ == rest_after(input@, n),
            Err(p) => r matches Err(e) && e.offset == p,
        },
{
    river_form(input, Kind::Union)
}

/// Parses the parameters `N, C, U` at the start of `input`.
pub fn river_parameters<'a>(input: &'a str) -> (r: Result<(&'a str, RiverParameters), ParseError>)
    ensures
        match params_at(input@, 0) {
            Some((p, n)) => r matches Ok((rest, x)) && x == p && rest@ == rest_after(input@, n),
            None => r matches Err(e) && e.offset == 0,
        },
{
    let s = chars_of(input);
    match parse_params(&s, 0) {
        Some((p, n)) => Ok((input.substring_char(n, s.len()), p)),
        None => Err(ParseError { offset: 0 }),
    }
}

} // verus!
