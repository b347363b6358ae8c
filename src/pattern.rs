//! Route patterns: parsing, matching against a path, conflicts between
//! patterns, and case-insensitive correction of a path.
use vstd::prelude::*;

verus! {

/// One position of a pattern, as a mathematical value.
pub enum Seg {
    /// A literal character that the path must hold at this position, as a
    /// one-character sequence.
    Lit(Seq<char>),
    /// `:name`: one non-empty path segment (no `/`).
    Param(Seq<char>),
    /// `*name`: the rest of the path, starting at a `/`.
    CatchAll(Seq<char>),
}

/// One position of a parsed pattern.
pub enum Tok {
    Lit(char),
    Param(Vec<char>),
    CatchAll(Vec<char>),
}

impl View for Tok {
    type V = Seg;

    open spec fn view(&self) -> Seg {
        match self {
            Tok::Lit(c) => Seg::Lit(seq![*c]),
            Tok::Param(n) => Seg::Param(n@),
            Tok::CatchAll(n) => Seg::CatchAll(n@),
        }
    }
}

pub open spec fn segs_of(v: Seq<Tok>) -> Seq<Seg> {
    v.map_values(|t: Tok| t@)
}

pub open spec fn pairs_of(v: Seq<(Vec<char>, Vec<char>)>) -> Seq<(Seq<char>, Seq<char>)> {
    v.map_values(|p: (Vec<char>, Vec<char>)| (p.0@, p.1@))
}

pub open spec fn is_wild_char(c: char) -> bool {
    c == ':' || c == '*'
}

/// The first position at or after `i` that holds `/`, or the length of `p`.
pub open spec fn seg_end(p: Seq<char>, i: int) -> int
    decreases p.len() - i,
{
    if i >= p.len() {
        p.len() as int
    } else if p[i] == '/' {
        i
    } else {
        seg_end(p, i + 1)
    }
}

/// A wildcard name: non-empty, without `/`, `:` or `*`.
pub open spec fn valid_name(n: Seq<char>) -> bool {
    n.len() > 0 && forall|k: int| 0 <= k < n.len() ==> n[k] != '/' && !is_wild_char(#[trigger] n[k])
}

/// The tokens of `p` from position `i` on, or `None` if that text is not a
/// valid pattern tail: every `:name` has a valid name running to the next `/`
/// or the end, and a `*name` stands right after a `/` and runs to the end.
pub open spec fn parse_at(p: Seq<char>, i: int) -> Option<Seq<Seg>>
    decreases p.len() - i,
{
    if i < 0 || i >= p.len() {
        Some(Seq::empty())
    } else if p[i] == ':' {
        let e = seg_end(p, i + 1);
        if i < e <= p.len() && valid_name(p.subrange(i + 1, e)) {
            match parse_at(p, e) {
                Some(r) => Some(seq![Seg::Param(p.subrange(i + 1, e))] + r),
                None => None,
            }
        } else {
            None
        }
    } else if p[i] == '/' && i + 1 < p.len() && p[i + 1] == '*' {
        if valid_name(p.subrange(i + 2, p.len() as int)) {
            Some(seq![Seg::CatchAll(p.subrange(i + 2, p.len() as int))])
        } else {
            None
        }
    } else if p[i] == '*' {
        None
    } else {
        match parse_at(p, i + 1) {
            Some(r) => Some(seq![Seg::Lit(seq![p[i]])] + r),
            None => None,
        }
    }
}

/// The tokens of pattern `p`, if it is valid.
pub open spec fn parse(p: Seq<char>) -> Option<Seq<Seg>> {
    parse_at(p, 0)
}

/// Matches `path` from position `j` against `pat` from position `t`, giving
/// the bound parameters in order.
pub open spec fn match_at(pat: Seq<Seg>, t: int, path: Seq<char>, j: int) -> Option<Seq<(Seq<char>, Seq<char>)>>
    decreases pat.len() - t,
{
    if t < 0 || t >= pat.len() {
        if j == path.len() { Some(Seq::empty()) } else { None }
    } else {
        match pat[t] {
            Seg::Lit(c) => if 0 <= j < path.len() && c == seq![path[j]] {
                match_at(pat, t + 1, path, j + 1)
            } else {
                None
            },
            Seg::Param(n) => {
                let e = seg_end(path, j);
                if 0 <= j < e {
                    match match_at(pat, t + 1, path, e) {
                        Some(r) => Some(seq![(n, path.subrange(j, e))] + r),
                        None => None,
                    }
                } else {
                    None
                }
            },
            Seg::CatchAll(n) => if 0 <= j < path.len() && path[j] == '/' && t + 1 == pat.len() {
                Some(seq![(n, path.subrange(j, path.len() as int))])
            } else {
                None
            },
        }
    }
}

/// The parameters that `path` binds when it matches `pat`.
pub open spec fn route_match(pat: Seq<Seg>, path: Seq<char>) -> Option<Seq<(Seq<char>, Seq<char>)>> {
    match_at(pat, 0, path, 0)
}

/// Two patterns conflict from position `k` on when they are equal there, or
/// when at the first position where they differ at least one holds a wildcard.
pub open spec fn conflict_at(a: Seq<Seg>, b: Seq<Seg>, k: int) -> bool
    decreases a.len() - k,
{
    if k < 0 || k >= a.len() || k >= b.len() {
        a.len() == b.len()
    } else {
        match (a[k], b[k]) {
            (Seg::Lit(x), Seg::Lit(y)) => x == y && conflict_at(a, b, k + 1),
            (Seg::Param(x), Seg::Param(y)) => x != y || conflict_at(a, b, k + 1),
            (Seg::CatchAll(x), Seg::CatchAll(y)) => x != y || conflict_at(a, b, k + 1),
            _ => true,
        }
    }
}

pub open spec fn conflict(a: Seq<Seg>, b: Seq<Seg>) -> bool {
    conflict_at(a, b, 0)
}

/// `a` and `b` are equal up to ASCII case.
pub open spec fn same_fold(a: char, b: char) -> bool {
    a == b || ('A' <= a <= 'Z' && b as u32 == a as u32 + 32) || ('A' <= b <= 'Z' && a as u32 == b as u32 + 32)
}

/// Matches `path` from `j` against `pat` from `t`, literal characters up to
/// ASCII case, giving the path rewritten with the pattern's own literal
/// characters (parameter text is kept as it is).
pub open spec fn fold_at(pat: Seq<Seg>, t: int, path: Seq<char>, j: int) -> Option<Seq<char>>
    decreases pat.len() - t,
{
    if t < 0 || t >= pat.len() {
        if j == path.len() { Some(Seq::empty()) } else { None }
    } else {
        match pat[t] {
            Seg::Lit(c) => if 0 <= j < path.len() && c.len() == 1 && same_fold(path[j], c[0]) {
                match fold_at(pat, t + 1, path, j + 1) {
                    Some(r) => Some(c + r),
                    None => None,
                }
            } else {
                None
            },
            Seg::Param(n) => {
                let e = seg_end(path, j);
                if 0 <= j < e {
                    match fold_at(pat, t + 1, path, e) {
                        Some(r) => Some(path.subrange(j, e) + r),
                        None => None,
                    }
                } else {
                    None
                }
            },
            Seg::CatchAll(n) => if 0 <= j < path.len() && path[j] == '/' && t + 1 == pat.len() {
                Some(path.subrange(j, path.len() as int))
            } else {
                None
            },
        }
    }
}

pub open spec fn fold_match(pat: Seq<Seg>, path: Seq<char>) -> Option<Seq<char>> {
    fold_at(pat, 0, path, 0)
}

pub proof fn lemma_seg_end_bounds(p: Seq<char>, i: int)
    requires
        0 <= i,
    ensures
        i <= p.len() ==> i <= seg_end(p, i) <= p.len(),
        i >= p.len() ==> seg_end(p, i) == p.len(),
        forall|k: int| i <= k < seg_end(p, i) ==> p[k] != '/',
        seg_end(p, i) < p.len() ==> p[seg_end(p, i)] == '/',
    decreases p.len() - i,
{
    if i < p.len() && p[i] != '/' {
        lemma_seg_end_bounds(p, i + 1);
    }
}

/// Patterns that do not conflict never match the same path.
pub proof fn lemma_no_overlap(a: Seq<Seg>, b: Seq<Seg>, k: int, path: Seq<char>, j: int)
    requires
        0 <= k <= a.len(),
        k <= b.len(),
        0 <= j,
        !conflict_at(a, b, k),
    ensures
        !(match_at(a, k, path, j) is Some && match_at(b, k, path, j) is Some),
    decreases a.len() - k,
{
    lemma_seg_end_bounds(path, j);
    if k >= a.len() || k >= b.len() {
        if k < b.len() && match_at(a, k, path, j) is Some {
            assert(j == path.len());
            assert(match_at(b, k, path, j) is None);
        } else if k < a.len() && match_at(b, k, path, j) is Some {
            assert(j == path.len());
            assert(match_at(a, k, path, j) is None);
        }
    } else {
        match (a[k], b[k]) {
            (Seg::Lit(x), Seg::Lit(y)) => {
                if x == y {
                    lemma_no_overlap(a, b, k + 1, path, j + 1);
                }
            },
            (Seg::Param(x), Seg::Param(y)) => {
                lemma_no_overlap(a, b, k + 1, path, seg_end(path, j));
            },
            (Seg::CatchAll(x), Seg::CatchAll(y)) => {
                if x == y && k + 1 == a.len() && k + 1 == b.len() {
                    assert(conflict_at(a, b, k + 1));
                }
            },
            _ => {},
        }
    }
}

// ---- executable parts ----

/// `v` with `x` put in front.
pub fn prepend<T>(x: T, v: Vec<T>) -> (r: Vec<T>)
    ensures
        r@ == seq![x] + v@,
        r@.len() == v@.len() + 1,
        r@[0] == x,
        forall|k: int| 0 < k < r@.len() ==> r@[k] == v@[k - 1],
{
    let mut r: Vec<T> = Vec::new();
    r.push(x);
    let mut w = v;
    r.append(&mut w);
    assert(r@[0] == x);
    r
}

pub fn eq_chars(a: &Vec<char>, b: &Vec<char>) -> (r: bool)
    ensures
        r == (a@ == b@),
{
    if a.len() != b.len() {
        return false;
    }
    let mut i: usize = 0;
    while i < a.len()
        invariant
            i <= a.len() == b.len(),
            forall|k: int| 0 <= k < i ==> a@[k] == b@[k],
        decreases a.len() - i,
    {
        if a[i] != b[i] {
            return false;
        }
        i += 1;
    }
    assert(a@ =~= b@);
    true
}

/// The characters of `p` from `a` up to `b`.
pub fn slice_chars(p: &Vec<char>, a: usize, b: usize) -> (r: Vec<char>)
    requires
        a <= b <= p.len(),
    ensures
        r@ == p@.subrange(a as int, b as int),
{
    let mut v: Vec<char> = Vec::new();
    let mut i: usize = a;
    while i < b
        invariant
            a <= i <= b <= p.len(),
            v@ == p@.subrange(a as int, i as int),
        decreases b - i,
    {
        v.push(p[i]);
        i += 1;
        assert(v@ =~= p@.subrange(a as int, i as int));
    }
    v
}

pub fn seg_end_exec(p: &Vec<char>, i: usize) -> (r: usize)
    requires
        i <= p.len(),
    ensures
        r == seg_end(p@, i as int),
        i <= r <= p.len(),
{
    let mut k: usize = i;
    while k < p.len() && p[k] != '/'
        invariant
            i <= k <= p.len(),
            seg_end(p@, k as int) == seg_end(p@, i as int),
        decreases p.len() - k,
    {
        k += 1;
    }
    k
}

fn valid_name_exec(p: &Vec<char>, a: usize, b: usize) -> (r: bool)
    requires
        a <= b <= p.len(),
    ensures
        r == valid_name(p@.subrange(a as int, b as int)),
{
    if a == b {
        return false;
    }
    let mut i: usize = a;
    while i < b
        invariant
            a <= i <= b <= p.len(),
            forall|k: int| a <= k < i ==> p@[k] != '/' && !is_wild_char(#[trigger] p@[k]),
        decreases b - i,
    {
        if p[i] == '/' || p[i] == ':' || p[i] == '*' {
            assert(p@.subrange(a as int, b as int)[i - a] == p@[i as int]);
            return false;
        }
        i += 1;
    }
    true
}

fn parse_from(p: &Vec<char>, i: usize) -> (r: Option<Vec<Tok>>)
    requires
        i <= p.len(),
    ensures
        r matches Some(v) ==> parse_at(p@, i as int) == Some(segs_of(v@)),
        r is None <==> parse_at(p@, i as int) is None,
    decreases p.len() - i,
{
    if i >= p.len() {
        return Some(Vec::new());
    }
    if p[i] == ':' {
        let e = seg_end_exec(p, i + 1);
        if !valid_name_exec(p, i + 1, e) {
            return None;
        }
        match parse_from(p, e) {
            Some(tail) => {
                let name = slice_chars(p, i + 1, e);
                let rest = prepend(Tok::Param(name), tail);
                assert(segs_of(rest@) =~= seq![Seg::Param(p@.subrange(i + 1, e as int))] + parse_at(p@, e as int)->0);
                Some(rest)
            },
            None => None,
        }
    } else if p[i] == '/' && i + 1 < p.len() && p[i + 1] == '*' {
        if !valid_name_exec(p, i + 2, p.len()) {
            return None;
        }
        let name = slice_chars(p, i + 2, p.len());
        let mut v: Vec<Tok> = Vec::new();
        v.push(Tok::CatchAll(name));
        assert(segs_of(v@) =~= seq![Seg::CatchAll(p@.subrange(i + 2, p.len() as int))]);
        Some(v)
    } else if p[i] == '*' {
        None
    } else {
        match parse_from(p, i + 1) {
            Some(tail) => {
                let c = p[i];
                let ghost t = segs_of(tail@);
                assert(parse_at(p@, i + 1) == Some(t));
                assert(parse_at(p@, i as int) == Some(seq![Seg::Lit(seq![c])] + t));
                let tok = Tok::Lit(c);
                assert(tok@ == Seg::Lit(seq![c]));
                let rest = prepend(tok, tail);
                assert(segs_of(rest@) =~= seq![Seg::Lit(seq![c])] + t);
                Some(rest)
            },
            None => None,
        }
    }
}

/// Parses a pattern into its tokens.
pub fn parse_pattern(p: &Vec<char>) -> (r: Option<Vec<Tok>>)
    ensures
        r matches Some(v) ==> parse(p@) == Some(segs_of(v@)),
        r is None <==> parse(p@) is None,
{
    parse_from(p, 0)
}

fn match_from(pat: &Vec<Tok>, t: usize, path: &Vec<char>, j: usize) -> (r: Option<Vec<(Vec<char>, Vec<char>)>>)
    requires
        t <= pat.len(),
        j <= path.len(),
    ensures
        r matches Some(v) ==> match_at(segs_of(pat@), t as int, path@, j as int) == Some(pairs_of(v@)),
        r is None <==> match_at(segs_of(pat@), t as int, path@, j as int) is None,
    decreases pat.len() - t,
{
    if t >= pat.len() {
        if j == path.len() {
            return Some(Vec::new());
        }
        return None;
    }
    match &pat[t] {
        Tok::Lit(c) => {
            assert(seq![*c][0] == *c);
            if j < path.len() && path[j] == *c {
                assert(seq![*c] =~= seq![path@[j as int]]);
                match_from(pat, t + 1, path, j + 1)
            } else {
                None
            }
        },
        Tok::Param(n) => {
            let e = seg_end_exec(path, j);
            if j < e {
                match match_from(pat, t + 1, path, e) {
                    Some(tail) => {
                        let v = slice_chars(path, j, e);
                        let k = n.clone();
                        let rest = prepend((k, v), tail);
                        assert(pairs_of(rest@) =~= seq![(n@, path@.subrange(j as int, e as int))]
                            + match_at(segs_of(pat@), t + 1, path@, e as int)->0);
                        Some(rest)
                    },
                    None => None,
                }
            } else {
                None
            }
        },
        Tok::CatchAll(n) => {
            if j < path.len() && path[j] == '/' && t + 1 == pat.len() {
                let v = slice_chars(path, j, path.len());
                let k = n.clone();
                let mut r: Vec<(Vec<char>, Vec<char>)> = Vec::new();
                r.push((k, v));
                assert(pairs_of(r@) =~= seq![(n@, path@.subrange(j as int, path@.len() as int))]);
                Some(r)
            } else {
                None
            }
        },
    }
}

/// Matches a whole path against a pattern.
pub fn match_pattern(pat: &Vec<Tok>, path: &Vec<char>) -> (r: Option<Vec<(Vec<char>, Vec<char>)>>)
    ensures
        r matches Some(v) ==> route_match(segs_of(pat@), path@) == Some(pairs_of(v@)),
        r is None <==> route_match(segs_of(pat@), path@) is None,
{
    match_from(pat, 0, path, 0)
}

fn same_tok(a: &Tok, b: &Tok) -> (r: bool)
    ensures
        r == (a@ == b@),
{
    match (a, b) {
        (Tok::Lit(x), Tok::Lit(y)) => {
            assert(seq![*x][0] == *x && seq![*y][0] == *y);
            *x == *y
        },
        (Tok::Param(x), Tok::Param(y)) => eq_chars(x, y),
        (Tok::CatchAll(x), Tok::CatchAll(y)) => eq_chars(x, y),
        _ => false,
    }
}

fn is_wild(t: &Tok) -> (r: bool)
    ensures
        r == !(t@ is Lit),
{
    match t {
        Tok::Lit(_) => false,
        _ => true,
    }
}

/// Whether two patterns conflict.
pub fn conflicts(a: &Vec<Tok>, b: &Vec<Tok>) -> (r: bool)
    ensures
        r == conflict(segs_of(a@), segs_of(b@)),
{
    let ghost sa = segs_of(a@);
    let ghost sb = segs_of(b@);
    let mut k: usize = 0;
    while k < a.len() && k < b.len()
        invariant
            k <= a.len(),
            k <= b.len(),
            sa == segs_of(a@),
            sb == segs_of(b@),
            conflict_at(sa, sb, 0) == conflict_at(sa, sb, k as int),
        decreases a.len() - k,
    {
        let same = same_tok(&a[k], &b[k]);
        if !same {
            return is_wild(&a[k]) || is_wild(&b[k]);
        }
        k += 1;
    }
    a.len() == b.len()
}

fn same_fold_exec(a: char, b: char) -> (r: bool)
    ensures
        r == same_fold(a, b),
{
    a == b || ('A' <= a && a <= 'Z' && (b as u32) == (a as u32) + 32) || ('A' <= b && b <= 'Z' && (a as u32) == (b as u32) + 32)
}

fn fold_from(pat: &Vec<Tok>, t: usize, path: &Vec<char>, j: usize) -> (r: Option<Vec<char>>)
    requires
        t <= pat.len(),
        j <= path.len(),
    ensures
        r matches Some(v) ==> fold_at(segs_of(pat@), t as int, path@, j as int) == Some(v@),
        r is None <==> fold_at(segs_of(pat@), t as int, path@, j as int) is None,
    decreases pat.len() - t,
{
    if t >= pat.len() {
        if j == path.len() {
            return Some(Vec::new());
        }
        return None;
    }
    match &pat[t] {
        Tok::Lit(c) => {
            if j < path.len() && same_fold_exec(path[j], *c) {
                match fold_from(pat, t + 1, path, j + 1) {
                    Some(tail) => Some(prepend(*c, tail)),
                    None => None,
                }
            } else {
                None
            }
        },
        Tok::Param(_) => {
            let e = seg_end_exec(path, j);
            if j < e {
                match fold_from(pat, t + 1, path, e) {
                    Some(tail) => {
                        let mut v = slice_chars(path, j, e);
                        let mut w = tail;
                        v.append(&mut w);
                        Some(v)
                    },
                    None => None,
                }
            } else {
                None
            }
        },
        Tok::CatchAll(_) => {
            if j < path.len() && path[j] == '/' && t + 1 == pat.len() {
                Some(slice_chars(path, j, path.len()))
            } else {
                None
            }
        },
    }
}

/// Matches a whole path against a pattern up to the case of its literal
/// characters, giving the path in the pattern's own case.
pub fn fold_pattern(pat: &Vec<Tok>, path: &Vec<char>) -> (r: Option<Vec<char>>)
    ensures
        r matches Some(v) ==> fold_match(segs_of(pat@), path@) == Some(v@),
        r is None <==> fold_match(segs_of(pat@), path@) is None,
{
    fold_from(pat, 0, path, 0)
}

} // verus!
