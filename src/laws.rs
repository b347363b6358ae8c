//! General properties of the router, proved over the models used by the
//! contracts of registration, lookup, cleaning and dispatch.
use vstd::prelude::*;
use crate::path::{clean, clean_stack, segments, lemma_clean_idempotent, lemma_segments_clean};
use crate::pattern::{is_wild_char, match_at, parse, parse_at, route_match, seg_end, valid_name, Seg};
use crate::router::{connect_name, options_name, redirect_code, star_path, Decision, Route};
use crate::tree::{first_match, lemma_unique_match, no_conflicts, toggle_slash};

verus! {

/// The pattern made of the literal characters of `s`.
pub open spec fn literal_pattern(s: Seq<char>) -> Seq<Seg>
    decreases s.len(),
{
    if s.len() == 0 {
        Seq::empty()
    } else {
        literal_pattern(s.drop_last()).push(Seg::Lit(seq![s.last()]))
    }
}

proof fn lemma_literal_pattern(s: Seq<char>)
    ensures
        literal_pattern(s).len() == s.len(),
        forall|k: int| 0 <= k < s.len() ==> #[trigger] literal_pattern(s)[k] == Seg::Lit(seq![s[k]]),
    decreases s.len(),
{
    if s.len() > 0 {
        lemma_literal_pattern(s.drop_last());
        assert forall|k: int| 0 <= k < s.len() implies #[trigger] literal_pattern(s)[k] == Seg::Lit(seq![s[k]]) by {
            if k < s.len() - 1 {
                assert(literal_pattern(s.drop_last())[k] == Seg::Lit(seq![s.drop_last()[k]]));
            }
        }
    }
}

proof fn lemma_parse_literal(p: Seq<char>, j: int)
    requires
        0 <= j <= p.len(),
        forall|k: int| 0 <= k < p.len() ==> !is_wild_char(#[trigger] p[k]),
    ensures
        parse_at(p, j) == Some(literal_pattern(p.subrange(j, p.len() as int))),
    decreases p.len() - j,
{
    let q = p.subrange(j, p.len() as int);
    lemma_literal_pattern(q);
    if j < p.len() {
        let q1 = p.subrange(j + 1, p.len() as int);
        lemma_literal_pattern(q1);
        lemma_parse_literal(p, j + 1);
        if j + 1 < p.len() {
            assert(!is_wild_char(p[j + 1]));
        }
        assert(!is_wild_char(p[j]));
        assert(seq![Seg::Lit(seq![p[j]])] + literal_pattern(q1) =~= literal_pattern(q));
    } else {
        assert(literal_pattern(q) =~= Seq::<Seg>::empty());
    }
}

proof fn lemma_match_literal(p: Seq<char>, t: int)
    requires
        0 <= t <= p.len(),
    ensures
        match_at(literal_pattern(p), t, p, t) == Some(Seq::<(Seq<char>, Seq<char>)>::empty()),
    decreases p.len() - t,
{
    lemma_literal_pattern(p);
    if t < p.len() {
        lemma_match_literal(p, t + 1);
    }
}

/// A pattern without wildcards parses to its literal characters, and when
/// registered it is found for exactly its own text, with no parameters.
pub proof fn law_static_lookup<T>(r: &Route<T>, m: Seq<char>, p: Seq<char>, i: int)
    requires
        r.wf(),
        0 <= i < r.pats_for(m).len(),
        forall|k: int| 0 <= k < p.len() ==> !is_wild_char(#[trigger] p[k]),
        r.pats_for(m)[i] == parse(p)->0,
    ensures
        parse(p) == Some(literal_pattern(p)),
        first_match(r.pats_for(m), p, 0) == Some((i, Seq::<(Seq<char>, Seq<char>)>::empty())),
{
    lemma_parse_literal(p, 0);
    assert(p.subrange(0, p.len() as int) =~= p);
    lemma_match_literal(p, 0);
    r.lemma_node_wf(m);
    law_match_is_found(r.pats_for(m), p, i);
}

proof fn lemma_match_catch_all(pre: Seq<char>, n: Seq<char>, s: Seq<char>, t: int)
    requires
        0 <= t <= pre.len(),
        s.len() > 0,
        s[0] == '/',
    ensures
        match_at(literal_pattern(pre).push(Seg::CatchAll(n)), t, pre + s, t) == Some(seq![(n, s)]),
    decreases pre.len() - t,
{
    let pat = literal_pattern(pre).push(Seg::CatchAll(n));
    let path = pre + s;
    lemma_literal_pattern(pre);
    if t < pre.len() {
        assert(pat[t] == Seg::Lit(seq![pre[t]]));
        assert(path[t] == pre[t]);
        lemma_match_catch_all(pre, n, s, t + 1);
    } else {
        assert(pat[t] == Seg::CatchAll(n));
        assert(path[t] == s[0]);
        assert(path.subrange(t, path.len() as int) =~= s);
    }
}

proof fn lemma_parse_catch_all(pre: Seq<char>, n: Seq<char>, j: int)
    requires
        0 <= j <= pre.len(),
        forall|k: int| 0 <= k < pre.len() ==> !is_wild_char(#[trigger] pre[k]),
        valid_name(n),
    ensures
        parse_at(pre + seq!['/', '*'] + n, j) == Some(literal_pattern(pre.subrange(j, pre.len() as int)).push(Seg::CatchAll(n))),
    decreases pre.len() - j,
{
    let p = pre + seq!['/', '*'] + n;
    let q = pre.subrange(j, pre.len() as int);
    lemma_literal_pattern(q);
    if j < pre.len() {
        let q1 = pre.subrange(j + 1, pre.len() as int);
        lemma_literal_pattern(q1);
        lemma_parse_catch_all(pre, n, j + 1);
        assert(p[j] == pre[j]);
        assert(!is_wild_char(pre[j]));
        if j + 1 < pre.len() {
            assert(p[j + 1] == pre[j + 1]);
            assert(!is_wild_char(pre[j + 1]));
        } else {
            assert(p[j + 1] == '/');
        }
        assert(seq![Seg::Lit(seq![p[j]])] + literal_pattern(q1).push(Seg::CatchAll(n))
            =~= literal_pattern(q).push(Seg::CatchAll(n)));
    } else {
        assert(p[j] == '/');
        assert(p[j + 1] == '*');
        assert(p.subrange(j + 2, p.len() as int) =~= n);
        assert(literal_pattern(q) =~= Seq::<Seg>::empty());
        assert(seq![Seg::CatchAll(n)] =~= Seq::<Seg>::empty().push(Seg::CatchAll(n)));
    }
}

/// The pattern `pre/*n` matches every path made of `pre` and a suffix that
/// starts with `/`, binding `n` to that whole suffix.
pub proof fn law_catch_all(pre: Seq<char>, n: Seq<char>, s: Seq<char>)
    requires
        forall|k: int| 0 <= k < pre.len() ==> !is_wild_char(#[trigger] pre[k]),
        valid_name(n),
        s.len() > 0,
        s[0] == '/',
    ensures
        parse(pre + seq!['/', '*'] + n) == Some(literal_pattern(pre).push(Seg::CatchAll(n))),
        route_match(literal_pattern(pre).push(Seg::CatchAll(n)), pre + s) == Some(seq![(n, s)]),
{
    lemma_parse_catch_all(pre, n, 0);
    assert(pre.subrange(0, pre.len() as int) =~= pre);
    lemma_match_catch_all(pre, n, s, 0);
}

/// The names of the wildcards of a pattern, left to right.
pub open spec fn wild_names(pat: Seq<Seg>, t: int) -> Seq<Seq<char>>
    decreases pat.len() - t,
{
    if t < 0 || t >= pat.len() {
        Seq::empty()
    } else {
        match pat[t] {
            Seg::Lit(_) => wild_names(pat, t + 1),
            Seg::Param(n) => seq![n] + wild_names(pat, t + 1),
            Seg::CatchAll(n) => seq![n] + wild_names(pat, t + 1),
        }
    }
}

proof fn lemma_first_match_at(pats: Seq<Seq<Seg>>, p: Seq<char>, i: int, j: int)
    requires
        no_conflicts(pats),
        0 <= j <= i < pats.len(),
        route_match(pats[i], p) is Some,
    ensures
        first_match(pats, p, j) == Some((i, route_match(pats[i], p)->0)),
    decreases i - j,
{
    if j < i {
        if route_match(pats[j], p) is Some {
            lemma_unique_match(pats, p, i, j);
        }
        lemma_first_match_at(pats, p, i, j + 1);
    }
}

/// A registered pattern that matches a path is the one the lookup finds,
/// whatever the order of registration.
pub proof fn law_match_is_found(pats: Seq<Seq<Seg>>, p: Seq<char>, i: int)
    requires
        no_conflicts(pats),
        0 <= i < pats.len(),
        route_match(pats[i], p) is Some,
    ensures
        first_match(pats, p, 0) == Some((i, route_match(pats[i], p)->0)),
{
    lemma_first_match_at(pats, p, i, 0);
}

proof fn lemma_match_names(pat: Seq<Seg>, t: int, path: Seq<char>, j: int)
    requires
        0 <= t,
        0 <= j,
        match_at(pat, t, path, j) is Some,
    ensures
        match_at(pat, t, path, j)->0.map_values(|kv: (Seq<char>, Seq<char>)| kv.0) == wild_names(pat, t),
        forall|k: int| 0 <= k < match_at(pat, t, path, j)->0.len() ==> (#[trigger] match_at(pat, t, path, j)->0[k]).1.len() > 0,
    decreases pat.len() - t,
{
    let ps = match_at(pat, t, path, j)->0;
    if t < pat.len() {
        match pat[t] {
            Seg::Lit(_) => {
                lemma_match_names(pat, t + 1, path, j + 1);
            },
            Seg::Param(n) => {
                let e = seg_end(path, j);
                lemma_match_names(pat, t + 1, path, e);
                let rest = match_at(pat, t + 1, path, e)->0;
                assert(ps.map_values(|kv: (Seq<char>, Seq<char>)| kv.0) =~= seq![n] + rest.map_values(|kv: (Seq<char>, Seq<char>)| kv.0));
                assert forall|k: int| 0 <= k < ps.len() implies (#[trigger] ps[k]).1.len() > 0 by {
                    if k > 0 {
                        assert(ps[k] == rest[k - 1]);
                    }
                }
            },
            Seg::CatchAll(n) => {
                assert(wild_names(pat, t + 1) =~= Seq::<Seq<char>>::empty());
                assert(ps.map_values(|kv: (Seq<char>, Seq<char>)| kv.0) =~= seq![n]);
            },
        }
    } else {
        assert(ps.map_values(|kv: (Seq<char>, Seq<char>)| kv.0) =~= Seq::<Seq<char>>::empty());
    }
}

/// A match binds one parameter per wildcard of the pattern, under the
/// wildcard's name and in the order the wildcards stand in the pattern, each
/// to non-empty text.
pub proof fn law_params_in_order(pat: Seq<Seg>, path: Seq<char>)
    requires
        route_match(pat, path) is Some,
    ensures
        route_match(pat, path)->0.map_values(|kv: (Seq<char>, Seq<char>)| kv.0) == wild_names(pat, 0),
        forall|k: int| 0 <= k < route_match(pat, path)->0.len() ==> (#[trigger] route_match(pat, path)->0[k]).1.len() > 0,
{
    lemma_match_names(pat, 0, path, 0);
}

/// A request that matches nothing, but would with its trailing slash
/// toggled, is redirected there: 301 for GET and HEAD, 307 otherwise.
pub proof fn law_trailing_slash_redirect<T>(r: &Route<T>, m: Seq<char>, p: Seq<char>)
    requires
        r.redirect_trailing_slash,
        m != connect_name(),
        p != seq!['/'],
        first_match(r.pats_for(m), p, 0) is None,
        first_match(r.pats_for(m), toggle_slash(p), 0) is Some,
    ensures
        r.decide(m, p) == Decision::Redirect(redirect_code(m), toggle_slash(p)),
{
}

/// The methods listed among the first `n` are exactly those of the first
/// `n` that qualify.
pub proof fn lemma_allow_upto<T>(r: &Route<T>, path: Seq<char>, req: Seq<char>, n: int, x: Seq<char>)
    requires
        0 <= n <= r.methods().len(),
    ensures
        r.allow_upto(path, req, n).contains(x) <==> exists|k: int| 0 <= k < n && r.methods()[k] == x && #[trigger] r.lists(k, path, req),
    decreases n,
{
    if n > 0 {
        lemma_allow_upto(r, path, req, n - 1, x);
        let prev = r.allow_upto(path, req, n - 1);
        if r.lists(n - 1, path, req) {
            let cur = prev.push(r.methods()[n - 1]);
            if cur.contains(x) {
                let k = choose|k: int| 0 <= k < cur.len() && cur[k] == x;
                if k < prev.len() {
                    assert(prev[k] == x);
                }
            }
            if prev.contains(x) {
                let k = choose|k: int| 0 <= k < prev.len() && prev[k] == x;
                assert(cur[k] == x);
            }
            if r.methods()[n - 1] == x {
                assert(cur[cur.len() - 1] == x);
            }
        }
    }
}

/// The `Allow` value for a path lists exactly the methods, other than the
/// requested one and OPTIONS, that have a route matching the path; for the
/// path `*` it lists every method but OPTIONS.
pub proof fn law_allowed_methods<T>(r: &Route<T>, path: Seq<char>, req: Seq<char>, x: Seq<char>)
    ensures
        path != star_path() ==> (r.allow_list(path, req).contains(x) <==> exists|k: int|
            0 <= k < r.methods().len() && r.methods()[k] == x && x != req && x != options_name()
                && #[trigger] first_match(r.node_at(k).pats(), path, 0) is Some),
        path == star_path() ==> (r.allow_list(path, req).contains(x) <==> exists|k: int|
            0 <= k < r.methods().len() && #[trigger] r.methods()[k] == x && x != options_name()),
{
    lemma_allow_upto(r, path, req, r.methods().len() as int, x);
    if path != star_path() {
        if r.allow_list(path, req).contains(x) {
            let k = choose|k: int| 0 <= k < r.methods().len() && r.methods()[k] == x && #[trigger] r.lists(k, path, req);
            assert(first_match(r.node_at(k).pats(), path, 0) is Some);
        }
        if exists|k: int| 0 <= k < r.methods().len() && r.methods()[k] == x && x != req && x != options_name()
            && #[trigger] first_match(r.node_at(k).pats(), path, 0) is Some {
            let k = choose|k: int| 0 <= k < r.methods().len() && r.methods()[k] == x && x != req && x != options_name()
                && #[trigger] first_match(r.node_at(k).pats(), path, 0) is Some;
            assert(r.lists(k, path, req));
        }
    } else {
        if r.allow_list(path, req).contains(x) {
            let k = choose|k: int| 0 <= k < r.methods().len() && r.methods()[k] == x && #[trigger] r.lists(k, path, req);
            assert(r.methods()[k] == x);
        }
        if exists|k: int| 0 <= k < r.methods().len() && #[trigger] r.methods()[k] == x && x != options_name() {
            let k = choose|k: int| 0 <= k < r.methods().len() && #[trigger] r.methods()[k] == x && x != options_name();
            assert(r.lists(k, path, req));
        }
    }
}

/// A request whose method has no route for the path, and that is not
/// redirected, gets 405 with the `Allow` value when another method has a
/// route for it and method-not-allowed answers are on.
pub proof fn law_method_not_allowed<T>(r: &Route<T>, m: Seq<char>, p: Seq<char>)
    requires
        m != options_name(),
        r.handle_method_not_allowed,
        r.method_not_allowed is None,
        first_match(r.pats_for(m), p, 0) is None,
        r.redirect_target(m, p) is None,
        r.allow_list(p, m).len() > 0,
    ensures
        r.decide(m, p) == Decision::MethodNotAllowed(r.allow_header(p, m)),
{
}

/// An OPTIONS request for `*` is answered with every registered method
/// but OPTIONS, when OPTIONS answers are on and no route takes it.
pub proof fn law_options_star<T>(r: &Route<T>)
    requires
        r.handle_options,
        first_match(r.pats_for(options_name()), star_path(), 0) is None,
        r.redirect_target(options_name(), star_path()) is None,
        r.allow_list(star_path(), options_name()).len() > 0,
    ensures
        r.decide(options_name(), star_path()) == Decision::Options(r.allow_header(star_path(), options_name())),
{
}

/// A request for a path that no method has a route for, with no redirect
/// and no not-found handler, gets 404.
pub proof fn law_not_found<T>(r: &Route<T>, m: Seq<char>, p: Seq<char>)
    requires
        r.wf(),
        p != star_path(),
        forall|k: int| 0 <= k < r.methods().len() ==> #[trigger] first_match(r.node_at(k).pats(), p, 0) is None,
        r.redirect_target(m, p) is None,
        r.not_found is None,
    ensures
        r.decide(m, p) == Decision::NotFound,
{
    if r.allow_list(p, m).len() > 0 {
        let x = r.allow_list(p, m)[0];
        assert(r.allow_list(p, m).contains(x));
        law_allowed_methods(r, p, m, x);
    }
    if let Some(i) = r.method_index(m) {
        assert(first_match(r.node_at(i).pats(), p, 0) is None);
    } else {
        crate::router::lemma_first_match_empty(p);
    }
}

/// Cleaning is idempotent, and the cleaned path starts with `/` and holds no
/// `.` or `..` segment.
pub proof fn law_clean_path(p: Seq<char>)
    ensures
        clean(clean(p)) == clean(p),
        clean_stack(segments(p)),
{
    lemma_clean_idempotent(p);
    lemma_segments_clean(p);
}

} // verus!
