//! The routes registered for one request method, with the lookups done on
//! them: matching a path, the trailing-slash hint and case-insensitive
//! correction.
use vstd::prelude::*;
use crate::params::Params;
use crate::pattern::{
    conflict, conflicts, fold_match, fold_pattern, lemma_no_overlap, match_pattern, route_match, pairs_of,
    parse, parse_pattern, segs_of, slice_chars, Seg, Tok,
};
use crate::text::{chars_of, string_of};

verus! {

/// Why a pattern could not be registered.
#[derive(Debug, Clone, Copy, PartialEq, Eq, Structural)]
pub enum RouteError {
    /// The pattern does not begin with `/`.
    MissingSlash,
    /// A wildcard is malformed: an empty name, a name holding `:` or `*`, a
    /// `*name` not right after a `/`, or text after a `*name`.
    InvalidPattern,
    /// The pattern conflicts with one already registered for this method.
    Conflict,
}

/// A registered pattern and its handler.
pub struct RouteEntry<T> {
    pub pattern: Vec<Tok>,
    pub handle: T,
}

/// `p` with one trailing `/` removed, or with one added.
pub open spec fn toggle_slash(p: Seq<char>) -> Seq<char> {
    if p.len() > 1 && p.last() == '/' {
        p.drop_last()
    } else {
        p.push('/')
    }
}

/// The first pattern from index `i` on that matches `path`, with its bindings.
pub open spec fn first_match(pats: Seq<Seq<Seg>>, path: Seq<char>, i: int) -> Option<(int, Seq<(Seq<char>, Seq<char>)>)>
    decreases pats.len() - i,
{
    if i < 0 || i >= pats.len() {
        None
    } else {
        match route_match(pats[i], path) {
            Some(ps) => Some((i, ps)),
            None => first_match(pats, path, i + 1),
        }
    }
}

/// The path in canonical case given by the first pattern from index `i` on
/// that matches `path` up to case.
pub open spec fn first_fold(pats: Seq<Seq<Seg>>, path: Seq<char>, i: int) -> Option<Seq<char>>
    decreases pats.len() - i,
{
    if i < 0 || i >= pats.len() {
        None
    } else {
        match fold_match(pats[i], path) {
            Some(q) => Some(q),
            None => first_fold(pats, path, i + 1),
        }
    }
}

/// The corrected form of `path`: matched up to case as it is, or else, when
/// `fix_slash` holds, with its trailing slash toggled.
pub open spec fn fixed_path(pats: Seq<Seq<Seg>>, path: Seq<char>, fix_slash: bool) -> Option<Seq<char>> {
    match first_fold(pats, path, 0) {
        Some(q) => Some(q),
        None => if fix_slash {
            first_fold(pats, toggle_slash(path), 0)
        } else {
            None
        },
    }
}

/// No two registered patterns conflict.
pub open spec fn no_conflicts(pats: Seq<Seq<Seg>>) -> bool {
    forall|i: int, j: int| 0 <= i < j < pats.len() ==> !conflict(#[trigger] pats[i], #[trigger] pats[j])
}

/// The routes of one request method.
pub struct Node<T> {
    routes: Vec<RouteEntry<T>>,
}

impl<T> Node<T> {
    /// The registered patterns, in order of registration.
    pub closed spec fn pats(&self) -> Seq<Seq<Seg>> {
        self.routes@.map_values(|e: RouteEntry<T>| segs_of(e.pattern@))
    }

    /// The registered handlers, in the same order.
    pub closed spec fn handles(&self) -> Seq<T> {
        self.routes@.map_values(|e: RouteEntry<T>| e.handle)
    }

    pub open spec fn wf(&self) -> bool {
        &&& self.pats().len() == self.handles().len()
        &&& no_conflicts(self.pats())
    }

    pub fn new() -> (r: Node<T>)
        ensures
            r.wf(),
            r.pats().len() == 0,
    {
        let r = Node { routes: Vec::new() };
        assert(r.pats() =~= Seq::<Seq<Seg>>::empty());
        r
    }

    /// Checks `pattern` for registration: its tokens when it is valid and
    /// conflicts with no registered pattern.
    pub fn check_route(&self, pattern: &str) -> (r: Result<Vec<Tok>, RouteError>)
        requires
            self.wf(),
        ensures
            pattern@.len() == 0 || pattern@[0] != '/' ==> r == Err::<Vec<Tok>, RouteError>(RouteError::MissingSlash),
            pattern@.len() > 0 && pattern@[0] == '/' && parse(pattern@) is None ==> r == Err::<Vec<Tok>, RouteError>(RouteError::InvalidPattern),
            pattern@.len() > 0 && pattern@[0] == '/' && parse(pattern@) is Some ==> {
                let p = parse(pattern@)->0;
                if exists|i: int| 0 <= i < self.pats().len() && conflict(#[trigger] self.pats()[i], p) {
                    r == Err::<Vec<Tok>, RouteError>(RouteError::Conflict)
                } else {
                    r matches Ok(toks) && segs_of(toks@) == p
                }
            },
    {
        let p = chars_of(pattern);
        if p.len() == 0 || p[0] != '/' {
            return Err(RouteError::MissingSlash);
        }
        let toks = match parse_pattern(&p) {
            Some(t) => t,
            None => {
                return Err(RouteError::InvalidPattern);
            },
        };
        let ghost np = segs_of(toks@);
        let mut i: usize = 0;
        while i < self.routes.len()
            invariant
                i <= self.routes.len(),
                np == segs_of(toks@),
                self.wf(),
                p@ == pattern@,
                p@.len() > 0 && p@[0] == '/',
                parse(pattern@) == Some(np),
                forall|k: int| 0 <= k < i ==> !conflict(#[trigger] self.pats()[k], np),
            decreases self.routes.len() - i,
        {
            if conflicts(&self.routes[i].pattern, &toks) {
                assert(self.pats()[i as int] == segs_of(self.routes@[i as int].pattern@));
                return Err(RouteError::Conflict);
            }
            i += 1;
        }
        Ok(toks)
    }

    /// Adds an already checked pattern.
    pub fn insert_route(&mut self, toks: Vec<Tok>, handle: T)
        requires
            old(self).wf(),
            forall|i: int| 0 <= i < old(self).pats().len() ==> !conflict(#[trigger] old(self).pats()[i], segs_of(toks@)),
        ensures
            final(self).wf(),
            final(self).pats() == old(self).pats().push(segs_of(toks@)),
            final(self).handles() == old(self).handles().push(handle),
    {
        let ghost np = segs_of(toks@);
        self.routes.push(RouteEntry { pattern: toks, handle });
        assert(self.pats() =~= old(self).pats().push(np));
        assert(self.handles() =~= old(self).handles().push(handle));
    }

    /// Registers `pattern` with `handle`.
    pub fn add_route(&mut self, pattern: &str, handle: T) -> (r: Result<(), RouteError>)
        requires
            old(self).wf(),
        ensures
            final(self).wf(),
            pattern@.len() == 0 || pattern@[0] != '/' ==> r == Err::<(), RouteError>(RouteError::MissingSlash),
            pattern@.len() > 0 && pattern@[0] == '/' && parse(pattern@) is None ==> r == Err::<(), RouteError>(RouteError::InvalidPattern),
            pattern@.len() > 0 && pattern@[0] == '/' && parse(pattern@) is Some ==> {
                let p = parse(pattern@)->0;
                if exists|i: int| 0 <= i < old(self).pats().len() && conflict(#[trigger] old(self).pats()[i], p) {
                    r == Err::<(), RouteError>(RouteError::Conflict)
                } else {
                    &&& r is Ok
                    &&& final(self).pats() == old(self).pats().push(p)
                    &&& final(self).handles() == old(self).handles().push(handle)
                }
            },
            r is Err ==> final(self).pats() == old(self).pats() && final(self).handles() == old(self).handles(),
    {
        match self.check_route(pattern) {
            Ok(toks) => {
                self.insert_route(toks, handle);
                Ok(())
            },
            Err(e) => Err(e),
        }
    }

    fn match_first(&self, path: &Vec<char>) -> (r: Option<(usize, Vec<(Vec<char>, Vec<char>)>)>)
        ensures
            r matches Some((i, ps)) ==> first_match(self.pats(), path@, 0) == Some((i as int, pairs_of(ps@)))
                && i < self.routes.len(),
            r is None <==> first_match(self.pats(), path@, 0) is None,
    {
        let mut i: usize = 0;
        while i < self.routes.len()
            invariant
                i <= self.routes.len(),
                first_match(self.pats(), path@, 0) == first_match(self.pats(), path@, i as int),
            decreases self.routes.len() - i,
        {
            assert(self.pats()[i as int] == segs_of(self.routes@[i as int].pattern@));
            match match_pattern(&self.routes[i].pattern, path) {
                Some(ps) => {
                    return Some((i, ps));
                },
                None => {},
            }
            i += 1;
        }
        None
    }

    /// Finds the handler for `path`, the parameters it binds, and, when none
    /// matches, whether the path with its trailing slash toggled would match.
    pub fn get_value(&self, path: &str) -> (r: (Option<&T>, Params, bool))
        ensures
            match first_match(self.pats(), path@, 0) {
                Some((i, ps)) => {
                    &&& r.0 matches Some(h) && *h == self.handles()[i]
                    &&& r.1@ == ps
                    &&& !r.2
                },
                None => {
                    &&& r.0 is None
                    &&& r.1@.len() == 0
                    &&& r.2 == first_match(self.pats(), toggle_slash(path@), 0) is Some
                },
            },
    {
        let p = chars_of(path);
        match self.match_first(&p) {
            Some((i, ps)) => {
                assert(self.handles()[i as int] == self.routes@[i as int].handle);
                (Some(&self.routes[i].handle), Params::from_pairs(&ps), false)
            },
            None => {
                let q = toggle_slash_exec(&p);
                let tsr = self.match_first(&q).is_some();
                (None, Params::new(), tsr)
            },
        }
    }

    fn fold_first(&self, path: &Vec<char>) -> (r: Option<Vec<char>>)
        ensures
            r matches Some(q) ==> first_fold(self.pats(), path@, 0) == Some(q@),
            r is None <==> first_fold(self.pats(), path@, 0) is None,
    {
        let mut i: usize = 0;
        while i < self.routes.len()
            invariant
                i <= self.routes.len(),
                first_fold(self.pats(), path@, 0) == first_fold(self.pats(), path@, i as int),
            decreases self.routes.len() - i,
        {
            assert(self.pats()[i as int] == segs_of(self.routes@[i as int].pattern@));
            match fold_pattern(&self.routes[i].pattern, path) {
                Some(q) => {
                    return Some(q);
                },
                None => {},
            }
            i += 1;
        }
        None
    }

    /// Looks `path` up ignoring the case of literal text; on success gives
    /// the path as registered. With `fix_trailing_slash`, a path that only
    /// matches with its trailing slash toggled is corrected too.
    pub fn find_case_insensitive_path(&self, path: &str, fix_trailing_slash: bool) -> (r: (String, bool))
        ensures
            match fixed_path(self.pats(), path@, fix_trailing_slash) {
                Some(q) => r.1 && r.0@ == q,
                None => !r.1 && r.0@.len() == 0,
            },
    {
        let p = chars_of(path);
        match self.fold_first(&p) {
            Some(q) => (string_of(&q), true),
            None => {
                if fix_trailing_slash {
                    let t = toggle_slash_exec(&p);
                    match self.fold_first(&t) {
                        Some(q) => (string_of(&q), true),
                        None => (String::new(), false),
                    }
                } else {
                    (String::new(), false)
                }
            },
        }
    }
}

/// `p` with its trailing slash toggled.
pub fn toggle_slash_exec(p: &Vec<char>) -> (r: Vec<char>)
    ensures
        r@ == toggle_slash(p@),
{
    if p.len() > 1 && p[p.len() - 1] == '/' {
        slice_chars(p, 0, p.len() - 1)
    } else {
        let mut v = slice_chars(p, 0, p.len());
        v.push('/');
        assert(p@.subrange(0, p@.len() as int) =~= p@);
        v
    }
}

/// Two registered patterns never match the same path: a matching route is
/// unique.
pub proof fn lemma_unique_match(pats: Seq<Seq<Seg>>, path: Seq<char>, i: int, j: int)
    requires
        no_conflicts(pats),
        0 <= i < pats.len(),
        0 <= j < pats.len(),
        route_match(pats[i], path) is Some,
        route_match(pats[j], path) is Some,
    ensures
        i == j,
{
    if i < j {
        assert(!conflict(pats[i], pats[j]));
        lemma_no_overlap(pats[i], pats[j], 0, path, 0);
    } else if j < i {
        assert(!conflict(pats[j], pats[i]));
        lemma_no_overlap(pats[j], pats[i], 0, path, 0);
    }
}

} // verus!
