//! The route table: one tree per request method, the router-wide policy
//! flags and fallback handlers, and the dispatch decision for a request.
use vstd::prelude::*;
use crate::params::Params;
use crate::pattern::{eq_chars, parse, conflict, segs_of, Seg};
use crate::text::{chars_of, string_of};
use crate::path::{clean, clean_path};
use crate::tree::{first_match, fixed_path, toggle_slash, toggle_slash_exec, Node, RouteError};

verus! {

pub open spec fn options_name() -> Seq<char> {
    seq!['O', 'P', 'T', 'I', 'O', 'N', 'S']
}

pub open spec fn star_path() -> Seq<char> {
    seq!['*']
}

/// `names` joined by `", "`.
pub open spec fn join_comma(names: Seq<Seq<char>>) -> Seq<char>
    decreases names.len(),
{
    if names.len() == 0 {
        Seq::empty()
    } else if names.len() == 1 {
        names[0]
    } else {
        join_comma(names.drop_last()) + seq![',', ' '] + names.last()
    }
}

/// What the router decides for a request, as a mathematical value.
pub enum Decision {
    /// Call the handler registered at this position for the method.
    Handle(int, Seq<(Seq<char>, Seq<char>)>),
    /// Redirect with this status to this location.
    Redirect(u16, Seq<char>),
    /// Answer OPTIONS with this `Allow` value.
    Options(Seq<char>),
    /// Answer 405 with this `Allow` value.
    MethodNotAllowed(Seq<char>),
    /// Call the method-not-allowed handler, with this `Allow` value.
    MethodNotAllowedHandler(Seq<char>),
    /// Answer 404.
    NotFound,
    /// Call the not-found handler.
    NotFoundHandler,
}

/// What to answer a request with.
pub enum Answer<'a, T> {
    /// Call this handler with these parameters.
    Handle(&'a T, Params),
    /// Redirect with this status to this location.
    Redirect(u16, String),
    /// Answer OPTIONS with this `Allow` value and an empty body.
    Options(String),
    /// Answer 405 with this `Allow` value and a fixed body.
    MethodNotAllowed(String),
    /// Call the method-not-allowed handler; the `Allow` value is given.
    MethodNotAllowedHandler(&'a T, String),
    /// Answer 404 with a fixed body.
    NotFound,
    /// Call the not-found handler.
    NotFoundHandler(&'a T),
}

pub open spec fn get_name() -> Seq<char> {
    seq!['G', 'E', 'T']
}

pub open spec fn head_name() -> Seq<char> {
    seq!['H', 'E', 'A', 'D']
}

pub open spec fn connect_name() -> Seq<char> {
    seq!['C', 'O', 'N', 'N', 'E', 'C', 'T']
}

/// The redirect status for method `m`: 301 for GET and HEAD, 307 otherwise.
pub open spec fn redirect_code(m: Seq<char>) -> u16 {
    if m == get_name() || m == head_name() { 301 } else { 307 }
}

/// The tree of one method.
pub struct MethodTree<T> {
    pub method: Vec<char>,
    pub node: Node<T>,
}

/// A request router.
pub struct Route<T> {
    pub trees: Vec<MethodTree<T>>,
    /// Redirect a request whose path only matches with its trailing slash
    /// toggled (301 for GET and HEAD, 307 otherwise).
    pub redirect_trailing_slash: bool,
    /// Redirect a request whose cleaned path matches up to case.
    pub redirect_fixed_path: bool,
    /// Answer 405 when another method has a handler for the path.
    pub handle_method_not_allowed: bool,
    /// Answer OPTIONS requests with the allowed methods.
    pub handle_options: bool,
    /// Called when no route matches.
    pub not_found: Option<T>,
    /// Called instead of the plain 405 answer.
    pub method_not_allowed: Option<T>,
    /// Turns a failure inside a handler into an answer.
    pub panic_handler: Option<T>,
}

impl<T> Route<T> {
    /// The methods that have a tree, in table order.
    pub open spec fn methods(&self) -> Seq<Seq<char>> {
        self.trees@.map_values(|t: MethodTree<T>| t.method@)
    }

    pub open spec fn node_at(&self, i: int) -> Node<T> {
        self.trees@[i].node
    }

    /// The position of `m` in the table.
    pub open spec fn method_index(&self, m: Seq<char>) -> Option<int> {
        if exists|i: int| 0 <= i < self.methods().len() && self.methods()[i] == m {
            Some(choose|i: int| 0 <= i < self.methods().len() && self.methods()[i] == m)
        } else {
            None
        }
    }

    /// The patterns registered for method `m`.
    pub open spec fn pats_for(&self, m: Seq<char>) -> Seq<Seq<Seg>> {
        match self.method_index(m) {
            Some(i) => self.node_at(i).pats(),
            None => Seq::empty(),
        }
    }

    /// The handlers registered for method `m`.
    pub open spec fn handles_for(&self, m: Seq<char>) -> Seq<T> {
        match self.method_index(m) {
            Some(i) => self.node_at(i).handles(),
            None => Seq::empty(),
        }
    }

    pub open spec fn wf(&self) -> bool {
        &&& forall|i: int, j: int| 0 <= i < j < self.methods().len() ==> self.methods()[i] != self.methods()[j]
        &&& forall|i: int| 0 <= i < self.methods().len() ==> #[trigger] self.node_at(i).wf()
    }

    /// Whether method number `i` is listed for `path` when `req` is asked.
    pub open spec fn lists(&self, i: int, path: Seq<char>, req: Seq<char>) -> bool {
        let m = self.methods()[i];
        if path == star_path() {
            m != options_name()
        } else {
            m != req && m != options_name() && first_match(self.node_at(i).pats(), path, 0) is Some
        }
    }

    /// The methods listed among the first `n` of the table.
    pub open spec fn allow_upto(&self, path: Seq<char>, req: Seq<char>, n: int) -> Seq<Seq<char>>
        decreases n,
    {
        if n <= 0 {
            Seq::empty()
        } else if self.lists(n - 1, path, req) {
            self.allow_upto(path, req, n - 1).push(self.methods()[n - 1])
        } else {
            self.allow_upto(path, req, n - 1)
        }
    }

    /// The methods allowed for `path` other than `req`, in table order.
    pub open spec fn allow_list(&self, path: Seq<char>, req: Seq<char>) -> Seq<Seq<char>> {
        self.allow_upto(path, req, self.methods().len() as int)
    }

    /// The `Allow` header value for `path` when `req` is asked.
    pub open spec fn allow_header(&self, path: Seq<char>, req: Seq<char>) -> Seq<char> {
        let l = self.allow_list(path, req);
        if l.len() == 0 {
            Seq::empty()
        } else {
            join_comma(l) + seq![',', ' '] + options_name()
        }
    }

    /// What registering `path` for method `m` gives: the pattern's tokens,
    /// or the reason it is refused.
    pub open spec fn check_result(&self, m: Seq<char>, path: Seq<char>) -> Result<Seq<Seg>, RouteError> {
        if path.len() == 0 || path[0] != '/' {
            Err(RouteError::MissingSlash)
        } else {
            match parse(path) {
                None => Err(RouteError::InvalidPattern),
                Some(p) => if exists|i: int| 0 <= i < self.pats_for(m).len() && conflict(#[trigger] self.pats_for(m)[i], p) {
                    Err(RouteError::Conflict)
                } else {
                    Ok(p)
                },
            }
        }
    }

    /// `after` is this table once `path` has been registered for `m` with
    /// `h`, with result `r`: a refused pattern leaves the table as it was, an
    /// accepted one is added for `m` alone.
    pub open spec fn handled(&self, after: &Self, m: Seq<char>, path: Seq<char>, h: T, r: Result<(), RouteError>) -> bool {
        &&& after.wf()
        &&& match self.check_result(m, path) {
            Err(e) => r == Err::<(), RouteError>(e) && *after == *self,
            Ok(p) => {
                &&& r is Ok
                &&& after.pats_for(m) == self.pats_for(m).push(p)
                &&& after.handles_for(m) == self.handles_for(m).push(h)
                &&& forall|mm: Seq<char>| mm != m ==> after.pats_for(mm) == self.pats_for(mm)
                    && after.handles_for(mm) == self.handles_for(mm)
            },
        }
        &&& after.redirect_trailing_slash == self.redirect_trailing_slash
        &&& after.redirect_fixed_path == self.redirect_fixed_path
        &&& after.handle_method_not_allowed == self.handle_method_not_allowed
        &&& after.handle_options == self.handle_options
        &&& after.not_found == self.not_found
        &&& after.method_not_allowed == self.method_not_allowed
        &&& after.panic_handler == self.panic_handler
    }

    /// Where a request that no route matches is redirected, if anywhere.
    pub open spec fn redirect_target(&self, m: Seq<char>, p: Seq<char>) -> Option<Seq<char>> {
        let pats = self.pats_for(m);
        if m == connect_name() || p == seq!['/'] {
            None
        } else if self.redirect_trailing_slash && first_match(pats, toggle_slash(p), 0) is Some {
            Some(toggle_slash(p))
        } else if self.redirect_fixed_path {
            fixed_path(pats, clean(p), self.redirect_trailing_slash)
        } else {
            None
        }
    }

    pub open spec fn not_found_decision(&self) -> Decision {
        if self.not_found is Some { Decision::NotFoundHandler } else { Decision::NotFound }
    }

    /// The answer to a request that is neither routed nor redirected.
    pub open spec fn fallback(&self, m: Seq<char>, p: Seq<char>) -> Decision {
        let allow = self.allow_header(p, m);
        if m == options_name() && self.handle_options {
            if allow.len() > 0 { Decision::Options(allow) } else { self.not_found_decision() }
        } else if self.handle_method_not_allowed && allow.len() > 0 {
            if self.method_not_allowed is Some {
                Decision::MethodNotAllowedHandler(allow)
            } else {
                Decision::MethodNotAllowed(allow)
            }
        } else {
            self.not_found_decision()
        }
    }

    /// The decision for a request with method `m` and path `p`.
    pub open spec fn decide(&self, m: Seq<char>, p: Seq<char>) -> Decision {
        match first_match(self.pats_for(m), p, 0) {
            Some((i, ps)) => Decision::Handle(i, ps),
            None => match self.redirect_target(m, p) {
                Some(loc) => Decision::Redirect(redirect_code(m), loc),
                None => self.fallback(m, p),
            },
        }
    }

    /// `a` carries out decision `d` for method `m`.
    pub open spec fn carries_out(&self, a: Answer<T>, d: Decision, m: Seq<char>) -> bool {
        match (a, d) {
            (Answer::Handle(h, ps), Decision::Handle(i, qs)) => *h == self.handles_for(m)[i] && ps@ == qs,
            (Answer::Redirect(c, l), Decision::Redirect(c2, l2)) => c == c2 && l@ == l2,
            (Answer::Options(s), Decision::Options(t)) => s@ == t,
            (Answer::MethodNotAllowed(s), Decision::MethodNotAllowed(t)) => s@ == t,
            (Answer::MethodNotAllowedHandler(h, s), Decision::MethodNotAllowedHandler(t)) =>
                s@ == t && self.method_not_allowed == Some(*h),
            (Answer::NotFound, Decision::NotFound) => true,
            (Answer::NotFoundHandler(h), Decision::NotFoundHandler) => self.not_found == Some(*h),
            _ => false,
        }
    }

    /// A new router with every policy flag on and no handlers.
    pub fn new() -> (r: Route<T>)
        ensures
            r.wf(),
            r.methods().len() == 0,
            r.redirect_trailing_slash,
            r.redirect_fixed_path,
            r.handle_method_not_allowed,
            r.handle_options,
            r.not_found is None,
            r.method_not_allowed is None,
            r.panic_handler is None,
    {
        let r = Route {
            trees: Vec::new(),
            redirect_trailing_slash: true,
            redirect_fixed_path: true,
            handle_method_not_allowed: true,
            handle_options: true,
            not_found: None,
            method_not_allowed: None,
            panic_handler: None,
        };
        assert(r.methods() =~= Seq::<Seq<char>>::empty());
        r
    }

    fn find_method(&self, m: &Vec<char>) -> (r: Option<usize>)
        requires
            self.wf(),
        ensures
            r matches Some(i) ==> self.method_index(m@) == Some(i as int) && i < self.trees.len(),
            r is None <==> self.method_index(m@) is None,
    {
        let mut i: usize = 0;
        while i < self.trees.len()
            invariant
                i <= self.trees.len(),
                self.wf(),
                forall|k: int| 0 <= k < i ==> self.methods()[k] != m@,
            decreases self.trees.len() - i,
        {
            if eq_chars(&self.trees[i].method, m) {
                assert(self.methods()[i as int] == m@);
                let ghost c = choose|k: int| 0 <= k < self.methods().len() && self.methods()[k] == m@;
                assert(c == i as int);
                return Some(i);
            }
            i += 1;
        }
        None
    }

    /// Registers `handle` for requests with `method` whose path matches
    /// `path`.
    pub fn handle(&mut self, method: &str, path: &str, handle: T) -> (r: Result<(), RouteError>)
        requires
            old(self).wf(),
        ensures
            old(self).handled(final(self), method@, path@, handle, r),
    {
        let m = chars_of(method);
        let idx = self.find_method(&m);
        let ghost before = *self;
        match idx {
            Some(i) => {
                assert(self.node_at(i as int).wf());
                assert(before.pats_for(method@) == self.trees@[i as int].node.pats());
                let toks = match self.trees[i].node.check_route(path) {
                    Ok(t) => t,
                    Err(e) => {
                        return Err(e);
                    },
                };
                assert(before.check_result(method@, path@) == Ok::<Seq<Seg>, RouteError>(segs_of(toks@)));
                let ghost toks_g = toks;
                let mut tree = self.trees.remove(i);
                assert(before.node_at(i as int) == tree.node);
                tree.node.insert_route(toks, handle);
                self.trees.insert(i, tree);
                proof {
                    assert(self.trees@ =~= before.trees@.update(i as int, tree));
                    assert(self.methods() =~= before.methods());
                    assert forall|k: int| 0 <= k < self.methods().len() && k != i implies self.node_at(k) == before.node_at(k) by {}
                    assert forall|k: int| 0 <= k < self.methods().len() implies #[trigger] self.node_at(k).wf() by {
                        if k != i {
                            assert(before.node_at(k).wf());
                        }
                    }
                    assert forall|mm: Seq<char>| mm != method@ implies self.pats_for(mm) == before.pats_for(mm)
                        && self.handles_for(mm) == before.handles_for(mm) by {
                        if let Some(j) = self.method_index(mm) {
                            assert(self.methods()[j] == mm);
                        }
                    }
                }
                Ok(())
            },
            None => {
                let node: Node<T> = Node::new();
                let toks = match node.check_route(path) {
                    Ok(t) => t,
                    Err(e) => {
                        return Err(e);
                    },
                };
                assert(before.pats_for(method@) =~= node.pats());
                assert(before.check_result(method@, path@) == Ok::<Seq<Seg>, RouteError>(segs_of(toks@)));
                let ghost toks_g = toks;
                let mut node = node;
                node.insert_route(toks, handle);
                self.trees.push(MethodTree { method: m, node });
                proof {
                    let n = before.methods().len() as int;
                    assert(self.methods() =~= before.methods().push(m@));
                    assert(self.node_at(n) == node);
                    assert forall|k: int| 0 <= k < n implies self.node_at(k) == before.node_at(k) by {}
                    assert forall|k: int| 0 <= k < self.methods().len() implies #[trigger] self.node_at(k).wf() by {
                        if k < n {
                            assert(before.node_at(k).wf());
                        }
                    }
                    assert forall|a: int, b: int| 0 <= a < b < self.methods().len() implies self.methods()[a] != self.methods()[b] by {
                        if b == n {
                            assert(before.methods()[a] != m@);
                        }
                    }
                    self.lemma_index_of(n);
                    assert(self.pats_for(method@) =~= before.pats_for(method@).push(segs_of(toks_g@)));
                    assert(self.handles_for(method@) =~= before.handles_for(method@).push(handle));
                    assert forall|mm: Seq<char>| mm != method@ implies self.pats_for(mm) == before.pats_for(mm)
                        && self.handles_for(mm) == before.handles_for(mm) by {
                        if let Some(j) = before.method_index(mm) {
                            assert(before.methods()[j] == mm);
                            self.lemma_index_of(j);
                        } else {
                            if let Some(j) = self.method_index(mm) {
                                assert(self.methods()[j] == mm);
                                assert(before.methods()[j] == mm);
                            }
                        }
                    }
                }
                Ok(())
            },
        }
    }

    /// Finds the handler for `method` and `path`, the parameters it binds,
    /// and, when none matches, whether the path with its trailing slash
    /// toggled would match.
    pub fn lookup(&self, method: &str, path: &str) -> (r: (Option<&T>, Params, bool))
        requires
            self.wf(),
        ensures
            match first_match(self.pats_for(method@), path@, 0) {
                Some((i, ps)) => {
                    &&& r.0 matches Some(h) && *h == self.handles_for(method@)[i]
                    &&& r.1@ == ps
                    &&& !r.2
                },
                None => {
                    &&& r.0 is None
                    &&& r.1@.len() == 0
                    &&& r.2 == first_match(self.pats_for(method@), toggle_slash(path@), 0) is Some
                },
            },
    {
        let m = chars_of(method);
        match self.find_method(&m) {
            Some(i) => {
                assert(self.node_at(i as int).wf());
                self.trees[i].node.get_value(path)
            },
            None => {
                proof {
                    lemma_first_match_empty(path@);
                    lemma_first_match_empty(toggle_slash(path@));
                }
                (None, Params::new(), false)
            },
        }
    }

    /// The `Allow` header value for `path`: the methods other than
    /// `req_method` and OPTIONS with a handler for `path` (every method but
    /// OPTIONS for the path `*`), joined by `", "`, followed by `", OPTIONS"`;
    /// empty when no method is listed.
    pub fn allowed(&self, path: &str, req_method: &str) -> (r: String)
        requires
            self.wf(),
        ensures
            r@ == self.allow_header(path@, req_method@),
    {
        let p = chars_of(path);
        let req = chars_of(req_method);
        let star: Vec<char> = vec!['*'];
        let opts: Vec<char> = vec!['O', 'P', 'T', 'I', 'O', 'N', 'S'];
        assert(star@ =~= star_path());
        assert(opts@ =~= options_name());
        let is_star = eq_chars(&p, &star);
        let mut acc: Vec<char> = Vec::new();
        let mut any = false;
        let mut i: usize = 0;
        while i < self.trees.len()
            invariant
                i <= self.trees.len(),
                self.wf(),
                p@ == path@,
                req@ == req_method@,
                opts@ == options_name(),
                is_star == (path@ == star_path()),
                acc@ == join_comma(self.allow_upto(path@, req_method@, i as int)),
                any == (self.allow_upto(path@, req_method@, i as int).len() > 0),
            decreases self.trees.len() - i,
        {
            let ghost prev = self.allow_upto(path@, req_method@, i as int);
            let name = &self.trees[i].method;
            assert(name@ == self.methods()[i as int]);
            let listed = if is_star {
                !eq_chars(name, &opts)
            } else if eq_chars(name, &req) || eq_chars(name, &opts) {
                false
            } else {
                assert(self.node_at(i as int).wf());
                let (h, _, _) = self.trees[i].node.get_value(path);
                h.is_some()
            };
            assert(listed == self.lists(i as int, path@, req_method@));
            if listed {
                if any {
                    acc.push(',');
                    acc.push(' ');
                }
                let mut copy = name.clone();
                acc.append(&mut copy);
                proof {
                    let next = prev.push(name@);
                    assert(next.drop_last() =~= prev);
                    if prev.len() > 0 {
                        assert(acc@ =~= join_comma(prev) + seq![',', ' '] + name@);
                    } else {
                        assert(acc@ =~= name@);
                    }
                }
                any = true;
            }
            i += 1;
        }
        if any {
            acc.push(',');
            acc.push(' ');
            let mut o = opts;
            acc.append(&mut o);
        }
        proof {
            if any {
                assert(acc@ =~= self.allow_header(path@, req_method@));
            } else {
                assert(acc@ =~= self.allow_header(path@, req_method@));
            }
        }
        string_of(&acc)
    }

    /// Shortcut for `handle("GET", path, handle)`.
    pub fn get(&mut self, path: &str, handle: T) -> (r: Result<(), RouteError>)
        requires
            old(self).wf(),
        ensures
            old(self).handled(final(self), seq!['G', 'E', 'T'], path@, handle, r),
    {
        proof {
            reveal_strlit("GET");
        }
        assert("GET"@ =~= seq!['G', 'E', 'T']);
        self.handle("GET", path, handle)
    }

    /// Shortcut for `handle("HEAD", path, handle)`.
    pub fn head(&mut self, path: &str, handle: T) -> (r: Result<(), RouteError>)
        requires
            old(self).wf(),
        ensures
            old(self).handled(final(self), seq!['H', 'E', 'A', 'D'], path@, handle, r),
    {
        proof {
            reveal_strlit("HEAD");
        }
        assert("HEAD"@ =~= seq!['H', 'E', 'A', 'D']);
        self.handle("HEAD", path, handle)
    }

    /// Shortcut for `handle("OPTIONS", path, handle)`.
    pub fn options(&mut self, path: &str, handle: T) -> (r: Result<(), RouteError>)
        requires
            old(self).wf(),
        ensures
            old(self).handled(final(self), seq!['O', 'P', 'T', 'I', 'O', 'N', 'S'], path@, handle, r),
    {
        proof {
            reveal_strlit("OPTIONS");
        }
        assert("OPTIONS"@ =~= seq!['O', 'P', 'T', 'I', 'O', 'N', 'S']);
        self.handle("OPTIONS", path, handle)
    }

    /// Shortcut for `handle("POST", path, handle)`.
    pub fn post(&mut self, path: &str, handle: T) -> (r: Result<(), RouteError>)
        requires
            old(self).wf(),
        ensures
            old(self).handled(final(self), seq!['P', 'O', 'S', 'T'], path@, handle, r),
    {
        proof {
            reveal_strlit("POST");
        }
        assert("POST"@ =~= seq!['P', 'O', 'S', 'T']);
        self.handle("POST", path, handle)
    }

    /// Shortcut for `handle("PUT", path, handle)`.
    pub fn put(&mut self, path: &str, handle: T) -> (r: Result<(), RouteError>)
        requires
            old(self).wf(),
        ensures
            old(self).handled(final(self), seq!['P', 'U', 'T'], path@, handle, r),
    {
        proof {
            reveal_strlit("PUT");
        }
        assert("PUT"@ =~= seq!['P', 'U', 'T']);
        self.handle("PUT", path, handle)
    }

    /// Shortcut for `handle("PATCH", path, handle)`.
    pub fn patch(&mut self, path: &str, handle: T) -> (r: Result<(), RouteError>)
        requires
            old(self).wf(),
        ensures
            old(self).handled(final(self), seq!['P', 'A', 'T', 'C', 'H'], path@, handle, r),
    {
        proof {
            reveal_strlit("PATCH");
        }
        assert("PATCH"@ =~= seq!['P', 'A', 'T', 'C', 'H']);
        self.handle("PATCH", path, handle)
    }

    /// Shortcut for `handle("DELETE", path, handle)`.
    pub fn delete(&mut self, path: &str, handle: T) -> (r: Result<(), RouteError>)
        requires
            old(self).wf(),
        ensures
            old(self).handled(final(self), seq!['D', 'E', 'L', 'E', 'T', 'E'], path@, handle, r),
    {
        proof {
            reveal_strlit("DELETE");
        }
        assert("DELETE"@ =~= seq!['D', 'E', 'L', 'E', 'T', 'E']);
        self.handle("DELETE", path, handle)
    }

    fn not_found_answer(&self) -> (r: Answer<'_, T>)
        ensures
            self.carries_out(r, self.not_found_decision(), Seq::empty()),
    {
        match &self.not_found {
            Some(h) => Answer::NotFoundHandler(h),
            None => Answer::NotFound,
        }
    }

    /// Decides the answer to a request with `method` and `path`: the
    /// matching handler; else a redirect to the path with its trailing slash
    /// toggled or to its case-corrected clean form; else the automatic
    /// OPTIONS answer, a 405, or a 404, as the policy flags and fallback
    /// handlers say.
    pub fn dispatch(&self, method: &str, path: &str) -> (r: Answer<'_, T>)
        requires
            self.wf(),
        ensures
            self.carries_out(r, self.decide(method@, path@), method@),
    {
        let m = chars_of(method);
        let p = chars_of(path);
        let idx = self.find_method(&m);
        if let Some(i) = idx {
            assert(self.node_at(i as int).wf());
            let node = &self.trees[i].node;
            let (h, ps, tsr) = node.get_value(path);
            if let Some(h) = h {
                return Answer::Handle(h, ps);
            }
            let connect: Vec<char> = vec!['C', 'O', 'N', 'N', 'E', 'C', 'T'];
            let root: Vec<char> = vec!['/'];
            assert(connect@ =~= connect_name());
            assert(root@ =~= seq!['/']);
            if !eq_chars(&m, &connect) && !eq_chars(&p, &root) {
                let get: Vec<char> = vec!['G', 'E', 'T'];
                let head: Vec<char> = vec!['H', 'E', 'A', 'D'];
                assert(get@ =~= get_name());
                assert(head@ =~= head_name());
                let code: u16 = if eq_chars(&m, &get) || eq_chars(&m, &head) { 301 } else { 307 };
                if tsr && self.redirect_trailing_slash {
                    let q = toggle_slash_exec(&p);
                    return Answer::Redirect(code, string_of(&q));
                }
                if self.redirect_fixed_path {
                    let cleaned = clean_path(path);
                    let (fixed, found) = node.find_case_insensitive_path(cleaned.as_str(), self.redirect_trailing_slash);
                    if found {
                        return Answer::Redirect(code, fixed);
                    }
                }
            }
        } else {
            proof {
                lemma_first_match_empty(path@);
            }
        }
        let opts: Vec<char> = vec!['O', 'P', 'T', 'I', 'O', 'N', 'S'];
        assert(opts@ =~= options_name());
        if eq_chars(&m, &opts) && self.handle_options {
            let allow = self.allowed(path, method);
            if !allow.as_str().is_empty() {
                return Answer::Options(allow);
            }
        } else if self.handle_method_not_allowed {
            let allow = self.allowed(path, method);
            if !allow.as_str().is_empty() {
                return match &self.method_not_allowed {
                    Some(h) => Answer::MethodNotAllowedHandler(h, allow),
                    None => Answer::MethodNotAllowed(allow),
                };
            }
        }
        self.not_found_answer()
    }

    /// In a well-formed table no two patterns of one method conflict.
    pub proof fn lemma_node_wf(&self, m: Seq<char>)
        requires
            self.wf(),
        ensures
            crate::tree::no_conflicts(self.pats_for(m)),
            self.pats_for(m).len() == self.handles_for(m).len(),
    {
        if let Some(i) = self.method_index(m) {
            assert(self.node_at(i).wf());
        }
    }

    /// In a well-formed table the position of a method is the one it stands at.
    pub proof fn lemma_index_of(&self, k: int)
        requires
            self.wf(),
            0 <= k < self.methods().len(),
        ensures
            self.method_index(self.methods()[k]) == Some(k),
    {
        let m = self.methods()[k];
        let c = choose|i: int| 0 <= i < self.methods().len() && self.methods()[i] == m;
        if c < k {
            assert(self.methods()[c] != self.methods()[k]);
        } else if k < c {
            assert(self.methods()[k] != self.methods()[c]);
        }
    }
}

pub proof fn lemma_first_match_empty(path: Seq<char>)
    ensures
        first_match(Seq::<Seq<Seg>>::empty(), path, 0) is None,
{
}

} // verus!
