//! URL parameters produced by a successful match.
use vstd::prelude::*;
use crate::text::string_of;

verus! {

/// A single URL parameter: a key and the text bound to it.
#[derive(Debug, Clone, PartialEq)]
pub struct Param {
    pub key: String,
    pub value: String,
}

impl Param {
    pub fn new(key: &str, value: &str) -> (r: Param)
        ensures
            r.key@ == key@,
            r.value@ == value@,
    {
        Param { key: key.to_owned(), value: value.to_owned() }
    }
}

/// The value of the first pair in `ps` whose key is `k`.
pub open spec fn lookup_key(ps: Seq<(Seq<char>, Seq<char>)>, k: Seq<char>) -> Option<Seq<char>>
    decreases ps.len(),
{
    if ps.len() == 0 {
        None
    } else if ps[0].0 == k {
        Some(ps[0].1)
    } else {
        lookup_key(ps.drop_first(), k)
    }
}

/// The parameters bound by a match, in the order they stand in the pattern.
#[derive(Debug, PartialEq)]
pub struct Params(pub Vec<Param>);

impl View for Params {
    type V = Seq<(Seq<char>, Seq<char>)>;

    open spec fn view(&self) -> Seq<(Seq<char>, Seq<char>)> {
        self.0@.map_values(|p: Param| (p.key@, p.value@))
    }
}

impl Params {
    /// The value of the first parameter whose key is `name`.
    pub fn get(&self, name: &str) -> (r: Option<&str>)
        ensures
            r matches Some(v) ==> lookup_key(self@, name@) == Some(v@),
            r is None ==> lookup_key(self@, name@) is None,
    {
        let key = name.to_owned();
        let mut i: usize = 0;
        assert(self@.subrange(0, self@.len() as int) =~= self@);
        while i < self.0.len()
            invariant
                i <= self.0.len(),
                key@ == name@,
                lookup_key(self@, name@) == lookup_key(self@.subrange(i as int, self@.len() as int), name@),
            decreases self.0.len() - i,
        {
            assert(self@.subrange(i as int, self@.len() as int).drop_first()
                =~= self@.subrange(i + 1, self@.len() as int));
            if self.0[i].key == key {
                return Some(self.0[i].value.as_str());
            }
            i += 1;
        }
        None
    }

    pub fn new() -> (r: Params)
        ensures
            r@.len() == 0,
    {
        Params(Vec::new())
    }

    pub fn is_empty(&self) -> (r: bool)
        ensures
            r == (self@.len() == 0),
    {
        self.0.len() == 0
    }

    pub fn push(&mut self, p: Param)
        ensures
            final(self)@ == old(self)@.push((p.key@, p.value@)),
    {
        self.0.push(p);
        assert(final(self)@ =~= old(self)@.push((p.key@, p.value@)));
    }

    /// The value of the parameter at position `i`.
    pub fn index(&self, i: usize) -> (r: &str)
        requires
            i < self@.len(),
        ensures
            r@ == self@[i as int].1,
    {
        self.0[i].value.as_str()
    }

    /// Builds parameters from key/value character pairs.
    pub fn from_pairs(ps: &Vec<(Vec<char>, Vec<char>)>) -> (r: Params)
        ensures
            r@ == ps@.map_values(|p: (Vec<char>, Vec<char>)| (p.0@, p.1@)),
    {
        let mut out = Params::new();
        let mut i: usize = 0;
        while i < ps.len()
            invariant
                i <= ps.len(),
                out@ == ps@.subrange(0, i as int).map_values(|p: (Vec<char>, Vec<char>)| (p.0@, p.1@)),
            decreases ps.len() - i,
        {
            let k = string_of(&ps[i].0);
            let v = string_of(&ps[i].1);
            out.push(Param { key: k, value: v });
            i += 1;
            assert(out@ =~= ps@.subrange(0, i as int).map_values(|p: (Vec<char>, Vec<char>)| (p.0@, p.1@)));
        }
        assert(ps@.subrange(0, i as int) =~= ps@);
        out
    }
}

} // verus!
