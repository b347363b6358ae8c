//! Path normalization: repeated `/` collapsed, `.` and `..` resolved
//! (never above the root), one leading `/`, no trailing `/`.
use vstd::prelude::*;
use crate::text::{chars_of, string_of};

verus! {

/// The stack of segments after one more segment `s` is read.
pub open spec fn push_seg(st: Seq<Seq<char>>, s: Seq<char>) -> Seq<Seq<char>> {
    if s.len() == 0 || s == seq!['.'] {
        st
    } else if s == seq!['.', '.'] {
        if st.len() > 0 { st.drop_last() } else { st }
    } else {
        st.push(s)
    }
}

/// The segment stack and the segment being read after scanning `p`.
pub open spec fn scan(p: Seq<char>) -> (Seq<Seq<char>>, Seq<char>)
    decreases p.len(),
{
    if p.len() == 0 {
        (Seq::empty(), Seq::empty())
    } else {
        let (st, cur) = scan(p.drop_last());
        if p.last() == '/' {
            (push_seg(st, cur), Seq::empty())
        } else {
            (st, cur.push(p.last()))
        }
    }
}

/// The resolved segments of `p`.
pub open spec fn segments(p: Seq<char>) -> Seq<Seq<char>> {
    push_seg(scan(p).0, scan(p).1)
}

/// `/s1/s2/.../sn`.
pub open spec fn join_all(st: Seq<Seq<char>>) -> Seq<char>
    decreases st.len(),
{
    if st.len() == 0 {
        Seq::empty()
    } else {
        join_all(st.drop_last()) + seq!['/'] + st.last()
    }
}

/// The absolute path made of the segments `st`.
pub open spec fn join(st: Seq<Seq<char>>) -> Seq<char> {
    if st.len() == 0 { seq!['/'] } else { join_all(st) }
}

/// The cleaned form of `p`.
pub open spec fn clean(p: Seq<char>) -> Seq<char> {
    join(segments(p))
}

/// A segment that cleaning keeps as it is: non-empty, without `/`, and
/// neither `.` nor `..`.
pub open spec fn clean_seg(s: Seq<char>) -> bool {
    &&& s.len() > 0
    &&& s != seq!['.']
    &&& s != seq!['.', '.']
    &&& forall|k: int| 0 <= k < s.len() ==> s[k] != '/'
}

pub open spec fn clean_stack(st: Seq<Seq<char>>) -> bool {
    forall|k: int| 0 <= k < st.len() ==> clean_seg(#[trigger] st[k])
}

pub open spec fn no_slash(s: Seq<char>) -> bool {
    forall|k: int| 0 <= k < s.len() ==> s[k] != '/'
}

proof fn lemma_push_seg_clean(st: Seq<Seq<char>>, s: Seq<char>)
    requires
        clean_stack(st),
        no_slash(s),
    ensures
        clean_stack(push_seg(st, s)),
{
    if !(s.len() == 0 || s == seq!['.']) && s != seq!['.', '.'] {
        let r = st.push(s);
        assert forall|k: int| 0 <= k < r.len() implies clean_seg(#[trigger] r[k]) by {
            if k < st.len() {
                assert(clean_seg(st[k]));
            }
        }
    } else if s == seq!['.', '.'] && st.len() > 0 {
        let r = st.drop_last();
        assert forall|k: int| 0 <= k < r.len() implies clean_seg(#[trigger] r[k]) by {
            assert(clean_seg(st[k]));
        }
    }
}

proof fn lemma_scan_clean(p: Seq<char>)
    ensures
        clean_stack(scan(p).0),
        no_slash(scan(p).1),
    decreases p.len(),
{
    if p.len() > 0 {
        lemma_scan_clean(p.drop_last());
        let (st, cur) = scan(p.drop_last());
        if p.last() == '/' {
            lemma_push_seg_clean(st, cur);
        } else {
            let c = cur.push(p.last());
            assert forall|k: int| 0 <= k < c.len() implies c[k] != '/' by {
                if k < cur.len() {
                    assert(cur[k] != '/');
                }
            }
        }
    }
}

/// The segments of any path form a clean stack: no `..` survives, so the
/// cleaned path never climbs above the root.
pub proof fn lemma_segments_clean(p: Seq<char>)
    ensures
        clean_stack(segments(p)),
{
    lemma_scan_clean(p);
    lemma_push_seg_clean(scan(p).0, scan(p).1);
}

proof fn lemma_scan_append(x: Seq<char>, y: Seq<char>)
    requires
        no_slash(y),
    ensures
        scan(x + y) == (scan(x).0, scan(x).1 + y),
    decreases y.len(),
{
    if y.len() == 0 {
        assert(x + y =~= x);
        assert(scan(x).1 + y =~= scan(x).1);
    } else {
        let y2 = y.drop_last();
        assert((x + y).drop_last() =~= x + y2);
        assert((x + y).last() == y.last());
        lemma_scan_append(x, y2);
        assert(scan(x).1 + y2 + seq![y.last()] =~= scan(x).1 + y);
        assert((scan(x).1 + y2).push(y.last()) =~= scan(x).1 + y);
    }
}

proof fn lemma_scan_join_all(st: Seq<Seq<char>>)
    requires
        clean_stack(st),
        st.len() > 0,
    ensures
        scan(join_all(st)) == (st.drop_last(), st.last()),
    decreases st.len(),
{
    let pre = st.drop_last();
    let s = st.last();
    assert(clean_seg(st[st.len() - 1]));
    let x = join_all(pre) + seq!['/'];
    assert(join_all(st) == x + s);
    lemma_scan_append(x, s);
    assert(x.drop_last() =~= join_all(pre));
    if pre.len() == 0 {
        assert(join_all(pre) =~= Seq::<char>::empty());
        assert(scan(seq![]) == (Seq::<Seq<char>>::empty(), Seq::<char>::empty()));
        assert(scan(x) == (push_seg(Seq::empty(), Seq::empty()), Seq::<char>::empty()));
        assert(scan(x).1 + s =~= s);
    } else {
        assert forall|k: int| 0 <= k < pre.len() implies clean_seg(#[trigger] pre[k]) by {
            assert(clean_seg(st[k]));
        }
        lemma_scan_join_all(pre);
        assert(clean_seg(st[st.len() - 2]));
        assert(pre.drop_last().push(pre.last()) =~= pre);
        assert(scan(x).1 + s =~= s);
    }
}

/// Cleaning a clean stack's path gives the same stack back.
pub proof fn lemma_segments_join(st: Seq<Seq<char>>)
    requires
        clean_stack(st),
    ensures
        segments(join(st)) == st,
{
    if st.len() == 0 {
        let p = seq!['/'];
        assert(p.drop_last() =~= Seq::<char>::empty());
        assert(scan(p.drop_last()) == (Seq::<Seq<char>>::empty(), Seq::<char>::empty()));
        assert(p.last() == '/');
        assert(push_seg(Seq::<Seq<char>>::empty(), Seq::<char>::empty()) == Seq::<Seq<char>>::empty());
        assert(scan(p) == (Seq::<Seq<char>>::empty(), Seq::<char>::empty()));
        assert(segments(p) =~= st);
    } else {
        lemma_scan_join_all(st);
        assert(clean_seg(st[st.len() - 1]));
        assert(st.drop_last().push(st.last()) =~= st);
    }
}

/// Cleaning is idempotent.
pub proof fn lemma_clean_idempotent(p: Seq<char>)
    ensures
        clean(clean(p)) == clean(p),
{
    lemma_segments_clean(p);
    lemma_segments_join(segments(p));
}

pub open spec fn stack_of(v: Seq<Vec<char>>) -> Seq<Seq<char>> {
    v.map_values(|s: Vec<char>| s@)
}

fn is_dot(s: &Vec<char>) -> (r: bool)
    ensures
        r == (s@ == seq!['.']),
{
    if s.len() == 1 && s[0] == '.' {
        assert(s@ =~= seq!['.']);
        true
    } else {
        false
    }
}

fn is_dot_dot(s: &Vec<char>) -> (r: bool)
    ensures
        r == (s@ == seq!['.', '.']),
{
    if s.len() == 2 && s[0] == '.' && s[1] == '.' {
        assert(s@ =~= seq!['.', '.']);
        true
    } else {
        false
    }
}

fn push_seg_exec(st: &mut Vec<Vec<char>>, s: Vec<char>)
    ensures
        stack_of(final(st)@) == push_seg(stack_of(old(st)@), s@),
{
    if s.len() == 0 || is_dot(&s) {
    } else if is_dot_dot(&s) {
        if st.len() > 0 {
            st.pop();
            assert(stack_of(st@) =~= stack_of(old(st)@).drop_last());
        }
    } else {
        let ghost sv = s@;
        st.push(s);
        assert(stack_of(st@) =~= stack_of(old(st)@).push(sv));
    }
}

/// Normalizes `path`: repeated `/` collapsed, `.` dropped, `..` removing the
/// segment before it (and nothing at the root), one leading `/` and no
/// trailing `/` unless the result is `/` itself.
pub fn clean_path(path: &str) -> (r: String)
    ensures
        r@ == clean(path@),
        r@ == join(segments(path@)),
        clean_stack(segments(path@)),
        r@.len() > 0 && r@[0] == '/',
        clean(r@) == r@,
{
    let c = chars_of(path);
    let mut st: Vec<Vec<char>> = Vec::new();
    let mut cur: Vec<char> = Vec::new();
    let mut i: usize = 0;
    assert(stack_of(st@) =~= Seq::<Seq<char>>::empty());
    assert(c@.subrange(0, 0) =~= Seq::<char>::empty());
    while i < c.len()
        invariant
            i <= c.len(),
            (stack_of(st@), cur@) == scan(c@.subrange(0, i as int)),
        decreases c.len() - i,
    {
        assert(c@.subrange(0, i + 1).drop_last() =~= c@.subrange(0, i as int));
        if c[i] == '/' {
            let seg = cur;
            push_seg_exec(&mut st, seg);
            cur = Vec::new();
        } else {
            cur.push(c[i]);
        }
        i += 1;
    }
    assert(c@.subrange(0, i as int) =~= path@);
    push_seg_exec(&mut st, cur);
    let ghost segs = stack_of(st@);
    let mut out: Vec<char> = Vec::new();
    if st.len() == 0 {
        out.push('/');
        assert(out@ =~= seq!['/']);
    } else {
        let mut k: usize = 0;
        while k < st.len()
            invariant
                k <= st.len(),
                segs == stack_of(st@),
                out@ == join_all(segs.subrange(0, k as int)),
            decreases st.len() - k,
        {
            assert(segs.subrange(0, k + 1).drop_last() =~= segs.subrange(0, k as int));
            out.push('/');
            let mut piece = st[k].clone();
            out.append(&mut piece);
            k += 1;
        }
        assert(segs.subrange(0, k as int) =~= segs);
    }
    proof {
        lemma_segments_clean(path@);
        lemma_clean_idempotent(path@);
        lemma_join_starts_with_slash(segs);
    }
    string_of(&out)
}

proof fn lemma_join_starts_with_slash(st: Seq<Seq<char>>)
    ensures
        join(st).len() > 0 && join(st)[0] == '/',
    decreases st.len(),
{
    if st.len() > 1 {
        lemma_join_starts_with_slash(st.drop_last());
    } else if st.len() == 1 {
        assert(join_all(st.drop_last()) =~= Seq::<char>::empty());
    }
}

} // verus!
