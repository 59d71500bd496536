//! Facts about sequences that are put together from parts.
use vstd::prelude::*;

verus! {

/// Nothing is put together from no parts.
pub(crate) proof fn lemma_flat_map_empty<A, B>(s: Seq<A>, f: spec_fn(A) -> Seq<B>)
    requires
        s.len() == 0,
    ensures
        s.flat_map(f) == Seq::<B>::empty(),
{
}

/// The last part comes last.
pub(crate) proof fn lemma_flat_map_last<A, B>(s: Seq<A>, f: spec_fn(A) -> Seq<B>)
    requires
        s.len() > 0,
    ensures
        s.flat_map(f) == s.drop_last().flat_map(f) + f(s.last()),
{
    s.drop_last().lemma_flat_map_push(f, s.last());
    assert(s.drop_last().push(s.last()) =~= s);
}

/// A single part is the whole.
pub(crate) proof fn lemma_flat_map_one<A, B>(a: A, f: spec_fn(A) -> Seq<B>)
    ensures
        seq![a].flat_map(f) == f(a),
{
    lemma_flat_map_last(seq![a], f);
    lemma_flat_map_empty(Seq::<A>::empty(), f);
}

/// Two lists of parts can be put together one after the other.
pub(crate) proof fn lemma_flat_map_add<A, B>(s: Seq<A>, t: Seq<A>, f: spec_fn(A) -> Seq<B>)
    ensures
        (s + t).flat_map(f) == s.flat_map(f) + t.flat_map(f),
    decreases t.len(),
{
    if t.len() == 0 {
        lemma_flat_map_empty(t, f);
    } else {
        lemma_flat_map_add(s, t.drop_last(), f);
        lemma_flat_map_last(s + t, f);
        lemma_flat_map_last(t, f);
        assert((s + t).drop_last() =~= s + t.drop_last());
    }
}

/// Every part is somewhere in the whole.
pub(crate) proof fn lemma_flat_map_part<A, B>(s: Seq<A>, f: spec_fn(A) -> Seq<B>, part: int) -> (from:
    int)
    requires
        0 <= part < s.len(),
    ensures
        0 <= from,
        from + f(s[part]).len() <= s.flat_map(f).len(),
        s.flat_map(f).subrange(from, from + f(s[part]).len()) == f(s[part]),
    decreases s.len(),
{
    lemma_flat_map_last(s, f);
    let init = s.drop_last();
    if part == s.len() - 1 {
        assert(s.flat_map(f).subrange(
            init.flat_map(f).len() as int,
            s.flat_map(f).len() as int,
        ) =~= f(s[part]));
        init.flat_map(f).len() as int
    } else {
        let from = lemma_flat_map_part(init, f, part);
        assert(s.flat_map(f).subrange(from, from + f(s[part]).len()) =~= init.flat_map(f).subrange(
            from,
            from + f(s[part]).len(),
        ));
        from
    }
}

/// What is in the whole is in one of its parts.
pub(crate) proof fn lemma_flat_map_member<A, B>(s: Seq<A>, f: spec_fn(A) -> Seq<B>, k: int) -> (part:
    int)
    requires
        0 <= k < s.flat_map(f).len(),
    ensures
        0 <= part < s.len(),
        f(s[part]).contains(s.flat_map(f)[k]),
    decreases s.len(),
{
    if s.len() == 0 {
        lemma_flat_map_empty(s, f);
        0
    } else {
        lemma_flat_map_last(s, f);
        let init = s.drop_last().flat_map(f);
        if k < init.len() {
            lemma_flat_map_member(s.drop_last(), f, k)
        } else {
            s.len() - 1
        }
    }
}

} // verus!
