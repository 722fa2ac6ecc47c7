use vstd::prelude::*;

verus! {

/// Mapping over a sequence with one more element maps that element last.
pub proof fn lemma_map_push<A, B>(s: Seq<A>, x: A, f: spec_fn(A) -> B)
    ensures
        s.push(x).map_values(f) == s.map_values(f).push(f(x)),
{
    let l = s.push(x).map_values(f);
    let r = s.map_values(f).push(f(x));
    assert(l.len() == r.len());
    assert forall|i: int| 0 <= i < l.len() implies l[i] == r[i] by {
        if i < s.len() {
            assert(s.push(x)[i] == s[i]);
        }
    }
    assert(l =~= r);
}

/// Mapping commutes with dropping a prefix.
pub proof fn lemma_map_skip<A, B>(s: Seq<A>, k: int, f: spec_fn(A) -> B)
    requires
        0 <= k <= s.len(),
    ensures
        s.skip(k).map_values(f) == s.map_values(f).skip(k),
{
    assert(s.skip(k).map_values(f) =~= s.map_values(f).skip(k));
}

} // verus!
