//! Facts about sequences and the places in them.
use vstd::prelude::*;

verus! {

broadcast use vstd::seq::group_seq_axioms;

/// `at` lists in order the places below `n` that satisfy `p`.
pub open spec fn lists(at: Seq<int>, n: int, p: spec_fn(int) -> bool) -> bool {
    &&& forall|a: int, b: int| 0 <= a < b < at.len() ==> #[trigger] at[a] < #[trigger] at[b]
    &&& forall|a: int| 0 <= a < at.len() ==> 0 <= #[trigger] at[a] < n && p(at[a])
    &&& forall|i: int| 0 <= i < n && #[trigger] p(i) ==> at.contains(i)
}

/// One more place: it is listed where it satisfies `p`.
pub proof fn lemma_lists_next(at: Seq<int>, n: int, p: spec_fn(int) -> bool)
    requires
        n >= 0,
        lists(at, n, p),
    ensures
        p(n) ==> lists(at.push(n), n + 1, p),
        !p(n) ==> lists(at, n + 1, p),
{
    if p(n) {
        let more = at.push(n);
        assert forall|i: int| 0 <= i < n + 1 && #[trigger] p(i) implies more.contains(i) by {
            if i < n {
                let k = choose|k: int| 0 <= k < at.len() && at[k] == i;
                assert(more[k] == i);
            } else {
                assert(more[at.len() as int] == n);
            }
        }
    }
}

/// What a sequence holds after a push.
pub proof fn lemma_pushed<A>(s: Seq<A>, y: A, x: A)
    ensures
        s.push(y).contains(x) <==> s.contains(x) || x == y,
{
    if s.contains(x) {
        let k = choose|k: int| 0 <= k < s.len() && s[k] == x;
        assert(s.push(y)[k] == x);
    }
    assert(s.push(y)[s.len() as int] == y);
    if s.push(y).contains(x) {
        let k = choose|k: int| 0 <= k < s.push(y).len() && s.push(y)[k] == x;
        if k < s.len() {
            assert(s[k] == x);
        }
    }
}

/// What two sequences hold together.
pub proof fn lemma_joined<A>(a: Seq<A>, b: Seq<A>, x: A)
    ensures
        (a + b).contains(x) <==> a.contains(x) || b.contains(x),
{
    if a.contains(x) {
        let k = choose|k: int| 0 <= k < a.len() && a[k] == x;
        assert((a + b)[k] == x);
    }
    if b.contains(x) {
        let k = choose|k: int| 0 <= k < b.len() && b[k] == x;
        assert((a + b)[a.len() + k] == x);
    }
    if (a + b).contains(x) {
        let k = choose|k: int| 0 <= k < (a + b).len() && (a + b)[k] == x;
        if k >= a.len() {
            assert(b[k - a.len()] == x);
        }
    }
}

/// What a sequence holds once it is filtered.
pub proof fn lemma_filtered<A>(s: Seq<A>, p: spec_fn(A) -> bool, x: A)
    ensures
        s.filter(p).contains(x) <==> s.contains(x) && p(x),
    decreases s.len(),
{
    reveal(Seq::filter);
    if s.len() > 0 {
        let rest = s.drop_last();
        lemma_filtered(rest, p, x);
        assert(s =~= rest.push(s.last()));
        lemma_pushed(rest, s.last(), x);
        lemma_pushed(rest.filter(p), s.last(), x);
    }
}

} // verus!
