//! Small facts about sequences used by the loop proofs.

use vstd::prelude::*;

verus! {

broadcast use vstd::seq_lib::group_seq_properties;

/// Extending a prefix by one element extends its filter-and-map by at most one.
pub proof fn lemma_filter_map_step<A, B>(
    s: Seq<A>,
    j: int,
    p: spec_fn(A) -> bool,
    f: spec_fn(A) -> B,
)
    requires
        0 <= j < s.len(),
    ensures
        s.take(j + 1).filter(p).map_values(f) == if p(s[j]) {
            s.take(j).filter(p).map_values(f).push(f(s[j]))
        } else {
            s.take(j).filter(p).map_values(f)
        },
{
    assert(s.take(j + 1) =~= s.take(j).push(s[j]));
    s.take(j).lemma_filter_push(s[j], p);
    if p(s[j]) {
        assert(s.take(j).filter(p).push(s[j]).map_values(f) =~= s.take(j).filter(p).map_values(
            f,
        ).push(f(s[j])));
    }
}

/// Extending a prefix by one element appends that element's part to the flattening.
pub proof fn lemma_flatten_map_step<A, B>(s: Seq<A>, j: int, f: spec_fn(A) -> Seq<B>)
    requires
        0 <= j < s.len(),
    ensures
        s.take(j + 1).map_values(f).flatten() == s.take(j).map_values(f).flatten() + f(s[j]),
{
    assert(s.take(j + 1).map_values(f) =~= s.take(j).map_values(f).push(f(s[j])));
    s.take(j).map_values(f).lemma_flatten_push(f(s[j]));
}

/// Extending a prefix by one element extends its map by that element's image.
pub proof fn lemma_map_step<A, B>(s: Seq<A>, j: int, f: spec_fn(A) -> B)
    requires
        0 <= j < s.len(),
    ensures
        s.take(j + 1).map_values(f) == s.take(j).map_values(f).push(f(s[j])),
{
    assert(s.take(j + 1).map_values(f) =~= s.take(j).map_values(f).push(f(s[j])));
}

/// An element of a flattening comes from one of the flattened sequences.
pub proof fn lemma_flatten_contains<A>(ss: Seq<Seq<A>>, x: A)
    ensures
        ss.flatten().contains(x) <==> exists|i: int, j: int|
            0 <= i < ss.len() && 0 <= j < ss[i].len() && #[trigger] ss[i][j] == x,
    decreases ss.len(),
{
    if ss.len() > 0 {
        let rest = ss.drop_first();
        lemma_flatten_contains(rest, x);
        let f = ss.flatten();
        let n = ss.first().len();
        assert(f == ss.first() + rest.flatten());
        if f.contains(x) {
            let k = choose|k: int| 0 <= k < f.len() && f[k] == x;
            if k < n {
                assert(ss[0][k] == x);
            } else {
                assert(rest.flatten()[k - n] == x);
                assert(rest.flatten().contains(x));
                let (i, j) = choose|i: int, j: int|
                    0 <= i < rest.len() && 0 <= j < rest[i].len() && #[trigger] rest[i][j] == x;
                assert(ss[i + 1][j] == x);
            }
        }
        if exists|i: int, j: int| 0 <= i < ss.len() && 0 <= j < ss[i].len() && #[trigger] ss[i][j] == x {
            let (i, j) = choose|i: int, j: int|
                0 <= i < ss.len() && 0 <= j < ss[i].len() && #[trigger] ss[i][j] == x;
            if i == 0 {
                assert(f[j] == x);
            } else {
                assert(rest[i - 1][j] == x);
                assert(rest.flatten().contains(x));
                let k = choose|k: int| 0 <= k < rest.flatten().len() && rest.flatten()[k] == x;
                assert(f[n + k] == x);
            }
        }
    }
}

/// An element passes a filter exactly when it is in the sequence and
/// satisfies the predicate.
pub proof fn lemma_filter_contains_iff<A>(s: Seq<A>, p: spec_fn(A) -> bool, x: A)
    ensures
        s.filter(p).contains(x) <==> s.contains(x) && p(x),
{
    if s.filter(p).contains(x) {
        s.lemma_filter_contains_rev(p, x);
        let k = choose|k: int| 0 <= k < s.filter(p).len() && s.filter(p)[k] == x;
        s.lemma_filter_pred(p, k);
    }
    if s.contains(x) && p(x) {
        let k = choose|k: int| 0 <= k < s.len() && s[k] == x;
        s.lemma_filter_contains(p, k);
    }
}

/// Dropping elements whose part is empty does not change a flattening.
pub proof fn lemma_flatten_map_filter<A, B>(s: Seq<A>, p: spec_fn(A) -> bool, f: spec_fn(A) -> Seq<B>)
    requires
        forall|x: A| !p(x) ==> #[trigger] f(x) == Seq::<B>::empty(),
    ensures
        s.filter(p).map_values(f).flatten() == s.map_values(f).flatten(),
    decreases s.len(),
{
    if s.len() > 0 {
        let init = s.drop_last();
        let x = s.last();
        lemma_flatten_map_filter(init, p, f);
        assert(s =~= init.push(x));
        init.lemma_filter_push(x, p);
        assert(s.map_values(f) =~= init.map_values(f).push(f(x)));
        init.map_values(f).lemma_flatten_push(f(x));
        if p(x) {
            assert(s.filter(p).map_values(f) =~= init.filter(p).map_values(f).push(f(x)));
            init.filter(p).map_values(f).lemma_flatten_push(f(x));
        } else {
            assert(init.map_values(f).flatten() + f(x) =~= init.map_values(f).flatten());
        }
    }
}

pub proof fn lemma_take_full<A>(s: Seq<A>)
    ensures
        s.take(s.len() as int) == s,
{
    assert(s.take(s.len() as int) =~= s);
}

} // verus!
