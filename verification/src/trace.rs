//! The traceability walk: every member related to a given member, one hop
//! per matching cell, ordered by relation and then by related member.

use vstd::prelude::*;
use crate::engine::Model;
use crate::model::{Cell, CellView, ModelView, ObservationView, Relation, RelationView, views};
use crate::seqs::{lemma_flatten_map_step, lemma_take_full};
use crate::text::{
    compare_text, lemma_text_lt_asymmetric, lemma_text_lt_irreflexive, lemma_text_lt_transitive,
    lemma_text_trichotomy, text_lt,
};
use crate::valence::{relation_active, relation_is_active, relation_type_name, relation_type_text};

verus! {

broadcast use vstd::seq_lib::group_seq_properties;

/// Direction of a hop relative to the traced member.
#[derive(Clone, Copy, Debug, PartialEq, Eq, Structural)]
pub enum TraceDirection {
    /// The traced member is on the relation's `from` axis.
    Out,
    /// The traced member is on the relation's `to` axis.
    In,
}

/// One hop of a traceability walk: a related member reached through a cell.
pub struct TraceHop {
    pub relation: String,
    pub relation_type: String,
    pub direction: TraceDirection,
    /// The related member on the other side of the cell.
    pub member: String,
    /// The dimension that member belongs to.
    pub dimension: String,
    /// Observation tokens recorded on the connecting cell.
    pub observations: Vec<String>,
}

pub struct TraceHopView {
    pub relation: Seq<char>,
    pub relation_type: Seq<char>,
    pub direction: TraceDirection,
    pub member: Seq<char>,
    pub dimension: Seq<char>,
    pub observations: Seq<Seq<char>>,
}

impl View for TraceHop {
    type V = TraceHopView;

    open spec fn view(&self) -> TraceHopView {
        TraceHopView {
            relation: self.relation@,
            relation_type: self.relation_type@,
            direction: self.direction,
            member: self.member@,
            dimension: self.dimension@,
            observations: views(self.observations@),
        }
    }
}

/// The observation tokens of a cell, in order.
pub open spec fn cell_tokens(c: CellView) -> Seq<Seq<char>> {
    c.observations.map_values(|o: ObservationView| o.observation)
}

/// The hop from the traced member (on the `from` side) to the cell's `to`.
pub open spec fn hop_out(r: RelationView, c: CellView) -> TraceHopView {
    TraceHopView {
        relation: r.id,
        relation_type: relation_type_text(r.relation_type),
        direction: TraceDirection::Out,
        member: c.to,
        dimension: r.to,
        observations: cell_tokens(c),
    }
}

/// The hop from the traced member (on the `to` side) to the cell's `from`.
pub open spec fn hop_in(r: RelationView, c: CellView) -> TraceHopView {
    TraceHopView {
        relation: r.id,
        relation_type: relation_type_text(r.relation_type),
        direction: TraceDirection::In,
        member: c.from,
        dimension: r.from,
        observations: cell_tokens(c),
    }
}

/// The hops one cell contributes to the trace of `id`: outbound when `id`
/// is the cell's `from`, then inbound when it is the cell's `to`.
pub open spec fn cell_hops(r: RelationView, c: CellView, id: Seq<char>) -> Seq<TraceHopView> {
    (if c.from == id { seq![hop_out(r, c)] } else { Seq::empty() }) + (if c.to == id {
        seq![hop_in(r, c)]
    } else {
        Seq::empty()
    })
}

pub open spec fn cell_hops_of(r: RelationView, id: Seq<char>) -> spec_fn(CellView) -> Seq<TraceHopView> {
    |c: CellView| cell_hops(r, c, id)
}

/// The hops of one relation; a deprecated relation contributes none.
pub open spec fn relation_hops(r: RelationView, id: Seq<char>) -> Seq<TraceHopView> {
    if relation_is_active(r) {
        r.cells.map_values(cell_hops_of(r, id)).flatten()
    } else {
        Seq::empty()
    }
}

pub open spec fn relation_hops_of(id: Seq<char>) -> spec_fn(RelationView) -> Seq<TraceHopView> {
    |r: RelationView| relation_hops(r, id)
}

/// Every hop of the trace of `id`, in relation and cell order.
pub open spec fn unordered_hops(m: ModelView, id: Seq<char>) -> Seq<TraceHopView> {
    m.relations.map_values(relation_hops_of(id)).flatten()
}

// ── the order of hops ──

/// `x` sorts strictly before `y`: by relation id, then by related member.
pub open spec fn hop_before(x: TraceHopView, y: TraceHopView) -> bool {
    text_lt(x.relation, y.relation) || (x.relation == y.relation && text_lt(x.member, y.member))
}

/// Two hops have the same sort key.
pub open spec fn same_key(x: TraceHopView, y: TraceHopView) -> bool {
    x.relation == y.relation && x.member == y.member
}

pub open spec fn key_class(k: TraceHopView) -> spec_fn(TraceHopView) -> bool {
    |x: TraceHopView| same_key(x, k)
}

pub open spec fn hops_sorted(s: Seq<TraceHopView>) -> bool {
    forall|i: int, j: int| 0 <= i < j < s.len() ==> !hop_before(#[trigger] s[j], #[trigger] s[i])
}

/// `out` is the stable sort of `input` by key: sorted, and for every key the
/// hops with that key appear in `out` in the same order as in `input`.
pub open spec fn stably_sorted(out: Seq<TraceHopView>, input: Seq<TraceHopView>) -> bool {
    &&& hops_sorted(out)
    &&& forall|k: TraceHopView| #[trigger] out.filter(key_class(k)) == input.filter(key_class(k))
}

/// The trace of `id` in `m`: its hops, stably sorted by relation and member.
pub open spec fn is_trace_of(m: ModelView, id: Seq<char>, hops: Seq<TraceHopView>) -> bool {
    stably_sorted(hops, unordered_hops(m, id))
}

proof fn lemma_hop_order(x: TraceHopView, y: TraceHopView, z: TraceHopView)
    ensures
        !hop_before(x, x),
        hop_before(x, y) ==> !hop_before(y, x),
        hop_before(x, y) && hop_before(y, z) ==> hop_before(x, z),
        hop_before(x, y) || hop_before(y, x) || same_key(x, y),
        same_key(x, y) ==> !hop_before(x, y),
        hop_before(x, y) && same_key(y, z) ==> hop_before(x, z),
{
    lemma_text_lt_irreflexive(x.relation);
    lemma_text_lt_irreflexive(x.member);
    lemma_text_trichotomy(x.relation, y.relation);
    lemma_text_trichotomy(x.member, y.member);
    if text_lt(x.relation, y.relation) {
        lemma_text_lt_asymmetric(x.relation, y.relation);
    }
    if x.relation == y.relation && text_lt(x.member, y.member) {
        lemma_text_lt_asymmetric(x.member, y.member);
    }
    if hop_before(x, y) && hop_before(y, z) {
        if text_lt(x.relation, y.relation) && text_lt(y.relation, z.relation) {
            lemma_text_lt_transitive(x.relation, y.relation, z.relation);
        }
        if x.relation == y.relation && y.relation == z.relation {
            lemma_text_lt_transitive(x.member, y.member, z.member);
        }
    }
}

proof fn lemma_filter_none<A>(s: Seq<A>, p: spec_fn(A) -> bool)
    requires
        forall|i: int| 0 <= i < s.len() ==> !p(s[i]),
    ensures
        s.filter(p) == Seq::<A>::empty(),
    decreases s.len(),
{
    reveal(Seq::filter);
    if s.len() > 0 {
        lemma_filter_none(s.drop_last(), p);
    }
    assert(s.filter(p) =~= Seq::<A>::empty());
}

/// Whether `x` sorts strictly before `y`.
fn hop_precedes(x: &TraceHop, y: &TraceHop) -> (r: bool)
    ensures
        r == hop_before(x@, y@),
{
    let c = compare_text(x.relation.as_str(), y.relation.as_str());
    if c < 0 {
        true
    } else if c > 0 {
        proof {
            lemma_text_lt_asymmetric(y.relation@, x.relation@);
        }
        false
    } else {
        compare_text(x.member.as_str(), y.member.as_str()) < 0
    }
}

/// Inserts `x` after every hop whose key is not greater than its own.
fn insert_hop(out: &mut Vec<TraceHop>, x: TraceHop)
    requires
        hops_sorted(views(old(out)@)),
    ensures
        hops_sorted(views(final(out)@)),
        forall|k: TraceHopView|
            #[trigger] views(final(out)@).filter(key_class(k)) == if same_key(x@, k) {
                views(old(out)@).filter(key_class(k)).push(x@)
            } else {
                views(old(out)@).filter(key_class(k))
            },
{
    let ghost o = views(out@);
    let ghost xv = x@;
    let mut p: usize = 0;
    let mut found = false;
    while p < out.len() && !found
        invariant
            p <= out.len(),
            o == views(out@),
            xv == x@,
            found ==> p < out.len() && hop_before(xv, o[p as int]),
            forall|i: int| 0 <= i < p ==> !hop_before(xv, #[trigger] o[i]),
        decreases out.len() - p, (if found { 0int } else { 1int }),
    {
        if hop_precedes(&x, &out[p]) {
            found = true;
        } else {
            p = p + 1;
        }
    }
    let ghost after = p == out.len() || hop_before(xv, o[p as int]);
    assert(after);
    out.insert(p, x);
    let ghost n = views(out@);
    proof {
        assert(n =~= o.take(p as int) + seq![xv] + o.skip(p as int));
        assert(o =~= o.take(p as int) + o.skip(p as int));
        // every hop after the insertion point sorts strictly after `x`
        assert forall|i: int| 0 <= i < o.skip(p as int).len() implies hop_before(
            xv,
            #[trigger] o.skip(p as int)[i],
        ) by {
            lemma_hop_order(o[p as int], o[p + i], xv);
            lemma_hop_order(xv, o[p as int], o[p + i]);
            if i > 0 {
                assert(!hop_before(o[p + i], o[p as int]));
            }
        }
        assert forall|i: int, j: int| 0 <= i < j < n.len() implies !hop_before(
            #[trigger] n[j],
            #[trigger] n[i],
        ) by {
            if j < p {
                assert(n[i] == o[i] && n[j] == o[j]);
            } else if j == p {
                assert(n[i] == o[i]);
                assert(!hop_before(xv, o[i]));
            } else if i == p {
                assert(n[j] == o.skip(p as int)[j - p - 1]);
                lemma_hop_order(xv, n[j], xv);
            } else if i < p {
                assert(n[i] == o[i] && n[j] == o[j - 1]);
            } else {
                assert(n[i] == o[i - 1] && n[j] == o[j - 1]);
            }
        }
        assert forall|k: TraceHopView| #[trigger] n.filter(key_class(k)) == if same_key(xv, k) {
            o.filter(key_class(k)).push(xv)
        } else {
            o.filter(key_class(k))
        } by {
            let f = key_class(k);
            Seq::filter_distributes_over_add(o.take(p as int) + seq![xv], o.skip(p as int), f);
            Seq::filter_distributes_over_add(o.take(p as int), seq![xv], f);
            Seq::filter_distributes_over_add(o.take(p as int), o.skip(p as int), f);
            reveal(Seq::filter);
            assert(seq![xv].drop_last() =~= Seq::<TraceHopView>::empty());
            if same_key(xv, k) {
                assert forall|i: int| 0 <= i < o.skip(p as int).len() implies !f(
                    o.skip(p as int)[i],
                ) by {
                    lemma_hop_order(xv, o.skip(p as int)[i], k);
                    lemma_hop_order(o.skip(p as int)[i], k, xv);
                    if same_key(o.skip(p as int)[i], k) {
                        assert(same_key(o.skip(p as int)[i], xv));
                        lemma_hop_order(o.skip(p as int)[i], xv, k);
                    }
                }
                lemma_filter_none(o.skip(p as int), f);
                assert(seq![xv].filter(f) =~= seq![xv]);
            } else {
                assert(seq![xv].filter(f) =~= Seq::<TraceHopView>::empty());
            }
        }
    }
}

/// The observation tokens of a cell.
fn tokens_of(c: &Cell) -> (v: Vec<String>)
    ensures
        views(v@) == cell_tokens(c@),
{
    let mut v: Vec<String> = Vec::new();
    let mut i: usize = 0;
    while i < c.observations.len()
        invariant
            i <= c.observations.len(),
            v@.len() == i,
            forall|j: int| 0 <= j < i ==> #[trigger] v@[j]@ == c.observations@[j].observation@,
        decreases c.observations.len() - i,
    {
        v.push(c.observations[i].observation.clone());
        i = i + 1;
    }
    assert(views(v@) =~= cell_tokens(c@));
    v
}

/// Appends the hops of one relation.
fn relation_hops_into(r: &Relation, member: &String, out: &mut Vec<TraceHop>)
    ensures
        views(final(out)@) == views(old(out)@) + relation_hops(r@, member@),
{
    let ghost rv = r@;
    let ghost id = member@;
    if !relation_active(r) {
        assert(views(out@) =~= views(out@) + Seq::<TraceHopView>::empty());
        return;
    }
    let ghost start = views(out@);
    let mut j: usize = 0;
    while j < r.cells.len()
        invariant
            j <= r.cells.len(),
            rv == r@,
            id == member@,
            relation_is_active(rv),
            views(out@) == start + rv.cells.take(j as int).map_values(cell_hops_of(rv, id)).flatten(),
        decreases r.cells.len() - j,
    {
        let c = &r.cells[j];
        proof {
            assert(rv.cells[j as int] == c@);
            lemma_flatten_map_step(rv.cells, j as int, cell_hops_of(rv, id));
        }
        let ghost before = views(out@);
        let mut added: Vec<TraceHop> = Vec::new();
        if c.from == *member {
            added.push(
                TraceHop {
                    relation: r.id.clone(),
                    relation_type: relation_type_name(r.relation_type),
                    direction: TraceDirection::Out,
                    member: c.to.clone(),
                    dimension: r.to.clone(),
                    observations: tokens_of(c),
                },
            );
        }
        if c.to == *member {
            added.push(
                TraceHop {
                    relation: r.id.clone(),
                    relation_type: relation_type_name(r.relation_type),
                    direction: TraceDirection::In,
                    member: c.from.clone(),
                    dimension: r.from.clone(),
                    observations: tokens_of(c),
                },
            );
        }
        assert(views(added@) =~= cell_hops(rv, c@, id));
        out.append(&mut added);
        assert(views(out@) =~= before + cell_hops(rv, c@, id));
        j = j + 1;
    }
    proof {
        lemma_take_full(rv.cells);
    }
}

impl Model {
    /// Every member related to `member_id` across all non-deprecated
    /// relations, one hop per matching cell, stably sorted by relation id and
    /// then by related member. `Out` hops are those where the traced member
    /// is the cell's `from`, `In` hops those where it is the cell's `to`.
    pub fn trace(&self, member_id: &str) -> (hops: Vec<TraceHop>)
        ensures
            is_trace_of(self@, member_id@, views(hops@)),
    {
        let ghost m = self@;
        let doc = self.document();
        let member = String::from_str(member_id);
        let mut raw: Vec<TraceHop> = Vec::new();
        let mut i: usize = 0;
        while i < doc.relations.len()
            invariant
                i <= doc.relations.len(),
                m == doc@,
                member@ == member_id@,
                views(raw@) == m.relations.take(i as int).map_values(relation_hops_of(member_id@)).flatten(),
            decreases doc.relations.len() - i,
        {
            proof {
                assert(m.relations[i as int] == doc.relations@[i as int]@);
                lemma_flatten_map_step(m.relations, i as int, relation_hops_of(member_id@));
            }
            relation_hops_into(&doc.relations[i], &member, &mut raw);
            i = i + 1;
        }
        proof {
            lemma_take_full(m.relations);
        }
        let ghost input = views(raw@);
        let total = raw.len();
        assert(input.len() == total);
        assert(input.len() <= usize::MAX);
        let mut out: Vec<TraceHop> = Vec::new();
        let mut rest: Vec<TraceHop> = Vec::new();
        // move the hops into `rest` in reverse, so that popping yields input order
        while raw.len() > 0
            invariant
                views(raw@) + views(rest@).reverse() == input,
            decreases raw.len(),
        {
            let ghost before_raw = views(raw@);
            let ghost before_rest = views(rest@);
            let h = raw.pop().unwrap();
            rest.push(h);
            proof {
                assert(views(rest@) =~= before_rest.push(h@));
                assert(before_raw =~= views(raw@).push(h@));
                assert(views(rest@).reverse() =~= seq![h@] + before_rest.reverse());
                assert(views(raw@) + views(rest@).reverse() =~= before_raw + before_rest.reverse());
            }
        }
        assert(views(rest@).reverse() =~= input);
        let mut n: usize = 0;
        while rest.len() > 0
            invariant
                n + rest@.len() == input.len(),
                input.len() <= usize::MAX,
                views(rest@).reverse() == input.skip(n as int),
                hops_sorted(views(out@)),
                forall|k: TraceHopView| #[trigger] views(out@).filter(key_class(k)) == input.take(n as int).filter(key_class(k)),
            decreases rest.len(),
        {
            let ghost before_rest = views(rest@);
            let h = rest.pop().unwrap();
            proof {
                assert(before_rest =~= views(rest@).push(h@));
                assert(before_rest.reverse() =~= seq![h@] + views(rest@).reverse());
                assert(input.skip(n as int)[0] == h@);
                assert(input[n as int] == h@);
                assert(views(rest@).reverse() =~= input.skip(n + 1));
                assert(input.take(n + 1) =~= input.take(n as int).push(h@));
            }
            let ghost hv = h@;
            let ghost before_out = views(out@);
            insert_hop(&mut out, h);
            proof {
                assert forall|k: TraceHopView| #[trigger] views(out@).filter(key_class(k)) == input.take(n + 1).filter(key_class(k)) by {
                    input.take(n as int).lemma_filter_push(hv, key_class(k));
                }
            }
            n = n + 1;
        }
        proof {
            assert(input.take(n as int) =~= input);
        }
        out
    }
}

} // verus!
