//! Staleness of source references: every reference that records a content
//! hash is re-checked against the content it points to.

use vstd::prelude::*;
use crate::engine::Model;
use crate::model::{
    CellView, DimensionView, EvidenceView, MemberView, ModelView, ObservationView, RelationView,
    SourceRef, SourceRefView, copy_opt_string, opt_text, views,
};
use crate::seqs::{lemma_filter_map_step, lemma_flatten_map_step, lemma_take_full};
use crate::valence::{member_active, member_is_active, relation_active, relation_is_active};

verus! {

broadcast use vstd::seq_lib::group_seq_properties;

/// The hash of a text under the standard library's default hasher
/// (`std::collections::hash_map::DefaultHasher` built with `new`).
pub uninterp spec fn default_text_hash(text: Seq<char>) -> u64;

/// Hashes a text with `std::collections::hash_map::DefaultHasher::new()`
/// (`Hash::hash` of the `str`, then `Hasher::finish`). Claimed: the result
/// is `default_text_hash` of the text, i.e. it depends on the text alone —
/// a hasher made by `new` starts from fixed keys, unlike one made by a
/// `RandomState`. Left unsaid: which number it is; std leaves the algorithm
/// unspecified and free to change between its releases.
#[verifier::external_body]
fn text_hash(text: &str) -> (h: u64)
    ensures
        h == default_text_hash(text@),
{
    let mut hasher = std::collections::hash_map::DefaultHasher::new();
    std::hash::Hash::hash(text, &mut hasher);
    std::hash::Hasher::finish(&hasher)
}

/// The text of one decimal digit.
pub open spec fn digit_text(d: nat) -> Seq<char> {
    if d == 0 {
        "0"@
    } else if d == 1 {
        "1"@
    } else if d == 2 {
        "2"@
    } else if d == 3 {
        "3"@
    } else if d == 4 {
        "4"@
    } else if d == 5 {
        "5"@
    } else if d == 6 {
        "6"@
    } else if d == 7 {
        "7"@
    } else if d == 8 {
        "8"@
    } else {
        "9"@
    }
}

/// The decimal numeral of `n`, without leading zeros.
pub open spec fn decimal(n: nat) -> Seq<char>
    decreases n,
{
    if n < 10 {
        digit_text(n)
    } else {
        decimal(n / 10) + digit_text(n % 10)
    }
}

fn append_digit(s: &mut String, d: u64)
    requires
        d < 10,
    ensures
        final(s)@ == old(s)@ + digit_text(d as nat),
{
    let t = if d == 0 {
        "0"
    } else if d == 1 {
        "1"
    } else if d == 2 {
        "2"
    } else if d == 3 {
        "3"
    } else if d == 4 {
        "4"
    } else if d == 5 {
        "5"
    } else if d == 6 {
        "6"
    } else if d == 7 {
        "7"
    } else if d == 8 {
        "8"
    } else {
        "9"
    };
    s.append(t);
}

/// Appends the decimal numeral of `n`.
pub fn append_decimal(s: &mut String, n: u64)
    ensures
        final(s)@ == old(s)@ + decimal(n as nat),
    decreases n,
{
    if n >= 10 {
        append_decimal(s, n / 10);
        append_digit(s, n % 10);
        assert(final(s)@ =~= old(s)@ + decimal(n as nat));
    } else {
        append_digit(s, n);
    }
}

/// The identity hash recorded for a text: `sip13:` and the decimal value of
/// its default hash.
pub open spec fn content_hash_text(content: Seq<char>) -> Seq<char> {
    "sip13:"@ + decimal(default_text_hash(content) as nat)
}

/// A stale source reference, as reported by the staleness check.
pub struct StaleReference {
    /// The referenced path, when the reference names one.
    pub path: Option<String>,
    pub explanation: String,
}

pub struct StaleReferenceView {
    pub path: Option<Seq<char>>,
    pub explanation: Seq<char>,
}

impl View for StaleReference {
    type V = StaleReferenceView;

    open spec fn view(&self) -> StaleReferenceView {
        StaleReferenceView { path: opt_text(self.path), explanation: self.explanation@ }
    }
}

/// The reference records a non-empty content hash.
pub open spec fn is_content_hashed(sr: SourceRefView) -> bool {
    sr.content_hash matches Some(h) && h.len() > 0
}

/// The outcome of re-checking a reference, given the content read from its
/// path (`None` when it could not be read): references without a content
/// hash are not checked; one without a path cannot be resolved; unreadable
/// content and a differing hash make it stale.
pub open spec fn staleness(sr: SourceRefView, content: Option<Seq<char>>) -> Option<StaleReferenceView> {
    if !is_content_hashed(sr) {
        None
    } else {
        match sr.source_ref {
            None => Some(StaleReferenceView { path: None, explanation: "SourceRef missing sourceRef; cannot resolve"@ }),
            Some(p) => match content {
                None => Some(StaleReferenceView { path: Some(p), explanation: "cannot read referenced content: "@ + p }),
                Some(c) => if content_hash_text(c) != sr.content_hash.unwrap() {
                    Some(StaleReferenceView {
                        path: Some(p),
                        explanation: "content hash mismatch for "@ + p + ": expected "@ + sr.content_hash.unwrap()
                            + ", computed "@ + content_hash_text(c),
                    })
                } else {
                    None
                },
            },
        }
    }
}

/// The path whose content must be read to re-check the reference: its path,
/// when it records a content hash and names a path.
pub fn content_path(sr: &SourceRef) -> (p: Option<&String>)
    ensures
        match p {
            Some(path) => is_content_hashed(sr@) && sr@.source_ref == Some(path@),
            None => !is_content_hashed(sr@) || sr@.source_ref is None,
        },
{
    match &sr.content_hash {
        Some(h) => {
            if h.unicode_len() == 0 {
                return None;
            }
        },
        None => return None,
    }
    sr.source_ref.as_ref()
}

/// Re-checks a source reference against the content read from its path
/// (`None` when reading failed).
pub fn check_source_ref_staleness(sr: &SourceRef, content: Option<&str>) -> (r: Option<StaleReference>)
    ensures
        match r {
            Some(s) => staleness(sr@, match content { Some(c) => Some(c@), None => None }) == Some(s@),
            None => staleness(sr@, match content { Some(c) => Some(c@), None => None }) is None,
        },
{
    let hash = match &sr.content_hash {
        Some(h) => {
            if h.unicode_len() == 0 {
                return None;
            }
            h
        },
        None => return None,
    };
    let path = match &sr.source_ref {
        Some(p) => p,
        None => {
            return Some(StaleReference { path: None, explanation: String::from_str("SourceRef missing sourceRef; cannot resolve") });
        },
    };
    match content {
        None => {
            let mut e = String::from_str("cannot read referenced content: ");
            e.append(path.as_str());
            Some(StaleReference { path: Some(path.clone()), explanation: e })
        },
        Some(c) => {
            let mut computed = String::from_str("sip13:");
            append_decimal(&mut computed, text_hash(c));
            if computed != *hash {
                let mut e = String::from_str("content hash mismatch for ");
                e.append(path.as_str());
                e.append(": expected ");
                e.append(hash.as_str());
                e.append(", computed ");
                e.append(computed.as_str());
                Some(StaleReference { path: Some(path.clone()), explanation: e })
            } else {
                None
            }
        },
    }
}

// ── the references a model records ──

pub open spec fn has_source_pred() -> spec_fn(MemberView) -> bool {
    |mm: MemberView| member_is_active(mm) && mm.source_ref is Some
}

pub open spec fn member_source() -> spec_fn(MemberView) -> SourceRefView {
    |mm: MemberView| mm.source_ref.unwrap()
}

/// The references of a dimension's non-deprecated members, in roster order.
pub open spec fn dimension_refs(d: DimensionView) -> Seq<SourceRefView> {
    d.members.filter(has_source_pred()).map_values(member_source())
}

pub open spec fn evidence_source() -> spec_fn(EvidenceView) -> SourceRefView {
    |e: EvidenceView| e.source_ref
}

/// The references of an observation: its own, then its evidence's.
pub open spec fn observation_refs(o: ObservationView) -> Seq<SourceRefView> {
    (if o.source_ref is Some { seq![o.source_ref.unwrap()] } else { Seq::empty() })
        + o.evidence.map_values(evidence_source())
}

pub open spec fn observation_refs_of() -> spec_fn(ObservationView) -> Seq<SourceRefView> {
    |o: ObservationView| observation_refs(o)
}

pub open spec fn cell_refs(c: CellView) -> Seq<SourceRefView> {
    c.observations.map_values(observation_refs_of()).flatten()
}

pub open spec fn cell_refs_of() -> spec_fn(CellView) -> Seq<SourceRefView> {
    |c: CellView| cell_refs(c)
}

/// The references of a relation's observations; none for a deprecated
/// relation.
pub open spec fn relation_refs(r: RelationView) -> Seq<SourceRefView> {
    if relation_is_active(r) {
        r.cells.map_values(cell_refs_of()).flatten()
    } else {
        Seq::empty()
    }
}

pub open spec fn dimension_refs_of() -> spec_fn(DimensionView) -> Seq<SourceRefView> {
    |d: DimensionView| dimension_refs(d)
}

pub open spec fn relation_refs_of() -> spec_fn(RelationView) -> Seq<SourceRefView> {
    |r: RelationView| relation_refs(r)
}

/// Every source reference of a model, in the order staleness is reported:
/// members' references (dimension by dimension), then, relation by
/// relation and cell by cell, each observation's reference and its
/// evidence's references. Deprecated members and relations are left out.
pub open spec fn source_refs_of(m: ModelView) -> Seq<SourceRefView> {
    m.dimensions.map_values(dimension_refs_of()).flatten() + m.relations.map_values(relation_refs_of()).flatten()
}

fn observation_refs_into<'a>(o: &'a crate::model::Observation, out: &mut Vec<&'a SourceRef>)
    ensures
        views(final(out)@) == views(old(out)@) + observation_refs(o@),
{
    let ghost start = views(out@);
    match &o.source_ref {
        Some(sr) => {
            out.push(sr);
        },
        None => {},
    }
    let ghost mid = views(out@);
    assert(mid =~= start + (if o@.source_ref is Some { seq![o@.source_ref.unwrap()] } else { Seq::<SourceRefView>::empty() }));
    let mut k: usize = 0;
    while k < o.evidence.len()
        invariant
            k <= o.evidence.len(),
            views(out@) == mid + o@.evidence.take(k as int).map_values(evidence_source()),
        decreases o.evidence.len() - k,
    {
        proof {
            assert(o@.evidence[k as int] == o.evidence@[k as int]@);
            crate::seqs::lemma_map_step(o@.evidence, k as int, evidence_source());
        }
        let ghost prev = views(out@);
        out.push(&o.evidence[k].source_ref);
        assert(views(out@) =~= prev.push(o.evidence@[k as int].source_ref@));
        k = k + 1;
    }
    proof {
        lemma_take_full(o@.evidence);
    }
}

impl Model {
    /// Every source reference of the model, in the order staleness is
    /// reported (see [`source_refs_of`]).
    pub fn source_refs(&self) -> (out: Vec<&SourceRef>)
        ensures
            views(out@) == source_refs_of(self@),
    {
        let ghost m = self@;
        let doc = self.document();
        let mut out: Vec<&SourceRef> = Vec::new();
        let mut i: usize = 0;
        while i < doc.dimensions.len()
            invariant
                i <= doc.dimensions.len(),
                m == doc@,
                views(out@) == m.dimensions.take(i as int).map_values(dimension_refs_of()).flatten(),
            decreases doc.dimensions.len() - i,
        {
            let d = &doc.dimensions[i];
            let ghost dv = d@;
            proof {
                assert(m.dimensions[i as int] == dv);
                lemma_flatten_map_step(m.dimensions, i as int, dimension_refs_of());
            }
            let ghost start = views(out@);
            let mut j: usize = 0;
            while j < d.members.len()
                invariant
                    j <= d.members.len(),
                    dv == d@,
                    views(out@) == start + dv.members.take(j as int).filter(has_source_pred()).map_values(member_source()),
                decreases d.members.len() - j,
            {
                let mm = &d.members[j];
                proof {
                    assert(dv.members[j as int] == mm@);
                    lemma_filter_map_step(dv.members, j as int, has_source_pred(), member_source());
                }
                if member_active(mm) {
                    match &mm.source_ref {
                        Some(sr) => {
                            let ghost prev = views(out@);
                            out.push(sr);
                            assert(views(out@) =~= prev.push(sr@));
                        },
                        None => {},
                    }
                }
                j = j + 1;
            }
            proof {
                lemma_take_full(dv.members);
            }
            i = i + 1;
        }
        proof {
            lemma_take_full(m.dimensions);
        }
        let ghost dim_part = views(out@);
        let mut i: usize = 0;
        while i < doc.relations.len()
            invariant
                i <= doc.relations.len(),
                m == doc@,
                views(out@) == dim_part + m.relations.take(i as int).map_values(relation_refs_of()).flatten(),
            decreases doc.relations.len() - i,
        {
            let r = &doc.relations[i];
            let ghost rv = r@;
            proof {
                assert(m.relations[i as int] == rv);
                lemma_flatten_map_step(m.relations, i as int, relation_refs_of());
            }
            if !relation_active(r) {
                i = i + 1;
                assert(views(out@) =~= views(out@) + Seq::<SourceRefView>::empty());
                continue;
            }
            let ghost start = views(out@);
            let mut j: usize = 0;
            while j < r.cells.len()
                invariant
                    j <= r.cells.len(),
                    rv == r@,
                    views(out@) == start + rv.cells.take(j as int).map_values(cell_refs_of()).flatten(),
                decreases r.cells.len() - j,
            {
                let c = &r.cells[j];
                let ghost cv = c@;
                proof {
                    assert(rv.cells[j as int] == cv);
                    lemma_flatten_map_step(rv.cells, j as int, cell_refs_of());
                }
                let ghost cstart = views(out@);
                let mut k: usize = 0;
                while k < c.observations.len()
                    invariant
                        k <= c.observations.len(),
                        cv == c@,
                        views(out@) == cstart + cv.observations.take(k as int).map_values(observation_refs_of()).flatten(),
                    decreases c.observations.len() - k,
                {
                    proof {
                        assert(cv.observations[k as int] == c.observations@[k as int]@);
                        lemma_flatten_map_step(cv.observations, k as int, observation_refs_of());
                    }
                    observation_refs_into(&c.observations[k], &mut out);
                    k = k + 1;
                }
                proof {
                    lemma_take_full(cv.observations);
                }
                j = j + 1;
            }
            proof {
                lemma_take_full(rv.cells);
            }
            i = i + 1;
        }
        proof {
            lemma_take_full(m.relations);
        }
        out
    }
}

/// The stale references among `refs`, in order, given what was read for
/// each (`contents[i]` for `refs[i]`; `None` where nothing could be read).
pub open spec fn stale_among(refs: Seq<SourceRefView>, contents: Seq<Option<Seq<char>>>) -> Seq<StaleReferenceView>
    decreases refs.len(),
{
    if refs.len() == 0 {
        Seq::empty()
    } else {
        let prev = stale_among(refs.drop_last(), contents);
        match staleness(refs.last(), contents[refs.len() - 1]) {
            Some(f) => prev.push(f),
            None => prev,
        }
    }
}

/// The views of the contents read for the references.
pub open spec fn read_contents(contents: Seq<Option<String>>) -> Seq<Option<Seq<char>>> {
    contents.map_values(|o: Option<String>| opt_text(o))
}

impl Model {
    /// The stale references of the model: each source reference, in the
    /// order of [`Model::source_refs`], re-checked against the content read
    /// from its path (`contents[i]` for the `i`-th reference; `None` where it
    /// could not be read).
    pub fn stale_references(&self, contents: &Vec<Option<String>>) -> (out: Vec<StaleReference>)
        requires
            contents.len() == source_refs_of(self@).len(),
        ensures
            views(out@) == stale_among(source_refs_of(self@), read_contents(contents@)),
    {
        let refs = self.source_refs();
        let ghost rs = views(refs@);
        let ghost cs = read_contents(contents@);
        let mut out: Vec<StaleReference> = Vec::new();
        let mut i: usize = 0;
        while i < refs.len()
            invariant
                i <= refs.len(),
                rs == views(refs@),
                rs.len() == contents.len(),
                cs == read_contents(contents@),
                views(out@) == stale_among(rs.take(i as int), cs),
            decreases refs.len() - i,
        {
            let content: Option<&str> = match &contents[i] {
                Some(c) => Some(c.as_str()),
                None => None,
            };
            assert(cs[i as int] == match content { Some(c) => Some(c@), None => None::<Seq<char>> });
            let found = check_source_ref_staleness(refs[i], content);
            proof {
                let t = rs.take(i + 1);
                assert(t.drop_last() =~= rs.take(i as int));
                assert(t.last() == refs@[i as int]@);
            }
            match found {
                Some(f) => {
                    let ghost prev = views(out@);
                    out.push(f);
                    assert(views(out@) =~= prev.push(f@));
                },
                None => {},
            }
            i = i + 1;
        }
        proof {
            lemma_take_full(rs);
        }
        out
    }
}

} // verus!
