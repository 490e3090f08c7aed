//! The issue findings of a model that take no arithmetic: stale source
//! references, orphan members, and members left uncovered on an axis whose
//! coverage policy requires them. The findings that weigh forces (tension,
//! conflict, critical exposure) are floating point and are not among them.

use vstd::prelude::*;
use crate::coverage::{AxisCoverage, AxisCoverageView, Orphan, OrphanView, coverage_of, orphans_of};
use crate::engine::Model;
use crate::model::{ModelView, views};
use crate::seqs::{lemma_flatten_map_step, lemma_map_step, lemma_take_full};
use crate::stale::{StaleReference, StaleReferenceView, read_contents, source_refs_of, stale_among};

verus! {

broadcast use vstd::seq_lib::group_seq_properties;

/// What a finding reports.
#[derive(Clone, Copy, Debug, PartialEq, Eq, Structural)]
pub enum FindingKind {
    /// A source reference whose content is gone or has changed.
    StaleReference,
    /// A member that appears in no cell of a non-deprecated relation.
    Orphan,
    /// A member without a cell on an axis whose coverage policy requires one.
    Uncovered,
}

/// How much a finding matters.
#[derive(Clone, Copy, Debug, PartialEq, Eq, Structural)]
pub enum Severity {
    Info,
    Warn,
    /// A violation of a rule the model declares.
    Block,
}

/// One finding.
pub struct Finding {
    pub kind: FindingKind,
    pub severity: Severity,
    /// The members it concerns.
    pub members: Vec<String>,
    /// The referenced path, for a stale reference.
    pub path: Vec<String>,
    /// The relation it concerns, if one.
    pub relation: Option<String>,
    pub explanation: String,
}

pub struct FindingView {
    pub kind: FindingKind,
    pub severity: Severity,
    pub members: Seq<Seq<char>>,
    pub path: Seq<Seq<char>>,
    pub relation: Option<Seq<char>>,
    pub explanation: Seq<char>,
}

impl View for Finding {
    type V = FindingView;

    open spec fn view(&self) -> FindingView {
        FindingView {
            kind: self.kind,
            severity: self.severity,
            members: views(self.members@),
            path: views(self.path@),
            relation: match self.relation {
                Some(r) => Some(r@),
                None => None,
            },
            explanation: self.explanation@,
        }
    }
}

/// The finding of a stale reference (severity warn).
pub open spec fn stale_finding(s: StaleReferenceView) -> FindingView {
    FindingView {
        kind: FindingKind::StaleReference,
        severity: Severity::Warn,
        members: Seq::empty(),
        path: match s.path {
            Some(p) => seq![p],
            None => Seq::empty(),
        },
        relation: None,
        explanation: s.explanation,
    }
}

pub open spec fn stale_finding_of() -> spec_fn(StaleReferenceView) -> FindingView {
    |s: StaleReferenceView| stale_finding(s)
}

/// The finding of an orphan (severity warn).
pub open spec fn orphan_finding(o: OrphanView) -> FindingView {
    FindingView {
        kind: FindingKind::Orphan,
        severity: Severity::Warn,
        members: seq![o.member],
        path: Seq::empty(),
        relation: None,
        explanation: "member '"@ + o.member + "' of dimension '"@ + o.dimension + "' appears in no cell"@,
    }
}

pub open spec fn orphan_finding_of() -> spec_fn(OrphanView) -> FindingView {
    |o: OrphanView| orphan_finding(o)
}

/// The finding of a member `x` left uncovered on the axis of entry `e`
/// (severity block: the coverage policy makes it a violation).
pub open spec fn uncovered_finding(e: AxisCoverageView, x: Seq<char>) -> FindingView {
    FindingView {
        kind: FindingKind::Uncovered,
        severity: Severity::Block,
        members: seq![x],
        path: Seq::empty(),
        relation: Some(e.relation),
        explanation: "member '"@ + x + "' of dimension '"@ + e.dimension + "' has no cell on the "@ + e.axis
            + " axis of relation '"@ + e.relation + "', which its coverage policy requires"@,
    }
}

pub open spec fn uncovered_finding_of(e: AxisCoverageView) -> spec_fn(Seq<char>) -> FindingView {
    |x: Seq<char>| uncovered_finding(e, x)
}

/// The findings of one coverage entry: one per uncovered member where the
/// axis is required, none otherwise.
pub open spec fn entry_findings(e: AxisCoverageView) -> Seq<FindingView> {
    if e.required {
        e.uncovered.map_values(uncovered_finding_of(e))
    } else {
        Seq::empty()
    }
}

pub open spec fn entry_findings_of() -> spec_fn(AxisCoverageView) -> Seq<FindingView> {
    |e: AxisCoverageView| entry_findings(e)
}

/// The findings of a model, given the content read for each of its source
/// references: the stale references (in reference order), then the orphans
/// (in declared order), then the members left uncovered on required axes
/// (in coverage-report order).
pub open spec fn findings_of(m: ModelView, contents: Seq<Option<Seq<char>>>) -> Seq<FindingView> {
    stale_among(source_refs_of(m), contents).map_values(stale_finding_of())
        + orphans_of(m).map_values(orphan_finding_of())
        + coverage_of(m).map_values(entry_findings_of()).flatten()
}

fn stale_to_finding(s: &StaleReference) -> (f: Finding)
    ensures
        f@ == stale_finding(s@),
{
    let path: Vec<String> = match &s.path {
        Some(p) => vec![p.clone()],
        None => Vec::new(),
    };
    let f = Finding {
        kind: FindingKind::StaleReference,
        severity: Severity::Warn,
        members: Vec::new(),
        path,
        relation: None,
        explanation: s.explanation.clone(),
    };
    assert(f@.path =~= stale_finding(s@).path);
    assert(f@.members =~= Seq::<Seq<char>>::empty());
    f
}

fn orphan_to_finding(o: &Orphan) -> (f: Finding)
    ensures
        f@ == orphan_finding(o@),
{
    let mut e = String::from_str("member '");
    e.append(o.member.as_str());
    e.append("' of dimension '");
    e.append(o.dimension.as_str());
    e.append("' appears in no cell");
    let f = Finding {
        kind: FindingKind::Orphan,
        severity: Severity::Warn,
        members: vec![o.member.clone()],
        path: Vec::new(),
        relation: None,
        explanation: e,
    };
    assert(f@.members =~= seq![o@.member]);
    assert(f@.path =~= Seq::<Seq<char>>::empty());
    f
}

fn uncovered_to_finding(a: &AxisCoverage, x: &String) -> (f: Finding)
    ensures
        f@ == uncovered_finding(a@, x@),
{
    let mut e = String::from_str("member '");
    e.append(x.as_str());
    e.append("' of dimension '");
    e.append(a.dimension.as_str());
    e.append("' has no cell on the ");
    e.append(a.axis.as_str());
    e.append(" axis of relation '");
    e.append(a.relation.as_str());
    e.append("', which its coverage policy requires");
    let f = Finding {
        kind: FindingKind::Uncovered,
        severity: Severity::Block,
        members: vec![x.clone()],
        path: Vec::new(),
        relation: Some(a.relation.clone()),
        explanation: e,
    };
    assert(f@.members =~= seq![x@]);
    assert(f@.path =~= Seq::<Seq<char>>::empty());
    f
}

impl Model {
    /// The findings of the model (see [`findings_of`]): `contents[i]` is
    /// the content read for the `i`-th source reference of
    /// [`Model::source_refs`] (`None` where it could not be read).
    pub fn findings(&self, contents: &Vec<Option<String>>) -> (out: Vec<Finding>)
        requires
            contents.len() == source_refs_of(self@).len(),
        ensures
            views(out@) == findings_of(self@, read_contents(contents@)),
    {
        let stale = self.stale_references(contents);
        let ghost sv = views(stale@);
        let mut out: Vec<Finding> = Vec::new();
        let mut i: usize = 0;
        while i < stale.len()
            invariant
                i <= stale.len(),
                sv == views(stale@),
                views(out@) == sv.take(i as int).map_values(stale_finding_of()),
            decreases stale.len() - i,
        {
            proof {
                lemma_map_step(sv, i as int, stale_finding_of());
            }
            let f = stale_to_finding(&stale[i]);
            let ghost prev = views(out@);
            out.push(f);
            assert(views(out@) =~= prev.push(f@));
            i = i + 1;
        }
        proof {
            lemma_take_full(sv);
        }
        let ghost part1 = views(out@);
        let orphans = self.orphans();
        let ghost ov = views(orphans@);
        let mut i: usize = 0;
        while i < orphans.len()
            invariant
                i <= orphans.len(),
                ov == views(orphans@),
                views(out@) == part1 + ov.take(i as int).map_values(orphan_finding_of()),
            decreases orphans.len() - i,
        {
            proof {
                lemma_map_step(ov, i as int, orphan_finding_of());
            }
            let f = orphan_to_finding(&orphans[i]);
            let ghost prev = views(out@);
            out.push(f);
            assert(views(out@) =~= prev.push(f@));
            i = i + 1;
        }
        proof {
            lemma_take_full(ov);
        }
        let ghost part2 = views(out@);
        let cov = self.coverage();
        let ghost cv = views(cov@);
        let mut i: usize = 0;
        while i < cov.len()
            invariant
                i <= cov.len(),
                cv == views(cov@),
                views(out@) == part2 + cv.take(i as int).map_values(entry_findings_of()).flatten(),
            decreases cov.len() - i,
        {
            let a = &cov[i];
            let ghost av = a@;
            proof {
                assert(cv[i as int] == av);
                lemma_flatten_map_step(cv, i as int, entry_findings_of());
            }
            let ghost start = views(out@);
            if a.required {
                let mut j: usize = 0;
                while j < a.uncovered.len()
                    invariant
                        j <= a.uncovered.len(),
                        av == a@,
                        views(out@) == start + av.uncovered.take(j as int).map_values(uncovered_finding_of(av)),
                    decreases a.uncovered.len() - j,
                {
                    proof {
                        assert(av.uncovered[j as int] == a.uncovered@[j as int]@);
                        lemma_map_step(av.uncovered, j as int, uncovered_finding_of(av));
                    }
                    let f = uncovered_to_finding(a, &a.uncovered[j]);
                    let ghost prev = views(out@);
                    out.push(f);
                    assert(views(out@) =~= prev.push(f@));
                    j = j + 1;
                }
                proof {
                    lemma_take_full(av.uncovered);
                }
            } else {
                assert(views(out@) =~= start + Seq::<FindingView>::empty());
            }
            i = i + 1;
        }
        proof {
            lemma_take_full(cv);
            assert(views(out@) =~= findings_of(self@, read_contents(contents@)));
        }
        out
    }
}

} // verus!
