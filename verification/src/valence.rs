//! Lifecycle filtering, valence of relation types and the names under which
//! enumerations are reported.

use vstd::prelude::*;
use crate::model::{
    CoveragePolicy, LifecycleStatus, Member, MemberView, Relation, RelationType, RelationView,
};

verus! {

/// A member takes part in analyses unless it is deprecated.
pub open spec fn member_is_active(m: MemberView) -> bool {
    m.status != Some(LifecycleStatus::Deprecated)
}

/// A relation takes part in analyses unless it is deprecated.
pub open spec fn relation_is_active(r: RelationView) -> bool {
    r.status != Some(LifecycleStatus::Deprecated)
}

/// Lifecycle filter: deprecated members are excluded from analyses.
pub fn member_active(m: &Member) -> (r: bool)
    ensures
        r == member_is_active(m@),
{
    match m.status {
        Some(LifecycleStatus::Deprecated) => false,
        _ => true,
    }
}

/// Lifecycle filter: deprecated relations are excluded from analyses.
pub fn relation_active(r: &Relation) -> (b: bool)
    ensures
        b == relation_is_active(r@),
{
    match r.status {
        Some(LifecycleStatus::Deprecated) => false,
        _ => true,
    }
}

/// The valence of a relation type: `Some(false)` supporting, `Some(true)`
/// opposing, `None` structural.
pub open spec fn valence(rt: RelationType) -> Option<bool> {
    match rt {
        RelationType::Satisfies | RelationType::Supports | RelationType::Implements
        | RelationType::Verifies | RelationType::Covers | RelationType::Mitigates => Some(false),
        RelationType::Undermines | RelationType::Opposes | RelationType::Blocks
        | RelationType::Exposes => Some(true),
        RelationType::DerivesFrom | RelationType::Constrains | RelationType::DependsOn => None,
    }
}

/// The valence of a relation type: `Some(false)` supporting (`satisfies`,
/// `supports`, `implements`, `verifies`, `covers`, `mitigates`), `Some(true)`
/// opposing (`undermines`, `opposes`, `blocks`, `exposes`), `None` structural
/// (`derives_from`, `constrains`, `dependsOn`), which takes no part in tension
/// analysis.
pub fn relation_opposes(rt: &RelationType) -> (r: Option<bool>)
    ensures
        r == valence(*rt),
{
    match rt {
        RelationType::Satisfies | RelationType::Supports | RelationType::Implements
        | RelationType::Verifies | RelationType::Covers | RelationType::Mitigates => Some(false),
        RelationType::Undermines | RelationType::Opposes | RelationType::Blocks
        | RelationType::Exposes => Some(true),
        RelationType::DerivesFrom | RelationType::Constrains | RelationType::DependsOn => None,
    }
}

/// The name under which a relation type is written in documents.
pub open spec fn relation_type_text(rt: RelationType) -> Seq<char> {
    match rt {
        RelationType::Satisfies => "satisfies"@,
        RelationType::Supports => "supports"@,
        RelationType::Implements => "implements"@,
        RelationType::Verifies => "verifies"@,
        RelationType::Covers => "covers"@,
        RelationType::Mitigates => "mitigates"@,
        RelationType::Undermines => "undermines"@,
        RelationType::Opposes => "opposes"@,
        RelationType::Blocks => "blocks"@,
        RelationType::Exposes => "exposes"@,
        RelationType::DerivesFrom => "derives_from"@,
        RelationType::Constrains => "constrains"@,
        RelationType::DependsOn => "dependsOn"@,
    }
}

pub fn relation_type_name(rt: RelationType) -> (s: String)
    ensures
        s@ == relation_type_text(rt),
{
    let t = match rt {
        RelationType::Satisfies => "satisfies",
        RelationType::Supports => "supports",
        RelationType::Implements => "implements",
        RelationType::Verifies => "verifies",
        RelationType::Covers => "covers",
        RelationType::Mitigates => "mitigates",
        RelationType::Undermines => "undermines",
        RelationType::Opposes => "opposes",
        RelationType::Blocks => "blocks",
        RelationType::Exposes => "exposes",
        RelationType::DerivesFrom => "derives_from",
        RelationType::Constrains => "constrains",
        RelationType::DependsOn => "dependsOn",
    };
    String::from_str(t)
}

/// The name under which a coverage policy is written in documents.
pub open spec fn coverage_policy_text(p: CoveragePolicy) -> Seq<char> {
    match p {
        CoveragePolicy::NotRequired => "none"@,
        CoveragePolicy::EveryFrom => "every_from"@,
        CoveragePolicy::EveryTo => "every_to"@,
        CoveragePolicy::Both => "both"@,
    }
}

pub fn coverage_policy_name(p: CoveragePolicy) -> (s: String)
    ensures
        s@ == coverage_policy_text(p),
{
    let t = match p {
        CoveragePolicy::NotRequired => "none",
        CoveragePolicy::EveryFrom => "every_from",
        CoveragePolicy::EveryTo => "every_to",
        CoveragePolicy::Both => "both",
    };
    String::from_str(t)
}

/// Whether the policy makes an uncovered `from` member a violation.
pub open spec fn from_required(p: CoveragePolicy) -> bool {
    p == CoveragePolicy::EveryFrom || p == CoveragePolicy::Both
}

/// Whether the policy makes an uncovered `to` member a violation.
pub open spec fn to_required(p: CoveragePolicy) -> bool {
    p == CoveragePolicy::EveryTo || p == CoveragePolicy::Both
}

} // verus!
