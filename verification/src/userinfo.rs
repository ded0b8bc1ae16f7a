//! Kinds of quota and subscription plans, and their names.
use crate::text::str_eq;
use vstd::prelude::*;

verus! {

/// Whether a quota is the user's own or shared by a team.
#[derive(Debug, Clone, Copy, PartialEq, Eq, Structural, Hash)]
pub enum LimitType {
    User,
    Team,
}

/// The name of a limit type.
pub open spec fn spec_limit_type_name(t: LimitType) -> Seq<char> {
    match t {
        LimitType::User => "user"@,
        LimitType::Team => "team"@,
    }
}

/// The limit type called `s`, if any.
pub open spec fn spec_limit_type_of(s: Seq<char>) -> Option<LimitType> {
    if s == "user"@ {
        Some(LimitType::User)
    } else if s == "team"@ {
        Some(LimitType::Team)
    } else {
        None
    }
}

impl LimitType {
    /// The limit type called `s`, if any.
    pub fn from_str(s: &str) -> (r: Option<LimitType>)
        ensures
            r == spec_limit_type_of(s@),
    {
        if str_eq(s, "user") {
            Some(LimitType::User)
        } else if str_eq(s, "team") {
            Some(LimitType::Team)
        } else {
            None
        }
    }

    pub fn as_str(&self) -> (r: &'static str)
        ensures
            r@ == spec_limit_type_name(*self),
    {
        match self {
            LimitType::User => "user",
            LimitType::Team => "team",
        }
    }
}

/// Reading the name of a limit type gives it back.
pub proof fn lemma_limit_type_name_roundtrip(t: LimitType)
    ensures
        spec_limit_type_of(spec_limit_type_name(t)) == Some(t),
{
    reveal_strlit("user");
    reveal_strlit("team");
    assert("user"@[0] != "team"@[0]);
}

/// A subscription plan.
#[derive(Debug, Clone, Copy, PartialEq, Eq, Structural, Hash)]
pub enum MembershipType {
    Free,
    FreeTrial,
    Pro,
    ProPlus,
    Ultra,
    Enterprise,
}

/// The name of a plan.
pub open spec fn spec_membership_name(m: MembershipType) -> Seq<char> {
    match m {
        MembershipType::Free => "free"@,
        MembershipType::FreeTrial => "free_trial"@,
        MembershipType::Pro => "pro"@,
        MembershipType::ProPlus => "pro_plus"@,
        MembershipType::Ultra => "ultra"@,
        MembershipType::Enterprise => "enterprise"@,
    }
}

/// The plan called `s`, if any.
pub open spec fn spec_membership_of(s: Seq<char>) -> Option<MembershipType> {
    if s == "free"@ {
        Some(MembershipType::Free)
    } else if s == "free_trial"@ {
        Some(MembershipType::FreeTrial)
    } else if s == "pro"@ {
        Some(MembershipType::Pro)
    } else if s == "pro_plus"@ {
        Some(MembershipType::ProPlus)
    } else if s == "ultra"@ {
        Some(MembershipType::Ultra)
    } else if s == "enterprise"@ {
        Some(MembershipType::Enterprise)
    } else {
        None
    }
}

impl MembershipType {
    pub fn from_str(s: &str) -> (r: Option<MembershipType>)
        ensures
            r == spec_membership_of(s@),
    {
        if str_eq(s, "free") {
            Some(MembershipType::Free)
        } else if str_eq(s, "free_trial") {
            Some(MembershipType::FreeTrial)
        } else if str_eq(s, "pro") {
            Some(MembershipType::Pro)
        } else if str_eq(s, "pro_plus") {
            Some(MembershipType::ProPlus)
        } else if str_eq(s, "ultra") {
            Some(MembershipType::Ultra)
        } else if str_eq(s, "enterprise") {
            Some(MembershipType::Enterprise)
        } else {
            None
        }
    }

    pub fn as_str(&self) -> (r: &'static str)
        ensures
            r@ == spec_membership_name(*self),
    {
        match self {
            MembershipType::Free => "free",
            MembershipType::FreeTrial => "free_trial",
            MembershipType::Pro => "pro",
            MembershipType::ProPlus => "pro_plus",
            MembershipType::Ultra => "ultra",
            MembershipType::Enterprise => "enterprise",
        }
    }
}

impl Default for MembershipType {
    fn default() -> (r: MembershipType)
        ensures
            r == MembershipType::Free,
    {
        MembershipType::Free
    }
}

/// Reading the name of a plan gives the plan back.
pub proof fn lemma_membership_name_roundtrip(m: MembershipType)
    ensures
        spec_membership_of(spec_membership_name(m)) == Some(m),
{
    reveal_strlit("free");
    reveal_strlit("free_trial");
    reveal_strlit("pro");
    reveal_strlit("pro_plus");
    reveal_strlit("ultra");
    reveal_strlit("enterprise");
    assert("free"@.len() == 4);
    assert("free_trial"@.len() == 10);
    assert("pro"@.len() == 3);
    assert("pro_plus"@.len() == 8);
    assert("ultra"@.len() == 5);
    assert("enterprise"@.len() == 10);
    assert("free_trial"@[0] != "enterprise"@[0]);
}

} // verus!
