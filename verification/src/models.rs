use vstd::prelude::*;

use crate::category::Category;

verus! {

/// A reusable classification profile (row of the `profiles` table).
#[derive(Debug)]
pub struct Profile {
    pub id: i64,
    pub name: String,
    pub created_at: i64,
}

/// A single app -> category rule belonging to a profile.
#[derive(Debug)]
pub struct AppRule {
    pub id: i64,
    pub profile_id: i64,
    pub process_name: String,
    pub category: Category,
}

/// Input shape for replacing a profile's app rules (no id/profile_id, those
/// are supplied separately).
#[derive(Debug)]
pub struct AppRuleInput {
    pub process_name: String,
    pub category: Category,
}

/// A single domain -> category rule belonging to a profile.
#[derive(Debug)]
pub struct DomainRule {
    pub id: i64,
    pub profile_id: i64,
    pub domain: String,
    pub category: Category,
}

/// Input shape for replacing a profile's domain rules.
#[derive(Debug)]
pub struct DomainRuleInput {
    pub domain: String,
    pub category: Category,
}

/// A row of the `usage_events` table (one contiguous active-window span).
#[derive(Debug)]
pub struct UsageEvent {
    pub id: i64,
    pub session_id: i64,
    pub process_name: String,
    pub domain: Option<String>,
    pub category: Category,
    pub started_at: i64,
    pub ended_at: Option<i64>,
}

} // verus!
