use vstd::prelude::*;

use crate::category::Category;
use crate::models::{AppRuleInput, DomainRuleInput};

verus! {

/// The sample profile is inserted only into an empty `profiles` table (a
/// fresh install).
pub fn should_seed(profile_count: i64) -> (r: bool)
    ensures
        r == (profile_count <= 0),
{
    profile_count <= 0
}

/// The name of the sample profile.
pub fn sample_profile_name() -> (name: String)
    ensures
        name@ == "Sample Profile"@,
{
    String::from_str("Sample Profile")
}

/// The rule a pair stands for.
pub open spec fn app_rule_entry(r: AppRuleInput) -> (Seq<char>, Category) {
    (r.process_name@, r.category)
}

/// The rule a pair stands for.
pub open spec fn domain_rule_entry(r: DomainRuleInput) -> (Seq<char>, Category) {
    (r.domain@, r.category)
}

fn app_rule(process_name: &str, category: Category) -> (r: AppRuleInput)
    ensures
        app_rule_entry(r) == (process_name@, category),
{
    AppRuleInput { process_name: String::from_str(process_name), category }
}

fn domain_rule(domain: &str, category: Category) -> (r: DomainRuleInput)
    ensures
        domain_rule_entry(r) == (domain@, category),
{
    DomainRuleInput { domain: String::from_str(domain), category }
}

/// The app rules of the sample profile.
pub fn sample_app_rules() -> (rules: Vec<AppRuleInput>)
    ensures
        rules@.map_values(|r: AppRuleInput| app_rule_entry(r)) == seq![
            ("Code.exe"@, Category::Work),
            ("devenv.exe"@, Category::Work),
            ("WINWORD.EXE"@, Category::Work),
            ("Discord.exe"@, Category::Distraction),
            ("Spotify.exe"@, Category::Entertainment),
        ],
{
    let mut rules: Vec<AppRuleInput> = Vec::new();
    rules.push(app_rule("Code.exe", Category::Work));
    rules.push(app_rule("devenv.exe", Category::Work));
    rules.push(app_rule("WINWORD.EXE", Category::Work));
    rules.push(app_rule("Discord.exe", Category::Distraction));
    rules.push(app_rule("Spotify.exe", Category::Entertainment));
    assert(rules@.map_values(|r: AppRuleInput| app_rule_entry(r)) =~= seq![
        ("Code.exe"@, Category::Work),
        ("devenv.exe"@, Category::Work),
        ("WINWORD.EXE"@, Category::Work),
        ("Discord.exe"@, Category::Distraction),
        ("Spotify.exe"@, Category::Entertainment),
    ]);
    rules
}

/// The domain rules of the sample profile.
pub fn sample_domain_rules() -> (rules: Vec<DomainRuleInput>)
    ensures
        rules@.map_values(|r: DomainRuleInput| domain_rule_entry(r)) == seq![
            ("github.com"@, Category::Work),
            ("stackoverflow.com"@, Category::Work),
            ("docs.google.com"@, Category::Work),
            ("youtube.com"@, Category::Entertainment),
            ("netflix.com"@, Category::Entertainment),
            ("facebook.com"@, Category::Distraction),
            ("twitter.com"@, Category::Distraction),
            ("x.com"@, Category::Distraction),
        ],
{
    let mut rules: Vec<DomainRuleInput> = Vec::new();
    rules.push(domain_rule("github.com", Category::Work));
    rules.push(domain_rule("stackoverflow.com", Category::Work));
    rules.push(domain_rule("docs.google.com", Category::Work));
    rules.push(domain_rule("youtube.com", Category::Entertainment));
    rules.push(domain_rule("netflix.com", Category::Entertainment));
    rules.push(domain_rule("facebook.com", Category::Distraction));
    rules.push(domain_rule("twitter.com", Category::Distraction));
    rules.push(domain_rule("x.com", Category::Distraction));
    assert(rules@.map_values(|r: DomainRuleInput| domain_rule_entry(r)) =~= seq![
        ("github.com"@, Category::Work),
        ("stackoverflow.com"@, Category::Work),
        ("docs.google.com"@, Category::Work),
        ("youtube.com"@, Category::Entertainment),
        ("netflix.com"@, Category::Entertainment),
        ("facebook.com"@, Category::Distraction),
        ("twitter.com"@, Category::Distraction),
        ("x.com"@, Category::Distraction),
    ]);
    rules
}

} // verus!
