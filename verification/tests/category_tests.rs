use focustime::category::Category;
use focustime::classifier::{classification, eq_ignore_ascii_case, is_browser};
use focustime::totals::CategoryTotals;

#[test]
fn category_texts() {
    assert_eq!(Category::Work.as_str(), "work");
    assert_eq!(Category::Entertainment.as_str(), "entertainment");
    assert_eq!(Category::Distraction.as_str(), "distraction");
    assert_eq!(Category::Unclassified.as_str(), "unclassified");
}

#[test]
fn category_parse() {
    assert_eq!(Category::from_str("work"), Some(Category::Work));
    assert_eq!(Category::from_str("entertainment"), Some(Category::Entertainment));
    assert_eq!(Category::from_str("distraction"), Some(Category::Distraction));
    assert_eq!(Category::from_str("unclassified"), Some(Category::Unclassified));
    assert_eq!(Category::from_str("Work"), None);
    assert_eq!(Category::from_str(""), None);
    assert_eq!(Category::from_str("work "), None);
}

#[test]
fn category_round_trip() {
    for c in [Category::Work, Category::Entertainment, Category::Distraction, Category::Unclassified] {
        assert_eq!(Category::from_str(c.as_str()), Some(c));
    }
}

#[test]
fn totals_add_one_category() {
    let mut t = CategoryTotals::default();
    t.add(Category::Work, 30);
    t.add(Category::Distraction, 5);
    t.add(Category::Work, 12);
    assert_eq!(t.work, 42);
    assert_eq!(t.entertainment, 0);
    assert_eq!(t.distraction, 5);
    assert_eq!(t.unclassified, 0);
    assert_eq!(t.total_of(Category::Work), 42);
    assert_eq!(t.total_of(Category::Distraction), 5);
}

#[test]
fn browsers_are_recognised() {
    assert!(is_browser("chrome.exe"));
    assert!(is_browser("msedge.exe"));
    assert!(is_browser("firefox.exe"));
    assert!(is_browser("Chrome.EXE"));
    assert!(!is_browser("Code.exe"));
    assert!(!is_browser("chrome.exe.bak"));
    assert!(!is_browser(""));
}

#[test]
fn case_insensitive_compare_is_ascii_only() {
    assert!(eq_ignore_ascii_case("FireFox.exe", "firefox.EXE"));
    assert!(!eq_ignore_ascii_case("É", "é"));
    assert!(!eq_ignore_ascii_case("a", "ab"));
}

#[test]
fn unmatched_lookup_is_unclassified() {
    assert_eq!(classification(None), Category::Unclassified);
    assert_eq!(classification(Some(Category::Work)), Category::Work);
}
