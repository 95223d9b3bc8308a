use vstd::prelude::*;

use crate::category::Category;

verus! {

/// The code of a character with ASCII upper-case letters folded to lower case.
pub open spec fn folded_code(c: char) -> u32 {
    if 'A' <= c && c <= 'Z' {
        (c as u32 + 32) as u32
    } else {
        c as u32
    }
}

/// Two texts that are equal once ASCII letters are compared without case.
pub open spec fn same_ignoring_ascii_case(a: Seq<char>, b: Seq<char>) -> bool {
    &&& a.len() == b.len()
    &&& forall|i: int| 0 <= i < a.len() ==> #[trigger] folded_code(a[i]) == folded_code(b[i])
}

/// The executables whose foreground time is classified by the active tab's
/// domain rather than by the process name.
pub open spec fn is_browser_name(name: Seq<char>) -> bool {
    ||| same_ignoring_ascii_case(name, "chrome.exe"@)
    ||| same_ignoring_ascii_case(name, "msedge.exe"@)
    ||| same_ignoring_ascii_case(name, "firefox.exe"@)
}

fn folded(c: char) -> (r: u32)
    ensures
        r == folded_code(c),
{
    if 'A' <= c && c <= 'Z' {
        (c as u32) + 32
    } else {
        c as u32
    }
}

/// Compares two texts, ASCII letters without regard to case.
pub fn eq_ignore_ascii_case(a: &str, b: &str) -> (r: bool)
    ensures
        r == same_ignoring_ascii_case(a@, b@),
{
    let n = a.unicode_len();
    if n != b.unicode_len() {
        return false;
    }
    let mut i: usize = 0;
    while i < n
        invariant
            n == a@.len(),
            n == b@.len(),
            i <= n,
            forall|j: int| 0 <= j < i ==> #[trigger] folded_code(a@[j]) == folded_code(b@[j]),
        decreases n - i,
    {
        if folded(a.get_char(i)) != folded(b.get_char(i)) {
            return false;
        }
        i = i + 1;
    }
    true
}

/// Whether `process_name` is one of the known browser executables
/// (`chrome.exe`, `msedge.exe`, `firefox.exe`), ASCII case ignored.
pub fn is_browser(process_name: &str) -> (r: bool)
    ensures
        r == is_browser_name(process_name@),
{
    eq_ignore_ascii_case(process_name, "chrome.exe") || eq_ignore_ascii_case(process_name, "msedge.exe")
        || eq_ignore_ascii_case(process_name, "firefox.exe")
}

/// The category that a rule lookup yields: the matching rule's category, or
/// `Unclassified` when no rule matched or the lookup failed.
pub fn classification(found: Option<Category>) -> (c: Category)
    ensures
        c == match found {
            Some(rule) => rule,
            None => Category::Unclassified,
        },
{
    match found {
        Some(rule) => rule,
        None => Category::Unclassified,
    }
}

} // verus!
