use vstd::prelude::*;

use crate::text::same_text;

verus! {

/// Classification bucket for an app or domain rule.
#[derive(Debug, Clone, Copy, PartialEq, Eq, Structural)]
pub enum Category {
    Work,
    Entertainment,
    Distraction,
    Unclassified,
}

impl Category {
    /// The text stored for the category in the `category` columns.
    pub open spec fn label(self) -> Seq<char> {
        match self {
            Category::Work => "work"@,
            Category::Entertainment => "entertainment"@,
            Category::Distraction => "distraction"@,
            Category::Unclassified => "unclassified"@,
        }
    }

    /// The category whose stored text is `text`, if any.
    pub open spec fn parse_label(text: Seq<char>) -> Option<Category> {
        if text == "work"@ {
            Some(Category::Work)
        } else if text == "entertainment"@ {
            Some(Category::Entertainment)
        } else if text == "distraction"@ {
            Some(Category::Distraction)
        } else if text == "unclassified"@ {
            Some(Category::Unclassified)
        } else {
            None
        }
    }

    /// The text stored for this category.
    pub fn as_str(&self) -> (s: &'static str)
        ensures
            s@ == self.label(),
    {
        match self {
            Category::Work => "work",
            Category::Entertainment => "entertainment",
            Category::Distraction => "distraction",
            Category::Unclassified => "unclassified",
        }
    }

    /// Reads a category back from its stored text.
    pub fn from_str(value: &str) -> (r: Option<Category>)
        ensures
            r == Category::parse_label(value@),
    {
        if same_text(value, "work") {
            Some(Category::Work)
        } else if same_text(value, "entertainment") {
            Some(Category::Entertainment)
        } else if same_text(value, "distraction") {
            Some(Category::Distraction)
        } else if same_text(value, "unclassified") {
            Some(Category::Unclassified)
        } else {
            None
        }
    }
}

/// Reading back the stored text of a category gives that category.
pub proof fn lemma_label_round_trip(c: Category)
    ensures
        Category::parse_label(c.label()) == Some(c),
{
    reveal_strlit("work");
    reveal_strlit("entertainment");
    reveal_strlit("distraction");
    reveal_strlit("unclassified");
    assert("work"@.len() == 4);
    assert("entertainment"@.len() == 13);
    assert("distraction"@.len() == 11);
    assert("unclassified"@.len() == 12);
    assert("distraction"@[0] != "unclassified"@[0]);
}

/// Text that reads back as a category is exactly that category's stored text.
pub proof fn lemma_parse_inverts_label(text: Seq<char>, c: Category)
    requires
        Category::parse_label(text) == Some(c),
    ensures
        c.label() == text,
{
}

/// Different categories are stored as different texts.
pub proof fn lemma_labels_distinct(a: Category, b: Category)
    requires
        a != b,
    ensures
        a.label() != b.label(),
{
    lemma_label_round_trip(a);
    lemma_label_round_trip(b);
}

} // verus!
