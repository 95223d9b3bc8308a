use vstd::prelude::*;

use crate::category::Category;

verus! {

/// The time a span from `start` to `end` counts for: its length, or zero
/// when the clock ran backwards.
pub open spec fn elapsed(start: int, end: int) -> int {
    if end - start > 0 {
        end - start
    } else {
        0
    }
}

/// Per-category running totals (seconds), used for the live view and report.
#[derive(Debug, Clone, Copy)]
pub struct CategoryTotals {
    pub work: i64,
    pub entertainment: i64,
    pub distraction: i64,
    pub unclassified: i64,
}

impl CategoryTotals {
    /// The total of one category.
    pub open spec fn get(self, category: Category) -> int {
        match category {
            Category::Work => self.work as int,
            Category::Entertainment => self.entertainment as int,
            Category::Distraction => self.distraction as int,
            Category::Unclassified => self.unclassified as int,
        }
    }

    /// The sum over all categories.
    pub open spec fn sum(self) -> int {
        self.work + self.entertainment + self.distraction + self.unclassified
    }

    /// `next` is `self` with `seconds` added to `category` and every other
    /// total left as it was.
    pub open spec fn adds(self, next: CategoryTotals, category: Category, seconds: int) -> bool {
        forall|k: Category| #[trigger] next.get(k) == self.get(k) + if k == category {
            seconds
        } else {
            0
        }
    }

    /// Whether `seconds` can be added to `category` without leaving `i64`.
    pub open spec fn can_add(self, category: Category, seconds: int) -> bool {
        i64::MIN <= self.get(category) + seconds <= i64::MAX
    }

    /// All totals zero.
    pub fn zero() -> (t: CategoryTotals)
        ensures
            forall|k: Category| #[trigger] t.get(k) == 0,
    {
        CategoryTotals { work: 0, entertainment: 0, distraction: 0, unclassified: 0 }
    }

    /// The total of one category.
    pub fn total_of(&self, category: Category) -> (t: i64)
        ensures
            t == self.get(category),
    {
        match category {
            Category::Work => self.work,
            Category::Entertainment => self.entertainment,
            Category::Distraction => self.distraction,
            Category::Unclassified => self.unclassified,
        }
    }

    /// Adds `seconds` to the total of `category`.
    pub fn add(&mut self, category: Category, seconds: i64)
        requires
            old(self).can_add(category, seconds as int),
        ensures
            old(self).adds(*final(self), category, seconds as int),
    {
        match category {
            Category::Work => self.work = self.work + seconds,
            Category::Entertainment => self.entertainment = self.entertainment + seconds,
            Category::Distraction => self.distraction = self.distraction + seconds,
            Category::Unclassified => self.unclassified = self.unclassified + seconds,
        }
    }
}

impl Default for CategoryTotals {
    fn default() -> (t: CategoryTotals)
        ensures
            forall|k: Category| #[trigger] t.get(k) == 0,
    {
        CategoryTotals::zero()
    }
}

/// Adding to one category raises the sum over all categories by exactly that
/// amount.
pub proof fn lemma_add_raises_sum(before: CategoryTotals, after: CategoryTotals, category: Category, seconds: int)
    requires
        before.adds(after, category, seconds),
    ensures
        after.sum() == before.sum() + seconds,
{
    assert(after.get(Category::Work) == before.get(Category::Work) + if category == Category::Work { seconds } else { 0 });
    assert(after.get(Category::Entertainment) == before.get(Category::Entertainment) + if category == Category::Entertainment { seconds } else { 0 });
    assert(after.get(Category::Distraction) == before.get(Category::Distraction) + if category == Category::Distraction { seconds } else { 0 });
    assert(after.get(Category::Unclassified) == before.get(Category::Unclassified) + if category == Category::Unclassified { seconds } else { 0 });
}

} // verus!
