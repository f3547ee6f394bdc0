//! Line tallies and the laws of merging them.
use vstd::prelude::*;

verus! {

/// Line tally of one file or of a group of files.
#[derive(PartialEq, Eq, Structural, Clone, Copy, Debug)]
pub struct Count {
    pub code: u32,
    pub blank: u32,
    pub comments: u32,
    pub total: u32,
}

/// Files seen for one language together with their summed tally.
#[derive(PartialEq, Eq, Structural, Clone, Copy, Debug)]
pub struct CountTotal {
    pub files: u32,
    pub count: Count,
}

/// The tally with every field zero.
pub open spec fn zero_count() -> Count {
    Count { code: 0, blank: 0, comments: 0, total: 0 }
}

/// Every line is exactly one of code, blank or comment.
pub open spec fn is_consistent(c: Count) -> bool {
    c.total == c.code + c.blank + c.comments
}

/// Field-wise addition does not leave `u32`.
pub open spec fn can_merge(a: Count, b: Count) -> bool {
    &&& a.code + b.code <= u32::MAX
    &&& a.blank + b.blank <= u32::MAX
    &&& a.comments + b.comments <= u32::MAX
    &&& a.total + b.total <= u32::MAX
}

/// Field-wise sum of two tallies.
pub open spec fn merged(a: Count, b: Count) -> Count {
    Count {
        code: (a.code + b.code) as u32,
        blank: (a.blank + b.blank) as u32,
        comments: (a.comments + b.comments) as u32,
        total: (a.total + b.total) as u32,
    }
}

impl Default for Count {
    fn default() -> (r: Count)
        ensures
            r == zero_count(),
    {
        Count { code: 0, blank: 0, comments: 0, total: 0 }
    }
}

impl Count {
    /// Adds every field of `count2` to the matching field of `self`.
    pub fn merge(&mut self, count2: &Count)
        requires
            can_merge(*old(self), *count2),
        ensures
            *final(self) == merged(*old(self), *count2),
    {
        self.code = self.code + count2.code;
        self.blank = self.blank + count2.blank;
        self.comments = self.comments + count2.comments;
        self.total = self.total + count2.total;
    }
}

/// Merging with the zero tally leaves a tally unchanged, on either side.
pub proof fn lemma_merge_zero(a: Count)
    ensures
        can_merge(a, zero_count()),
        merged(a, zero_count()) == a,
        merged(zero_count(), a) == a,
{
}

/// The order of the two tallies does not matter to a merge.
pub proof fn lemma_merge_commutative(a: Count, b: Count)
    ensures
        can_merge(a, b) == can_merge(b, a),
        merged(a, b) == merged(b, a),
{
}

/// Merging three tallies gives the same result however they are grouped.
pub proof fn lemma_merge_associative(a: Count, b: Count, c: Count)
    requires
        can_merge(a, b),
        can_merge(merged(a, b), c),
    ensures
        can_merge(b, c),
        can_merge(a, merged(b, c)),
        merged(merged(a, b), c) == merged(a, merged(b, c)),
{
}

/// A merge of consistent tallies is consistent.
pub proof fn lemma_merge_consistent(a: Count, b: Count)
    requires
        can_merge(a, b),
        is_consistent(a),
        is_consistent(b),
    ensures
        is_consistent(merged(a, b)),
{
}

} // verus!
