//! The column by which a table of tallies is ordered.
use vstd::prelude::*;
use crate::language::same_chars;

verus! {

/// A column of the table.
#[derive(PartialEq, Eq, Structural, Clone, Copy, Debug)]
pub enum Sort {
    Blank,
    Code,
    Comment,
    Files,
    Language,
    Lines,
}

/// The column that a name stands for, in lower case or capitalised.
pub open spec fn sort_of_name(s: Seq<char>) -> Option<Sort> {
    if s == "blank"@ || s == "Blank"@ {
        Some(Sort::Blank)
    } else if s == "code"@ || s == "Code"@ {
        Some(Sort::Code)
    } else if s == "comment"@ || s == "Comment"@ {
        Some(Sort::Comment)
    } else if s == "lines"@ || s == "Lines"@ {
        Some(Sort::Lines)
    } else if s == "language"@ || s == "Language"@ {
        Some(Sort::Language)
    } else if s == "files"@ || s == "Files"@ {
        Some(Sort::Files)
    } else {
        None
    }
}

impl Sort {
    /// The column that `s` names, if any.
    pub fn from_name(s: &str) -> (r: Option<Sort>)
        ensures
            r == sort_of_name(s@),
    {
        if same_chars(s, "blank") || same_chars(s, "Blank") {
            Some(Sort::Blank)
        } else if same_chars(s, "code") || same_chars(s, "Code") {
            Some(Sort::Code)
        } else if same_chars(s, "comment") || same_chars(s, "Comment") {
            Some(Sort::Comment)
        } else if same_chars(s, "lines") || same_chars(s, "Lines") {
            Some(Sort::Lines)
        } else if same_chars(s, "language") || same_chars(s, "Language") {
            Some(Sort::Language)
        } else if same_chars(s, "files") || same_chars(s, "Files") {
            Some(Sort::Files)
        } else {
            None
        }
    }
}

} // verus!
