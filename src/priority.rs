use vstd::prelude::*;

use crate::text::{equal_ignoring_ascii_case, equals_ignoring_ascii_case};

verus! {

/// How urgent an event is.
#[derive(Clone, Copy, Debug, PartialEq, Eq, Structural)]
pub enum Priority {
    High,
    Medium,
    Low,
}

impl Priority {
    /// The variant's name, as stored in a record.
    pub open spec fn name_text(self) -> Seq<char> {
        match self {
            Priority::High => seq!['H', 'i', 'g', 'h'],
            Priority::Medium => seq!['M', 'e', 'd', 'i', 'u', 'm'],
            Priority::Low => seq!['L', 'o', 'w'],
        }
    }

    /// The priority a stored name stands for, in any letter case; `Medium` for any other text.
    pub open spec fn from_text(text: Seq<char>) -> Priority {
        if equal_ignoring_ascii_case(text, Priority::High.name_text()) {
            Priority::High
        } else if equal_ignoring_ascii_case(text, Priority::Low.name_text()) {
            Priority::Low
        } else {
            Priority::Medium
        }
    }

    pub fn name(&self) -> (r: &'static str)
        ensures
            r@ == self.name_text(),
    {
        match self {
            Priority::High => {
                proof {
                    reveal_strlit("High");
                }
                "High"
            },
            Priority::Medium => {
                proof {
                    reveal_strlit("Medium");
                }
                "Medium"
            },
            Priority::Low => {
                proof {
                    reveal_strlit("Low");
                }
                "Low"
            },
        }
    }

    /// Reads a stored name leniently: unknown text gives `Medium`.
    pub fn from_name(text: &str) -> (r: Priority)
        ensures
            r == Priority::from_text(text@),
    {
        if equals_ignoring_ascii_case(text, Priority::High.name()) {
            Priority::High
        } else if equals_ignoring_ascii_case(text, Priority::Low.name()) {
            Priority::Low
        } else {
            Priority::Medium
        }
    }
}

} // verus!
