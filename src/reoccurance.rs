use vstd::prelude::*;

use crate::text::{equal_ignoring_ascii_case, equals_ignoring_ascii_case};

verus! {

/// How often an event repeats. The label is kept; no occurrences are generated from it.
/// `Once` is stored under the name `None`.
#[derive(Clone, Copy, Debug, PartialEq, Eq, Structural)]
pub enum Reoccurance {
    Yearly,
    Monthly,
    Fortnightly,
    Weekly,
    Daily,
    Once,
}

/// The older spelling of `Fortnightly` in stored records.
pub open spec fn legacy_fortnightly_text() -> Seq<char> {
    seq!['F', 'o', 'r', 'n', 'i', 't', 'e']
}

impl Reoccurance {
    /// The variant's name, as stored in a record.
    pub open spec fn name_text(self) -> Seq<char> {
        match self {
            Reoccurance::Yearly => seq!['Y', 'e', 'a', 'r', 'l', 'y'],
            Reoccurance::Monthly => seq!['M', 'o', 'n', 't', 'h', 'l', 'y'],
            Reoccurance::Fortnightly => seq![
                'F',
                'o',
                'r',
                't',
                'n',
                'i',
                'g',
                'h',
                't',
                'l',
                'y',
            ],
            Reoccurance::Weekly => seq!['W', 'e', 'e', 'k', 'l', 'y'],
            Reoccurance::Daily => seq!['D', 'a', 'i', 'l', 'y'],
            Reoccurance::Once => seq!['N', 'o', 'n', 'e'],
        }
    }

    /// The recurrence a stored name stands for, in any letter case, with `Fornite` read as
    /// `Fortnightly`; `Once` for any other text.
    pub open spec fn from_text(text: Seq<char>) -> Reoccurance {
        if equal_ignoring_ascii_case(text, Reoccurance::Yearly.name_text()) {
            Reoccurance::Yearly
        } else if equal_ignoring_ascii_case(text, Reoccurance::Monthly.name_text()) {
            Reoccurance::Monthly
        } else if equal_ignoring_ascii_case(text, Reoccurance::Fortnightly.name_text())
            || equal_ignoring_ascii_case(text, legacy_fortnightly_text()) {
            Reoccurance::Fortnightly
        } else if equal_ignoring_ascii_case(text, Reoccurance::Weekly.name_text()) {
            Reoccurance::Weekly
        } else if equal_ignoring_ascii_case(text, Reoccurance::Daily.name_text()) {
            Reoccurance::Daily
        } else {
            Reoccurance::Once
        }
    }

    pub fn name(&self) -> (r: &'static str)
        ensures
            r@ == self.name_text(),
    {
        match self {
            Reoccurance::Yearly => {
                proof {
                    reveal_strlit("Yearly");
                }
                "Yearly"
            },
            Reoccurance::Monthly => {
                proof {
                    reveal_strlit("Monthly");
                }
                "Monthly"
            },
            Reoccurance::Fortnightly => {
                proof {
                    reveal_strlit("Fortnightly");
                }
                "Fortnightly"
            },
            Reoccurance::Weekly => {
                proof {
                    reveal_strlit("Weekly");
                }
                "Weekly"
            },
            Reoccurance::Daily => {
                proof {
                    reveal_strlit("Daily");
                }
                "Daily"
            },
            Reoccurance::Once => {
                proof {
                    reveal_strlit("None");
                }
                "None"
            },
        }
    }

    /// Reads a stored name leniently: unknown text gives `Once`.
    pub fn from_name(text: &str) -> (r: Reoccurance)
        ensures
            r == Reoccurance::from_text(text@),
    {
        proof {
            reveal_strlit("Fornite");
        }
        if equals_ignoring_ascii_case(text, Reoccurance::Yearly.name()) {
            Reoccurance::Yearly
        } else if equals_ignoring_ascii_case(text, Reoccurance::Monthly.name()) {
            Reoccurance::Monthly
        } else if equals_ignoring_ascii_case(text, Reoccurance::Fortnightly.name())
            || equals_ignoring_ascii_case(text, "Fornite") {
            Reoccurance::Fortnightly
        } else if equals_ignoring_ascii_case(text, Reoccurance::Weekly.name()) {
            Reoccurance::Weekly
        } else if equals_ignoring_ascii_case(text, Reoccurance::Daily.name()) {
            Reoccurance::Daily
        } else {
            Reoccurance::Once
        }
    }
}

} // verus!
