use vstd::prelude::*;
use core::cmp::Ordering;
use crate::order::{lemma_cmp_chars_equal_iff, str_cmp};

verus! {

/// The raw representation of a checked checkbox cell.
pub open spec fn checked_text() -> Seq<char> {
    "Yes"@
}

/// The raw representation of an unchecked checkbox cell.
pub open spec fn unchecked_text() -> Seq<char> {
    "No"@
}

/// What a raw checkbox cell decodes to: anything but the checked text reads
/// as unselected, so decoding is total.
pub open spec fn checkbox_checked(s: Seq<char>) -> bool {
    s == checked_text()
}

/// The configuration of a checkbox field.
#[derive(Clone, Copy, Debug, PartialEq, Eq, Structural)]
pub struct CheckboxTypeOption {
    pub is_selected: bool,
}

impl CheckboxTypeOption {
    /// Decodes a raw checkbox cell; never fails.
    pub fn decode_cell_str(&self, cell_str: &str) -> (r: bool)
        ensures
            r == checkbox_checked(cell_str@),
    {
        let r = str_cmp(cell_str, "Yes");
        proof {
            lemma_cmp_chars_equal_iff(cell_str@, "Yes"@);
        }
        match r {
            Ordering::Equal => true,
            _ => false,
        }
    }

    /// Encodes a checkbox value into its raw cell string.
    pub fn encode_cell_value(&self, is_checked: bool) -> (r: String)
        ensures
            is_checked ==> r@ == checked_text(),
            !is_checked ==> r@ == unchecked_text(),
            checkbox_checked(r@) == is_checked,
    {
        proof {
            reveal_strlit("Yes");
            reveal_strlit("No");
            assert(checked_text().len() == 3);
            assert(unchecked_text().len() == 2);
        }
        if is_checked {
            "Yes".to_owned()
        } else {
            "No".to_owned()
        }
    }
}

} // verus!
