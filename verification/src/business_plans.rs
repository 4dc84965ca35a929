use vstd::prelude::*;
use crate::text::{string_or_empty, text_or_empty};

verus! {

/// The submitted business plans text.
pub struct BusinessPlansEdit {
    pub new_business_plans: String,
}

/// The business plans that the table holds: the contents of its last row
/// (empty where that row has none, or where the table is empty).
pub open spec fn current_plans(rows: Seq<Option<String>>) -> Seq<char> {
    if rows.len() == 0 {
        Seq::empty()
    } else {
        text_or_empty(rows.last())
    }
}

/// The current business plans, from the contents column of every row.
pub fn get_business_plans(rows: &Vec<Option<String>>) -> (out: String)
    ensures
        out@ == current_plans(rows@),
{
    if rows.len() == 0 {
        String::new()
    } else {
        string_or_empty(&rows[rows.len() - 1])
    }
}

} // verus!
