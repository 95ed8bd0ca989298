//! Presence of required columns in a loaded table.
use vstd::prelude::*;
use crate::text::string_eq;

verus! {

/// The column name occurs among the table's column names.
pub open spec fn has_column(present: Seq<String>, name: Seq<char>) -> bool {
    exists|j: int| 0 <= j < present.len() && present[j]@ == name
}

/// The position of the first required column that the table lacks, if any.
pub fn first_missing(required: &Vec<String>, present: &Vec<String>) -> (r: Option<usize>)
    ensures
        match r {
            Some(i) => {
                &&& i < required@.len()
                &&& !has_column(present@, required@[i as int]@)
                &&& forall|k: int| 0 <= k < i ==> has_column(present@, #[trigger] required@[k]@)
            },
            None => forall|k: int|
                0 <= k < required@.len() ==> has_column(present@, #[trigger] required@[k]@),
        },
{
    let mut i: usize = 0;
    while i < required.len()
        invariant
            i <= required@.len(),
            forall|k: int| 0 <= k < i ==> has_column(present@, #[trigger] required@[k]@),
        decreases required.len() - i,
    {
        let name = &required[i];
        let mut found = false;
        let mut j: usize = 0;
        while j < present.len()
            invariant
                j <= present@.len(),
                found <==> exists|m: int| 0 <= m < j && present@[m]@ == name@,
            decreases present.len() - j,
        {
            if string_eq(&present[j], name) {
                found = true;
            }
            j += 1;
        }
        if !found {
            return Some(i);
        }
        i += 1;
    }
    None
}

} // verus!
