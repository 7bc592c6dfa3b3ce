//! The statement that deletes retired events from the store.

use vstd::prelude::*;
use vstd::string::*;
use crate::decimal::{append_decimal, decimal_text};

verus! {

/// The identifiers in decimal, in order, with a comma between neighbours.
pub open spec fn comma_list(ids: Seq<i32>) -> Seq<char>
    decreases ids.len(),
{
    if ids.len() == 0 {
        Seq::empty()
    } else if ids.len() == 1 {
        decimal_text(ids[0] as int)
    } else {
        comma_list(ids.drop_last()) + seq![','] + decimal_text(ids.last() as int)
    }
}

/// The statement that deletes the events with the identifiers `ids`.
pub open spec fn delete_statement_of(ids: Seq<i32>) -> Seq<char> {
    "DELETE FROM events WHERE id IN ("@ + comma_list(ids) + ")"@
}

/// The statement that deletes exactly the events with the identifiers `ids`;
/// none where there is nothing to delete.
pub fn delete_statement(ids: &Vec<i32>) -> (statement: Option<String>)
    ensures
        ids.len() == 0 ==> statement is None,
        ids.len() > 0 ==> (statement matches Some(text) && text@ == delete_statement_of(ids@)),
{
    if ids.len() == 0 {
        return None;
    }
    let mut text = String::from_str("DELETE FROM events WHERE id IN (");
    append_decimal(&mut text, ids[0]);
    assert(ids@.take(1) =~= seq![ids@[0]]);
    let mut at: usize = 1;
    while at < ids.len()
        invariant
            1 <= at <= ids.len(),
            text@ == "DELETE FROM events WHERE id IN ("@ + comma_list(ids@.take(at as int)),
        decreases ids.len() - at,
    {
        text.append(",");
        proof {
            reveal_strlit(",");
        }
        append_decimal(&mut text, ids[at]);
        proof {
            let listed = ids@.take(at + 1);
            assert(listed.drop_last() =~= ids@.take(at as int));
            assert(text@ =~= "DELETE FROM events WHERE id IN ("@ + comma_list(listed));
        }
        at = at + 1;
    }
    assert(ids@.take(at as int) =~= ids@);
    text.append(")");
    Some(text)
}

} // verus!
