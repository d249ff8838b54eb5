//! Checks on the stored database schema.

use vstd::prelude::*;

use crate::text::{chars_of, contains_block, has_block};

verus! {

/// Whether the stored definition of the transactions table already admits
/// the `PAY` type, so that its check constraint needs no rebuilding.
pub fn schema_allows_pay(schema: &str) -> (r: bool)
    ensures
        r == contains_block(schema@, "'PAY'"@),
{
    let v = chars_of(schema);
    let p = chars_of("'PAY'");
    has_block(&v, &p)
}

} // verus!
