//! SQL formatting.

use vstd::prelude::*;

verus! {

/// What `sqlformat::format` makes of a text, without parameters and with its
/// default options.
pub uninterp spec fn formatted_sql(input: Seq<char>) -> Seq<char>;

/// Format SQL. Calls `sqlformat::format` without parameters and with its
/// default options. Claimed: the result depends on the text alone. How the
/// text is laid out is not stated.
#[verifier::external_body]
pub fn format_sql(input: &str) -> (res: String)
    ensures
        res@ == formatted_sql(input@),
{
    sqlformat::format(
        input,
        &sqlformat::QueryParams::None,
        &sqlformat::FormatOptions::default(),
    )
}

} // verus!
