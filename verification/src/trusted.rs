//! The calls into outside crates, each with the contract that the rest of the
//! library relies on. These bodies are not verified.

use itertools::Itertools;
use vstd::prelude::*;
use crate::text::{dedup_first, is_simple_uuid, string_views};

verus! {

/// Calls `uuid::Uuid::new_v4()` and formats it with `.simple()`: a random
/// version-4 UUID written as 32 lowercase hexadecimal digits. Only the shape of
/// the text is claimed; which digits come out is left to chance.
#[verifier::external_body]
pub(crate) fn new_user_id() -> (id: String)
    ensures
        is_simple_uuid(id@),
{
    uuid::Uuid::new_v4().simple().to_string()
}

/// Calls `itertools::Itertools::unique` on the lines and collects them: every
/// line that equals an earlier one is dropped, the first occurrence of each is
/// kept, and the order of first occurrences is kept.
#[verifier::external_body]
pub(crate) fn unique_lines(lines: Vec<String>) -> (r: Vec<String>)
    ensures
        string_views(r@) == dedup_first(string_views(lines@)),
{
    lines.into_iter().unique().collect()
}

} // verus!
