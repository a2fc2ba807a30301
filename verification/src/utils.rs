//! Size accounting for the alternate, allocation-based generator: how many
//! bytes a generated string will need.

use vstd::prelude::*;

verus! {

use vstd::utf8::encode_utf8;

/// The byte length of a generated string: the requested random-part size,
/// plus the prefix and its separator if one is given, plus the rendered
/// timestamp if one is given.
pub open spec fn spec_string_size(
    size: nat,
    prefix: Option<String>,
    timestamp: Option<String>,
) -> nat {
    size + (match prefix {
        Some(p) => encode_utf8(p@).len() + 1,
        None => 0nat,
    }) + (match timestamp {
        Some(t) => encode_utf8(t@).len(),
        None => 0nat,
    })
}

/// Adds to `size` the room the prefix (with its separator byte) and the
/// rendered timestamp will take.
pub fn string_size(size: usize, prefix: &Option<String>, timestamp: &Option<String>) -> (r: usize)
    requires
        spec_string_size(size as nat, *prefix, *timestamp) <= usize::MAX,
    ensures
        r == spec_string_size(size as nat, *prefix, *timestamp),
{
    let mut size = size;

    if let Some(prefix) = prefix {
        size = size + prefix.as_str().len() + 1;
    }

    if let Some(timestamp) = timestamp {
        size = size + timestamp.as_str().len();
    }

    size
}

} // verus!
