use vstd::prelude::*;

use crate::misc::copy_range;

verus! {

/// The byte that separates the components of a path.
pub const PATH_SEPARATOR: u8 = 47;

/// The first separator of `path` at or after `from`, or the length of the path.
pub open spec fn spec_next_separator(path: Seq<u8>, from: int) -> int
    decreases path.len() - from,
{
    if from >= path.len() {
        path.len() as int
    } else if path[from] == PATH_SEPARATOR {
        from
    } else {
        spec_next_separator(path, from + 1)
    }
}

/// The last separator of `path` before `end`, or -1.
pub open spec fn spec_prev_separator(path: Seq<u8>, end: int) -> int
    decreases end,
{
    if end <= 0 {
        -1
    } else if path[end - 1] == PATH_SEPARATOR {
        end - 1
    } else {
        spec_prev_separator(path, end - 1)
    }
}

/// Where the first component of a path starts: past a leading separator.
pub open spec fn spec_component_start(path: Seq<u8>) -> int {
    if path.len() > 0 && path[0] == PATH_SEPARATOR { 1 } else { 0 }
}

/// Splits the first component off a path: the component, without a leading separator, and
/// the rest of the path from the separator that ends the component.
pub fn get_path_component(path: &[u8]) -> (r: (Vec<u8>, Vec<u8>))
    ensures
        ({
            let start = spec_component_start(path@);
            let split = spec_next_separator(path@, 1);
            if split < path@.len() {
                r.0@ == path@.subrange(start, split) && r.1@ == path@.subrange(split, path@.len() as int)
            } else {
                r.0@ == path@.subrange(start, path@.len() as int) && r.1@.len() == 0
            }
        }),
{
    let len = path.len();
    let start: usize = if len > 0 && path[0] == PATH_SEPARATOR { 1 } else { 0 };
    let mut i: usize = 1;
    while i < len
        invariant
            1 <= i,
            len == path@.len(),
            start <= 1,
            start as int == spec_component_start(path@),
            spec_next_separator(path@, 1) == spec_next_separator(path@, i as int),
        decreases len - i,
    {
        if path[i] == PATH_SEPARATOR {
            return (copy_range(path, start, i), copy_range(path, i, len));
        }
        i += 1;
    }
    if len == 0 {
        return (Vec::new(), Vec::new());
    }
    (copy_range(path, start, len), Vec::new())
}

/// Splits the last component off a path: what comes before the last separator, and what
/// comes after it; a path without a separator is all last component.
pub fn get_path_component_reverse(path: &[u8]) -> (r: (Vec<u8>, Vec<u8>))
    ensures
        ({
            let split = spec_prev_separator(path@, path@.len() as int);
            if split >= 0 {
                r.0@ == path@.subrange(0, split) && r.1@ == path@.subrange(split + 1, path@.len() as int)
            } else {
                r.0@.len() == 0 && r.1@ == path@
            }
        }),
{
    let len = path.len();
    let mut end: usize = len;
    while end > 0
        invariant
            end <= len,
            len == path@.len(),
            spec_prev_separator(path@, len as int) == spec_prev_separator(path@, end as int),
        decreases end,
    {
        if path[end - 1] == PATH_SEPARATOR {
            return (copy_range(path, 0, end - 1), copy_range(path, end, len));
        }
        end -= 1;
    }
    let whole = copy_range(path, 0, len);
    assert(whole@ =~= path@);
    (Vec::new(), whole)
}

} // verus!
