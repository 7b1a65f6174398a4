//! Root enumeration: which top-level filesystem roots a whole-machine search
//! starts from.

use vstd::prelude::*;

verus! {

/// Enumerate the top-level filesystem roots of the machine. On a single-root
/// filesystem layout this is exactly the root directory `/`.
pub fn all_computer_roots() -> (roots: Vec<String>)
    ensures
        roots@.len() == 1,
        roots@[0]@ == "/"@,
{
    let mut roots: Vec<String> = Vec::new();
    roots.push(String::from_str("/"));
    roots
}

} // verus!
