//! Dependency lists of managed kernel objects.
use vstd::prelude::*;
use crate::common::ObjectId;

verus! {

/// Add `dep_id` to `dependencies` unless it is already listed, so that each
/// dependency appears once, in the order it was first added.
pub fn add_dependency(dependencies: &mut Vec<ObjectId>, dep_id: ObjectId)
    ensures
        old(dependencies)@.contains(dep_id) ==> final(dependencies)@ == old(dependencies)@,
        !old(dependencies)@.contains(dep_id) ==> final(dependencies)@ == old(dependencies)@.push(dep_id),
        old(dependencies)@.no_duplicates() ==> final(dependencies)@.no_duplicates(),
{
    let mut i: usize = 0;
    while i < dependencies.len()
        invariant
            i <= dependencies@.len(),
            dependencies@ == old(dependencies)@,
            forall|j: int| 0 <= j < i ==> dependencies@[j] != dep_id,
        decreases dependencies@.len() - i,
    {
        if dependencies[i] == dep_id {
            assert(dependencies@[i as int] == dep_id);
            return;
        }
        i = i + 1;
    }
    dependencies.push(dep_id);
}

} // verus!
