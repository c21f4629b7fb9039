//! The occupancy check: whether a participant, or any member of a unit, is
//! already booked in some slot of a day at a given start time.

use vstd::prelude::*;

use crate::types::CourseType;
use crate::types::Day;
use crate::types::Group;
use crate::types::spec_course_is_today;
use crate::types::spec_group_occupied;
use crate::types::spec_occupied;

verus! {

/// Scans every slot of `day` whose start time equals `beginning` — across all
/// categories, not just the one being filled — and reports whether
/// participant `p` appears in any of their assigned lists.
pub fn is_occupied(p: u64, beginning: u8, day: &Day) -> (r: bool)
    ensures
        r == spec_occupied(day@, beginning, p),
{
    let mut i: usize = 0;
    while i < day.courses.len()
        invariant
            i <= day@.len(),
            forall|k: int|
                0 <= k < i ==> !(day@[k].beginning == beginning && day@[k].participants.contains(
                    p,
                )),
        decreases day@.len() - i,
    {
        if day.courses[i].beginning == beginning {
            let c = &day.courses[i];
            let mut j: usize = 0;
            while j < c.participants.len()
                invariant
                    j <= c.participants@.len(),
                    forall|t: int| 0 <= t < j ==> c.participants@[t] != p,
                decreases c.participants@.len() - j,
            {
                if c.participants[j] == p {
                    assert(day@[i as int].participants[j as int] == p);
                    return true;
                }
                j += 1;
            }
        }
        i += 1;
    }
    false
}

/// A unit is occupied for a slot if the occupancy check holds for any of its
/// member participant ids at that (day, start time).
pub fn group_is_occupied(g: &Group, beginning: u8, day: &Day) -> (r: bool)
    ensures
        r == spec_group_occupied(day@, beginning, g@),
{
    let mut k: usize = 0;
    while k < g.participants.len()
        invariant
            k <= g.participants@.len(),
            forall|t: int| 0 <= t < k ==> !spec_occupied(day@, beginning, g.participants@[t]),
        decreases g.participants@.len() - k,
    {
        if is_occupied(g.participants[k], beginning, day) {
            assert(spec_occupied(day@, beginning, g@.participants[k as int]));
            return true;
        }
        k += 1;
    }
    false
}

/// Reports whether `day` holds a slot of the given category.
pub fn course_is_today(course_type: CourseType, day: &Day) -> (r: bool)
    ensures
        r == spec_course_is_today(day@, course_type),
{
    let mut i: usize = 0;
    while i < day.courses.len()
        invariant
            i <= day@.len(),
            forall|k: int| 0 <= k < i ==> day@[k].course_type != course_type,
        decreases day@.len() - i,
    {
        if day.courses[i].course_type == course_type {
            assert(day@[i as int].course_type == course_type);
            return true;
        }
        i += 1;
    }
    false
}

} // verus!
