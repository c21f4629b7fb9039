//! The roster and queue builder: the participant roster and the initial
//! rotation queue of each course category.
//!
//! Curriculum and Exkurs rotate explicitly configured groups; Zahnersatz
//! rotates individuals in two parallel sub-queues (the roster split at its
//! midpoint); Zahnerhalt rotates individuals in one queue.

use vstd::prelude::*;

use crate::types::CourseType;
use crate::types::Group;
use crate::types::GroupView;
use crate::types::JsonData;
use crate::types::ScheduleError;
use crate::types::queue_view;

verus! {

/// Every participant id listed in `groups` is present in the roster.
pub open spec fn all_members_known(groups: Seq<Vec<u64>>, roster: Seq<u64>) -> bool {
    forall|i: int, j: int|
        0 <= i < groups.len() && 0 <= j < groups[i]@.len() ==> roster.contains(
            #[trigger] groups[i]@[j],
        )
}

/// The queue holds the configured groups, in input order, each with its
/// members in input order and tagged with the given category.
pub open spec fn groups_built(
    q: Seq<GroupView>,
    groups: Seq<Vec<u64>>,
    group_type: CourseType,
) -> bool {
    &&& q.len() == groups.len()
    &&& forall|i: int|
        0 <= i < q.len() ==> #[trigger] q[i] == (GroupView {
            group_type,
            participants: groups[i]@,
        })
}

/// The queue holds one single-member unit per roster entry of
/// `roster[from..to]`, in ascending roster order, tagged with the given
/// category.
pub open spec fn singles_built(
    q: Seq<GroupView>,
    roster: Seq<u64>,
    from: int,
    to: int,
    group_type: CourseType,
) -> bool {
    &&& q.len() == to - from
    &&& forall|i: int|
        0 <= i < q.len() ==> #[trigger] q[i] == (GroupView {
            group_type,
            participants: seq![roster[from + i]],
        })
}

/// Generates the participant roster: the consecutive ids 1 up to the
/// configured count (nothing more is of importance to a participant).
pub fn get_students(parsed_data: &JsonData) -> (students: Vec<u64>)
    ensures
        students@.len() == parsed_data.studenten_anzahl,
        forall|k: int| 0 <= k < students@.len() ==> #[trigger] students@[k] == k + 1,
{
    let n = parsed_data.studenten_anzahl;
    let mut students: Vec<u64> = Vec::new();
    let mut i: u64 = 0;
    while i < n
        invariant
            i <= n,
            students@.len() == i,
            forall|k: int| 0 <= k < i ==> #[trigger] students@[k] == k + 1,
        decreases n - i,
    {
        students.push(i + 1);
        i += 1;
    }
    students
}

/// Reports whether the roster holds the given participant id.
fn roster_contains(roster: &Vec<u64>, id: u64) -> (r: bool)
    ensures
        r == roster@.contains(id),
{
    let mut i: usize = 0;
    while i < roster.len()
        invariant
            i <= roster@.len(),
            forall|k: int| 0 <= k < i ==> roster@[k] != id,
        decreases roster@.len() - i,
    {
        if roster[i] == id {
            return true;
        }
        i += 1;
    }
    false
}

/// Builds one queue unit per configured group, in input order, with members
/// in input order; fails with `UnknownParticipant` exactly when some listed
/// id is missing from the roster.
fn build_explicit_groups(
    parsed_groups: &Vec<Vec<u64>>,
    students: &Vec<u64>,
    group_type: CourseType,
) -> (r: Result<Vec<Group>, ScheduleError>)
    ensures
        match r {
            Result::Ok(groups) => all_members_known(parsed_groups@, students@) && groups_built(
                queue_view(groups@),
                parsed_groups@,
                group_type,
            ),
            Result::Err(e) => e == ScheduleError::UnknownParticipant && !all_members_known(
                parsed_groups@,
                students@,
            ),
        },
{
    let mut groups: Vec<Group> = Vec::new();
    let mut i: usize = 0;
    while i < parsed_groups.len()
        invariant
            i <= parsed_groups@.len(),
            groups@.len() == i,
            forall|k: int| 0 <= k < i ==> #[trigger] (groups@[k])@ == (GroupView {
                group_type,
                participants: parsed_groups@[k]@,
            }),
            forall|k: int, j: int|
                0 <= k < i && 0 <= j < parsed_groups@[k]@.len() ==> students@.contains(
                    #[trigger] parsed_groups@[k]@[j],
                ),
        decreases parsed_groups@.len() - i,
    {
        let parsed_group = &parsed_groups[i];
        let mut participants: Vec<u64> = Vec::new();
        let mut j: usize = 0;
        while j < parsed_group.len()
            invariant
                j <= parsed_group@.len(),
                participants@ == parsed_group@.take(j as int),
                forall|t: int| 0 <= t < j ==> students@.contains(#[trigger] parsed_group@[t]),
            decreases parsed_group@.len() - j,
        {
            let id = parsed_group[j];
            if !roster_contains(students, id) {
                proof {
                    assert(!students@.contains(parsed_groups@[i as int]@[j as int]));
                }
                return Err(ScheduleError::UnknownParticipant);
            }
            participants.push(id);
            proof {
                assert(participants@ =~= parsed_group@.take(j as int + 1));
            }
            j += 1;
        }
        proof {
            assert(parsed_group@.take(parsed_group@.len() as int) =~= parsed_group@);
        }
        groups.push(Group { group_type, participants });
        i += 1;
    }
    Ok(groups)
}

/// Builds the Curriculum rotation queue from the configured group lists.
pub fn get_curriculum_groups(parsed_data: &JsonData, students: &Vec<u64>) -> (r: Result<
    Vec<Group>,
    ScheduleError,
>)
    ensures
        match r {
            Result::Ok(groups) => all_members_known(parsed_data.curriculum_gruppen@, students@)
                && groups_built(
                queue_view(groups@),
                parsed_data.curriculum_gruppen@,
                CourseType::Curriculum,
            ),
            Result::Err(e) => e == ScheduleError::UnknownParticipant && !all_members_known(
                parsed_data.curriculum_gruppen@,
                students@,
            ),
        },
{
    build_explicit_groups(&parsed_data.curriculum_gruppen, students, CourseType::Curriculum)
}

/// Builds the Exkurs rotation queue from the configured group lists.
pub fn get_exkurs_groups(parsed_data: &JsonData, students: &Vec<u64>) -> (r: Result<
    Vec<Group>,
    ScheduleError,
>)
    ensures
        match r {
            Result::Ok(groups) => all_members_known(parsed_data.exkurs_gruppen@, students@)
                && groups_built(
                queue_view(groups@),
                parsed_data.exkurs_gruppen@,
                CourseType::Exkurs,
            ),
            Result::Err(e) => e == ScheduleError::UnknownParticipant && !all_members_known(
                parsed_data.exkurs_gruppen@,
                students@,
            ),
        },
{
    build_explicit_groups(&parsed_data.exkurs_gruppen, students, CourseType::Exkurs)
}

/// Builds the two parallel Zahnersatz rotation queues: one single-member unit
/// per participant, the lower half of the roster in the first queue and the
/// upper half in the second, ascending order kept within each half.
pub fn get_zahnersatz_groups(students: &Vec<u64>) -> (r: (Vec<Group>, Vec<Group>))
    ensures
        singles_built(queue_view(r.0@), students@, 0, students@.len() as int / 2, CourseType::Zahnersatz),
        singles_built(
            queue_view(r.1@),
            students@,
            students@.len() as int / 2,
            students@.len() as int,
            CourseType::Zahnersatz,
        ),
{
    let half = students.len() / 2;
    let mut first_half: Vec<Group> = Vec::new();
    let mut second_half: Vec<Group> = Vec::new();
    let mut position: usize = 0;
    while position < students.len()
        invariant
            position <= students@.len(),
            first_half@.len() == if position < students@.len() / 2 {
                position as int
            } else {
                students@.len() as int / 2
            },
            second_half@.len() == if position < students@.len() / 2 {
                0int
            } else {
                position - students@.len() as int / 2
            },
            forall|k: int| 0 <= k < first_half@.len() ==> #[trigger] (first_half@[k])@
                == (GroupView {
                group_type: CourseType::Zahnersatz,
                participants: seq![students@[k]],
            }),
            forall|k: int| 0 <= k < second_half@.len() ==> #[trigger] (second_half@[k])@
                == (GroupView {
                group_type: CourseType::Zahnersatz,
                participants: seq![students@[students@.len() as int / 2 + k]],
            }),
        decreases students@.len() - position,
    {
        let mut participants: Vec<u64> = Vec::new();
        participants.push(students[position]);
        let group = Group { group_type: CourseType::Zahnersatz, participants };
        proof {
            assert(group@.participants =~= seq![students@[position as int]]);
        }
        if position < half {
            first_half.push(group);
        } else {
            second_half.push(group);
        }
        position += 1;
    }
    (first_half, second_half)
}

/// Builds the Zahnerhalt rotation queue: one single-member unit per roster
/// participant, in ascending order.
pub fn get_zahnerhalt_groups(students: &Vec<u64>) -> (r: Vec<Group>)
    ensures
        singles_built(queue_view(r@), students@, 0, students@.len() as int, CourseType::Zahnerhalt),
{
    let mut groups: Vec<Group> = Vec::new();
    let mut position: usize = 0;
    while position < students.len()
        invariant
            position <= students@.len(),
            groups@.len() == position,
            forall|k: int| 0 <= k < position ==> #[trigger] (groups@[k])@ == (GroupView {
                group_type: CourseType::Zahnerhalt,
                participants: seq![students@[k]],
            }),
        decreases students@.len() - position,
    {
        let mut participants: Vec<u64> = Vec::new();
        participants.push(students[position]);
        let group = Group { group_type: CourseType::Zahnerhalt, participants };
        proof {
            assert(group@.participants =~= seq![students@[position as int]]);
        }
        groups.push(group);
        position += 1;
    }
    groups
}

} // verus!
