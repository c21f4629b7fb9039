//! The guarantees of the scheduler, proved from the functional models alone:
//! seat-capacity accounting, no double-booking, queue preservation,
//! starvation behaviour and the holiday rule.

use vstd::prelude::*;

use crate::calendar::calendar_built;
use crate::calendar::day_courses_for;
use crate::calendar::full_day_courses;
use crate::calendar::holiday_week_courses;
use crate::calendar::week_is_holiday_week;
use crate::scheduler::assign_to_slot;
use crate::scheduler::distribute_courses_spec;
use crate::scheduler::first_course;
use crate::scheduler::lemma_first_course;
use crate::scheduler::lemma_occupied_prefix_len;
use crate::scheduler::lemma_occupied_prefix_len_is;
use crate::scheduler::occupied_prefix_len;
use crate::scheduler::QueuesView;
use crate::scheduler::rotate_to_back;
use crate::scheduler::run_at;
use crate::scheduler::run_seats;
use crate::scheduler::schedule_day_spec;
use crate::scheduler::schedule_days_spec;
use crate::scheduler::schedule_week_spec;
use crate::scheduler::schedule_weeks_spec;
use crate::types::CourseType;
use crate::types::CourseView;
use crate::types::GroupView;
use crate::types::JsonHoliday;
use crate::types::WeekView;
use crate::types::no_double_booking;
use crate::types::spec_course_is_today;
use crate::types::spec_group_occupied;
use crate::types::spec_occupied;

verus! {

/// The units served by one slot's allocation, in the order they were served.
pub open spec fn units_assigned(
    day: Seq<CourseView>,
    cidx: int,
    q: Seq<GroupView>,
    seats: nat,
) -> Seq<GroupView>
    decreases seats,
{
    if seats == 0 {
        Seq::empty()
    } else {
        let s = occupied_prefix_len(day, day[cidx].beginning, q);
        if s == q.len() {
            units_assigned(day, cidx, q, (seats - 1) as nat)
        } else {
            seq![q[s]] + units_assigned(
                assign_to_slot(day, cidx, q[s].participants),
                cidx,
                rotate_to_back(q, s),
                (seats - 1) as nat,
            )
        }
    }
}

/// The member ids of a list of units, concatenated in order.
pub open spec fn members_concat(units: Seq<GroupView>) -> Seq<u64>
    decreases units.len(),
{
    if units.len() == 0 {
        Seq::empty()
    } else {
        units[0].participants + members_concat(units.drop_first())
    }
}

/// One slot's allocation only appends to the slot it fills: every other slot
/// is untouched, the filled slot keeps its category and start time, and the
/// queue keeps its length.
pub proof fn lemma_run_seats_structure(
    day: Seq<CourseView>,
    cidx: int,
    q: Seq<GroupView>,
    seats: nat,
)
    requires
        0 <= cidx < day.len(),
    ensures
        run_seats(day, cidx, q, seats).0.len() == day.len(),
        run_seats(day, cidx, q, seats).1.len() == q.len(),
        forall|i: int|
            0 <= i < day.len() && i != cidx ==> run_seats(day, cidx, q, seats).0[i] == day[i],
        run_seats(day, cidx, q, seats).0[cidx].beginning == day[cidx].beginning,
        run_seats(day, cidx, q, seats).0[cidx].course_type == day[cidx].course_type,
    decreases seats,
{
    if seats > 0 {
        let s = occupied_prefix_len(day, day[cidx].beginning, q);
        lemma_occupied_prefix_len(day, day[cidx].beginning, q);
        if s == q.len() {
            lemma_run_seats_structure(day, cidx, q, (seats - 1) as nat);
            assert forall|i: int|
                0 <= i < day.len() && i != cidx implies run_seats(day, cidx, q, seats).0[i]
                == day[i] by {
                assert(run_seats(day, cidx, q, (seats - 1) as nat).0[i] == day[i]);
            }
        } else {
            let day2 = assign_to_slot(day, cidx, q[s].participants);
            let q2 = rotate_to_back(q, s);
            lemma_run_seats_structure(day2, cidx, q2, (seats - 1) as nat);
            assert forall|i: int|
                0 <= i < day.len() && i != cidx implies run_seats(day, cidx, q, seats).0[i]
                == day[i] by {
                assert(run_seats(day2, cidx, q2, (seats - 1) as nat).0[i] == day2[i]);
                assert(day2[i] == day[i]);
            }
        }
    }
}

/// Seat-capacity accounting: one slot's allocation serves at most `seats`
/// units, and the slot's assigned list afterwards is exactly what it held
/// before followed by the members of the served units, in serving order.
pub proof fn lemma_seat_capacity(day: Seq<CourseView>, cidx: int, q: Seq<GroupView>, seats: nat)
    requires
        0 <= cidx < day.len(),
    ensures
        units_assigned(day, cidx, q, seats).len() <= seats,
        run_seats(day, cidx, q, seats).0[cidx].participants == day[cidx].participants
            + members_concat(units_assigned(day, cidx, q, seats)),
    decreases seats,
{
    if seats == 0 {
        assert(day[cidx].participants + members_concat(Seq::<GroupView>::empty())
            =~= day[cidx].participants);
    } else {
        let s = occupied_prefix_len(day, day[cidx].beginning, q);
        lemma_occupied_prefix_len(day, day[cidx].beginning, q);
        if s == q.len() {
            lemma_seat_capacity(day, cidx, q, (seats - 1) as nat);
        } else {
            let g = q[s];
            let day2 = assign_to_slot(day, cidx, g.participants);
            let q2 = rotate_to_back(q, s);
            lemma_seat_capacity(day2, cidx, q2, (seats - 1) as nat);
            let rest = units_assigned(day2, cidx, q2, (seats - 1) as nat);
            assert((seq![g] + rest).drop_first() =~= rest);
            assert((seq![g] + rest)[0] == g);
            assert(members_concat(seq![g] + rest) == g.participants + members_concat(rest));
            assert(day[cidx].participants + (g.participants + members_concat(rest))
                =~= (day[cidx].participants + g.participants) + members_concat(rest));
        }
    }
}

/// Concatenating unit lists concatenates their members.
proof fn lemma_members_concat_append(a: Seq<GroupView>, b: Seq<GroupView>)
    ensures
        members_concat(a + b) == members_concat(a) + members_concat(b),
    decreases a.len(),
{
    if a.len() == 0 {
        assert(a + b =~= b);
        assert(members_concat(a) + members_concat(b) =~= members_concat(b));
    } else {
        assert((a + b).drop_first() =~= a.drop_first() + b);
        assert((a + b)[0] == a[0]);
        lemma_members_concat_append(a.drop_first(), b);
        assert(a[0].participants + (members_concat(a.drop_first()) + members_concat(b)) =~= (
        a[0].participants + members_concat(a.drop_first())) + members_concat(b));
    }
}

/// `after` is `before` extended by the members of at most `cap` units.
pub open spec fn filled_with_units(before: Seq<u64>, after: Seq<u64>, cap: nat) -> bool {
    exists|units: Seq<GroupView>|
        units.len() <= cap && after == before + #[trigger] members_concat(units)
}

/// An untouched list is filled within any capacity.
proof fn lemma_filled_refl(before: Seq<u64>, cap: nat)
    ensures
        filled_with_units(before, before, cap),
{
    let units = Seq::<GroupView>::empty();
    assert(before + members_concat(units) =~= before);
}

/// Two fills in a row stay within the sum of their capacities.
proof fn lemma_filled_trans(a: Seq<u64>, b: Seq<u64>, c: Seq<u64>, n: nat, m: nat)
    requires
        filled_with_units(a, b, n),
        filled_with_units(b, c, m),
    ensures
        filled_with_units(a, c, (n + m) as nat),
{
    let u1 = choose|u: Seq<GroupView>| u.len() <= n && b == a + #[trigger] members_concat(u);
    let u2 = choose|u: Seq<GroupView>| u.len() <= m && c == b + #[trigger] members_concat(u);
    lemma_members_concat_append(u1, u2);
    assert(c =~= a + members_concat(u1 + u2));
}

/// A fill within a capacity is a fill within any larger one.
proof fn lemma_filled_widen(a: Seq<u64>, b: Seq<u64>, n: nat, m: nat)
    requires
        filled_with_units(a, b, n),
        n <= m,
    ensures
        filled_with_units(a, b, m),
{
    let u = choose|u: Seq<GroupView>| u.len() <= n && b == a + #[trigger] members_concat(u);
    assert(u.len() <= m && b == a + members_concat(u));
}

/// One slot's allocation fills the slot with at most `seats` units.
proof fn lemma_run_seats_filled(day: Seq<CourseView>, cidx: int, q: Seq<GroupView>, seats: nat)
    requires
        0 <= cidx < day.len(),
    ensures
        filled_with_units(
            day[cidx].participants,
            run_seats(day, cidx, q, seats).0[cidx].participants,
            seats,
        ),
{
    lemma_seat_capacity(day, cidx, q, seats);
    let units = units_assigned(day, cidx, q, seats);
    assert(run_seats(day, cidx, q, seats).0[cidx].participants == day[cidx].participants
        + members_concat(units));
}

/// Two days share a shape: the same slots, by category and start time, in the
/// same order — only the assigned lists may differ.
pub open spec fn same_shape(d1: Seq<CourseView>, d2: Seq<CourseView>) -> bool {
    &&& d1.len() == d2.len()
    &&& forall|i: int|
        0 <= i < d1.len() ==> (#[trigger] d1[i]).course_type == d2[i].course_type
            && d1[i].beginning == d2[i].beginning
}

/// One slot's allocation keeps the day's shape.
proof fn lemma_run_at_shape(day: Seq<CourseView>, cidx: int, q: Seq<GroupView>, seats: nat)
    requires
        cidx == -1 || 0 <= cidx < day.len(),
    ensures
        same_shape(day, run_at(day, cidx, q, seats).0),
{
    if cidx != -1 {
        lemma_run_seats_structure(day, cidx, q, seats);
    }
}

/// [`run_at`] fills only the slot it aims at, with at most `seats` units.
proof fn lemma_run_at_filled(day: Seq<CourseView>, cidx: int, q: Seq<GroupView>, seats: nat)
    requires
        cidx == -1 || 0 <= cidx < day.len(),
    ensures
        forall|i: int|
            0 <= i < day.len() ==> filled_with_units(
                day[i].participants,
                run_at(day, cidx, q, seats).0[i].participants,
                if i == cidx {
                    seats
                } else {
                    0nat
                },
            ),
{
    if cidx != -1 {
        lemma_run_seats_structure(day, cidx, q, seats);
        lemma_run_seats_filled(day, cidx, q, seats);
    }
    assert forall|i: int| 0 <= i < day.len() implies filled_with_units(
        day[i].participants,
        run_at(day, cidx, q, seats).0[i].participants,
        if i == cidx {
            seats
        } else {
            0nat
        },
    ) by {
        if cidx == -1 || i != cidx {
            assert(run_at(day, cidx, q, seats).0[i] == day[i]);
            lemma_filled_refl(day[i].participants, 0);
        }
    }
}

/// The unit budget one category pass may spend on one of its slots.
pub open spec fn pass_capacity(course_type: CourseType) -> nat {
    match course_type {
        CourseType::Curriculum => 1,
        CourseType::Exkurs => 1,
        CourseType::Zahnersatz => (crate::scheduler::ZAHNERSATZ_SEAT_COUNT / 2) as nat,
        CourseType::Zahnerhalt => crate::scheduler::ZAHNERHALT_SEAT_COUNT as nat,
    }
}

/// Seat capacity, per category pass: one pass keeps the day's shape, and each
/// slot gains at most the pass's unit budget — and nothing at all unless the
/// slot belongs to the category being distributed.
pub proof fn lemma_distribute_courses_capacity(
    course_type: CourseType,
    day: Seq<CourseView>,
    q: Seq<GroupView>,
)
    ensures
        same_shape(day, distribute_courses_spec(course_type, day, q).0),
        forall|i: int|
            0 <= i < day.len() ==> filled_with_units(
                day[i].participants,
                distribute_courses_spec(course_type, day, q).0[i].participants,
                if day[i].course_type == course_type {
                    pass_capacity(course_type)
                } else {
                    0nat
                },
            ),
{
    lemma_first_course(day, course_type, Option::None);
    lemma_first_course(day, course_type, Option::Some(7));
    lemma_first_course(day, course_type, Option::Some(16));
    let i0 = first_course(day, course_type, Option::None);
    let i7 = first_course(day, course_type, Option::Some(7));
    let i16 = first_course(day, course_type, Option::Some(16));
    let out = distribute_courses_spec(course_type, day, q);
    match course_type {
        CourseType::Curriculum => {
            lemma_run_at_shape(day, i0, q, 1);
            lemma_run_at_filled(day, i0, q, 1);
            assert forall|i: int| 0 <= i < day.len() implies filled_with_units(
                day[i].participants,
                out.0[i].participants,
                if day[i].course_type == course_type {
                    pass_capacity(course_type)
                } else {
                    0nat
                },
            ) by {
                lemma_filled_widen(
                    day[i].participants,
                    out.0[i].participants,
                    if i == i0 {
                        1nat
                    } else {
                        0nat
                    },
                    if day[i].course_type == course_type {
                        pass_capacity(course_type)
                    } else {
                        0nat
                    },
                );
            }
        },
        CourseType::Exkurs => {
            lemma_run_at_shape(day, i0, q, 1);
            lemma_run_at_filled(day, i0, q, 1);
            assert forall|i: int| 0 <= i < day.len() implies filled_with_units(
                day[i].participants,
                out.0[i].participants,
                if day[i].course_type == course_type {
                    pass_capacity(course_type)
                } else {
                    0nat
                },
            ) by {
                lemma_filled_widen(
                    day[i].participants,
                    out.0[i].participants,
                    if i == i0 {
                        1nat
                    } else {
                        0nat
                    },
                    if day[i].course_type == course_type {
                        pass_capacity(course_type)
                    } else {
                        0nat
                    },
                );
            }
        },
        CourseType::Zahnersatz => {
            let seats = (crate::scheduler::ZAHNERSATZ_SEAT_COUNT / 2) as nat;
            lemma_two_slot_pass_capacity(course_type, day, q, i7, i16, seats);
        },
        CourseType::Zahnerhalt => {
            let seats = crate::scheduler::ZAHNERHALT_SEAT_COUNT as nat;
            lemma_two_slot_pass_capacity(course_type, day, q, i7, i16, seats);
        },
    }
}

/// The shared capacity argument of the two categories that fill a morning and
/// an evening slot in one pass: the two picked slots differ (their start
/// times do), so each gains at most `seats` units, and every other slot
/// nothing.
proof fn lemma_two_slot_pass_capacity(
    course_type: CourseType,
    day: Seq<CourseView>,
    q: Seq<GroupView>,
    i7: int,
    i16: int,
    seats: nat,
)
    requires
        course_type == CourseType::Zahnersatz || course_type == CourseType::Zahnerhalt,
        i7 == first_course(day, course_type, Option::Some(7)),
        i16 == first_course(day, course_type, Option::Some(16)),
        seats == pass_capacity(course_type),
    ensures
        same_shape(day, distribute_courses_spec(course_type, day, q).0),
        forall|i: int|
            0 <= i < day.len() ==> filled_with_units(
                day[i].participants,
                distribute_courses_spec(course_type, day, q).0[i].participants,
                if day[i].course_type == course_type {
                    pass_capacity(course_type)
                } else {
                    0nat
                },
            ),
{
    lemma_first_course(day, course_type, Option::Some(7));
    lemma_first_course(day, course_type, Option::Some(16));
    let r7 = run_at(day, i7, q, seats);
    let out = distribute_courses_spec(course_type, day, q);
    lemma_run_at_shape(day, i7, q, seats);
    lemma_run_at_filled(day, i7, q, seats);
    lemma_run_at_shape(r7.0, i16, r7.1, seats);
    lemma_run_at_filled(r7.0, i16, r7.1, seats);
    assert forall|i: int| 0 <= i < day.len() implies filled_with_units(
        day[i].participants,
        out.0[i].participants,
        if day[i].course_type == course_type {
            pass_capacity(course_type)
        } else {
            0nat
        },
    ) by {
        let c1: nat = if i == i7 {
            seats
        } else {
            0nat
        };
        let c2: nat = if i == i16 {
            seats
        } else {
            0nat
        };
        assert(filled_with_units(day[i].participants, r7.0[i].participants, c1));
        assert(filled_with_units(r7.0[i].participants, out.0[i].participants, c2));
        lemma_filled_trans(
            day[i].participants,
            r7.0[i].participants,
            out.0[i].participants,
            c1,
            c2,
        );
        // The morning and the evening pick different slots, so at most one
        // of the two budgets applies to any one slot.
        if i7 != -1 && i16 != -1 {
            assert(day[i7].beginning == 7 && day[i16].beginning == 16);
        }
        lemma_filled_widen(
            day[i].participants,
            out.0[i].participants,
            (c1 + c2) as nat,
            if day[i].course_type == course_type {
                pass_capacity(course_type)
            } else {
                0nat
            },
        );
    }
}

/// No double-booking is preserved by one slot's allocation: whatever one
/// round appends, its members were free at the slot's start time when they
/// were served.
pub proof fn lemma_run_seats_no_double_booking(
    day: Seq<CourseView>,
    cidx: int,
    q: Seq<GroupView>,
    seats: nat,
)
    requires
        0 <= cidx < day.len(),
        no_double_booking(day),
    ensures
        no_double_booking(run_seats(day, cidx, q, seats).0),
    decreases seats,
{
    if seats > 0 {
        let b = day[cidx].beginning;
        let s = occupied_prefix_len(day, b, q);
        lemma_occupied_prefix_len(day, b, q);
        if s == q.len() {
            lemma_run_seats_no_double_booking(day, cidx, q, (seats - 1) as nat);
        } else {
            let g = q[s];
            let day2 = assign_to_slot(day, cidx, g.participants);
            assert(no_double_booking(day2)) by {
                assert forall|i: int, j: int, p: u64|
                    0 <= i < day2.len() && 0 <= j < day2.len() && i != j && day2[i].beginning
                        == day2[j].beginning && #[trigger] day2[i].participants.contains(p) implies !(
                #[trigger] day2[j].participants.contains(p)) by {
                    if day2[j].participants.contains(p) {
                        if i != cidx && j != cidx {
                            assert(day[i].participants.contains(p));
                            assert(day[j].participants.contains(p));
                        } else {
                            let (ci, cj) = if i == cidx {
                                (i, j)
                            } else {
                                (j, i)
                            };
                            // day2[ci] is the filled slot, day2[cj] an untouched one
                            // sharing its start time b.
                            assert(day2[cj] == day[cj]);
                            assert(day2[cj].beginning == b);
                            assert(day2[ci].participants == day[cidx].participants
                                + g.participants);
                            assert(day2[ci].participants.contains(p));
                            assert(day2[cj].participants.contains(p));
                            assert(spec_occupied(day, b, p));
                            if day[cidx].participants.contains(p) {
                                // already booked before: contradicts no_double_booking(day)
                                assert(day[ci].participants.contains(p));
                                assert(false);
                            } else {
                                // freshly served: g was not occupied at time b
                                let t = choose|t: int|
                                    0 <= t < day2[ci].participants.len()
                                        && day2[ci].participants[t] == p;
                                assert(g.participants[t - day[cidx].participants.len()] == p);
                                assert(g.participants.contains(p));
                                let k = choose|k: int|
                                    0 <= k < g.participants.len() && g.participants[k] == p;
                                assert(!spec_group_occupied(day, b, g));
                                assert(!spec_occupied(day, b, g.participants[k]));
                                assert(false);
                            }
                        }
                    }
                }
            }
            lemma_run_seats_no_double_booking(day2, cidx, rotate_to_back(q, s), (seats - 1) as nat);
        }
    }
}

/// A rotation never loses or duplicates units: one slot's allocation only
/// reorders its queue.
pub proof fn lemma_run_seats_queue_multiset(
    day: Seq<CourseView>,
    cidx: int,
    q: Seq<GroupView>,
    seats: nat,
)
    ensures
        run_seats(day, cidx, q, seats).1.to_multiset() == q.to_multiset(),
    decreases seats,
{
    if seats > 0 {
        let s = occupied_prefix_len(day, day[cidx].beginning, q);
        lemma_occupied_prefix_len(day, day[cidx].beginning, q);
        if s == q.len() {
            lemma_run_seats_queue_multiset(day, cidx, q, (seats - 1) as nat);
        } else {
            q.to_multiset_ensures();
            q.remove(s).to_multiset_ensures();
            assert(q.contains(q[s]));
            assert(rotate_to_back(q, s).to_multiset() =~= q.to_multiset());
            lemma_run_seats_queue_multiset(
                assign_to_slot(day, cidx, q[s].participants),
                cidx,
                rotate_to_back(q, s),
                (seats - 1) as nat,
            );
        }
    }
}

/// Starvation behaviour: if every unit of the queue is occupied for the slot,
/// the allocation leaves every seat unfilled, and both the day and the queue
/// exactly as they were.
pub proof fn lemma_all_occupied_unchanged(
    day: Seq<CourseView>,
    cidx: int,
    q: Seq<GroupView>,
    seats: nat,
)
    requires
        0 <= cidx < day.len(),
        forall|k: int|
            0 <= k < q.len() ==> spec_group_occupied(day, day[cidx].beginning, #[trigger] q[k]),
    ensures
        run_seats(day, cidx, q, seats) == (day, q),
    decreases seats,
{
    lemma_occupied_prefix_len_is(day, day[cidx].beginning, q, q.len() as int);
    if seats > 0 {
        lemma_all_occupied_unchanged(day, cidx, q, (seats - 1) as nat);
    }
}

/// The round-robin rule, one seat at a time: when the front unit of the queue
/// is free, it is the one served — its members go to the slot and it moves to
/// the very back, so it will not be the front candidate again until every
/// other unit has had its turn.
pub proof fn lemma_front_unit_served(day: Seq<CourseView>, cidx: int, q: Seq<GroupView>)
    requires
        0 <= cidx < day.len(),
        q.len() > 0,
        !spec_group_occupied(day, day[cidx].beginning, q[0]),
    ensures
        run_seats(day, cidx, q, 1) == (
            assign_to_slot(day, cidx, q[0].participants),
            q.drop_first().push(q[0]),
        ),
{
    lemma_occupied_prefix_len_is(day, day[cidx].beginning, q, 0);
    let day2 = assign_to_slot(day, cidx, q[0].participants);
    let q2 = rotate_to_back(q, 0);
    assert(run_seats(day2, cidx, q2, 0) == (day2, q2));
    assert(q2 =~= q.drop_first().push(q[0]));
}

/// [`run_at`] preserves no-double-booking, the day's shape and the queue's
/// multiset of units.
proof fn lemma_run_at_preserves(day: Seq<CourseView>, cidx: int, q: Seq<GroupView>, seats: nat)
    requires
        cidx == -1 || 0 <= cidx < day.len(),
        no_double_booking(day),
    ensures
        no_double_booking(run_at(day, cidx, q, seats).0),
        run_at(day, cidx, q, seats).0.len() == day.len(),
        run_at(day, cidx, q, seats).1.to_multiset() == q.to_multiset(),
{
    if cidx != -1 {
        lemma_run_seats_structure(day, cidx, q, seats);
        lemma_run_seats_no_double_booking(day, cidx, q, seats);
        lemma_run_seats_queue_multiset(day, cidx, q, seats);
    }
}

/// One category's allocation preserves no-double-booking and the day's
/// length, and only reorders its queue.
pub proof fn lemma_distribute_courses_preserves(
    course_type: CourseType,
    day: Seq<CourseView>,
    q: Seq<GroupView>,
)
    requires
        no_double_booking(day),
    ensures
        no_double_booking(distribute_courses_spec(course_type, day, q).0),
        distribute_courses_spec(course_type, day, q).0.len() == day.len(),
        distribute_courses_spec(course_type, day, q).1.to_multiset() == q.to_multiset(),
{
    lemma_first_course(day, course_type, Option::None);
    lemma_first_course(day, course_type, Option::Some(7));
    lemma_first_course(day, course_type, Option::Some(16));
    let i7 = first_course(day, course_type, Option::Some(7));
    let i16 = first_course(day, course_type, Option::Some(16));
    match course_type {
        CourseType::Curriculum => {
            lemma_run_at_preserves(day, first_course(day, course_type, Option::None), q, 1);
        },
        CourseType::Exkurs => {
            lemma_run_at_preserves(day, first_course(day, course_type, Option::None), q, 1);
        },
        CourseType::Zahnersatz => {
            let seats = (crate::scheduler::ZAHNERSATZ_SEAT_COUNT / 2) as nat;
            let r7 = run_at(day, i7, q, seats);
            lemma_run_at_preserves(day, i7, q, seats);
            lemma_run_at_preserves(r7.0, i16, r7.1, seats);
        },
        CourseType::Zahnerhalt => {
            let seats = crate::scheduler::ZAHNERHALT_SEAT_COUNT as nat;
            let r7 = run_at(day, i7, q, seats);
            lemma_run_at_preserves(day, i7, q, seats);
            lemma_run_at_preserves(r7.0, i16, r7.1, seats);
        },
    }
}

/// One day's allocation preserves no-double-booking and the day's length, and
/// only reorders each of the five queues.
pub proof fn lemma_schedule_day_preserves(day: Seq<CourseView>, qs: QueuesView)
    requires
        no_double_booking(day),
    ensures
        no_double_booking(schedule_day_spec(day, qs).0),
        schedule_day_spec(day, qs).0.len() == day.len(),
        schedule_day_spec(day, qs).1.curriculum.to_multiset() == qs.curriculum.to_multiset(),
        schedule_day_spec(day, qs).1.exkurs.to_multiset() == qs.exkurs.to_multiset(),
        schedule_day_spec(day, qs).1.zahnersatz_first.to_multiset()
            == qs.zahnersatz_first.to_multiset(),
        schedule_day_spec(day, qs).1.zahnersatz_second.to_multiset()
            == qs.zahnersatz_second.to_multiset(),
        schedule_day_spec(day, qs).1.zahnerhalt.to_multiset() == qs.zahnerhalt.to_multiset(),
{
    let r1 = distribute_courses_spec(CourseType::Curriculum, day, qs.curriculum);
    lemma_distribute_courses_preserves(CourseType::Curriculum, day, qs.curriculum);
    let r2 = distribute_courses_spec(CourseType::Exkurs, r1.0, qs.exkurs);
    lemma_distribute_courses_preserves(CourseType::Exkurs, r1.0, qs.exkurs);
    let r3 = distribute_courses_spec(CourseType::Zahnersatz, r2.0, qs.zahnersatz_first);
    lemma_distribute_courses_preserves(CourseType::Zahnersatz, r2.0, qs.zahnersatz_first);
    let r4 = distribute_courses_spec(CourseType::Zahnersatz, r3.0, qs.zahnersatz_second);
    lemma_distribute_courses_preserves(CourseType::Zahnersatz, r3.0, qs.zahnersatz_second);
    lemma_distribute_courses_preserves(CourseType::Zahnerhalt, r4.0, qs.zahnerhalt);
}

/// A run over several days preserves no-double-booking on every day, keeps
/// the number and lengths of the days, and only reorders each queue.
pub proof fn lemma_schedule_days_preserves(days: Seq<Seq<CourseView>>, qs: QueuesView)
    requires
        forall|k: int| 0 <= k < days.len() ==> no_double_booking(#[trigger] days[k]),
    ensures
        schedule_days_spec(days, qs).0.len() == days.len(),
        forall|k: int|
            0 <= k < days.len() ==> no_double_booking(#[trigger] schedule_days_spec(days, qs).0[k]),
        schedule_days_spec(days, qs).1.curriculum.to_multiset() == qs.curriculum.to_multiset(),
        schedule_days_spec(days, qs).1.exkurs.to_multiset() == qs.exkurs.to_multiset(),
        schedule_days_spec(days, qs).1.zahnersatz_first.to_multiset()
            == qs.zahnersatz_first.to_multiset(),
        schedule_days_spec(days, qs).1.zahnersatz_second.to_multiset()
            == qs.zahnersatz_second.to_multiset(),
        schedule_days_spec(days, qs).1.zahnerhalt.to_multiset() == qs.zahnerhalt.to_multiset(),
    decreases days.len(),
{
    if days.len() > 0 {
        let r1 = schedule_day_spec(days[0], qs);
        lemma_schedule_day_preserves(days[0], qs);
        assert forall|k: int| 0 <= k < days.drop_first().len() implies no_double_booking(
            #[trigger] days.drop_first()[k],
        ) by {
            assert(days.drop_first()[k] == days[k + 1]);
        }
        lemma_schedule_days_preserves(days.drop_first(), r1.1);
        let rest = schedule_days_spec(days.drop_first(), r1.1);
        assert forall|k: int| 0 <= k < days.len() implies no_double_booking(
            #[trigger] schedule_days_spec(days, qs).0[k],
        ) by {
            if k == 0 {
                assert(schedule_days_spec(days, qs).0[0] == r1.0);
            } else {
                assert(schedule_days_spec(days, qs).0[k] == rest.0[k - 1]);
            }
        }
    }
}

/// A run over several weeks preserves no-double-booking on every day of
/// every week, keeps the calendar's shape, and only reorders each queue.
pub proof fn lemma_schedule_weeks_preserves(weeks: Seq<WeekView>, qs: QueuesView)
    requires
        forall|i: int, j: int|
            0 <= i < weeks.len() && 0 <= j < weeks[i].days.len() ==> no_double_booking(
                #[trigger] weeks[i].days[j],
            ),
    ensures
        schedule_weeks_spec(weeks, qs).0.len() == weeks.len(),
        forall|i: int|
            0 <= i < weeks.len() ==> (#[trigger] schedule_weeks_spec(weeks, qs).0[i]).number
                == weeks[i].number && schedule_weeks_spec(weeks, qs).0[i].days.len()
                == weeks[i].days.len(),
        forall|i: int, j: int|
            0 <= i < weeks.len() && 0 <= j < weeks[i].days.len() ==> no_double_booking(
                #[trigger] schedule_weeks_spec(weeks, qs).0[i].days[j],
            ),
        schedule_weeks_spec(weeks, qs).1.curriculum.to_multiset() == qs.curriculum.to_multiset(),
        schedule_weeks_spec(weeks, qs).1.exkurs.to_multiset() == qs.exkurs.to_multiset(),
        schedule_weeks_spec(weeks, qs).1.zahnersatz_first.to_multiset()
            == qs.zahnersatz_first.to_multiset(),
        schedule_weeks_spec(weeks, qs).1.zahnersatz_second.to_multiset()
            == qs.zahnersatz_second.to_multiset(),
        schedule_weeks_spec(weeks, qs).1.zahnerhalt.to_multiset() == qs.zahnerhalt.to_multiset(),
    decreases weeks.len(),
{
    if weeks.len() > 0 {
        let w0 = weeks[0];
        assert forall|j: int| 0 <= j < w0.days.len() implies no_double_booking(
            #[trigger] w0.days[j],
        ) by {
            assert(weeks[0].days[j] == w0.days[j]);
        }
        lemma_schedule_days_preserves(w0.days, qs);
        let r1 = schedule_week_spec(w0, qs);
        assert forall|i: int, j: int|
            0 <= i < weeks.drop_first().len() && 0 <= j
                < weeks.drop_first()[i].days.len() implies no_double_booking(
            #[trigger] weeks.drop_first()[i].days[j],
        ) by {
            assert(weeks.drop_first()[i] == weeks[i + 1]);
        }
        lemma_schedule_weeks_preserves(weeks.drop_first(), r1.1);
        let rest = schedule_weeks_spec(weeks.drop_first(), r1.1);
        assert forall|i: int|
            0 <= i < weeks.len() implies (#[trigger] schedule_weeks_spec(weeks, qs).0[i]).number
            == weeks[i].number && schedule_weeks_spec(weeks, qs).0[i].days.len()
            == weeks[i].days.len() by {
            if i == 0 {
                assert(schedule_weeks_spec(weeks, qs).0[0] == r1.0);
            } else {
                assert(schedule_weeks_spec(weeks, qs).0[i] == rest.0[i - 1]);
                assert(weeks.drop_first()[i - 1] == weeks[i]);
            }
        }
        assert forall|i: int, j: int|
            0 <= i < weeks.len() && 0 <= j < weeks[i].days.len() implies no_double_booking(
            #[trigger] schedule_weeks_spec(weeks, qs).0[i].days[j],
        ) by {
            if i == 0 {
                assert(schedule_weeks_spec(weeks, qs).0[0] == r1.0);
            } else {
                assert(schedule_weeks_spec(weeks, qs).0[i] == rest.0[i - 1]);
                assert(weeks.drop_first()[i - 1] == weeks[i]);
            }
        }
    }
}

/// Some week of the calendar carries the number `w`.
pub open spec fn has_week(weeks: Seq<WeekView>, w: u64) -> bool {
    exists|i: int| 0 <= i < weeks.len() && (#[trigger] weeks[i]).number == w
}

/// A built calendar holds exactly one week per number of the configured
/// range, each with exactly five days: every number in range occurs, and no
/// two week entries share a number.
pub proof fn lemma_calendar_weeks_unique(
    weeks: Seq<WeekView>,
    start: u64,
    end: u64,
    holidays: Seq<JsonHoliday>,
)
    requires
        start <= end,
        calendar_built(weeks, start, end, holidays),
    ensures
        forall|w: u64| start <= w <= end ==> #[trigger] has_week(weeks, w),
        forall|i: int, k: int|
            0 <= i < weeks.len() && 0 <= k < weeks.len() && (#[trigger] weeks[i]).number == (
            #[trigger] weeks[k]).number ==> i == k,
        forall|i: int| 0 <= i < weeks.len() ==> (#[trigger] weeks[i]).days.len() == 5,
{
    assert forall|w: u64| start <= w <= end implies #[trigger] has_week(weeks, w) by {
        let i = w - start;
        assert(weeks[i as int].number == start + i);
    }
}

/// Every slot of a freshly built day is empty.
pub open spec fn all_slots_empty(day: Seq<CourseView>) -> bool {
    forall|i: int| 0 <= i < day.len() ==> (#[trigger] day[i]).participants.len() == 0
}

/// A day whose slots are all empty books nobody twice.
pub proof fn lemma_empty_day_no_double_booking(day: Seq<CourseView>)
    requires
        all_slots_empty(day),
    ensures
        no_double_booking(day),
{
}

/// Every day a built calendar hands to the scheduler starts with all slots
/// empty, so no participant is booked anywhere, let alone twice.
pub proof fn lemma_built_calendar_no_double_booking(
    weeks: Seq<WeekView>,
    start: u64,
    end: u64,
    holidays: Seq<JsonHoliday>,
)
    requires
        calendar_built(weeks, start, end, holidays),
    ensures
        forall|i: int, j: int|
            0 <= i < weeks.len() && 0 <= j < weeks[i].days.len() ==> no_double_booking(
                #[trigger] weeks[i].days[j],
            ),
{
    assert forall|i: int, j: int|
        0 <= i < weeks.len() && 0 <= j < weeks[i].days.len() implies no_double_booking(
        #[trigger] weeks[i].days[j],
    ) by {
        assert(weeks[i].days[j] == day_courses_for(holidays, (start + i) as u64, j as u64));
        assert(all_slots_empty(full_day_courses()));
        assert(all_slots_empty(holiday_week_courses()));
        assert(all_slots_empty(Seq::<CourseView>::empty()));
        lemma_empty_day_no_double_booking(weeks[i].days[j]);
    }
}

/// A category that has no slot today rotates nothing: its queue — and the
/// day — are left exactly as they stand.
pub proof fn lemma_no_course_no_rotation(
    course_type: CourseType,
    day: Seq<CourseView>,
    q: Seq<GroupView>,
)
    requires
        !spec_course_is_today(day, course_type),
    ensures
        distribute_courses_spec(course_type, day, q) == (day, q),
{
    lemma_first_course(day, course_type, Option::None);
    lemma_first_course(day, course_type, Option::Some(7));
    lemma_first_course(day, course_type, Option::Some(16));
    assert(first_course(day, course_type, Option::None) == -1);
    assert(first_course(day, course_type, Option::Some(7)) == -1);
    assert(first_course(day, course_type, Option::Some(16)) == -1);
}

/// A day of a week with a holiday entry holds no Curriculum slot.
pub proof fn lemma_holiday_week_no_curriculum(holidays: Seq<JsonHoliday>, w: u64, d: u64)
    requires
        week_is_holiday_week(holidays, w),
    ensures
        !spec_course_is_today(day_courses_for(holidays, w, d), CourseType::Curriculum),
{
    let day = day_courses_for(holidays, w, d);
    assert forall|i: int| 0 <= i < day.len() implies (#[trigger] day[i]).course_type
        != CourseType::Curriculum by {
        assert(day =~= holiday_week_courses() || day =~= Seq::<CourseView>::empty());
    }
}

/// The holiday rule: on a day of a week with a holiday entry the Curriculum
/// category is not scheduled, and its rotation queue is unaffected.
pub proof fn lemma_holiday_preserves_curriculum_queue(
    holidays: Seq<JsonHoliday>,
    w: u64,
    d: u64,
    q: Seq<GroupView>,
)
    requires
        week_is_holiday_week(holidays, w),
    ensures
        distribute_courses_spec(CourseType::Curriculum, day_courses_for(holidays, w, d), q) == (
            day_courses_for(holidays, w, d),
            q,
        ),
{
    lemma_holiday_week_no_curriculum(holidays, w, d);
    lemma_no_course_no_rotation(CourseType::Curriculum, day_courses_for(holidays, w, d), q);
}

/// The unit capacity of one slot over a whole day: its category's configured
/// budget.  A Zahnersatz slot is filled by both sub-queue passes, half the
/// configured seat count each.
pub open spec fn slot_capacity(course_type: CourseType) -> nat {
    match course_type {
        CourseType::Curriculum => 1,
        CourseType::Exkurs => 1,
        CourseType::Zahnersatz => crate::scheduler::ZAHNERSATZ_SEAT_COUNT as nat,
        CourseType::Zahnerhalt => crate::scheduler::ZAHNERHALT_SEAT_COUNT as nat,
    }
}

/// Seat capacity over one day: the five category passes keep the day's shape,
/// and every slot gains at most its category's configured number of units.
pub proof fn lemma_schedule_day_capacity(day: Seq<CourseView>, qs: QueuesView)
    ensures
        same_shape(day, schedule_day_spec(day, qs).0),
        forall|i: int|
            0 <= i < day.len() ==> filled_with_units(
                day[i].participants,
                schedule_day_spec(day, qs).0[i].participants,
                slot_capacity(day[i].course_type),
            ),
{
    let d1 = distribute_courses_spec(CourseType::Curriculum, day, qs.curriculum).0;
    let d2 = distribute_courses_spec(CourseType::Exkurs, d1, qs.exkurs).0;
    let d3 = distribute_courses_spec(CourseType::Zahnersatz, d2, qs.zahnersatz_first).0;
    let d4 = distribute_courses_spec(CourseType::Zahnersatz, d3, qs.zahnersatz_second).0;
    let d5 = distribute_courses_spec(CourseType::Zahnerhalt, d4, qs.zahnerhalt).0;
    lemma_distribute_courses_capacity(CourseType::Curriculum, day, qs.curriculum);
    lemma_distribute_courses_capacity(CourseType::Exkurs, d1, qs.exkurs);
    lemma_distribute_courses_capacity(CourseType::Zahnersatz, d2, qs.zahnersatz_first);
    lemma_distribute_courses_capacity(CourseType::Zahnersatz, d3, qs.zahnersatz_second);
    lemma_distribute_courses_capacity(CourseType::Zahnerhalt, d4, qs.zahnerhalt);
    assert forall|i: int| 0 <= i < day.len() implies filled_with_units(
        day[i].participants,
        schedule_day_spec(day, qs).0[i].participants,
        slot_capacity(day[i].course_type),
    ) by {
        let t = day[i].course_type;
        assert(d1[i].course_type == t && d2[i].course_type == t && d3[i].course_type == t
            && d4[i].course_type == t);
        let c1: nat = if t == CourseType::Curriculum {
            pass_capacity(CourseType::Curriculum)
        } else {
            0nat
        };
        let c2: nat = if t == CourseType::Exkurs {
            pass_capacity(CourseType::Exkurs)
        } else {
            0nat
        };
        let c3: nat = if t == CourseType::Zahnersatz {
            pass_capacity(CourseType::Zahnersatz)
        } else {
            0nat
        };
        let c5: nat = if t == CourseType::Zahnerhalt {
            pass_capacity(CourseType::Zahnerhalt)
        } else {
            0nat
        };
        lemma_filled_trans(
            day[i].participants,
            d1[i].participants,
            d2[i].participants,
            c1,
            c2,
        );
        lemma_filled_trans(
            day[i].participants,
            d2[i].participants,
            d3[i].participants,
            (c1 + c2) as nat,
            c3,
        );
        lemma_filled_trans(
            day[i].participants,
            d3[i].participants,
            d4[i].participants,
            (c1 + c2 + c3) as nat,
            c3,
        );
        lemma_filled_trans(
            day[i].participants,
            d4[i].participants,
            d5[i].participants,
            (c1 + c2 + c3 + c3) as nat,
            c5,
        );
        lemma_filled_widen(
            day[i].participants,
            d5[i].participants,
            (c1 + c2 + c3 + c3 + c5) as nat,
            slot_capacity(t),
        );
    }
}

/// Seat capacity over a run of several days.
pub proof fn lemma_schedule_days_capacity(days: Seq<Seq<CourseView>>, qs: QueuesView)
    ensures
        schedule_days_spec(days, qs).0.len() == days.len(),
        forall|k: int|
            0 <= k < days.len() ==> same_shape(
                #[trigger] days[k],
                schedule_days_spec(days, qs).0[k],
            ),
        forall|k: int, i: int|
            0 <= k < days.len() && 0 <= i < days[k].len() ==> filled_with_units(
                days[k][i].participants,
                #[trigger] schedule_days_spec(days, qs).0[k][i].participants,
                slot_capacity(days[k][i].course_type),
            ),
    decreases days.len(),
{
    if days.len() > 0 {
        let r1 = schedule_day_spec(days[0], qs);
        lemma_schedule_day_capacity(days[0], qs);
        lemma_schedule_days_capacity(days.drop_first(), r1.1);
        let rest = schedule_days_spec(days.drop_first(), r1.1);
        assert forall|k: int| 0 <= k < days.len() implies same_shape(
            #[trigger] days[k],
            schedule_days_spec(days, qs).0[k],
        ) by {
            if k == 0 {
                assert(schedule_days_spec(days, qs).0[0] == r1.0);
            } else {
                assert(schedule_days_spec(days, qs).0[k] == rest.0[k - 1]);
                assert(days.drop_first()[k - 1] == days[k]);
            }
        }
        assert forall|k: int, i: int|
            0 <= k < days.len() && 0 <= i < days[k].len() implies filled_with_units(
            days[k][i].participants,
            #[trigger] schedule_days_spec(days, qs).0[k][i].participants,
            slot_capacity(days[k][i].course_type),
        ) by {
            if k == 0 {
                assert(schedule_days_spec(days, qs).0[0] == r1.0);
            } else {
                assert(schedule_days_spec(days, qs).0[k] == rest.0[k - 1]);
                assert(days.drop_first()[k - 1] == days[k]);
            }
        }
    }
}

/// Seat capacity over a whole run: every slot of every day gains at most its
/// category's configured number of units.
pub proof fn lemma_schedule_weeks_capacity(weeks: Seq<WeekView>, qs: QueuesView)
    ensures
        schedule_weeks_spec(weeks, qs).0.len() == weeks.len(),
        forall|i: int, j: int|
            0 <= i < weeks.len() && 0 <= j < weeks[i].days.len() ==> same_shape(
                #[trigger] weeks[i].days[j],
                schedule_weeks_spec(weeks, qs).0[i].days[j],
            ),
        forall|i: int, j: int, c: int|
            0 <= i < weeks.len() && 0 <= j < weeks[i].days.len() && 0 <= c
                < weeks[i].days[j].len() ==> filled_with_units(
                weeks[i].days[j][c].participants,
                #[trigger] schedule_weeks_spec(weeks, qs).0[i].days[j][c].participants,
                slot_capacity(weeks[i].days[j][c].course_type),
            ),
    decreases weeks.len(),
{
    if weeks.len() > 0 {
        let r1 = schedule_week_spec(weeks[0], qs);
        lemma_schedule_days_capacity(weeks[0].days, qs);
        lemma_schedule_weeks_capacity(weeks.drop_first(), r1.1);
        let rest = schedule_weeks_spec(weeks.drop_first(), r1.1);
        assert forall|i: int, j: int|
            0 <= i < weeks.len() && 0 <= j < weeks[i].days.len() implies same_shape(
            #[trigger] weeks[i].days[j],
            schedule_weeks_spec(weeks, qs).0[i].days[j],
        ) by {
            if i == 0 {
                assert(schedule_weeks_spec(weeks, qs).0[0] == r1.0);
            } else {
                assert(schedule_weeks_spec(weeks, qs).0[i] == rest.0[i - 1]);
                assert(weeks.drop_first()[i - 1] == weeks[i]);
            }
        }
        assert forall|i: int, j: int, c: int|
            0 <= i < weeks.len() && 0 <= j < weeks[i].days.len() && 0 <= c
                < weeks[i].days[j].len() implies filled_with_units(
            weeks[i].days[j][c].participants,
            #[trigger] schedule_weeks_spec(weeks, qs).0[i].days[j][c].participants,
            slot_capacity(weeks[i].days[j][c].course_type),
        ) by {
            if i == 0 {
                assert(schedule_weeks_spec(weeks, qs).0[0] == r1.0);
            } else {
                assert(schedule_weeks_spec(weeks, qs).0[i] == rest.0[i - 1]);
                assert(weeks.drop_first()[i - 1] == weeks[i]);
            }
        }
    }
}

/// Seat capacity, end to end: every slot of a calendar the calendar builder
/// produced ends the run holding exactly the members of at most its
/// category's configured number of units.
pub proof fn lemma_schedule_seat_capacity(
    weeks: Seq<WeekView>,
    start: u64,
    end: u64,
    holidays: Seq<JsonHoliday>,
    qs: QueuesView,
)
    requires
        calendar_built(weeks, start, end, holidays),
    ensures
        forall|i: int, j: int, c: int|
            0 <= i < weeks.len() && 0 <= j < weeks[i].days.len() && 0 <= c
                < weeks[i].days[j].len() ==> filled_with_units(
                Seq::<u64>::empty(),
                #[trigger] schedule_weeks_spec(weeks, qs).0[i].days[j][c].participants,
                slot_capacity(weeks[i].days[j][c].course_type),
            ),
{
    lemma_schedule_weeks_capacity(weeks, qs);
    assert forall|i: int, j: int, c: int|
        0 <= i < weeks.len() && 0 <= j < weeks[i].days.len() && 0 <= c
            < weeks[i].days[j].len() implies filled_with_units(
        Seq::<u64>::empty(),
        #[trigger] schedule_weeks_spec(weeks, qs).0[i].days[j][c].participants,
        slot_capacity(weeks[i].days[j][c].course_type),
    ) by {
        assert(weeks[i].days[j] == day_courses_for(holidays, (start + i) as u64, j as u64));
        assert(all_slots_empty(full_day_courses()));
        assert(all_slots_empty(holiday_week_courses()));
        assert(all_slots_empty(Seq::<CourseView>::empty()));
        assert(weeks[i].days[j][c].participants =~= Seq::<u64>::empty());
    }
}

/// End to end: scheduling a calendar that the calendar builder produced, with
/// any queues, keeps its shape, books no participant into two slots sharing a
/// start time on any day, and only reorders every rotation queue.
pub proof fn lemma_schedule_built_calendar(
    weeks: Seq<WeekView>,
    start: u64,
    end: u64,
    holidays: Seq<JsonHoliday>,
    qs: QueuesView,
)
    requires
        calendar_built(weeks, start, end, holidays),
    ensures
        schedule_weeks_spec(weeks, qs).0.len() == weeks.len(),
        forall|i: int|
            0 <= i < weeks.len() ==> (#[trigger] schedule_weeks_spec(weeks, qs).0[i]).number
                == weeks[i].number && schedule_weeks_spec(weeks, qs).0[i].days.len()
                == weeks[i].days.len(),
        forall|i: int, j: int|
            0 <= i < weeks.len() && 0 <= j < weeks[i].days.len() ==> no_double_booking(
                #[trigger] schedule_weeks_spec(weeks, qs).0[i].days[j],
            ),
        schedule_weeks_spec(weeks, qs).1.curriculum.to_multiset() == qs.curriculum.to_multiset(),
        schedule_weeks_spec(weeks, qs).1.exkurs.to_multiset() == qs.exkurs.to_multiset(),
        schedule_weeks_spec(weeks, qs).1.zahnersatz_first.to_multiset()
            == qs.zahnersatz_first.to_multiset(),
        schedule_weeks_spec(weeks, qs).1.zahnersatz_second.to_multiset()
            == qs.zahnersatz_second.to_multiset(),
        schedule_weeks_spec(weeks, qs).1.zahnerhalt.to_multiset() == qs.zahnerhalt.to_multiset(),
{
    lemma_built_calendar_no_double_booking(weeks, start, end, holidays);
    lemma_schedule_weeks_preserves(weeks, qs);
}

} // verus!
