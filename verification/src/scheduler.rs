//! The rotation scheduler.  For each slot it fills the configured number of
//! seats by scanning the category's rotation queue from the front, skipping
//! the occupied prefix, serving the first eligible unit and moving it to the
//! very back of the queue.
//!
//! Every exec function here is pinned to an exact functional model:
//! [`run_seats`] says, seat by seat, what one slot's allocation does to the
//! day and to the queue.

use vstd::prelude::*;

use crate::occupancy::course_is_today;
use crate::occupancy::group_is_occupied;
use crate::types::CourseType;
use crate::types::CourseView;
use crate::types::Day;
use crate::types::Group;
use crate::types::GroupView;
use crate::types::Week;
use crate::types::WeekView;
use crate::types::calendar_view;
use crate::types::queue_view;
use crate::types::spec_group_occupied;

verus! {

/// The queue after serving the unit at position `s`: the skipped prefix keeps
/// its order, the rest moves up, the served unit goes to the very back.
pub open spec fn rotate_to_back(q: Seq<GroupView>, s: int) -> Seq<GroupView>
    recommends
        0 <= s < q.len(),
{
    q.remove(s).push(q[s])
}

/// Length of the maximal prefix of `q` whose units are all occupied for a
/// slot of `day` starting at `beginning`.
pub open spec fn occupied_prefix_len(day: Seq<CourseView>, beginning: u8, q: Seq<GroupView>) -> int
    decreases q.len(),
{
    if q.len() == 0 {
        0
    } else if !spec_group_occupied(day, beginning, q[0]) {
        0
    } else {
        1 + occupied_prefix_len(day, beginning, q.drop_first())
    }
}

/// `day` with the given member ids appended to the assigned list of the slot
/// at `cidx`; every other slot is untouched.
pub open spec fn assign_to_slot(day: Seq<CourseView>, cidx: int, members: Seq<u64>) -> Seq<
    CourseView,
>
    recommends
        0 <= cidx < day.len(),
{
    day.update(
        cidx,
        CourseView {
            beginning: day[cidx].beginning,
            course_type: day[cidx].course_type,
            participants: day[cidx].participants + members,
        },
    )
}

/// The model of one slot's allocation: `seats` rounds, each of which skips
/// the occupied prefix of the queue, and — if an eligible unit exists —
/// assigns that unit's members to the slot at `cidx` and rotates the unit to
/// the back of the queue.  A round without an eligible unit leaves its seat
/// unfilled and changes nothing.
pub open spec fn run_seats(
    day: Seq<CourseView>,
    cidx: int,
    q: Seq<GroupView>,
    seats: nat,
) -> (Seq<CourseView>, Seq<GroupView>)
    recommends
        0 <= cidx < day.len(),
    decreases seats,
{
    if seats == 0 {
        (day, q)
    } else {
        let s = occupied_prefix_len(day, day[cidx].beginning, q);
        if s == q.len() {
            run_seats(day, cidx, q, (seats - 1) as nat)
        } else {
            run_seats(
                assign_to_slot(day, cidx, q[s].participants),
                cidx,
                rotate_to_back(q, s),
                (seats - 1) as nat,
            )
        }
    }
}

/// The occupied prefix is never longer than the queue, all its units are
/// occupied, and the unit right after it — if any — is not.
pub proof fn lemma_occupied_prefix_len(day: Seq<CourseView>, beginning: u8, q: Seq<GroupView>)
    ensures
        0 <= occupied_prefix_len(day, beginning, q) <= q.len(),
        forall|k: int|
            0 <= k < occupied_prefix_len(day, beginning, q) ==> spec_group_occupied(
                day,
                beginning,
                q[k],
            ),
        occupied_prefix_len(day, beginning, q) < q.len() ==> !spec_group_occupied(
            day,
            beginning,
            q[occupied_prefix_len(day, beginning, q)],
        ),
    decreases q.len(),
{
    if q.len() != 0 && spec_group_occupied(day, beginning, q[0]) {
        lemma_occupied_prefix_len(day, beginning, q.drop_first());
        assert forall|k: int|
            0 <= k < occupied_prefix_len(day, beginning, q) implies spec_group_occupied(
            day,
            beginning,
            q[k],
        ) by {
            if k > 0 {
                assert(spec_group_occupied(day, beginning, q.drop_first()[k - 1]));
            }
        }
    }
}

/// The occupied-prefix length is the unique `s` below which every unit is
/// occupied and at which the queue ends or an eligible unit stands.
pub proof fn lemma_occupied_prefix_len_is(
    day: Seq<CourseView>,
    beginning: u8,
    q: Seq<GroupView>,
    s: int,
)
    requires
        0 <= s <= q.len(),
        forall|k: int| 0 <= k < s ==> spec_group_occupied(day, beginning, #[trigger] q[k]),
        s == q.len() || !spec_group_occupied(day, beginning, q[s]),
    ensures
        occupied_prefix_len(day, beginning, q) == s,
    decreases q.len(),
{
    if s == 0 {
    } else {
        assert(spec_group_occupied(day, beginning, q[0]));
        assert forall|k: int|
            0 <= k < s - 1 implies spec_group_occupied(
            day,
            beginning,
            #[trigger] q.drop_first()[k],
        ) by {
            assert(q.drop_first()[k] == q[k + 1]);
        }
        if s < q.len() {
            assert(q.drop_first()[s - 1] == q[s]);
        }
        lemma_occupied_prefix_len_is(day, beginning, q.drop_first(), s - 1);
    }
}

/// Counts the prefix of occupied units that the scheduler skips for the slot
/// starting at `beginning`.
#[verifier::loop_isolation(true)]
fn occupied_prefix(day: &Day, beginning: u8, q: &Vec<Group>) -> (s: usize)
    ensures
        s == occupied_prefix_len(day@, beginning, queue_view(q@)),
        s <= q@.len(),
{
    let mut s: usize = 0;
    loop
        invariant
            s <= q@.len(),
            forall|k: int|
                0 <= k < s ==> spec_group_occupied(day@, beginning, #[trigger] queue_view(q@)[k]),
        ensures
            s <= q@.len(),
            forall|k: int|
                0 <= k < s ==> spec_group_occupied(day@, beginning, #[trigger] queue_view(q@)[k]),
            s == q@.len() || !spec_group_occupied(day@, beginning, queue_view(q@)[s as int]),
        decreases q@.len() - s,
    {
        if s == q.len() {
            break ;
        }
        if !group_is_occupied(&q[s], beginning, day) {
            break ;
        }
        s += 1;
    }
    proof {
        lemma_occupied_prefix_len_is(day@, beginning, queue_view(q@), s as int);
    }
    s
}

/// Fills up to `space_count` seats of the slot at `cidx` from the rotation
/// queue `participants`, exactly as [`run_seats`] describes: per seat, the
/// occupied prefix of the queue is skipped in order, the first eligible unit
/// is served — its members are appended to the slot's assigned list and the
/// unit moves to the back of the queue — and a seat with no eligible unit is
/// left unfilled.
pub fn distribute_course(day: &mut Day, cidx: usize, participants: &mut Vec<Group>, space_count: u8)
    requires
        cidx < old(day)@.len(),
    ensures
        final(day)@ == run_seats(
            old(day)@,
            cidx as int,
            queue_view(old(participants)@),
            space_count as nat,
        ).0,
        queue_view(final(participants)@) == run_seats(
            old(day)@,
            cidx as int,
            queue_view(old(participants)@),
            space_count as nat,
        ).1,
        final(day)@.len() == old(day)@.len(),
{
    let ghost day0 = day@;
    let ghost q0 = queue_view(participants@);
    let mut space: u8 = space_count;
    while space > 0
        invariant
            day@.len() == day0.len(),
            run_seats(day0, cidx as int, q0, space_count as nat) == run_seats(
                day@,
                cidx as int,
                queue_view(participants@),
                space as nat,
            ),
        decreases space,
    {
        let ghost day_it = day@;
        let ghost q_it = queue_view(participants@);
        let beginning = day.courses[cidx].beginning;
        let splitter = occupied_prefix(day, beginning, participants);
        if splitter < participants.len() {
            let g = participants.remove(splitter);
            let ghost gv = g@;
            let mut c = day.courses.remove(cidx);
            let ghost c0 = c@;
            let mut j: usize = 0;
            while j < g.participants.len()
                invariant
                    j <= g.participants@.len(),
                    c.beginning == c0.beginning,
                    c.course_type == c0.course_type,
                    c.participants@ == c0.participants + g.participants@.take(j as int),
                decreases g.participants@.len() - j,
            {
                c.participants.push(g.participants[j]);
                proof {
                    assert(c.participants@ =~= c0.participants + g.participants@.take(
                        j as int + 1,
                    ));
                }
                j += 1;
            }
            day.courses.insert(cidx, c);
            participants.push(g);
            proof {
                assert(g.participants@.take(g.participants@.len() as int) =~= g.participants@);
                assert(day@ =~= assign_to_slot(day_it, cidx as int, gv.participants));
                assert(queue_view(participants@) =~= rotate_to_back(q_it, splitter as int));
            }
        }
        space -= 1;
        proof {
            assert(run_seats(day_it, cidx as int, q_it, space as nat + 1) == run_seats(
                day@,
                cidx as int,
                queue_view(participants@),
                space as nat,
            ));
        }
    }
}

/// Seat capacity of one Zahnerhalt slot, given by the client (available work
/// stations).
pub const ZAHNERHALT_SEAT_COUNT: u8 = 11;

/// Seat capacity of one Zahnersatz day (split evenly over its two slots),
/// given by the client (available work stations).
pub const ZAHNERSATZ_SEAT_COUNT: u8 = 10;

/// The configured Zahnerhalt seat capacity.
pub fn get_zahnerhalt_seat_count() -> (r: u8)
    ensures
        r == ZAHNERHALT_SEAT_COUNT,
{
    ZAHNERHALT_SEAT_COUNT
}

/// The configured Zahnersatz seat capacity.
pub fn get_zahnersatz_seat_count() -> (r: u8)
    ensures
        r == ZAHNERSATZ_SEAT_COUNT,
{
    ZAHNERSATZ_SEAT_COUNT
}

/// The slot at index `cidx` of `day` is of the given category and — when a
/// start time is demanded — starts then.
pub open spec fn course_matches(c: CourseView, course_type: CourseType, beginning: Option<u8>) -> bool {
    c.course_type == course_type && match beginning {
        Option::Some(b) => c.beginning == b,
        Option::None => true,
    }
}

/// Index of the first slot of `day` matching the category (and start time, if
/// one is demanded), or -1 if there is none.
pub open spec fn first_course(day: Seq<CourseView>, course_type: CourseType, beginning: Option<u8>) -> int
    decreases day.len(),
{
    if day.len() == 0 {
        -1
    } else if course_matches(day[0], course_type, beginning) {
        0
    } else {
        let r = first_course(day.drop_first(), course_type, beginning);
        if r == -1 {
            -1
        } else {
            1 + r
        }
    }
}

/// What [`first_course`] returns: -1 exactly when nothing matches, else the
/// least matching index.
pub proof fn lemma_first_course(day: Seq<CourseView>, course_type: CourseType, beginning: Option<u8>)
    ensures
        first_course(day, course_type, beginning) == -1 ==> forall|k: int|
            0 <= k < day.len() ==> !course_matches(#[trigger] day[k], course_type, beginning),
        first_course(day, course_type, beginning) != -1 ==> {
            let r = first_course(day, course_type, beginning);
            &&& 0 <= r < day.len()
            &&& course_matches(day[r], course_type, beginning)
            &&& forall|k: int|
                0 <= k < r ==> !course_matches(#[trigger] day[k], course_type, beginning)
        },
    decreases day.len(),
{
    if day.len() != 0 && !course_matches(day[0], course_type, beginning) {
        lemma_first_course(day.drop_first(), course_type, beginning);
        let r = first_course(day, course_type, beginning);
        if r == -1 {
            assert forall|k: int|
                0 <= k < day.len() implies !course_matches(
                #[trigger] day[k],
                course_type,
                beginning,
            ) by {
                if k > 0 {
                    assert(!course_matches(day.drop_first()[k - 1], course_type, beginning));
                }
            }
        } else {
            assert forall|k: int|
                0 <= k < r implies !course_matches(#[trigger] day[k], course_type, beginning) by {
                if k > 0 {
                    assert(!course_matches(day.drop_first()[k - 1], course_type, beginning));
                }
            }
        }
    }
}

/// [`first_course`] is the unique least matching index.
pub proof fn lemma_first_course_is(
    day: Seq<CourseView>,
    course_type: CourseType,
    beginning: Option<u8>,
    i: int,
)
    requires
        0 <= i <= day.len(),
        forall|k: int| 0 <= k < i ==> !course_matches(#[trigger] day[k], course_type, beginning),
        i == day.len() || course_matches(day[i], course_type, beginning),
    ensures
        first_course(day, course_type, beginning) == if i == day.len() {
            -1int
        } else {
            i
        },
    decreases day.len(),
{
    if i > 0 {
        assert forall|k: int|
            0 <= k < i - 1 implies !course_matches(
            #[trigger] day.drop_first()[k],
            course_type,
            beginning,
        ) by {
            assert(day.drop_first()[k] == day[k + 1]);
        }
        if i < day.len() {
            assert(day.drop_first()[i - 1] == day[i]);
        }
        lemma_first_course_is(day.drop_first(), course_type, beginning, i - 1);
    }
}

/// Finds the first slot of `day` matching the category (and start time, if
/// one is demanded).
fn find_course(day: &Day, course_type: CourseType, beginning: Option<u8>) -> (r: Option<usize>)
    ensures
        match r {
            Option::Some(i) => i < day@.len() && first_course(day@, course_type, beginning)
                == i as int,
            Option::None => first_course(day@, course_type, beginning) == -1,
        },
{
    let mut i: usize = 0;
    while i < day.courses.len()
        invariant
            i <= day@.len(),
            forall|k: int|
                0 <= k < i ==> !course_matches(#[trigger] day@[k], course_type, beginning),
        decreases day@.len() - i,
    {
        let matched = day.courses[i].course_type == course_type && (match beginning {
            Option::Some(b) => day.courses[i].beginning == b,
            Option::None => true,
        });
        if matched {
            proof {
                lemma_first_course_is(day@, course_type, beginning, i as int);
            }
            return Some(i);
        }
        i += 1;
    }
    proof {
        lemma_first_course_is(day@, course_type, beginning, day@.len() as int);
    }
    None
}

/// [`run_seats`] at index `cidx`, or no change at all when `cidx` is -1
/// (no matching slot exists today).
pub open spec fn run_at(day: Seq<CourseView>, cidx: int, q: Seq<GroupView>, seats: nat) -> (
    Seq<CourseView>,
    Seq<GroupView>,
)
    recommends
        cidx == -1 || 0 <= cidx < day.len(),
{
    if cidx == -1 {
        (day, q)
    } else {
        run_seats(day, cidx, q, seats)
    }
}

/// The model of one category's allocation on one day: Curriculum and Exkurs
/// fill one seat of their first slot; Zahnersatz fills half its configured
/// seat capacity at the 7 o'clock slot and half at the 16 o'clock slot;
/// Zahnerhalt fills its full capacity at each of those two slots.  A slot the
/// day does not hold is skipped, and the queue is then left as it stands.
pub open spec fn distribute_courses_spec(
    course_type: CourseType,
    day: Seq<CourseView>,
    q: Seq<GroupView>,
) -> (Seq<CourseView>, Seq<GroupView>) {
    match course_type {
        CourseType::Curriculum => run_at(day, first_course(day, course_type, Option::None), q, 1),
        CourseType::Exkurs => run_at(day, first_course(day, course_type, Option::None), q, 1),
        CourseType::Zahnersatz => {
            let i7 = first_course(day, course_type, Option::Some(7));
            let i16 = first_course(day, course_type, Option::Some(16));
            let r7 = run_at(day, i7, q, (ZAHNERSATZ_SEAT_COUNT / 2) as nat);
            run_at(r7.0, i16, r7.1, (ZAHNERSATZ_SEAT_COUNT / 2) as nat)
        },
        CourseType::Zahnerhalt => {
            let i7 = first_course(day, course_type, Option::Some(7));
            let i16 = first_course(day, course_type, Option::Some(16));
            let r7 = run_at(day, i7, q, ZAHNERHALT_SEAT_COUNT as nat);
            run_at(r7.0, i16, r7.1, ZAHNERHALT_SEAT_COUNT as nat)
        },
    }
}

/// Distributes the queue's units among today's slots of the given category,
/// exactly as [`distribute_courses_spec`] describes.  Served units move to
/// the end of the queue, so that next time they are distributed with the
/// least priority.
pub fn distribute_courses(course_type: CourseType, day: &mut Day, participants: &mut Vec<Group>)
    ensures
        final(day)@ == distribute_courses_spec(
            course_type,
            old(day)@,
            queue_view(old(participants)@),
        ).0,
        queue_view(final(participants)@) == distribute_courses_spec(
            course_type,
            old(day)@,
            queue_view(old(participants)@),
        ).1,
        final(day)@.len() == old(day)@.len(),
{
    if !course_is_today(course_type, day) {
        proof {
            lemma_first_course(day@, course_type, Option::None);
            lemma_first_course(day@, course_type, Option::Some(7));
            lemma_first_course(day@, course_type, Option::Some(16));
        }
        return ;
    }
    match course_type {
        CourseType::Curriculum => {
            if let Some(i) = find_course(day, course_type, None) {
                distribute_course(day, i, participants, 1);
            }
        },
        CourseType::Exkurs => {
            if let Some(i) = find_course(day, course_type, None) {
                distribute_course(day, i, participants, 1);
            }
        },
        CourseType::Zahnersatz => {
            let i7 = find_course(day, course_type, Some(7));
            let i16 = find_course(day, course_type, Some(16));
            if let Some(i) = i7 {
                distribute_course(day, i, participants, get_zahnersatz_seat_count() / 2);
            }
            if let Some(i) = i16 {
                distribute_course(day, i, participants, get_zahnersatz_seat_count() / 2);
            }
        },
        CourseType::Zahnerhalt => {
            let i7 = find_course(day, course_type, Some(7));
            let i16 = find_course(day, course_type, Some(16));
            if let Some(i) = i7 {
                distribute_course(day, i, participants, get_zahnerhalt_seat_count());
            }
            if let Some(i) = i16 {
                distribute_course(day, i, participants, get_zahnerhalt_seat_count());
            }
        },
    }
}

/// The scheduler context: all rotation queues of a run, owned in one place
/// and threaded explicitly through the allocation.  Zahnersatz rotates two
/// parallel sub-queues (the two halves of the roster); every other category
/// has one queue.
#[derive(Debug)]
pub struct RotationQueues {
    pub curriculum: Vec<Group>,
    pub exkurs: Vec<Group>,
    pub zahnersatz_first: Vec<Group>,
    pub zahnersatz_second: Vec<Group>,
    pub zahnerhalt: Vec<Group>,
}

/// Mathematical model of [`RotationQueues`].
pub struct QueuesView {
    pub curriculum: Seq<GroupView>,
    pub exkurs: Seq<GroupView>,
    pub zahnersatz_first: Seq<GroupView>,
    pub zahnersatz_second: Seq<GroupView>,
    pub zahnerhalt: Seq<GroupView>,
}

impl View for RotationQueues {
    type V = QueuesView;

    open spec fn view(&self) -> QueuesView {
        QueuesView {
            curriculum: queue_view(self.curriculum@),
            exkurs: queue_view(self.exkurs@),
            zahnersatz_first: queue_view(self.zahnersatz_first@),
            zahnersatz_second: queue_view(self.zahnersatz_second@),
            zahnerhalt: queue_view(self.zahnerhalt@),
        }
    }
}

/// The model of one day's allocation: the categories run in a stable order —
/// Curriculum, Exkurs, Zahnersatz (first sub-queue, then second), Zahnerhalt
/// — each against its own queue, each seeing the day as the previous one left
/// it.
pub open spec fn schedule_day_spec(day: Seq<CourseView>, qs: QueuesView) -> (
    Seq<CourseView>,
    QueuesView,
) {
    let r1 = distribute_courses_spec(CourseType::Curriculum, day, qs.curriculum);
    let r2 = distribute_courses_spec(CourseType::Exkurs, r1.0, qs.exkurs);
    let r3 = distribute_courses_spec(CourseType::Zahnersatz, r2.0, qs.zahnersatz_first);
    let r4 = distribute_courses_spec(CourseType::Zahnersatz, r3.0, qs.zahnersatz_second);
    let r5 = distribute_courses_spec(CourseType::Zahnerhalt, r4.0, qs.zahnerhalt);
    (
        r5.0,
        QueuesView {
            curriculum: r1.1,
            exkurs: r2.1,
            zahnersatz_first: r3.1,
            zahnersatz_second: r4.1,
            zahnerhalt: r5.1,
        },
    )
}

/// The model of a run over several days, front first.
pub open spec fn schedule_days_spec(days: Seq<Seq<CourseView>>, qs: QueuesView) -> (
    Seq<Seq<CourseView>>,
    QueuesView,
)
    decreases days.len(),
{
    if days.len() == 0 {
        (days, qs)
    } else {
        let r1 = schedule_day_spec(days[0], qs);
        let rest = schedule_days_spec(days.drop_first(), r1.1);
        (seq![r1.0] + rest.0, rest.1)
    }
}

/// The model of a run over one week: its five days in weekday order.
pub open spec fn schedule_week_spec(week: WeekView, qs: QueuesView) -> (WeekView, QueuesView) {
    let r = schedule_days_spec(week.days, qs);
    (WeekView { number: week.number, days: r.0 }, r.1)
}

/// The model of the whole run: the weeks in calendar order.
pub open spec fn schedule_weeks_spec(weeks: Seq<WeekView>, qs: QueuesView) -> (
    Seq<WeekView>,
    QueuesView,
)
    decreases weeks.len(),
{
    if weeks.len() == 0 {
        (weeks, qs)
    } else {
        let r1 = schedule_week_spec(weeks[0], qs);
        let rest = schedule_weeks_spec(weeks.drop_first(), r1.1);
        (seq![r1.0] + rest.0, rest.1)
    }
}

/// Appending one day to a run schedules the run first and that day last.
pub proof fn lemma_schedule_days_snoc(days: Seq<Seq<CourseView>>, day: Seq<CourseView>, qs: QueuesView)
    ensures
        schedule_days_spec(days.push(day), qs) == ({
            let r = schedule_days_spec(days, qs);
            let rd = schedule_day_spec(day, r.1);
            (r.0.push(rd.0), rd.1)
        }),
    decreases days.len(),
{
    let p = days.push(day);
    if days.len() == 0 {
        assert(p[0] == day);
        assert(p.drop_first() =~= days);
        let r1 = schedule_day_spec(day, qs);
        assert(schedule_days_spec(p.drop_first(), r1.1) == (p.drop_first(), r1.1));
        assert(schedule_days_spec(p, qs).0 =~= schedule_days_spec(days, qs).0.push(r1.0));
        assert(schedule_days_spec(p, qs).1 == r1.1);
    } else {
        assert(p[0] == days[0]);
        assert(p.drop_first() =~= days.drop_first().push(day));
        let r1 = schedule_day_spec(days[0], qs);
        lemma_schedule_days_snoc(days.drop_first(), day, r1.1);
        let r = schedule_days_spec(days, qs);
        let rd = schedule_day_spec(day, r.1);
        assert(schedule_days_spec(p, qs).0 == seq![r1.0] + schedule_days_spec(
            days.drop_first().push(day),
            r1.1,
        ).0);
        assert(schedule_days_spec(p, qs).0 =~= r.0.push(rd.0));
        assert(schedule_days_spec(p, qs).1 == rd.1);
    }
}

/// Appending one week to a run schedules the run first and that week last.
pub proof fn lemma_schedule_weeks_snoc(weeks: Seq<WeekView>, week: WeekView, qs: QueuesView)
    ensures
        schedule_weeks_spec(weeks.push(week), qs) == ({
            let r = schedule_weeks_spec(weeks, qs);
            let rw = schedule_week_spec(week, r.1);
            (r.0.push(rw.0), rw.1)
        }),
    decreases weeks.len(),
{
    let p = weeks.push(week);
    if weeks.len() == 0 {
        assert(p[0] == week);
        assert(p.drop_first() =~= weeks);
        let r1 = schedule_week_spec(week, qs);
        assert(schedule_weeks_spec(p.drop_first(), r1.1) == (p.drop_first(), r1.1));
        assert(schedule_weeks_spec(p, qs).0 =~= schedule_weeks_spec(weeks, qs).0.push(r1.0));
        assert(schedule_weeks_spec(p, qs).1 == r1.1);
    } else {
        assert(p[0] == weeks[0]);
        assert(p.drop_first() =~= weeks.drop_first().push(week));
        let r1 = schedule_week_spec(weeks[0], qs);
        lemma_schedule_weeks_snoc(weeks.drop_first(), week, r1.1);
        let r = schedule_weeks_spec(weeks, qs);
        let rw = schedule_week_spec(week, r.1);
        assert(schedule_weeks_spec(p, qs).0 == seq![r1.0] + schedule_weeks_spec(
            weeks.drop_first().push(week),
            r1.1,
        ).0);
        assert(schedule_weeks_spec(p, qs).0 =~= r.0.push(rw.0));
        assert(schedule_weeks_spec(p, qs).1 == rw.1);
    }
}

/// Runs every category's allocation for one day, exactly as
/// [`schedule_day_spec`] describes.
pub fn schedule_day(day: &mut Day, queues: &mut RotationQueues)
    ensures
        final(day)@ == schedule_day_spec(old(day)@, old(queues)@).0,
        final(queues)@ == schedule_day_spec(old(day)@, old(queues)@).1,
{
    distribute_courses(CourseType::Curriculum, day, &mut queues.curriculum);
    distribute_courses(CourseType::Exkurs, day, &mut queues.exkurs);
    distribute_courses(CourseType::Zahnersatz, day, &mut queues.zahnersatz_first);
    distribute_courses(CourseType::Zahnersatz, day, &mut queues.zahnersatz_second);
    distribute_courses(CourseType::Zahnerhalt, day, &mut queues.zahnerhalt);
}

/// Walks the calendar in week-then-weekday order and runs the allocation for
/// every day, exactly as [`schedule_weeks_spec`] describes.  After the call
/// the calendar is filled and the queues stand as the last allocation left
/// them.
pub fn schedule(weeks: &mut Vec<Week>, queues: &mut RotationQueues)
    ensures
        calendar_view(final(weeks)@) == schedule_weeks_spec(
            calendar_view(old(weeks)@),
            old(queues)@,
        ).0,
        final(queues)@ == schedule_weeks_spec(calendar_view(old(weeks)@), old(queues)@).1,
{
    let ghost w0 = calendar_view(weeks@);
    let ghost qs0 = queues@;
    let mut wi: usize = 0;
    while wi < weeks.len()
        invariant
            weeks@.len() == w0.len(),
            wi <= w0.len(),
            forall|k: int| wi <= k < w0.len() ==> calendar_view(weeks@)[k] == w0[k],
            calendar_view(weeks@).take(wi as int) == schedule_weeks_spec(
                w0.take(wi as int),
                qs0,
            ).0,
            queues@ == schedule_weeks_spec(w0.take(wi as int), qs0).1,
        decreases w0.len() - wi,
    {
        let ghost cv_before = calendar_view(weeks@);
        let mut week = weeks.remove(wi);
        let ghost wv = week@;
        let ghost qwk = queues@;
        assert(wv == w0[wi as int]);
        let mut di: usize = 0;
        while di < week.days.len()
            invariant
                week.days@.len() == wv.days.len(),
                week.number == wv.number,
                di <= wv.days.len(),
                forall|k: int| di <= k < wv.days.len() ==> week@.days[k] == wv.days[k],
                week@.days.take(di as int) == schedule_days_spec(wv.days.take(di as int), qwk).0,
                queues@ == schedule_days_spec(wv.days.take(di as int), qwk).1,
            decreases wv.days.len() - di,
        {
            let ghost days_before = week@.days;
            let mut day = week.days.remove(di);
            let ghost dv = day@;
            assert(dv == wv.days[di as int]);
            schedule_day(&mut day, queues);
            week.days.insert(di, day);
            proof {
                lemma_schedule_days_snoc(wv.days.take(di as int), dv, qwk);
                assert(wv.days.take(di as int + 1) =~= wv.days.take(di as int).push(dv));
                assert(week@.days =~= days_before.update(di as int, day@));
                assert(week@.days.take(di as int + 1) =~= schedule_days_spec(
                    wv.days.take(di as int),
                    qwk,
                ).0.push(day@));
            }
            di += 1;
        }
        proof {
            assert(wv.days.take(wv.days.len() as int) =~= wv.days);
            assert(week@.days.take(wv.days.len() as int) =~= week@.days);
            assert(week@ == schedule_week_spec(wv, qwk).0);
        }
        weeks.insert(wi, week);
        proof {
            lemma_schedule_weeks_snoc(w0.take(wi as int), wv, qs0);
            assert(w0.take(wi as int + 1) =~= w0.take(wi as int).push(wv));
            assert(calendar_view(weeks@) =~= cv_before.update(wi as int, week@));
            assert(calendar_view(weeks@).take(wi as int + 1) =~= schedule_weeks_spec(
                w0.take(wi as int),
                qs0,
            ).0.push(week@));
        }
        wi += 1;
    }
    proof {
        assert(w0.take(w0.len() as int) =~= w0);
        assert(calendar_view(weeks@).take(w0.len() as int) =~= calendar_view(weeks@));
    }
}

/// The Result Calendar interface: the ordered list of participant ids that
/// the run assigned to the slot of the given category and start time on one
/// weekday of `week` — empty when that day holds no such slot.
pub fn assigned_participants(
    week: &Week,
    course_type: CourseType,
    beginning: u8,
    weekday: usize,
) -> (r: Vec<u64>)
    requires
        weekday < week@.days.len(),
    ensures
        r@ == ({
            let day = week@.days[weekday as int];
            let i = first_course(day, course_type, Option::Some(beginning));
            if i == -1 {
                Seq::<u64>::empty()
            } else {
                day[i].participants
            }
        }),
{
    let day = &week.days[weekday];
    match find_course(day, course_type, Some(beginning)) {
        Some(i) => {
            let c = &day.courses[i];
            let mut r: Vec<u64> = Vec::new();
            let mut j: usize = 0;
            while j < c.participants.len()
                invariant
                    j <= c.participants@.len(),
                    r@ == c.participants@.take(j as int),
                decreases c.participants@.len() - j,
            {
                r.push(c.participants[j]);
                proof {
                    assert(r@ =~= c.participants@.take(j as int + 1));
                }
                j += 1;
            }
            proof {
                assert(c.participants@.take(c.participants@.len() as int) =~= c.participants@);
            }
            r
        },
        None => Vec::new(),
    }
}

} // verus!
