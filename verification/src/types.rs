//! The data model: course categories, slots, days, weeks, rotation groups,
//! the normalized configuration handed in by the caller, and the spec-level
//! views and predicates that the contracts of the builders and the scheduler
//! are stated over.

use vstd::prelude::*;

verus! {

/// A recurring activity type with its own seat capacity, schedule and
/// rotation queue.
#[derive(Clone, Copy, Debug, PartialEq, Eq, Structural)]
pub enum CourseType {
    Curriculum,
    Exkurs,
    Zahnerhalt,
    Zahnersatz,
}

/// One concrete occurrence of a course category on one day, identified by its
/// start hour.  `participants` is the ordered list of participant ids that the
/// scheduler has assigned to it so far.
#[derive(Debug)]
pub struct Course {
    pub beginning: u8,
    pub course_type: CourseType,
    pub participants: Vec<u64>,
}

/// The slots of a single weekday, in a stable order.
#[derive(Debug)]
pub struct Day {
    pub courses: Vec<Course>,
}

/// A calendar week: its week number and its five weekdays (Monday to Friday).
#[derive(Debug)]
pub struct Week {
    pub number: u64,
    pub days: Vec<Day>,
}

/// One schedulable unit of a rotation queue: an ordered, fixed set of
/// participant ids, tagged with the category it rotates for.  A category that
/// rotates individuals uses one-member groups.
#[derive(Debug)]
pub struct Group {
    pub group_type: CourseType,
    pub participants: Vec<u64>,
}

/// The errors of the two builders.
#[derive(Clone, Copy, Debug, PartialEq, Eq, Structural)]
pub enum ScheduleError {
    /// The configured week range has its start after its end.
    InvalidRange,
    /// A configured group references a participant id outside the roster.
    UnknownParticipant,
}

/// Normalized configuration: the inclusive week range.
#[derive(Debug)]
pub struct JsonWeeks {
    pub kw_anfang: u64,
    pub kw_ende: u64,
}

/// Normalized configuration: the holiday entry of one week.  `tage` lists the
/// weekday indices (0 = Monday .. 4 = Friday) that are holidays in week
/// `woche`.
#[derive(Debug)]
pub struct JsonHoliday {
    pub woche: u64,
    pub tage: Vec<u64>,
}

/// The whole normalized configuration of a run, as the caller hands it over
/// after reading and validating its input.
#[derive(Debug)]
pub struct JsonData {
    pub studenten_anzahl: u64,
    pub wochen: JsonWeeks,
    pub feiertage: Vec<JsonHoliday>,
    pub exkurs_gruppen: Vec<Vec<u64>>,
    pub curriculum_gruppen: Vec<Vec<u64>>,
}

/// Mathematical model of a `Course`.
pub struct CourseView {
    pub beginning: u8,
    pub course_type: CourseType,
    pub participants: Seq<u64>,
}

/// Mathematical model of a `Group`.
pub struct GroupView {
    pub group_type: CourseType,
    pub participants: Seq<u64>,
}

/// Mathematical model of a `Week`.
pub struct WeekView {
    pub number: u64,
    pub days: Seq<Seq<CourseView>>,
}

impl View for Course {
    type V = CourseView;

    open spec fn view(&self) -> CourseView {
        CourseView {
            beginning: self.beginning,
            course_type: self.course_type,
            participants: self.participants@,
        }
    }
}

impl View for Day {
    type V = Seq<CourseView>;

    open spec fn view(&self) -> Seq<CourseView> {
        self.courses@.map_values(|c: Course| c@)
    }
}

impl View for Week {
    type V = WeekView;

    open spec fn view(&self) -> WeekView {
        WeekView { number: self.number, days: self.days@.map_values(|d: Day| d@) }
    }
}

impl View for Group {
    type V = GroupView;

    open spec fn view(&self) -> GroupView {
        GroupView { group_type: self.group_type, participants: self.participants@ }
    }
}

/// The model of a rotation queue: the views of its units, front first.
pub open spec fn queue_view(q: Seq<Group>) -> Seq<GroupView> {
    q.map_values(|g: Group| g@)
}

/// The model of a whole calendar: the views of its weeks, in order.
pub open spec fn calendar_view(weeks: Seq<Week>) -> Seq<WeekView> {
    weeks.map_values(|w: Week| w@)
}

/// Participant `p` is already booked in some slot of `day` that starts at
/// `beginning`.
pub open spec fn spec_occupied(day: Seq<CourseView>, beginning: u8, p: u64) -> bool {
    exists|i: int|
        0 <= i < day.len() && day[i].beginning == beginning && day[i].participants.contains(p)
}

/// A unit is occupied for a slot if any of its members is.
pub open spec fn spec_group_occupied(day: Seq<CourseView>, beginning: u8, g: GroupView) -> bool {
    exists|k: int| 0 <= k < g.participants.len() && spec_occupied(day, beginning, g.participants[k])
}

/// `day` contains at least one slot of the given category.
pub open spec fn spec_course_is_today(day: Seq<CourseView>, course_type: CourseType) -> bool {
    exists|i: int| 0 <= i < day.len() && day[i].course_type == course_type
}

/// No participant id appears in the assigned lists of two distinct slots of
/// `day` that share a start time.
pub open spec fn no_double_booking(day: Seq<CourseView>) -> bool {
    forall|i: int, j: int, p: u64|
        0 <= i < day.len() && 0 <= j < day.len() && i != j && day[i].beginning == day[j].beginning
            && #[trigger] day[i].participants.contains(p) ==> !(#[trigger] day[j].participants.contains(
            p,
        ))
}

} // verus!
