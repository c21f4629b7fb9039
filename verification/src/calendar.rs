//! The calendar builder: the ordered sequence of weeks, days and empty slots
//! for an inclusive week range and a holiday table.
//!
//! A week with a holiday entry loses its Curriculum slot on every weekday,
//! and a weekday listed in that entry holds no slots at all.  Every other day
//! holds one slot per category and start time, with an empty assigned list.

use vstd::prelude::*;

use crate::types::CourseType;
use crate::types::CourseView;
use crate::types::Day;
use crate::types::JsonData;
use crate::types::JsonHoliday;
use crate::types::ScheduleError;
use crate::types::Week;
use crate::types::calendar_view;

verus! {

/// The slots of an ordinary day: every category at its configured start
/// times, all still empty.
pub open spec fn full_day_courses() -> Seq<CourseView> {
    seq![
        CourseView { beginning: 7, course_type: CourseType::Curriculum, participants: Seq::empty() },
        CourseView { beginning: 7, course_type: CourseType::Exkurs, participants: Seq::empty() },
        CourseView {
            beginning: 7,
            course_type: CourseType::Zahnerhalt,
            participants: Seq::empty(),
        },
        CourseView {
            beginning: 7,
            course_type: CourseType::Zahnersatz,
            participants: Seq::empty(),
        },
        CourseView {
            beginning: 16,
            course_type: CourseType::Zahnerhalt,
            participants: Seq::empty(),
        },
        CourseView {
            beginning: 16,
            course_type: CourseType::Zahnersatz,
            participants: Seq::empty(),
        },
    ]
}

/// The slots of a working day inside a week that has a holiday entry: the
/// same as an ordinary day, but with the Curriculum slot suppressed.
pub open spec fn holiday_week_courses() -> Seq<CourseView> {
    seq![
        CourseView { beginning: 7, course_type: CourseType::Exkurs, participants: Seq::empty() },
        CourseView {
            beginning: 7,
            course_type: CourseType::Zahnerhalt,
            participants: Seq::empty(),
        },
        CourseView {
            beginning: 7,
            course_type: CourseType::Zahnersatz,
            participants: Seq::empty(),
        },
        CourseView {
            beginning: 16,
            course_type: CourseType::Zahnerhalt,
            participants: Seq::empty(),
        },
        CourseView {
            beginning: 16,
            course_type: CourseType::Zahnersatz,
            participants: Seq::empty(),
        },
    ]
}

/// Index of the first holiday entry for week `w`, or -1 if the week has
/// none.  Only the first entry of a week counts; later duplicates are
/// ignored.
pub open spec fn first_holiday_entry(holidays: Seq<JsonHoliday>, w: u64) -> int
    decreases holidays.len(),
{
    if holidays.len() == 0 {
        -1
    } else if holidays[0].woche == w {
        0
    } else {
        let r = first_holiday_entry(holidays.drop_first(), w);
        if r == -1 {
            -1
        } else {
            1 + r
        }
    }
}

/// Week `w` has a holiday entry.
pub open spec fn week_is_holiday_week(holidays: Seq<JsonHoliday>, w: u64) -> bool {
    first_holiday_entry(holidays, w) != -1
}

/// Weekday `d` (0 = Monday .. 4 = Friday) of week `w` is listed as a holiday.
pub open spec fn day_is_holiday(holidays: Seq<JsonHoliday>, w: u64, d: u64) -> bool {
    week_is_holiday_week(holidays, w) && holidays[first_holiday_entry(
        holidays,
    w,
    )].tage@.contains(d)
}

/// The slots that weekday `d` of week `w` receives under the holiday table.
pub open spec fn day_courses_for(holidays: Seq<JsonHoliday>, w: u64, d: u64) -> Seq<CourseView> {
    if day_is_holiday(holidays, w, d) {
        Seq::empty()
    } else if week_is_holiday_week(holidays, w) {
        holiday_week_courses()
    } else {
        full_day_courses()
    }
}

/// A fully built calendar for the inclusive range `start..=end`: one week per
/// number in range, five days per week, each day's slots as the holiday table
/// demands, all assigned lists empty.
pub open spec fn calendar_built(
    weeks: Seq<crate::types::WeekView>,
    start: u64,
    end: u64,
    holidays: Seq<JsonHoliday>,
) -> bool {
    &&& weeks.len() == end - start + 1
    &&& forall|i: int| 0 <= i < weeks.len() ==> (#[trigger] weeks[i]).number == start + i
    &&& forall|i: int| 0 <= i < weeks.len() ==> (#[trigger] weeks[i]).days.len() == 5
    &&& forall|i: int, j: int|
        0 <= i < weeks.len() && 0 <= j < 5 ==> (#[trigger] weeks[i].days[j]) == day_courses_for(
            holidays,
            (start + i) as u64,
            j as u64,
        )
}

/// [`first_holiday_entry`] is the unique least index whose entry names the
/// week.
proof fn lemma_first_holiday_entry_is(holidays: Seq<JsonHoliday>, w: u64, i: int)
    requires
        0 <= i <= holidays.len(),
        forall|k: int| 0 <= k < i ==> (#[trigger] holidays[k]).woche != w,
        i == holidays.len() || holidays[i].woche == w,
    ensures
        first_holiday_entry(holidays, w) == if i == holidays.len() {
            -1int
        } else {
            i
        },
    decreases holidays.len(),
{
    if i > 0 {
        assert forall|k: int| 0 <= k < i - 1 implies (#[trigger] holidays.drop_first()[k]).woche
            != w by {
            assert(holidays.drop_first()[k] == holidays[k + 1]);
        }
        if i < holidays.len() {
            assert(holidays.drop_first()[i - 1] == holidays[i]);
        }
        lemma_first_holiday_entry_is(holidays.drop_first(), w, i - 1);
    }
}

/// Finds the first holiday entry for week `w`.
fn find_holiday_entry(holidays: &Vec<JsonHoliday>, w: u64) -> (r: Option<usize>)
    ensures
        match r {
            Option::Some(i) => i < holidays@.len() && first_holiday_entry(holidays@, w) == i as int,
            Option::None => first_holiday_entry(holidays@, w) == -1,
        },
{
    let mut i: usize = 0;
    while i < holidays.len()
        invariant
            i <= holidays@.len(),
            forall|k: int| 0 <= k < i ==> (#[trigger] holidays@[k]).woche != w,
        decreases holidays@.len() - i,
    {
        if holidays[i].woche == w {
            proof {
                lemma_first_holiday_entry_is(holidays@, w, i as int);
            }
            return Some(i);
        }
        i += 1;
    }
    proof {
        lemma_first_holiday_entry_is(holidays@, w, holidays@.len() as int);
    }
    None
}

/// Reports whether the list of holiday weekdays contains `d`.
fn tage_contain(tage: &Vec<u64>, d: u64) -> (r: bool)
    ensures
        r == tage@.contains(d),
{
    let mut i: usize = 0;
    while i < tage.len()
        invariant
            i <= tage@.len(),
            forall|k: int| 0 <= k < i ==> tage@[k] != d,
        decreases tage@.len() - i,
    {
        if tage[i] == d {
            return true;
        }
        i += 1;
    }
    false
}

/// Builds one empty slot.
fn make_course(beginning: u8, course_type: CourseType) -> (c: crate::types::Course)
    ensures
        c@ == (CourseView { beginning, course_type, participants: Seq::<u64>::empty() }),
{
    crate::types::Course { beginning, course_type, participants: Vec::new() }
}

/// Builds weekday `d` of week `w`: no slots on a listed holiday, all slots
/// but Curriculum on the other days of a week with a holiday entry, and the
/// full slot list otherwise.
fn build_day(holidays: &Vec<JsonHoliday>, w: u64, d: u64) -> (day: Day)
    ensures
        day@ == day_courses_for(holidays@, w, d),
{
    let mut courses: Vec<crate::types::Course> = Vec::new();
    match find_holiday_entry(holidays, w) {
        Some(e) => {
            if !tage_contain(&holidays[e].tage, d) {
                courses.push(make_course(7, CourseType::Exkurs));
                courses.push(make_course(7, CourseType::Zahnerhalt));
                courses.push(make_course(7, CourseType::Zahnersatz));
                courses.push(make_course(16, CourseType::Zahnerhalt));
                courses.push(make_course(16, CourseType::Zahnersatz));
                let day = Day { courses };
                proof {
                    assert(day@ =~= holiday_week_courses());
                }
                return day;
            }
        },
        None => {
            courses.push(make_course(7, CourseType::Curriculum));
            courses.push(make_course(7, CourseType::Exkurs));
            courses.push(make_course(7, CourseType::Zahnerhalt));
            courses.push(make_course(7, CourseType::Zahnersatz));
            courses.push(make_course(16, CourseType::Zahnerhalt));
            courses.push(make_course(16, CourseType::Zahnersatz));
            let day = Day { courses };
            proof {
                assert(day@ =~= full_day_courses());
            }
            return day;
        },
    }
    let day = Day { courses };
    proof {
        assert(day@ =~= Seq::<CourseView>::empty());
    }
    day
}

/// Builds week `w`: its five days, Monday to Friday.
fn build_week(holidays: &Vec<JsonHoliday>, w: u64) -> (week: Week)
    ensures
        week@.number == w,
        week@.days.len() == 5,
        forall|j: int| 0 <= j < 5 ==> week@.days[j] == day_courses_for(holidays@, w, j as u64),
{
    let mut days: Vec<Day> = Vec::new();
    let mut j: u64 = 0;
    while j < 5
        invariant
            j <= 5,
            days@.len() == j,
            forall|k: int| 0 <= k < j ==> (#[trigger] days@[k])@ == day_courses_for(
                holidays@,
                w,
                k as u64,
            ),
        decreases 5 - j,
    {
        days.push(build_day(holidays, w, j));
        j += 1;
    }
    Week { number: w, days }
}

/// Generates all weeks of the configured inclusive range and their children:
/// every day gets all of its slots unless holiday rules suppress them, and
/// every slot starts with an empty list of assigned participants.  Fails with
/// `InvalidRange` — before any allocation can begin — exactly when the range
/// starts after it ends.
pub fn get_weeks(parsed_data: &JsonData) -> (r: Result<Vec<Week>, ScheduleError>)
    ensures
        match r {
            Result::Ok(weeks) => parsed_data.wochen.kw_anfang <= parsed_data.wochen.kw_ende
                && calendar_built(
                calendar_view(weeks@),
                parsed_data.wochen.kw_anfang,
                parsed_data.wochen.kw_ende,
                parsed_data.feiertage@,
            ),
            Result::Err(e) => e == ScheduleError::InvalidRange && parsed_data.wochen.kw_anfang
                > parsed_data.wochen.kw_ende,
        },
{
    let start = parsed_data.wochen.kw_anfang;
    let end = parsed_data.wochen.kw_ende;
    if start > end {
        return Err(ScheduleError::InvalidRange);
    }
    let mut weeks: Vec<Week> = Vec::new();
    let mut i: u64 = start;
    while i < end
        invariant
            start <= i <= end,
            weeks@.len() == i - start,
            forall|k: int| 0 <= k < weeks@.len() ==> (#[trigger] weeks@[k])@.number == start + k,
            forall|k: int| 0 <= k < weeks@.len() ==> (#[trigger] weeks@[k])@.days.len() == 5,
            forall|k: int, j: int|
                0 <= k < weeks@.len() && 0 <= j < 5 ==> #[trigger] (weeks@[k])@.days[j]
                    == day_courses_for(parsed_data.feiertage@, (start + k) as u64, j as u64),
        decreases end - i,
    {
        weeks.push(build_week(&parsed_data.feiertage, i));
        i += 1;
    }
    weeks.push(build_week(&parsed_data.feiertage, end));
    Ok(weeks)
}

} // verus!
