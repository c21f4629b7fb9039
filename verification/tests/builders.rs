use alban::calendar::get_weeks;
use alban::roster::get_curriculum_groups;
use alban::roster::get_exkurs_groups;
use alban::roster::get_students;
use alban::roster::get_zahnerhalt_groups;
use alban::roster::get_zahnersatz_groups;
use alban::scheduler::get_zahnerhalt_seat_count;
use alban::scheduler::get_zahnersatz_seat_count;
use alban::types::CourseType;
use alban::types::JsonData;
use alban::types::JsonHoliday;
use alban::types::JsonWeeks;
use alban::types::ScheduleError;

fn config(start: u64, end: u64, feiertage: Vec<JsonHoliday>) -> JsonData {
    JsonData {
        studenten_anzahl: 6,
        wochen: JsonWeeks { kw_anfang: start, kw_ende: end },
        feiertage,
        exkurs_gruppen: vec![],
        curriculum_gruppen: vec![],
    }
}

#[test]
fn weeks_cover_range_with_five_days() {
    let weeks = get_weeks(&config(1, 3, vec![])).unwrap();
    assert_eq!(weeks.len(), 3);
    for (i, week) in weeks.iter().enumerate() {
        assert_eq!(week.number, 1 + i as u64);
        assert_eq!(week.days.len(), 5);
    }
}

#[test]
fn ordinary_day_holds_every_category() {
    let weeks = get_weeks(&config(7, 7, vec![])).unwrap();
    assert_eq!(weeks.len(), 1);
    let day = &weeks[0].days[2];
    let expected = [
        (7u8, CourseType::Curriculum),
        (7, CourseType::Exkurs),
        (7, CourseType::Zahnerhalt),
        (7, CourseType::Zahnersatz),
        (16, CourseType::Zahnerhalt),
        (16, CourseType::Zahnersatz),
    ];
    assert_eq!(day.courses.len(), expected.len());
    for (course, (beginning, course_type)) in day.courses.iter().zip(expected.iter()) {
        assert_eq!(course.beginning, *beginning);
        assert_eq!(course.course_type, *course_type);
        assert!(course.participants.is_empty());
    }
}

#[test]
fn invalid_range_is_rejected() {
    let r = get_weeks(&config(5, 4, vec![]));
    assert_eq!(r.unwrap_err(), ScheduleError::InvalidRange);
}

#[test]
fn holiday_week_suppresses_curriculum_and_listed_day() {
    let feiertage = vec![JsonHoliday { woche: 2, tage: vec![0] }];
    let weeks = get_weeks(&config(1, 2, feiertage)).unwrap();
    // Week 1 has no holiday entry: ordinary days everywhere.
    assert!(weeks[0].days.iter().all(|d| d.courses.len() == 6));
    // Week 2, Monday is the listed holiday: no slots at all.
    assert!(weeks[1].days[0].courses.is_empty());
    // The other days of week 2 run everything but Curriculum.
    for day in &weeks[1].days[1..] {
        assert_eq!(day.courses.len(), 5);
        assert!(day.courses.iter().all(|c| c.course_type != CourseType::Curriculum));
    }
}

#[test]
fn only_first_holiday_entry_of_a_week_counts() {
    let feiertage = vec![
        JsonHoliday { woche: 1, tage: vec![0] },
        JsonHoliday { woche: 1, tage: vec![1] },
    ];
    let weeks = get_weeks(&config(1, 1, feiertage)).unwrap();
    assert!(weeks[0].days[0].courses.is_empty());
    // Day 1 is only listed in the ignored duplicate entry.
    assert_eq!(weeks[0].days[1].courses.len(), 5);
}

#[test]
fn students_are_consecutive_ids() {
    let students = get_students(&config(1, 1, vec![]));
    assert_eq!(students, vec![1, 2, 3, 4, 5, 6]);
}

#[test]
fn empty_roster_is_allowed() {
    let mut data = config(1, 1, vec![]);
    data.studenten_anzahl = 0;
    assert!(get_students(&data).is_empty());
    let (first, second) = get_zahnersatz_groups(&vec![]);
    assert!(first.is_empty());
    assert!(second.is_empty());
    assert!(get_zahnerhalt_groups(&vec![]).is_empty());
}

#[test]
fn curriculum_groups_follow_input_order() {
    let mut data = config(1, 1, vec![]);
    data.curriculum_gruppen = vec![vec![1, 2], vec![3, 4], vec![5, 6]];
    let students = get_students(&data);
    let groups = get_curriculum_groups(&data, &students).unwrap();
    assert_eq!(groups.len(), 3);
    assert_eq!(groups[0].participants, vec![1, 2]);
    assert_eq!(groups[1].participants, vec![3, 4]);
    assert_eq!(groups[2].participants, vec![5, 6]);
    assert!(groups.iter().all(|g| g.group_type == CourseType::Curriculum));
}

#[test]
fn unknown_participant_is_rejected() {
    let mut data = config(1, 1, vec![]);
    data.curriculum_gruppen = vec![vec![1, 7]];
    let students = get_students(&data);
    let r = get_curriculum_groups(&data, &students);
    assert_eq!(r.unwrap_err(), ScheduleError::UnknownParticipant);
}

#[test]
fn exkurs_groups_follow_input_order() {
    let mut data = config(1, 1, vec![]);
    data.exkurs_gruppen = vec![vec![1, 2, 3], vec![4, 5, 6]];
    let students = get_students(&data);
    let groups = get_exkurs_groups(&data, &students).unwrap();
    assert_eq!(groups.len(), 2);
    assert_eq!(groups[0].participants, vec![1, 2, 3]);
    assert_eq!(groups[1].participants, vec![4, 5, 6]);
    assert!(groups.iter().all(|g| g.group_type == CourseType::Exkurs));
}

#[test]
fn unknown_exkurs_participant_is_rejected() {
    let mut data = config(1, 1, vec![]);
    data.exkurs_gruppen = vec![vec![9]];
    let students = get_students(&data);
    let r = get_exkurs_groups(&data, &students);
    assert_eq!(r.unwrap_err(), ScheduleError::UnknownParticipant);
}

#[test]
fn zahnersatz_splits_roster_at_midpoint() {
    let (first, second) = get_zahnersatz_groups(&vec![1, 2, 3, 4, 5, 6]);
    let firsts: Vec<Vec<u64>> = first.iter().map(|g| g.participants.clone()).collect();
    let seconds: Vec<Vec<u64>> = second.iter().map(|g| g.participants.clone()).collect();
    assert_eq!(firsts, vec![vec![1], vec![2], vec![3]]);
    assert_eq!(seconds, vec![vec![4], vec![5], vec![6]]);
    assert!(first.iter().chain(second.iter()).all(|g| g.group_type == CourseType::Zahnersatz));
}

#[test]
fn zahnersatz_split_of_odd_roster_favours_second_half() {
    let (first, second) = get_zahnersatz_groups(&vec![1, 2, 3, 4, 5]);
    assert_eq!(first.len(), 2);
    assert_eq!(second.len(), 3);
    assert_eq!(first[0].participants, vec![1]);
    assert_eq!(second[0].participants, vec![3]);
}

#[test]
fn zahnerhalt_rotates_individuals() {
    let groups = get_zahnerhalt_groups(&vec![1, 2, 3]);
    assert_eq!(groups.len(), 3);
    for (i, g) in groups.iter().enumerate() {
        assert_eq!(g.participants, vec![1 + i as u64]);
        assert_eq!(g.group_type, CourseType::Zahnerhalt);
    }
}

#[test]
fn configured_seat_counts() {
    assert_eq!(get_zahnerhalt_seat_count(), 11);
    assert_eq!(get_zahnersatz_seat_count(), 10);
}
