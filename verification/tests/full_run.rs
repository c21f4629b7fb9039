use alban::calendar::get_weeks;
use alban::roster::get_curriculum_groups;
use alban::roster::get_exkurs_groups;
use alban::roster::get_students;
use alban::roster::get_zahnerhalt_groups;
use alban::roster::get_zahnersatz_groups;
use alban::scheduler::RotationQueues;
use alban::scheduler::assigned_participants;
use alban::scheduler::schedule;
use alban::types::CourseType;
use alban::types::JsonData;
use alban::types::JsonHoliday;
use alban::types::JsonWeeks;

fn one_week_config() -> JsonData {
    JsonData {
        studenten_anzahl: 6,
        wochen: JsonWeeks { kw_anfang: 1, kw_ende: 1 },
        feiertage: vec![],
        exkurs_gruppen: vec![vec![1, 2, 3], vec![4, 5, 6]],
        curriculum_gruppen: vec![vec![1, 2], vec![3, 4], vec![5, 6]],
    }
}

fn build_queues(data: &JsonData) -> RotationQueues {
    let students = get_students(data);
    let (zahnersatz_first, zahnersatz_second) = get_zahnersatz_groups(&students);
    RotationQueues {
        curriculum: get_curriculum_groups(data, &students).unwrap(),
        exkurs: get_exkurs_groups(data, &students).unwrap(),
        zahnersatz_first,
        zahnersatz_second,
        zahnerhalt: get_zahnerhalt_groups(&students),
    }
}

#[test]
fn full_week_run() {
    let data = one_week_config();
    let mut weeks = get_weeks(&data).unwrap();
    let mut queues = build_queues(&data);
    schedule(&mut weeks, &mut queues);
    let week = &weeks[0];

    // Curriculum, one seat per day, rotates its three groups round-robin.
    let curriculum: Vec<Vec<u64>> = (0..5)
        .map(|d| assigned_participants(week, CourseType::Curriculum, 7, d))
        .collect();
    assert_eq!(
        curriculum,
        vec![vec![1, 2], vec![3, 4], vec![5, 6], vec![1, 2], vec![3, 4]]
    );

    // Monday, in detail.  Exkurs group [1,2,3] is blocked by the Curriculum
    // booking of 1 and 2, so [4,5,6] is served.
    assert_eq!(assigned_participants(week, CourseType::Exkurs, 7, 0), vec![4, 5, 6]);
    // Zahnersatz at 7: of the first half [1,2,3] only 3 is still free; the
    // second half [4,5,6] is fully booked by Exkurs.
    assert_eq!(assigned_participants(week, CourseType::Zahnersatz, 7, 0), vec![3]);
    // Zahnersatz at 16: nobody is booked then, so both halves are served in
    // roster order.
    assert_eq!(
        assigned_participants(week, CourseType::Zahnersatz, 16, 0),
        vec![1, 2, 3, 4, 5, 6]
    );
    // Zahnerhalt runs last: by then every participant is booked at 7 and at
    // 16, so both its slots stay empty.
    assert_eq!(assigned_participants(week, CourseType::Zahnerhalt, 7, 0), Vec::<u64>::new());
    assert_eq!(assigned_participants(week, CourseType::Zahnerhalt, 16, 0), Vec::<u64>::new());
}

#[test]
fn no_double_booking_across_a_run() {
    let data = one_week_config();
    let mut weeks = get_weeks(&data).unwrap();
    let mut queues = build_queues(&data);
    schedule(&mut weeks, &mut queues);
    for week in &weeks {
        for day in &week.days {
            for beginning in [7u8, 16] {
                let mut seen = Vec::new();
                for c in day.courses.iter().filter(|c| c.beginning == beginning) {
                    for p in &c.participants {
                        assert!(!seen.contains(p), "participant {p} double-booked at {beginning}");
                        seen.push(*p);
                    }
                }
            }
        }
    }
}

#[test]
fn seat_capacity_is_respected() {
    let data = one_week_config();
    let mut weeks = get_weeks(&data).unwrap();
    let mut queues = build_queues(&data);
    schedule(&mut weeks, &mut queues);
    for week in &weeks {
        for day in &week.days {
            for c in &day.courses {
                match c.course_type {
                    // One group of two per Curriculum or Exkurs slot.
                    CourseType::Curriculum => assert!(c.participants.len() <= 2),
                    CourseType::Exkurs => assert!(c.participants.len() <= 3),
                    // Individuals: at most the configured seat count.
                    CourseType::Zahnerhalt => assert!(c.participants.len() <= 11),
                    CourseType::Zahnersatz => assert!(c.participants.len() <= 10),
                }
            }
        }
    }
}

#[test]
fn queues_are_only_reordered() {
    let data = one_week_config();
    let mut weeks = get_weeks(&data).unwrap();
    let mut queues = build_queues(&data);
    schedule(&mut weeks, &mut queues);
    let mut curriculum: Vec<Vec<u64>> =
        queues.curriculum.iter().map(|g| g.participants.clone()).collect();
    curriculum.sort();
    assert_eq!(curriculum, vec![vec![1, 2], vec![3, 4], vec![5, 6]]);
    assert_eq!(queues.exkurs.len(), 2);
    assert_eq!(queues.zahnersatz_first.len(), 3);
    assert_eq!(queues.zahnersatz_second.len(), 3);
    assert_eq!(queues.zahnerhalt.len(), 6);
}

#[test]
fn holiday_day_yields_empty_assignments() {
    let mut data = one_week_config();
    data.feiertage = vec![JsonHoliday { woche: 1, tage: vec![0] }];
    let mut weeks = get_weeks(&data).unwrap();
    let mut queues = build_queues(&data);
    let curriculum_before: Vec<Vec<u64>> =
        queues.curriculum.iter().map(|g| g.participants.clone()).collect();
    schedule(&mut weeks, &mut queues);
    let week = &weeks[0];
    // The listed holiday has no slots at all.
    for beginning in [7u8, 16] {
        assert_eq!(
            assigned_participants(week, CourseType::Curriculum, beginning, 0),
            Vec::<u64>::new()
        );
        assert_eq!(
            assigned_participants(week, CourseType::Zahnersatz, beginning, 0),
            Vec::<u64>::new()
        );
    }
    // Curriculum is suppressed for the whole holiday week, so its queue never
    // rotates.
    let curriculum_after: Vec<Vec<u64>> =
        queues.curriculum.iter().map(|g| g.participants.clone()).collect();
    assert_eq!(curriculum_after, curriculum_before);
}
