use alban::occupancy::course_is_today;
use alban::occupancy::group_is_occupied;
use alban::occupancy::is_occupied;
use alban::scheduler::distribute_course;
use alban::scheduler::distribute_courses;
use alban::types::Course;
use alban::types::CourseType;
use alban::types::Day;
use alban::types::Group;

fn course(beginning: u8, course_type: CourseType, participants: Vec<u64>) -> Course {
    Course { beginning, course_type, participants }
}

fn unit(course_type: CourseType, participants: Vec<u64>) -> Group {
    Group { group_type: course_type, participants }
}

fn curriculum_day() -> Day {
    Day { courses: vec![course(7, CourseType::Curriculum, vec![])] }
}

fn queue_members(queue: &Vec<Group>) -> Vec<Vec<u64>> {
    queue.iter().map(|g| g.participants.clone()).collect()
}

#[test]
fn occupancy_scans_all_slots_of_a_start_time() {
    let day = Day {
        courses: vec![
            course(7, CourseType::Curriculum, vec![1, 2]),
            course(7, CourseType::Exkurs, vec![3]),
            course(16, CourseType::Zahnersatz, vec![4]),
        ],
    };
    assert!(is_occupied(1, 7, &day));
    assert!(is_occupied(3, 7, &day));
    assert!(!is_occupied(4, 7, &day));
    assert!(is_occupied(4, 16, &day));
    assert!(!is_occupied(1, 16, &day));
    assert!(!is_occupied(5, 7, &day));
    let g = unit(CourseType::Exkurs, vec![5, 3]);
    assert!(group_is_occupied(&g, 7, &day));
    assert!(!group_is_occupied(&g, 16, &day));
    assert!(course_is_today(CourseType::Exkurs, &day));
    assert!(!course_is_today(CourseType::Zahnerhalt, &day));
}

#[test]
fn round_robin_over_four_cycles() {
    // Queue [A, B, C] with no occupancy conflicts: four single-seat cycles
    // (one fresh slot each) serve A, B, C, A and leave the queue as [B, C, A].
    let mut queue = vec![
        unit(CourseType::Curriculum, vec![1]),
        unit(CourseType::Curriculum, vec![2]),
        unit(CourseType::Curriculum, vec![3]),
    ];
    let mut served = Vec::new();
    for _ in 0..4 {
        let mut day = curriculum_day();
        distribute_course(&mut day, 0, &mut queue, 1);
        served.push(day.courses[0].participants.clone());
    }
    assert_eq!(served, vec![vec![1], vec![2], vec![3], vec![1]]);
    assert_eq!(queue_members(&queue), vec![vec![2], vec![3], vec![1]]);
}

#[test]
fn starved_seat_stays_unfilled_and_queue_unmoved() {
    // Every unit is occupied at 7 o'clock, so the Curriculum seat stays empty
    // and the queue keeps its order.
    let mut day = Day {
        courses: vec![
            course(7, CourseType::Curriculum, vec![]),
            course(7, CourseType::Exkurs, vec![1, 2, 3]),
        ],
    };
    let mut queue = vec![
        unit(CourseType::Curriculum, vec![1]),
        unit(CourseType::Curriculum, vec![2]),
        unit(CourseType::Curriculum, vec![3]),
    ];
    distribute_course(&mut day, 0, &mut queue, 1);
    assert!(day.courses[0].participants.is_empty());
    assert_eq!(day.courses[1].participants, vec![1, 2, 3]);
    assert_eq!(queue_members(&queue), vec![vec![1], vec![2], vec![3]]);
}

#[test]
fn occupied_prefix_is_skipped_in_order() {
    // The front unit is busy at 7; the next one is served and goes to the
    // very back, behind the skipped one.
    let mut day = Day {
        courses: vec![
            course(7, CourseType::Curriculum, vec![]),
            course(7, CourseType::Exkurs, vec![1]),
        ],
    };
    let mut queue = vec![
        unit(CourseType::Curriculum, vec![1]),
        unit(CourseType::Curriculum, vec![2]),
        unit(CourseType::Curriculum, vec![3]),
    ];
    distribute_course(&mut day, 0, &mut queue, 1);
    assert_eq!(day.courses[0].participants, vec![2]);
    assert_eq!(queue_members(&queue), vec![vec![1], vec![3], vec![2]]);
}

#[test]
fn one_slot_fills_several_seats() {
    let mut day = Day { courses: vec![course(7, CourseType::Zahnerhalt, vec![])] };
    let mut queue = vec![
        unit(CourseType::Zahnerhalt, vec![1]),
        unit(CourseType::Zahnerhalt, vec![2]),
        unit(CourseType::Zahnerhalt, vec![3]),
    ];
    distribute_course(&mut day, 0, &mut queue, 2);
    assert_eq!(day.courses[0].participants, vec![1, 2]);
    assert_eq!(queue_members(&queue), vec![vec![3], vec![1], vec![2]]);
}

#[test]
fn capacity_beyond_eligible_units_leaves_seats_unfilled() {
    // Three seats, two units: the third seat finds everyone already booked
    // at this start time and stays empty.
    let mut day = Day { courses: vec![course(7, CourseType::Zahnerhalt, vec![])] };
    let mut queue =
        vec![unit(CourseType::Zahnerhalt, vec![1]), unit(CourseType::Zahnerhalt, vec![2])];
    distribute_course(&mut day, 0, &mut queue, 3);
    assert_eq!(day.courses[0].participants, vec![1, 2]);
    assert_eq!(queue_members(&queue), vec![vec![1], vec![2]]);
}

#[test]
fn empty_queue_fills_nothing() {
    let mut day = curriculum_day();
    let mut queue: Vec<Group> = Vec::new();
    distribute_course(&mut day, 0, &mut queue, 3);
    assert!(day.courses[0].participants.is_empty());
    assert!(queue.is_empty());
}

#[test]
fn group_assigns_every_member() {
    let mut day = curriculum_day();
    let mut queue =
        vec![unit(CourseType::Curriculum, vec![1, 2]), unit(CourseType::Curriculum, vec![3, 4])];
    distribute_course(&mut day, 0, &mut queue, 1);
    assert_eq!(day.courses[0].participants, vec![1, 2]);
    assert_eq!(queue_members(&queue), vec![vec![3, 4], vec![1, 2]]);
}

#[test]
fn three_day_curriculum_scenario() {
    // Roster 1..6 as 3 groups of 2, one seat per day, three conflict-free
    // days: the groups are served in order and the queue ends in its
    // original relative order, each group rotated to the back once.
    let mut queue = vec![
        unit(CourseType::Curriculum, vec![1, 2]),
        unit(CourseType::Curriculum, vec![3, 4]),
        unit(CourseType::Curriculum, vec![5, 6]),
    ];
    let mut served = Vec::new();
    for _ in 0..3 {
        let mut day = curriculum_day();
        distribute_courses(CourseType::Curriculum, &mut day, &mut queue);
        served.push(day.courses[0].participants.clone());
    }
    assert_eq!(served, vec![vec![1, 2], vec![3, 4], vec![5, 6]]);
    assert_eq!(queue_members(&queue), vec![vec![1, 2], vec![3, 4], vec![5, 6]]);
}

#[test]
fn absent_category_rotates_nothing() {
    // A day without a Curriculum slot (the holiday rule produces such days)
    // leaves the Curriculum queue untouched.
    let mut day = Day {
        courses: vec![
            course(7, CourseType::Exkurs, vec![]),
            course(7, CourseType::Zahnerhalt, vec![]),
        ],
    };
    let mut queue =
        vec![unit(CourseType::Curriculum, vec![1, 2]), unit(CourseType::Curriculum, vec![3, 4])];
    distribute_courses(CourseType::Curriculum, &mut day, &mut queue);
    assert!(!course_is_today(CourseType::Curriculum, &day));
    assert!(day.courses.iter().all(|c| c.participants.is_empty()));
    assert_eq!(queue_members(&queue), vec![vec![1, 2], vec![3, 4]]);
}

#[test]
fn zahnersatz_fills_both_start_times_with_half_capacity() {
    let mut day = Day {
        courses: vec![
            course(7, CourseType::Zahnersatz, vec![]),
            course(16, CourseType::Zahnersatz, vec![]),
        ],
    };
    let mut queue: Vec<Group> =
        (1..=7).map(|id| unit(CourseType::Zahnersatz, vec![id])).collect();
    distribute_courses(CourseType::Zahnersatz, &mut day, &mut queue);
    // Five seats at 7 o'clock serve 1..5 and rotate them to the back; the
    // five seats at 16 o'clock then continue round-robin from 6.
    assert_eq!(day.courses[0].participants, vec![1, 2, 3, 4, 5]);
    assert_eq!(day.courses[1].participants, vec![6, 7, 1, 2, 3]);
}
