use report_card::student::{Grade, Student};

fn record(total_hundredths: i64, subjects: u32) -> Student {
    Student::new(String::from("test"), total_hundredths, subjects)
}

#[test]
fn scenario_asha_rao() {
    let s = Student::new(String::from("Asha Rao"), 43200, 5);
    assert_eq!(s.average(), 8640);
    assert_eq!(s.grade(), Grade::B);
    assert_eq!(s.grade().letter(), "B");
}

#[test]
fn scenario_boundary_a() {
    let s = record(45000, 5);
    assert_eq!(s.average(), 9000);
    assert_eq!(s.grade(), Grade::A);
}

#[test]
fn scenario_zero_marks() {
    let s = record(0, 1);
    assert_eq!(s.average(), 0);
    assert_eq!(s.grade(), Grade::D);
}

#[test]
fn grade_boundaries() {
    assert_eq!(record(9000, 1).grade(), Grade::A);
    assert_eq!(record(8999, 1).grade(), Grade::B);
    assert_eq!(record(7500, 1).grade(), Grade::B);
    assert_eq!(record(7499, 1).grade(), Grade::C);
    assert_eq!(record(6000, 1).grade(), Grade::C);
    assert_eq!(record(5999, 1).grade(), Grade::D);
}

#[test]
fn grade_letters() {
    assert_eq!(Grade::A.letter(), "A");
    assert_eq!(Grade::B.letter(), "B");
    assert_eq!(Grade::C.letter(), "C");
    assert_eq!(Grade::D.letter(), "D");
}

#[test]
fn metrics_idempotent() {
    let s = record(43200, 5);
    assert_eq!(s.average(), s.average());
    assert_eq!(s.grade(), s.grade());
}

#[test]
fn average_rounds_to_nearest_hundredth() {
    // 100 / 3 = 33.33... hundredths, rounds down to 33.
    assert_eq!(record(100, 3).average(), 33);
    // 50 / 4 = 12.5 hundredths, the half rounds away from zero.
    assert_eq!(record(50, 4).average(), 13);
    assert_eq!(record(-50, 4).average(), -13);
    // Negative totals divide symmetrically.
    assert_eq!(record(-100, 3).average(), -33);
}

#[test]
fn negative_total_grade_is_d() {
    let s = record(-500, 2);
    assert_eq!(s.grade(), Grade::D);
}
