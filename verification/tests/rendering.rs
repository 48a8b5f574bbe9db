use report_card::clock::{current_timestamp, format_timestamp, Timestamp};
use report_card::numfmt::{decimal_string, fixed2_string, pad2_string};
use report_card::report::{output_filename, report_ops, summary_lines};
use report_card::student::Student;

fn stamp() -> Timestamp {
    Timestamp { year: 2024, month: 6, day: 1, hour: 14, minute: 23, second: 5 }
}

#[test]
fn decimal_rendering() {
    assert_eq!(decimal_string(0), "0");
    assert_eq!(decimal_string(7), "7");
    assert_eq!(decimal_string(10), "10");
    assert_eq!(decimal_string(9876543210), "9876543210");
}

#[test]
fn two_digit_padding() {
    assert_eq!(pad2_string(0), "00");
    assert_eq!(pad2_string(7), "07");
    assert_eq!(pad2_string(42), "42");
}

#[test]
fn fixed_point_rendering() {
    assert_eq!(fixed2_string(8640), "86.40");
    assert_eq!(fixed2_string(0), "0.00");
    assert_eq!(fixed2_string(5), "0.05");
    assert_eq!(fixed2_string(-50), "-0.50");
    assert_eq!(fixed2_string(-12345), "-123.45");
    assert_eq!(fixed2_string(100), "1.00");
}

#[test]
fn timestamp_rendering() {
    assert_eq!(format_timestamp(&stamp()), "2024-06-01 14:23:05");
    let early = Timestamp { year: 999, month: 12, day: 31, hour: 0, minute: 0, second: 0 };
    assert_eq!(format_timestamp(&early), "0999-12-31 00:00:00");
    let ancient = Timestamp { year: -44, month: 3, day: 15, hour: 12, minute: 0, second: 0 };
    assert_eq!(format_timestamp(&ancient), "-0044-03-15 12:00:00");
}

#[test]
fn clock_fields_are_in_range() {
    let t = current_timestamp();
    assert!((1..=12).contains(&t.month));
    assert!((1..=31).contains(&t.day));
    assert!(t.hour <= 23);
    assert!(t.minute <= 59);
    assert!(t.second <= 59);
}

#[test]
fn filename_replaces_spaces() {
    assert_eq!(output_filename("Asha Rao"), "Asha_Rao.pdf");
    assert_eq!(output_filename("A  B"), "A__B.pdf");
    assert_eq!(output_filename("plain"), "plain.pdf");
    assert_eq!(output_filename(""), ".pdf");
    assert_eq!(output_filename(" lead and trail "), "_lead_and_trail_.pdf");
}

#[test]
fn summary_lines_scenario() {
    let s = Student::new(String::from("Asha Rao"), 43200, 5);
    let lines = summary_lines(&s);
    assert_eq!(lines.len(), 5);
    assert_eq!(lines[0], "Name             : Asha Rao");
    assert_eq!(lines[1], "Total Marks      : 432.00");
    assert_eq!(lines[2], "Subjects         : 5");
    assert_eq!(lines[3], "Average          : 86.40");
    assert_eq!(lines[4], "Grade            : B");
}

#[test]
fn report_page_layout() {
    let s = Student::new(String::from("Asha Rao"), 43200, 5);
    let ops = report_ops(&s, &stamp());
    assert_eq!(ops.len(), 8);

    assert_eq!(ops[0].text, "\u{1f393} Student Report Card");
    assert_eq!((ops[0].size_pt, ops[0].x_mm, ops[0].y_mm), (32, 35, 250));

    assert_eq!(ops[1].text, "Name            : Asha Rao");
    assert_eq!(ops[2].text, "Total Marks     : 432.00");
    assert_eq!(ops[3].text, "Subjects        : 5");
    assert_eq!(ops[4].text, "Average         : 86.40");
    assert_eq!(ops[5].text, "Grade           : B");
    assert_eq!(ops[6].text, "Generated On    : 2024-06-01 14:23:05");
    for (i, op) in ops.iter().enumerate().take(7).skip(1) {
        assert_eq!(op.size_pt, 18);
        assert_eq!(op.x_mm, 40);
        assert_eq!(op.y_mm as usize, 200 - 20 * (i - 1));
    }

    assert_eq!(ops[7].text, "Signature ____________________");
    assert_eq!((ops[7].size_pt, ops[7].x_mm, ops[7].y_mm), (14, 40, 40));
}
