use vstd::prelude::*;
use vstd::string::StringExecFns;
use vstd::string::StrSliceExecFns;
use crate::clock::{Timestamp, spec_timestamp, format_timestamp};
use crate::numfmt::{spec_decimal, spec_fixed2, decimal_string, fixed2_string, push_char};
use crate::student::{Student, spec_average, spec_grade};

verus! {

/// One text-drawing instruction of the report page: what to draw, at
/// which font size in points, and where, in millimetres from the page's
/// lower left corner.
pub struct TextOp {
    pub text: String,
    pub size_pt: u32,
    pub x_mm: u32,
    pub y_mm: u32,
}

/// A name with every space turned into an underscore.
pub open spec fn spec_sanitize(s: Seq<char>) -> Seq<char> {
    s.map_values(|c: char| if c == ' ' { '_' } else { c })
}

fn labeled(label: &str, value: &str) -> (r: String)
    ensures
        r@ == label@ + value@,
{
    let mut s = String::from_str(label);
    s.append(value);
    s
}

/// The console summary: five labeled lines giving the record's fields
/// and its derived metrics, marks and average with two decimal places.
pub fn summary_lines(s: &Student) -> (r: Vec<String>)
    requires
        s.wf(),
    ensures
        r@.len() == 5,
        r@[0]@ == "Name             : "@ + s.name@,
        r@[1]@ == "Total Marks      : "@ + spec_fixed2(s.total_marks as int),
        r@[2]@ == "Subjects         : "@ + spec_decimal(s.num_subjects as nat),
        r@[3]@ == "Average          : "@ + spec_fixed2(
            spec_average(s.total_marks as int, s.num_subjects as int),
        ),
        r@[4]@ == "Grade            : "@ + spec_grade(
            s.total_marks as int,
            s.num_subjects as int,
        ).spec_letter(),
{
    let mut lines: Vec<String> = Vec::new();
    lines.push(labeled("Name             : ", s.name.as_str()));
    let marks = fixed2_string(s.total_marks);
    lines.push(labeled("Total Marks      : ", marks.as_str()));
    let subjects = decimal_string(s.num_subjects as u64);
    lines.push(labeled("Subjects         : ", subjects.as_str()));
    let avg = fixed2_string(s.average());
    lines.push(labeled("Average          : ", avg.as_str()));
    let letter = s.grade().letter();
    lines.push(labeled("Grade            : ", letter.as_str()));
    lines
}

/// The report page's text, top to bottom: a large title near the top,
/// six uniform info lines stacked at a fixed left offset with a constant
/// vertical step, and an isolated signature line near the bottom.
pub fn report_ops(s: &Student, ts: &Timestamp) -> (r: Vec<TextOp>)
    requires
        s.wf(),
        ts.wf(),
    ensures
        r@.len() == 8,
        r@[0].text@ == "\u{1f393} Student Report Card"@,
        r@[0].size_pt == 32 && r@[0].x_mm == 35 && r@[0].y_mm == 250,
        r@[1].text@ == "Name            : "@ + s.name@,
        r@[2].text@ == "Total Marks     : "@ + spec_fixed2(s.total_marks as int),
        r@[3].text@ == "Subjects        : "@ + spec_decimal(s.num_subjects as nat),
        r@[4].text@ == "Average         : "@ + spec_fixed2(
            spec_average(s.total_marks as int, s.num_subjects as int),
        ),
        r@[5].text@ == "Grade           : "@ + spec_grade(
            s.total_marks as int,
            s.num_subjects as int,
        ).spec_letter(),
        r@[6].text@ == "Generated On    : "@ + spec_timestamp(*ts),
        r@[1].size_pt == 18 && r@[1].x_mm == 40 && r@[1].y_mm == 200,
        r@[2].size_pt == 18 && r@[2].x_mm == 40 && r@[2].y_mm == 180,
        r@[3].size_pt == 18 && r@[3].x_mm == 40 && r@[3].y_mm == 160,
        r@[4].size_pt == 18 && r@[4].x_mm == 40 && r@[4].y_mm == 140,
        r@[5].size_pt == 18 && r@[5].x_mm == 40 && r@[5].y_mm == 120,
        r@[6].size_pt == 18 && r@[6].x_mm == 40 && r@[6].y_mm == 100,
        r@[7].text@ == "Signature ____________________"@,
        r@[7].size_pt == 14 && r@[7].x_mm == 40 && r@[7].y_mm == 40,
{
    let mut ops: Vec<TextOp> = Vec::new();
    ops.push(
        TextOp {
            text: String::from_str("\u{1f393} Student Report Card"),
            size_pt: 32,
            x_mm: 35,
            y_mm: 250,
        },
    );
    ops.push(
        TextOp { text: labeled("Name            : ", s.name.as_str()), size_pt: 18, x_mm: 40, y_mm: 200 },
    );
    let marks = fixed2_string(s.total_marks);
    ops.push(
        TextOp {
            text: labeled("Total Marks     : ", marks.as_str()),
            size_pt: 18,
            x_mm: 40,
            y_mm: 180,
        },
    );
    let subjects = decimal_string(s.num_subjects as u64);
    ops.push(
        TextOp {
            text: labeled("Subjects        : ", subjects.as_str()),
            size_pt: 18,
            x_mm: 40,
            y_mm: 160,
        },
    );
    let avg = fixed2_string(s.average());
    ops.push(
        TextOp {
            text: labeled("Average         : ", avg.as_str()),
            size_pt: 18,
            x_mm: 40,
            y_mm: 140,
        },
    );
    let letter = s.grade().letter();
    ops.push(
        TextOp {
            text: labeled("Grade           : ", letter.as_str()),
            size_pt: 18,
            x_mm: 40,
            y_mm: 120,
        },
    );
    let stamp = format_timestamp(ts);
    ops.push(
        TextOp {
            text: labeled("Generated On    : ", stamp.as_str()),
            size_pt: 18,
            x_mm: 40,
            y_mm: 100,
        },
    );
    ops.push(
        TextOp {
            text: String::from_str("Signature ____________________"),
            size_pt: 14,
            x_mm: 40,
            y_mm: 40,
        },
    );
    ops
}

/// The output document's name: the student's name with each space
/// replaced by an underscore, followed by the document extension.
pub fn output_filename(name: &str) -> (r: String)
    ensures
        r@ == spec_sanitize(name@) + ".pdf"@,
{
    let n: usize = name.unicode_len();
    let mut out = String::new();
    let mut i: usize = 0;
    proof {
        assert(out@ =~= spec_sanitize(name@.subrange(0, 0)));
    }
    while i < n
        invariant
            i <= n,
            n == name@.len(),
            out@ == spec_sanitize(name@.subrange(0, i as int)),
        decreases n - i,
    {
        let c = name.get_char(i);
        if c == ' ' {
            push_char(&mut out, '_');
        } else {
            push_char(&mut out, c);
        }
        proof {
            assert(spec_sanitize(name@.subrange(0, i + 1)) =~= spec_sanitize(
                name@.subrange(0, i as int),
            ).push(if name@[i as int] == ' ' { '_' } else { name@[i as int] }));
        }
        i = i + 1;
    }
    proof {
        assert(name@.subrange(0, n as int) =~= name@);
    }
    out.append(".pdf");
    out
}

} // verus!
