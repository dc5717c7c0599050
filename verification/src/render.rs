//! Human-readable rendering of the keep/delete report: one opening line per
//! directory, one header per bucket, and one line per file with a deletion
//! marker on the files slated for removal.

use vstd::prelude::*;
use vstd::string::StringExecFns;

use crate::records::FileRecord;
use crate::selection::BucketSelection;
use crate::times::{sort_type_name, spec_sort_name, SortType};

verus! {

pub open spec fn spec_digit(d: nat) -> char {
    if d == 0 {
        '0'
    } else if d == 1 {
        '1'
    } else if d == 2 {
        '2'
    } else if d == 3 {
        '3'
    } else if d == 4 {
        '4'
    } else if d == 5 {
        '5'
    } else if d == 6 {
        '6'
    } else if d == 7 {
        '7'
    } else if d == 8 {
        '8'
    } else {
        '9'
    }
}

/// The decimal digits of `n`, most significant first.
pub open spec fn spec_u64_digits(n: nat) -> Seq<char>
    decreases n,
{
    if n < 10 {
        seq![spec_digit(n)]
    } else {
        spec_u64_digits(n / 10).push(spec_digit(n % 10))
    }
}

fn digit_str(d: u64) -> (r: &'static str)
    requires
        d < 10,
    ensures
        r@ == seq![spec_digit(d as nat)],
{
    proof {
        reveal_strlit("0");
        reveal_strlit("1");
        reveal_strlit("2");
        reveal_strlit("3");
        reveal_strlit("4");
        reveal_strlit("5");
        reveal_strlit("6");
        reveal_strlit("7");
        reveal_strlit("8");
        reveal_strlit("9");
    }
    let r: &'static str = if d == 0 {
        "0"
    } else if d == 1 {
        "1"
    } else if d == 2 {
        "2"
    } else if d == 3 {
        "3"
    } else if d == 4 {
        "4"
    } else if d == 5 {
        "5"
    } else if d == 6 {
        "6"
    } else if d == 7 {
        "7"
    } else if d == 8 {
        "8"
    } else {
        "9"
    };
    proof {
        assert(r@ =~= seq![spec_digit(d as nat)]);
    }
    r
}

/// Renders `n` in decimal.
pub fn u64_to_string(n: u64) -> (s: String)
    ensures
        s@ == spec_u64_digits(n as nat),
    decreases n,
{
    if n < 10 {
        let s = digit_str(n).to_owned();
        s
    } else {
        let mut s = u64_to_string(n / 10);
        s.append(digit_str(n % 10));
        proof {
            assert(s@ =~= spec_u64_digits(n as nat));
        }
        s
    }
}

pub open spec fn spec_separator() -> Seq<char> {
    " | "@
}

pub open spec fn spec_delete_suffix() -> Seq<char> {
    " <-- to be deleted"@
}

pub open spec fn spec_no_delete_line() -> Seq<char> {
    "No files to delete in this group."@
}

pub open spec fn spec_header_line(id: u64) -> Seq<char> {
    "Younger than "@ + spec_u64_digits(id as nat) + " days but older than "@ + spec_u64_digits(
        (id / 2) as nat,
    ) + " days:"@
}

pub open spec fn spec_opening_line(dir: Seq<char>, sort_type: SortType, k: u32) -> Seq<char> {
    "Opening "@ + dir + ", sorting by "@ + spec_sort_name(sort_type) + " and keeping "@
        + spec_u64_digits(k as nat) + " files"@
}

/// A report line for one file: its path, the separator, some rendering of
/// its timestamp, and the deletion marker exactly when the file is slated
/// for removal. The timestamp rendering depends on the machine's time zone,
/// so the relation leaves it open.
pub open spec fn is_file_line(rec: FileRecord, deleted: bool, line: String) -> bool {
    exists|ts: Seq<char>|
        line@ == rec.path@ + spec_separator() + ts + (if deleted {
            spec_delete_suffix()
        } else {
            Seq::<char>::empty()
        })
}

/// Relies on chrono's local-time lookup and `format`: renders a timestamp as
/// a local "year-month-day hour:minute:second" string. The result depends on
/// the machine's time zone, so nothing is assumed of it; `None` comes back
/// only for seconds outside chrono's representable range.
#[verifier::external_body]
fn format_local_time(secs: u64) -> Option<String> {
    match chrono::TimeZone::timestamp_opt(&chrono::Local, secs as i64, 0).single() {
        Some(dt) => Some(dt.format("%Y-%m-%d %H:%M:%S").to_string()),
        None => None,
    }
}

/// One report line for a file. When chrono cannot represent the timestamp, a
/// placeholder stands in for the rendered time.
pub fn render_file_line(rec: &FileRecord, deleted: bool) -> (line: String)
    ensures
        is_file_line(*rec, deleted, line),
{
    let ts = match format_local_time(rec.timestamp) {
        Some(t) => t,
        None => "????-??-?? ??:??:??".to_owned(),
    };
    let mut line = rec.path.clone();
    line.append(" | ");
    line.append(ts.as_str());
    if deleted {
        line.append(" <-- to be deleted");
        proof {
            assert(line@ =~= rec.path@ + spec_separator() + ts@ + spec_delete_suffix());
        }
    } else {
        proof {
            assert(line@ =~= rec.path@ + spec_separator() + ts@ + Seq::<char>::empty());
        }
    }
    line
}

/// The number of report lines one bucket produces: a header, a notice when
/// nothing in the bucket is deleted, and one line per file.
pub open spec fn spec_segment_len(b: BucketSelection) -> int {
    1 + (if b.delete@.len() == 0 {
        1int
    } else {
        0int
    }) + b.keep@.len() + b.delete@.len()
}

/// The report segment of one bucket: its header, the no-deletion notice when
/// the delete set is empty, then the kept files and the files to delete, in
/// selection order.
pub open spec fn bucket_segment_matches(b: BucketSelection, lines: Seq<String>) -> bool {
    let extra: int = if b.delete@.len() == 0 {
        1
    } else {
        0
    };
    &&& lines.len() == spec_segment_len(b)
    &&& lines[0]@ == spec_header_line(b.bucket_id)
    &&& (b.delete@.len() == 0 ==> lines[1]@ == spec_no_delete_line())
    &&& forall|i: int|
        0 <= i < b.keep@.len() ==> is_file_line(b.keep@[i], false, #[trigger] lines[1 + extra + i])
    &&& forall|i: int|
        0 <= i < b.delete@.len() ==> is_file_line(
            b.delete@[i],
            true,
            #[trigger] lines[1 + extra + b.keep@.len() + i],
        )
}

fn render_bucket_segment(b: &BucketSelection) -> (lines: Vec<String>)
    ensures
        bucket_segment_matches(*b, lines@),
{
    let ghost extra: int = if b.delete@.len() == 0 {
        1
    } else {
        0
    };
    let mut lines: Vec<String> = Vec::new();
    let mut header = "Younger than ".to_owned();
    let id_str = u64_to_string(b.bucket_id);
    header.append(id_str.as_str());
    header.append(" days but older than ");
    let half_str = u64_to_string(b.bucket_id / 2);
    header.append(half_str.as_str());
    header.append(" days:");
    proof {
        assert(header@ =~= spec_header_line(b.bucket_id));
    }
    lines.push(header);
    if b.delete.len() == 0 {
        lines.push("No files to delete in this group.".to_owned());
    }
    let mut i: usize = 0;
    while i < b.keep.len()
        invariant
            extra == if b.delete@.len() == 0 {
                1int
            } else {
                0int
            },
            0 <= i <= b.keep@.len(),
            lines@.len() == 1 + extra + i,
            lines@[0]@ == spec_header_line(b.bucket_id),
            b.delete@.len() == 0 ==> lines@[1]@ == spec_no_delete_line(),
            forall|j: int|
                0 <= j < i ==> is_file_line(b.keep@[j], false, #[trigger] lines@[1 + extra + j]),
        decreases b.keep@.len() - i,
    {
        let line = render_file_line(&b.keep[i], false);
        lines.push(line);
        i = i + 1;
    }
    let mut i: usize = 0;
    while i < b.delete.len()
        invariant
            extra == if b.delete@.len() == 0 {
                1int
            } else {
                0int
            },
            0 <= i <= b.delete@.len(),
            lines@.len() == 1 + extra + b.keep@.len() + i,
            lines@[0]@ == spec_header_line(b.bucket_id),
            b.delete@.len() == 0 ==> lines@[1]@ == spec_no_delete_line(),
            forall|j: int|
                0 <= j < b.keep@.len() ==> is_file_line(
                    b.keep@[j],
                    false,
                    #[trigger] lines@[1 + extra + j],
                ),
            forall|j: int|
                0 <= j < i ==> is_file_line(
                    b.delete@[j],
                    true,
                    #[trigger] lines@[1 + extra + b.keep@.len() + j],
                ),
        decreases b.delete@.len() - i,
    {
        let line = render_file_line(&b.delete[i], true);
        lines.push(line);
        i = i + 1;
    }
    lines
}

/// The report of a whole directory's buckets, one segment per bucket in
/// ascending bucket order.
pub open spec fn buckets_report_matches(sel: Seq<BucketSelection>, lines: Seq<String>) -> bool
    decreases sel.len(),
{
    if sel.len() == 0 {
        lines.len() == 0
    } else {
        let l = spec_segment_len(sel.last());
        &&& lines.len() >= l
        &&& bucket_segment_matches(sel.last(), lines.skip(lines.len() - l))
        &&& buckets_report_matches(sel.drop_last(), lines.take(lines.len() - l))
    }
}

/// The total number of report lines of a selection's buckets.
pub open spec fn spec_segments_len(sel: Seq<BucketSelection>) -> int
    decreases sel.len(),
{
    if sel.len() == 0 {
        0
    } else {
        spec_segments_len(sel.drop_last()) + spec_segment_len(sel.last())
    }
}

/// The report of one directory: its opening line, then the buckets' report.
pub open spec fn dir_report_matches(
    dir: Seq<char>,
    sort_type: SortType,
    k: u32,
    sel: Seq<BucketSelection>,
    lines: Seq<String>,
) -> bool {
    &&& lines.len() == 1 + spec_segments_len(sel)
    &&& lines[0]@ == spec_opening_line(dir, sort_type, k)
    &&& buckets_report_matches(sel, lines.skip(1))
}

/// Renders the report of one directory: the opening line naming the
/// directory, the sort mode and the keep count, followed by each bucket's
/// segment.
pub fn render_dir_report(
    dir: &String,
    sort_type: &SortType,
    files_to_keep: u32,
    sel: &Vec<BucketSelection>,
) -> (lines: Vec<String>)
    ensures
        dir_report_matches(dir@, *sort_type, files_to_keep, sel@, lines@),
{
    let mut lines: Vec<String> = Vec::new();
    let mut opening = "Opening ".to_owned();
    opening.append(dir.as_str());
    opening.append(", sorting by ");
    opening.append(sort_type_name(sort_type));
    opening.append(" and keeping ");
    let k_str = u64_to_string(files_to_keep as u64);
    opening.append(k_str.as_str());
    opening.append(" files");
    proof {
        assert(opening@ =~= spec_opening_line(dir@, *sort_type, files_to_keep));
    }
    lines.push(opening);
    let mut i: usize = 0;
    while i < sel.len()
        invariant
            0 <= i <= sel@.len(),
            lines@.len() >= 1,
            lines@.len() == 1 + spec_segments_len(sel@.take(i as int)),
            lines@[0]@ == spec_opening_line(dir@, *sort_type, files_to_keep),
            buckets_report_matches(sel@.take(i as int), lines@.skip(1)),
        decreases sel@.len() - i,
    {
        let ghost old_lines = lines@;
        let mut seg = render_bucket_segment(&sel[i]);
        let ghost segv = seg@;
        lines.append(&mut seg);
        proof {
            assert(lines@.skip(1) =~= old_lines.skip(1) + segv);
            assert(sel@.take(i + 1).drop_last() =~= sel@.take(i as int));
            assert(sel@.take(i + 1).last() == sel@[i as int]);
            let total = lines@.skip(1);
            let l = spec_segment_len(sel@[i as int]);
            assert(segv.len() == l);
            assert(total.skip(total.len() - l) =~= segv);
            assert(total.take(total.len() - l) =~= old_lines.skip(1));
            assert(buckets_report_matches(sel@.take(i + 1), lines@.skip(1)));
        }
        i = i + 1;
    }
    proof {
        assert(sel@.take(sel@.len() as int) =~= sel@);
    }
    lines
}

} // verus!
