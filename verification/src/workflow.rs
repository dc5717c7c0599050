//! The orchestration decisions: mode validation, sort-flag parsing, the
//! interactive confirmation gate, and the final action of a run.

use vstd::prelude::*;
use vstd::string::StrSliceExecFns;

use crate::errors::RetentionError;
use crate::times::SortType;

verus! {

/// The mode flags of one run.
#[derive(Clone, Copy, Debug, PartialEq, Eq, Structural)]
pub struct ModeFlags {
    pub force: bool,
    pub print_only: bool,
    pub quiet: bool,
}

pub open spec fn spec_modes_conflict(flags: ModeFlags) -> bool {
    (flags.quiet && flags.print_only) || (flags.print_only && flags.force)
}

pub open spec fn spec_conflict_message(flags: ModeFlags) -> Option<Seq<char>> {
    if flags.quiet && flags.print_only {
        Option::Some("Error: --quiet and --print_only cannot be used together."@)
    } else if flags.print_only && flags.force {
        Option::Some("Error: --print_only and --force cannot be used together."@)
    } else {
        Option::None
    }
}

/// Rejects incompatible mode combinations before any filesystem access:
/// quiet + print-only and force + print-only are configuration errors.
pub fn validate_modes(flags: &ModeFlags) -> (r: Result<(), RetentionError>)
    ensures
        r is Ok <==> !spec_modes_conflict(*flags),
        r is Err ==> r->Err_0 == RetentionError::ConfigurationError,
{
    if flags.quiet && flags.print_only {
        Err(RetentionError::ConfigurationError)
    } else if flags.print_only && flags.force {
        Err(RetentionError::ConfigurationError)
    } else {
        Ok(())
    }
}

/// The message naming the offending flag pair, when the modes conflict.
pub fn conflict_message(flags: &ModeFlags) -> (r: Option<String>)
    ensures
        match r {
            Option::Some(s) => spec_conflict_message(*flags) == Option::Some(s@),
            Option::None => spec_conflict_message(*flags) is None,
        },
{
    if flags.quiet && flags.print_only {
        Some("Error: --quiet and --print_only cannot be used together.".to_owned())
    } else if flags.print_only && flags.force {
        Some("Error: --print_only and --force cannot be used together.".to_owned())
    } else {
        None
    }
}

pub open spec fn spec_is_ws(c: char) -> bool {
    c == ' ' || c == '\t' || c == '\n' || c == '\r'
}

fn is_ws_char(c: char) -> (r: bool)
    ensures
        r == spec_is_ws(c),
{
    c == ' ' || c == '\t' || c == '\n' || c == '\r'
}

/// ASCII-case-insensitive character match against a lower-case keyword
/// character.
pub open spec fn spec_lower_eq(a: char, b: char) -> bool {
    a == b || (65 <= a as u32 <= 90 && a as u32 + 32 == b as u32)
}

fn char_lower_eq(a: char, b: char) -> (r: bool)
    ensures
        r == spec_lower_eq(a, b),
{
    let au = a as u32;
    let bu = b as u32;
    a == b || (65 <= au && au <= 90 && au + 32 == bu)
}

/// ASCII-case-insensitive equality with a lower-case keyword.
pub open spec fn spec_matches_keyword(s: Seq<char>, kw: Seq<char>) -> bool {
    s.len() == kw.len() && (forall|i: int|
        0 <= i < s.len() ==> spec_lower_eq(s[i], #[trigger] kw[i]))
}

/// Compares the characters `start..end` of `s` with a lower-case keyword,
/// ignoring ASCII case.
fn matches_keyword(s: &str, start: usize, end: usize, kw: &str) -> (r: bool)
    requires
        start <= end <= s@.len(),
    ensures
        r == spec_matches_keyword(s@.subrange(start as int, end as int), kw@),
{
    let ghost sub = s@.subrange(start as int, end as int);
    let n = end - start;
    if n != kw.unicode_len() {
        return false;
    }
    let mut i: usize = 0;
    let mut ok = true;
    while i < n
        invariant
            0 <= i <= n,
            n == kw@.len(),
            start + n == end <= s@.len(),
            sub == s@.subrange(start as int, end as int),
            ok <==> (forall|j: int| 0 <= j < i ==> spec_lower_eq(sub[j], #[trigger] kw@[j])),
        decreases n - i,
    {
        let c = s.get_char(start + i);
        let k = kw.get_char(i);
        let eq = char_lower_eq(c, k);
        proof {
            assert(sub[i as int] == s@[start + i]);
        }
        ok = ok && eq;
        i = i + 1;
    }
    ok
}

/// What remains of a line after the leading ASCII whitespace is dropped.
pub open spec fn spec_trim_front(s: Seq<char>) -> Seq<char>
    decreases s.len(),
{
    if s.len() > 0 && spec_is_ws(s.first()) {
        spec_trim_front(s.drop_first())
    } else {
        s
    }
}

/// What remains after the trailing ASCII whitespace is dropped.
pub open spec fn spec_trim_back(s: Seq<char>) -> Seq<char>
    decreases s.len(),
{
    if s.len() > 0 && spec_is_ws(s.last()) {
        spec_trim_back(s.drop_last())
    } else {
        s
    }
}

pub open spec fn spec_trimmed(s: Seq<char>) -> Seq<char> {
    spec_trim_back(spec_trim_front(s))
}

/// Whether an answer confirms deletion: exactly "yes" after trimming,
/// ignoring ASCII case. Anything else cancels.
pub open spec fn spec_confirmation_accepts(s: Seq<char>) -> bool {
    spec_matches_keyword(spec_trimmed(s), "yes"@)
}

/// Decides the interactive confirmation: only a trimmed, case-insensitive
/// "yes" proceeds; any other answer cancels the run.
pub fn confirmation_accepts(answer: &str) -> (r: bool)
    ensures
        r == spec_confirmation_accepts(answer@),
{
    let n = answer.unicode_len();
    let mut a: usize = 0;
    proof {
        assert(answer@.skip(0) =~= answer@);
    }
    while a < n && is_ws_char(answer.get_char(a))
        invariant
            0 <= a <= n,
            n == answer@.len(),
            spec_trim_front(answer@) == spec_trim_front(answer@.skip(a as int)),
        decreases n - a,
    {
        proof {
            assert(answer@.skip(a as int).first() == answer@[a as int]);
            assert(answer@.skip(a as int).drop_first() =~= answer@.skip(a as int + 1));
        }
        a = a + 1;
    }
    let ghost t = answer@.skip(a as int);
    proof {
        if a < n {
            assert(t.first() == answer@[a as int]);
        }
        assert(spec_trim_front(answer@) == t);
    }
    let mut b: usize = n;
    proof {
        assert(t.take(n - a as int) =~= t);
    }
    while b > a && is_ws_char(answer.get_char(b - 1))
        invariant
            a <= b <= n,
            n == answer@.len(),
            t == answer@.skip(a as int),
            spec_trim_back(t) == spec_trim_back(t.take(b - a as int)),
        decreases b,
    {
        proof {
            let part = t.take(b - a as int);
            assert(part.last() == answer@[b - 1]);
            assert(part.drop_last() =~= t.take(b - 1 - a as int));
        }
        b = b - 1;
    }
    proof {
        let part = t.take(b - a as int);
        if b > a {
            assert(part.last() == answer@[b - 1]);
        }
        assert(spec_trim_back(part) == part);
        assert(spec_trimmed(answer@) == t.take(b - a as int));
        assert(t.take(b - a as int) =~= answer@.subrange(a as int, b as int));
    }
    matches_keyword(answer, a, b, "yes")
}

pub open spec fn spec_sort_type_of(s: Seq<char>) -> (SortType, bool) {
    if spec_matches_keyword(s, "mtime"@) {
        (SortType::MTime, true)
    } else if spec_matches_keyword(s, "ctime"@) {
        (SortType::CTime, true)
    } else if spec_matches_keyword(s, "atime"@) {
        (SortType::ATime, true)
    } else {
        (SortType::CTime, false)
    }
}

/// Parses the sort-mode flag, ignoring ASCII case. An unrecognized value
/// degrades to `CTime`; the second component is false exactly then, so the
/// caller can warn instead of failing.
pub fn sort_type_from_str(s: &str) -> (r: (SortType, bool))
    ensures
        r == spec_sort_type_of(s@),
{
    let n = s.unicode_len();
    proof {
        assert(s@.subrange(0, s@.len() as int) =~= s@);
    }
    if matches_keyword(s, 0, n, "mtime") {
        (SortType::MTime, true)
    } else if matches_keyword(s, 0, n, "ctime") {
        (SortType::CTime, true)
    } else if matches_keyword(s, 0, n, "atime") {
        (SortType::ATime, true)
    } else {
        (SortType::CTime, false)
    }
}

pub open spec fn spec_needs_confirmation(flags: ModeFlags, delete_count: nat) -> bool {
    !flags.force && !flags.print_only && !flags.quiet && delete_count > 0
}

/// Whether the run must stop at the interactive yes/no gate: only an
/// interactive run (neither forced, nor quiet, nor a dry run) with something
/// slated for deletion prompts.
pub fn needs_confirmation(flags: &ModeFlags, delete_count: usize) -> (r: bool)
    ensures
        r == spec_needs_confirmation(*flags, delete_count as nat),
{
    !flags.force && !flags.print_only && !flags.quiet && delete_count > 0
}

/// Whether the extra warning applies before prompting: nothing at all would
/// be kept, so the run would delete everything it found.
pub fn warn_nothing_kept(keep_count: usize, delete_count: usize) -> (r: bool)
    ensures
        r == (keep_count == 0 && delete_count > 0),
{
    keep_count == 0 && delete_count > 0
}

/// What a run does after selection and the (possibly skipped) confirmation.
#[derive(Clone, Copy, Debug, PartialEq, Eq, Structural)]
pub enum FinalAction {
    /// Run the deletion over the delete list.
    Delete,
    /// Nothing is slated for deletion: report that and stop.
    ReportNothing,
    /// Dry run: only the listing is shown, the filesystem stays untouched.
    DryRunNotice,
    /// The operator declined the confirmation.
    Cancelled,
}

pub open spec fn spec_final_action(flags: ModeFlags, delete_count: nat, confirmed: bool) -> FinalAction {
    if !confirmed {
        FinalAction::Cancelled
    } else if flags.print_only {
        FinalAction::DryRunNotice
    } else if delete_count == 0 {
        FinalAction::ReportNothing
    } else {
        FinalAction::Delete
    }
}

/// The final step of a run. `confirmed` is true when no confirmation was
/// needed or the operator answered yes.
pub fn final_action(flags: &ModeFlags, delete_count: usize, confirmed: bool) -> (r: FinalAction)
    ensures
        r == spec_final_action(*flags, delete_count as nat, confirmed),
{
    if !confirmed {
        FinalAction::Cancelled
    } else if flags.print_only {
        FinalAction::DryRunNotice
    } else if delete_count == 0 {
        FinalAction::ReportNothing
    } else {
        FinalAction::Delete
    }
}

/// A dry run never touches the filesystem: in print-only mode the
/// confirmation gate is skipped and the final action is never `Delete`,
/// whatever was selected or answered. Repeated print-only runs over
/// unchanged inputs therefore reproduce the same report and delete nothing.
pub proof fn lemma_dry_run_never_deletes(flags: ModeFlags, delete_count: nat, confirmed: bool)
    requires
        flags.print_only,
    ensures
        spec_final_action(flags, delete_count, confirmed) != FinalAction::Delete,
        !spec_needs_confirmation(flags, delete_count),
{
}

} // verus!
