use expdel::errors::RetentionError;
use expdel::grouping::ScanEntry;
use expdel::orchestrate::{exp_sort_and_list_to_del, DirScan, ScanInput};
use expdel::render::u64_to_string;
use expdel::times::{FileMeta, SortType};
use expdel::workflow::{
    confirmation_accepts, conflict_message, final_action, needs_confirmation, sort_type_from_str,
    validate_modes, warn_nothing_kept, FinalAction, ModeFlags,
};

fn flags(force: bool, print_only: bool, quiet: bool) -> ModeFlags {
    ModeFlags { force, print_only, quiet }
}

#[test]
fn test_both_force_and_print_only() {
    let f = flags(true, true, false);
    let result = validate_modes(&f);
    assert_eq!(result.unwrap_err(), RetentionError::ConfigurationError);
    let msg = conflict_message(&f).unwrap();
    assert!(msg.contains("cannot be used together"));
    assert_eq!(msg, "Error: --print_only and --force cannot be used together.");
}

#[test]
fn test_both_quiet_and_print_only() {
    let f = flags(false, true, true);
    let result = validate_modes(&f);
    assert_eq!(result.unwrap_err(), RetentionError::ConfigurationError);
    let msg = conflict_message(&f).unwrap();
    assert!(msg.contains("cannot be used together"));
    assert_eq!(msg, "Error: --quiet and --print_only cannot be used together.");
}

#[test]
fn test_compatible_modes() {
    assert!(validate_modes(&flags(false, false, false)).is_ok());
    assert!(validate_modes(&flags(true, false, false)).is_ok());
    assert!(validate_modes(&flags(false, true, false)).is_ok());
    assert!(validate_modes(&flags(false, false, true)).is_ok());
    assert!(validate_modes(&flags(true, false, true)).is_ok());
    assert!(conflict_message(&flags(true, false, true)).is_none());
}

#[test]
fn test_sort_type_from_str() {
    assert_eq!(sort_type_from_str("mtime"), (SortType::MTime, true));
    assert_eq!(sort_type_from_str("ctime"), (SortType::CTime, true));
    assert_eq!(sort_type_from_str("atime"), (SortType::ATime, true));
    assert_eq!(sort_type_from_str("MTIME"), (SortType::MTime, true));
    assert_eq!(sort_type_from_str("ATime"), (SortType::ATime, true));
    // an unrecognized value degrades to ctime, flagged for a warning
    assert_eq!(sort_type_from_str("bogus"), (SortType::CTime, false));
    assert_eq!(sort_type_from_str(""), (SortType::CTime, false));
    assert_eq!(sort_type_from_str("mtimes"), (SortType::CTime, false));
}

#[test]
fn test_confirmation_accepts() {
    assert!(confirmation_accepts("yes"));
    assert!(confirmation_accepts("YES"));
    assert!(confirmation_accepts("Yes"));
    assert!(confirmation_accepts("  yes \n"));
    assert!(confirmation_accepts("\tyEs\r\n"));
    assert!(!confirmation_accepts("no"));
    assert!(!confirmation_accepts(""));
    assert!(!confirmation_accepts("y"));
    assert!(!confirmation_accepts("yess"));
    assert!(!confirmation_accepts("yes no"));
    assert!(!confirmation_accepts("   "));
}

#[test]
fn test_needs_confirmation() {
    assert!(needs_confirmation(&flags(false, false, false), 3));
    assert!(!needs_confirmation(&flags(false, false, false), 0));
    assert!(!needs_confirmation(&flags(true, false, false), 3));
    assert!(!needs_confirmation(&flags(false, true, false), 3));
    assert!(!needs_confirmation(&flags(false, false, true), 3));
}

#[test]
fn test_warn_nothing_kept() {
    assert!(warn_nothing_kept(0, 4));
    assert!(!warn_nothing_kept(1, 4));
    assert!(!warn_nothing_kept(0, 0));
}

#[test]
fn test_final_action_matrix() {
    assert_eq!(final_action(&flags(false, false, false), 3, true), FinalAction::Delete);
    assert_eq!(final_action(&flags(false, false, false), 3, false), FinalAction::Cancelled);
    assert_eq!(final_action(&flags(false, false, false), 0, true), FinalAction::ReportNothing);
    assert_eq!(final_action(&flags(false, true, false), 3, true), FinalAction::DryRunNotice);
    assert_eq!(final_action(&flags(false, true, false), 0, true), FinalAction::DryRunNotice);
    assert_eq!(final_action(&flags(true, false, false), 5, true), FinalAction::Delete);
}

#[test]
fn test_dry_run_never_deletes() {
    // in print-only mode no delete action is ever taken and no prompt shown
    for delete_count in [0usize, 1, 100] {
        for confirmed in [true, false] {
            let action = final_action(&flags(false, true, false), delete_count, confirmed);
            assert_ne!(action, FinalAction::Delete);
        }
        assert!(!needs_confirmation(&flags(false, true, false), delete_count));
    }
}

#[test]
fn test_dry_run_idempotent() {
    // repeated print-only runs over unchanged timestamps give identical
    // reports and identical keep/delete sets
    let now: u64 = 1_700_000_000;
    let entries: Vec<ScanEntry> = (0..8u64)
        .map(|i| ScanEntry {
            path: format!("file{}.txt", i),
            meta: FileMeta {
                modified: Some(now - i * 86400),
                accessed: Some(now - i * 86400),
                created: Some(now - i * 86400),
            },
        })
        .collect();
    let scan = ScanInput::Single("dir".to_string(), DirScan::Listed(entries));
    let first = exp_sort_and_list_to_del(&scan, &SortType::MTime, 2, now).unwrap();
    let second = exp_sort_and_list_to_del(&scan, &SortType::MTime, 2, now).unwrap();
    assert_eq!(first.to_keep, second.to_keep);
    assert_eq!(first.to_delete, second.to_delete);
    assert_eq!(first.report, second.report);
}

#[test]
fn test_error_messages() {
    assert_eq!(
        RetentionError::PathNotFound.message(),
        "The provided path does not exist."
    );
    assert_eq!(
        RetentionError::PathNotADirectory.message(),
        "The provided path is a file, not a directory."
    );
    assert_eq!(
        RetentionError::EmptyResult.message(),
        "No files found in the directory. Remember that the program only works with files, not directories."
    );
    assert!(!RetentionError::ConfigurationError.message().is_empty());
    assert!(!RetentionError::DeletionFailure.message().is_empty());
    assert!(!RetentionError::IOFailure.message().is_empty());
}

#[test]
fn test_u64_to_string() {
    assert_eq!(u64_to_string(0), "0");
    assert_eq!(u64_to_string(7), "7");
    assert_eq!(u64_to_string(16), "16");
    assert_eq!(u64_to_string(12345), "12345");
    assert_eq!(u64_to_string(u64::MAX), "18446744073709551615");
}
