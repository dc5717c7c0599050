use expdel::buckets::bucket_for_days;
use expdel::errors::RetentionError;
use expdel::grouping::{group_files_by_bucket, group_files_by_bucket_recursive, skipped_directories, DirListing, ScanEntry};
use expdel::orchestrate::{exp_sort_and_list_to_del, DirScan, ScanInput};
use expdel::records::FileRecord;
use expdel::selection::select_files;
use expdel::times::{get_time_type, FileMeta, SortType};

const NOW: u64 = 1_700_000_000;
const DAY: u64 = 86400;

fn meta(ts: u64) -> FileMeta {
    FileMeta { modified: Some(ts), accessed: Some(ts), created: Some(ts) }
}

fn entry(name: &str, ts: u64) -> ScanEntry {
    ScanEntry { path: name.to_string(), meta: meta(ts) }
}

fn single(entries: Vec<ScanEntry>) -> ScanInput {
    ScanInput::Single("testdir".to_string(), DirScan::Listed(entries))
}

#[test]
fn test_bucket_boundaries() {
    assert_eq!(bucket_for_days(0), 1);
    assert_eq!(bucket_for_days(1), 1);
    assert_eq!(bucket_for_days(2), 2);
    assert_eq!(bucket_for_days(3), 4);
    assert_eq!(bucket_for_days(4), 4);
    assert_eq!(bucket_for_days(5), 8);
    assert_eq!(bucket_for_days(8), 8);
    assert_eq!(bucket_for_days(9), 16);
    assert_eq!(bucket_for_days(15), 16);
    assert_eq!(bucket_for_days(16), 16);
    assert_eq!(bucket_for_days(17), 32);
    assert_eq!(bucket_for_days(1000), 1024);
    // monotonically non-decreasing as the age grows
    let mut prev = bucket_for_days(0);
    for d in 1..200u64 {
        let b = bucket_for_days(d);
        assert!(b >= prev);
        prev = b;
    }
}

#[test]
fn test_get_time_type() {
    let m = FileMeta { modified: Some(111), accessed: Some(222), created: Some(333) };
    assert_eq!(get_time_type(&m, &SortType::MTime), 111);
    assert_eq!(get_time_type(&m, &SortType::ATime), 222);
    assert_eq!(get_time_type(&m, &SortType::CTime), 333);
    // a timestamp kind the platform lacks degrades to the epoch origin
    let bare = FileMeta { modified: None, accessed: None, created: None };
    assert_eq!(get_time_type(&bare, &SortType::MTime), 0);
    assert_eq!(get_time_type(&bare, &SortType::ATime), 0);
    assert_eq!(get_time_type(&bare, &SortType::CTime), 0);
}

#[test]
fn test_listing_simple() {
    // many files of varied ages, up to roughly a year old
    let mut entries = Vec::new();
    for i in 0..500u64 {
        let offset = (i * 61_803) % (365 * 24 * 3600);
        entries.push(entry(&format!("file{}.txt", i), NOW - offset));
    }
    for sort in [SortType::MTime, SortType::ATime, SortType::CTime] {
        let keep = 1 + (entries.len() as u32 % 4);
        let result = exp_sort_and_list_to_del(&single(entries.clone()), &sort, keep, NOW);
        assert!(result.is_ok());
    }
}

#[test]
fn test_files_to_delete_are_correct() {
    let file1 = entry("oldest.txt", NOW - 10000);
    let file2 = entry("youngest.txt", NOW);
    let file3 = entry("second_youngest.txt", NOW - 1);
    let file4 = entry("third_youngest.txt", NOW - 500);
    let entries = vec![file1, file2, file3, file4];

    for sort in [SortType::MTime, SortType::ATime] {
        let res = exp_sort_and_list_to_del(&single(entries.clone()), &sort, 1, NOW).unwrap();
        assert!(res.to_keep.contains(&"oldest.txt".to_string()));
        assert!(res.to_delete.contains(&"second_youngest.txt".to_string()));
        assert!(res.to_delete.contains(&"third_youngest.txt".to_string()));
        assert!(res.to_delete.contains(&"youngest.txt".to_string()));
        assert_eq!(res.to_keep.len(), 1);
        assert_eq!(res.to_delete.len(), 3);
    }
}

#[test]
fn test_ctime() {
    let t0 = NOW - 4;
    let entries = vec![
        ScanEntry { path: "file1.txt".to_string(), meta: meta(t0) },
        ScanEntry { path: "file2.txt".to_string(), meta: meta(t0 + 2) },
        ScanEntry { path: "file3.txt".to_string(), meta: meta(t0 + 4) },
    ];
    let res = exp_sort_and_list_to_del(&single(entries), &SortType::CTime, 1, NOW).unwrap();
    assert!(res.to_keep.contains(&"file1.txt".to_string()));
    assert!(res.to_delete.contains(&"file2.txt".to_string()));
    assert!(res.to_delete.contains(&"file3.txt".to_string()));
    assert_eq!(res.to_keep.len(), 1);
    assert_eq!(res.to_delete.len(), 2);
}

#[test]
fn test_buckets_behavior() {
    let mut entries = Vec::new();
    for i in 0..16u64 {
        entries.push(entry(&format!("file{}.txt", i), NOW - i * DAY));
    }
    for sort in [SortType::MTime, SortType::ATime] {
        let res = exp_sort_and_list_to_del(&single(entries.clone()), &sort, 1, NOW).unwrap();
        let kept = |name: &str| res.to_keep.contains(&name.to_string());
        let deleted = |name: &str| res.to_delete.contains(&name.to_string());
        assert!(deleted("file0.txt"));
        assert!(kept("file1.txt"));
        assert!(kept("file2.txt"));
        assert!(deleted("file3.txt"));
        assert!(kept("file4.txt"));
        assert!(deleted("file5.txt"));
        assert!(deleted("file6.txt"));
        assert!(deleted("file7.txt"));
        assert!(kept("file8.txt"));
        assert!(deleted("file9.txt"));
        assert!(deleted("file10.txt"));
        assert!(deleted("file11.txt"));
        assert!(deleted("file12.txt"));
        assert!(deleted("file13.txt"));
        assert!(deleted("file14.txt"));
        assert!(kept("file15.txt"));
        assert_eq!(res.to_keep.len(), 5);
        assert_eq!(res.to_delete.len(), 11);
    }
}

#[test]
fn test_bucket_headers_in_report() {
    let entries = vec![entry("a.txt", NOW - 9 * DAY), entry("b.txt", NOW - 15 * DAY)];
    let res = exp_sort_and_list_to_del(&single(entries), &SortType::MTime, 1, NOW).unwrap();
    assert!(res
        .report
        .contains(&"Younger than 16 days but older than 8 days:".to_string()));
    assert_eq!(
        res.report[0],
        "Opening testdir, sorting by MTime and keeping 1 files".to_string()
    );
}

#[test]
fn test_file_lines_in_report() {
    let entries = vec![entry("kept.txt", NOW - 10), entry("gone.txt", NOW)];
    let res = exp_sort_and_list_to_del(&single(entries), &SortType::MTime, 1, NOW).unwrap();
    let kept_line = res
        .report
        .iter()
        .find(|l| l.starts_with("kept.txt | "))
        .expect("kept file line");
    assert!(!kept_line.ends_with(" <-- to be deleted"));
    // a real timestamp was rendered after the separator
    let ts = &kept_line["kept.txt | ".len()..];
    assert!(ts.contains('-') && ts.contains(':'));
    let gone_line = res
        .report
        .iter()
        .find(|l| l.starts_with("gone.txt | "))
        .expect("deleted file line");
    assert!(gone_line.ends_with(" <-- to be deleted"));
}

#[test]
fn test_identical_times() {
    let ts = NOW;
    let entries = vec![
        entry("file1.txt", ts),
        entry("file2.txt", ts),
        entry("file3.txt", ts),
        entry("file4.txt", ts),
    ];
    let res = exp_sort_and_list_to_del(&single(entries), &SortType::MTime, 2, NOW).unwrap();
    assert_eq!(res.to_keep.len(), 2);
    assert_eq!(res.to_delete.len(), 2);
    assert_eq!(res.to_keep.len() + res.to_delete.len(), 4);
}

#[test]
fn test_zero_files_to_keep() {
    let mut entries = Vec::new();
    for i in 0..5u64 {
        let offset = (i * 7919) % (30 * 24 * 3600);
        entries.push(entry(&format!("file{}.txt", i), NOW - offset));
    }
    for sort in [SortType::MTime, SortType::ATime, SortType::CTime] {
        let result = exp_sort_and_list_to_del(&single(entries.clone()), &sort, 0, NOW);
        assert!(result.is_ok());
        // with a keep count of zero every file is slated for deletion
        let res = result.unwrap();
        assert_eq!(res.to_keep.len(), 0);
        assert_eq!(res.to_delete.len(), 5);
    }
}

#[test]
fn test_keep_count_above_bucket_sizes() {
    let mut entries = Vec::new();
    for i in 0..12u64 {
        entries.push(entry(&format!("file{}.txt", i), NOW - i * DAY));
    }
    let res = exp_sort_and_list_to_del(&single(entries), &SortType::MTime, 100, NOW).unwrap();
    assert_eq!(res.to_delete.len(), 0);
    assert_eq!(res.to_keep.len(), 12);
}

#[test]
fn test_selection_partition() {
    let records: Vec<FileRecord> = vec![
        FileRecord { path: "d.txt".to_string(), timestamp: 400 },
        FileRecord { path: "a.txt".to_string(), timestamp: 100 },
        FileRecord { path: "c.txt".to_string(), timestamp: 300 },
        FileRecord { path: "b.txt".to_string(), timestamp: 200 },
    ];
    let (keep, delete) = select_files(records, 2);
    assert_eq!(keep.len(), 2);
    assert_eq!(delete.len(), 2);
    // the oldest files are kept and every kept timestamp is at most every
    // deleted timestamp
    assert_eq!(keep[0].path, "a.txt");
    assert_eq!(keep[1].path, "b.txt");
    for k in &keep {
        for d in &delete {
            assert!(k.timestamp <= d.timestamp);
        }
    }
}

#[test]
fn test_future_files_skipped() {
    // a file whose timestamp is in the future is silently skipped
    let entries = vec![entry("future.txt", NOW + 100), entry("old.txt", NOW - 100)];
    let res = exp_sort_and_list_to_del(&single(entries), &SortType::MTime, 0, NOW).unwrap();
    assert_eq!(res.to_delete, vec!["old.txt".to_string()]);
    // and a directory holding only future files counts as empty
    let only_future = vec![entry("future.txt", NOW + 100)];
    let err = exp_sort_and_list_to_del(&single(only_future), &SortType::MTime, 0, NOW)
        .unwrap_err();
    assert_eq!(err, RetentionError::EmptyResult);
}

#[test]
fn test_empty_directory() {
    let result = exp_sort_and_list_to_del(&single(Vec::new()), &SortType::MTime, 2, NOW);
    assert!(result.is_err());
    let err = result.unwrap_err();
    assert_eq!(err, RetentionError::EmptyResult);
}

#[test]
fn test_invalid_path() {
    let scan = ScanInput::Single("/invalid/path".to_string(), DirScan::Missing);
    let result = exp_sort_and_list_to_del(&scan, &SortType::MTime, 2, NOW);
    assert!(result.is_err());
    let err = result.unwrap_err();
    assert_eq!(err, RetentionError::PathNotFound);
}

#[test]
fn test_file_instead_of_directory() {
    let scan = ScanInput::Single("test_file.txt".to_string(), DirScan::NotADirectory);
    let result = exp_sort_and_list_to_del(&scan, &SortType::MTime, 2, NOW);
    assert!(result.is_err());
    let err = result.unwrap_err();
    assert_eq!(err, RetentionError::PathNotADirectory);
}

#[test]
fn test_same_times() {
    let entries = vec![
        entry("file0.txt", NOW),
        entry("file1.txt", NOW),
        entry("file2.txt", NOW),
    ];
    for sort in [SortType::MTime, SortType::ATime, SortType::CTime] {
        let result = exp_sort_and_list_to_del(&single(entries.clone()), &sort, 1, NOW);
        assert!(result.is_ok());
        let res = result.unwrap();
        assert_eq!(res.to_keep.len(), 1);
        assert_eq!(res.to_delete.len(), 2);
    }
}

#[test]
fn test_directory_with_subdirectories_with_recursive_on() {
    // in recursive mode the subdirectory's files are bucketed too
    let mut root_files = Vec::new();
    for i in 0..5u64 {
        root_files.push(entry(&format!("file{}.txt", i), NOW - i));
    }
    let listings = vec![
        DirListing { dir: "root".to_string(), entries: root_files },
        DirListing {
            dir: "root/sub_dir".to_string(),
            entries: vec![entry("root/sub_dir/subfile.txt", NOW)],
        },
    ];
    let res =
        exp_sort_and_list_to_del(&ScanInput::Tree(listings), &SortType::MTime, 0, NOW).unwrap();
    assert_eq!(res.to_keep.len(), 0);
    assert_eq!(res.to_delete.len(), 6);
    assert!(res.to_delete.contains(&"root/sub_dir/subfile.txt".to_string()));
}

#[test]
fn test_recursive_directories_independent() {
    // each directory's keep/delete split depends only on its own files
    let root = DirListing {
        dir: "root".to_string(),
        entries: vec![entry("root/r_old.txt", NOW - 1000), entry("root/r_new.txt", NOW)],
    };
    let sub = DirListing {
        dir: "root/sub".to_string(),
        entries: vec![entry("root/sub/s_old.txt", NOW - 2000), entry("root/sub/s_new.txt", NOW)],
    };
    let tree = ScanInput::Tree(vec![root.clone(), sub.clone()]);
    let both = exp_sort_and_list_to_del(&tree, &SortType::MTime, 1, NOW).unwrap();
    // one file kept per directory, one deleted per directory
    assert_eq!(both.to_keep.len(), 2);
    assert_eq!(both.to_delete.len(), 2);
    assert!(both.to_keep.contains(&"root/r_old.txt".to_string()));
    assert!(both.to_keep.contains(&"root/sub/s_old.txt".to_string()));

    // the root alone yields the same split for the root's files
    let root_alone = exp_sort_and_list_to_del(
        &ScanInput::Tree(vec![root.clone()]),
        &SortType::MTime,
        1,
        NOW,
    )
    .unwrap();
    assert_eq!(root_alone.to_keep, vec!["root/r_old.txt".to_string()]);
    assert_eq!(root_alone.to_delete, vec!["root/r_new.txt".to_string()]);
}

#[test]
fn test_recursive_empty_tree() {
    let result = exp_sort_and_list_to_del(
        &ScanInput::Tree(Vec::new()),
        &SortType::MTime,
        1,
        NOW,
    );
    assert_eq!(result.unwrap_err(), RetentionError::PathNotFound);
}

#[test]
fn test_recursive_all_directories_empty() {
    let listings = vec![
        DirListing { dir: "a".to_string(), entries: Vec::new() },
        DirListing { dir: "b".to_string(), entries: Vec::new() },
    ];
    let result =
        exp_sort_and_list_to_del(&ScanInput::Tree(listings), &SortType::MTime, 1, NOW);
    assert_eq!(result.unwrap_err(), RetentionError::EmptyResult);
}

#[test]
fn test_skipped_directories() {
    let listings = vec![
        DirListing { dir: "full".to_string(), entries: vec![entry("full/a.txt", NOW)] },
        DirListing { dir: "empty".to_string(), entries: Vec::new() },
    ];
    let skipped = skipped_directories(&listings, &SortType::MTime, NOW);
    assert_eq!(skipped, vec!["empty".to_string()]);
}

#[test]
fn test_group_files_by_bucket_structure() {
    let entries = vec![
        entry("young.txt", NOW),
        entry("older.txt", NOW - 3 * DAY),
        entry("young2.txt", NOW - DAY),
    ];
    let m = group_files_by_bucket(&entries, &SortType::MTime, NOW).unwrap();
    assert_eq!(m.buckets.len(), 2);
    assert_eq!(m.buckets[0].bucket_id, 1);
    assert_eq!(m.buckets[1].bucket_id, 4);
    // files stay in scan order inside a bucket
    assert_eq!(m.buckets[0].files[0].path, "young.txt");
    assert_eq!(m.buckets[0].files[1].path, "young2.txt");
    assert_eq!(m.buckets[1].files[0].path, "older.txt");
}

#[test]
fn test_group_files_by_bucket_recursive_skips_empty() {
    let listings = vec![
        DirListing { dir: "empty".to_string(), entries: Vec::new() },
        DirListing { dir: "full".to_string(), entries: vec![entry("full/a.txt", NOW)] },
    ];
    let out = group_files_by_bucket_recursive(&listings, &SortType::MTime, NOW).unwrap();
    assert_eq!(out.len(), 1);
    assert_eq!(out[0].0, "full".to_string());
}
