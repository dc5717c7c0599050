//! The end-to-end selection: groups a scan into buckets, splits every bucket
//! into keep and delete sets, and renders the report.

use vstd::prelude::*;

use crate::errors::RetentionError;
use crate::grouping::{
    group_files_by_bucket, group_files_by_bucket_recursive, grouping_matches,
    recursive_grouping_matches, spec_has_eligible, BucketMap, DirListing, ScanEntry,
};
use crate::render::{dir_report_matches, render_dir_report, spec_segments_len};
use crate::selection::{
    collect_paths, process_groups, selections_match, spec_delete_paths, spec_keep_paths,
    BucketSelection,
};
use crate::times::SortType;

verus! {

/// What the filesystem scan of the target path produced.
pub enum DirScan {
    /// The path does not exist.
    Missing,
    /// The path names a file, not a directory.
    NotADirectory,
    /// The direct regular files of the directory, with their timestamps.
    Listed(Vec<ScanEntry>),
}

/// The scan handed to selection: one directory, or a walked tree of
/// directories each with its own direct files, in walk order.
pub enum ScanInput {
    Single(String, DirScan),
    Tree(Vec<DirListing>),
}

/// The keep/delete split of one directory of a tree.
#[derive(Debug)]
pub struct DirSelection {
    pub dir: String,
    pub buckets: Vec<BucketSelection>,
}

/// One run's outcome: the kept paths, the paths to delete, and the rendered
/// report, all in bucket order (and walk order across directories).
#[derive(Debug)]
pub struct SelectionResult {
    pub to_keep: Vec<String>,
    pub to_delete: Vec<String>,
    pub report: Vec<String>,
}

/// A valid selection of one directory's entries: a grouping of exactly those
/// entries, each bucket split into keep and delete sets.
pub open spec fn dir_selection_matches(
    entries: Seq<ScanEntry>,
    sort_type: SortType,
    now: u64,
    k: u32,
    sel: Seq<BucketSelection>,
) -> bool {
    exists|m: BucketMap|
        grouping_matches(entries, sort_type, now, m) && selections_match(m, k as nat, sel)
}

/// The per-tree selection relation: one `DirSelection` per directory with
/// eligible files, in walk order, each a function of that directory's
/// entries alone.
pub open spec fn tree_selections_match(
    listings: Seq<DirListing>,
    sort_type: SortType,
    now: u64,
    k: u32,
    out: Seq<DirSelection>,
) -> bool
    decreases listings.len(),
{
    if listings.len() == 0 {
        out.len() == 0
    } else {
        let l = listings.last();
        if spec_has_eligible(l.entries@, sort_type, now) {
            &&& out.len() > 0
            &&& out.last().dir == l.dir
            &&& dir_selection_matches(l.entries@, sort_type, now, k, out.last().buckets@)
            &&& tree_selections_match(listings.drop_last(), sort_type, now, k, out.drop_last())
        } else {
            tree_selections_match(listings.drop_last(), sort_type, now, k, out)
        }
    }
}

/// The kept paths of a whole tree, directory by directory in walk order.
pub open spec fn spec_tree_keep_paths(out: Seq<DirSelection>) -> Seq<String>
    decreases out.len(),
{
    if out.len() == 0 {
        Seq::empty()
    } else {
        spec_tree_keep_paths(out.drop_last()) + spec_keep_paths(out.last().buckets@)
    }
}

/// The paths to delete of a whole tree, directory by directory in walk order.
pub open spec fn spec_tree_delete_paths(out: Seq<DirSelection>) -> Seq<String>
    decreases out.len(),
{
    if out.len() == 0 {
        Seq::empty()
    } else {
        spec_tree_delete_paths(out.drop_last()) + spec_delete_paths(out.last().buckets@)
    }
}

/// The report of a whole tree: one directory block per selected directory,
/// in walk order.
pub open spec fn tree_report_matches(
    out: Seq<DirSelection>,
    sort_type: SortType,
    k: u32,
    lines: Seq<String>,
) -> bool
    decreases out.len(),
{
    if out.len() == 0 {
        lines.len() == 0
    } else {
        let l = 1 + spec_segments_len(out.last().buckets@);
        &&& lines.len() >= l
        &&& dir_report_matches(
            out.last().dir@,
            sort_type,
            k,
            out.last().buckets@,
            lines.skip(lines.len() - l),
        )
        &&& tree_report_matches(out.drop_last(), sort_type, k, lines.take(lines.len() - l))
    }
}

/// What a successful run returns for a given scan.
pub open spec fn scan_ok_matches(
    scan: ScanInput,
    sort_type: SortType,
    now: u64,
    k: u32,
    res: SelectionResult,
) -> bool {
    match scan {
        ScanInput::Single(dir, ds) => match ds {
            DirScan::Listed(entries) => exists|sel: Seq<BucketSelection>|
                {
                    &&& #[trigger] dir_selection_matches(entries@, sort_type, now, k, sel)
                    &&& res.to_keep@ == spec_keep_paths(sel)
                    &&& res.to_delete@ == spec_delete_paths(sel)
                    &&& dir_report_matches(dir@, sort_type, k, sel, res.report@)
                },
            _ => false,
        },
        ScanInput::Tree(listings) => exists|out: Seq<DirSelection>|
            {
                &&& #[trigger] tree_selections_match(listings@, sort_type, now, k, out)
                &&& out.len() > 0
                &&& res.to_keep@ == spec_tree_keep_paths(out)
                &&& res.to_delete@ == spec_tree_delete_paths(out)
                &&& tree_report_matches(out, sort_type, k, res.report@)
            },
    }
}

/// The error a run returns, and exactly when: a missing path, a path that is
/// a file, or a scan without a single eligible file anywhere in scope.
pub open spec fn scan_err_matches(
    scan: ScanInput,
    sort_type: SortType,
    now: u64,
    e: RetentionError,
) -> bool {
    match scan {
        ScanInput::Single(dir, ds) => match ds {
            DirScan::Missing => e == RetentionError::PathNotFound,
            DirScan::NotADirectory => e == RetentionError::PathNotADirectory,
            DirScan::Listed(entries) => e == RetentionError::EmptyResult && !spec_has_eligible(
                entries@,
                sort_type,
                now,
            ),
        },
        ScanInput::Tree(listings) => {
            &&& forall|i: int|
                0 <= i < listings@.len() ==> !spec_has_eligible(
                    (#[trigger] listings@[i]).entries@,
                    sort_type,
                    now,
                )
            &&& e == if listings@.len() == 0 {
                RetentionError::PathNotFound
            } else {
                RetentionError::EmptyResult
            }
        },
    }
}

/// Chains the recursive grouping with a per-directory selection.
proof fn lemma_tree_selections_from_groups(
    listings: Seq<DirListing>,
    sort_type: SortType,
    now: u64,
    k: u32,
    groups: Seq<(String, BucketMap)>,
    sels: Seq<DirSelection>,
)
    requires
        recursive_grouping_matches(listings, sort_type, now, groups),
        sels.len() == groups.len(),
        forall|j: int|
            0 <= j < sels.len() ==> (#[trigger] sels[j]).dir == groups[j].0 && selections_match(
                groups[j].1,
                k as nat,
                sels[j].buckets@,
            ),
    ensures
        tree_selections_match(listings, sort_type, now, k, sels),
    decreases listings.len(),
{
    if listings.len() > 0 {
        let l = listings.last();
        if spec_has_eligible(l.entries@, sort_type, now) {
            let last = sels.len() - 1;
            assert(sels[last].dir == groups[last].0);
            assert(dir_selection_matches(l.entries@, sort_type, now, k, sels.last().buckets@)) by {
                let m = groups.last().1;
                assert(grouping_matches(l.entries@, sort_type, now, m) && selections_match(
                    m,
                    k as nat,
                    sels.last().buckets@,
                ));
            }
            assert forall|j: int|
                0 <= j < sels.drop_last().len() implies (#[trigger] sels.drop_last()[j]).dir
                == groups.drop_last()[j].0 && selections_match(
                groups.drop_last()[j].1,
                k as nat,
                sels.drop_last()[j].buckets@,
            ) by {
                assert(sels.drop_last()[j] == sels[j]);
                assert(groups.drop_last()[j] == groups[j]);
            }
            lemma_tree_selections_from_groups(
                listings.drop_last(),
                sort_type,
                now,
                k,
                groups.drop_last(),
                sels.drop_last(),
            );
        } else {
            lemma_tree_selections_from_groups(listings.drop_last(), sort_type, now, k, groups, sels);
        }
    }
}

/// Directories are processed independently in recursive mode: the selection
/// recorded for a directory with eligible files is a valid selection of that
/// directory's own entries alone, so the other directories' contents never
/// influence which of its files are kept or deleted.
pub proof fn lemma_tree_selection_independent(
    listings: Seq<DirListing>,
    sort_type: SortType,
    now: u64,
    k: u32,
    out: Seq<DirSelection>,
    i: int,
)
    requires
        tree_selections_match(listings, sort_type, now, k, out),
        0 <= i < listings.len(),
        spec_has_eligible(listings[i].entries@, sort_type, now),
    ensures
        exists|j: int|
            0 <= j < out.len() && (#[trigger] out[j]).dir == listings[i].dir
                && dir_selection_matches(
                listings[i].entries@,
                sort_type,
                now,
                k,
                out[j].buckets@,
            ),
    decreases listings.len(),
{
    let l = listings.last();
    if i == listings.len() - 1 {
        assert(out[out.len() - 1].dir == listings[i].dir);
    } else {
        assert(listings.drop_last()[i] == listings[i]);
        if spec_has_eligible(l.entries@, sort_type, now) {
            lemma_tree_selection_independent(
                listings.drop_last(),
                sort_type,
                now,
                k,
                out.drop_last(),
                i,
            );
            let j = choose|j: int|
                0 <= j < out.drop_last().len() && (#[trigger] out.drop_last()[j]).dir
                    == listings[i].dir && dir_selection_matches(
                    listings[i].entries@,
                    sort_type,
                    now,
                    k,
                    out.drop_last()[j].buckets@,
                );
            assert(out[j] == out.drop_last()[j]);
        } else {
            lemma_tree_selection_independent(listings.drop_last(), sort_type, now, k, out, i);
        }
    }
}

/// Groups the scanned files into exponential age buckets and lists, per
/// bucket, which files are kept (the oldest `files_to_keep`) and which are
/// slated for deletion, together with the rendered report. Fails exactly on
/// a missing path, a path that is a file, or a scan without one eligible
/// file in scope.
pub fn exp_sort_and_list_to_del(
    scan: &ScanInput,
    sort_type: &SortType,
    files_to_keep: u32,
    now: u64,
) -> (r: Result<SelectionResult, RetentionError>)
    ensures
        match r {
            Result::Ok(res) => scan_ok_matches(*scan, *sort_type, now, files_to_keep, res),
            Result::Err(e) => scan_err_matches(*scan, *sort_type, now, e),
        },
{
    match scan {
        ScanInput::Single(dir, ds) => match ds {
            DirScan::Missing => Err(RetentionError::PathNotFound),
            DirScan::NotADirectory => Err(RetentionError::PathNotADirectory),
            DirScan::Listed(entries) => {
                let m = match group_files_by_bucket(entries, sort_type, now) {
                    Ok(m) => m,
                    Err(e) => {
                        return Err(e);
                    },
                };
                let ghost gm = m;
                let sel = process_groups(m, files_to_keep);
                let (to_keep, to_delete) = collect_paths(&sel);
                let report = render_dir_report(dir, sort_type, files_to_keep, &sel);
                let res = SelectionResult { to_keep, to_delete, report };
                proof {
                    assert(grouping_matches(entries@, *sort_type, now, gm) && selections_match(
                        gm,
                        files_to_keep as nat,
                        sel@,
                    ));
                    assert(dir_selection_matches(entries@, *sort_type, now, files_to_keep, sel@));
                }
                Ok(res)
            },
        },
        ScanInput::Tree(listings) => {
            let groups = match group_files_by_bucket_recursive(listings, sort_type, now) {
                Ok(g) => g,
                Err(e) => {
                    return Err(e);
                },
            };
            let ghost groups0 = groups@;
            let mut rest = groups;
            let mut sels: Vec<DirSelection> = Vec::new();
            while rest.len() > 0
                invariant
                    sels@.len() + rest@.len() == groups0.len(),
                    forall|j: int| 0 <= j < rest@.len() ==> rest@[j] == groups0[sels@.len() + j],
                    forall|j: int|
                        0 <= j < sels@.len() ==> (#[trigger] sels@[j]).dir == groups0[j].0
                            && selections_match(
                            groups0[j].1,
                            files_to_keep as nat,
                            sels@[j].buckets@,
                        ),
                decreases rest@.len(),
            {
                let (dir_name, m) = rest.remove(0);
                let bsel = process_groups(m, files_to_keep);
                sels.push(DirSelection { dir: dir_name, buckets: bsel });
            }
            proof {
                lemma_tree_selections_from_groups(
                    listings@,
                    *sort_type,
                    now,
                    files_to_keep,
                    groups0,
                    sels@,
                );
            }
            let mut to_keep: Vec<String> = Vec::new();
            let mut to_delete: Vec<String> = Vec::new();
            let mut report: Vec<String> = Vec::new();
            let mut i: usize = 0;
            while i < sels.len()
                invariant
                    0 <= i <= sels@.len(),
                    to_keep@ == spec_tree_keep_paths(sels@.take(i as int)),
                    to_delete@ == spec_tree_delete_paths(sels@.take(i as int)),
                    tree_report_matches(
                        sels@.take(i as int),
                        *sort_type,
                        files_to_keep,
                        report@,
                    ),
                decreases sels@.len() - i,
            {
                let ghost old_keep = to_keep@;
                let ghost old_delete = to_delete@;
                let ghost old_report = report@;
                let ds = &sels[i];
                let (mut k1, mut d1) = collect_paths(&ds.buckets);
                to_keep.append(&mut k1);
                to_delete.append(&mut d1);
                let mut lines = render_dir_report(&ds.dir, sort_type, files_to_keep, &ds.buckets);
                let ghost linesv = lines@;
                report.append(&mut lines);
                proof {
                    assert(sels@.take(i + 1).drop_last() =~= sels@.take(i as int));
                    assert(sels@.take(i + 1).last() == sels@[i as int]);
                    let l = 1 + spec_segments_len(sels@[i as int].buckets@);
                    assert(linesv.len() == l);
                    assert(report@.skip(report@.len() - l) =~= linesv);
                    assert(report@.take(report@.len() - l) =~= old_report);
                    assert(tree_report_matches(
                        sels@.take(i + 1),
                        *sort_type,
                        files_to_keep,
                        report@,
                    ));
                }
                i = i + 1;
            }
            proof {
                assert(sels@.take(sels@.len() as int) =~= sels@);
            }
            Ok(SelectionResult { to_keep, to_delete, report })
        },
    }
}

} // verus!
