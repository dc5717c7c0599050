//! Retention selection: inside one bucket, the files are ordered by
//! timestamp and split into a kept set of at most `files_to_keep` entries and
//! a delete set holding the remainder.

use vstd::prelude::*;
use itertools::Itertools;

use crate::grouping::BucketMap;
use crate::records::{sorted_by_time, FileRecord};

verus! {

/// Relies on itertools' `sorted_by_key` (a stable sort backed by
/// `slice::sort_by_key`): the result holds exactly the input records, in
/// ascending timestamp order.
#[verifier::external_body]
fn sort_records_by_time(records: Vec<FileRecord>) -> (r: Vec<FileRecord>)
    ensures
        r@.to_multiset() == records@.to_multiset(),
        sorted_by_time(r@),
{
    records.into_iter().sorted_by_key(|rec| rec.timestamp).collect()
}

/// The selection relation for one bucket: `keep` and `delete` together hold
/// exactly the bucket's files, in ascending timestamp order with `keep`
/// first, and `keep` holds `min(k, |files|)` of them. `keep` therefore holds
/// the oldest files of the bucket, which migrate into the next coarser
/// bucket as they age; ties between equal timestamps are resolved by the
/// stable sort.
pub open spec fn is_selection_of(
    files: Seq<FileRecord>,
    k: nat,
    keep: Seq<FileRecord>,
    delete: Seq<FileRecord>,
) -> bool {
    &&& (keep + delete).to_multiset() == files.to_multiset()
    &&& sorted_by_time(keep + delete)
    &&& keep.len() == if k <= files.len() {
        k as int
    } else {
        files.len() as int
    }
}

/// Splits one bucket's files at `min(files_to_keep, |files|)` after sorting
/// by timestamp: the first component keeps the oldest files, the second
/// holds the remainder, marked for deletion.
pub fn select_files(files: Vec<FileRecord>, files_to_keep: u32) -> (r: (
    Vec<FileRecord>,
    Vec<FileRecord>,
))
    ensures
        is_selection_of(files@, files_to_keep as nat, r.0@, r.1@),
{
    let mut keep = sort_records_by_time(files);
    let ghost sorted_seq = keep@;
    let split = if (files_to_keep as usize) < keep.len() {
        files_to_keep as usize
    } else {
        keep.len()
    };
    let delete = keep.split_off(split);
    proof {
        vstd::seq_lib::to_multiset_len(sorted_seq);
        vstd::seq_lib::to_multiset_len(files@);
        assert(keep@ + delete@ =~= sorted_seq);
    }
    (keep, delete)
}

/// The keep/delete split of one bucket.
#[derive(Debug)]
pub struct BucketSelection {
    pub bucket_id: u64,
    pub keep: Vec<FileRecord>,
    pub delete: Vec<FileRecord>,
}

/// The selection relation for a whole directory: one `BucketSelection` per
/// bucket, in the map's ascending bucket order, each a valid split of that
/// bucket's files.
pub open spec fn selections_match(m: BucketMap, k: nat, sel: Seq<BucketSelection>) -> bool {
    &&& sel.len() == m.buckets.len()
    &&& forall|i: int|
        0 <= i < sel.len() ==> (#[trigger] sel[i]).bucket_id == m.buckets[i].bucket_id
            && is_selection_of(m.buckets[i].files@, k, sel[i].keep@, sel[i].delete@)
}

/// Splits every bucket of the map independently: each bucket's files are
/// sorted by timestamp and divided into the kept oldest `files_to_keep`
/// entries and the remainder to delete.
pub fn process_groups(groups: BucketMap, files_to_keep: u32) -> (sel: Vec<BucketSelection>)
    ensures
        selections_match(groups, files_to_keep as nat, sel@),
{
    let ghost orig = groups.buckets@;
    let mut rest = groups.buckets;
    let mut sel: Vec<BucketSelection> = Vec::new();
    while rest.len() > 0
        invariant
            sel@.len() + rest@.len() == orig.len(),
            forall|i: int| 0 <= i < rest@.len() ==> rest@[i] == orig[sel@.len() + i],
            forall|i: int|
                0 <= i < sel@.len() ==> (#[trigger] sel@[i]).bucket_id == orig[i].bucket_id
                    && is_selection_of(
                    orig[i].files@,
                    files_to_keep as nat,
                    sel@[i].keep@,
                    sel@[i].delete@,
                ),
        decreases rest@.len(),
    {
        let bucket = rest.remove(0);
        let bucket_id = bucket.bucket_id;
        let (keep, delete) = select_files(bucket.files, files_to_keep);
        sel.push(BucketSelection { bucket_id, keep, delete });
    }
    sel
}

/// The kept paths of a selection, bucket by bucket in order.
pub open spec fn spec_keep_paths(sel: Seq<BucketSelection>) -> Seq<String>
    decreases sel.len(),
{
    if sel.len() == 0 {
        Seq::empty()
    } else {
        spec_keep_paths(sel.drop_last()) + sel.last().keep@.map_values(|r: FileRecord| r.path)
    }
}

/// The paths marked for deletion, bucket by bucket in order.
pub open spec fn spec_delete_paths(sel: Seq<BucketSelection>) -> Seq<String>
    decreases sel.len(),
{
    if sel.len() == 0 {
        Seq::empty()
    } else {
        spec_delete_paths(sel.drop_last()) + sel.last().delete@.map_values(|r: FileRecord| r.path)
    }
}

/// Copies the paths of a record sequence, in order.
fn record_paths(records: &Vec<FileRecord>) -> (r: Vec<String>)
    ensures
        r@ == records@.map_values(|rec: FileRecord| rec.path),
{
    let mut r: Vec<String> = Vec::new();
    let mut i: usize = 0;
    while i < records.len()
        invariant
            0 <= i <= records@.len(),
            r@ == records@.take(i as int).map_values(|rec: FileRecord| rec.path),
        decreases records@.len() - i,
    {
        r.push(records[i].path.clone());
        proof {
            assert(records@.take(i + 1).map_values(|rec: FileRecord| rec.path) =~= records@.take(
                i as int,
            ).map_values(|rec: FileRecord| rec.path).push(records@[i as int].path));
        }
        i = i + 1;
    }
    proof {
        assert(records@.take(records@.len() as int) =~= records@);
    }
    r
}

/// Flattens a selection into its kept paths and its paths to delete, in
/// bucket order.
pub fn collect_paths(sel: &Vec<BucketSelection>) -> (r: (Vec<String>, Vec<String>))
    ensures
        r.0@ == spec_keep_paths(sel@),
        r.1@ == spec_delete_paths(sel@),
{
    let mut keep: Vec<String> = Vec::new();
    let mut delete: Vec<String> = Vec::new();
    let mut i: usize = 0;
    while i < sel.len()
        invariant
            0 <= i <= sel@.len(),
            keep@ == spec_keep_paths(sel@.take(i as int)),
            delete@ == spec_delete_paths(sel@.take(i as int)),
        decreases sel@.len() - i,
    {
        let mut bucket_keep = record_paths(&sel[i].keep);
        let mut bucket_delete = record_paths(&sel[i].delete);
        keep.append(&mut bucket_keep);
        delete.append(&mut bucket_delete);
        proof {
            assert(sel@.take(i + 1).drop_last() =~= sel@.take(i as int));
            assert(sel@.take(i + 1).last() == sel@[i as int]);
        }
        i = i + 1;
    }
    proof {
        assert(sel@.take(sel@.len() as int) =~= sel@);
    }
    (keep, delete)
}

/// Partition sizes: the kept and deleted files of a bucket together count
/// the whole bucket, and exactly `min(k, |files|)` files are kept; within
/// the bucket, every kept timestamp is at most every deleted timestamp
/// (the kept files are the oldest of the bucket).
pub proof fn lemma_selection_partition(
    files: Seq<FileRecord>,
    k: nat,
    keep: Seq<FileRecord>,
    delete: Seq<FileRecord>,
)
    requires
        is_selection_of(files, k, keep, delete),
    ensures
        keep.len() + delete.len() == files.len(),
        keep.len() == if k <= files.len() {
            k as int
        } else {
            files.len() as int
        },
        forall|i: int, j: int|
            0 <= i < keep.len() && 0 <= j < delete.len() ==> #[trigger] keep[i].timestamp
                <= #[trigger] delete[j].timestamp,
{
    vstd::seq_lib::to_multiset_len(keep + delete);
    vstd::seq_lib::to_multiset_len(files);
    assert forall|i: int, j: int|
        0 <= i < keep.len() && 0 <= j < delete.len() implies #[trigger] keep[i].timestamp
        <= #[trigger] delete[j].timestamp by {
        let s = keep + delete;
        assert(s[i] == keep[i]);
        assert(s[keep.len() + j] == delete[j]);
    }
}

/// With a keep count of zero, every file of the bucket lands in the delete
/// set.
pub proof fn lemma_keep_zero_deletes_all(
    files: Seq<FileRecord>,
    keep: Seq<FileRecord>,
    delete: Seq<FileRecord>,
)
    requires
        is_selection_of(files, 0, keep, delete),
    ensures
        delete.to_multiset() == files.to_multiset(),
        keep.len() == 0,
{
    assert(keep + delete =~= delete);
}

/// With a keep count at least the bucket size, nothing in the bucket is
/// deleted.
pub proof fn lemma_keep_all_deletes_none(
    files: Seq<FileRecord>,
    k: nat,
    keep: Seq<FileRecord>,
    delete: Seq<FileRecord>,
)
    requires
        is_selection_of(files, k, keep, delete),
        k >= files.len(),
    ensures
        delete.len() == 0,
        keep.to_multiset() == files.to_multiset(),
{
    vstd::seq_lib::to_multiset_len(keep + delete);
    vstd::seq_lib::to_multiset_len(files);
    assert(keep + delete =~= keep);
}

proof fn lemma_keep_paths_empty(sel: Seq<BucketSelection>)
    requires
        forall|i: int| 0 <= i < sel.len() ==> (#[trigger] sel[i]).keep@.len() == 0,
    ensures
        spec_keep_paths(sel).len() == 0,
    decreases sel.len(),
{
    if sel.len() > 0 {
        assert forall|i: int|
            0 <= i < sel.drop_last().len() implies (#[trigger] sel.drop_last()[i]).keep@.len()
            == 0 by {
            assert(sel.drop_last()[i] == sel[i]);
        }
        lemma_keep_paths_empty(sel.drop_last());
    }
}

proof fn lemma_delete_paths_empty(sel: Seq<BucketSelection>)
    requires
        forall|i: int| 0 <= i < sel.len() ==> (#[trigger] sel[i]).delete@.len() == 0,
    ensures
        spec_delete_paths(sel).len() == 0,
    decreases sel.len(),
{
    if sel.len() > 0 {
        assert forall|i: int|
            0 <= i < sel.drop_last().len() implies (#[trigger] sel.drop_last()[i]).delete@.len()
            == 0 by {
            assert(sel.drop_last()[i] == sel[i]);
        }
        lemma_delete_paths_empty(sel.drop_last());
    }
}

/// With a keep count of zero, every file of every bucket is slated for
/// deletion: each bucket's delete set holds exactly the bucket's files, and
/// nothing at all is kept.
pub proof fn lemma_keep_zero_all_buckets(m: BucketMap, sel: Seq<BucketSelection>)
    requires
        selections_match(m, 0, sel),
    ensures
        forall|i: int|
            0 <= i < sel.len() ==> (#[trigger] sel[i]).delete@.to_multiset()
                == m.buckets[i].files@.to_multiset(),
        forall|i: int| 0 <= i < sel.len() ==> (#[trigger] sel[i]).keep@.len() == 0,
        spec_keep_paths(sel).len() == 0,
{
    assert forall|i: int|
        0 <= i < sel.len() implies (#[trigger] sel[i]).delete@.to_multiset()
        == m.buckets[i].files@.to_multiset() && sel[i].keep@.len() == 0 by {
        lemma_keep_zero_deletes_all(m.buckets[i].files@, sel[i].keep@, sel[i].delete@);
    }
    lemma_keep_paths_empty(sel);
}

/// With a keep count at least every bucket's size, nothing is deleted
/// anywhere: every delete set is empty, and so is the flattened delete list.
pub proof fn lemma_keep_all_no_deletions(m: BucketMap, k: nat, sel: Seq<BucketSelection>)
    requires
        selections_match(m, k, sel),
        forall|i: int| 0 <= i < m.buckets.len() ==> k >= (#[trigger] m.buckets[i]).files@.len(),
    ensures
        forall|i: int| 0 <= i < sel.len() ==> (#[trigger] sel[i]).delete@.len() == 0,
        spec_delete_paths(sel).len() == 0,
{
    assert forall|i: int| 0 <= i < sel.len() implies (#[trigger] sel[i]).delete@.len() == 0 by {
        lemma_keep_all_deletes_none(m.buckets[i].files@, k, sel[i].keep@, sel[i].delete@);
    }
    lemma_delete_paths_empty(sel);
}

} // verus!
