//! Directory grouping: partitions the regular files of one directory into
//! exponential age buckets, and repeats per directory in recursive mode.

use vstd::prelude::*;

use crate::buckets::{bucket_for_days, spec_bucket_for_days, MAX_BUCKET_AGE_DAYS};
use crate::errors::RetentionError;
use crate::records::FileRecord;
use crate::times::{get_time_type, spec_selected_time, FileMeta, SortType};

verus! {

/// One scanned directory entry: the file's path and its timestamps.
#[derive(Debug)]
pub struct ScanEntry {
    pub path: String,
    pub meta: FileMeta,
}

impl Clone for ScanEntry {
    fn clone(&self) -> (r: Self)
        ensures
            r == *self,
    {
        ScanEntry { path: self.path.clone(), meta: self.meta }
    }
}

/// The files of one exponential age bucket, in scan order.
#[derive(Debug)]
pub struct Bucket {
    pub bucket_id: u64,
    pub files: Vec<FileRecord>,
}

/// All buckets of one directory, ordered by ascending bucket label.
#[derive(Debug)]
pub struct BucketMap {
    pub buckets: Vec<Bucket>,
}

impl BucketMap {
    /// Bucket labels strictly increase and no bucket is empty.
    pub open spec fn wf(self) -> bool {
        &&& forall|i: int, j: int|
            0 <= i < j < self.buckets.len() ==> #[trigger] self.buckets[i].bucket_id
                < #[trigger] self.buckets[j].bucket_id
        &&& forall|i: int|
            0 <= i < self.buckets.len() ==> #[trigger] self.buckets[i].files.len() > 0
    }

    pub open spec fn spec_has_bucket(self, id: nat) -> bool {
        exists|i: int| 0 <= i < self.buckets.len() && (#[trigger] self.buckets[i]).bucket_id == id
    }
}

/// An entry is eligible when its selected timestamp is not in the future;
/// files with timestamps beyond `now` are silently skipped.
pub open spec fn spec_eligible(entry: ScanEntry, sort_type: SortType, now: u64) -> bool {
    spec_selected_time(entry.meta, sort_type) <= now
}

/// The age of an eligible entry in whole days.
pub open spec fn spec_age_days(entry: ScanEntry, sort_type: SortType, now: u64) -> nat {
    (((now - spec_selected_time(entry.meta, sort_type)) as nat) / 86400) as nat
}

/// The bucket label an eligible entry falls under.
pub open spec fn spec_entry_bucket(entry: ScanEntry, sort_type: SortType, now: u64) -> nat {
    spec_bucket_for_days(spec_age_days(entry, sort_type, now))
}

/// The record an entry contributes to its bucket.
pub open spec fn spec_record_of(entry: ScanEntry, sort_type: SortType) -> FileRecord {
    FileRecord { path: entry.path, timestamp: spec_selected_time(entry.meta, sort_type) }
}

/// The records of the eligible entries that fall in bucket `id`, in scan
/// order.
pub open spec fn spec_bucket_records(
    entries: Seq<ScanEntry>,
    sort_type: SortType,
    now: u64,
    id: nat,
) -> Seq<FileRecord>
    decreases entries.len(),
{
    if entries.len() == 0 {
        Seq::empty()
    } else {
        let prefix = spec_bucket_records(entries.drop_last(), sort_type, now, id);
        let e = entries.last();
        if spec_eligible(e, sort_type, now) && spec_entry_bucket(e, sort_type, now) == id {
            prefix.push(spec_record_of(e, sort_type))
        } else {
            prefix
        }
    }
}

/// Whether any entry is eligible.
pub open spec fn spec_has_eligible(entries: Seq<ScanEntry>, sort_type: SortType, now: u64) -> bool {
    exists|i: int| 0 <= i < entries.len() && spec_eligible(#[trigger] entries[i], sort_type, now)
}

/// The grouping relation: `m` holds exactly the eligible entries of
/// `entries`, bucketed by age, with bucket labels ascending and each
/// bucket's files in scan order.
pub open spec fn grouping_matches(
    entries: Seq<ScanEntry>,
    sort_type: SortType,
    now: u64,
    m: BucketMap,
) -> bool {
    &&& m.wf()
    &&& forall|i: int|
        0 <= i < m.buckets.len() ==> (#[trigger] m.buckets[i]).files@ == spec_bucket_records(
            entries,
            sort_type,
            now,
            m.buckets[i].bucket_id as nat,
        )
    &&& forall|id: nat|
        m.spec_has_bucket(id) <==> spec_bucket_records(entries, sort_type, now, id).len() > 0
}

/// Extending the scanned prefix by one entry extends exactly the records of
/// that entry's bucket, and no other.
proof fn lemma_bucket_records_step(
    entries: Seq<ScanEntry>,
    sort_type: SortType,
    now: u64,
    i: int,
    id: nat,
)
    requires
        0 <= i < entries.len(),
    ensures
        spec_bucket_records(entries.take(i + 1), sort_type, now, id) == if spec_eligible(
            entries[i],
            sort_type,
            now,
        ) && spec_entry_bucket(entries[i], sort_type, now) == id {
            spec_bucket_records(entries.take(i), sort_type, now, id).push(
                spec_record_of(entries[i], sort_type),
            )
        } else {
            spec_bucket_records(entries.take(i), sort_type, now, id)
        },
{
    assert(entries.take(i + 1).drop_last() =~= entries.take(i));
    assert(entries.take(i + 1).last() == entries[i]);
}

/// An eligible entry guarantees its bucket is non-empty.
proof fn lemma_eligible_fills_bucket(
    entries: Seq<ScanEntry>,
    sort_type: SortType,
    now: u64,
    i: int,
)
    requires
        0 <= i < entries.len(),
        spec_eligible(entries[i], sort_type, now),
    ensures
        spec_bucket_records(
            entries,
            sort_type,
            now,
            spec_entry_bucket(entries[i], sort_type, now),
        ).len() > 0,
    decreases entries.len(),
{
    if i < entries.len() - 1 {
        assert(entries.drop_last()[i] == entries[i]);
        lemma_eligible_fills_bucket(entries.drop_last(), sort_type, now, i);
    }
}

/// A non-empty bucket traces back to some eligible entry.
proof fn lemma_bucket_records_source(
    entries: Seq<ScanEntry>,
    sort_type: SortType,
    now: u64,
    id: nat,
)
    requires
        spec_bucket_records(entries, sort_type, now, id).len() > 0,
    ensures
        spec_has_eligible(entries, sort_type, now),
    decreases entries.len(),
{
    let e = entries.last();
    if spec_eligible(e, sort_type, now) && spec_entry_bucket(e, sort_type, now) == id {
        assert(spec_eligible(entries[entries.len() - 1], sort_type, now));
    } else {
        lemma_bucket_records_source(entries.drop_last(), sort_type, now, id);
        let w = choose|w: int|
            0 <= w < entries.drop_last().len() && spec_eligible(
                #[trigger] entries.drop_last()[w],
                sort_type,
                now,
            );
        assert(entries[w] == entries.drop_last()[w]);
    }
}

/// The files currently held under bucket label `id`, or the empty sequence
/// when no such bucket exists.
pub open spec fn spec_files_of(m: BucketMap, id: nat) -> Seq<FileRecord> {
    if m.spec_has_bucket(id) {
        let j = choose|j: int| 0 <= j < m.buckets.len() && (#[trigger] m.buckets[j]).bucket_id == id;
        m.buckets[j].files@
    } else {
        Seq::empty()
    }
}

/// In a well-formed map the bucket found under a label is the only one.
proof fn lemma_files_of_at(m: BucketMap, j: int)
    requires
        m.wf(),
        0 <= j < m.buckets.len(),
    ensures
        spec_files_of(m, m.buckets[j].bucket_id as nat) == m.buckets[j].files@,
{
    let id = m.buckets[j].bucket_id as nat;
    assert(m.spec_has_bucket(id));
    let j0 = choose|j0: int| 0 <= j0 < m.buckets.len() && (#[trigger] m.buckets[j0]).bucket_id == id;
    if j0 < j {
        assert(m.buckets[j0].bucket_id < m.buckets[j].bucket_id);
    } else if j < j0 {
        assert(m.buckets[j].bucket_id < m.buckets[j0].bucket_id);
    }
}

/// Inserts one record into the bucket labelled `id`, creating the bucket at
/// its sorted position when it does not exist yet.
fn insert_record(m: &mut BucketMap, id: u64, rec: FileRecord)
    requires
        old(m).wf(),
    ensures
        final(m).wf(),
        forall|bid: nat|
            final(m).spec_has_bucket(bid) <==> (old(m).spec_has_bucket(bid) || bid == id as nat),
        spec_files_of(*final(m), id as nat) == spec_files_of(*old(m), id as nat).push(rec),
        forall|bid: nat|
            bid != id as nat ==> #[trigger] spec_files_of(*final(m), bid) == spec_files_of(
                *old(m),
                bid,
            ),
{
    let ghost m0 = *m;
    let mut pos: usize = 0;
    while pos < m.buckets.len() && m.buckets[pos].bucket_id < id
        invariant
            *m == m0,
            0 <= pos <= m.buckets.len(),
            forall|j: int| 0 <= j < pos ==> (#[trigger] m.buckets[j]).bucket_id < id,
        decreases m.buckets.len() - pos,
    {
        pos = pos + 1;
    }
    if pos < m.buckets.len() && m.buckets[pos].bucket_id == id {
        let mut bucket = m.buckets.remove(pos);
        bucket.files.push(rec);
        let ghost b2 = bucket;
        m.buckets.insert(pos, bucket);
        proof {
            assert(m.buckets@ =~= m0.buckets@.update(pos as int, b2));
            lemma_update_existing(m0, *m, pos as int, b2, rec);
        }
    } else {
        let mut files: Vec<FileRecord> = Vec::new();
        files.push(rec);
        let bucket = Bucket { bucket_id: id, files };
        let ghost b2 = bucket;
        m.buckets.insert(pos, bucket);
        proof {
            assert forall|j: int|
                pos <= j < m0.buckets.len() implies (#[trigger] m0.buckets[j]).bucket_id > id by {
                if pos < j {
                    assert(m0.buckets[pos as int].bucket_id < m0.buckets[j].bucket_id);
                }
            }
            lemma_insert_new(m0, *m, pos as int, b2, rec);
        }
    }
}

/// Replacing the bucket at `pos` by the same bucket with one record appended
/// keeps the map well-formed and changes only that bucket's files.
proof fn lemma_update_existing(m0: BucketMap, m: BucketMap, pos: int, b: Bucket, rec: FileRecord)
    requires
        m0.wf(),
        0 <= pos < m0.buckets.len(),
        m0.buckets[pos].bucket_id == b.bucket_id,
        b.files@ == m0.buckets[pos].files@.push(rec),
        m.buckets@ == m0.buckets@.update(pos, b),
    ensures
        m.wf(),
        forall|bid: nat|
            m.spec_has_bucket(bid) <==> (m0.spec_has_bucket(bid) || bid == b.bucket_id as nat),
        spec_files_of(m, b.bucket_id as nat) == spec_files_of(m0, b.bucket_id as nat).push(rec),
        forall|bid: nat|
            bid != b.bucket_id as nat ==> #[trigger] spec_files_of(m, bid) == spec_files_of(
                m0,
                bid,
            ),
{
    let id = b.bucket_id;
    assert(m.wf());
    assert forall|bid: nat| m.spec_has_bucket(bid) <==> (m0.spec_has_bucket(bid) || bid
        == id as nat) by {
        if m.spec_has_bucket(bid) {
            let j = choose|j: int|
                0 <= j < m.buckets.len() && (#[trigger] m.buckets[j]).bucket_id == bid;
            assert(m0.buckets[j].bucket_id as nat == bid || bid == id as nat);
            assert(m0.spec_has_bucket(bid) || bid == id as nat);
        }
        if m0.spec_has_bucket(bid) {
            let j = choose|j: int|
                0 <= j < m0.buckets.len() && (#[trigger] m0.buckets[j]).bucket_id == bid;
            assert(m.buckets[j].bucket_id as nat == bid);
        }
        if bid == id as nat {
            assert(m.buckets[pos].bucket_id as nat == bid);
        }
    }
    lemma_files_of_at(m0, pos);
    lemma_files_of_at(m, pos);
    assert forall|bid: nat|
        bid != id as nat implies #[trigger] spec_files_of(m, bid) == spec_files_of(m0, bid) by {
        lemma_files_of_agree(m0, m, bid);
    }
}

/// Inserting a fresh bucket at its sorted position keeps the map well-formed,
/// adds exactly that label, and leaves every other bucket's files unchanged.
proof fn lemma_insert_new(m0: BucketMap, m: BucketMap, pos: int, b: Bucket, rec: FileRecord)
    requires
        m0.wf(),
        0 <= pos <= m0.buckets.len(),
        forall|j: int| 0 <= j < pos ==> (#[trigger] m0.buckets[j]).bucket_id < b.bucket_id,
        forall|j: int|
            pos <= j < m0.buckets.len() ==> (#[trigger] m0.buckets[j]).bucket_id > b.bucket_id,
        b.files@ == Seq::<FileRecord>::empty().push(rec),
        m.buckets@ == m0.buckets@.insert(pos, b),
    ensures
        m.wf(),
        forall|bid: nat|
            m.spec_has_bucket(bid) <==> (m0.spec_has_bucket(bid) || bid == b.bucket_id as nat),
        spec_files_of(m, b.bucket_id as nat) == spec_files_of(m0, b.bucket_id as nat).push(rec),
        forall|bid: nat|
            bid != b.bucket_id as nat ==> #[trigger] spec_files_of(m, bid) == spec_files_of(
                m0,
                bid,
            ),
{
    let id = b.bucket_id;
    let bs = m0.buckets@;
    let nbs = m.buckets@;
    bs.insert_ensures(pos, b);
    assert(!m0.spec_has_bucket(id as nat)) by {
        if m0.spec_has_bucket(id as nat) {
            let j = choose|j: int| 0 <= j < bs.len() && (#[trigger] bs[j]).bucket_id == id as nat;
        }
    }
    assert forall|i: int, j: int| 0 <= i < j < nbs.len() implies (#[trigger] nbs[i]).bucket_id
        < (#[trigger] nbs[j]).bucket_id by {
        if j < pos {
        } else if i < pos && j == pos {
        } else if i < pos && j > pos {
            assert(nbs[j] == bs[j - 1]);
            if j - 1 > i {
                assert(bs[i].bucket_id < bs[j - 1].bucket_id);
            }
            assert(bs[j - 1].bucket_id > id);
        } else if i == pos {
            assert(nbs[j] == bs[j - 1]);
            assert(bs[j - 1].bucket_id > id);
        } else {
            assert(nbs[i] == bs[i - 1]);
            assert(nbs[j] == bs[j - 1]);
            assert(bs[i - 1].bucket_id < bs[j - 1].bucket_id);
        }
    }
    assert(m.wf());
    assert forall|bid: nat| m.spec_has_bucket(bid) <==> (m0.spec_has_bucket(bid) || bid
        == id as nat) by {
        if m.spec_has_bucket(bid) {
            let j = choose|j: int| 0 <= j < nbs.len() && (#[trigger] nbs[j]).bucket_id == bid;
            if j < pos {
                assert(bs[j].bucket_id as nat == bid);
            } else if j == pos {
            } else {
                assert(nbs[j] == bs[j - 1]);
                assert(bs[j - 1].bucket_id as nat == bid);
            }
        }
        if m0.spec_has_bucket(bid) {
            let j = choose|j: int| 0 <= j < bs.len() && (#[trigger] bs[j]).bucket_id == bid;
            if j < pos {
                assert(nbs[j].bucket_id as nat == bid);
            } else {
                assert(nbs[j + 1] == bs[j]);
                assert(nbs[j + 1].bucket_id as nat == bid);
            }
        }
        if bid == id as nat {
            assert(nbs[pos].bucket_id as nat == bid);
        }
    }
    lemma_files_of_at(m, pos);
    assert(spec_files_of(m0, id as nat) =~= Seq::<FileRecord>::empty());
    assert(spec_files_of(m, id as nat) =~= Seq::<FileRecord>::empty().push(rec));
    assert forall|bid: nat|
        bid != id as nat implies #[trigger] spec_files_of(m, bid) == spec_files_of(m0, bid) by {
        lemma_files_of_agree(m0, m, bid);
    }
}

/// Two well-formed maps that both hold a bucket with the same label and the
/// same files under it agree on `spec_files_of` for that label.
proof fn lemma_files_of_agree(m1: BucketMap, m2: BucketMap, bid: nat)
    requires
        m1.wf(),
        m2.wf(),
        m1.spec_has_bucket(bid) <==> m2.spec_has_bucket(bid),
        forall|j1: int, j2: int|
            0 <= j1 < m1.buckets.len() && 0 <= j2 < m2.buckets.len()
                && (#[trigger] m1.buckets[j1]).bucket_id == bid
                && (#[trigger] m2.buckets[j2]).bucket_id == bid ==> m1.buckets[j1].files@
                == m2.buckets[j2].files@,
    ensures
        spec_files_of(m1, bid) == spec_files_of(m2, bid),
{
    if m1.spec_has_bucket(bid) {
        let j1 = choose|j: int|
            0 <= j < m1.buckets.len() && (#[trigger] m1.buckets[j]).bucket_id == bid;
        let j2 = choose|j: int|
            0 <= j < m2.buckets.len() && (#[trigger] m2.buckets[j]).bucket_id == bid;
        lemma_files_of_at(m1, j1);
        lemma_files_of_at(m2, j2);
    }
}

/// Partitions the eligible files of one directory's entries into exponential
/// age buckets. Fails with `EmptyResult` when no entry is eligible (an empty
/// directory, or one whose entries are all in the future): a grouping is
/// never silently empty.
pub fn group_files_by_bucket(entries: &Vec<ScanEntry>, sort_type: &SortType, now: u64) -> (r:
    Result<BucketMap, RetentionError>)
    ensures
        match r {
            Result::Ok(m) => spec_has_eligible(entries@, *sort_type, now) && grouping_matches(
                entries@,
                *sort_type,
                now,
                m,
            ),
            Result::Err(e) => !spec_has_eligible(entries@, *sort_type, now) && e
                == RetentionError::EmptyResult,
        },
{
    let mut m = BucketMap { buckets: Vec::new() };
    let n = entries.len();
    let mut i: usize = 0;
    while i < n
        invariant
            n == entries.len(),
            0 <= i <= n,
            m.wf(),
            forall|id: nat| #[trigger]
                spec_files_of(m, id) == spec_bucket_records(
                    entries@.take(i as int),
                    *sort_type,
                    now,
                    id,
                ),
            forall|id: nat|
                m.spec_has_bucket(id) <==> spec_bucket_records(
                    entries@.take(i as int),
                    *sort_type,
                    now,
                    id,
                ).len() > 0,
        decreases n - i,
    {
        let ghost prev = entries@.take(i as int);
        let ghost next = entries@.take(i as int + 1);
        let entry = &entries[i];
        let t = get_time_type(&entry.meta, sort_type);
        if t <= now {
            let age_secs = now - t;
            let days = age_secs / 86400;
            proof {
                assert(days <= MAX_BUCKET_AGE_DAYS);
                assert(spec_eligible(entries@[i as int], *sort_type, now));
                assert(days as nat == spec_age_days(entries@[i as int], *sort_type, now));
            }
            let id = bucket_for_days(days);
            let rec = FileRecord { path: entry.path.clone(), timestamp: t };
            proof {
                assert(id as nat == spec_entry_bucket(entries@[i as int], *sort_type, now));
                assert(rec == spec_record_of(entries@[i as int], *sort_type));
            }
            insert_record(&mut m, id, rec);
            proof {
                assert forall|bid: nat| #[trigger]
                    spec_files_of(m, bid) == spec_bucket_records(next, *sort_type, now, bid) by {
                    lemma_bucket_records_step(entries@, *sort_type, now, i as int, bid);
                }
                assert forall|bid: nat| m.spec_has_bucket(bid) <==> spec_bucket_records(
                    next,
                    *sort_type,
                    now,
                    bid,
                ).len() > 0 by {
                    lemma_bucket_records_step(entries@, *sort_type, now, i as int, bid);
                    if bid == id as nat {
                        assert(spec_bucket_records(next, *sort_type, now, bid).len() > 0);
                    }
                }
            }
        } else {
            proof {
                assert forall|bid: nat|
                    spec_bucket_records(next, *sort_type, now, bid) == spec_bucket_records(
                        prev,
                        *sort_type,
                        now,
                        bid,
                    ) by {
                    lemma_bucket_records_step(entries@, *sort_type, now, i as int, bid);
                }
            }
        }
        i = i + 1;
    }
    proof {
        assert(entries@.take(n as int) =~= entries@);
    }
    if m.buckets.is_empty() {
        proof {
            if spec_has_eligible(entries@, *sort_type, now) {
                let w = choose|w: int|
                    0 <= w < entries@.len() && spec_eligible(
                        #[trigger] entries@[w],
                        *sort_type,
                        now,
                    );
                lemma_eligible_fills_bucket(entries@, *sort_type, now, w);
                let bid = spec_entry_bucket(entries@[w], *sort_type, now);
                assert(spec_bucket_records(entries@.take(n as int), *sort_type, now, bid).len()
                    > 0);
                assert(m.spec_has_bucket(bid));
            }
        }
        Err(RetentionError::EmptyResult)
    } else {
        proof {
            let bid = m.buckets[0].bucket_id as nat;
            assert(m.spec_has_bucket(bid));
            lemma_bucket_records_source(entries@, *sort_type, now, bid);
            assert forall|j: int| 0 <= j < m.buckets.len() implies (#[trigger] m.buckets[j]).files@
                == spec_bucket_records(
                entries@,
                *sort_type,
                now,
                m.buckets[j].bucket_id as nat,
            ) by {
                lemma_files_of_at(m, j);
            }
        }
        Ok(m)
    }
}

/// The direct regular files of one directory of a walked tree.
#[derive(Debug)]
pub struct DirListing {
    pub dir: String,
    pub entries: Vec<ScanEntry>,
}

impl Clone for DirListing {
    fn clone(&self) -> (r: Self)
        ensures
            r.dir == self.dir,
            r.entries@ == self.entries@,
    {
        let mut entries: Vec<ScanEntry> = Vec::new();
        let mut i: usize = 0;
        while i < self.entries.len()
            invariant
                0 <= i <= self.entries@.len(),
                entries@ == self.entries@.take(i as int),
            decreases self.entries@.len() - i,
        {
            entries.push(self.entries[i].clone());
            i = i + 1;
        }
        proof {
            assert(self.entries@.take(self.entries@.len() as int) =~= self.entries@);
        }
        DirListing { dir: self.dir.clone(), entries }
    }
}

/// The recursive grouping relation: one (directory, bucket map) pair per
/// walked directory with at least one eligible file, in walk order; each map
/// groups only that directory's own entries.
pub open spec fn recursive_grouping_matches(
    listings: Seq<DirListing>,
    sort_type: SortType,
    now: u64,
    out: Seq<(String, BucketMap)>,
) -> bool
    decreases listings.len(),
{
    if listings.len() == 0 {
        out.len() == 0
    } else {
        let l = listings.last();
        if spec_has_eligible(l.entries@, sort_type, now) {
            &&& out.len() > 0
            &&& out.last().0 == l.dir
            &&& grouping_matches(l.entries@, sort_type, now, out.last().1)
            &&& recursive_grouping_matches(listings.drop_last(), sort_type, now, out.drop_last())
        } else {
            recursive_grouping_matches(listings.drop_last(), sort_type, now, out)
        }
    }
}

/// With an empty recursive result, no walked directory had an eligible file.
pub proof fn lemma_recursive_grouping_empty(
    listings: Seq<DirListing>,
    sort_type: SortType,
    now: u64,
    out: Seq<(String, BucketMap)>,
)
    requires
        recursive_grouping_matches(listings, sort_type, now, out),
        out.len() == 0,
    ensures
        forall|i: int|
            0 <= i < listings.len() ==> !spec_has_eligible(
                (#[trigger] listings[i]).entries@,
                sort_type,
                now,
            ),
    decreases listings.len(),
{
    if listings.len() > 0 {
        lemma_recursive_grouping_empty(listings.drop_last(), sort_type, now, out);
        assert forall|i: int|
            0 <= i < listings.len() implies !spec_has_eligible(
            (#[trigger] listings[i]).entries@,
            sort_type,
            now,
        ) by {
            if i < listings.len() - 1 {
                assert(listings.drop_last()[i] == listings[i]);
            }
        }
    }
}

/// Directories are grouped independently: the map recorded for a directory
/// with eligible files is a valid grouping of that directory's own entries,
/// untouched by the other directories.
pub proof fn lemma_recursive_grouping_independent(
    listings: Seq<DirListing>,
    sort_type: SortType,
    now: u64,
    out: Seq<(String, BucketMap)>,
    i: int,
)
    requires
        recursive_grouping_matches(listings, sort_type, now, out),
        0 <= i < listings.len(),
        spec_has_eligible(listings[i].entries@, sort_type, now),
    ensures
        exists|j: int|
            0 <= j < out.len() && (#[trigger] out[j]).0 == listings[i].dir && grouping_matches(
                listings[i].entries@,
                sort_type,
                now,
                out[j].1,
            ),
    decreases listings.len(),
{
    let l = listings.last();
    if i == listings.len() - 1 {
        assert(out[out.len() - 1].0 == listings[i].dir);
    } else {
        assert(listings.drop_last()[i] == listings[i]);
        if spec_has_eligible(l.entries@, sort_type, now) {
            lemma_recursive_grouping_independent(
                listings.drop_last(),
                sort_type,
                now,
                out.drop_last(),
                i,
            );
            let j = choose|j: int|
                0 <= j < out.drop_last().len() && (#[trigger] out.drop_last()[j]).0
                    == listings[i].dir && grouping_matches(
                    listings[i].entries@,
                    sort_type,
                    now,
                    out.drop_last()[j].1,
                );
            assert(out[j] == out.drop_last()[j]);
        } else {
            lemma_recursive_grouping_independent(listings.drop_last(), sort_type, now, out, i);
        }
    }
}

/// Whether any of a directory's entries is eligible.
pub fn has_eligible_entry(entries: &Vec<ScanEntry>, sort_type: &SortType, now: u64) -> (r: bool)
    ensures
        r == spec_has_eligible(entries@, *sort_type, now),
{
    let mut i: usize = 0;
    while i < entries.len()
        invariant
            0 <= i <= entries@.len(),
            forall|j: int|
                0 <= j < i ==> !spec_eligible(#[trigger] entries@[j], *sort_type, now),
        decreases entries@.len() - i,
    {
        let t = get_time_type(&entries[i].meta, sort_type);
        if t <= now {
            return true;
        }
        i = i + 1;
    }
    false
}

/// The walked directories that hold no eligible file, in walk order; the
/// recursive run skips each of these with a notice instead of failing.
pub open spec fn spec_skipped_dirs(listings: Seq<DirListing>, sort_type: SortType, now: u64) -> Seq<
    String,
>
    decreases listings.len(),
{
    if listings.len() == 0 {
        Seq::empty()
    } else {
        let prefix = spec_skipped_dirs(listings.drop_last(), sort_type, now);
        if spec_has_eligible(listings.last().entries@, sort_type, now) {
            prefix
        } else {
            prefix.push(listings.last().dir)
        }
    }
}

/// Lists the walked directories without eligible files, in walk order.
pub fn skipped_directories(listings: &Vec<DirListing>, sort_type: &SortType, now: u64) -> (r: Vec<
    String,
>)
    ensures
        r@ == spec_skipped_dirs(listings@, *sort_type, now),
{
    let mut r: Vec<String> = Vec::new();
    let mut i: usize = 0;
    while i < listings.len()
        invariant
            0 <= i <= listings@.len(),
            r@ == spec_skipped_dirs(listings@.take(i as int), *sort_type, now),
        decreases listings@.len() - i,
    {
        if !has_eligible_entry(&listings[i].entries, sort_type, now) {
            r.push(listings[i].dir.clone());
        }
        proof {
            assert(listings@.take(i + 1).drop_last() =~= listings@.take(i as int));
            assert(listings@.take(i + 1).last() == listings@[i as int]);
        }
        i = i + 1;
    }
    proof {
        assert(listings@.take(listings@.len() as int) =~= listings@);
    }
    r
}

/// Groups every directory of a walked tree independently, in walk order.
/// Directories without eligible files are skipped. An empty tree means the
/// path was not found; a tree whose directories all lack eligible files
/// yields an empty result — both are errors, never an empty success.
pub fn group_files_by_bucket_recursive(
    listings: &Vec<DirListing>,
    sort_type: &SortType,
    now: u64,
) -> (r: Result<Vec<(String, BucketMap)>, RetentionError>)
    ensures
        match r {
            Result::Ok(out) => out@.len() > 0 && recursive_grouping_matches(
                listings@,
                *sort_type,
                now,
                out@,
            ),
            Result::Err(e) => {
                &&& forall|i: int|
                    0 <= i < listings@.len() ==> !spec_has_eligible(
                        (#[trigger] listings@[i]).entries@,
                        *sort_type,
                        now,
                    )
                &&& e == if listings@.len() == 0 {
                    RetentionError::PathNotFound
                } else {
                    RetentionError::EmptyResult
                }
            },
        },
{
    let mut out: Vec<(String, BucketMap)> = Vec::new();
    let mut i: usize = 0;
    while i < listings.len()
        invariant
            0 <= i <= listings@.len(),
            recursive_grouping_matches(listings@.take(i as int), *sort_type, now, out@),
        decreases listings@.len() - i,
    {
        let ghost old_out = out@;
        let listing = &listings[i];
        match group_files_by_bucket(&listing.entries, sort_type, now) {
            Ok(m) => {
                out.push((listing.dir.clone(), m));
                proof {
                    assert(out@.drop_last() =~= old_out);
                }
            },
            Err(_) => {},
        }
        proof {
            assert(listings@.take(i + 1).drop_last() =~= listings@.take(i as int));
            assert(listings@.take(i + 1).last() == listings@[i as int]);
        }
        i = i + 1;
    }
    proof {
        assert(listings@.take(listings@.len() as int) =~= listings@);
    }
    if out.len() == 0 {
        proof {
            lemma_recursive_grouping_empty(listings@, *sort_type, now, out@);
        }
        if listings.len() == 0 {
            Err(RetentionError::PathNotFound)
        } else {
            Err(RetentionError::EmptyResult)
        }
    } else {
        Ok(out)
    }
}

} // verus!
