//! Timestamp selection: picks one of the three file timestamps according to
//! the configured sort mode, degrading to the epoch origin when a platform
//! does not supply the requested kind.

use vstd::prelude::*;

verus! {

/// Which of the three file timestamps drives bucketing and retention.
#[derive(Clone, Copy, Debug, PartialEq, Eq, Structural)]
pub enum SortType {
    MTime,
    CTime,
    ATime,
}

/// The timestamps of one file, in whole seconds since the epoch. A kind the
/// filesystem does not support is `None` and degrades to the epoch origin.
#[derive(Clone, Copy, Debug)]
pub struct FileMeta {
    pub modified: Option<u64>,
    pub accessed: Option<u64>,
    pub created: Option<u64>,
}

pub open spec fn spec_selected_time(meta: FileMeta, sort_type: SortType) -> u64 {
    match sort_type {
        SortType::MTime => match meta.modified {
            Option::Some(t) => t,
            Option::None => 0,
        },
        SortType::ATime => match meta.accessed {
            Option::Some(t) => t,
            Option::None => 0,
        },
        SortType::CTime => match meta.created {
            Option::Some(t) => t,
            Option::None => 0,
        },
    }
}

/// The timestamp the given sort mode selects, or the epoch origin (time zero)
/// when the filesystem does not supply that timestamp kind.
pub fn get_time_type(meta: &FileMeta, sort_type: &SortType) -> (t: u64)
    ensures
        t == spec_selected_time(*meta, *sort_type),
{
    match sort_type {
        SortType::MTime => match meta.modified {
            Some(t) => t,
            None => 0,
        },
        SortType::ATime => match meta.accessed {
            Some(t) => t,
            None => 0,
        },
        SortType::CTime => match meta.created {
            Some(t) => t,
            None => 0,
        },
    }
}

pub open spec fn spec_sort_name(sort_type: SortType) -> Seq<char> {
    match sort_type {
        SortType::MTime => "MTime"@,
        SortType::CTime => "CTime"@,
        SortType::ATime => "ATime"@,
    }
}

/// The display name of a sort mode, as it appears in reports.
pub fn sort_type_name(sort_type: &SortType) -> (r: &'static str)
    ensures
        r@ == spec_sort_name(*sort_type),
{
    match sort_type {
        SortType::MTime => "MTime",
        SortType::CTime => "CTime",
        SortType::ATime => "ATime",
    }
}

} // verus!
