//! The record a scan leaves behind, and when it may be reused.
use vstd::prelude::*;

use vstd::string::StringExecFns;

use crate::utils::todays_day;

verus! {

/// The persisted form of a scan: the day of the month it was written, how
/// many paths it holds, and the paths.
#[derive(Debug, Clone)]
pub struct Data {
    pub day: u8,
    pub size: usize,
    pub data: Vec<String>,
}

impl Data {
    /// The record of the paths `data`, written on day-of-month `day`.
    pub fn new(day: u8, data: Vec<String>) -> (r: Data)
        ensures
            r.day == day,
            r.size == data@.len(),
            r.data@ == data@,
    {
        let size = data.len();
        Data { day, size, data }
    }

    /// The record of a completed scan, written today.
    pub fn from_paths(data: Vec<String>) -> (r: Data)
        ensures
            1 <= r.day <= 31,
            r.size == data@.len(),
            r.data@ == data@,
    {
        let day = todays_day();
        Data::new(day, data)
    }

    /// Whether the record was written on day-of-month `today`.
    pub fn is_current(&self, today: u8) -> (r: bool)
        ensures
            r == (self.day == today),
    {
        self.day == today
    }
}

/// Whether a cache is valid given what reading it gave: a record that parsed
/// (nothing when the file is absent, unreadable or malformed) and today's
/// day of the month.
pub open spec fn record_is_valid(record: Option<Data>, today: u8) -> bool {
    match record {
        Some(d) => d.day == today,
        None => false,
    }
}

/// Decides cache validity from what reading the file gave: invalid when
/// nothing parsed, otherwise valid exactly when the record's day is today.
pub fn is_valid_record(record: &Option<Data>, today: u8) -> (r: bool)
    ensures
        r == record_is_valid(*record, today),
{
    match record {
        Some(d) => d.is_current(today),
        None => false,
    }
}

/// A freshly created cache file holds no record, so it is invalid; a record
/// written today is valid, whatever it holds.
pub proof fn lemma_fresh_file_invalid_written_today_valid(record: Data, today: u8)
    ensures
        !record_is_valid(None, today),
        record.day == today ==> record_is_valid(Some(record), today),
{
}

/// Where a cache lives: the path of its file, file name included.
#[derive(Debug, Clone)]
pub struct Cache {
    location: String,
}

impl Cache {
    /// The path of the cache file.
    pub closed spec fn spec_location(&self) -> Seq<char> {
        self.location@
    }

    /// A cache at `location`, which includes the file name.
    pub fn new(location: &str) -> (r: Cache)
        ensures
            r.spec_location() == location@,
    {
        Cache { location: String::from_str(location) }
    }

    /// The path of the cache file.
    pub fn location(&self) -> (r: &str)
        ensures
            r@ == self.spec_location(),
    {
        self.location.as_str()
    }
}

/// What a run does with the cache once it has checked it.
#[derive(Debug, Clone, Copy, PartialEq, Eq, Structural)]
pub enum CacheAction {
    /// Read the record as it is.
    Read,
    /// Scan, write the new record, then read it back.
    RefreshThenRead,
    /// Scan and write the new record; nothing more is asked.
    RefreshThenStop,
}

/// Whether a run involves the cache at all: only caching, reading from the
/// cache, or forcing an update all do; otherwise the run scans directly.
pub fn uses_cache(cache_only: bool, use_cache: bool, update_cache: bool) -> (r: bool)
    ensures
        r == (cache_only || use_cache || update_cache),
{
    cache_only || use_cache || update_cache
}

/// Decides what to do with a cache that is (or is not) `valid`: a valid
/// cache is read unless an update is forced; otherwise it is refreshed by a
/// scan, unless updates are to be ignored, in which case it is read anyway.
/// A refresh on a caching-only run stops after the write.
pub fn cache_action(valid: bool, update_cache: bool, ignore_update: bool, cache_only: bool) -> (r:
    CacheAction)
    ensures
        valid && !update_cache ==> r == CacheAction::Read,
        !(valid && !update_cache) && ignore_update ==> r == CacheAction::Read,
        !(valid && !update_cache) && !ignore_update && cache_only ==> r
            == CacheAction::RefreshThenStop,
        !(valid && !update_cache) && !ignore_update && !cache_only ==> r
            == CacheAction::RefreshThenRead,
{
    if valid && !update_cache {
        CacheAction::Read
    } else if ignore_update {
        CacheAction::Read
    } else if cache_only {
        CacheAction::RefreshThenStop
    } else {
        CacheAction::RefreshThenRead
    }
}

} // verus!
