//! The cached package list: the stored form and the records read from it,
//! which change together or not at all.

use crate::date::{day_number_of, Date, Ymd};
use crate::packages::{
    distinct_names, lemma_list_has_distinct_names, lemma_record_at, list_of, named_at,
    parse_list, record_for, record_views, tier_for, ListError, PackageRecord, RecordView, Tier,
};
use vstd::prelude::*;
use vstd::string::*;

verus! {

/// The list as it is kept in storage: its text, the date on which it was
/// fetched and the tag that its source gave it.
#[derive(Debug, PartialEq, Eq)]
pub struct StoredList {
    pub text: String,
    pub modified: Date,
    pub etag: String,
}

pub struct StoredView {
    pub text: Seq<char>,
    pub modified: Ymd,
    pub etag: Seq<char>,
}

impl View for StoredList {
    type V = StoredView;

    open spec fn view(&self) -> StoredView {
        StoredView { text: self.text@, modified: self.modified@, etag: self.etag@ }
    }
}

/// What an attempt to fetch the list from its source brought.
#[derive(Debug)]
pub enum Fetch {
    /// The source could not be reached.
    Unreachable,
    /// The source answered.
    Response { status: u16, body: String, etag: String },
}

pub enum FetchView {
    Unreachable,
    Response { status: u16, body: Seq<char>, etag: Seq<char> },
}

impl View for Fetch {
    type V = FetchView;

    open spec fn view(&self) -> FetchView {
        match *self {
            Fetch::Unreachable => FetchView::Unreachable,
            Fetch::Response { status, body, etag } => FetchView::Response {
                status: status,
                body: body@,
                etag: etag@,
            },
        }
    }
}

/// Why a refresh changed nothing.
#[derive(Clone, Copy, Debug, PartialEq, Eq, Structural)]
pub enum RefreshFailure {
    /// The source could not be reached.
    Unreachable,
    /// The source answered with a status that is not a success.
    Status(u16),
    /// What the source sent holds no list.
    Invalid(ListError),
}

#[derive(Clone, Copy, Debug, PartialEq, Eq, Structural)]
pub enum RefreshOutcome {
    /// The cache holds the fetched list.
    Refreshed,
    /// The cached list is fresh enough; nothing was done.
    UpToDate,
    /// The cache is as it was.
    Failed(RefreshFailure),
}

/// What loading found in storage.
#[derive(Clone, Copy, Debug, PartialEq, Eq, Structural)]
pub enum LoadSignal {
    Loaded,
    /// Nothing is stored yet, as on a first run.
    MissingLocalCache,
    /// What is stored holds no list.
    Corrupt(ListError),
}

/// The stored form together with the records read from it.
pub struct CacheView {
    pub stored: Option<StoredView>,
    pub records: Seq<RecordView>,
}

/// A cache with nothing stored and no records.
pub open spec fn empty_cache() -> CacheView {
    CacheView { stored: None, records: Seq::<RecordView>::empty() }
}

/// What loading makes of what storage holds.
pub open spec fn loaded(stored: Option<StoredView>) -> (CacheView, LoadSignal) {
    match stored {
        None => (empty_cache(), LoadSignal::MissingLocalCache),
        Some(s) => match list_of(s.text) {
            Ok(records) => (CacheView { stored: Some(s), records: records }, LoadSignal::Loaded),
            Err(e) => (empty_cache(), LoadSignal::Corrupt(e)),
        },
    }
}

/// Whether the cached list is older than `max_age_days` on the day `today`.
/// Age is counted in whole calendar days; a cache with nothing stored is
/// always stale.
pub open spec fn stale(cache: CacheView, today: Ymd, max_age_days: u32) -> bool {
    match cache.stored {
        None => true,
        Some(s) => day_number_of(today) - day_number_of(s.modified) > max_age_days,
    }
}

pub open spec fn success(status: u16) -> bool {
    200 <= status < 300
}

/// What a refresh makes of a cache, given what was fetched. Only an answer
/// with a success status whose body holds a list replaces the cache, and then
/// both the stored form and the records; anything else leaves the cache as it
/// was.
pub open spec fn refreshed(cache: CacheView, fetched: FetchView, today: Ymd) -> (
    CacheView,
    RefreshOutcome,
) {
    match fetched {
        FetchView::Unreachable => (cache, RefreshOutcome::Failed(RefreshFailure::Unreachable)),
        FetchView::Response { status, body, etag } => if !success(status) {
            (cache, RefreshOutcome::Failed(RefreshFailure::Status(status)))
        } else {
            match list_of(body) {
                Err(e) => (cache, RefreshOutcome::Failed(RefreshFailure::Invalid(e))),
                Ok(records) => (
                    CacheView {
                        stored: Some(StoredView { text: body, modified: today, etag: etag }),
                        records: records,
                    },
                    RefreshOutcome::Refreshed,
                ),
            }
        },
    }
}

/// The package list, cached.
#[derive(Debug)]
pub struct PackageListCache {
    stored: Option<StoredList>,
    records: Vec<PackageRecord>,
}

impl View for PackageListCache {
    type V = CacheView;

    closed spec fn view(&self) -> CacheView {
        CacheView {
            stored: match self.stored {
                Some(s) => Some(s@),
                None => None,
            },
            records: record_views(self.records@),
        }
    }
}

impl PackageListCache {
    /// The records are those of the stored text; with nothing stored there
    /// are none.
    pub open spec fn wf(&self) -> bool {
        match self@.stored {
            Some(s) => list_of(s.text) == Ok::<Seq<RecordView>, ListError>(self@.records),
            None => self@.records.len() == 0,
        }
    }

    /// Makes a cache of what storage holds; see [`loaded`]. Storage that
    /// holds nothing, or nothing readable, gives an empty cache and says so.
    pub fn load(stored: Option<StoredList>) -> (r: (PackageListCache, LoadSignal))
        ensures
            r.0.wf(),
            (r.0@, r.1) == loaded(
                match stored {
                    Some(s) => Some(s@),
                    None => None,
                },
            ),
    {
        match stored {
            None => {
                let cache = PackageListCache { stored: None, records: Vec::new() };
                assert(cache@.records =~= Seq::<RecordView>::empty());
                (cache, LoadSignal::MissingLocalCache)
            },
            Some(s) => {
                match parse_list(s.text.as_str()) {
                    Ok(records) => {
                        let cache = PackageListCache { stored: Some(s), records };
                        (cache, LoadSignal::Loaded)
                    },
                    Err(e) => {
                        let cache = PackageListCache { stored: None, records: Vec::new() };
                        assert(cache@.records =~= Seq::<RecordView>::empty());
                        (cache, LoadSignal::Corrupt(e))
                    },
                }
            },
        }
    }

    /// The records of the cached list.
    pub fn snapshot(&self) -> (r: &Vec<PackageRecord>)
        ensures
            record_views(r@) == self@.records,
    {
        &self.records
    }

    /// The form in which the cached list is to be kept in storage.
    pub fn stored(&self) -> (r: Option<&StoredList>)
        ensures
            match r {
                Some(s) => self@.stored == Some(s@),
                None => self@.stored is None,
            },
    {
        match &self.stored {
            Some(s) => Some(s),
            None => None,
        }
    }

    /// The date on which the cached list was fetched.
    pub fn freshness(&self) -> (r: Option<Date>)
        ensures
            match r {
                Some(d) => self@.stored is Some && self@.stored->0.modified == d@,
                None => self@.stored is None,
            },
    {
        match &self.stored {
            Some(s) => Some(s.modified),
            None => None,
        }
    }

    /// What the list says of a package, if it names it.
    pub fn get(&self, package: &str) -> (r: Option<&PackageRecord>)
        requires
            self.wf(),
        ensures
            match r {
                Some(p) => record_for(self@.records, package@) == Some(p@),
                None => record_for(self@.records, package@) is None,
            },
    {
        proof {
            self.lemma_distinct();
        }
        let mut i: usize = 0;
        let wanted = String::from_str(package);
        while i < self.records.len()
            invariant
                i <= self.records.len(),
                wanted@ == package@,
                distinct_names(self@.records),
                forall|j: int| 0 <= j < i ==> !named_at(self@.records, j, package@),
            decreases self.records.len() - i,
        {
            if self.records[i].name == wanted {
                proof {
                    assert(named_at(self@.records, i as int, package@));
                    lemma_record_at(self@.records, i as int, package@);
                }
                return Some(&self.records[i]);
            }
            i = i + 1;
        }
        None
    }

    /// The tier of a package; `Unlisted` where the list does not name it.
    pub fn tier_of(&self, package: &str) -> (r: Tier)
        requires
            self.wf(),
        ensures
            r == tier_for(self@.records, package@),
    {
        match self.get(package) {
            Some(p) => p.tier,
            None => Tier::Unlisted,
        }
    }

    /// Whether the cached list is stale on the day `today`; see [`stale`].
    /// A stale list stays in use until a refresh succeeds.
    pub fn is_stale(&self, today: &Date, max_age_days: u32) -> (r: bool)
        ensures
            r == stale(self@, today@, max_age_days),
    {
        match &self.stored {
            None => true,
            Some(s) => today.days_since(&s.modified) > max_age_days as i64,
        }
    }

    /// Replaces the cached list by what was fetched, if that holds a list;
    /// see [`refreshed`]. A refresh that fails leaves the cache exactly as it
    /// was.
    pub fn force_refresh(&mut self, fetched: Fetch, today: Date) -> (r: RefreshOutcome)
        requires
            old(self).wf(),
        ensures
            final(self).wf(),
            (final(self)@, r) == refreshed(old(self)@, fetched@, today@),
            r != RefreshOutcome::Refreshed ==> *final(self) == *old(self),
    {
        match fetched {
            Fetch::Unreachable => RefreshOutcome::Failed(RefreshFailure::Unreachable),
            Fetch::Response { status, body, etag } => {
                if status < 200 || status >= 300 {
                    return RefreshOutcome::Failed(RefreshFailure::Status(status));
                }
                match parse_list(body.as_str()) {
                    Err(e) => RefreshOutcome::Failed(RefreshFailure::Invalid(e)),
                    Ok(records) => {
                        let cache = PackageListCache {
                            stored: Some(StoredList { text: body, modified: today, etag }),
                            records,
                        };
                        *self = cache;
                        RefreshOutcome::Refreshed
                    },
                }
            },
        }
    }

    /// Refreshes the cache if its list is stale on the day `today`. A list
    /// that is fresh enough is left alone, whatever was fetched.
    pub fn refresh_if_stale(&mut self, max_age_days: u32, fetched: Fetch, today: Date) -> (r:
        RefreshOutcome)
        requires
            old(self).wf(),
        ensures
            final(self).wf(),
            !stale(old(self)@, today@, max_age_days) ==> r == RefreshOutcome::UpToDate,
            stale(old(self)@, today@, max_age_days) ==> (final(self)@, r) == refreshed(
                old(self)@,
                fetched@,
                today@,
            ),
            r != RefreshOutcome::Refreshed ==> *final(self) == *old(self),
    {
        if self.is_stale(&today, max_age_days) {
            self.force_refresh(fetched, today)
        } else {
            RefreshOutcome::UpToDate
        }
    }

    /// The cached list names no package twice.
    pub proof fn lemma_distinct(&self)
        requires
            self.wf(),
        ensures
            distinct_names(self@.records),
    {
        match self@.stored {
            Some(s) => {
                lemma_list_has_distinct_names(s.text);
            },
            None => {},
        }
    }
}

/// A refresh that does not succeed changes nothing: what was stored stays
/// stored, and the records stay the same.
pub proof fn lemma_failed_refresh_keeps_cache(cache: CacheView, fetched: FetchView, today: Ymd)
    requires
        refreshed(cache, fetched, today).1 != RefreshOutcome::Refreshed,
    ensures
        refreshed(cache, fetched, today).0 == cache,
        loaded(refreshed(cache, fetched, today).0.stored) == loaded(cache.stored),
{
}

/// A refresh that succeeds replaces everything at once: the stored text is
/// the fetched body, dated today, and the records are those of that text.
pub proof fn lemma_refresh_replaces_all(cache: CacheView, fetched: FetchView, today: Ymd)
    requires
        refreshed(cache, fetched, today).1 == RefreshOutcome::Refreshed,
    ensures
        fetched is Response,
        refreshed(cache, fetched, today).0.stored == Some(
            StoredView { text: fetched->body, modified: today, etag: fetched->etag },
        ),
        list_of(fetched->body) == Ok::<Seq<RecordView>, ListError>(
            refreshed(cache, fetched, today).0.records,
        ),
        loaded(refreshed(cache, fetched, today).0.stored) == (
            refreshed(cache, fetched, today).0,
            LoadSignal::Loaded,
        ),
        !stale(refreshed(cache, fetched, today).0, today, 0),
{
}

} // verus!
