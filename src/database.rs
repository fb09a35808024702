//! The shard cache (yearly shards kept in memory once opened) and the
//! database that routes ingestion records to the shard of their year.
use vstd::prelude::*;

use crate::assoc::{keys_unique, lemma_to_map_dom, lemma_to_map_index, lemma_to_map_update, lemma_unique_push, to_map};
use crate::color::hex_digit_text;
use crate::day::HistogramError;
use crate::epoch::{calendar_represents, calendar_year, year_of};
use crate::shard::{covers, shard_after, shard_path, ServerFile, ShardView, UpdateView, UserUpdate};

verus! {

/// Why a database operation failed.
#[derive(Debug, Clone, Copy, PartialEq, Eq, Structural)]
pub enum DbError {
    /// The calendar year of an instant is negative or cannot be represented.
    YearOutOfRange,
    /// The shard of this year has not been opened.
    ShardNotLoaded(u64),
    /// A count could not be recorded.
    Histogram(HistogramError),
    /// The database path has no parent directory.
    NoParent,
    /// The database path has no final component.
    NoBaseName,
}

/// The character of a decimal digit.
pub open spec fn digit_char(d: int) -> char {
    seq!['0', '1', '2', '3', '4', '5', '6', '7', '8', '9'][d]
}

/// The decimal digits of `n`, without sign or leading zero.
pub open spec fn decimal(n: nat) -> Seq<char>
    decreases n,
{
    if n < 10 {
        seq![digit_char(n as int)]
    } else {
        decimal(n / 10).push(digit_char((n % 10) as int))
    }
}

/// The decimal digits of `n`, without sign or leading zero.
fn decimal_text(n: u64) -> (r: String)
    ensures
        r@ == decimal(n as nat),
    decreases n,
{
    if n < 10 {
        let r = String::new().concat(hex_digit_text(n as u32));
        assert(r@ =~= decimal(n as nat));
        r
    } else {
        let s = decimal_text(n / 10);
        let r = s.concat(hex_digit_text((n % 10) as u32));
        assert(r@ =~= decimal(n as nat));
        r
    }
}

/// The parent directory of a path as text, as `std::path::Path::parent`
/// gives it; `None` where it gives none.
pub uninterp spec fn path_parent(p: Seq<char>) -> Option<Seq<char>>;

/// The final component of a path as text, as `std::path::Path::file_name`
/// gives it; `None` where it gives none.
pub uninterp spec fn path_base_name(p: Seq<char>) -> Option<Seq<char>>;

/// Relies on `std::path::Path::parent`: the parent directory, a function of
/// the path text alone. The parent of a path made from text is text again.
#[verifier::external_body]
fn parent_dir(p: &str) -> (r: Option<String>)
    ensures
        r matches Some(s) ==> path_parent(p@) == Some(s@),
        r is None ==> path_parent(p@) is None,
{
    let q = std::path::Path::new(p).parent()?;
    Some(q.to_str()?.to_string())
}

/// Relies on `std::path::Path::file_name`: the final component, a function of
/// the path text alone. A component of a path made from text is text again.
#[verifier::external_body]
fn base_name(p: &str) -> (r: Option<String>)
    ensures
        r matches Some(s) ==> path_base_name(p@) == Some(s@),
        r is None ==> path_base_name(p@) is None,
{
    let q = std::path::Path::new(p).file_name()?;
    Some(q.to_str()?.to_string())
}

/// The shard cache of one community: shards by year, each kept in memory
/// once opened and never evicted.
pub struct ServerFiles {
    directory: String,
    server_name: String,
    files: Vec<(u64, ServerFile)>,
}

/// The mathematical value of a shard cache.
pub struct CacheView {
    pub directory: Seq<char>,
    pub server_name: Seq<char>,
    pub shards: Map<u64, ShardView>,
}

pub open spec fn shard_pairs(v: Seq<(u64, ServerFile)>) -> Seq<(u64, ShardView)> {
    v.map_values(|p: (u64, ServerFile)| (p.0, p.1@))
}

/// Where the cache finds the shard of `year`: `<directory>/<name>/<name>_<year>.json`.
pub open spec fn cache_path(c: CacheView, year: u64) -> Seq<char> {
    if c.directory.len() == 0 {
        shard_path(c.server_name, decimal(year as nat))
    } else {
        c.directory + "/"@ + shard_path(c.server_name, decimal(year as nat))
    }
}

/// Every shard's bounds take in all of its days.
pub open spec fn all_cover(m: Map<u64, ShardView>) -> bool {
    forall|y: u64| #[trigger] m.contains_key(y) ==> covers(m[y])
}

impl View for ServerFiles {
    type V = CacheView;

    closed spec fn view(&self) -> CacheView {
        CacheView { directory: self.directory@, server_name: self.server_name@, shards: to_map(shard_pairs(self.files@)) }
    }
}

/// The resident shards after one record whose instant falls in `year`.
pub open spec fn step_applied(m: Map<u64, ShardView>, rec: UpdateView, year: Option<i32>) -> Result<Map<u64, ShardView>, DbError> {
    if year is None || year.unwrap() < 0 {
        Err(DbError::YearOutOfRange)
    } else if !m.contains_key(year.unwrap() as u64) {
        Err(DbError::ShardNotLoaded(year.unwrap() as u64))
    } else {
        match shard_after(m[year.unwrap() as u64], rec) {
            Some(s) => Ok(m.insert(year.unwrap() as u64, s)),
            None => Err(DbError::Histogram(HistogramError::CountOverflow)),
        }
    }
}

/// The resident shards after a batch of records, in order, with the year of
/// each record's instant; the first failure ends the batch.
pub open spec fn batch_applied(m: Map<u64, ShardView>, recs: Seq<UpdateView>, years: Seq<Option<i32>>) -> Result<Map<u64, ShardView>, DbError>
    decreases recs.len(),
{
    if recs.len() == 0 {
        Ok(m)
    } else {
        match batch_applied(m, recs.drop_last(), years.take(recs.len() - 1)) {
            Ok(m2) => step_applied(m2, recs.last(), years[recs.len() - 1]),
            Err(e) => Err(e),
        }
    }
}

/// A batch that failed with `e` left the shards `now`: the records before
/// some record `k` are applied, record `k` failed with `e`, and the records
/// after it are not applied.
pub open spec fn failed_at(m: Map<u64, ShardView>, recs: Seq<UpdateView>, years: Seq<Option<i32>>, now: Map<u64, ShardView>, e: DbError) -> bool {
    exists|k: int|
        0 <= k < recs.len() && #[trigger] batch_applied(m, recs.take(k), years.take(k)) == Ok::<Map<u64, ShardView>, DbError>(now)
            && step_applied(now, recs[k], years[k]) == Err::<Map<u64, ShardView>, DbError>(e)
}

/// Every record's instant lies where the calendar surely represents it.
pub open spec fn all_represented(recs: Seq<UpdateView>) -> bool {
    forall|i: int| 0 <= i < recs.len() ==> calendar_represents(#[trigger] recs[i].timestamp as int)
}

/// The calendar year of each record's instant: what the calendar gives for
/// every instant it represents (see `all_represented`).
pub open spec fn record_years(recs: Seq<UpdateView>) -> Seq<Option<i32>> {
    recs.map_values(|r: UpdateView| Some(calendar_year(r.timestamp as int) as i32))
}

pub open spec fn update_views(v: Seq<UserUpdate>) -> Seq<UpdateView> {
    v.map_values(|r: UserUpdate| r@)
}

proof fn lemma_batch_err_extends(m: Map<u64, ShardView>, recs: Seq<UpdateView>, years: Seq<Option<i32>>, j: int, e: DbError)
    requires
        0 <= j <= recs.len(),
        years.len() == recs.len(),
        batch_applied(m, recs.take(j), years.take(j)) == Err::<Map<u64, ShardView>, DbError>(e),
    ensures
        batch_applied(m, recs, years) == Err::<Map<u64, ShardView>, DbError>(e),
    decreases recs.len() - j,
{
    if j < recs.len() {
        assert(recs.take(j + 1).drop_last() =~= recs.take(j));
        assert(years.take(j + 1).take(j) =~= years.take(j));
        lemma_batch_err_extends(m, recs, years, j + 1, e);
    } else {
        assert(recs.take(j) =~= recs);
        assert(years.take(j) =~= years.take(recs.len() as int));
        if years.len() == recs.len() {
            assert(years.take(j) =~= years);
        }
    }
}

proof fn lemma_batch_years(m: Map<u64, ShardView>, recs: Seq<UpdateView>, years: Seq<Option<i32>>)
    requires
        years.len() == recs.len(),
        forall|i: int| 0 <= i < years.len() ==> (#[trigger] years[i] matches Some(y) ==> y as int == calendar_year(recs[i].timestamp as int)),
        batch_applied(m, recs, years) is Ok,
    ensures
        batch_applied(m, recs, record_years(recs)) == batch_applied(m, recs, years),
    decreases recs.len(),
{
    if recs.len() > 0 {
        let n = recs.len() - 1;
        let r2 = recs.drop_last();
        let y2 = years.take(n);
        assert forall|i: int| 0 <= i < y2.len() implies (#[trigger] y2[i] matches Some(y) ==> y as int == calendar_year(r2[i].timestamp as int)) by {
            assert(y2[i] == years[i]);
            assert(r2[i] == recs[i]);
        }
        lemma_batch_years(m, r2, y2);
        assert(record_years(recs).take(n) =~= record_years(r2));
        assert(years[n] is Some);
        assert(record_years(recs)[n] == years[n]);
    }
}

impl ServerFiles {
    pub closed spec fn wf(&self) -> bool {
        &&& keys_unique(shard_pairs(self.files@))
        &&& forall|i: int| 0 <= i < self.files@.len() ==> (#[trigger] self.files@[i]).1.wf()
    }

    /// An empty cache for the community `server_name` under `directory`.
    pub fn new(directory: &str, server_name: &str) -> (r: ServerFiles)
        ensures
            r.wf(),
            r@.directory == directory@,
            r@.server_name == server_name@,
            r@.shards == Map::<u64, ShardView>::empty(),
    {
        let r = ServerFiles { directory: directory.to_owned(), server_name: server_name.to_owned(), files: Vec::new() };
        assert(shard_pairs(r.files@) =~= Seq::empty());
        r
    }

    pub fn server_name(&self) -> (r: &String)
        ensures
            r@ == self@.server_name,
    {
        &self.server_name
    }

    /// Where the shard of `year` is kept on disk.
    pub fn shard_path(&self, year: u64) -> (r: String)
        ensures
            r@ == cache_path(self@, year),
    {
        let y = decimal_text(year);
        let p = ServerFile::file_path(self.server_name.as_str(), y.as_str());
        if self.directory.as_str().unicode_len() == 0 {
            return p;
        }
        let r = self.directory.clone().concat("/").concat(p.as_str());
        assert(r@ =~= cache_path(self@, year));
        r
    }

    fn find(&self, year: u64) -> (r: Option<usize>)
        requires
            self.wf(),
        ensures
            r matches Some(i) ==> i < self.files@.len() && self.files@[i as int].0 == year
                && self@.shards.contains_key(year) && self@.shards[year] == self.files@[i as int].1@,
            r is None ==> !self@.shards.contains_key(year),
    {
        let ghost p = shard_pairs(self.files@);
        let mut i: usize = 0;
        while i < self.files.len()
            invariant
                i <= self.files@.len(),
                p == shard_pairs(self.files@),
                keys_unique(p),
                forall|j: int| 0 <= j < i ==> p[j].0 != year,
            decreases self.files@.len() - i,
        {
            if self.files[i].0 == year {
                proof {
                    lemma_to_map_index(p, i as int);
                }
                return Some(i);
            }
            i = i + 1;
        }
        proof {
            lemma_to_map_dom(p, year);
        }
        None
    }

    /// Whether the shard of `year` is in memory.
    pub fn is_resident(&self, year: u64) -> (r: bool)
        requires
            self.wf(),
        ensures
            r == self@.shards.contains_key(year),
    {
        self.find(year).is_some()
    }

    /// The resident shard of `year`.
    pub fn get(&self, year: u64) -> (r: Option<&ServerFile>)
        requires
            self.wf(),
        ensures
            r matches Some(s) ==> self@.shards.contains_key(year) && s@ == self@.shards[year] && s.wf(),
            r is None ==> !self@.shards.contains_key(year),
    {
        match self.find(year) {
            Some(i) => {
                assert(self.files@[i as int].1.wf());
                Some(&self.files[i].1)
            },
            None => None,
        }
    }

    /// An independent copy of the resident shard of `year`: changes to it
    /// never reach the cache.
    pub fn open_owned_copy(&self, year: u64) -> (r: Option<ServerFile>)
        requires
            self.wf(),
        ensures
            r matches Some(s) ==> self@.shards.contains_key(year) && s@ == self@.shards[year] && s.wf(),
            r is None ==> !self@.shards.contains_key(year),
    {
        match self.get(year) {
            Some(s) => Some(s.duplicate()),
            None => None,
        }
    }

    /// Takes in a shard read from disk (or created empty) for `year`. A shard
    /// already resident for that year stays: later opens see the same one.
    pub fn take_in(&mut self, year: u64, shard: ServerFile)
        requires
            old(self).wf(),
            shard.wf(),
        ensures
            final(self).wf(),
            final(self)@.directory == old(self)@.directory,
            final(self)@.server_name == old(self)@.server_name,
            final(self)@.shards == if old(self)@.shards.contains_key(year) {
                old(self)@.shards
            } else {
                old(self)@.shards.insert(year, shard@)
            },
    {
        let ghost p = shard_pairs(self.files@);
        let ghost sv = shard@;
        if self.find(year).is_none() {
            self.files.push((year, shard));
            proof {
                lemma_unique_push(p, year, sv);
                assert(shard_pairs(self.files@) =~= p.push((year, sv)));
                assert forall|i: int| 0 <= i < self.files@.len() implies (#[trigger] self.files@[i]).1.wf() by {
                    if i < old(self).files@.len() {
                        assert(old(self).files@[i].1.wf());
                    }
                }
            }
        }
    }

    /// Applies one record to the resident shard of `year`.
    pub fn apply_in(&mut self, year: u64, rec: &UserUpdate) -> (r: Result<(), DbError>)
        requires
            old(self).wf(),
            year <= i32::MAX,
        ensures
            final(self).wf(),
            final(self)@.directory == old(self)@.directory,
            final(self)@.server_name == old(self)@.server_name,
            step_applied(old(self)@.shards, rec@, Some(year as i32)) matches Ok(m) ==> r is Ok && final(self)@.shards == m,
            step_applied(old(self)@.shards, rec@, Some(year as i32)) matches Err(e) ==> r == Err::<(), DbError>(e),
            r is Err ==> final(self)@.shards == old(self)@.shards,
            all_cover(old(self)@.shards) ==> all_cover(final(self)@.shards),
    {
        let ghost p = shard_pairs(self.files@);
        match self.find(year) {
            None => Err(DbError::ShardNotLoaded(year)),
            Some(i) => {
                let (y, mut shard) = self.files.remove(i);
                assert(shard == old(self).files@[i as int].1);
                assert(shard.wf());
                let res = shard.apply_update(rec);
                let ghost sv = shard@;
                self.files.insert(i, (y, shard));
                proof {
                    assert(self.files@ =~= old(self).files@.update(i as int, (y, shard)));
                    lemma_to_map_update(p, i as int, sv);
                    assert(shard_pairs(self.files@) =~= p.update(i as int, (p[i as int].0, sv)));
                    assert forall|j: int| 0 <= j < self.files@.len() implies (#[trigger] self.files@[j]).1.wf() by {
                        if j != i {
                            assert(old(self).files@[j].1.wf());
                        }
                    }
                    if all_cover(old(self)@.shards) {
                        assert(covers(old(self)@.shards[year]));
                        assert forall|z: u64| #[trigger] self@.shards.contains_key(z) implies covers(self@.shards[z]) by {
                            if z != year {
                                assert(old(self)@.shards.contains_key(z));
                            }
                        }
                    }
                }
                match res {
                    Ok(()) => Ok(()),
                    Err(e) => {
                        assert(self@.shards =~= old(self)@.shards);
                        Err(DbError::Histogram(e))
                    },
                }
            },
        }
    }
}

/// The entry point over one community's shards.
pub struct ServerDatabase {
    path: String,
    database: ServerFiles,
}

impl ServerDatabase {
    pub closed spec fn wf(&self) -> bool {
        self.database.wf()
    }

    pub closed spec fn shards(&self) -> Map<u64, ShardView> {
        self.database@.shards
    }

    pub closed spec fn cache(&self) -> CacheView {
        self.database@
    }

    /// A database over the community whose directory is `path`: its shards
    /// live in that directory, which is named after the community.
    pub fn new(path: &str) -> (r: Result<ServerDatabase, DbError>)
        ensures
            r is Ok <==> path_parent(path@) is Some && path_base_name(path@) is Some,
            path_parent(path@) is None ==> r == Err::<ServerDatabase, DbError>(DbError::NoParent),
            path_parent(path@) is Some && path_base_name(path@) is None ==> r == Err::<ServerDatabase, DbError>(DbError::NoBaseName),
            r matches Ok(d) ==> d.wf() && d.shards() == Map::<u64, ShardView>::empty() && d.db_path() == path@
                && d.cache().directory == path_parent(path@).unwrap() && d.cache().server_name == path_base_name(path@).unwrap(),
    {
        let parent = match parent_dir(path) {
            Some(p) => p,
            None => {
                return Err(DbError::NoParent);
            },
        };
        let name = match base_name(path) {
            Some(n) => n,
            None => {
                return Err(DbError::NoBaseName);
            },
        };
        Ok(ServerDatabase { path: path.to_owned(), database: ServerFiles::new(parent.as_str(), name.as_str()) })
    }

    /// The community directory this database was opened on.
    pub closed spec fn db_path(&self) -> Seq<char> {
        self.path@
    }

    /// The community directory this database was opened on.
    pub fn path(&self) -> (r: &String)
        ensures
            r@ == self.db_path(),
    {
        &self.path
    }

    pub fn files(&self) -> (r: &ServerFiles)
        ensures
            r@ == self.cache(),
            r@.shards == self.shards(),
            self.wf() ==> r.wf(),
    {
        &self.database
    }

    /// Takes in a shard read from disk (or created empty) for `year`, unless
    /// one is resident already.
    pub fn take_in(&mut self, year: u64, shard: ServerFile)
        requires
            old(self).wf(),
            shard.wf(),
        ensures
            final(self).wf(),
            final(self).cache().directory == old(self).cache().directory,
            final(self).cache().server_name == old(self).cache().server_name,
            final(self).shards() == if old(self).shards().contains_key(year) {
                old(self).shards()
            } else {
                old(self).shards().insert(year, shard@)
            },
    {
        self.database.take_in(year, shard)
    }

    /// Applies a batch of records in order, each to the resident shard of the
    /// year given for it; the first failure ends the batch.
    pub fn apply_batch(&mut self, data: &Vec<UserUpdate>, years: &Vec<Option<i32>>) -> (r: Result<(), DbError>)
        requires
            old(self).wf(),
            years@.len() == data@.len(),
        ensures
            final(self).wf(),
            batch_applied(old(self).shards(), update_views(data@), years@) matches Ok(m) ==> r is Ok && final(self).shards() == m,
            batch_applied(old(self).shards(), update_views(data@), years@) matches Err(e) ==> r == Err::<(), DbError>(e),
            r matches Err(e) ==> failed_at(old(self).shards(), update_views(data@), years@, final(self).shards(), e),
            all_cover(old(self).shards()) ==> all_cover(final(self).shards()),
    {
        let ghost recs = update_views(data@);
        let mut i: usize = 0;
        assert(recs.take(0) =~= Seq::<UpdateView>::empty());
        while i < data.len()
            invariant
                i <= data@.len(),
                years@.len() == data@.len(),
                recs == update_views(data@),
                self.wf(),
                batch_applied(old(self).shards(), recs.take(i as int), years@.take(i as int)) == Ok::<Map<u64, ShardView>, DbError>(self.shards()),
                all_cover(old(self).shards()) ==> all_cover(self.shards()),
            decreases data@.len() - i,
        {
            assert(recs.take(i + 1).drop_last() =~= recs.take(i as int));
            assert(years@.take(i + 1).take(i as int) =~= years@.take(i as int));
            assert(recs.take(i + 1).last() == data@[i as int]@);
            let step = match years[i] {
                None => Err(DbError::YearOutOfRange),
                Some(y) => if y < 0 {
                    Err(DbError::YearOutOfRange)
                } else {
                    self.database.apply_in(y as u64, &data[i])
                },
            };
            match step {
                Ok(()) => {},
                Err(e) => {
                    proof {
                        assert(recs.take(i as int).len() == i);
                        assert(failed_at(old(self).shards(), recs, years@, self.shards(), e)) by {
                            assert(batch_applied(old(self).shards(), recs.take(i as int), years@.take(i as int)) == Ok::<Map<u64, ShardView>, DbError>(self.shards()));
                            assert(recs[i as int] == recs.take(i + 1).last());
                        }
                        lemma_batch_err_extends(old(self).shards(), recs, years@, i + 1, e);
                        assert(years@.take(recs.len() as int) =~= years@);
                    }
                    return Err(e);
                },
            }
            i = i + 1;
        }
        assert(recs.take(i as int) =~= recs);
        assert(years@.take(i as int) =~= years@);
        Ok(())
    }

    /// Applies a batch of records in order, each to the resident shard of the
    /// calendar year of its instant; the first failure ends the batch.
    pub fn update_users(&mut self, data: &Vec<UserUpdate>) -> (r: Result<(), DbError>)
        requires
            old(self).wf(),
        ensures
            final(self).wf(),
            r is Ok ==> batch_applied(old(self).shards(), update_views(data@), record_years(update_views(data@))) == Ok::<Map<u64, ShardView>, DbError>(final(self).shards()),
            all_represented(update_views(data@)) ==> (batch_applied(old(self).shards(), update_views(data@), record_years(update_views(data@))) matches Ok(m)
                ==> r is Ok && final(self).shards() == m),
            all_represented(update_views(data@)) ==> (batch_applied(old(self).shards(), update_views(data@), record_years(update_views(data@))) matches Err(e)
                ==> r == Err::<(), DbError>(e)),
            all_represented(update_views(data@)) ==> (r matches Err(e)
                ==> failed_at(old(self).shards(), update_views(data@), record_years(update_views(data@)), final(self).shards(), e)),
            all_cover(old(self).shards()) ==> all_cover(final(self).shards()),
    {
        let mut years: Vec<Option<i32>> = Vec::new();
        let mut i: usize = 0;
        while i < data.len()
            invariant
                i <= data@.len(),
                years@.len() == i,
                forall|j: int| 0 <= j < i ==> (#[trigger] years@[j] matches Some(y) ==> y as int == calendar_year(data@[j].timestamp as int)),
                forall|j: int| 0 <= j < i ==> calendar_represents(data@[j].timestamp as int) ==> (#[trigger] years@[j]) is Some,
            decreases data@.len() - i,
        {
            years.push(year_of(data[i].timestamp));
            i = i + 1;
        }
        let r = self.apply_batch(data, &years);
        proof {
            let recs = update_views(data@);
            if all_represented(recs) {
                assert forall|j: int| 0 <= j < years@.len() implies #[trigger] years@[j] == record_years(recs)[j] by {
                    assert(recs[j] == data@[j]@);
                }
                assert(years@ =~= record_years(recs));
            }
            if r is Ok {
                let recs = update_views(data@);
                assert forall|j: int| 0 <= j < years@.len() implies (#[trigger] years@[j] matches Some(y) ==> y as int == calendar_year(recs[j].timestamp as int)) by {
                    assert(recs[j] == data@[j]@);
                }
                lemma_batch_years(old(self).shards(), recs, years@);
            }
        }
        r
    }
}

} // verus!
