//! Range queries across shards: walk the yearly shards backward from the year
//! of the range's end, merge the users of each shard whose bounds meet the
//! range, and stop once a shard's first day reaches the range's start.
use vstd::prelude::*;

use crate::assoc::{keys_unique, lemma_to_map_dom, lemma_to_map_index, lemma_to_map_push, lemma_to_map_update, lemma_unique_push, to_map};
use crate::database::{DbError, ServerDatabase, ServerFiles};
use crate::epoch::{calendar_represents, calendar_year, day_fits, unix_of_day, year_of_day};
use crate::shard::{user_pairs, Meta, ServerFile, ShardView};
use crate::user::{combined_days, filtered_days, User, UserView};

verus! {

/// The shard's bounds meet the closed range `[start, end]`.
pub open spec fn intersects(m: Meta, start: u64, end: u64) -> bool {
    !(m.last_day < start || m.first_day > end)
}

/// Every day of every user lies in `[start, end]`.
pub open spec fn days_within(m: Map<u64, UserView>, start: u64, end: u64) -> bool {
    forall|id: u64, d: u64|
        #![trigger m[id].days.contains_key(d)]
        m.contains_key(id) && m[id].days.contains_key(d) ==> start <= d <= end
}

/// The users collected so far, `acc`, merged with those of one more shard,
/// `su`: a user new to `acc` enters with its days in `[start, end]`; a user
/// already there is combined with those days, its own days taking precedence
/// within the range.
pub open spec fn merged(acc: Map<u64, UserView>, su: Map<u64, UserView>, start: u64, end: u64) -> Map<u64, UserView> {
    Map::new(
        |id: u64| acc.contains_key(id) || su.contains_key(id),
        |id: u64|
            if acc.contains_key(id) {
                if su.contains_key(id) {
                    UserView {
                        days: combined_days(acc[id].days, filtered_days(su[id].days, Some(start), Some(end)), Some(start), Some(end)),
                        ..acc[id]
                    }
                } else {
                    acc[id]
                }
            } else {
                UserView { days: filtered_days(su[id].days, Some(start), Some(end)), ..su[id] }
            },
    )
}

/// The scan from `year` backward over the shards `m`, starting with the
/// users `acc`: a shard whose bounds meet the range is merged in; the scan
/// ends after a merged shard whose first day is at or before `start`, or
/// after year 0; a shard that is not at hand ends it with an error.
pub open spec fn scan(m: Map<u64, ShardView>, start: u64, end: u64, year: nat, acc: Map<u64, UserView>) -> Result<Map<u64, UserView>, DbError>
    decreases year,
{
    if year > u64::MAX || !m.contains_key(year as u64) {
        Err(DbError::ShardNotLoaded(year as u64))
    } else {
        let s = m[year as u64];
        let hit = intersects(s.meta, start, end);
        let acc2 = if hit { merged(acc, s.users, start, end) } else { acc };
        if (hit && s.meta.first_day <= start) || year == 0 {
            Ok(acc2)
        } else {
            scan(m, start, end, (year - 1) as nat, acc2)
        }
    }
}

/// The calendar year in which epoch day `end` begins: where a range scan starts.
pub open spec fn end_year(end: u64) -> int {
    calendar_year(unix_of_day(end as int))
}

/// With the shard of every year from `year` down to 0 at hand, the scan
/// succeeds; a shard not at hand can only end it with an error naming its year.
pub proof fn lemma_scan_resident(m: Map<u64, ShardView>, start: u64, end: u64, year: nat, acc: Map<u64, UserView>)
    requires
        year <= u64::MAX,
        forall|y: u64| y <= year ==> #[trigger] m.contains_key(y),
    ensures
        scan(m, start, end, year, acc) is Ok,
    decreases year,
{
    assert(m.contains_key(year as u64));
    if year > 0 {
        let s = m[year as u64];
        let hit = intersects(s.meta, start, end);
        let acc2 = if hit { merged(acc, s.users, start, end) } else { acc };
        lemma_scan_resident(m, start, end, (year - 1) as nat, acc2);
    }
}

/// A merge brings in no day outside the range.
pub proof fn lemma_merge_within(acc: Map<u64, UserView>, su: Map<u64, UserView>, start: u64, end: u64)
    requires
        days_within(acc, start, end),
    ensures
        days_within(merged(acc, su, start, end), start, end),
{
    let m = merged(acc, su, start, end);
    assert forall|id: u64, d: u64| #[trigger] m[id].days.contains_key(d) && m.contains_key(id) implies start <= d <= end by {
        if acc.contains_key(id) {
            assert(acc[id].days.contains_key(d) || su[id].days.contains_key(d));
        }
    }
}

/// A merge keeps every user already collected and every user of the shard.
pub proof fn lemma_merge_union(acc: Map<u64, UserView>, su: Map<u64, UserView>, start: u64, end: u64)
    ensures
        merged(acc, su, start, end).dom() == acc.dom() + su.dom(),
{
    assert(merged(acc, su, start, end).dom() =~= acc.dom() + su.dom());
}

/// Days collected earlier win: where the users collected so far lie within
/// the range, a merge changes none of their days, and adds only days of the
/// shard within the range.
pub proof fn lemma_merge_earlier_wins(acc: Map<u64, UserView>, su: Map<u64, UserView>, start: u64, end: u64, id: u64, d: u64)
    requires
        days_within(acc, start, end),
        acc.contains_key(id),
        acc[id].days.contains_key(d),
    ensures
        merged(acc, su, start, end)[id].days.contains_key(d),
        merged(acc, su, start, end)[id].days[d] == acc[id].days[d],
{
    assert(start <= d <= end);
}

/// A range scan in progress: the range, the year whose shard comes next,
/// whether the scan is over, and the users collected so far.
pub struct Collector {
    start: u64,
    end: u64,
    year: u64,
    done: bool,
    users: Vec<User>,
}

/// The mathematical value of a scan in progress.
pub struct CollectView {
    pub start: u64,
    pub end: u64,
    /// The year whose shard comes next.
    pub year: u64,
    pub done: bool,
    pub users: Map<u64, UserView>,
}

impl View for Collector {
    type V = CollectView;

    closed spec fn view(&self) -> CollectView {
        CollectView { start: self.start, end: self.end, year: self.year, done: self.done, users: to_map(user_pairs(self.users@)) }
    }
}

impl Collector {
    pub closed spec fn wf(&self) -> bool {
        &&& keys_unique(user_pairs(self.users@))
        &&& forall|i: int| 0 <= i < self.users@.len() ==> (#[trigger] self.users@[i]).wf()
        &&& days_within(self@.users, self.start, self.end)
    }

    /// A scan of `[start, end]` that begins with the shard of `year`.
    pub fn new(start: u64, end: u64, year: u64) -> (r: Collector)
        ensures
            r.wf(),
            r@ == (CollectView { start, end, year, done: false, users: Map::empty() }),
    {
        let r = Collector { start, end, year, done: false, users: Vec::new() };
        assert(user_pairs(r.users@) =~= Seq::empty());
        r
    }

    /// A scan of `[start, end]` that begins with the shard of the year in
    /// which day `end` begins.
    pub fn begin(start: u64, end: u64) -> (r: Result<Collector, DbError>)
        ensures
            calendar_represents(unix_of_day(end as int)) ==> r is Ok,
            r matches Ok(c) ==> c.wf() && day_fits(end as int) && 1970 <= end_year(end) <= i32::MAX
                && c@ == (CollectView { start, end, year: end_year(end) as u64, done: false, users: Map::empty() }),
            r matches Err(e) ==> e == DbError::YearOutOfRange && !calendar_represents(unix_of_day(end as int)),
    {
        match year_of_day(end) {
            Some(y) => if y < 0 {
                Err(DbError::YearOutOfRange)
            } else {
                Ok(Collector::new(start, end, y as u64))
            },
            None => Err(DbError::YearOutOfRange),
        }
    }

    /// The year whose shard the scan needs next; `None` once it is over.
    pub fn next_year(&self) -> (r: Option<u64>)
        ensures
            r == if self@.done { None } else { Some(self@.year) },
    {
        if self.done {
            None
        } else {
            Some(self.year)
        }
    }

    fn find(&self, id: u64) -> (r: Option<usize>)
        requires
            keys_unique(user_pairs(self.users@)),
        ensures
            r matches Some(i) ==> i < self.users@.len() && self.users@[i as int]@.id == id
                && self@.users.contains_key(id) && self@.users[id] == self.users@[i as int]@,
            r is None ==> !self@.users.contains_key(id),
    {
        let ghost p = user_pairs(self.users@);
        let mut i: usize = 0;
        while i < self.users.len()
            invariant
                i <= self.users@.len(),
                p == user_pairs(self.users@),
                keys_unique(p),
                forall|j: int| 0 <= j < i ==> p[j].0 != id,
            decreases self.users@.len() - i,
        {
            if self.users[i].id() == id {
                proof {
                    lemma_to_map_index(p, i as int);
                }
                return Some(i);
            }
            i = i + 1;
        }
        proof {
            lemma_to_map_dom(p, id);
        }
        None
    }

    /// Merges the users of the shard into those collected so far.
    fn merge_shard(&mut self, shard: &ServerFile)
        requires
            keys_unique(user_pairs(old(self).users@)),
            forall|i: int| 0 <= i < old(self).users@.len() ==> (#[trigger] old(self).users@[i]).wf(),
            shard.wf(),
        ensures
            keys_unique(user_pairs(final(self).users@)),
            forall|i: int| 0 <= i < final(self).users@.len() ==> (#[trigger] final(self).users@[i]).wf(),
            final(self)@ == (CollectView { users: merged(old(self)@.users, shard@.users, old(self)@.start, old(self)@.end), ..old(self)@ }),
    {
        let all = shard.get_all_users();
        let ghost p = user_pairs(all@);
        let ghost acc0 = old(self)@.users;
        let start = self.start;
        let end = self.end;
        let mut i: usize = 0;
        assert(merged(acc0, to_map(p.take(0)), start, end) =~= acc0);
        while i < all.len()
            invariant
                i <= all@.len(),
                p == user_pairs(all@),
                keys_unique(p),
                to_map(p) == shard@.users,
                forall|k: int| 0 <= k < all@.len() ==> (#[trigger] all@[k]).wf(),
                start == self.start,
                end == self.end,
                self.start == old(self).start,
                self.end == old(self).end,
                self.year == old(self).year,
                self.done == old(self).done,
                keys_unique(user_pairs(self.users@)),
                forall|k: int| 0 <= k < self.users@.len() ==> (#[trigger] self.users@[k]).wf(),
                self@.users == merged(acc0, to_map(p.take(i as int)), start, end),
            decreases all@.len() - i,
        {
            let u = &all[i];
            assert(u.wf());
            let id = u.id();
            let ghost q = user_pairs(self.users@);
            let ghost mi = to_map(p.take(i as int));
            proof {
                assert(p.take(i + 1) =~= p.take(i as int).push(p[i as int]));
                lemma_to_map_push(p.take(i as int), p[i as int].0, p[i as int].1);
                lemma_to_map_dom(p.take(i as int), id);
                assert forall|k: int| 0 <= k < i implies p.take(i as int)[k].0 != id by {
                    assert(p[k].0 != p[i as int].0);
                }
            }
            let fu = u.filter(Some(start), Some(end));
            let ghost before = self.users@;
            match self.find(id) {
                Some(j) => {
                    assert(self.users@[j as int].wf());
                    let c = self.users[j].combine(&fu, Some(start), Some(end));
                    let ghost cv = c@;
                    self.users.set(j, c);
                    proof {
                        assert forall|k: int| 0 <= k < self.users@.len() implies (#[trigger] self.users@[k]).wf() by {
                            if k != j {
                                assert(before[k].wf());
                            }
                        }
                        lemma_to_map_update(q, j as int, cv);
                        assert(user_pairs(self.users@) =~= q.update(j as int, (q[j as int].0, cv)));
                    }
                },
                None => {
                    let ghost fv = fu@;
                    self.users.push(fu);
                    proof {
                        assert forall|k: int| 0 <= k < self.users@.len() implies (#[trigger] self.users@[k]).wf() by {
                            if k < before.len() {
                                assert(before[k].wf());
                            }
                        }
                        lemma_unique_push(q, id, fv);
                        assert(user_pairs(self.users@) =~= q.push((id, fv)));
                    }
                },
            }
            proof {
                assert(self@.users =~= merged(acc0, to_map(p.take(i + 1)), start, end));
            }
            i = i + 1;
        }
        assert(p.take(i as int) =~= p);
    }
}


impl Collector {
    /// Takes in the shard of the year the scan needs next: merges its users
    /// when its bounds meet the range, then ends the scan when its first day
    /// is at or before the start (or no earlier year exists), else moves to
    /// the year before.
    pub fn absorb(&mut self, shard: &ServerFile)
        requires
            old(self).wf(),
            !old(self)@.done,
            shard.wf(),
        ensures
            final(self).wf(),
            final(self)@.start == old(self)@.start,
            final(self)@.end == old(self)@.end,
            final(self)@.users == if intersects(shard@.meta, old(self)@.start, old(self)@.end) {
                merged(old(self)@.users, shard@.users, old(self)@.start, old(self)@.end)
            } else {
                old(self)@.users
            },
            final(self)@.done == ((intersects(shard@.meta, old(self)@.start, old(self)@.end) && shard@.meta.first_day <= old(self)@.start)
                || old(self)@.year == 0),
            final(self)@.done ==> final(self)@.year == old(self)@.year,
            !final(self)@.done ==> final(self)@.year == old(self)@.year - 1,
    {
        let meta = shard.meta();
        let hit = !(meta.last_day < self.start || meta.first_day > self.end);
        if hit {
            self.merge_shard(shard);
            proof {
                lemma_merge_within(old(self)@.users, shard@.users, self.start, self.end);
            }
        }
        if (hit && meta.first_day <= self.start) || self.year == 0 {
            self.done = true;
        } else {
            self.year = self.year - 1;
        }
    }

    /// The users collected, each under its own id.
    pub fn finish(self) -> (r: Vec<User>)
        requires
            self.wf(),
        ensures
            keys_unique(user_pairs(r@)),
            to_map(user_pairs(r@)) == self@.users,
            days_within(self@.users, self@.start, self@.end),
            forall|i: int| 0 <= i < r@.len() ==> (#[trigger] r@[i]).wf(),
    {
        self.users
    }
}

/// Runs the scan of `[start, end]` from the shard of `year` over the shards
/// resident in `files`.
pub fn collect_from(files: &ServerFiles, start: u64, end: u64, year: u64) -> (r: Result<Vec<User>, DbError>)
    requires
        files.wf(),
    ensures
        scan(files@.shards, start, end, year as nat, Map::empty()) matches Ok(m) ==> r matches Ok(v) && to_map(user_pairs(v@)) == m,
        scan(files@.shards, start, end, year as nat, Map::empty()) matches Err(e) ==> r == Err::<Vec<User>, DbError>(e),
        r matches Ok(v) ==> keys_unique(user_pairs(v@)) && days_within(to_map(user_pairs(v@)), start, end)
            && forall|i: int| 0 <= i < v@.len() ==> (#[trigger] v@[i]).wf(),
{
    let ghost m = files@.shards;
    let mut c = Collector::new(start, end, year);
    while !c.done
        invariant
            files.wf(),
            m == files@.shards,
            c.wf(),
            c@.start == start,
            c@.end == end,
            !c@.done ==> scan(m, start, end, year as nat, Map::empty()) == scan(m, start, end, c@.year as nat, c@.users),
            c@.done ==> scan(m, start, end, year as nat, Map::empty()) == Ok::<Map<u64, UserView>, DbError>(c@.users),
        decreases c@.year + if c@.done { 0int } else { 1int },
    {
        let y = c.year;
        match files.get(y) {
            None => {
                return Err(DbError::ShardNotLoaded(y));
            },
            Some(s) => {
                c.absorb(s);
            },
        }
    }
    Ok(c.finish())
}

impl ServerDatabase {
    /// The users active in `[start, end]`: the scan from the shard of the year
    /// in which day `end` begins, over the resident shards. A shard the scan
    /// needs and that is not resident ends it with `ShardNotLoaded`.
    pub fn collect_data(&self, start: u64, end: u64) -> (r: Result<Vec<User>, DbError>)
        requires
            self.wf(),
        ensures
            calendar_represents(unix_of_day(end as int)) ==> (scan(self.shards(), start, end, end_year(end) as nat, Map::empty()) matches Ok(m)
                ==> r matches Ok(v) && to_map(user_pairs(v@)) == m),
            calendar_represents(unix_of_day(end as int)) ==> (scan(self.shards(), start, end, end_year(end) as nat, Map::empty()) matches Err(e)
                ==> r == Err::<Vec<User>, DbError>(e)),
            r matches Ok(v) ==> day_fits(end as int) && 1970 <= end_year(end) <= u64::MAX
                && scan(self.shards(), start, end, end_year(end) as nat, Map::empty())
                    == Ok::<Map<u64, UserView>, DbError>(to_map(user_pairs(v@)))
                && keys_unique(user_pairs(v@)) && days_within(to_map(user_pairs(v@)), start, end),
            r matches Err(e) ==> (e == DbError::YearOutOfRange && !calendar_represents(unix_of_day(end as int)))
                || (day_fits(end as int) && 1970 <= end_year(end) <= u64::MAX
                && scan(self.shards(), start, end, end_year(end) as nat, Map::empty()) == Err::<Map<u64, UserView>, DbError>(e)),
    {
        let c = match Collector::begin(start, end) {
            Ok(c) => c,
            Err(e) => {
                return Err(e);
            },
        };
        collect_from(self.files(), start, end, c.year)
    }
}

} // verus!
