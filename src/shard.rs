//! The shard: one community's data for one calendar year, with its bounds
//! metadata (the earliest and latest day that holds data).
use vstd::prelude::*;

use crate::assoc::{keys_unique, lemma_to_map_dom, lemma_to_map_index, lemma_to_map_update, lemma_unique_push, to_map};
use crate::day::HistogramError;
use crate::epoch::{day_of_unix, hour_of_day, hour_of_unix, now_louis_epoch, now_secs, unix_to_epoch};
use crate::user::{lemma_record_days, messages_fit, reaction_fits, reaction_pairs_of, record_applied, with_messages, with_reaction, User, UserView};

verus! {

/// The earliest and latest epoch day with data.
#[derive(Debug, Clone, Copy, PartialEq, Eq, Structural)]
pub struct Meta {
    pub first_day: u64,
    pub last_day: u64,
}

impl Meta {
    pub fn new(first_day: u64, last_day: u64) -> (r: Meta)
        ensures
            r == (Meta { first_day, last_day }),
    {
        Meta { first_day, last_day }
    }

    /// Both bounds at today's epoch day.
    pub fn new_now() -> (r: Meta)
        ensures
            r.first_day == r.last_day,
            exists|t: i64| r.first_day == day_of_unix(t as int),
    {
        let today = now_louis_epoch();
        Meta::new(today, today)
    }
}

/// One ingestion record: a user's messages and reaction counts at an instant.
pub struct UserUpdate {
    pub id: u64,
    pub name: String,
    pub messages: u64,
    pub reactions: Vec<(String, u64)>,
    /// Unix seconds.
    pub timestamp: i64,
}

pub struct UpdateView {
    pub id: u64,
    pub name: Seq<char>,
    pub messages: u64,
    pub reactions: Seq<(Seq<char>, u64)>,
    pub timestamp: i64,
}

impl View for UserUpdate {
    type V = UpdateView;

    open spec fn view(&self) -> UpdateView {
        UpdateView {
            id: self.id,
            name: self.name@,
            messages: self.messages,
            reactions: reaction_pairs_of(self.reactions@),
            timestamp: self.timestamp,
        }
    }
}

/// The shard after one record, or `None` where a count does not fit.
pub open spec fn shard_after(s: ShardView, rec: UpdateView) -> Option<ShardView> {
    let day = day_of_unix(rec.timestamp as int) as u64;
    match record_applied(user_or_fresh(s, rec.id, rec.name), day, hour_of_unix(rec.timestamp as int), rec.messages as int, rec.reactions) {
        Some(u) => Some(with_user_at(s, rec.id, u, day)),
        None => None,
    }
}

/// One community's data for one calendar year: the user records by id, the
/// known reaction names, the bounds metadata, where it is kept, and whether
/// it may be written back.
pub struct ServerFile {
    path: String,
    users: Vec<User>,
    reactions: Vec<String>,
    meta: Meta,
    read_only: bool,
}

/// The mathematical value of a shard.
pub struct ShardView {
    pub path: Seq<char>,
    pub users: Map<u64, UserView>,
    pub reactions: Seq<Seq<char>>,
    pub meta: Meta,
    pub read_only: bool,
}

pub open spec fn user_pairs(v: Seq<User>) -> Seq<(u64, UserView)> {
    v.map_values(|u: User| (u@.id, u@))
}

/// Every day of every user lies within the shard's bounds.
pub open spec fn covers(s: ShardView) -> bool {
    forall|id: u64, d: u64|
        #![trigger s.users[id].days.contains_key(d)]
        s.users.contains_key(id) && s.users[id].days.contains_key(d) ==> s.meta.first_day <= d <= s.meta.last_day
}

/// The user `id` of the shard, or a new record for it named `name`.
pub open spec fn user_or_fresh(s: ShardView, id: u64, name: Seq<char>) -> UserView {
    if s.users.contains_key(id) {
        s.users[id]
    } else {
        UserView { id, name, days: Map::empty() }
    }
}

/// The later of two days.
pub open spec fn max_day(a: u64, b: u64) -> u64 {
    if a >= b {
        a
    } else {
        b
    }
}

/// The bounds widened to take in day `d`.
pub open spec fn widened(m: Meta, d: u64) -> Meta {
    Meta {
        first_day: if d < m.first_day { d } else { m.first_day },
        last_day: if d > m.last_day { d } else { m.last_day },
    }
}

/// `s` with the user `id` replaced by `u` and the bounds widened to day `d`.
pub open spec fn with_user_at(s: ShardView, id: u64, u: UserView, d: u64) -> ShardView {
    ShardView { users: s.users.insert(id, u), meta: widened(s.meta, d), ..s }
}

/// The shard's location for a community and a year: `<name>/<name>_<year>.json`.
pub open spec fn shard_path(server: Seq<char>, year: Seq<char>) -> Seq<char> {
    server + "/"@ + shard_file_name(server, year)
}

/// The shard's file name for a community and a year: `<name>_<year>.json`.
pub open spec fn shard_file_name(server: Seq<char>, year: Seq<char>) -> Seq<char> {
    server + "_"@ + year + ".json"@
}

impl View for ServerFile {
    type V = ShardView;

    closed spec fn view(&self) -> ShardView {
        ShardView {
            path: self.path@,
            users: to_map(user_pairs(self.users@)),
            reactions: self.reactions@.map_values(|r: String| r@),
            meta: self.meta,
            read_only: self.read_only,
        }
    }
}

impl ServerFile {
    pub closed spec fn wf(&self) -> bool {
        &&& keys_unique(user_pairs(self.users@))
        &&& forall|i: int| 0 <= i < self.users@.len() ==> (#[trigger] self.users@[i]).wf()
    }

    /// An empty shard at `path`, writable, with both bounds at today.
    pub fn new(path: &str) -> (r: ServerFile)
        ensures
            r.wf(),
            r@.path == path@,
            r@.users == Map::<u64, UserView>::empty(),
            r@.reactions == Seq::<Seq<char>>::empty(),
            r@.meta.first_day == r@.meta.last_day,
            !r@.read_only,
            covers(r@),
    {
        ServerFile::assemble(path, Meta::new_now(), Vec::new(), false)
    }

    /// A shard with the given metadata and no users yet.
    pub fn assemble(path: &str, meta: Meta, reactions: Vec<String>, read_only: bool) -> (r: ServerFile)
        ensures
            r.wf(),
            r@.path == path@,
            r@.users == Map::<u64, UserView>::empty(),
            r@.reactions == reactions@.map_values(|s: String| s@),
            r@.meta == meta,
            r@.read_only == read_only,
            covers(r@),
    {
        let r = ServerFile { path: path.to_owned(), users: Vec::new(), reactions, meta, read_only };
        assert(user_pairs(r.users@) =~= Seq::empty());
        r
    }

    pub fn path(&self) -> (r: &String)
        ensures
            r@ == self@.path,
    {
        &self.path
    }

    pub fn meta(&self) -> (r: Meta)
        ensures
            r == self@.meta,
    {
        self.meta
    }

    pub fn is_read_only(&self) -> (r: bool)
        ensures
            r == self@.read_only,
    {
        self.read_only
    }

    /// Succeeds exactly when the shard may be written back.
    pub fn ensure_writable(&self) -> (r: Result<(), ShardError>)
        ensures
            r is Ok <==> !self@.read_only,
            r is Err ==> r == Err::<(), ShardError>(ShardError::ReadOnly),
    {
        if self.read_only {
            Err(ShardError::ReadOnly)
        } else {
            Ok(())
        }
    }

    pub fn get_all_reactions(&self) -> (r: &Vec<String>)
        ensures
            r@.map_values(|s: String| s@) == self@.reactions,
    {
        &self.reactions
    }

    pub fn get_all_users(&self) -> (r: &Vec<User>)
        requires
            self.wf(),
        ensures
            keys_unique(user_pairs(r@)),
            to_map(user_pairs(r@)) == self@.users,
            forall|i: int| 0 <= i < r@.len() ==> (#[trigger] r@[i]).wf(),
    {
        &self.users
    }

    /// Every user of a well-formed shard is well formed and keyed by its id.
    pub proof fn lemma_users(&self, id: u64)
        requires
            self.wf(),
            self@.users.contains_key(id),
        ensures
            self@.users[id].id == id,
    {
        let p = user_pairs(self.users@);
        lemma_to_map_dom(p, id);
        let i = choose|i: int| 0 <= i < p.len() && p[i].0 == id;
        lemma_to_map_index(p, i);
    }

    fn find_user(&self, id: u64) -> (r: Option<usize>)
        requires
            self.wf(),
        ensures
            r matches Some(i) ==> i < self.users@.len() && self.users@[i as int]@.id == id
                && self@.users.contains_key(id) && self@.users[id] == self.users@[i as int]@,
            r is None ==> !self@.users.contains_key(id),
    {
        let ghost p = user_pairs(self.users@);
        let mut i: usize = 0;
        while i < self.users.len()
            invariant
                i <= self.users@.len(),
                p == user_pairs(self.users@),
                keys_unique(p),
                forall|j: int| 0 <= j < i ==> p[j].0 != id,
            decreases self.users@.len() - i,
        {
            if self.users[i].id() == id {
                proof {
                    lemma_to_map_index(p, i as int);
                }
                return Some(i);
            }
            i = i + 1;
        }
        proof {
            lemma_to_map_dom(p, id);
        }
        None
    }

    /// The record of user `id`, if the shard has one.
    pub fn get_user(&self, id: u64) -> (r: Option<&User>)
        requires
            self.wf(),
        ensures
            r matches Some(u) ==> self@.users.contains_key(id) && u@ == self@.users[id] && u.wf(),
            r is None ==> !self@.users.contains_key(id),
    {
        match self.find_user(id) {
            Some(i) => {
                assert(self.users@[i as int].wf());
                Some(&self.users[i])
            },
            None => None,
        }
    }

    /// Stores `u` under its own id, replacing any record with that id.
    pub fn put_user(&mut self, u: User)
        requires
            old(self).wf(),
            u.wf(),
        ensures
            final(self).wf(),
            final(self)@ == (ShardView { users: old(self)@.users.insert(u@.id, u@), ..old(self)@ }),
    {
        let ghost p = user_pairs(self.users@);
        let ghost uv = u@;
        let id = u.id();
        match self.find_user(id) {
            Some(i) => {
                self.users.set(i, u);
                proof {
                    lemma_to_map_update(p, i as int, uv);
                    assert(user_pairs(self.users@) =~= p.update(i as int, (p[i as int].0, uv)));
                }
            },
            None => {
                self.users.push(u);
                proof {
                    lemma_unique_push(p, id, uv);
                    assert(user_pairs(self.users@) =~= p.push((id, uv)));
                }
            },
        }
        assert forall|i: int| 0 <= i < self.users@.len() implies (#[trigger] self.users@[i]).wf() by {
            if i < old(self).users@.len() {
                assert(old(self).users@[i].wf());
            }
        }
        assert(self@.reactions =~= old(self)@.reactions);
    }

    /// A copy of the record of user `id`, or a new one named `name`.
    fn user_copy_or_new(&self, id: u64, name: &str) -> (r: User)
        requires
            self.wf(),
        ensures
            r.wf(),
            r@ == user_or_fresh(self@, id, name@),
    {
        match self.find_user(id) {
            Some(i) => {
                assert(self.users@[i as int].wf());
                self.users[i].duplicate()
            },
            None => User::new(id, name),
        }
    }

    /// Extends the latest day with data to `day`; a later one already
    /// recorded stays.
    pub fn update_last_day(&mut self, day: u64)
        ensures
            old(self).wf() ==> final(self).wf(),
            final(self)@ == (ShardView { meta: Meta { last_day: max_day(old(self)@.meta.last_day, day), ..old(self)@.meta }, ..old(self)@ }),
            covers(old(self)@) ==> covers(final(self)@),
    {
        if day > self.meta.last_day {
            self.meta.last_day = day;
        }
    }

    /// Extends the latest day with data to today.
    pub fn update_last_day_now(&mut self)
        ensures
            old(self).wf() ==> final(self).wf(),
            exists|t: i64|
                final(self)@ == (ShardView {
                    meta: Meta { last_day: max_day(old(self)@.meta.last_day, #[trigger] day_of_unix(t as int) as u64), ..old(self)@.meta },
                    ..old(self)@
                }),
            covers(old(self)@) ==> covers(final(self)@),
    {
        let t = now_secs();
        self.update_last_day(unix_to_epoch(t));
    }

    /// Widens the bounds to take in day `day`.
    pub fn extend_bounds(&mut self, day: u64)
        ensures
            old(self).wf() ==> final(self).wf(),
            final(self)@ == (ShardView { meta: widened(old(self)@.meta, day), ..old(self)@ }),
    {
        if day < self.meta.first_day {
            self.meta.first_day = day;
        }
        if day > self.meta.last_day {
            self.meta.last_day = day;
        }
    }

    proof fn lemma_covers_after(s: ShardView, id: u64, u: UserView, d: u64)
        requires
            covers(s),
            forall|e: u64| #[trigger] u.days.contains_key(e) ==> e == d || (s.users.contains_key(id) && s.users[id].days.contains_key(e)),
        ensures
            covers(with_user_at(s, id, u, d)),
    {
        let t = with_user_at(s, id, u, d);
        assert forall|j: u64, e: u64| #[trigger] t.users[j].days.contains_key(e) && t.users.contains_key(j)
            implies t.meta.first_day <= e <= t.meta.last_day by {
            if j != id {
                assert(s.users[j].days.contains_key(e));
            } else if e != d {
                assert(s.users[id].days.contains_key(e));
            }
        }
    }

    /// Adds `count` messages from user `user_id` (named `name` if new) at the
    /// instant `date` (Unix seconds): to the hour of day of `date` on its
    /// epoch day. The bounds widen to take in that day.
    pub fn update_message_count(&mut self, user_id: u64, name: &str, date: i64, count: u64) -> (r: Result<(), HistogramError>)
        requires
            old(self).wf(),
        ensures
            final(self).wf(),
            r is Ok <==> messages_fit(user_or_fresh(old(self)@, user_id, name@), day_of_unix(date as int) as u64, hour_of_unix(date as int), count as int),
            r is Ok ==> final(self)@ == with_user_at(
                old(self)@,
                user_id,
                with_messages(user_or_fresh(old(self)@, user_id, name@), day_of_unix(date as int) as u64, hour_of_unix(date as int), count as int),
                day_of_unix(date as int) as u64,
            ),
            r is Err ==> r == Err::<(), HistogramError>(HistogramError::CountOverflow) && final(self)@ == old(self)@,
            covers(old(self)@) ==> covers(final(self)@),
    {
        let day = unix_to_epoch(date);
        let hour = hour_of_day(date);
        let mut u = self.user_copy_or_new(user_id, name);
        proof {
            if self@.users.contains_key(user_id) {
                self.lemma_users(user_id);
            }
        }
        match u.update_message_count(day, hour, count) {
            Ok(()) => {
                self.put_user(u);
                self.extend_bounds(day);
                proof {
                    if covers(old(self)@) {
                        ServerFile::lemma_covers_after(old(self)@, user_id, self@.users[user_id], day);
                    }
                }
                Ok(())
            },
            Err(e) => Err(e),
        }
    }

    /// Adds `count` reactions `reaction` for user `user_id` (named `name` if
    /// new) at the instant `date`. The bounds widen to take in its day.
    pub fn update_reaction_count(&mut self, user_id: u64, name: &str, date: i64, reaction: &str, count: u64) -> (r: Result<(), HistogramError>)
        requires
            old(self).wf(),
        ensures
            final(self).wf(),
            r is Ok <==> reaction_fits(user_or_fresh(old(self)@, user_id, name@), day_of_unix(date as int) as u64, hour_of_unix(date as int), reaction@, count as int),
            r is Ok ==> final(self)@ == with_user_at(
                old(self)@,
                user_id,
                with_reaction(user_or_fresh(old(self)@, user_id, name@), day_of_unix(date as int) as u64, hour_of_unix(date as int), reaction@, count as int),
                day_of_unix(date as int) as u64,
            ),
            r is Err ==> r == Err::<(), HistogramError>(HistogramError::CountOverflow) && final(self)@ == old(self)@,
            covers(old(self)@) ==> covers(final(self)@),
    {
        let day = unix_to_epoch(date);
        let hour = hour_of_day(date);
        let mut u = self.user_copy_or_new(user_id, name);
        proof {
            if self@.users.contains_key(user_id) {
                self.lemma_users(user_id);
            }
        }
        match u.update_reaction_count(day, hour, reaction, count) {
            Ok(()) => {
                self.put_user(u);
                self.extend_bounds(day);
                proof {
                    if covers(old(self)@) {
                        ServerFile::lemma_covers_after(old(self)@, user_id, self@.users[user_id], day);
                    }
                }
                Ok(())
            },
            Err(e) => Err(e),
        }
    }

    /// Applies one ingestion record as a whole: its messages and each of its
    /// reaction counts, at the hour and epoch day of its instant; the bounds
    /// widen to take in that day. Where a count does not fit, nothing changes.
    pub fn apply_update(&mut self, rec: &UserUpdate) -> (r: Result<(), HistogramError>)
        requires
            old(self).wf(),
        ensures
            final(self).wf(),
            r is Ok <==> shard_after(old(self)@, rec@) is Some,
            r is Err ==> r == Err::<(), HistogramError>(HistogramError::CountOverflow),
            r is Ok ==> final(self)@ == shard_after(old(self)@, rec@).unwrap(),
            r is Err ==> final(self)@ == old(self)@,
            covers(old(self)@) ==> covers(final(self)@),
    {
        let day = unix_to_epoch(rec.timestamp);
        let hour = hour_of_day(rec.timestamp);
        let mut u = self.user_copy_or_new(rec.id, rec.name.as_str());
        proof {
            if self@.users.contains_key(rec.id) {
                self.lemma_users(rec.id);
            }
        }
        match u.apply_record(day, hour, rec.messages, &rec.reactions) {
            Ok(()) => {
                proof {
                    lemma_record_days(user_or_fresh(old(self)@, rec.id, rec@.name), day, hour as int, rec.messages as int, rec@.reactions);
                }
                self.put_user(u);
                self.extend_bounds(day);
                proof {
                    if covers(old(self)@) {
                        ServerFile::lemma_covers_after(old(self)@, rec.id, self@.users[rec.id], day);
                    }
                }
                Ok(())
            },
            Err(e) => Err(e),
        }
    }

    /// An independent copy with the same value.
    pub fn duplicate(&self) -> (r: ServerFile)
        requires
            self.wf(),
        ensures
            r.wf(),
            r@ == self@,
    {
        let mut v: Vec<User> = Vec::new();
        let mut i: usize = 0;
        while i < self.users.len()
            invariant
                i <= self.users@.len(),
                self.wf(),
                v@.len() == i,
                forall|j: int| 0 <= j < i ==> (#[trigger] v@[j])@ == self.users@[j]@ && v@[j].wf(),
            decreases self.users@.len() - i,
        {
            assert(self.users@[i as int].wf());
            let u = self.users[i].duplicate();
            v.push(u);
            i = i + 1;
        }
        assert(user_pairs(v@) =~= user_pairs(self.users@));
        let mut names: Vec<String> = Vec::new();
        let mut k: usize = 0;
        while k < self.reactions.len()
            invariant
                k <= self.reactions@.len(),
                names@.len() == k,
                forall|j: int| 0 <= j < k ==> (#[trigger] names@[j])@ == self.reactions@[j]@,
            decreases self.reactions@.len() - k,
        {
            names.push(self.reactions[k].clone());
            k = k + 1;
        }
        let r = ServerFile { path: self.path.clone(), users: v, reactions: names, meta: self.meta, read_only: self.read_only };
        assert(r@.reactions =~= self@.reactions);
        assert forall|j: int| 0 <= j < r.users@.len() implies (#[trigger] r.users@[j]).wf() by {
            assert(v@[j].wf());
        }
        r
    }

    /// The file name of a community's shard for a year.
    pub fn file_name(server_name: &str, year: &str) -> (r: String)
        ensures
            r@ == shard_file_name(server_name@, year@),
    {
        server_name.to_owned().concat("_").concat(year).concat(".json")
    }

    /// Where a community's shard for a year lives: `<name>/<name>_<year>.json`.
    pub fn file_path(server_name: &str, year: &str) -> (r: String)
        ensures
            r@ == shard_path(server_name@, year@),
    {
        let f = ServerFile::file_name(server_name, year);
        let r = server_name.to_owned().concat("/").concat(f.as_str());
        assert(r@ =~= shard_path(server_name@, year@));
        r
    }
}

/// Why a shard could not be written back.
#[derive(Debug, Clone, Copy, PartialEq, Eq, Structural)]
pub enum ShardError {
    /// The shard was opened read-only.
    ReadOnly,
}

} // verus!
