//! The user record: a user's identity and a day histogram per epoch day.
use vstd::prelude::*;

use crate::assoc::{keys_unique, lemma_to_map_dom, lemma_to_map_index, lemma_to_map_update, lemma_unique_push, to_map};
use crate::day::{bump_fits, bumped, fresh_day, lemma_sum_counts_bound, reaction_hours_of, reaction_total, sum_counts, Day, DayView, HistogramError};
use crate::epoch::unix_of_day;

verus! {

/// One user's identity and a histogram per epoch day (each day once).
pub struct User {
    id: u64,
    name: String,
    days: Vec<(u64, Day)>,
}

/// The mathematical value of a user record.
pub struct UserView {
    pub id: u64,
    pub name: Seq<char>,
    pub days: Map<u64, DayView>,
}

pub open spec fn day_pairs(v: Seq<(u64, Day)>) -> Seq<(u64, DayView)> {
    v.map_values(|p: (u64, Day)| (p.0, p.1@))
}

/// `d` lies within the bounds; a missing bound lets everything through.
pub open spec fn in_range(d: int, min: Option<u64>, max: Option<u64>) -> bool {
    &&& (min matches Some(lo) ==> lo <= d)
    &&& (max matches Some(hi) ==> d <= hi)
}

/// The day `e` of a record, or a fresh empty day for it.
pub open spec fn day_or_fresh(u: UserView, e: u64) -> DayView {
    if u.days.contains_key(e) {
        u.days[e]
    } else {
        fresh_day(unix_of_day(e as int))
    }
}

/// A day of `a` is protected from `b` when it lies within the bounds.
pub open spec fn protected(a: Map<u64, DayView>, d: u64, min: Option<u64>, max: Option<u64>) -> bool {
    a.contains_key(d) && in_range(d as int, min, max)
}

/// `u` with `n` added to the message count of `hour` on day `day`.
pub open spec fn with_messages(u: UserView, day: u64, hour: int, n: int) -> UserView {
    UserView {
        days: u.days.insert(day, DayView { msgs: bumped(day_or_fresh(u, day).msgs, hour, n), ..day_or_fresh(u, day) }),
        ..u
    }
}

/// `hour` is an hour of the day and the bucket can take `n` more messages.
pub open spec fn messages_fit(u: UserView, day: u64, hour: int, n: int) -> bool {
    0 <= hour < 24 && bump_fits(day_or_fresh(u, day).msgs, hour, n)
}

/// `u` with `n` added to the bucket `hour` of reaction `name` on day `day`.
pub open spec fn with_reaction(u: UserView, day: u64, hour: int, name: Seq<char>, n: int) -> UserView {
    UserView {
        days: u.days.insert(
            day,
            DayView {
                reactions: day_or_fresh(u, day).reactions.insert(name, bumped(reaction_hours_of(day_or_fresh(u, day), name), hour, n)),
                ..day_or_fresh(u, day)
            },
        ),
        ..u
    }
}

/// `hour` is an hour of the day and the reaction's bucket can take `n` more.
pub open spec fn reaction_fits(u: UserView, day: u64, hour: int, name: Seq<char>, n: int) -> bool {
    0 <= hour < 24 && bump_fits(reaction_hours_of(day_or_fresh(u, day), name), hour, n)
}

/// One ingestion record applied to `u`: `msgs` messages, then each reaction
/// count in order, all at `hour` of day `day`; `None` where a count does not fit.
pub open spec fn record_applied(u: UserView, day: u64, hour: int, msgs: int, rs: Seq<(Seq<char>, u64)>) -> Option<UserView>
    decreases rs.len(),
{
    if rs.len() == 0 {
        if messages_fit(u, day, hour, msgs) {
            Some(with_messages(u, day, hour, msgs))
        } else {
            None
        }
    } else {
        match record_applied(u, day, hour, msgs, rs.drop_last()) {
            Some(v) => if reaction_fits(v, day, hour, rs.last().0, rs.last().1 as int) {
                Some(with_reaction(v, day, hour, rs.last().0, rs.last().1 as int))
            } else {
                None
            },
            None => None,
        }
    }
}

/// Applying a record keeps the identity and adds no day but `day`.
pub proof fn lemma_record_days(u: UserView, day: u64, hour: int, msgs: int, rs: Seq<(Seq<char>, u64)>)
    requires
        record_applied(u, day, hour, msgs, rs) is Some,
    ensures
        ({
            let v = record_applied(u, day, hour, msgs, rs).unwrap();
            &&& v.id == u.id
            &&& v.name == u.name
            &&& forall|e: u64| #[trigger] v.days.contains_key(e) ==> e == day || u.days.contains_key(e)
        }),
    decreases rs.len(),
{
    if rs.len() > 0 {
        lemma_record_days(u, day, hour, msgs, rs.drop_last());
    }
}

pub open spec fn reaction_pairs_of(v: Seq<(String, u64)>) -> Seq<(Seq<char>, u64)> {
    v.map_values(|p: (String, u64)| (p.0@, p.1))
}

/// The days of `a`, overwritten by those of `b` except where `a`'s day is
/// protected (present in `a` and within the closed bounds).
pub open spec fn combined_days(a: Map<u64, DayView>, b: Map<u64, DayView>, min: Option<u64>, max: Option<u64>) -> Map<u64, DayView> {
    Map::new(
        |d: u64| a.contains_key(d) || b.contains_key(d),
        |d: u64|
            if b.contains_key(d) && !protected(a, d, min, max) {
                b[d]
            } else {
                a[d]
            },
    )
}

/// The days of `a` that lie within the bounds.
pub open spec fn filtered_days(a: Map<u64, DayView>, min: Option<u64>, max: Option<u64>) -> Map<u64, DayView> {
    Map::new(|d: u64| a.contains_key(d) && in_range(d as int, min, max), |d: u64| a[d])
}

/// Sum of the message totals of a sequence of days.
pub open spec fn days_total(s: Seq<(u64, DayView)>) -> int
    decreases s.len(),
{
    if s.len() == 0 {
        0
    } else {
        days_total(s.drop_last()) + sum_counts(s.last().1.msgs)
    }
}

/// Sum of the totals of one reaction over a sequence of days.
pub open spec fn days_reaction_total(s: Seq<(u64, DayView)>, name: Seq<char>) -> int
    decreases s.len(),
{
    if s.len() == 0 {
        0
    } else {
        days_reaction_total(s.drop_last(), name) + reaction_total(s.last().1, name)
    }
}

proof fn lemma_record_none_extends(u: UserView, day: u64, hour: int, msgs: int, rs: Seq<(Seq<char>, u64)>, j: int)
    requires
        0 <= j <= rs.len(),
        record_applied(u, day, hour, msgs, rs.take(j)) is None,
    ensures
        record_applied(u, day, hour, msgs, rs) is None,
    decreases rs.len() - j,
{
    if j < rs.len() {
        assert(rs.take(j + 1).drop_last() =~= rs.take(j));
        lemma_record_none_extends(u, day, hour, msgs, rs, j + 1);
    } else {
        assert(rs.take(j) =~= rs);
    }
}

impl View for User {
    type V = UserView;

    closed spec fn view(&self) -> UserView {
        UserView { id: self.id, name: self.name@, days: to_map(day_pairs(self.days@)) }
    }
}

proof fn lemma_days_total_prefix(s: Seq<(u64, DayView)>, j: int)
    requires
        0 <= j <= s.len(),
    ensures
        0 <= days_total(s.take(j)) <= days_total(s),
    decreases s.len(),
{
    if s.len() > 0 {
        lemma_sum_counts_bound(s.last().1.msgs);
    }
    if j < s.len() {
        lemma_days_total_prefix(s.drop_last(), j);
        assert(s.drop_last().take(j) =~= s.take(j));
    } else {
        assert(s.take(j) =~= s);
        if s.len() > 0 {
            lemma_days_total_prefix(s.drop_last(), j - 1);
            assert(s.drop_last().take(j - 1) =~= s.drop_last());
        }
    }
}

proof fn lemma_days_reaction_total_prefix(s: Seq<(u64, DayView)>, name: Seq<char>, j: int)
    requires
        0 <= j <= s.len(),
    ensures
        0 <= days_reaction_total(s.take(j), name) <= days_reaction_total(s, name),
    decreases s.len(),
{
    if s.len() > 0 {
        let l = s.last().1;
        if l.reactions.contains_key(name) {
            lemma_sum_counts_bound(l.reactions[name]);
        }
    }
    if j < s.len() {
        lemma_days_reaction_total_prefix(s.drop_last(), name, j);
        assert(s.drop_last().take(j) =~= s.take(j));
    } else {
        assert(s.take(j) =~= s);
        if s.len() > 0 {
            lemma_days_reaction_total_prefix(s.drop_last(), name, j - 1);
            assert(s.drop_last().take(j - 1) =~= s.drop_last());
        }
    }
}

impl User {
    pub closed spec fn wf(&self) -> bool {
        &&& keys_unique(day_pairs(self.days@))
        &&& forall|i: int| 0 <= i < self.days@.len() ==> (#[trigger] self.days@[i]).1.wf()
    }

    /// The record's days as a sequence of (epoch day, histogram) entries, in
    /// the record's own order: each day of the view exactly once (see
    /// `lemma_day_entries`).
    pub closed spec fn day_entries(&self) -> Seq<(u64, DayView)> {
        day_pairs(self.days@)
    }

    /// The entries list every day of the record once, with its histogram.
    pub proof fn lemma_day_entries(&self)
        requires
            self.wf(),
        ensures
            keys_unique(self.day_entries()),
            to_map(self.day_entries()) == self@.days,
    {
    }

    /// Sum of the message totals over all days.
    pub open spec fn message_total(&self) -> int {
        days_total(self.day_entries())
    }

    /// Sum of one reaction's totals over all days.
    pub open spec fn reaction_sum(&self, name: Seq<char>) -> int {
        days_reaction_total(self.day_entries(), name)
    }

    /// A record with no days.
    pub fn new(id: u64, name: &str) -> (r: User)
        ensures
            r.wf(),
            r@.id == id,
            r@.name == name@,
            r@.days == Map::<u64, DayView>::empty(),
    {
        let r = User { id, name: name.to_owned(), days: Vec::new() };
        assert(day_pairs(r.days@) =~= Seq::empty());
        r
    }

    pub fn id(&self) -> (r: u64)
        ensures
            r == self@.id,
    {
        self.id
    }

    pub fn name(&self) -> (r: &String)
        ensures
            r@ == self@.name,
    {
        &self.name
    }

    /// The epoch days that hold a histogram.
    pub fn day_keys(&self) -> (r: Vec<u64>)
        requires
            self.wf(),
        ensures
            forall|d: u64| self@.days.contains_key(d) <==> r@.contains(d),
            r@.no_duplicates(),
    {
        let ghost p = day_pairs(self.days@);
        let mut r: Vec<u64> = Vec::new();
        let mut i: usize = 0;
        while i < self.days.len()
            invariant
                i <= self.days@.len(),
                p == day_pairs(self.days@),
                r@ == p.take(i as int).map_values(|q: (u64, DayView)| q.0),
            decreases self.days@.len() - i,
        {
            r.push(self.days[i].0);
            assert(p.take(i + 1).map_values(|q: (u64, DayView)| q.0) =~= p.take(i as int).map_values(|q: (u64, DayView)| q.0).push(p[i as int].0));
            i = i + 1;
        }
        assert(p.take(i as int) =~= p);
        proof {
            assert forall|d: u64| self@.days.contains_key(d) <==> r@.contains(d) by {
                lemma_to_map_dom(p, d);
                if r@.contains(d) {
                    let k = choose|k: int| 0 <= k < r@.len() && r@[k] == d;
                    assert(p[k].0 == d);
                }
                if self@.days.contains_key(d) {
                    let k = choose|k: int| 0 <= k < p.len() && p[k].0 == d;
                    assert(r@[k] == d);
                }
            }
        }
        r
    }

    /// Position of the histogram of day `day`, if the record has one.
    fn find_day(&self, day: u64) -> (r: Option<usize>)
        requires
            self.wf(),
        ensures
            r matches Some(i) ==> i < self.days@.len() && self.days@[i as int].0 == day
                && self@.days.contains_key(day) && self@.days[day] == self.days@[i as int].1@,
            r is None ==> !self@.days.contains_key(day),
    {
        let ghost p = day_pairs(self.days@);
        let mut i: usize = 0;
        while i < self.days.len()
            invariant
                i <= self.days@.len(),
                p == day_pairs(self.days@),
                keys_unique(p),
                forall|j: int| 0 <= j < i ==> p[j].0 != day,
            decreases self.days@.len() - i,
        {
            if self.days[i].0 == day {
                proof {
                    lemma_to_map_index(p, i as int);
                }
                return Some(i);
            }
            i = i + 1;
        }
        proof {
            lemma_to_map_dom(p, day);
        }
        None
    }

    /// The histogram of day `day`, if the record has one.
    pub fn get_day(&self, day: u64) -> (r: Option<&Day>)
        requires
            self.wf(),
        ensures
            r matches Some(d) ==> self@.days.contains_key(day) && d@ == self@.days[day] && d.wf(),
            r is None ==> !self@.days.contains_key(day),
    {
        match self.find_day(day) {
            Some(i) => Some(&self.days[i].1),
            None => None,
        }
    }

    /// Sets the histogram of day `day`, replacing any the record had.
    pub fn put_day(&mut self, day: u64, d: Day)
        requires
            old(self).wf(),
            d.wf(),
        ensures
            final(self).wf(),
            final(self)@ == (UserView { days: old(self)@.days.insert(day, d@), ..old(self)@ }),
    {
        let ghost p = day_pairs(self.days@);
        let ghost dv = d@;
        match self.find_day(day) {
            Some(i) => {
                self.days.set(i, (day, d));
                proof {
                    lemma_to_map_update(p, i as int, dv);
                    assert(day_pairs(self.days@) =~= p.update(i as int, (p[i as int].0, dv)));
                }
            },
            None => {
                self.days.push((day, d));
                proof {
                    lemma_unique_push(p, day, dv);
                    assert(day_pairs(self.days@) =~= p.push((day, dv)));
                }
            },
        }
        assert forall|i: int| 0 <= i < self.days@.len() implies (#[trigger] self.days@[i]).1.wf() by {
            if i < old(self).days@.len() {
                assert(old(self).days@[i].1.wf());
            }
        }
    }

    /// The histogram of day `day` copied out, or a fresh one.
    fn day_or_new(&self, day: u64) -> (r: Day)
        requires
            self.wf(),
        ensures
            r.wf(),
            r@ == day_or_fresh(self@, day),
    {
        match self.find_day(day) {
            Some(i) => {
                assert(self.days@[i as int].1.wf());
                self.days[i].1.duplicate()
            },
            None => Day::new_with_epoch(day),
        }
    }

    /// Adds `messages` to the count of `hour` on day `day`, creating the
    /// day's histogram on first use.
    pub fn update_message_count(&mut self, day: u64, hour: usize, messages: u64) -> (r: Result<(), HistogramError>)
        requires
            old(self).wf(),
        ensures
            final(self).wf(),
            hour >= 24 ==> r == Err::<(), HistogramError>(HistogramError::HourOutOfRange),
            hour < 24 && r is Err ==> r == Err::<(), HistogramError>(HistogramError::CountOverflow),
            r is Ok <==> messages_fit(old(self)@, day, hour as int, messages as int),
            r is Ok ==> final(self)@ == with_messages(old(self)@, day, hour as int, messages as int),
            r is Err ==> final(self)@ == old(self)@,
    {
        let mut d = self.day_or_new(day);
        match d.increment(hour, messages) {
            Ok(()) => {
                self.put_day(day, d);
                Ok(())
            },
            Err(e) => Err(e),
        }
    }

    /// Adds `count` to the bucket `hour` of reaction `reaction` on day `day`,
    /// creating the day's histogram on first use.
    pub fn update_reaction_count(&mut self, day: u64, hour: usize, reaction: &str, count: u64) -> (r: Result<(), HistogramError>)
        requires
            old(self).wf(),
        ensures
            final(self).wf(),
            hour >= 24 ==> r == Err::<(), HistogramError>(HistogramError::HourOutOfRange),
            hour < 24 && r is Err ==> r == Err::<(), HistogramError>(HistogramError::CountOverflow),
            r is Ok <==> reaction_fits(old(self)@, day, hour as int, reaction@, count as int),
            r is Ok ==> final(self)@ == with_reaction(old(self)@, day, hour as int, reaction@, count as int),
            r is Err ==> final(self)@ == old(self)@,
    {
        let mut d = self.day_or_new(day);
        match d.increment_reaction(reaction, hour, count) {
            Ok(()) => {
                self.put_day(day, d);
                Ok(())
            },
            Err(e) => Err(e),
        }
    }

    /// Applies one ingestion record: `messages` messages, then each
    /// reaction count in order, all at `hour` of day `day`.
    pub fn apply_record(&mut self, day: u64, hour: usize, messages: u64, reactions: &Vec<(String, u64)>) -> (r: Result<(), HistogramError>)
        requires
            old(self).wf(),
        ensures
            final(self).wf(),
            r is Ok <==> record_applied(old(self)@, day, hour as int, messages as int, reaction_pairs_of(reactions@)) is Some,
            hour < 24 && r is Err ==> r == Err::<(), HistogramError>(HistogramError::CountOverflow),
            r is Ok ==> final(self)@ == record_applied(old(self)@, day, hour as int, messages as int, reaction_pairs_of(reactions@)).unwrap(),
    {
        let ghost rs = reaction_pairs_of(reactions@);
        assert(rs.take(0) =~= Seq::<(Seq<char>, u64)>::empty());
        match self.update_message_count(day, hour, messages) {
            Ok(()) => {},
            Err(e) => {
                proof {
                    lemma_record_none_extends(old(self)@, day, hour as int, messages as int, rs, 0);
                }
                return Err(e);
            },
        }
        let mut i: usize = 0;
        while i < reactions.len()
            invariant
                i <= reactions@.len(),
                rs == reaction_pairs_of(reactions@),
                self.wf(),
                record_applied(old(self)@, day, hour as int, messages as int, rs.take(i as int)) == Some(self@),
            decreases reactions@.len() - i,
        {
            assert(rs.take(i + 1).drop_last() =~= rs.take(i as int));
            match self.update_reaction_count(day, hour, reactions[i].0.as_str(), reactions[i].1) {
                Ok(()) => {},
                Err(e) => {
                    proof {
                        lemma_record_none_extends(old(self)@, day, hour as int, messages as int, rs, i + 1);
                    }
                    return Err(e);
                },
            }
            i = i + 1;
        }
        assert(rs.take(i as int) =~= rs);
        Ok(())
    }

    /// An independent copy with the same value.
    pub fn duplicate(&self) -> (r: User)
        requires
            self.wf(),
        ensures
            r.wf(),
            r@ == self@,
    {
        let mut v: Vec<(u64, Day)> = Vec::new();
        let mut i: usize = 0;
        while i < self.days.len()
            invariant
                i <= self.days@.len(),
                self.wf(),
                v@.len() == i,
                forall|j: int| 0 <= j < i ==> (#[trigger] v@[j]).0 == self.days@[j].0 && v@[j].1@ == self.days@[j].1@ && v@[j].1.wf(),
            decreases self.days@.len() - i,
        {
            assert(self.days@[i as int].1.wf());
            let d = self.days[i].1.duplicate();
            v.push((self.days[i].0, d));
            i = i + 1;
        }
        assert(day_pairs(v@) =~= day_pairs(self.days@));
        let r = User { id: self.id, name: self.name.clone(), days: v };
        assert forall|j: int| 0 <= j < r.days@.len() implies (#[trigger] r.days@[j]).1.wf() by {
            assert(v@[j].1.wf());
        }
        r
    }

    /// A copy keeping only the days within the bounds (a missing bound lets
    /// every day through on its side).
    pub fn filter(&self, min: Option<u64>, max: Option<u64>) -> (r: User)
        requires
            self.wf(),
        ensures
            r.wf(),
            r@ == (UserView { days: filtered_days(self@.days, min, max), ..self@ }),
    {
        let ghost p = day_pairs(self.days@);
        let mut r = User::new(self.id, self.name.as_str());
        let mut i: usize = 0;
        while i < self.days.len()
            invariant
                i <= self.days@.len(),
                self.wf(),
                p == day_pairs(self.days@),
                r.wf(),
                r@.id == self@.id,
                r@.name == self@.name,
                r@.days == filtered_days(to_map(p.take(i as int)), min, max),
            decreases self.days@.len() - i,
        {
            let day = self.days[i].0;
            let keep = match min {
                Some(lo) => lo <= day,
                None => true,
            } && match max {
                Some(hi) => day <= hi,
                None => true,
            };
            proof {
                assert(p.take(i + 1) =~= p.take(i as int).push(p[i as int]));
                crate::assoc::lemma_to_map_push(p.take(i as int), p[i as int].0, p[i as int].1);
            }
            if keep {
                assert(self.days@[i as int].1.wf());
                let d = self.days[i].1.duplicate();
                r.put_day(day, d);
            }
            assert(r@.days =~= filtered_days(to_map(p.take(i + 1)), min, max));
            i = i + 1;
        }
        assert(p.take(i as int) =~= p);
        r
    }

    /// The record that starts as a copy of `self` and takes each day of
    /// `other`, except where `self` has that day within the closed bounds:
    /// there `self`'s day is kept.
    pub fn combine(&self, other: &User, min: Option<u64>, max: Option<u64>) -> (r: User)
        requires
            self.wf(),
            other.wf(),
        ensures
            r.wf(),
            r@ == (UserView { days: combined_days(self@.days, other@.days, min, max), ..self@ }),
    {
        let ghost p = day_pairs(other.days@);
        let mut r = self.duplicate();
        let mut i: usize = 0;
        assert(combined_days(self@.days, to_map(p.take(0)), min, max) =~= self@.days);
        while i < other.days.len()
            invariant
                i <= other.days@.len(),
                self.wf(),
                other.wf(),
                p == day_pairs(other.days@),
                r.wf(),
                r@.id == self@.id,
                r@.name == self@.name,
                r@.days == combined_days(self@.days, to_map(p.take(i as int)), min, max),
            decreases other.days@.len() - i,
        {
            let day = other.days[i].0;
            let in_bounds = match min {
                Some(lo) => lo <= day,
                None => true,
            } && match max {
                Some(hi) => day <= hi,
                None => true,
            };
            let keep_own = in_bounds && self.find_day(day).is_some();
            proof {
                assert(p.take(i + 1) =~= p.take(i as int).push(p[i as int]));
                crate::assoc::lemma_to_map_push(p.take(i as int), p[i as int].0, p[i as int].1);
            }
            if !keep_own {
                assert(other.days@[i as int].1.wf());
                let d = other.days[i].1.duplicate();
                r.put_day(day, d);
            }
            assert(r@.days =~= combined_days(self@.days, to_map(p.take(i + 1)), min, max));
            i = i + 1;
        }
        assert(p.take(i as int) =~= p);
        r
    }

    /// Sum of the message totals over all days; `None` when it passes the
    /// largest `u128`.
    pub fn sum(&self) -> (r: Option<u128>)
        requires
            self.wf(),
        ensures
            self.message_total() <= u128::MAX ==> r == Some(self.message_total() as u128),
            self.message_total() > u128::MAX ==> r is None,
    {
        let ghost p = day_pairs(self.days@);
        let mut acc: u128 = 0;
        let mut i: usize = 0;
        while i < self.days.len()
            invariant
                i <= self.days@.len(),
                p == day_pairs(self.days@),
                acc == days_total(p.take(i as int)),
            decreases self.days@.len() - i,
        {
            let t = self.days[i].1.total();
            assert(p.take(i + 1).drop_last() =~= p.take(i as int));
            if acc > u128::MAX - t {
                proof {
                    lemma_days_total_prefix(p, i + 1);
                }
                return None;
            }
            acc = acc + t;
            i = i + 1;
        }
        assert(p.take(i as int) =~= p);
        Some(acc)
    }

    /// Sum of one reaction's totals over all days; `None` when it passes the
    /// largest `u128`.
    pub fn sum_reactions(&self, reaction: &str) -> (r: Option<u128>)
        requires
            self.wf(),
        ensures
            self.reaction_sum(reaction@) <= u128::MAX ==> r == Some(self.reaction_sum(reaction@) as u128),
            self.reaction_sum(reaction@) > u128::MAX ==> r is None,
    {
        let ghost p = day_pairs(self.days@);
        let mut acc: u128 = 0;
        let mut i: usize = 0;
        while i < self.days.len()
            invariant
                i <= self.days@.len(),
                self.wf(),
                p == day_pairs(self.days@),
                acc == days_reaction_total(p.take(i as int), reaction@),
            decreases self.days@.len() - i,
        {
            assert(self.days@[i as int].1.wf());
            let t = self.days[i].1.total_reactions_of(reaction);
            assert(p.take(i + 1).drop_last() =~= p.take(i as int));
            if acc > u128::MAX - t {
                proof {
                    lemma_days_reaction_total_prefix(p, reaction@, i + 1);
                }
                return None;
            }
            acc = acc + t;
            i = i + 1;
        }
        assert(p.take(i as int) =~= p);
        Some(acc)
    }
}

} // verus!
