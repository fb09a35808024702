//! The day histogram: one user's hourly message counts and hourly counts per
//! reaction name, for one day.
use vstd::prelude::*;

use crate::assoc::{keys_unique, lemma_to_map_dom, lemma_to_map_index, lemma_to_map_update, lemma_unique_push, to_map};
use crate::epoch::{epoch_to_unix, now_secs, unix_of_day};

verus! {

pub const HOURS: usize = 24;

/// Why a count could not be recorded.
#[derive(Debug, Clone, Copy, PartialEq, Eq, Structural)]
pub enum HistogramError {
    /// The hour is not in 0 to 23.
    HourOutOfRange,
    /// The bucket would pass the largest count a `u64` holds.
    CountOverflow,
}

/// 24 hourly counts for one reaction name.
pub struct ReactionHours {
    pub name: String,
    pub hours: [u64; 24],
}

/// One user's counts for one day: the day's start (Unix seconds), 24 hourly
/// message counts, and 24 hourly counts for each reaction name seen.
pub struct Day {
    date: i128,
    msg_hours: [u64; 24],
    emoji_hours: Vec<ReactionHours>,
}

/// The mathematical value of a day.
pub struct DayView {
    pub date: int,
    pub msgs: Seq<u64>,
    pub reactions: Map<Seq<char>, Seq<u64>>,
}

/// Sum of a sequence of counts.
pub open spec fn sum_counts(s: Seq<u64>) -> int
    decreases s.len(),
{
    if s.len() == 0 {
        0
    } else {
        sum_counts(s.drop_last()) + s.last()
    }
}

/// Twenty-four zero counts.
pub open spec fn zero_hours() -> Seq<u64> {
    Seq::new(24, |i: int| 0u64)
}

/// `h` with `v` added to the bucket `hour`.
pub open spec fn bumped(h: Seq<u64>, hour: int, v: int) -> Seq<u64> {
    h.update(hour, (h[hour] + v) as u64)
}

/// Adding `v` to the bucket `hour` would not overflow.
pub open spec fn bump_fits(h: Seq<u64>, hour: int, v: int) -> bool {
    h[hour] + v <= u64::MAX
}

/// A day with no counts, dated `date`.
pub open spec fn fresh_day(date: int) -> DayView {
    DayView { date, msgs: zero_hours(), reactions: Map::empty() }
}

/// The hours recorded for a reaction, all zero when it has none.
pub open spec fn reaction_hours_of(d: DayView, name: Seq<char>) -> Seq<u64> {
    if d.reactions.contains_key(name) {
        d.reactions[name]
    } else {
        zero_hours()
    }
}

/// Sum of a reaction's counts, 0 when the day has none of it.
pub open spec fn reaction_total(d: DayView, name: Seq<char>) -> int {
    if d.reactions.contains_key(name) {
        sum_counts(d.reactions[name])
    } else {
        0
    }
}

pub open spec fn reaction_pairs(v: Seq<ReactionHours>) -> Seq<(Seq<char>, Seq<u64>)> {
    v.map_values(|r: ReactionHours| (r.name@, r.hours@))
}

impl View for Day {
    type V = DayView;

    closed spec fn view(&self) -> DayView {
        DayView {
            date: self.date as int,
            msgs: self.msg_hours@,
            reactions: to_map(reaction_pairs(self.emoji_hours@)),
        }
    }
}

pub proof fn lemma_sum_counts_bound(s: Seq<u64>)
    ensures
        0 <= sum_counts(s) <= s.len() * u64::MAX,
    decreases s.len(),
{
    if s.len() > 0 {
        lemma_sum_counts_bound(s.drop_last());
    }
}

/// Adding `v` to one bucket adds exactly `v` to the sum of the buckets.
pub proof fn lemma_bump_total(h: Seq<u64>, hour: int, v: int)
    requires
        0 <= hour < h.len(),
        0 <= v,
        bump_fits(h, hour, v),
    ensures
        sum_counts(bumped(h, hour, v)) == sum_counts(h) + v,
    decreases h.len(),
{
    let b = bumped(h, hour, v);
    if hour == h.len() - 1 {
        assert(b.drop_last() =~= h.drop_last());
    } else {
        lemma_bump_total(h.drop_last(), hour, v);
        assert(b.drop_last() =~= bumped(h.drop_last(), hour, v));
    }
}

/// The buckets after a sequence of increments `(hour, amount)`, each taken as
/// `Day::increment` takes it: one whose hour is past 23, or that would
/// overflow its bucket, changes nothing.
pub open spec fn after_increments(h: Seq<u64>, ops: Seq<(usize, u64)>) -> Seq<u64>
    decreases ops.len(),
{
    if ops.len() == 0 {
        h
    } else {
        let g = after_increments(h, ops.drop_last());
        let o = ops.last();
        if o.0 < 24 && bump_fits(g, o.0 as int, o.1 as int) {
            bumped(g, o.0 as int, o.1 as int)
        } else {
            g
        }
    }
}

/// No increment of the sequence with a valid hour overflows its bucket.
pub open spec fn increments_fit(h: Seq<u64>, ops: Seq<(usize, u64)>) -> bool
    decreases ops.len(),
{
    if ops.len() == 0 {
        true
    } else {
        increments_fit(h, ops.drop_last()) && (ops.last().0 < 24 ==> bump_fits(
            after_increments(h, ops.drop_last()),
            ops.last().0 as int,
            ops.last().1 as int,
        ))
    }
}

/// Sum of the amounts of the increments into the bucket `hour`.
pub open spec fn amounts_into(ops: Seq<(usize, u64)>, hour: int) -> int
    decreases ops.len(),
{
    if ops.len() == 0 {
        0
    } else {
        amounts_into(ops.drop_last(), hour) + if ops.last().0 == hour { ops.last().1 as int } else { 0 }
    }
}

/// Sum of the amounts of the increments whose hour is valid (below 24).
pub open spec fn valid_amounts(ops: Seq<(usize, u64)>) -> int
    decreases ops.len(),
{
    if ops.len() == 0 {
        0
    } else {
        valid_amounts(ops.drop_last()) + if ops.last().0 < 24 { ops.last().1 as int } else { 0 }
    }
}

/// After any sequence of increments that do not overflow, each bucket holds
/// its old count plus the amounts added to it, and the total is the old
/// total plus the amounts of every increment with a valid hour.
pub proof fn lemma_increments(h: Seq<u64>, ops: Seq<(usize, u64)>)
    requires
        h.len() == 24,
        increments_fit(h, ops),
    ensures
        after_increments(h, ops).len() == 24,
        forall|i: int| 0 <= i < 24 ==> #[trigger] after_increments(h, ops)[i] == h[i] + amounts_into(ops, i),
        sum_counts(after_increments(h, ops)) == sum_counts(h) + valid_amounts(ops),
    decreases ops.len(),
{
    if ops.len() > 0 {
        let p = ops.drop_last();
        lemma_increments(h, p);
        let g = after_increments(h, p);
        let o = ops.last();
        if o.0 < 24 {
            lemma_bump_total(g, o.0 as int, o.1 as int);
        }
    }
}

/// Sum of a fixed array of 24 counts.
fn sum_hours(h: &[u64; 24]) -> (r: u128)
    ensures
        r == sum_counts(h@),
{
    let mut acc: u128 = 0;
    let mut i: usize = 0;
    while i < HOURS
        invariant
            i <= 24,
            h@.len() == 24,
            acc == sum_counts(h@.take(i as int)),
            acc <= i * u64::MAX,
        decreases 24 - i,
    {
        assert(h@.take(i + 1).drop_last() =~= h@.take(i as int));
        acc = acc + h[i] as u128;
        i = i + 1;
    }
    assert(h@.take(24) =~= h@);
    acc
}

impl Day {
    pub closed spec fn wf(&self) -> bool {
        keys_unique(reaction_pairs(self.emoji_hours@))
    }

    /// A day dated `date` (Unix seconds) with every count zero.
    pub fn new(date: i128) -> (r: Day)
        ensures
            r.wf(),
            r@ == fresh_day(date as int),
    {
        let r = Day { date, msg_hours: [0u64; 24], emoji_hours: Vec::new() };
        assert(r.msg_hours@ =~= zero_hours());
        assert(reaction_pairs(r.emoji_hours@) =~= Seq::empty());
        r
    }

    /// An empty day dated at the start of epoch day `epoch`.
    pub fn new_with_epoch(epoch: u64) -> (r: Day)
        ensures
            r.wf(),
            r@ == fresh_day(unix_of_day(epoch as int)),
    {
        Day::new(epoch_to_unix(epoch))
    }

    /// An empty day dated now.
    pub fn new_now() -> (r: Day)
        ensures
            r.wf(),
            r@.msgs == zero_hours(),
            r@.reactions == Map::<Seq<char>, Seq<u64>>::empty(),
            i64::MIN <= r@.date <= i64::MAX,
    {
        Day::new(now_secs() as i128)
    }

    /// An empty day dated at the start of epoch day `t`.
    pub fn new_from_timeof(t: u64) -> (r: Day)
        ensures
            r.wf(),
            r@ == fresh_day(unix_of_day(t as int)),
    {
        Day::new_with_epoch(t)
    }

    pub fn date(&self) -> (r: i128)
        ensures
            r == self@.date,
    {
        self.date
    }

    pub fn msg_hours(&self) -> (r: [u64; 24])
        ensures
            r@ == self@.msgs,
    {
        self.msg_hours
    }

    pub fn reactions(&self) -> (r: &Vec<ReactionHours>)
        ensures
            to_map(reaction_pairs(r@)) == self@.reactions,
    {
        &self.emoji_hours
    }

    /// Adds `value` to the message count of `hour`.
    pub fn increment(&mut self, hour: usize, value: u64) -> (r: Result<(), HistogramError>)
        requires
            old(self).wf(),
        ensures
            final(self).wf(),
            hour >= 24 ==> r == Err::<(), HistogramError>(HistogramError::HourOutOfRange),
            hour < 24 && !bump_fits(old(self)@.msgs, hour as int, value as int) ==> r == Err::<(), HistogramError>(HistogramError::CountOverflow),
            r is Ok <==> hour < 24 && bump_fits(old(self)@.msgs, hour as int, value as int),
            r is Ok ==> final(self)@ == (DayView { msgs: bumped(old(self)@.msgs, hour as int, value as int), ..old(self)@ }),
            r is Err ==> final(self)@ == old(self)@,
    {
        if hour >= HOURS {
            return Err(HistogramError::HourOutOfRange);
        }
        let cur = self.msg_hours[hour];
        if cur > u64::MAX - value {
            return Err(HistogramError::CountOverflow);
        }
        self.msg_hours[hour] = cur + value;
        assert(self.msg_hours@ =~= bumped(old(self)@.msgs, hour as int, value as int));
        Ok(())
    }

    /// Sum of the 24 message counts.
    pub fn total(&self) -> (r: u128)
        ensures
            r == sum_counts(self@.msgs),
    {
        sum_hours(&self.msg_hours)
    }

    /// The position of `name` among the reactions, if it has one.
    fn find_reaction(&self, name: &String) -> (r: Option<usize>)
        requires
            self.wf(),
        ensures
            r matches Some(i) ==> i < self.emoji_hours@.len() && self.emoji_hours@[i as int].name@ == name@
                && self@.reactions.contains_key(name@) && self@.reactions[name@] == self.emoji_hours@[i as int].hours@,
            r is None ==> !self@.reactions.contains_key(name@),
    {
        let ghost p = reaction_pairs(self.emoji_hours@);
        let mut i: usize = 0;
        while i < self.emoji_hours.len()
            invariant
                i <= self.emoji_hours@.len(),
                p == reaction_pairs(self.emoji_hours@),
                keys_unique(p),
                forall|j: int| 0 <= j < i ==> p[j].0 != name@,
            decreases self.emoji_hours@.len() - i,
        {
            if self.emoji_hours[i].name == *name {
                proof {
                    lemma_to_map_index(p, i as int);
                }
                return Some(i);
            }
            i = i + 1;
        }
        proof {
            lemma_to_map_dom(p, name@);
        }
        None
    }

    /// The 24 counts of a reaction; all zero if this day has none of it.
    pub fn get_reaction(&self, reaction: &str) -> (r: [u64; 24])
        requires
            self.wf(),
        ensures
            r@ == reaction_hours_of(self@, reaction@),
    {
        let name = reaction.to_owned();
        match self.find_reaction(&name) {
            Some(i) => self.emoji_hours[i].hours,
            None => {
                let z = [0u64; 24];
                assert(z@ =~= zero_hours());
                z
            }
        }
    }

    /// Sum of a reaction's 24 counts, 0 if this day has none of it.
    pub fn total_reactions_of(&self, reaction: &str) -> (r: u128)
        requires
            self.wf(),
        ensures
            r == reaction_total(self@, reaction@),
    {
        let name = reaction.to_owned();
        match self.find_reaction(&name) {
            Some(i) => sum_hours(&self.emoji_hours[i].hours),
            None => 0,
        }
    }

    /// Adds `count` to the bucket `hour` of the reaction `reaction`, creating
    /// its 24 buckets at zero on first use.
    pub fn increment_reaction(&mut self, reaction: &str, hour: usize, count: u64) -> (r: Result<(), HistogramError>)
        requires
            old(self).wf(),
        ensures
            final(self).wf(),
            hour >= 24 ==> r == Err::<(), HistogramError>(HistogramError::HourOutOfRange),
            hour < 24 && !bump_fits(reaction_hours_of(old(self)@, reaction@), hour as int, count as int)
                ==> r == Err::<(), HistogramError>(HistogramError::CountOverflow),
            r is Ok <==> hour < 24 && bump_fits(reaction_hours_of(old(self)@, reaction@), hour as int, count as int),
            r is Ok ==> final(self)@ == (DayView {
                reactions: old(self)@.reactions.insert(
                    reaction@,
                    bumped(reaction_hours_of(old(self)@, reaction@), hour as int, count as int),
                ),
                ..old(self)@
            }),
            r is Err ==> final(self)@ == old(self)@,
    {
        if hour >= HOURS {
            return Err(HistogramError::HourOutOfRange);
        }
        let name = reaction.to_owned();
        let ghost p = reaction_pairs(self.emoji_hours@);
        match self.find_reaction(&name) {
            Some(i) => {
                let mut hours = self.emoji_hours[i].hours;
                let cur = hours[hour];
                if cur > u64::MAX - count {
                    return Err(HistogramError::CountOverflow);
                }
                hours[hour] = cur + count;
                let entry = ReactionHours { name, hours };
                self.emoji_hours.set(i, entry);
                proof {
                    lemma_to_map_update(p, i as int, hours@);
                    assert(reaction_pairs(self.emoji_hours@) =~= p.update(i as int, (p[i as int].0, hours@)));
                    assert(hours@ =~= bumped(reaction_hours_of(old(self)@, reaction@), hour as int, count as int));
                }
                Ok(())
            },
            None => {
                let mut hours = [0u64; 24];
                assert(hours@ =~= zero_hours());
                hours[hour] = count;
                let entry = ReactionHours { name, hours };
                self.emoji_hours.push(entry);
                proof {
                    lemma_unique_push(p, reaction@, hours@);
                    assert(reaction_pairs(self.emoji_hours@) =~= p.push((reaction@, hours@)));
                    assert(hours@ =~= bumped(zero_hours(), hour as int, count as int));
                }
                Ok(())
            },
        }
    }

    /// An independent copy with the same value.
    pub fn duplicate(&self) -> (r: Day)
        requires
            self.wf(),
        ensures
            r.wf(),
            r@ == self@,
    {
        let mut v: Vec<ReactionHours> = Vec::new();
        let mut i: usize = 0;
        while i < self.emoji_hours.len()
            invariant
                i <= self.emoji_hours@.len(),
                v@.len() == i,
                forall|j: int| 0 <= j < i ==> (#[trigger] v@[j]).name@ == self.emoji_hours@[j].name@
                    && v@[j].hours@ == self.emoji_hours@[j].hours@,
            decreases self.emoji_hours@.len() - i,
        {
            let e = &self.emoji_hours[i];
            let n = e.name.clone();
            assert(n@ == e.name@);
            v.push(ReactionHours { name: n, hours: e.hours });
            i = i + 1;
        }
        assert(reaction_pairs(v@) =~= reaction_pairs(self.emoji_hours@));
        Day { date: self.date, msg_hours: self.msg_hours, emoji_hours: v }
    }

    /// Sets all 24 counts of a reaction, replacing any it had.
    pub fn set_reaction_hours(&mut self, reaction: &str, hours: [u64; 24])
        requires
            old(self).wf(),
        ensures
            final(self).wf(),
            final(self)@ == (DayView { reactions: old(self)@.reactions.insert(reaction@, hours@), ..old(self)@ }),
    {
        let name = reaction.to_owned();
        let ghost p = reaction_pairs(self.emoji_hours@);
        match self.find_reaction(&name) {
            Some(i) => {
                self.emoji_hours.set(i, ReactionHours { name, hours });
                proof {
                    lemma_to_map_update(p, i as int, hours@);
                    assert(reaction_pairs(self.emoji_hours@) =~= p.update(i as int, (p[i as int].0, hours@)));
                }
            },
            None => {
                self.emoji_hours.push(ReactionHours { name, hours });
                proof {
                    lemma_unique_push(p, reaction@, hours@);
                    assert(reaction_pairs(self.emoji_hours@) =~= p.push((reaction@, hours@)));
                }
            },
        }
    }

    /// Sets all 24 message counts.
    pub fn set_msg_hours(&mut self, hours: [u64; 24])
        requires
            old(self).wf(),
        ensures
            final(self).wf(),
            final(self)@ == (DayView { msgs: hours@, ..old(self)@ }),
    {
        self.msg_hours = hours;
    }
}

/// Twenty-four zero counts.
pub fn generate_empty_hours() -> (r: [u64; 24])
    ensures
        r@ == zero_hours(),
{
    let r = [0u64; 24];
    assert(r@ =~= zero_hours());
    r
}

} // verus!
