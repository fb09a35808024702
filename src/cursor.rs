//! The cursor cache: for each (community, channel) the position at which an
//! ingestion scan resumes. A cursor is kept as the bit pattern of the
//! floating-point position (`f64::to_bits`); nothing here reads it as a number.
use vstd::prelude::*;

use crate::assoc::{keys_unique, lemma_to_map_dom, lemma_to_map_index, lemma_to_map_update, lemma_unique_push, to_map};

verus! {

/// The cursor cache, kept at its path.
pub struct BatchCache {
    path: String,
    servers: Vec<((u64, u64), u64)>,
}

/// The mathematical value of a cursor cache.
pub struct CursorView {
    pub path: Seq<char>,
    pub entries: Map<(u64, u64), u64>,
}

impl View for BatchCache {
    type V = CursorView;

    closed spec fn view(&self) -> CursorView {
        CursorView { path: self.path@, entries: to_map(self.servers@) }
    }
}

impl BatchCache {
    pub closed spec fn wf(&self) -> bool {
        keys_unique(self.servers@)
    }

    /// An empty cache kept at `path`.
    pub fn new(path: &str) -> (r: BatchCache)
        ensures
            r.wf(),
            r@.path == path@,
            r@.entries == Map::<(u64, u64), u64>::empty(),
    {
        let r = BatchCache { path: path.to_owned(), servers: Vec::new() };
        assert(r.servers@ =~= Seq::<((u64, u64), u64)>::empty());
        r
    }

    pub fn path(&self) -> (r: &String)
        ensures
            r@ == self@.path,
    {
        &self.path
    }

    /// Every (community, channel) with its cursor, each key once.
    pub fn entries(&self) -> (r: &Vec<((u64, u64), u64)>)
        requires
            self.wf(),
        ensures
            keys_unique(r@),
            to_map(r@) == self@.entries,
    {
        &self.servers
    }

    fn find(&self, server_id: u64, channel_id: u64) -> (r: Option<usize>)
        requires
            self.wf(),
        ensures
            r matches Some(i) ==> i < self.servers@.len() && self.servers@[i as int].0 == (server_id, channel_id)
                && self@.entries.contains_key((server_id, channel_id)) && self@.entries[(server_id, channel_id)] == self.servers@[i as int].1,
            r is None ==> !self@.entries.contains_key((server_id, channel_id)),
    {
        let ghost p = self.servers@;
        let ghost k = (server_id, channel_id);
        let mut i: usize = 0;
        while i < self.servers.len()
            invariant
                i <= self.servers@.len(),
                p == self.servers@,
                k == (server_id, channel_id),
                keys_unique(p),
                forall|j: int| 0 <= j < i ==> p[j].0 != k,
            decreases self.servers@.len() - i,
        {
            let a: u64 = self.servers[i].0.0;
            let b: u64 = self.servers[i].0.1;
            if a == server_id && b == channel_id {
                assert(p[i as int].0 == k);
                proof {
                    lemma_to_map_index(p, i as int);
                }
                return Some(i);
            }
            assert(p[i as int].0 != k);
            i = i + 1;
        }
        proof {
            lemma_to_map_dom(p, k);
        }
        None
    }

    /// The cursor of a channel, if one was recorded.
    pub fn get_pointer(&self, server_id: u64, channel_id: u64) -> (r: Option<u64>)
        requires
            self.wf(),
        ensures
            r == if self@.entries.contains_key((server_id, channel_id)) {
                Some(self@.entries[(server_id, channel_id)])
            } else {
                None
            },
    {
        match self.find(server_id, channel_id) {
            Some(i) => Some(self.servers[i].1),
            None => None,
        }
    }

    /// Records the cursor of a channel: it is inserted when the channel has
    /// none yet, and replaced otherwise.
    pub fn log_pointer(&mut self, server_id: u64, channel_id: u64, ptr: u64)
        requires
            old(self).wf(),
        ensures
            final(self).wf(),
            final(self)@ == (CursorView { entries: old(self)@.entries.insert((server_id, channel_id), ptr), ..old(self)@ }),
    {
        let ghost p = self.servers@;
        match self.find(server_id, channel_id) {
            Some(i) => {
                self.servers.set(i, ((server_id, channel_id), ptr));
                proof {
                    lemma_to_map_update(p, i as int, ptr);
                }
            },
            None => {
                self.servers.push(((server_id, channel_id), ptr));
                proof {
                    lemma_unique_push(p, (server_id, channel_id), ptr);
                }
            },
        }
    }

    /// Forgets every cursor.
    pub fn clear(&mut self)
        ensures
            final(self).wf(),
            final(self)@ == (CursorView { entries: Map::empty(), ..old(self)@ }),
    {
        self.servers.clear();
        assert(self.servers@ =~= Seq::<((u64, u64), u64)>::empty());
    }
}

} // verus!
