use vstd::prelude::*;
use std::collections::HashMap;
use crate::database::{tag_views, Database, DbView};
use crate::error::Error;
use crate::model::{Tag, TimeSlice};

verus! {

/// Slices in ascending order of start time.
pub open spec fn chronological(s: Seq<TimeSlice>) -> bool {
    forall|i: int, j: int| 0 <= i < j < s.len() ==> (#[trigger] s[i]).start_time <= (#[trigger] s[j]).start_time
}

/// A point-in-time view of the ledger: the slices in chronological order,
/// with the tags and the description of each.
pub struct Timeline {
    pub list: Vec<TimeSlice>,
    pub tags: HashMap<u64, Vec<Tag>>,
    pub desc: HashMap<u64, String>,
}

/// One slice joined with its tags and description.
pub struct TimeInfo {
    pub time_slice: TimeSlice,
    pub tag: Option<Vec<Tag>>,
    pub desc: Option<String>,
}

/// A copy of a sequence of tags.
pub fn copy_tags(v: &Vec<Tag>) -> (r: Vec<Tag>)
    ensures
        r@ == v@,
{
    let mut r: Vec<Tag> = Vec::new();
    let mut i: usize = 0;
    while i < v.len()
        invariant
            i <= v@.len(),
            r@ == v@.take(i as int),
        decreases v@.len() - i,
    {
        r.push(v[i].copy());
        assert(v@.take(i as int + 1) =~= v@.take(i as int).push(v@[i as int]));
        i += 1;
    }
    assert(v@.take(v@.len() as int) =~= v@);
    r
}

impl Timeline {
    /// Whether the timeline holds a slice with identifier `id`.
    pub open spec fn has(&self, id: u64) -> bool {
        exists|k: int| 0 <= k < self.list@.len() && (#[trigger] self.list@[k]).id == id
    }

    /// The timeline of `db`, as the store holds it now.
    pub open spec fn reflects(&self, db: DbView) -> bool {
        &&& chronological(self.list@)
        &&& self.list@.len() == db.slices.len()
        &&& forall|t: TimeSlice| self.list@.contains(t) <==> db.slices.contains(t)
        &&& forall|sid: u64| #[trigger] self.tags@.contains_key(sid) <==> db.tags_of_slice(sid).len() > 0
        &&& forall|sid: u64| #[trigger] self.tags@.contains_key(sid) ==> tag_views(self.tags@[sid]@) == db.tags_of_slice(sid)
        &&& forall|sid: u64| #[trigger] self.desc@.contains_key(sid) <==> db.has_description(sid)
        &&& forall|sid: u64| #[trigger] self.desc@.contains_key(sid) ==> self.desc@[sid]@ == db.desc_of(sid)
    }

    pub fn new() -> (r: Timeline)
        ensures
            r.list@.len() == 0,
            r.tags@.len() == 0,
            r.desc@.len() == 0,
    {
        broadcast use vstd::std_specs::hash::group_hash_axioms;
        Timeline { list: Vec::new(), tags: HashMap::new(), desc: HashMap::new() }
    }

    /// Nothing to prepare: a timeline is complete once built.
    pub fn init(&mut self)
        ensures
            final(self).list@ == old(self).list@,
            final(self).tags@ == old(self).tags@,
            final(self).desc@ == old(self).desc@,
    {
    }

    /// Inserts `time_slice` after every slice that starts no later than it,
    /// keeping the order.
    pub fn add(&mut self, time_slice: TimeSlice)
        requires
            chronological(old(self).list@),
        ensures
            chronological(final(self).list@),
            exists|p: int|
                0 <= p <= old(self).list@.len() && final(self).list@ == old(self).list@.insert(p, time_slice)
                    && (forall|k: int| 0 <= k < p ==> (#[trigger] old(self).list@[k]).start_time <= time_slice.start_time)
                    && (forall|k: int| p <= k < old(self).list@.len() ==> (#[trigger] old(self).list@[k]).start_time > time_slice.start_time),
            final(self).tags@ == old(self).tags@,
            final(self).desc@ == old(self).desc@,
    {
        let x: u64 = time_slice.start_time;
        let mut lo: usize = 0;
        let mut hi: usize = self.list.len();
        while lo < hi
            invariant
                0 <= lo <= hi <= self.list@.len(),
                chronological(self.list@),
                forall|k: int| 0 <= k < lo ==> (#[trigger] self.list@[k]).start_time <= x,
                forall|k: int| hi <= k < self.list@.len() ==> (#[trigger] self.list@[k]).start_time > x,
            decreases hi - lo,
        {
            let mid: usize = lo + (hi - lo) / 2;
            if self.list[mid].start_time <= x {
                proof {
                    assert forall|k: int| 0 <= k < mid + 1 implies (#[trigger] self.list@[k]).start_time <= x by {
                        if k < mid {
                            assert(self.list@[k].start_time <= self.list@[mid as int].start_time);
                        }
                    }
                }
                lo = mid + 1;
            } else {
                proof {
                    assert forall|k: int| mid <= k < self.list@.len() implies (#[trigger] self.list@[k]).start_time > x by {
                        if k > mid {
                            assert(self.list@[mid as int].start_time <= self.list@[k].start_time);
                        }
                    }
                }
                hi = mid;
            }
        }
        let ghost before = self.list@;
        self.list.insert(lo, time_slice);
        proof {
            let after = self.list@;
            assert(after =~= before.insert(lo as int, time_slice));
            assert forall|i: int, j: int| 0 <= i < j < after.len() implies (#[trigger] after[i]).start_time <= (#[trigger] after[j]).start_time by {
                if j < lo {
                    assert(after[i] == before[i] && after[j] == before[j]);
                } else if j == lo {
                    assert(after[i] == before[i]);
                } else if i < lo {
                    assert(after[i] == before[i] && after[j] == before[j - 1]);
                } else if i == lo {
                    assert(after[j] == before[j - 1]);
                } else {
                    assert(after[i] == before[i - 1] && after[j] == before[j - 1]);
                }
            }
        }
    }

    /// Removes the slice at position `ind`.
    pub fn remove(&mut self, ind: u64)
        requires
            ind < old(self).list@.len(),
        ensures
            final(self).list@ == old(self).list@.remove(ind as int),
            final(self).tags@ == old(self).tags@,
            final(self).desc@ == old(self).desc@,
    {
        let n: usize = self.list.len();
        assert(ind < n);
        self.list.remove(ind as usize);
    }

    /// Appends `time_slice` at the end, whatever its start time.
    pub fn push(&mut self, time_slice: TimeSlice)
        ensures
            final(self).list@ == old(self).list@.push(time_slice),
            final(self).tags@ == old(self).tags@,
            final(self).desc@ == old(self).desc@,
    {
        self.list.push(time_slice);
    }

    /// The first slice with identifier `time_slice_id`, joined with its tags
    /// and description.
    pub fn get_time_info(&self, time_slice_id: u64) -> (r: Result<TimeInfo, Error>)
        ensures
            !self.has(time_slice_id) ==> r == Err::<TimeInfo, Error>(Error::NotFound),
            self.has(time_slice_id) ==> r is Ok,
            r is Ok ==> {
                let info = r->Ok_0;
                &&& info.time_slice.id == time_slice_id
                &&& exists|k: int|
                    0 <= k < self.list@.len() && self.list@[k] == info.time_slice && forall|j: int|
                        0 <= j < k ==> (#[trigger] self.list@[j]).id != time_slice_id
                &&& (info.tag is Some <==> self.tags@.contains_key(time_slice_id))
                &&& (info.tag is Some ==> info.tag->0@ == self.tags@[time_slice_id]@)
                &&& (info.desc is Some <==> self.desc@.contains_key(time_slice_id))
                &&& (info.desc is Some ==> info.desc->0@ == self.desc@[time_slice_id]@)
            },
    {
        broadcast use vstd::std_specs::hash::group_hash_axioms;
        let mut i: usize = 0;
        while i < self.list.len()
            invariant
                i <= self.list@.len(),
                forall|k: int| 0 <= k < i ==> (#[trigger] self.list@[k]).id != time_slice_id,
            decreases self.list@.len() - i,
        {
            if self.list[i].id == time_slice_id {
                let tag = match self.tags.get(&time_slice_id) {
                    Some(v) => Some(copy_tags(v)),
                    None => None,
                };
                let desc = match self.desc.get(&time_slice_id) {
                    Some(d) => Some(d.clone()),
                    None => None,
                };
                return Ok(TimeInfo { time_slice: self.list[i], tag, desc });
            }
            i += 1;
        }
        Err(Error::NotFound)
    }

    /// The timeline of the store as it is now: every slice, sorted by start
    /// time, with the tags and description of each.
    pub fn build(db: &Database) -> (r: Timeline)
        requires
            db@.wf(),
        ensures
            r.reflects(db@),
    {
        let slices = db.get_all_time_slices();
        let mut t = Timeline { list: Vec::new(), tags: db.get_all_times_tag(), desc: db.get_descriptions_map() };
        let mut i: usize = 0;
        while i < slices.len()
            invariant
                i <= slices@.len(),
                slices@ == db@.slices,
                chronological(t.list@),
                t.list@.len() == i,
                forall|x: TimeSlice| t.list@.contains(x) <==> slices@.take(i as int).contains(x),
                forall|sid: u64| #[trigger] t.tags@.contains_key(sid) <==> db@.tags_of_slice(sid).len() > 0,
                forall|sid: u64| #[trigger] t.tags@.contains_key(sid) ==> tag_views(t.tags@[sid]@) == db@.tags_of_slice(sid),
                forall|sid: u64| #[trigger] t.desc@.contains_key(sid) <==> db@.has_description(sid),
                forall|sid: u64| #[trigger] t.desc@.contains_key(sid) ==> t.desc@[sid]@ == db@.desc_of(sid),
            decreases slices@.len() - i,
        {
            let ghost before = t.list@;
            t.add(slices[i]);
            proof {
                let p = choose|p: int|
                    0 <= p <= before.len() && t.list@ == before.insert(p, slices@[i as int])
                        && (forall|k: int| 0 <= k < p ==> (#[trigger] before[k]).start_time <= slices@[i as int].start_time)
                        && (forall|k: int| p <= k < before.len() ==> (#[trigger] before[k]).start_time > slices@[i as int].start_time);
                let pre = slices@.take(i as int);
                let next = slices@.take(i as int + 1);
                assert(next =~= pre.push(slices@[i as int]));
                assert forall|x: TimeSlice| t.list@.contains(x) <==> next.contains(x) by {
                    if t.list@.contains(x) {
                        let w = choose|w: int| 0 <= w < t.list@.len() && t.list@[w] == x;
                        if w < p {
                            assert(before[w] == x);
                            assert(before.contains(x));
                            let v = choose|v: int| 0 <= v < pre.len() && pre[v] == x;
                            assert(next[v] == x);
                        } else if w == p {
                            assert(next[i as int] == x);
                        } else {
                            assert(before[w - 1] == x);
                            assert(before.contains(x));
                            let v = choose|v: int| 0 <= v < pre.len() && pre[v] == x;
                            assert(next[v] == x);
                        }
                    }
                    if next.contains(x) {
                        let v = choose|v: int| 0 <= v < next.len() && next[v] == x;
                        if v < i {
                            assert(pre[v] == x);
                            assert(pre.contains(x));
                            assert(before.contains(x));
                            let w = choose|w: int| 0 <= w < before.len() && before[w] == x;
                            if w < p {
                                assert(t.list@[w] == x);
                            } else {
                                assert(t.list@[w + 1] == x);
                            }
                        } else {
                            assert(t.list@[p] == x);
                        }
                    }
                }
            }
            i += 1;
        }
        proof {
            assert(slices@.take(slices@.len() as int) =~= slices@);
        }
        t
    }
}

} // verus!
