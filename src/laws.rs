use vstd::prelude::*;
use crate::controller::AppView;
use crate::database::{description_kept, lemma_origin, lemma_tag_set_fixed, tag_set, link_kept, slice_kept, tag_views, DbView};
use crate::error::Error;
use crate::model::{TagView, TimeSlice};
use crate::timeline::Timeline;

verus! {

/// The tag rows of a store, as far as the tag registry goes: identifiers
/// rising, below the next one, names unique.
pub open spec fn registry_ok(db: DbView) -> bool {
    &&& forall|i: int| 0 <= i < db.tags.len() ==> (#[trigger] db.tags[i]).id < db.next_tag_id
    &&& forall|i: int, j: int|
        #![trigger db.tags[i], db.tags[j]]
        0 <= i < j < db.tags.len() ==> db.tags[i].id < db.tags[j].id
    &&& forall|i: int, j: int|
        #![trigger db.tags[i], db.tags[j]]
        0 <= i < db.tags.len() && 0 <= j < db.tags.len() && i != j ==> db.tags[i].name != db.tags[j].name
}

/// The names of a sequence of tag rows.
pub open spec fn names_of(s: Seq<TagView>) -> Seq<Seq<char>> {
    s.map_values(|v: TagView| v.name)
}

/// Resolving names touches the tag registry only.
proof fn lemma_resolve_frame(db: DbView, names: Seq<Seq<char>>)
    ensures
        db.resolve(names).0.slices == db.slices,
        db.resolve(names).0.links == db.links,
        db.resolve(names).0.descriptions == db.descriptions,
        db.resolve(names).0.next_slice_id == db.next_slice_id,
        db.resolve(names).0.next_tag_id >= db.next_tag_id,
        db.resolve(names).0.next_tag_id <= db.next_tag_id + names.len(),
        db.resolve(names).0.tags.len() >= db.tags.len(),
        forall|i: int| 0 <= i < db.tags.len() ==> db.resolve(names).0.tags[i] == db.tags[i],
    decreases names.len(),
{
    if names.len() > 0 {
        lemma_resolve_frame(db, names.drop_last());
    }
}

/// Find-or-create keeps the registry in order, and the row of each
/// identifier that was there before.
proof fn lemma_find_or_create_registry(db: DbView, name: Seq<char>)
    requires
        registry_ok(db),
    ensures
        registry_ok(db.after_find_or_create(name)),
        forall|i: int| 0 <= i < db.tags.len() ==> db.after_find_or_create(name).tags[i] == db.tags[i],
        db.find_or_create_outcome(name) is Ok ==> {
            let id = db.find_or_create_outcome(name)->Ok_0;
            let d1 = db.after_find_or_create(name);
            &&& d1.has_tag(id)
            &&& d1.tag_of(id).name == name
        },
{
    let d1 = db.after_find_or_create(name);
    if db.find_or_create_outcome(name) is Ok {
        let id = db.find_or_create_outcome(name)->Ok_0;
        if db.has_name(name) {
            let c = db.name_index(name);
            assert(d1.tags[c].id == id);
            let w = choose|w: int| 0 <= w < d1.tags.len() && (#[trigger] d1.tags[w]).id == id;
            if w < c {
                assert(d1.tags[w].id < d1.tags[c].id);
            } else if w > c {
                assert(d1.tags[c].id < d1.tags[w].id);
            }
        } else {
            let c = db.tags.len() as int;
            assert(d1.tags[c].id == id);
            let w = choose|w: int| 0 <= w < d1.tags.len() && (#[trigger] d1.tags[w]).id == id;
            if w < c {
                assert(d1.tags[w].id < db.next_tag_id);
            }
        }
    }
}

/// With names that are not empty and room for new identifiers, every name
/// resolves, in order, to a tag of that name.
proof fn lemma_resolve_names(db: DbView, names: Seq<Seq<char>>)
    requires
        registry_ok(db),
        forall|k: int| 0 <= k < names.len() ==> (#[trigger] names[k]).len() > 0,
        db.next_tag_id + names.len() < u64::MAX,
    ensures
        registry_ok(db.resolve(names).0),
        db.resolve(names).1.len() == names.len(),
        forall|k: int|
            0 <= k < names.len() ==> db.resolve(names).0.has_tag(#[trigger] db.resolve(names).1[k])
                && db.resolve(names).0.tag_of(db.resolve(names).1[k]).name == names[k],
    decreases names.len(),
{
    if names.len() > 0 {
        let rest = names.drop_last();
        lemma_resolve_names(db, rest);
        lemma_resolve_frame(db, rest);
        let (dp, ip) = db.resolve(rest);
        let name = names.last();
        lemma_find_or_create_registry(dp, name);
        let (d1, ids) = db.resolve(names);
        assert(dp.find_or_create_outcome(name) is Ok);
        assert forall|k: int| 0 <= k < names.len() implies d1.has_tag(#[trigger] ids[k]) && d1.tag_of(ids[k]).name
            == names[k] by {
            if k < rest.len() {
                assert(ids[k] == ip[k]);
                assert(dp.has_tag(ip[k]));
                let w = choose|w: int| 0 <= w < dp.tags.len() && (#[trigger] dp.tags[w]).id == ip[k];
                assert(d1.tags[w] == dp.tags[w]);
                let a = choose|a: int| 0 <= a < dp.tags.len() && (#[trigger] dp.tags[a]).id == ip[k];
                let b = choose|b: int| 0 <= b < d1.tags.len() && (#[trigger] d1.tags[b]).id == ip[k];
                if a < b {
                    assert(d1.tags[a].id < d1.tags[b].id);
                } else if b < a {
                    assert(d1.tags[b].id < d1.tags[a].id);
                }
                assert(d1.tags[a] == dp.tags[a]);
                assert(rest[k] == names[k]);
            }
        }
    }
}

/// The tags that a concatenation of associations gives a slice.
proof fn lemma_linked_tags_concat(db: DbView, l1: Seq<(u64, u64)>, l2: Seq<(u64, u64)>, sid: u64)
    ensures
        db.linked_tags(l1 + l2, sid) == db.linked_tags(l1, sid) + db.linked_tags(l2, sid),
    decreases l2.len(),
{
    if l2.len() == 0 {
        assert(l1 + l2 =~= l1);
        assert(db.linked_tags(l1, sid) + db.linked_tags(l2, sid) =~= db.linked_tags(l1, sid));
    } else {
        assert((l1 + l2).drop_last() =~= l1 + l2.drop_last());
        lemma_linked_tags_concat(db, l1, l2.drop_last(), sid);
        assert((l1 + l2).last() == l2.last());
        if l2.last().0 == sid {
            assert(db.linked_tags(l1, sid) + db.linked_tags(l2, sid) =~= (db.linked_tags(l1, sid)
                + db.linked_tags(l2.drop_last(), sid)).push(db.tag_of(l2.last().1)));
        }
    }
}

/// Associations of other slices give slice `sid` no tags.
proof fn lemma_linked_tags_other(db: DbView, links: Seq<(u64, u64)>, sid: u64)
    requires
        forall|k: int| 0 <= k < links.len() ==> (#[trigger] links[k]).0 != sid,
    ensures
        db.linked_tags(links, sid).len() == 0,
    decreases links.len(),
{
    if links.len() > 0 {
        lemma_linked_tags_other(db, links.drop_last(), sid);
    }
}

/// Associations of slice `sid` with `ids` give it the tags of `ids`, in order.
proof fn lemma_linked_tags_own(db: DbView, ids: Seq<u64>, sid: u64)
    ensures
        db.linked_tags(ids.map_values(|t: u64| (sid, t)), sid) == ids.map_values(|t: u64| db.tag_of(t)),
    decreases ids.len(),
{
    let links = ids.map_values(|t: u64| (sid, t));
    if ids.len() > 0 {
        assert(links.drop_last() =~= ids.drop_last().map_values(|t: u64| (sid, t)));
        lemma_linked_tags_own(db, ids.drop_last(), sid);
        assert(ids.map_values(|t: u64| db.tag_of(t)) =~= ids.drop_last().map_values(|t: u64| db.tag_of(t)).push(
            db.tag_of(ids.last()),
        ));
    } else {
        assert(links.len() == 0);
        assert(ids.map_values(|t: u64| db.tag_of(t)) =~= Seq::<TagView>::empty());
    }
}

/// Every stored slice ends after it starts (an open slice has no end yet).
pub proof fn lemma_persisted_slices_valid(db: DbView)
    requires
        db.wf(),
    ensures
        forall|i: int|
            0 <= i < db.slices.len() && (#[trigger] db.slices[i]).end_time is Some ==> db.slices[i].end_time->0
                > db.slices[i].start_time,
{
    assert forall|i: int| 0 <= i < db.slices.len() && (#[trigger] db.slices[i]).end_time is Some implies db.slices[i].end_time->0
        > db.slices[i].start_time by {
        assert(db.slices[i].valid());
    }
}

/// Find-or-create of the same name twice gives the same identifier both
/// times, and the second call writes nothing: exactly one row has the name.
pub proof fn lemma_find_or_create_idempotent(db: DbView, name: Seq<char>)
    requires
        db.wf(),
    ensures
        ({
            let d1 = db.after_find_or_create(name);
            let d2 = d1.after_find_or_create(name);
            &&& d1.find_or_create_outcome(name) == db.find_or_create_outcome(name)
            &&& d2 == d1
            &&& d1.tags.len() <= db.tags.len() + 1
            &&& db.find_or_create_outcome(name) is Ok ==> {
                &&& d1.has_name(name)
                &&& forall|i: int, j: int|
                    0 <= i < d1.tags.len() && 0 <= j < d1.tags.len() && (#[trigger] d1.tags[i]).name == name && (
                    #[trigger] d1.tags[j]).name == name ==> i == j
            }
        }),
{
    let d1 = db.after_find_or_create(name);
    lemma_find_or_create_registry(db, name);
    if db.find_or_create_outcome(name) is Ok {
        assert(d1.has_name(name)) by {
            if db.has_name(name) {
                let c = db.name_index(name);
                assert(d1.tags[c].name == name);
            } else {
                assert(d1.tags[db.tags.len() as int].name == name);
            }
        }
        let c = d1.name_index(name);
        let id = db.find_or_create_outcome(name)->Ok_0;
        assert(d1.tag_of(id).name == name);
        let w = choose|w: int| 0 <= w < d1.tags.len() && (#[trigger] d1.tags[w]).id == id;
        if w != c {
            assert(d1.tags[w].name != d1.tags[c].name);
        }
    }
}

/// Stopping a timer adds exactly one slice, the last one: from the timer's
/// start to `now`, under the next identifier.
proof fn lemma_stop_adds_slice(a: AppView, now: u64)
    requires
        a.timer is Some,
        a.stop_outcome(now).1 is Ok,
    ensures
        ({
            let b = a.stop_outcome(now).0;
            let sid = a.stop_outcome(now).1->Ok_0;
            &&& sid == a.db.next_slice_id
            &&& b.timer is None
            &&& b.run == a.run
            &&& b.db.slices == a.db.slices.push(
                TimeSlice { id: sid, start_time: a.timer->0.start_time, end_time: Some(now) },
            )
        }),
{
    let t = a.timer->0;
    let sid = a.db.next_slice_id;
    let db1 = a.db.with_slice(t.start_time, Some(now));
    let db2 = match t.desc {
        Some(d) => db1.with_description(sid, d),
        None => db1,
    };
    lemma_resolve_frame(db2, tag_set(t.tags));
}

/// A stopped timer can be read back: the timeline of the store after the
/// stop holds the new slice, with exactly the timer's tag names, in order,
/// and its description. The registry must have room for new identifiers.
pub proof fn lemma_stop_round_trip(a: AppView, now: u64, t: Timeline)
    requires
        a.wf(),
        a.timer is Some,
        a.db.next_tag_id + a.timer->0.tags.len() < u64::MAX,
        a.stop_outcome(now).1 is Ok,
        t.reflects(a.stop_outcome(now).0.db),
    ensures
        ({
            let sid = a.stop_outcome(now).1->Ok_0;
            let timer = a.timer->0;
            &&& t.has(sid)
            &&& t.tags@.contains_key(sid) <==> timer.tags.len() > 0
            &&& t.tags@.contains_key(sid) ==> names_of(tag_views(t.tags@[sid]@)) == timer.tags
            &&& t.desc@.contains_key(sid) <==> timer.desc is Some
            &&& t.desc@.contains_key(sid) ==> t.desc@[sid]@ == timer.desc->0
        }),
{
    let timer = a.timer->0;
    let db0 = a.db;
    let sid = db0.next_slice_id;
    let db1 = db0.with_slice(timer.start_time, Some(now));
    let db2 = match timer.desc {
        Some(d) => db1.with_description(sid, d),
        None => db1,
    };
    lemma_tag_set_fixed(timer.tags);
    let (db3, ids) = db2.resolve(timer.tags);
    let fin = db3.with_links(sid, ids);
    lemma_stop_adds_slice(a, now);
    lemma_resolve_frame(db2, timer.tags);
    lemma_resolve_names(db2, timer.tags);
    assert(a.stop_outcome(now).0.db == fin);
    assert(a.stop_outcome(now).1 == Ok::<u64, Error>(sid));
    // the new slice is in the timeline
    let ts = TimeSlice { id: sid, start_time: timer.start_time, end_time: Some(now) };
    assert(fin.slices[db0.slices.len() as int] == ts);
    assert(fin.slices.contains(ts));
    assert(t.list@.contains(ts));
    let w = choose|w: int| 0 <= w < t.list@.len() && t.list@[w] == ts;
    assert(t.list@[w].id == sid);
    // no earlier association names the new slice
    assert forall|k: int| 0 <= k < db0.links.len() implies (#[trigger] db0.links[k]).0 != sid by {
        assert(db0.has_slice(db0.links[k].0));
        let j = choose|j: int| 0 <= j < db0.slices.len() && (#[trigger] db0.slices[j]).id == db0.links[k].0;
        assert(db0.slices[j].id < db0.next_slice_id);
    }
    let own = ids.map_values(|x: u64| (sid, x));
    lemma_linked_tags_concat(fin, db0.links, own, sid);
    lemma_linked_tags_other(fin, db0.links, sid);
    lemma_linked_tags_own(fin, ids, sid);
    let tv = ids.map_values(|x: u64| fin.tag_of(x));
    assert(fin.tags_of_slice(sid) =~= tv);
    assert(names_of(tv) =~= timer.tags) by {
        assert forall|k: int| 0 <= k < timer.tags.len() implies names_of(tv)[k] == timer.tags[k] by {
            assert(db3.has_tag(ids[k]));
            assert(fin.tag_of(ids[k]) == db3.tag_of(ids[k]));
        }
    }
    // the description
    assert forall|k: int| 0 <= k < db0.descriptions.len() implies (#[trigger] db0.descriptions[k]).0 != sid by {
        assert(db0.has_slice(db0.descriptions[k].0));
        let j = choose|j: int| 0 <= j < db0.slices.len() && (#[trigger] db0.slices[j]).id == db0.descriptions[k].0;
        assert(db0.slices[j].id < db0.next_slice_id);
    }
    match timer.desc {
        Some(d) => {
            let n = db0.descriptions.len() as int;
            assert(fin.descriptions[n] == (sid, d));
            assert(fin.has_description(sid));
            let c = choose|c: int| 0 <= c < fin.descriptions.len() && (#[trigger] fin.descriptions[c]).0 == sid;
            if c < n {
                assert(db0.descriptions[c].0 != sid);
            }
            assert(fin.desc_of(sid) == d);
        },
        None => {
            assert(!fin.has_description(sid));
        },
    }
}

/// The watchdog stops a timer within one check interval of its limit:
/// when the check at `t1` did not fire and the one at `t2` did, exactly one
/// slice is stored, from the start to `t2`, and its length exceeds the
/// limit by at most `t2 - t1`.
pub proof fn lemma_watchdog_stops_within_interval(a: AppView, run: u64, duration: u64, t1: u64, t2: u64)
    requires
        a.timer is Some,
        a.run == run,
        a.timer->0.start_time <= t1 <= t2,
        !a.tick_fires(run, duration, t1),
        a.tick_fires(run, duration, t2),
        a.stop_outcome(t2).1 is Ok,
    ensures
        ({
            let b = a.stop_outcome(t2).0;
            let start = a.timer->0.start_time;
            &&& b.timer is None
            &&& b.db.slices == a.db.slices.push(
                TimeSlice { id: a.stop_outcome(t2).1->Ok_0, start_time: start, end_time: Some(t2) },
            )
            &&& duration < t2 - start <= duration + (t2 - t1)
        }),
{
    lemma_stop_adds_slice(a, t2);
}

/// However the manual stop and the watchdog's stop interleave, one slice
/// is stored. If the manual stop at `t1` succeeds, the watchdog then finds
/// nothing to do; if the watchdog's stop at `t1` succeeds, the manual stop
/// then fails with `NotRunning` and changes nothing.
pub proof fn lemma_single_stop(a: AppView, run: u64, duration: u64, t1: u64, t2: u64)
    requires
        a.timer is Some,
        a.run == run,
    ensures
        a.stop_outcome(t1).1 is Ok ==> {
            let b = a.stop_outcome(t1).0;
            &&& b.tick_finishes(run)
            &&& b.db.slices.len() == a.db.slices.len() + 1
        },
        a.stop_outcome(t1).1 is Err ==> a.stop_outcome(t1).0 == a,
        a.tick_fires(run, duration, t1) && a.stop_outcome(t1).1 is Ok ==> {
            let b = a.stop_outcome(t1).0;
            &&& b.stop_outcome(t2) == (b, Err::<u64, Error>(Error::NotRunning))
            &&& b.db.slices.len() == a.db.slices.len() + 1
        },
{
    if a.stop_outcome(t1).1 is Ok {
        lemma_stop_adds_slice(a, t1);
    }
}

/// At most one timer runs: once a start succeeds, a second start fails with
/// `AlreadyRunning` and leaves the running timer as it is.
pub proof fn lemma_second_start_fails(
    a: AppView,
    t1: u64,
    tags1: Seq<Seq<char>>,
    desc1: Option<Seq<char>>,
    t2: u64,
    tags2: Seq<Seq<char>>,
    desc2: Option<Seq<char>>,
)
    requires
        a.start_outcome(t1, tags1, desc1).1 is Ok,
    ensures
        ({
            let b = a.start_outcome(t1, tags1, desc1).0;
            &&& b.timer is Some
            &&& b.start_outcome(t2, tags2, desc2) == (b, Err::<(), Error>(Error::AlreadyRunning))
        }),
{
}

/// After slice `id` is removed, no later timeline shows it, its tags or
/// its description; the other slices stay.
pub proof fn lemma_removed_slice_gone(db: DbView, id: u64, t: Timeline)
    requires
        db.wf(),
        db.has_slice(id),
        t.reflects(db.without_slice(id)),
    ensures
        !t.has(id),
        !t.tags@.contains_key(id),
        !t.desc@.contains_key(id),
        forall|s: TimeSlice| db.slices.contains(s) && s.id != id ==> t.list@.contains(s),
{
    let r = db.without_slice(id);
    lemma_origin(db.slices, slice_kept(id));
    lemma_origin(db.links, link_kept(id));
    lemma_origin(db.descriptions, description_kept(id));
    if t.has(id) {
        let k = choose|k: int| 0 <= k < t.list@.len() && (#[trigger] t.list@[k]).id == id;
        assert(t.list@.contains(t.list@[k]));
        assert(r.slices.contains(t.list@[k]));
        let w = choose|w: int| 0 <= w < r.slices.len() && r.slices[w] == t.list@[k];
        assert(slice_kept(id)(r.slices[w]));
    }
    assert forall|k: int| 0 <= k < r.links.len() implies (#[trigger] r.links[k]).0 != id by {
        assert(link_kept(id)(r.links[k]));
    }
    lemma_linked_tags_other(r, r.links, id);
    if r.has_description(id) {
        let k = choose|k: int| 0 <= k < r.descriptions.len() && (#[trigger] r.descriptions[k]).0 == id;
        assert(description_kept(id)(r.descriptions[k]));
    }
    assert forall|s: TimeSlice| db.slices.contains(s) && s.id != id implies t.list@.contains(s) by {
        let w = choose|w: int| 0 <= w < db.slices.len() && db.slices[w] == s;
        db.slices.lemma_filter_contains(slice_kept(id), w);
    }
}

} // verus!
