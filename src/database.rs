use vstd::prelude::*;
use std::collections::HashMap;
use crate::error::{Error, StorageFault};
use crate::model::{Description, Tag, TagView, TimeSlice};

verus! {

/// The plain content of the store: its four tables, in row order, and the
/// next identifier of each numbered table.
pub struct DbView {
    pub slices: Seq<TimeSlice>,
    pub tags: Seq<TagView>,
    pub links: Seq<(u64, u64)>,
    pub descriptions: Seq<(u64, Seq<char>)>,
    pub next_slice_id: u64,
    pub next_tag_id: u64,
}

impl DbView {
    pub open spec fn empty() -> DbView {
        DbView {
            slices: Seq::empty(),
            tags: Seq::empty(),
            links: Seq::empty(),
            descriptions: Seq::empty(),
            next_slice_id: 1,
            next_tag_id: 1,
        }
    }

    pub open spec fn has_slice(self, id: u64) -> bool {
        exists|i: int| 0 <= i < self.slices.len() && (#[trigger] self.slices[i]).id == id
    }

    pub open spec fn has_open_slice(self) -> bool {
        exists|i: int| 0 <= i < self.slices.len() && (#[trigger] self.slices[i]).is_open()
    }

    pub open spec fn has_tag(self, id: u64) -> bool {
        exists|i: int| 0 <= i < self.tags.len() && (#[trigger] self.tags[i]).id == id
    }

    pub open spec fn has_name(self, name: Seq<char>) -> bool {
        exists|i: int| 0 <= i < self.tags.len() && (#[trigger] self.tags[i]).name == name
    }

    pub open spec fn has_description(self, id: u64) -> bool {
        exists|i: int| 0 <= i < self.descriptions.len() && (#[trigger] self.descriptions[i]).0 == id
    }

    /// The invariants that the storage schema enforces.
    pub open spec fn wf(self) -> bool {
        &&& forall|i: int|
            0 <= i < self.slices.len() ==> (#[trigger] self.slices[i]).valid()
                && self.slices[i].id < self.next_slice_id
        &&& forall|i: int, j: int|
            #![trigger self.slices[i], self.slices[j]]
            0 <= i < j < self.slices.len() ==> self.slices[i].id < self.slices[j].id
        &&& forall|i: int, j: int|
            #![trigger self.slices[i], self.slices[j]]
            0 <= i < self.slices.len() && 0 <= j < self.slices.len() && i != j
                && self.slices[i].is_open() ==> !self.slices[j].is_open()
        &&& forall|i: int|
            0 <= i < self.tags.len() ==> (#[trigger] self.tags[i]).id < self.next_tag_id
                && self.tags[i].name.len() > 0
        &&& forall|i: int, j: int|
            #![trigger self.tags[i], self.tags[j]]
            0 <= i < j < self.tags.len() ==> self.tags[i].id < self.tags[j].id
        &&& forall|i: int, j: int|
            #![trigger self.tags[i], self.tags[j]]
            0 <= i < self.tags.len() && 0 <= j < self.tags.len() && i != j
                ==> self.tags[i].name != self.tags[j].name
        &&& self.links.no_duplicates()
        &&& forall|k: int|
            0 <= k < self.links.len() ==> self.has_slice((#[trigger] self.links[k]).0)
                && self.has_tag(self.links[k].1)
        &&& forall|i: int, j: int|
            #![trigger self.descriptions[i], self.descriptions[j]]
            0 <= i < self.descriptions.len() && 0 <= j < self.descriptions.len() && i != j
                ==> self.descriptions[i].0 != self.descriptions[j].0
        &&& forall|k: int|
            0 <= k < self.descriptions.len() ==> self.has_slice((#[trigger] self.descriptions[k]).0)
    }

    /// What inserting the slice `[start, end)` gives: its new identifier, or
    /// the constraint it breaks.
    pub open spec fn insert_slice_outcome(self, start: u64, end: Option<u64>) -> Result<u64, Error> {
        if end is Some && end->0 <= start {
            Err(Error::Storage(StorageFault::Check))
        } else if end is None && self.has_open_slice() {
            Err(Error::Storage(StorageFault::Unique))
        } else if self.next_slice_id == u64::MAX {
            Err(Error::Storage(StorageFault::Exhausted))
        } else {
            Ok(self.next_slice_id)
        }
    }

    pub open spec fn with_slice(self, start: u64, end: Option<u64>) -> DbView {
        DbView {
            slices: self.slices.push(TimeSlice { id: self.next_slice_id, start_time: start, end_time: end }),
            next_slice_id: (self.next_slice_id + 1) as u64,
            ..self
        }
    }

    /// Which row holds the tag called `name`.
    pub open spec fn name_index(self, name: Seq<char>) -> int {
        choose|i: int| 0 <= i < self.tags.len() && self.tags[i].name == name
    }

    /// The identifier that a find-or-create of `name` gives, or its error.
    pub open spec fn find_or_create_outcome(self, name: Seq<char>) -> Result<u64, Error> {
        if name.len() == 0 {
            Err(Error::InvalidInput)
        } else if self.has_name(name) {
            Ok(self.tags[self.name_index(name)].id)
        } else if self.next_tag_id == u64::MAX {
            Err(Error::Storage(StorageFault::Exhausted))
        } else {
            Ok(self.next_tag_id)
        }
    }

    /// The store after a find-or-create of `name`: a new row only where no
    /// tag has that name.
    pub open spec fn after_find_or_create(self, name: Seq<char>) -> DbView {
        if name.len() > 0 && !self.has_name(name) && self.next_tag_id < u64::MAX {
            DbView {
                tags: self.tags.push(TagView { id: self.next_tag_id, name, color: None }),
                next_tag_id: (self.next_tag_id + 1) as u64,
                ..self
            }
        } else {
            self
        }
    }

    /// Find-or-create of each name in turn: the store after it, and the
    /// identifiers of the names that did not fail, in order.
    pub open spec fn resolve(self, names: Seq<Seq<char>>) -> (DbView, Seq<u64>)
        decreases names.len(),
    {
        if names.len() == 0 {
            (self, Seq::empty())
        } else {
            let (db, ids) = self.resolve(names.drop_last());
            let name = names.last();
            (
                db.after_find_or_create(name),
                match db.find_or_create_outcome(name) {
                    Ok(id) => ids.push(id),
                    Err(_) => ids,
                },
            )
        }
    }

    /// Why associating `ids[k]` with slice `sid` would fail after `ids[..k]`.
    pub open spec fn link_fault(self, sid: u64, ids: Seq<u64>, k: int) -> Option<StorageFault> {
        if !self.has_slice(sid) || !self.has_tag(ids[k]) {
            Some(StorageFault::ForeignKey)
        } else if self.links.contains((sid, ids[k])) || ids.take(k).contains(ids[k]) {
            Some(StorageFault::Unique)
        } else {
            None
        }
    }

    /// The fault of the first association in `ids` that would fail.
    pub open spec fn first_link_fault(self, sid: u64, ids: Seq<u64>) -> Option<StorageFault>
        decreases ids.len(),
    {
        if ids.len() == 0 {
            None
        } else {
            match self.first_link_fault(sid, ids.drop_last()) {
                Some(f) => Some(f),
                None => self.link_fault(sid, ids, ids.len() - 1),
            }
        }
    }

    pub open spec fn with_links(self, sid: u64, ids: Seq<u64>) -> DbView {
        DbView { links: self.links + ids.map_values(|t: u64| (sid, t)), ..self }
    }

    /// Why describing slice `sid` would fail.
    pub open spec fn describe_fault(self, sid: u64) -> Option<StorageFault> {
        if !self.has_slice(sid) {
            Some(StorageFault::ForeignKey)
        } else if self.has_description(sid) {
            Some(StorageFault::Unique)
        } else {
            None
        }
    }

    pub open spec fn with_description(self, sid: u64, text: Seq<char>) -> DbView {
        DbView { descriptions: self.descriptions.push((sid, text)), ..self }
    }

    /// The composite write of a slice with its description and tags, as one
    /// transaction: the store after it and the new slice's identifier, or
    /// the store unchanged and the error.
    pub open spec fn insert_info_outcome(
        self,
        start: u64,
        end: Option<u64>,
        names: Seq<Seq<char>>,
        desc: Option<Seq<char>>,
    ) -> (DbView, Result<u64, Error>) {
        match self.insert_slice_outcome(start, end) {
            Err(e) => (self, Err(e)),
            Ok(sid) => {
                let db1 = self.with_slice(start, end);
                let db2 = match desc {
                    Some(d) => db1.with_description(sid, d),
                    None => db1,
                };
                let (db3, ids) = db2.resolve(tag_set(names));
                match db3.first_link_fault(sid, ids) {
                    Some(f) => (self, Err(Error::Storage(f))),
                    None => (db3.with_links(sid, ids), Ok(sid)),
                }
            },
        }
    }

    /// The store without slice `id`, its associations and its description.
    pub open spec fn without_slice(self, id: u64) -> DbView {
        DbView {
            slices: self.slices.filter(slice_kept(id)),
            links: self.links.filter(link_kept(id)),
            descriptions: self.descriptions.filter(description_kept(id)),
            ..self
        }
    }

    /// What overwriting slice `ts.id` with `ts` gives.
    pub open spec fn update_outcome(self, ts: TimeSlice) -> Result<(), Error> {
        if !self.has_slice(ts.id) {
            Err(Error::NotFound)
        } else if !ts.valid() {
            Err(Error::Storage(StorageFault::Check))
        } else if ts.is_open() && exists|i: int|
            0 <= i < self.slices.len() && (#[trigger] self.slices[i]).is_open() && self.slices[i].id != ts.id {
            Err(Error::Storage(StorageFault::Unique))
        } else {
            Ok(())
        }
    }

    pub open spec fn with_update(self, ts: TimeSlice) -> DbView {
        DbView {
            slices: self.slices.map_values(|t: TimeSlice| if t.id == ts.id { ts } else { t }),
            ..self
        }
    }

    /// Replacing the tags of slice `id` by the tags called `names`, as one
    /// transaction.
    pub open spec fn retag_outcome(self, id: u64, names: Seq<Seq<char>>) -> (DbView, Result<(), Error>) {
        if !self.has_slice(id) {
            (self, Err(Error::NotFound))
        } else {
            let db1 = DbView { links: self.links.filter(link_kept(id)), ..self };
            let (db2, ids) = db1.resolve(tag_set(names));
            match db2.first_link_fault(id, ids) {
                Some(f) => (self, Err(Error::Storage(f))),
                None => (db2.with_links(id, ids), Ok(())),
            }
        }
    }

    /// The store with the description of slice `id` replaced by `text`,
    /// where it has one.
    pub open spec fn with_new_description(self, id: u64, text: Seq<char>) -> DbView {
        DbView {
            descriptions: self.descriptions.map_values(
                |d: (u64, Seq<char>)| if d.0 == id { (id, text) } else { d },
            ),
            ..self
        }
    }

    /// The store with the description of slice `id` set to `text`.
    pub open spec fn set_description(self, id: u64, text: Seq<char>) -> DbView {
        if self.has_description(id) {
            self.with_new_description(id, text)
        } else {
            self.with_description(id, text)
        }
    }

    /// The row of the tag with identifier `tid`.
    pub open spec fn tag_of(self, tid: u64) -> TagView {
        self.tags[choose|i: int| 0 <= i < self.tags.len() && (#[trigger] self.tags[i]).id == tid]
    }

    /// The tags that the associations in `links` give slice `sid`, in order.
    pub open spec fn linked_tags(self, links: Seq<(u64, u64)>, sid: u64) -> Seq<TagView>
        decreases links.len(),
    {
        if links.len() == 0 {
            Seq::empty()
        } else {
            let rest = self.linked_tags(links.drop_last(), sid);
            if links.last().0 == sid {
                rest.push(self.tag_of(links.last().1))
            } else {
                rest
            }
        }
    }

    /// The tags of slice `sid`, in the order they were associated.
    pub open spec fn tags_of_slice(self, sid: u64) -> Seq<TagView> {
        self.linked_tags(self.links, sid)
    }

    /// What loading the stored row `ts` gives; rows come in identifier order.
    pub open spec fn load_slice_outcome(self, ts: TimeSlice) -> Result<(), Error> {
        if ts.id < self.next_slice_id {
            Err(Error::Storage(StorageFault::Unique))
        } else if !ts.valid() {
            Err(Error::Storage(StorageFault::Check))
        } else if ts.is_open() && self.has_open_slice() {
            Err(Error::Storage(StorageFault::Unique))
        } else if ts.id == u64::MAX {
            Err(Error::Storage(StorageFault::Exhausted))
        } else {
            Ok(())
        }
    }

    /// What loading the stored tag row `t` gives; rows come in identifier
    /// order.
    pub open spec fn load_tag_outcome(self, t: TagView) -> Result<(), Error> {
        if t.name.len() == 0 {
            Err(Error::InvalidInput)
        } else if t.id < self.next_tag_id || self.has_name(t.name) {
            Err(Error::Storage(StorageFault::Unique))
        } else if t.id == u64::MAX {
            Err(Error::Storage(StorageFault::Exhausted))
        } else {
            Ok(())
        }
    }

    /// The description text of slice `sid`.
    pub open spec fn desc_of(self, sid: u64) -> Seq<char> {
        self.descriptions[choose|i: int| 0 <= i < self.descriptions.len() && (#[trigger] self.descriptions[i]).0 == sid].1
    }
}

/// The rows of a sequence of tags.
pub open spec fn tag_views(v: Seq<Tag>) -> Seq<TagView> {
    v.map_values(|t: Tag| t@)
}

/// The tag names of `s` as a set: empty names and repeats left out, each
/// name where it first occurs.
pub open spec fn tag_set(s: Seq<Seq<char>>) -> Seq<Seq<char>>
    decreases s.len(),
{
    if s.len() == 0 {
        Seq::empty()
    } else {
        let d = tag_set(s.drop_last());
        if s.last().len() == 0 || d.contains(s.last()) {
            d
        } else {
            d.push(s.last())
        }
    }
}

/// A tag set has no repeats and no empty names.
pub proof fn lemma_tag_set_clean(s: Seq<Seq<char>>)
    ensures
        tag_set(s).no_duplicates(),
        forall|k: int| 0 <= k < tag_set(s).len() ==> (#[trigger] tag_set(s)[k]).len() > 0,
    decreases s.len(),
{
    if s.len() > 0 {
        lemma_tag_set_clean(s.drop_last());
    }
}

/// Names without repeats or empty names are their own tag set.
pub proof fn lemma_tag_set_fixed(s: Seq<Seq<char>>)
    requires
        s.no_duplicates(),
        forall|k: int| 0 <= k < s.len() ==> (#[trigger] s[k]).len() > 0,
    ensures
        tag_set(s) == s,
    decreases s.len(),
{
    if s.len() > 0 {
        let t = s.drop_last();
        assert(t.no_duplicates()) by {
            assert forall|i: int, j: int| 0 <= i < t.len() && 0 <= j < t.len() && i != j implies t[i] != t[j] by {
                assert(t[i] == s[i] && t[j] == s[j]);
            }
        }
        assert forall|k: int| 0 <= k < t.len() implies (#[trigger] t[k]).len() > 0 by {
            assert(t[k] == s[k]);
        }
        lemma_tag_set_fixed(t);
        if t.contains(s.last()) {
            let w = choose|w: int| 0 <= w < t.len() && t[w] == s.last();
            assert(s[w] == s[s.len() - 1]);
        }
        assert(s.len() > 0 ==> s[s.len() - 1].len() > 0);
        assert(t.push(s.last()) =~= s);
    }
}

/// The strings of `v` as a tag set: empty strings and repeats left out,
/// each where it first occurs.
pub fn tag_set_strings(v: &Vec<String>) -> (r: Vec<String>)
    ensures
        texts(r@) == tag_set(texts(v@)),
{
    let mut r: Vec<String> = Vec::new();
    let mut i: usize = 0;
    while i < v.len()
        invariant
            i <= v@.len(),
            texts(r@) == tag_set(texts(v@).take(i as int)),
        decreases v@.len() - i,
    {
        let ghost pre = texts(v@).take(i as int);
        proof {
            assert(texts(v@).take(i as int + 1).drop_last() =~= pre);
        }
        let mut seen = v[i].as_str().unicode_len() == 0;
        let mut j: usize = 0;
        while j < r.len()
            invariant
                j <= r@.len(),
                i < v@.len(),
                seen == (v@[i as int]@.len() == 0 || exists|k: int| 0 <= k < j && (#[trigger] texts(r@)[k]) == v@[i as int]@),
            decreases r@.len() - j,
        {
            if r[j] == v[i] {
                assert(texts(r@)[j as int] == v@[i as int]@);
                seen = true;
            }
            j += 1;
        }
        proof {
            if texts(r@).contains(v@[i as int]@) {
                let k = choose|k: int| 0 <= k < texts(r@).len() && texts(r@)[k] == v@[i as int]@;
                assert(texts(r@)[k] == v@[i as int]@);
            }
        }
        if !seen {
            let ghost before = r@;
            r.push(v[i].clone());
            assert(texts(r@) =~= texts(before).push(v@[i as int]@));
        }
        i += 1;
    }
    assert(texts(v@).take(v@.len() as int) =~= texts(v@));
    r
}

/// The text of an optional string.
pub open spec fn opt_text(s: Option<String>) -> Option<Seq<char>> {
    match s {
        Some(t) => Some(t@),
        None => None,
    }
}

/// The texts of a sequence of strings.
pub open spec fn texts(v: Seq<String>) -> Seq<Seq<char>> {
    v.map_values(|s: String| s@)
}

/// Once a prefix of `ids` has a failing association, so has the whole list,
/// with the same fault.
proof fn lemma_fault_persists(db: DbView, sid: u64, ids: Seq<u64>, n: int)
    requires
        0 <= n <= ids.len(),
        db.first_link_fault(sid, ids.take(n)) is Some,
    ensures
        db.first_link_fault(sid, ids) == db.first_link_fault(sid, ids.take(n)),
    decreases ids.len() - n,
{
    if n < ids.len() {
        assert(ids.take(n + 1).drop_last() =~= ids.take(n));
        lemma_fault_persists(db, sid, ids, n + 1);
    } else {
        assert(ids.take(n) =~= ids);
    }
}

/// The rows that removing slice `id` keeps.
pub open spec fn slice_kept(id: u64) -> spec_fn(TimeSlice) -> bool {
    |t: TimeSlice| t.id != id
}

pub open spec fn link_kept(id: u64) -> spec_fn((u64, u64)) -> bool {
    |l: (u64, u64)| l.0 != id
}

pub open spec fn description_kept(id: u64) -> spec_fn((u64, Seq<char>)) -> bool {
    |d: (u64, Seq<char>)| d.0 != id
}

/// Where the `a`-th row that `p` keeps stood in `s`.
pub open spec fn origin<A>(s: Seq<A>, p: spec_fn(A) -> bool, a: int) -> int
    decreases s.len(),
{
    if s.len() == 0 {
        0
    } else if p(s.last()) && a == s.drop_last().filter(p).len() {
        s.len() - 1
    } else {
        origin(s.drop_last(), p, a)
    }
}

/// Each row that a filter keeps is a row of the unfiltered sequence, in the
/// same order.
pub proof fn lemma_origin<A>(s: Seq<A>, p: spec_fn(A) -> bool)
    ensures
        forall|a: int|
            0 <= a < s.filter(p).len() ==> 0 <= #[trigger] origin(s, p, a) < s.len() && s[origin(s, p, a)]
                == s.filter(p)[a] && p(s.filter(p)[a]),
        forall|a: int, b: int|
            0 <= a < b < s.filter(p).len() ==> #[trigger] origin(s, p, a) < #[trigger] origin(s, p, b),
    decreases s.len(),
{
    reveal(Seq::filter);
    if s.len() > 0 {
        let t = s.drop_last();
        lemma_origin(t, p);
        t.lemma_filter_len(p);
        let f = s.filter(p);
        let g = t.filter(p);
        assert forall|a: int| 0 <= a < f.len() implies 0 <= #[trigger] origin(s, p, a) < s.len() && s[origin(
            s,
            p,
            a,
        )] == f[a] && p(f[a]) by {
            if a < g.len() {
                assert(f[a] == g[a]);
                assert(origin(s, p, a) == origin(t, p, a));
                assert(s[origin(t, p, a)] == t[origin(t, p, a)]);
            }
        }
        assert forall|a: int, b: int| 0 <= a < b < f.len() implies #[trigger] origin(s, p, a) < #[trigger] origin(
            s,
            p,
            b,
        ) by {
            assert(origin(s, p, a) == origin(t, p, a));
            if b < g.len() {
                assert(origin(s, p, b) == origin(t, p, b));
            }
        }
    }
}

/// Removing a slice with everything that refers to it keeps the store
/// well formed.
proof fn lemma_without_slice_wf(db: DbView, id: u64)
    requires
        db.wf(),
    ensures
        db.without_slice(id).wf(),
{
    let r = db.without_slice(id);
    let ps = slice_kept(id);
    let pl = link_kept(id);
    let pd = description_kept(id);
    lemma_origin(db.slices, ps);
    lemma_origin(db.links, pl);
    lemma_origin(db.descriptions, pd);
    assert forall|i: int| 0 <= i < r.slices.len() implies (#[trigger] r.slices[i]).valid() && r.slices[i].id
        < r.next_slice_id by {
        assert(db.slices[origin(db.slices, ps, i)] == r.slices[i]);
    }
    assert forall|i: int, j: int| 0 <= i < j < r.slices.len() implies r.slices[i].id < r.slices[j].id by {
        assert(origin(db.slices, ps, i) < origin(db.slices, ps, j));
        assert(db.slices[origin(db.slices, ps, i)] == r.slices[i]);
        assert(db.slices[origin(db.slices, ps, j)] == r.slices[j]);
    }
    assert forall|i: int, j: int|
        0 <= i < r.slices.len() && 0 <= j < r.slices.len() && i != j && r.slices[i].is_open()
            implies !r.slices[j].is_open() by {
        assert(origin(db.slices, ps, i) != origin(db.slices, ps, j));
        assert(db.slices[origin(db.slices, ps, i)] == r.slices[i]);
        assert(db.slices[origin(db.slices, ps, j)] == r.slices[j]);
    }
    assert forall|i: int, j: int| 0 <= i < r.links.len() && 0 <= j < r.links.len() && i != j implies r.links[i]
        != r.links[j] by {
        assert(origin(db.links, pl, i) != origin(db.links, pl, j));
        assert(db.links[origin(db.links, pl, i)] == r.links[i]);
        assert(db.links[origin(db.links, pl, j)] == r.links[j]);
    }
    assert forall|i: int, j: int|
        0 <= i < r.descriptions.len() && 0 <= j < r.descriptions.len() && i != j
            implies r.descriptions[i].0 != r.descriptions[j].0 by {
        assert(origin(db.descriptions, pd, i) != origin(db.descriptions, pd, j));
        assert(db.descriptions[origin(db.descriptions, pd, i)] == r.descriptions[i]);
        assert(db.descriptions[origin(db.descriptions, pd, j)] == r.descriptions[j]);
    }
    assert forall|k: int| 0 <= k < r.links.len() implies r.has_slice((#[trigger] r.links[k]).0)
        && r.has_tag(r.links[k].1) by {
        let w: int = origin(db.links, pl, k);
        assert(db.links[w] == r.links[k]);
        assert(db.has_slice(db.links[w].0));
        let j = choose|j: int| 0 <= j < db.slices.len() && (#[trigger] db.slices[j]).id == r.links[k].0;
        db.slices.lemma_filter_contains(ps, j);
        let q = choose|q: int| 0 <= q < r.slices.len() && r.slices[q] == db.slices[j];
        assert(r.slices[q].id == r.links[k].0);
    }
    assert forall|k: int| 0 <= k < r.descriptions.len() implies r.has_slice((#[trigger] r.descriptions[k]).0) by {
        let w: int = origin(db.descriptions, pd, k);
        assert(db.descriptions[w] == r.descriptions[k]);
        assert(db.has_slice(db.descriptions[w].0));
        let j = choose|j: int| 0 <= j < db.slices.len() && (#[trigger] db.slices[j]).id == r.descriptions[k].0;
        db.slices.lemma_filter_contains(ps, j);
        let q = choose|q: int| 0 <= q < r.slices.len() && r.slices[q] == db.slices[j];
        assert(r.slices[q].id == r.descriptions[k].0);
    }
}

/// An embedded relational store of time slices, tags, the slice-to-tag
/// associations and slice descriptions.
pub struct Database {
    slices: Vec<TimeSlice>,
    tags: Vec<Tag>,
    links: Vec<(u64, u64)>,
    descriptions: Vec<Description>,
    next_slice_id: u64,
    next_tag_id: u64,
}

pub open spec fn description_view(d: Description) -> (u64, Seq<char>) {
    (d.time_slice_id, d.description@)
}

impl View for Database {
    type V = DbView;

    closed spec fn view(&self) -> DbView {
        DbView {
            slices: self.slices@,
            tags: self.tags@.map_values(|t: Tag| t@),
            links: self.links@,
            descriptions: self.descriptions@.map_values(|d: Description| description_view(d)),
            next_slice_id: self.next_slice_id,
            next_tag_id: self.next_tag_id,
        }
    }
}

impl Database {
    /// An empty store.
    pub fn new() -> (r: Database)
        ensures
            r@ == DbView::empty(),
            r@.wf(),
    {
        let r = Database {
            slices: Vec::new(),
            tags: Vec::new(),
            links: Vec::new(),
            descriptions: Vec::new(),
            next_slice_id: 1,
            next_tag_id: 1,
        };
        assert(r@.tags =~= Seq::<TagView>::empty());
        assert(r@.descriptions =~= Seq::<(u64, Seq<char>)>::empty());
        r
    }

    /// Where the slice with identifier `id` stands.
    fn slice_position(&self, id: u64) -> (r: Option<usize>)
        ensures
            match r {
                Some(i) => i < self@.slices.len() && self@.slices[i as int].id == id,
                None => !self@.has_slice(id),
            },
    {
        let mut i: usize = 0;
        while i < self.slices.len()
            invariant
                i <= self.slices@.len(),
                forall|k: int| 0 <= k < i ==> self.slices@[k].id != id,
            decreases self.slices@.len() - i,
        {
            if self.slices[i].id == id {
                return Some(i);
            }
            i += 1;
        }
        None
    }

    /// Where the open slice stands, if there is one.
    fn open_slice_position(&self) -> (r: Option<usize>)
        ensures
            match r {
                Some(i) => i < self@.slices.len() && self@.slices[i as int].is_open(),
                None => !self@.has_open_slice(),
            },
    {
        let mut i: usize = 0;
        while i < self.slices.len()
            invariant
                i <= self.slices@.len(),
                forall|k: int| 0 <= k < i ==> !self.slices@[k].is_open(),
            decreases self.slices@.len() - i,
        {
            if self.slices[i].end_time.is_none() {
                return Some(i);
            }
            i += 1;
        }
        None
    }

    /// Where the tag called `name` stands.
    fn tag_position_by_name(&self, name: &String) -> (r: Option<usize>)
        requires
            self@.wf(),
        ensures
            match r {
                Some(i) => i < self@.tags.len() && self@.tags[i as int].name == name@
                    && i == self@.name_index(name@),
                None => !self@.has_name(name@),
            },
    {
        let mut i: usize = 0;
        while i < self.tags.len()
            invariant
                i <= self.tags@.len(),
                self@.wf(),
                forall|k: int| 0 <= k < i ==> self@.tags[k].name != name@,
            decreases self.tags@.len() - i,
        {
            if self.tags[i].name == *name {
                proof {
                    assert(self@.tags[i as int].name == name@);
                    assert(self@.has_name(name@));
                    let c = self@.name_index(name@);
                    assert(self@.tags[c].name == name@);
                    if c != i as int {
                        assert(self@.tags[c].name != self@.tags[i as int].name);
                    }
                }
                return Some(i);
            }
            i += 1;
        }
        None
    }

    /// Where the tag with identifier `id` stands.
    fn tag_position(&self, id: u64) -> (r: Option<usize>)
        ensures
            match r {
                Some(i) => i < self@.tags.len() && self@.tags[i as int].id == id,
                None => !self@.has_tag(id),
            },
    {
        let mut i: usize = 0;
        while i < self.tags.len()
            invariant
                i <= self.tags@.len(),
                forall|k: int| 0 <= k < i ==> self@.tags[k].id != id,
            decreases self.tags@.len() - i,
        {
            if self.tags[i].id == id {
                return Some(i);
            }
            i += 1;
        }
        None
    }

    /// The tag called `name`, created under the next identifier if no tag
    /// has that name yet. Calling it again with the same name finds the
    /// same row.
    pub fn find_or_create_tag(&mut self, name: &str) -> (r: Result<Tag, Error>)
        requires
            old(self)@.wf(),
        ensures
            final(self)@.wf(),
            final(self)@ == old(self)@.after_find_or_create(name@),
            match r {
                Ok(t) => old(self)@.find_or_create_outcome(name@) == Ok::<u64, Error>(t.id)
                    && t.name@ == name@ && t.color is None,
                Err(e) => old(self)@.find_or_create_outcome(name@) == Err::<u64, Error>(e),
            },
    {
        if name.unicode_len() == 0 {
            return Err(Error::InvalidInput);
        }
        let text = name.to_string();
        match self.tag_position_by_name(&text) {
            Some(i) => {
                return Ok(Tag { id: self.tags[i].id, name: text, color: None });
            },
            None => {},
        }
        if self.next_tag_id == u64::MAX {
            return Err(Error::Storage(StorageFault::Exhausted));
        }
        let id: u64 = self.next_tag_id;
        let ghost before = self@;
        self.tags.push(Tag { id, name: text.clone(), color: None });
        self.next_tag_id = id + 1;
        proof {
            assert(self@.tags =~= before.after_find_or_create(name@).tags);
            assert forall|k: int| 0 <= k < self@.links.len() implies self@.has_tag(#[trigger] self@.links[k].1) by {
                let j = choose|j: int| 0 <= j < before.tags.len() && before.tags[j].id == before.links[k].1;
                assert(self@.tags[j].id == before.links[k].1);
            }
        }
        Ok(Tag { id, name: text, color: None })
    }

    /// Find-or-create of each name in turn; the names that fail are left out.
    pub fn resolve_tags(&mut self, names: &Vec<String>) -> (r: Vec<u64>)
        requires
            old(self)@.wf(),
        ensures
            final(self)@.wf(),
            (final(self)@, r@) == old(self)@.resolve(texts(names@)),
    {
        let ghost start = self@;
        let mut ids: Vec<u64> = Vec::new();
        let mut i: usize = 0;
        while i < names.len()
            invariant
                i <= names@.len(),
                self@.wf(),
                (self@, ids@) == start.resolve(texts(names@).take(i as int)),
            decreases names@.len() - i,
        {
            let ghost prefix = texts(names@).take(i as int + 1);
            proof {
                assert(prefix.drop_last() =~= texts(names@).take(i as int));
                assert(prefix.last() == names@[i as int]@);
            }
            match self.find_or_create_tag(names[i].as_str()) {
                Ok(t) => ids.push(t.id),
                Err(_) => {},
            }
            i += 1;
        }
        proof {
            assert(texts(names@).take(names@.len() as int) =~= texts(names@));
        }
        ids
    }

    /// Whether slice `sid` is already associated with tag `tid`.
    fn has_link_exec(&self, sid: u64, tid: u64) -> (r: bool)
        ensures
            r == self@.links.contains((sid, tid)),
    {
        let mut i: usize = 0;
        while i < self.links.len()
            invariant
                i <= self.links@.len(),
                forall|k: int| 0 <= k < i ==> self@.links[k] != (sid, tid),
            decreases self.links@.len() - i,
        {
            if self.links[i].0 == sid && self.links[i].1 == tid {
                assert(self@.links[i as int] == (sid, tid));
                return true;
            }
            i += 1;
        }
        false
    }

    /// Associates slice `time_slice_id` with each tag in `tag_ids`, all or
    /// none: the first association that would fail decides the error.
    pub fn insert_time_slice_tags(&mut self, time_slice_id: u64, tag_ids: &[u64]) -> (r: Result<(), Error>)
        requires
            old(self)@.wf(),
        ensures
            final(self)@.wf(),
            match old(self)@.first_link_fault(time_slice_id, tag_ids@) {
                Some(f) => r == Err::<(), Error>(Error::Storage(f)) && final(self)@ == old(self)@,
                None => r is Ok && final(self)@ == old(self)@.with_links(time_slice_id, tag_ids@),
            },
    {
        let ghost ids = tag_ids@;
        let ghost db = self@;
        let sid: u64 = time_slice_id;
        let slice_known = self.slice_position(sid).is_some();
        let mut k: usize = 0;
        while k < tag_ids.len()
            invariant
                self@ == db,
                db == old(self)@,
                sid == time_slice_id,
                db.wf(),
                ids == tag_ids@,
                k <= ids.len(),
                slice_known == db.has_slice(sid),
                db.first_link_fault(sid, ids.take(k as int)) is None,
                forall|j: int| 0 <= j < k ==> db.link_fault(sid, ids, j) is None,
            decreases ids.len() - k,
        {
            let tid: u64 = tag_ids[k];
            proof {
                assert(ids.take(k as int + 1).drop_last() =~= ids.take(k as int));
                assert(ids.take(k as int + 1).take(k as int) =~= ids.take(k as int));
            }
            assert(ids.take(k as int + 1)[k as int] == ids[k as int]);
            if !slice_known || self.tag_position(tid).is_none() {
                proof {
                    lemma_fault_persists(db, sid, ids, k as int + 1);
                }
                return Err(Error::Storage(StorageFault::ForeignKey));
            }
            let mut dup = self.has_link_exec(sid, tid);
            let mut j: usize = 0;
            while j < k
                invariant
                    j <= k < ids.len(),
                    ids == tag_ids@,
                    tid == ids[k as int],
                    dup == (db.links.contains((sid, tid)) || exists|w: int| 0 <= w < j && #[trigger] ids[w] == tid),
                decreases k - j,
            {
                if tag_ids[j] == tid {
                    dup = true;
                }
                j += 1;
            }
            proof {
                if exists|w: int| 0 <= w < k && #[trigger] ids[w] == tid {
                    let w = choose|w: int| 0 <= w < k && #[trigger] ids[w] == tid;
                    assert(ids.take(k as int)[w] == tid);
                }
                if ids.take(k as int).contains(tid) {
                    let w = choose|w: int| 0 <= w < k && #[trigger] ids.take(k as int)[w] == tid;
                    assert(ids[w] == tid);
                }
            }
            if dup {
                proof {
                    lemma_fault_persists(db, sid, ids, k as int + 1);
                }
                return Err(Error::Storage(StorageFault::Unique));
            }
            k += 1;
        }
        proof {
            assert(ids.take(ids.len() as int) =~= ids);
        }
        let mut m: usize = 0;
        while m < tag_ids.len()
            invariant
                db.wf(),
                db == old(self)@,
                sid == time_slice_id,
                ids == tag_ids@,
                m <= ids.len(),
                forall|j: int| 0 <= j < ids.len() ==> db.link_fault(sid, ids, j) is None,
                self@ == db.with_links(sid, ids.take(m as int)),
                self@.wf(),
            decreases ids.len() - m,
        {
            let ghost before = self@;
            self.links.push((sid, tag_ids[m]));
            proof {
                let new = (sid, ids[m as int]);
                assert(db.link_fault(sid, ids, m as int) is None);
                assert(ids.take(m as int + 1).map_values(|t: u64| (sid, t)) =~= ids.take(m as int).map_values(|t: u64| (sid, t)).push(new));
                assert(self@.links =~= db.with_links(sid, ids.take(m as int + 1)).links);
                assert(!before.links.contains(new)) by {
                    if before.links.contains(new) {
                        let w = choose|w: int| 0 <= w < before.links.len() && before.links[w] == new;
                        if w >= db.links.len() {
                            let q: int = w - db.links.len();
                            assert(ids.take(m as int)[q] == ids[m as int]);
                            assert(ids.take(m as int).contains(ids[m as int]));
                        } else {
                            assert(db.links[w] == new);
                        }
                    }
                }
                assert forall|a: int, b: int| 0 <= a < self@.links.len() && 0 <= b < self@.links.len() && a != b
                    implies self@.links[a] != self@.links[b] by {
                    if a == before.links.len() as int {
                        assert(before.links[b] == self@.links[b]);
                    } else if b == before.links.len() as int {
                        assert(before.links[a] == self@.links[a]);
                    }
                }
                assert forall|q: int| 0 <= q < self@.links.len() implies self@.has_slice((#[trigger] self@.links[q]).0)
                    && self@.has_tag(self@.links[q].1) by {
                    if q < before.links.len() {
                        assert(before.links[q] == self@.links[q]);
                    }
                }
            }
            m += 1;
        }
        proof {
            assert(ids.take(ids.len() as int) =~= ids);
        }
        Ok(())
    }

    /// Attaches `description` to slice `time_slice_id`.
    pub fn insert_time_slice_description(&mut self, time_slice_id: u64, description: &str) -> (r: Result<(), Error>)
        requires
            old(self)@.wf(),
        ensures
            final(self)@.wf(),
            match old(self)@.describe_fault(time_slice_id) {
                Some(f) => r == Err::<(), Error>(Error::Storage(f)) && final(self)@ == old(self)@,
                None => r is Ok && final(self)@ == old(self)@.with_description(time_slice_id, description@),
            },
    {
        if self.slice_position(time_slice_id).is_none() {
            return Err(Error::Storage(StorageFault::ForeignKey));
        }
        if self.description_position(time_slice_id).is_some() {
            return Err(Error::Storage(StorageFault::Unique));
        }
        let ghost before = self@;
        self.descriptions.push(Description::new(time_slice_id, description));
        proof {
            assert(self@.descriptions =~= before.with_description(time_slice_id, description@).descriptions);
        }
        Ok(())
    }

    /// Where the description of slice `id` stands.
    fn description_position(&self, id: u64) -> (r: Option<usize>)
        ensures
            match r {
                Some(i) => i < self@.descriptions.len() && self@.descriptions[i as int].0 == id,
                None => !self@.has_description(id),
            },
    {
        let mut i: usize = 0;
        while i < self.descriptions.len()
            invariant
                i <= self.descriptions@.len(),
                forall|k: int| 0 <= k < i ==> self@.descriptions[k].0 != id,
            decreases self.descriptions@.len() - i,
        {
            if self.descriptions[i].time_slice_id == id {
                return Some(i);
            }
            i += 1;
        }
        None
    }

    /// A copy of the whole store.
    fn duplicate(&self) -> (r: Database)
        ensures
            r@ == self@,
    {
        let mut slices: Vec<TimeSlice> = Vec::new();
        let mut i: usize = 0;
        while i < self.slices.len()
            invariant
                i <= self.slices@.len(),
                slices@ == self.slices@.take(i as int),
            decreases self.slices@.len() - i,
        {
            slices.push(self.slices[i]);
            assert(self.slices@.take(i as int + 1) =~= self.slices@.take(i as int).push(self.slices@[i as int]));
            i += 1;
        }
        let mut tags: Vec<Tag> = Vec::new();
        let mut i: usize = 0;
        while i < self.tags.len()
            invariant
                i <= self.tags@.len(),
                tags@ == self.tags@.take(i as int),
            decreases self.tags@.len() - i,
        {
            tags.push(self.tags[i].copy());
            assert(self.tags@.take(i as int + 1) =~= self.tags@.take(i as int).push(self.tags@[i as int]));
            i += 1;
        }
        let mut links: Vec<(u64, u64)> = Vec::new();
        let mut i: usize = 0;
        while i < self.links.len()
            invariant
                i <= self.links@.len(),
                links@ == self.links@.take(i as int),
            decreases self.links@.len() - i,
        {
            links.push(self.links[i]);
            assert(self.links@.take(i as int + 1) =~= self.links@.take(i as int).push(self.links@[i as int]));
            i += 1;
        }
        let mut descriptions: Vec<Description> = Vec::new();
        let mut i: usize = 0;
        while i < self.descriptions.len()
            invariant
                i <= self.descriptions@.len(),
                descriptions@ == self.descriptions@.take(i as int),
            decreases self.descriptions@.len() - i,
        {
            descriptions.push(self.descriptions[i].copy());
            assert(self.descriptions@.take(i as int + 1) =~= self.descriptions@.take(i as int).push(
                self.descriptions@[i as int],
            ));
            i += 1;
        }
        proof {
            assert(slices@ =~= self.slices@);
            assert(tags@ =~= self.tags@);
            assert(links@ =~= self.links@);
            assert(descriptions@ =~= self.descriptions@);
        }
        Database {
            slices,
            tags,
            links,
            descriptions,
            next_slice_id: self.next_slice_id,
            next_tag_id: self.next_tag_id,
        }
    }

    /// Writes the slice `[start, end)`, then its description, if any, then
    /// its associations with the tags called `tags`, taken as a set (empty
    /// names and repeats left out; each found or created, and a name that
    /// fails is left out), as one transaction: if any step fails, nothing is
    /// written.
    pub fn insert_time_slice_info(
        &mut self,
        start: u64,
        end: Option<u64>,
        tags: &Vec<String>,
        desc: &Option<String>,
    ) -> (r: Result<u64, Error>)
        requires
            old(self)@.wf(),
        ensures
            final(self)@.wf(),
            (final(self)@, r) == old(self)@.insert_info_outcome(start, end, texts(tags@), opt_text(*desc)),
            r is Err ==> final(self)@ == old(self)@,
    {
        let ghost db = self@;
        let mut work = self.duplicate();
        let sid: u64 = match work.insert_time_slice(start, end) {
            Ok(id) => id,
            Err(e) => return Err(e),
        };
        proof {
            let db1 = db.with_slice(start, end);
            assert(db1.slices[db.slices.len() as int].id == sid);
            assert forall|i: int| 0 <= i < db1.descriptions.len() implies (#[trigger] db1.descriptions[i]).0 != sid by {
                assert(db.has_slice(db.descriptions[i].0));
                let j = choose|j: int| 0 <= j < db.slices.len() && (#[trigger] db.slices[j]).id == db.descriptions[i].0;
                assert(db.slices[j].id < db.next_slice_id);
            }
            assert(db1.describe_fault(sid) is None);
        }
        match desc {
            Some(d) => {
                match work.insert_time_slice_description(sid, d.as_str()) {
                    Ok(()) => {},
                    Err(e) => return Err(e),
                }
            },
            None => {},
        }
        let names = tag_set_strings(tags);
        let ids = work.resolve_tags(&names);
        match work.insert_time_slice_tags(sid, ids.as_slice()) {
            Ok(()) => {},
            Err(e) => return Err(e),
        }
        *self = work;
        Ok(sid)
    }

    /// Deletes slice `time_slice_id` with its associations and description.
    pub fn remove_time_slice(&mut self, time_slice_id: u64) -> (r: Result<(), Error>)
        requires
            old(self)@.wf(),
        ensures
            final(self)@.wf(),
            !old(self)@.has_slice(time_slice_id) ==> r == Err::<(), Error>(Error::NotFound) && final(self)@ == old(self)@,
            old(self)@.has_slice(time_slice_id) ==> r is Ok && final(self)@ == old(self)@.without_slice(time_slice_id),
    {
        if self.slice_position(time_slice_id).is_none() {
            return Err(Error::NotFound);
        }
        let id: u64 = time_slice_id;
        let ghost db = self@;
        let ghost target = db.without_slice(id);
        proof {
            reveal(Seq::filter);
        }
        let mut slices: Vec<TimeSlice> = Vec::new();
        let mut i: usize = 0;
        while i < self.slices.len()
            invariant
                self@ == db,
                i <= db.slices.len(),
                slices@ == db.slices.take(i as int).filter(slice_kept(id)),
            decreases db.slices.len() - i,
        {
            proof {
                reveal(Seq::filter);
                assert(db.slices.take(i as int + 1).drop_last() =~= db.slices.take(i as int));
            }
            if self.slices[i].id != id {
                slices.push(self.slices[i]);
            }
            i += 1;
        }
        let mut links: Vec<(u64, u64)> = Vec::new();
        let mut i: usize = 0;
        while i < self.links.len()
            invariant
                self@ == db,
                i <= db.links.len(),
                links@ == db.links.take(i as int).filter(link_kept(id)),
            decreases db.links.len() - i,
        {
            proof {
                reveal(Seq::filter);
                assert(db.links.take(i as int + 1).drop_last() =~= db.links.take(i as int));
            }
            if self.links[i].0 != id {
                links.push(self.links[i]);
            }
            i += 1;
        }
        let mut descriptions: Vec<Description> = Vec::new();
        let mut i: usize = 0;
        while i < self.descriptions.len()
            invariant
                self@ == db,
                i <= db.descriptions.len(),
                descriptions@.map_values(|d: Description| description_view(d))
                    == db.descriptions.take(i as int).filter(description_kept(id)),
            decreases db.descriptions.len() - i,
        {
            proof {
                reveal(Seq::filter);
                assert(db.descriptions.take(i as int + 1).drop_last() =~= db.descriptions.take(i as int));
            }
            let ghost before = descriptions@;
            if self.descriptions[i].time_slice_id != id {
                descriptions.push(self.descriptions[i].copy());
                assert(descriptions@.map_values(|d: Description| description_view(d)) =~= before.map_values(
                    |d: Description| description_view(d),
                ).push(db.descriptions[i as int]));
            }
            i += 1;
        }
        proof {
            assert(db.slices.take(db.slices.len() as int) =~= db.slices);
            assert(db.links.take(db.links.len() as int) =~= db.links);
            assert(db.descriptions.take(db.descriptions.len() as int) =~= db.descriptions);
        }
        self.slices = slices;
        self.links = links;
        self.descriptions = descriptions;
        proof {
            lemma_without_slice_wf(db, id);
        }
        Ok(())
    }

    /// Overwrites the times of slice `time_slice.id`.
    pub fn update_time_slice(&mut self, time_slice: &TimeSlice) -> (r: Result<(), Error>)
        requires
            old(self)@.wf(),
        ensures
            final(self)@.wf(),
            r == old(self)@.update_outcome(*time_slice),
            r is Ok ==> final(self)@ == old(self)@.with_update(*time_slice),
            r is Err ==> final(self)@ == old(self)@,
    {
        let ts = *time_slice;
        let p: usize = match self.slice_position(ts.id) {
            Some(p) => p,
            None => return Err(Error::NotFound),
        };
        if let Some(e) = ts.end_time {
            if e <= ts.start_time {
                return Err(Error::Storage(StorageFault::Check));
            }
        } else {
            match self.open_slice_position() {
                Some(q) => {
                    if self.slices[q].id != ts.id {
                        return Err(Error::Storage(StorageFault::Unique));
                    }
                    proof {
                        assert forall|i: int| 0 <= i < self@.slices.len() && (#[trigger] self@.slices[i]).is_open()
                            implies self@.slices[i].id == ts.id by {
                            if i != q {
                                assert(!self@.slices[i].is_open());
                            }
                        }
                    }
                },
                None => {},
            }
        }
        let ghost db = self@;
        self.slices.set(p, ts);
        proof {
            assert forall|k: int| 0 <= k < db.slices.len() && k != p implies db.slices[k].id != ts.id by {
                if k < p {
                    assert(db.slices[k].id < db.slices[p as int].id);
                } else {
                    assert(db.slices[p as int].id < db.slices[k].id);
                }
            }
            assert(self@.slices =~= db.with_update(ts).slices);
            assert forall|k: int| 0 <= k < self@.links.len() implies self@.has_slice((#[trigger] self@.links[k]).0)
                && self@.has_tag(self@.links[k].1) by {
                let j = choose|j: int| 0 <= j < db.slices.len() && (#[trigger] db.slices[j]).id == db.links[k].0;
                assert(self@.slices[j].id == db.links[k].0);
            }
            assert forall|k: int| 0 <= k < self@.descriptions.len() implies self@.has_slice(
                (#[trigger] self@.descriptions[k]).0,
            ) by {
                let j = choose|j: int| 0 <= j < db.slices.len() && (#[trigger] db.slices[j]).id == db.descriptions[k].0;
                assert(self@.slices[j].id == db.descriptions[k].0);
            }
            assert forall|i: int, j: int|
                0 <= i < self@.slices.len() && 0 <= j < self@.slices.len() && i != j && self@.slices[i].is_open()
                    implies !self@.slices[j].is_open() by {
                if i == p && j != p {
                    assert(db.slices[j].id != ts.id);
                } else if j == p && i != p {
                    assert(db.slices[i].id != ts.id);
                }
            }
        }
        Ok(())
    }

    /// Drops every association of slice `id`.
    fn remove_links_of(&mut self, id: u64)
        requires
            old(self)@.wf(),
        ensures
            final(self)@.wf(),
            final(self)@ == (DbView { links: old(self)@.links.filter(link_kept(id)), ..old(self)@ }),
    {
        let ghost db = self@;
        let mut links: Vec<(u64, u64)> = Vec::new();
        let mut i: usize = 0;
        while i < self.links.len()
            invariant
                self@ == db,
                i <= db.links.len(),
                links@ == db.links.take(i as int).filter(link_kept(id)),
            decreases db.links.len() - i,
        {
            proof {
                reveal(Seq::filter);
                assert(db.links.take(i as int + 1).drop_last() =~= db.links.take(i as int));
            }
            if self.links[i].0 != id {
                links.push(self.links[i]);
            }
            i += 1;
        }
        proof {
            assert(db.links.take(db.links.len() as int) =~= db.links);
        }
        self.links = links;
        proof {
            let r = self@;
            let pl = link_kept(id);
            lemma_origin(db.links, pl);
            assert forall|i: int, j: int| 0 <= i < r.links.len() && 0 <= j < r.links.len() && i != j
                implies r.links[i] != r.links[j] by {
                assert(origin(db.links, pl, i) != origin(db.links, pl, j));
                assert(db.links[origin(db.links, pl, i)] == r.links[i]);
                assert(db.links[origin(db.links, pl, j)] == r.links[j]);
            }
            assert forall|k: int| 0 <= k < r.links.len() implies r.has_slice((#[trigger] r.links[k]).0)
                && r.has_tag(r.links[k].1) by {
                let w: int = origin(db.links, pl, k);
                assert(db.links[w] == r.links[k]);
            }
        }
    }

    /// Replaces the tags of slice `time_slice_id` by the tags called `tags`,
    /// taken as a set (empty names and repeats left out; each found or
    /// created, and a name that fails is left out), as one transaction.
    pub fn update_time_slice_tags(&mut self, time_slice_id: u64, tags: &Vec<String>) -> (r: Result<(), Error>)
        requires
            old(self)@.wf(),
        ensures
            final(self)@.wf(),
            (final(self)@, r) == old(self)@.retag_outcome(time_slice_id, texts(tags@)),
            r is Err ==> final(self)@ == old(self)@,
    {
        if self.slice_position(time_slice_id).is_none() {
            return Err(Error::NotFound);
        }
        let mut work = self.duplicate();
        work.remove_links_of(time_slice_id);
        let names = tag_set_strings(tags);
        let ids = work.resolve_tags(&names);
        match work.insert_time_slice_tags(time_slice_id, ids.as_slice()) {
            Ok(()) => {},
            Err(e) => return Err(e),
        }
        *self = work;
        Ok(())
    }

    /// Sets the description of slice `time_slice_id`: replaces the one it
    /// has, or attaches one where it has none.
    pub fn update_time_slice_description(&mut self, time_slice_id: u64, description: &str) -> (r: Result<(), Error>)
        requires
            old(self)@.wf(),
        ensures
            final(self)@.wf(),
            !old(self)@.has_slice(time_slice_id) ==> r == Err::<(), Error>(Error::NotFound) && final(self)@ == old(self)@,
            old(self)@.has_slice(time_slice_id) ==> r is Ok && final(self)@ == old(self)@.set_description(
                time_slice_id,
                description@,
            ),
    {
        if self.slice_position(time_slice_id).is_none() {
            return Err(Error::NotFound);
        }
        let ghost db = self@;
        match self.description_position(time_slice_id) {
            Some(p) => {
                self.descriptions.set(p, Description::new(time_slice_id, description));
                proof {
                    assert forall|k: int| 0 <= k < db.descriptions.len() && k != p implies db.descriptions[k].0
                        != time_slice_id by {
                        assert(db.descriptions[k].0 != db.descriptions[p as int].0);
                    }
                    assert(self@.descriptions =~= db.with_new_description(time_slice_id, description@).descriptions);
                    assert forall|k: int| 0 <= k < self@.descriptions.len() implies self@.has_slice(
                        (#[trigger] self@.descriptions[k]).0,
                    ) by {
                        assert(db.has_slice(db.descriptions[k].0));
                    }
                }
            },
            None => {
                return self.insert_time_slice_description(time_slice_id, description);
            },
        }
        Ok(())
    }

    /// Every slice, in identifier order.
    pub fn get_all_time_slices(&self) -> (r: Vec<TimeSlice>)
        ensures
            r@ == self@.slices,
    {
        let mut r: Vec<TimeSlice> = Vec::new();
        let mut i: usize = 0;
        while i < self.slices.len()
            invariant
                i <= self.slices@.len(),
                r@ == self.slices@.take(i as int),
            decreases self.slices@.len() - i,
        {
            r.push(self.slices[i]);
            assert(self.slices@.take(i as int + 1) =~= self.slices@.take(i as int).push(self.slices@[i as int]));
            i += 1;
        }
        assert(self.slices@.take(self.slices@.len() as int) =~= self.slices@);
        r
    }

    /// Every tag, in identifier order.
    pub fn get_all_tags(&self) -> (r: Vec<Tag>)
        ensures
            tag_views(r@) == self@.tags,
    {
        let mut r: Vec<Tag> = Vec::new();
        let mut i: usize = 0;
        while i < self.tags.len()
            invariant
                i <= self.tags@.len(),
                r@ == self.tags@.take(i as int),
            decreases self.tags@.len() - i,
        {
            r.push(self.tags[i].copy());
            assert(self.tags@.take(i as int + 1) =~= self.tags@.take(i as int).push(self.tags@[i as int]));
            i += 1;
        }
        assert(self.tags@.take(self.tags@.len() as int) =~= self.tags@);
        r
    }

    /// Every association of a slice with a tag, in the order they were made.
    pub fn get_all_links(&self) -> (r: Vec<(u64, u64)>)
        ensures
            r@ == self@.links,
    {
        let mut r: Vec<(u64, u64)> = Vec::new();
        let mut i: usize = 0;
        while i < self.links.len()
            invariant
                i <= self.links@.len(),
                r@ == self.links@.take(i as int),
            decreases self.links@.len() - i,
        {
            r.push(self.links[i]);
            assert(self.links@.take(i as int + 1) =~= self.links@.take(i as int).push(self.links@[i as int]));
            i += 1;
        }
        assert(self.links@.take(self.links@.len() as int) =~= self.links@);
        r
    }

    /// Every description, in the order they were written.
    pub fn get_all_descriptions(&self) -> (r: Vec<Description>)
        ensures
            r@.map_values(|d: Description| description_view(d)) == self@.descriptions,
    {
        let mut r: Vec<Description> = Vec::new();
        let mut i: usize = 0;
        while i < self.descriptions.len()
            invariant
                i <= self.descriptions@.len(),
                r@ == self.descriptions@.take(i as int),
            decreases self.descriptions@.len() - i,
        {
            r.push(self.descriptions[i].copy());
            assert(self.descriptions@.take(i as int + 1) =~= self.descriptions@.take(i as int).push(
                self.descriptions@[i as int],
            ));
            i += 1;
        }
        assert(self.descriptions@.take(self.descriptions@.len() as int) =~= self.descriptions@);
        r
    }

    /// Loads a stored slice row; rows come in identifier order.
    pub fn load_time_slice(&mut self, time_slice: TimeSlice) -> (r: Result<(), Error>)
        requires
            old(self)@.wf(),
        ensures
            final(self)@.wf(),
            r == old(self)@.load_slice_outcome(time_slice),
            r is Ok ==> final(self)@ == (DbView {
                slices: old(self)@.slices.push(time_slice),
                next_slice_id: (time_slice.id + 1) as u64,
                ..old(self)@
            }),
            r is Err ==> final(self)@ == old(self)@,
    {
        let ts = time_slice;
        if ts.id < self.next_slice_id {
            return Err(Error::Storage(StorageFault::Unique));
        }
        if let Some(e) = ts.end_time {
            if e <= ts.start_time {
                return Err(Error::Storage(StorageFault::Check));
            }
        } else if self.open_slice_position().is_some() {
            return Err(Error::Storage(StorageFault::Unique));
        }
        if ts.id == u64::MAX {
            return Err(Error::Storage(StorageFault::Exhausted));
        }
        let ghost db = self@;
        self.slices.push(ts);
        self.next_slice_id = ts.id + 1;
        proof {
            assert forall|k: int| 0 <= k < self@.links.len() implies self@.has_slice((#[trigger] self@.links[k]).0)
                && self@.has_tag(self@.links[k].1) by {
                let j = choose|j: int| 0 <= j < db.slices.len() && (#[trigger] db.slices[j]).id == db.links[k].0;
                assert(self@.slices[j].id == db.links[k].0);
            }
            assert forall|k: int| 0 <= k < self@.descriptions.len() implies self@.has_slice(
                (#[trigger] self@.descriptions[k]).0,
            ) by {
                let j = choose|j: int| 0 <= j < db.slices.len() && (#[trigger] db.slices[j]).id == db.descriptions[k].0;
                assert(self@.slices[j].id == db.descriptions[k].0);
            }
            assert forall|i: int, j: int|
                0 <= i < self@.slices.len() && 0 <= j < self@.slices.len() && i != j && self@.slices[i].is_open()
                    implies !self@.slices[j].is_open() by {
                if i == db.slices.len() as int {
                    assert(!db.has_open_slice());
                    assert(db.slices[j] == self@.slices[j]);
                } else if j == db.slices.len() as int {
                    if ts.is_open() {
                        assert(!db.has_open_slice());
                        assert(db.slices[i] == self@.slices[i]);
                    }
                }
            }
        }
        Ok(())
    }

    /// Loads a stored tag row; rows come in identifier order.
    pub fn load_tag(&mut self, tag: &Tag) -> (r: Result<(), Error>)
        requires
            old(self)@.wf(),
        ensures
            final(self)@.wf(),
            r == old(self)@.load_tag_outcome(tag@),
            r is Ok ==> final(self)@ == (DbView {
                tags: old(self)@.tags.push(tag@),
                next_tag_id: (tag.id + 1) as u64,
                ..old(self)@
            }),
            r is Err ==> final(self)@ == old(self)@,
    {
        if tag.name.as_str().unicode_len() == 0 {
            return Err(Error::InvalidInput);
        }
        if tag.id < self.next_tag_id || self.tag_position_by_name(&tag.name).is_some() {
            return Err(Error::Storage(StorageFault::Unique));
        }
        if tag.id == u64::MAX {
            return Err(Error::Storage(StorageFault::Exhausted));
        }
        let ghost db = self@;
        self.tags.push(tag.copy());
        self.next_tag_id = tag.id + 1;
        proof {
            assert(self@.tags =~= db.tags.push(tag@));
            assert forall|k: int| 0 <= k < self@.links.len() implies self@.has_slice((#[trigger] self@.links[k]).0)
                && self@.has_tag(self@.links[k].1) by {
                let j = choose|j: int| 0 <= j < db.tags.len() && (#[trigger] db.tags[j]).id == db.links[k].1;
                assert(self@.tags[j].id == db.links[k].1);
            }
        }
        Ok(())
    }

    /// The tags of each slice that has any, in the order they were
    /// associated.
    pub fn get_all_times_tag(&self) -> (r: HashMap<u64, Vec<Tag>>)
        requires
            self@.wf(),
        ensures
            forall|sid: u64| #[trigger] r@.contains_key(sid) <==> self@.tags_of_slice(sid).len() > 0,
            forall|sid: u64| #[trigger] r@.contains_key(sid) ==> tag_views(r@[sid]@) == self@.tags_of_slice(sid),
    {
        broadcast use vstd::std_specs::hash::group_hash_axioms;
        let ghost db = self@;
        let mut m: HashMap<u64, Vec<Tag>> = HashMap::new();
        let mut i: usize = 0;
        while i < self.links.len()
            invariant
                self@ == db,
                db.wf(),
                i <= db.links.len(),
                forall|sid: u64| #[trigger] m@.contains_key(sid) <==> db.linked_tags(db.links.take(i as int), sid).len() > 0,
                forall|sid: u64| #[trigger] m@.contains_key(sid) ==> tag_views(m@[sid]@) == db.linked_tags(db.links.take(i as int), sid),
            decreases db.links.len() - i,
        {
            let (sid, tid) = self.links[i];
            proof {
                assert(db.links.take(i as int + 1).drop_last() =~= db.links.take(i as int));
                assert(db.has_tag(db.links[i as int].1));
            }
            let p: usize = match self.tag_position(tid) {
                Some(p) => p,
                None => {
                    assert(false);
                    return m;
                },
            };
            let tag = self.tags[p].copy();
            proof {
                let c = choose|c: int| 0 <= c < db.tags.len() && (#[trigger] db.tags[c]).id == tid;
                if c < p {
                    assert(db.tags[c].id < db.tags[p as int].id);
                } else if c > p {
                    assert(db.tags[p as int].id < db.tags[c].id);
                }
                assert(tag@ == db.tag_of(tid));
            }
            let mut v = match m.remove(&sid) {
                Some(v) => v,
                None => Vec::new(),
            };
            let ghost old_v = v@;
            v.push(tag);
            m.insert(sid, v);
            proof {
                assert forall|s: u64| #[trigger] m@.contains_key(s) implies tag_views(m@[s]@) == db.linked_tags(
                    db.links.take(i as int + 1),
                    s,
                ) by {
                    if s == sid {
                        assert(tag_views(m@[s]@) =~= tag_views(old_v).push(tag@));
                    }
                }
            }
            i += 1;
        }
        proof {
            assert(db.links.take(db.links.len() as int) =~= db.links);
        }
        m
    }

    /// The description of each slice that has one.
    pub fn get_descriptions_map(&self) -> (r: HashMap<u64, String>)
        requires
            self@.wf(),
        ensures
            forall|sid: u64| #[trigger] r@.contains_key(sid) <==> self@.has_description(sid),
            forall|sid: u64| #[trigger] r@.contains_key(sid) ==> r@[sid]@ == self@.desc_of(sid),
    {
        broadcast use vstd::std_specs::hash::group_hash_axioms;
        let ghost db = self@;
        let mut m: HashMap<u64, String> = HashMap::new();
        let mut i: usize = 0;
        while i < self.descriptions.len()
            invariant
                self@ == db,
                db.wf(),
                i <= db.descriptions.len(),
                forall|sid: u64| #[trigger] m@.contains_key(sid) <==> exists|k: int| 0 <= k < i && (#[trigger] db.descriptions[k]).0 == sid,
                forall|sid: u64| #[trigger] m@.contains_key(sid) ==> m@[sid]@ == db.desc_of(sid),
            decreases db.descriptions.len() - i,
        {
            let sid: u64 = self.descriptions[i].time_slice_id;
            proof {
                assert(db.descriptions[i as int].0 == sid);
                let c = choose|c: int| 0 <= c < db.descriptions.len() && (#[trigger] db.descriptions[c]).0 == sid;
                if c != i as int {
                    assert(db.descriptions[c].0 != db.descriptions[i as int].0);
                }
            }
            m.insert(sid, self.descriptions[i].description.clone());
            proof {
                assert forall|s: u64| (exists|k: int| 0 <= k < i + 1 && (#[trigger] db.descriptions[k]).0 == s) implies #[trigger] m@.contains_key(s) by {
                    let k = choose|k: int| 0 <= k < i + 1 && (#[trigger] db.descriptions[k]).0 == s;
                    if k < i {
                        assert(exists|k2: int| 0 <= k2 < i && (#[trigger] db.descriptions[k2]).0 == s);
                    }
                }
                assert forall|s: u64| #[trigger] m@.contains_key(s) implies (exists|k: int| 0 <= k < i + 1 && (#[trigger] db.descriptions[k]).0 == s) by {
                    if s == sid {
                        assert(db.descriptions[i as int].0 == s);
                    } else {
                        let k = choose|k: int| 0 <= k < i && (#[trigger] db.descriptions[k]).0 == s;
                        assert(db.descriptions[k].0 == s);
                    }
                }
            }
            i += 1;
        }
        m
    }

    /// Inserts the slice `[start, end)` under the next identifier.
    pub fn insert_time_slice(&mut self, start: u64, end: Option<u64>) -> (r: Result<u64, Error>)
        requires
            old(self)@.wf(),
        ensures
            final(self)@.wf(),
            r == old(self)@.insert_slice_outcome(start, end),
            r is Ok ==> final(self)@ == old(self)@.with_slice(start, end),
            r is Err ==> final(self)@ == old(self)@,
    {
        if let Some(e) = end {
            if e <= start {
                return Err(Error::Storage(StorageFault::Check));
            }
        } else if self.open_slice_position().is_some() {
            return Err(Error::Storage(StorageFault::Unique));
        }
        if self.next_slice_id == u64::MAX {
            return Err(Error::Storage(StorageFault::Exhausted));
        }
        let id: u64 = self.next_slice_id;
        let ghost before = self@;
        self.slices.push(TimeSlice { id, start_time: start, end_time: end });
        self.next_slice_id = id + 1;
        proof {
            assert(self@.slices =~= before.with_slice(start, end).slices);
            assert forall|k: int| 0 <= k < self@.links.len() implies self@.has_slice(#[trigger] self@.links[k].0) by {
                let j = choose|j: int| 0 <= j < before.slices.len() && before.slices[j].id == before.links[k].0;
                assert(self@.slices[j].id == before.links[k].0);
            }
            assert forall|k: int| 0 <= k < self@.descriptions.len() implies self@.has_slice(#[trigger] self@.descriptions[k].0) by {
                let j = choose|j: int| 0 <= j < before.slices.len() && before.slices[j].id == before.descriptions[k].0;
                assert(self@.slices[j].id == before.descriptions[k].0);
            }
            assert(self@.tags == before.tags);
            assert(self@.links == before.links);
            assert(self@.descriptions == before.descriptions);
            assert forall|i: int, j: int|
                0 <= i < self@.slices.len() && 0 <= j < self@.slices.len() && i != j
                    && self@.slices[i].is_open() implies !self@.slices[j].is_open() by {
                if i == before.slices.len() as int || j == before.slices.len() as int {
                    if end is None {
                        assert(!before.has_open_slice());
                        let m = if i == before.slices.len() as int { j } else { i };
                        assert(!before.slices[m].is_open());
                    }
                }
            }
        }
        Ok(id)
    }
}

impl Tag {
    /// The tag called `name` in `db`, created if no tag has that name.
    pub fn find_or_create(db: &mut Database, name: &str) -> (r: Result<Tag, Error>)
        requires
            old(db)@.wf(),
        ensures
            final(db)@.wf(),
            final(db)@ == old(db)@.after_find_or_create(name@),
            match r {
                Ok(t) => old(db)@.find_or_create_outcome(name@) == Ok::<u64, Error>(t.id) && t.name@ == name@
                    && t.color is None,
                Err(e) => old(db)@.find_or_create_outcome(name@) == Err::<u64, Error>(e),
            },
    {
        db.find_or_create_tag(name)
    }
}

} // verus!
