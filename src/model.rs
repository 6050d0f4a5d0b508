use vstd::prelude::*;

verus! {

/// A closed (or, at most one at a time, still open) interval of tracked
/// time, in milliseconds since the Unix epoch.
#[derive(Debug, Clone, Copy, PartialEq, Eq, Structural)]
pub struct TimeSlice {
    pub id: u64,
    pub start_time: u64,
    pub end_time: Option<u64>,
}

impl TimeSlice {
    /// A slice that ends after it starts, or that has no end yet.
    pub open spec fn valid(&self) -> bool {
        match self.end_time {
            Some(e) => e > self.start_time,
            None => true,
        }
    }

    pub open spec fn is_open(&self) -> bool {
        self.end_time is None
    }

    /// The length of a closed slice; an open slice counts as empty.
    pub open spec fn len_spec(&self) -> int {
        match self.end_time {
            Some(e) => e - self.start_time,
            None => 0,
        }
    }

    pub fn new(id: u64, start_time: u64, end_time: Option<u64>) -> (r: TimeSlice)
        ensures
            r == (TimeSlice { id, start_time, end_time }),
    {
        TimeSlice { id, start_time, end_time }
    }

    /// Length in milliseconds.
    pub fn get_len(&self) -> (r: u64)
        requires
            self.end_time is Some ==> self.end_time->0 >= self.start_time,
        ensures
            r == self.len_spec(),
    {
        match self.end_time {
            Some(end) => end - self.start_time,
            None => 0,
        }
    }
}

/// The plain content of a tag row.
pub struct TagView {
    pub id: u64,
    pub name: Seq<char>,
    pub color: Option<Seq<char>>,
}

/// A named label that many slices may carry.
#[derive(Debug)]
pub struct Tag {
    pub id: u64,
    pub name: String,
    pub color: Option<String>,
}

impl View for Tag {
    type V = TagView;

    open spec fn view(&self) -> TagView {
        TagView {
            id: self.id,
            name: self.name@,
            color: match self.color {
                Some(c) => Some(c@),
                None => None,
            },
        }
    }
}

/// A copy of an optional string.
pub fn copy_text(s: &Option<String>) -> (r: Option<String>)
    ensures
        r == *s,
{
    match s {
        Some(t) => Some(t.clone()),
        None => None,
    }
}

impl Tag {
    /// A tag that the store has not numbered yet.
    pub fn new(name: &str, color: Option<&str>) -> (r: Tag)
        ensures
            r.id == 0,
            r.name@ == name@,
            r.color is Some <==> color is Some,
            color is Some ==> r.color.unwrap()@ == color.unwrap()@,
    {
        let color = match color {
            Some(c) => Some(c.to_string()),
            None => None,
        };
        Tag { id: 0, name: name.to_string(), color }
    }

    /// A field-by-field copy.
    pub fn copy(&self) -> (r: Tag)
        ensures
            r == *self,
    {
        Tag { id: self.id, name: self.name.clone(), color: copy_text(&self.color) }
    }
}

/// The free text attached to one slice.
#[derive(Debug)]
pub struct Description {
    pub time_slice_id: u64,
    pub description: String,
}

impl Description {
    pub fn new(time_slice_id: u64, desc: &str) -> (r: Description)
        ensures
            r.time_slice_id == time_slice_id,
            r.description@ == desc@,
    {
        Description { time_slice_id, description: desc.to_string() }
    }

    /// A field-by-field copy.
    pub fn copy(&self) -> (r: Description)
        ensures
            r == *self,
    {
        Description { time_slice_id: self.time_slice_id, description: self.description.clone() }
    }
}

} // verus!
