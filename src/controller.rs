use vstd::prelude::*;
use crate::clock::{get_current_time, Clocker, ClockerStatus};
use crate::database::{lemma_tag_set_clean, opt_text, tag_set, tag_set_strings, texts, Database, DbView};
use crate::error::Error;
use crate::model::copy_text;
use crate::timeline::Timeline;

verus! {

/// An immutable picture of a timer: running (no end) or just stopped (with
/// an end, and the identifier under which its slice was stored).
pub struct TimerStatus {
    pub start_time: u64,
    pub end_time: Option<u64>,
    pub tags: Vec<String>,
    pub desc: Option<String>,
    pub slice_id: Option<u64>,
}

/// The running timer: when it started, its tag names, its description.
pub struct TimerView {
    pub start_time: u64,
    pub tags: Seq<Seq<char>>,
    pub desc: Option<Seq<char>>,
}

/// The controller's state: the store, the running timer if any, and the
/// number of the current run (each start makes a new one).
pub struct AppView {
    pub db: DbView,
    pub timer: Option<TimerView>,
    pub run: u64,
}

pub open spec fn next_run(run: u64) -> u64 {
    if run == u64::MAX {
        0
    } else {
        (run + 1) as u64
    }
}

impl AppView {
    /// The store is well formed, and the running timer's tag names form a
    /// set of non-empty names.
    pub open spec fn wf(self) -> bool {
        &&& self.db.wf()
        &&& self.timer is Some ==> {
            &&& self.timer->0.tags.no_duplicates()
            &&& forall|k: int| 0 <= k < self.timer->0.tags.len() ==> (#[trigger] self.timer->0.tags[k]).len() > 0
        }
    }

    /// Starting a timer at `now`: it fails while one runs.
    pub open spec fn start_outcome(
        self,
        now: u64,
        tags: Seq<Seq<char>>,
        desc: Option<Seq<char>>,
    ) -> (AppView, Result<(), Error>) {
        if self.timer is Some {
            (self, Err(Error::AlreadyRunning))
        } else {
            (
                AppView {
                    timer: Some(TimerView { start_time: now, tags: tag_set(tags), desc }),
                    run: next_run(self.run),
                    ..self
                },
                Ok(()),
            )
        }
    }

    /// Stopping the timer at `now`: the slice is written with its tags and
    /// description in one transaction, and the controller goes idle; if the
    /// write fails, nothing changes.
    pub open spec fn stop_outcome(self, now: u64) -> (AppView, Result<u64, Error>) {
        match self.timer {
            None => (self, Err(Error::NotRunning)),
            Some(t) => {
                let (db1, r) = self.db.insert_info_outcome(t.start_time, Some(now), t.tags, t.desc);
                match r {
                    Ok(sid) => (AppView { db: db1, timer: None, ..self }, Ok(sid)),
                    Err(e) => (self, Err(e)),
                }
            },
        }
    }

    /// The watchdog of run `run` has nothing left to do: the timer it was
    /// started for is gone.
    pub open spec fn tick_finishes(self, run: u64) -> bool {
        self.timer is None || self.run != run
    }

    /// The watchdog of run `run` stops the timer at `now`: more than
    /// `duration` has passed since it started.
    pub open spec fn tick_fires(self, run: u64, duration: u64, now: u64) -> bool {
        &&& !self.tick_finishes(run)
        &&& now >= self.timer->0.start_time
        &&& now - self.timer->0.start_time > duration
    }
}

/// What one check of the watchdog did.
pub enum WatchdogStep {
    /// The limit has not passed yet: check again later.
    Continue,
    /// The timer was stopped in another way: nothing to do.
    Finished,
    /// The limit passed and the timer was stopped, with this result.
    Fired(Result<TimerStatus, Error>),
}

/// A copy of a list of strings.
pub fn copy_strings(v: &Vec<String>) -> (r: Vec<String>)
    ensures
        r@ == v@,
{
    let mut r: Vec<String> = Vec::new();
    let mut i: usize = 0;
    while i < v.len()
        invariant
            i <= v@.len(),
            r@ == v@.take(i as int),
        decreases v@.len() - i,
    {
        r.push(v[i].clone());
        assert(v@.take(i as int + 1) =~= v@.take(i as int).push(v@[i as int]));
        i += 1;
    }
    assert(v@.take(v@.len() as int) =~= v@);
    r
}

/// The timer controller: at most one timer runs at a time; stopping it
/// stores it as a slice.
pub struct App {
    db: Database,
    current_timer: Option<Clocker>,
    current_tags: Vec<String>,
    current_desc: Option<String>,
    run: u64,
}

impl View for App {
    type V = AppView;

    closed spec fn view(&self) -> AppView {
        AppView {
            db: self.db@,
            timer: match self.current_timer {
                Some(c) => Some(
                    TimerView {
                        start_time: c@.start_time->0,
                        tags: texts(self.current_tags@),
                        desc: opt_text(self.current_desc),
                    },
                ),
                None => None,
            },
            run: self.run,
        }
    }
}

impl App {
    /// The state is sound: the store is well formed, and the timer held,
    /// if any, is running from a start time.
    pub closed spec fn inv(&self) -> bool {
        &&& self@.wf()
        &&& self.current_timer is Some ==> {
            let c = self.current_timer->0@;
            c.status == ClockerStatus::Running && c.start_time is Some && c.wf()
        }
    }

    /// A sound controller has a well-formed state, to which the laws on
    /// `AppView` apply.
    pub proof fn lemma_inv_wf(&self)
        requires
            self.inv(),
        ensures
            self@.wf(),
    {
    }

    /// An idle controller over `db`.
    pub fn new(db: Database) -> (r: App)
        requires
            db@.wf(),
        ensures
            r.inv(),
            r@ == (AppView { db: db@, timer: None, run: 0 }),
    {
        App { db, current_timer: None, current_tags: Vec::new(), current_desc: None, run: 0 }
    }

    /// The store.
    pub fn database(&self) -> (r: &Database)
        ensures
            r@ == self@.db,
    {
        &self.db
    }

    /// The number of the current run; a watchdog keeps the one of the run
    /// it was started for.
    pub fn current_run(&self) -> (r: u64)
        ensures
            r == self@.run,
    {
        self.run
    }

    /// Whether a timer is running.
    pub fn is_running(&self) -> (r: bool)
        ensures
            r == (self@.timer is Some),
    {
        self.current_timer.is_some()
    }

    /// The running timer, or `NotRunning`.
    pub fn get_current_timer_status(&self) -> (r: Result<TimerStatus, Error>)
        requires
            self.inv(),
        ensures
            self@.timer is None ==> r == Err::<TimerStatus, Error>(Error::NotRunning),
            self@.timer is Some ==> r is Ok && {
                let st = r->Ok_0;
                let t = self@.timer->0;
                &&& st.start_time == t.start_time
                &&& st.end_time is None
                &&& texts(st.tags@) == t.tags
                &&& opt_text(st.desc) == t.desc
                &&& st.slice_id is None
            },
    {
        match &self.current_timer {
            Some(c) => Ok(
                TimerStatus {
                    start_time: c.get_start_time(),
                    end_time: None,
                    tags: copy_strings(&self.current_tags),
                    desc: copy_text(&self.current_desc),
                    slice_id: None,
                },
            ),
            None => Err(Error::NotRunning),
        }
    }

    /// Starts a timer at instant `now` with the tag names `tags` (repeats
    /// dropped) and description `desc`. While a timer runs it fails with
    /// `AlreadyRunning` and changes nothing.
    pub fn start_timer_at(&mut self, now: u64, tags: &Vec<String>, desc: Option<String>) -> (r: Result<
        TimerStatus,
        Error,
    >)
        requires
            old(self).inv(),
        ensures
            final(self).inv(),
            ({
                let (a1, out) = old(self)@.start_outcome(now, texts(tags@), opt_text(desc));
                &&& final(self)@ == a1
                &&& out is Err ==> r == Err::<TimerStatus, Error>(out->Err_0)
                &&& out is Ok ==> r is Ok && {
                    let st = r->Ok_0;
                    &&& st.start_time == now
                    &&& st.end_time is None
                    &&& texts(st.tags@) == tag_set(texts(tags@))
                    &&& opt_text(st.desc) == opt_text(desc)
                    &&& st.slice_id is None
                }
            }),
    {
        if self.current_timer.is_some() {
            return Err(Error::AlreadyRunning);
        }
        let mut clocker = Clocker::new();
        clocker.start_at(now);
        self.current_timer = Some(clocker);
        self.current_tags = tag_set_strings(tags);
        proof {
            lemma_tag_set_clean(texts(tags@));
        }
        self.current_desc = desc;
        self.run = if self.run == u64::MAX {
            0
        } else {
            self.run + 1
        };
        self.get_current_timer_status()
    }

    /// Starts a timer now; see `start_timer_at`.
    pub fn start_timer(&mut self, tags: &Vec<String>, desc: Option<String>) -> (r: Result<TimerStatus, Error>)
        requires
            old(self).inv(),
        ensures
            final(self).inv(),
            old(self)@.timer is Some ==> r == Err::<TimerStatus, Error>(Error::AlreadyRunning)
                && final(self)@ == old(self)@,
            old(self)@.timer is None ==> r is Ok && final(self)@ == old(self)@.start_outcome(
                r->Ok_0.start_time,
                texts(tags@),
                opt_text(desc),
            ).0 && {
                let st = r->Ok_0;
                &&& st.end_time is None
                &&& texts(st.tags@) == tag_set(texts(tags@))
                &&& opt_text(st.desc) == opt_text(desc)
                &&& st.slice_id is None
            },
    {
        let now: u64 = get_current_time();
        self.start_timer_at(now, tags, desc)
    }

    /// Stops the timer at instant `now` and stores it as a slice, with its
    /// tags and description, in one transaction. When idle it fails with
    /// `NotRunning`; when the store refuses the slice (an end that does not
    /// come after the start) it fails with that error and the timer keeps
    /// running.
    pub fn stop_timer_at(&mut self, now: u64) -> (r: Result<TimerStatus, Error>)
        requires
            old(self).inv(),
        ensures
            final(self).inv(),
            ({
                let (a1, out) = old(self)@.stop_outcome(now);
                &&& final(self)@ == a1
                &&& out is Err ==> r == Err::<TimerStatus, Error>(out->Err_0)
                &&& out is Ok ==> r is Ok && {
                    let st = r->Ok_0;
                    let t = old(self)@.timer->0;
                    &&& st.slice_id == Some(out->Ok_0)
                    &&& st.start_time == t.start_time
                    &&& st.end_time == Some(now)
                    &&& texts(st.tags@) == t.tags
                    &&& opt_text(st.desc) == t.desc
                }
            }),
    {
        let start = match &self.current_timer {
            Some(c) => c.get_start_time(),
            None => return Err(Error::NotRunning),
        };
        match self.db.insert_time_slice_info(start, Some(now), &self.current_tags, &self.current_desc) {
            Ok(sid) => {
                let tags = copy_strings(&self.current_tags);
                let desc = copy_text(&self.current_desc);
                self.current_timer = None;
                Ok(TimerStatus { start_time: start, end_time: Some(now), tags, desc, slice_id: Some(sid) })
            },
            Err(e) => Err(e),
        }
    }

    /// Stops the timer now; see `stop_timer_at`.
    pub fn stop_timer(&mut self) -> (r: Result<TimerStatus, Error>)
        requires
            old(self).inv(),
        ensures
            final(self).inv(),
            old(self)@.timer is None ==> r == Err::<TimerStatus, Error>(Error::NotRunning)
                && final(self)@ == old(self)@,
            old(self)@.timer is Some ==> exists|now: u64|
                #[trigger] old(self)@.stop_outcome(now) == (final(self)@, match r {
                    Ok(st) => Ok::<u64, Error>(st.slice_id->0),
                    Err(e) => Err::<u64, Error>(e),
                }) && (r is Ok ==> {
                    let st = r->Ok_0;
                    &&& st.end_time == Some(now)
                    &&& st.start_time == old(self)@.timer->0.start_time
                    &&& texts(st.tags@) == old(self)@.timer->0.tags
                    &&& opt_text(st.desc) == old(self)@.timer->0.desc
                }),
    {
        let now: u64 = get_current_time();
        let r = self.stop_timer_at(now);
        proof {
            if old(self)@.timer is Some {
                assert(old(self)@.stop_outcome(now) == (final(self)@, match r {
                    Ok(st) => Ok::<u64, Error>(st.slice_id->0),
                    Err(e) => Err::<u64, Error>(e),
                }));
            }
        }
        r
    }

    /// One check of the watchdog of run `run`, at instant `now`: once more
    /// than `duration` has passed since the timer started, it stops the
    /// timer; if the timer of that run is gone, there is nothing to do.
    pub fn watchdog_tick(&mut self, run: u64, duration: u64, now: u64) -> (r: WatchdogStep)
        requires
            old(self).inv(),
        ensures
            final(self).inv(),
            old(self)@.tick_finishes(run) ==> r is Finished && final(self)@ == old(self)@,
            !old(self)@.tick_finishes(run) && !old(self)@.tick_fires(run, duration, now) ==> r is Continue
                && final(self)@ == old(self)@,
            old(self)@.tick_fires(run, duration, now) ==> r is Fired && final(self)@ == old(self)@.stop_outcome(now).0
                && (r->Fired_0 is Ok <==> old(self)@.stop_outcome(now).1 is Ok)
                && (r->Fired_0 is Ok ==> r->Fired_0->Ok_0.slice_id == Some(old(self)@.stop_outcome(now).1->Ok_0))
                && (r->Fired_0 is Err ==> old(self)@.stop_outcome(now).1 == Err::<u64, Error>(r->Fired_0->Err_0)),
    {
        if self.current_timer.is_none() || self.run != run {
            return WatchdogStep::Finished;
        }
        let start = match &self.current_timer {
            Some(c) => c.get_start_time(),
            None => return WatchdogStep::Finished,
        };
        if now >= start && now - start > duration {
            WatchdogStep::Fired(self.stop_timer_at(now))
        } else {
            WatchdogStep::Continue
        }
    }

    /// The timeline of the store as it is now.
    pub fn get_timeline(&self) -> (r: Timeline)
        requires
            self.inv(),
        ensures
            r.reflects(self@.db),
    {
        Timeline::build(&self.db)
    }

    /// Deletes slice `id` with its tags and description; `NotFound` if
    /// there is none.
    pub fn remove_time_slice(&mut self, id: u64) -> (r: Result<(), Error>)
        requires
            old(self).inv(),
        ensures
            final(self).inv(),
            final(self)@.timer == old(self)@.timer,
            final(self)@.run == old(self)@.run,
            !old(self)@.db.has_slice(id) ==> r == Err::<(), Error>(Error::NotFound) && final(self)@.db == old(self)@.db,
            old(self)@.db.has_slice(id) ==> r is Ok && final(self)@.db == old(self)@.db.without_slice(id),
    {
        self.db.remove_time_slice(id)
    }

    /// Replaces the tags of slice `id`.
    pub fn update_tags(&mut self, id: u64, tags: &Vec<String>) -> (r: Result<(), Error>)
        requires
            old(self).inv(),
        ensures
            final(self).inv(),
            final(self)@.timer == old(self)@.timer,
            final(self)@.run == old(self)@.run,
            (final(self)@.db, r) == old(self)@.db.retag_outcome(id, texts(tags@)),
    {
        self.db.update_time_slice_tags(id, tags)
    }

    /// Sets the description of slice `id`, replacing any it had.
    pub fn update_description(&mut self, id: u64, text: &str) -> (r: Result<(), Error>)
        requires
            old(self).inv(),
        ensures
            final(self).inv(),
            final(self)@.timer == old(self)@.timer,
            final(self)@.run == old(self)@.run,
            !old(self)@.db.has_slice(id) ==> r == Err::<(), Error>(Error::NotFound) && final(self)@.db == old(self)@.db,
            old(self)@.db.has_slice(id) ==> r is Ok && final(self)@.db == old(self)@.db.set_description(id, text@),
    {
        self.db.update_time_slice_description(id, text)
    }
}

} // verus!
