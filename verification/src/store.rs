//! The relational store: three tables (events, event files, event notes) with
//! the exact semantics the API exposes — events kept sorted by start time,
//! partial update with merge, idempotent cascading delete, notes in thread
//! order and files newest first.

use vstd::prelude::*;

use crate::models::ApiError;
use crate::models::CreateEventRequest;
use crate::models::CreateEventV;
use crate::models::CreateNoteRequest;
use crate::models::EventWithDetails;
use crate::models::Event;
use crate::models::EventFile;
use crate::models::EventNote;
use crate::models::EventV;
use crate::models::FileV;
use crate::models::NoteV;
use crate::models::UpdateEventRequest;
use crate::models::UpdateEventV;
use crate::time::ts_millis;
use crate::time::parse_timestamp;
use crate::files::storage_name;
use crate::files::storage_filename;
use crate::files::UploadMeta;
use crate::models::FileUploadResponse;
use crate::models::FileUploadV;

verus! {

/// Strict order of the event listing: by start time, ties broken by id.
pub open spec fn evt_lt(a: EventV, b: EventV) -> bool {
    a.start_time < b.start_time || (a.start_time == b.start_time && a.id < b.id)
}

pub open spec fn sorted_by_start(s: Seq<EventV>) -> bool {
    forall|i: int, j: int| 0 <= i < j < s.len() ==> evt_lt(#[trigger] s[i], #[trigger] s[j])
}

pub open spec fn has_event(s: Seq<EventV>, id: u128) -> bool {
    exists|i: int| 0 <= i < s.len() && (#[trigger] s[i]).id == id
}

pub open spec fn unique_event_ids(s: Seq<EventV>) -> bool {
    forall|i: int, j: int|
        0 <= i < j < s.len() ==> (#[trigger] s[i]).id != (#[trigger] s[j]).id
}

/// The stored event carrying `id`; meaningful only when `has_event` holds and
/// ids are unique.
pub open spec fn event_with_id(s: Seq<EventV>, id: u128) -> EventV {
    s[choose|i: int| 0 <= i < s.len() && (#[trigger] s[i]).id == id]
}

pub open spec fn has_file(s: Seq<FileV>, id: u128) -> bool {
    exists|i: int| 0 <= i < s.len() && (#[trigger] s[i]).id == id
}

pub open spec fn unique_file_ids(s: Seq<FileV>) -> bool {
    forall|i: int, j: int|
        0 <= i < j < s.len() ==> (#[trigger] s[i]).id != (#[trigger] s[j]).id
}

/// The stored file row carrying `id`; meaningful only when `has_file` holds
/// and ids are unique.
pub open spec fn file_with_id(s: Seq<FileV>, id: u128) -> FileV {
    s[choose|i: int| 0 <= i < s.len() && (#[trigger] s[i]).id == id]
}

pub open spec fn unique_note_ids(s: Seq<NoteV>) -> bool {
    forall|i: int, j: int|
        0 <= i < j < s.len() ==> (#[trigger] s[i]).id != (#[trigger] s[j]).id
}

/// Referential integrity: every file row points at a stored event.
pub open spec fn files_linked(fs: Seq<FileV>, es: Seq<EventV>) -> bool {
    forall|i: int| 0 <= i < fs.len() ==> has_event(es, (#[trigger] fs[i]).event_id)
}

/// Referential integrity: every note points at a stored event.
pub open spec fn notes_linked(ns: Seq<NoteV>, es: Seq<EventV>) -> bool {
    forall|i: int| 0 <= i < ns.len() ==> has_event(es, (#[trigger] ns[i]).event_id)
}

/// The three tables. Events are kept sorted by `(start_time, id)`; files are
/// kept in upload order, notes in creation order.
pub struct EventStore {
    events: Vec<Event>,
    files: Vec<EventFile>,
    notes: Vec<EventNote>,
}

impl EventStore {
    /// The events table as a sequence of mathematical values, in listing
    /// order.
    pub closed spec fn events_v(&self) -> Seq<EventV> {
        self.events.deep_view()
    }

    /// The file-metadata table, in upload order (oldest first).
    pub closed spec fn files_v(&self) -> Seq<FileV> {
        self.files.deep_view()
    }

    /// The notes table, in creation order (oldest first).
    pub closed spec fn notes_v(&self) -> Seq<NoteV> {
        self.notes.deep_view()
    }

    /// Well-formedness: listing order maintained, ids unique per table, and
    /// referential integrity of files and notes.
    pub open spec fn wf(&self) -> bool {
        &&& sorted_by_start(self.events_v())
        &&& unique_event_ids(self.events_v())
        &&& unique_file_ids(self.files_v())
        &&& unique_note_ids(self.notes_v())
        &&& files_linked(self.files_v(), self.events_v())
        &&& notes_linked(self.notes_v(), self.events_v())
    }

    /// The empty store.
    pub fn new() -> (r: EventStore)
        ensures
            r.wf(),
            r.events_v() == Seq::<EventV>::empty(),
            r.files_v() == Seq::<FileV>::empty(),
            r.notes_v() == Seq::<NoteV>::empty(),
    {
        let r = EventStore { events: Vec::new(), files: Vec::new(), notes: Vec::new() };
        proof {
            assert(r.events_v() =~= Seq::<EventV>::empty());
            assert(r.files_v() =~= Seq::<FileV>::empty());
            assert(r.notes_v() =~= Seq::<NoteV>::empty());
        }
        r
    }

    /// List all events, ordered by start time ascending (ties by id).
    pub fn get_events(&self) -> (r: &Vec<Event>)
        requires
            self.wf(),
        ensures
            r.deep_view() == self.events_v(),
            sorted_by_start(r.deep_view()),
    {
        &self.events
    }

    /// Fetch a single event, or `NotFound` if no row matches.
    pub fn get_event(&self, id: u128) -> (r: Result<&Event, ApiError>)
        requires
            self.wf(),
        ensures
            match r {
                Ok(e) => has_event(self.events_v(), id) && e@ == event_with_id(
                    self.events_v(),
                    id,
                ) && e@.id == id,
                Err(e) => e == ApiError::NotFound && !has_event(self.events_v(), id),
            },
    {
        let n = self.events.len();
        let mut i: usize = 0;
        while i < n
            invariant
                n == self.events.len(),
                0 <= i <= n,
                forall|k: int| 0 <= k < i ==> (#[trigger] self.events_v()[k]).id != id,
                self.wf(),
            decreases n - i,
        {
            if self.events[i].id == id {
                proof {
                    lemma_event_at_index(self.events_v(), i as int);
                }
                return Ok(&self.events[i]);
            }
            i = i + 1;
        }
        Err(ApiError::NotFound)
    }

    fn contains_event(&self, id: u128) -> (r: bool)
        ensures
            r == has_event(self.events_v(), id),
    {
        let n = self.events.len();
        let mut i: usize = 0;
        while i < n
            invariant
                n == self.events.len(),
                0 <= i <= n,
                forall|k: int| 0 <= k < i ==> (#[trigger] self.events_v()[k]).id != id,
            decreases n - i,
        {
            if self.events[i].id == id {
                proof {
                    assert((self.events_v()[i as int]).id == id);
                }
                return true;
            }
            i = i + 1;
        }
        false
    }

    /// Create an event from a given id. Succeeds exactly when the payload is
    /// valid and the id is non-nil and not yet issued; a nil or colliding id
    /// is a persistence failure, an invalid payload a validation failure.
    pub fn create_event_with_id(&mut self, req: CreateEventRequest, id: u128, now: i64) -> (r:
        Result<Event, ApiError>)
        requires
            old(self).wf(),
        ensures
            final(self).wf(),
            final(self).files_v() == old(self).files_v(),
            final(self).notes_v() == old(self).notes_v(),
            r is Ok <==> (create_valid(req@) && id != 0 && !has_event(old(self).events_v(), id)),
            match r {
                Ok(ev) => {
                    &&& ev@ == created_event(req@, id, now as int)
                    &&& final(self).events_v().len() == old(self).events_v().len() + 1
                    &&& forall|w: u128|
                        has_event(final(self).events_v(), w) <==> (has_event(
                            old(self).events_v(),
                            w,
                        ) || w == id)
                    &&& event_with_id(final(self).events_v(), id) == ev@
                    &&& forall|w: u128|
                        w != id && has_event(old(self).events_v(), w) ==> event_with_id(
                            final(self).events_v(),
                            w,
                        ) == event_with_id(old(self).events_v(), w)
                    &&& exists|p: int|
                        0 <= p <= old(self).events_v().len() && final(self).events_v() == old(
                            self,
                        ).events_v().insert(p, ev@)
                },
                Err(e) => {
                    &&& final(self).events_v() == old(self).events_v()
                    &&& (e == ApiError::Validation <==> !create_valid(req@))
                    &&& e != ApiError::NotFound
                },
            },
    {
        if req.title.as_str().is_empty() {
            return Err(ApiError::Validation);
        }
        let st = match parse_timestamp(req.start_time.as_str()) {
            Some(t) => t,
            None => {
                return Err(ApiError::Validation);
            },
        };
        let en = match parse_timestamp(req.end_time.as_str()) {
            Some(t) => t,
            None => {
                return Err(ApiError::Validation);
            },
        };
        if id == 0 {
            return Err(ApiError::Storage);
        }
        if self.contains_event(id) {
            return Err(ApiError::Storage);
        }
        let priority = match req.priority {
            Some(p) => p,
            None => "medium".to_owned(),
        };
        let ev = Event {
            id,
            title: req.title,
            description: req.description,
            course: req.course,
            event_type: req.event_type,
            start_time: st,
            end_time: en,
            location: req.location,
            instructor: req.instructor,
            priority,
            created_at: now,
            updated_at: now,
        };
        let ret = clone_event(&ev);
        proof {
            assert(ev@ == created_event(req@, id, now as int));
        }
        insert_sorted(&mut self.events, ev);
        proof {
            assert forall|i: int| 0 <= i < final(self).files_v().len() implies has_event(
                final(self).events_v(),
                (#[trigger] final(self).files_v()[i]).event_id,
            ) by {
                assert(has_event(old(self).events_v(), final(self).files_v()[i].event_id));
            }
            assert forall|i: int| 0 <= i < final(self).notes_v().len() implies has_event(
                final(self).events_v(),
                (#[trigger] final(self).notes_v()[i]).event_id,
            ) by {
                assert(has_event(old(self).events_v(), final(self).notes_v()[i].event_id));
            }
        }
        Ok(ret)
    }

    /// Create an event under a freshly drawn server id. The returned event
    /// carries a non-nil id no earlier event was issued, both server
    /// timestamps equal to the creation instant, and the payload's fields
    /// with priority defaulted to `"medium"`.
    pub fn create_event(&mut self, req: CreateEventRequest, now: i64) -> (r: Result<
        Event,
        ApiError,
    >)
        requires
            old(self).wf(),
        ensures
            final(self).wf(),
            final(self).files_v() == old(self).files_v(),
            final(self).notes_v() == old(self).notes_v(),
            match r {
                Ok(ev) => {
                    &&& create_valid(req@)
                    &&& ev@.id != 0
                    &&& !has_event(old(self).events_v(), ev@.id)
                    &&& ev@ == created_event(req@, ev@.id, now as int)
                    &&& ev@.created_at == now && ev@.updated_at == now
                    &&& final(self).events_v().len() == old(self).events_v().len() + 1
                    &&& forall|w: u128|
                        has_event(final(self).events_v(), w) <==> (has_event(
                            old(self).events_v(),
                            w,
                        ) || w == ev@.id)
                    &&& event_with_id(final(self).events_v(), ev@.id) == ev@
                    &&& forall|w: u128|
                        w != ev@.id && has_event(old(self).events_v(), w) ==> event_with_id(
                            final(self).events_v(),
                            w,
                        ) == event_with_id(old(self).events_v(), w)
                },
                Err(e) => {
                    &&& final(self).events_v() == old(self).events_v()
                    &&& (e == ApiError::Validation <==> !create_valid(req@))
                    &&& e != ApiError::NotFound
                },
            },
    {
        let id = crate::ids::fresh_uuid();
        self.create_event_with_id(req, id, now)
    }

    fn find_event_index(&self, id: u128) -> (r: Option<usize>)
        requires
            unique_event_ids(self.events_v()),
        ensures
            match r {
                Some(p) => p < self.events_v().len() && self.events_v()[p as int].id == id
                    && event_with_id(self.events_v(), id) == self.events_v()[p as int]
                    && has_event(self.events_v(), id),
                None => !has_event(self.events_v(), id),
            },
    {
        let n = self.events.len();
        let mut i: usize = 0;
        while i < n
            invariant
                n == self.events.len(),
                0 <= i <= n,
                unique_event_ids(self.events_v()),
                forall|k: int| 0 <= k < i ==> (#[trigger] self.events_v()[k]).id != id,
            decreases n - i,
        {
            if self.events[i].id == id {
                proof {
                    lemma_event_at_index(self.events_v(), i as int);
                }
                return Some(i);
            }
            i = i + 1;
        }
        None
    }

    /// Partial update: merge the supplied fields into the stored row,
    /// refresh `updated_at`, and return the merged row. Fails with
    /// `Validation` when a supplied timestamp does not parse, with `NotFound`
    /// when no row carries the id.
    pub fn update_event(&mut self, id: u128, req: UpdateEventRequest, now: i64) -> (r: Result<
        Event,
        ApiError,
    >)
        requires
            old(self).wf(),
        ensures
            final(self).wf(),
            final(self).files_v() == old(self).files_v(),
            final(self).notes_v() == old(self).notes_v(),
            r is Ok <==> (upd_valid(req@) && has_event(old(self).events_v(), id)),
            match r {
                Ok(ev) => {
                    &&& ev@ == merged(event_with_id(old(self).events_v(), id), req@, now as int)
                    &&& final(self).events_v().len() == old(self).events_v().len()
                    &&& forall|w: u128|
                        has_event(final(self).events_v(), w) <==> has_event(
                            old(self).events_v(),
                            w,
                        )
                    &&& event_with_id(final(self).events_v(), id) == ev@
                    &&& forall|w: u128|
                        w != id && has_event(old(self).events_v(), w) ==> event_with_id(
                            final(self).events_v(),
                            w,
                        ) == event_with_id(old(self).events_v(), w)
                },
                Err(e) => {
                    &&& final(self).events_v() == old(self).events_v()
                    &&& (e == ApiError::Validation <==> !upd_valid(req@))
                    &&& (e == ApiError::NotFound <==> (upd_valid(req@) && !has_event(
                        old(self).events_v(),
                        id,
                    )))
                    &&& e != ApiError::Storage
                },
            },
    {
        let st_opt: Option<i64> = match &req.start_time {
            Some(s) => {
                match parse_timestamp(s.as_str()) {
                    Some(t) => Some(t),
                    None => {
                        return Err(ApiError::Validation);
                    },
                }
            },
            None => None,
        };
        let en_opt: Option<i64> = match &req.end_time {
            Some(s) => {
                match parse_timestamp(s.as_str()) {
                    Some(t) => Some(t),
                    None => {
                        return Err(ApiError::Validation);
                    },
                }
            },
            None => None,
        };
        let p = match self.find_event_index(id) {
            Some(p) => p,
            None => {
                return Err(ApiError::NotFound);
            },
        };
        let ghost dv0 = self.events_v();
        let ghost vsnap = self.events;
        let old_ev = self.events.remove(p);
        proof {
            lemma_dv_remove(vsnap, self.events, p as int);
            lemma_remove_event_facts(dv0, p as int);
        }
        let ev = Event {
            id: old_ev.id,
            title: match req.title {
                Some(t) => t,
                None => old_ev.title,
            },
            description: match req.description {
                Some(d) => Some(d),
                None => old_ev.description,
            },
            course: match req.course {
                Some(c) => Some(c),
                None => old_ev.course,
            },
            event_type: match req.event_type {
                Some(t) => t,
                None => old_ev.event_type,
            },
            start_time: match st_opt {
                Some(t) => t,
                None => old_ev.start_time,
            },
            end_time: match en_opt {
                Some(t) => t,
                None => old_ev.end_time,
            },
            location: match req.location {
                Some(l) => Some(l),
                None => old_ev.location,
            },
            instructor: match req.instructor {
                Some(x) => Some(x),
                None => old_ev.instructor,
            },
            priority: match req.priority {
                Some(pr) => pr,
                None => old_ev.priority,
            },
            created_at: old_ev.created_at,
            updated_at: now,
        };
        proof {
            assert(ev@ == merged(event_with_id(dv0, id), req@, now as int));
            assert(!has_event(dv0.remove(p as int), id));
        }
        let ret = clone_event(&ev);
        insert_sorted(&mut self.events, ev);
        proof {
            assert forall|w: u128| has_event(final(self).events_v(), w) implies has_event(
                dv0,
                w,
            ) by {}
            assert forall|w: u128| has_event(dv0, w) implies has_event(
                final(self).events_v(),
                w,
            ) by {}
            assert forall|i: int| 0 <= i < final(self).files_v().len() implies has_event(
                final(self).events_v(),
                (#[trigger] final(self).files_v()[i]).event_id,
            ) by {
                assert(has_event(dv0, final(self).files_v()[i].event_id));
            }
            assert forall|i: int| 0 <= i < final(self).notes_v().len() implies has_event(
                final(self).events_v(),
                (#[trigger] final(self).notes_v()[i]).event_id,
            ) by {
                assert(has_event(dv0, final(self).notes_v()[i].event_id));
            }
        }
        Ok(ret)
    }

    /// Hard delete, idempotent: removes the row and, cascading, its files
    /// and notes; deleting an id with no row succeeds and changes nothing.
    pub fn delete_event(&mut self, id: u128) -> (r: Result<(), ApiError>)
        requires
            old(self).wf(),
        ensures
            final(self).wf(),
            r is Ok,
            forall|w: u128|
                has_event(final(self).events_v(), w) <==> (has_event(old(self).events_v(), w) && w
                    != id),
            forall|w: u128|
                w != id && has_event(old(self).events_v(), w) ==> event_with_id(
                    final(self).events_v(),
                    w,
                ) == event_with_id(old(self).events_v(), w),
            final(self).files_v() == files_without(old(self).files_v(), id),
            final(self).notes_v() == notes_without(old(self).notes_v(), id),
            !has_event(old(self).events_v(), id) ==> final(self).events_v() == old(
                self,
            ).events_v() && final(self).files_v() == old(self).files_v() && final(self).notes_v()
                == old(self).notes_v(),
    {
        let p = match self.find_event_index(id) {
            Some(p) => p,
            None => {
                proof {
                    assert forall|i: int| 0 <= i < old(self).files_v().len() implies (#[trigger] old(
                        self,
                    ).files_v()[i]).event_id != id by {}
                    lemma_filter_all(old(self).files_v(), |f: FileV| f.event_id != id);
                    assert forall|i: int| 0 <= i < old(self).notes_v().len() implies (#[trigger] old(
                        self,
                    ).notes_v()[i]).event_id != id by {}
                    lemma_filter_all(old(self).notes_v(), |n: NoteV| n.event_id != id);
                }
                return Ok(());
            },
        };
        let ghost dv0 = self.events_v();
        let ghost vsnap = self.events;
        self.events.remove(p);
        proof {
            lemma_dv_remove(vsnap, self.events, p as int);
            lemma_remove_event_facts(dv0, p as int);
        }
        let nf = self.files.len();
        let mut kept_files: Vec<EventFile> = Vec::new();
        let ghost fs0 = self.files.deep_view();
        proof {
            assert(kept_files.deep_view() =~= fs0.subrange(0, 0).filter(
                |f: FileV| f.event_id != id,
            ));
        }
        let mut i: usize = 0;
        while i < nf
            invariant
                nf == self.files@.len(),
                0 <= i <= nf,
                fs0 == self.files.deep_view(),
                kept_files.deep_view() =~= fs0.subrange(0, i as int).filter(
                    |f: FileV| f.event_id != id,
                ),
            decreases nf - i,
        {
            let ghost kfsnap = kept_files;
            if self.files[i].event_id != id {
                let c = clone_file(&self.files[i]);
                kept_files.push(c);
                proof {
                    lemma_dv_push(kfsnap, kept_files, c);
                }
            }
            proof {
                reveal(Seq::filter);
                let pred = |f: FileV| f.event_id != id;
                let pre = fs0.subrange(0, i as int + 1);
                assert(pre.drop_last() =~= fs0.subrange(0, i as int));
                assert(pre.last() == fs0[i as int]);
                assert(kept_files.deep_view() =~= pre.filter(pred));
            }
            i = i + 1;
        }
        proof {
            assert(fs0.subrange(0, nf as int) =~= fs0);
        }
        self.files = kept_files;
        let nn = self.notes.len();
        let mut kept_notes: Vec<EventNote> = Vec::new();
        let ghost ns0 = self.notes.deep_view();
        proof {
            assert(kept_notes.deep_view() =~= ns0.subrange(0, 0).filter(
                |n: NoteV| n.event_id != id,
            ));
        }
        let mut j: usize = 0;
        while j < nn
            invariant
                nn == self.notes@.len(),
                0 <= j <= nn,
                ns0 == self.notes.deep_view(),
                kept_notes.deep_view() =~= ns0.subrange(0, j as int).filter(
                    |n: NoteV| n.event_id != id,
                ),
            decreases nn - j,
        {
            let ghost knsnap = kept_notes;
            if self.notes[j].event_id != id {
                let c = clone_note(&self.notes[j]);
                kept_notes.push(c);
                proof {
                    lemma_dv_push(knsnap, kept_notes, c);
                }
            }
            proof {
                reveal(Seq::filter);
                let pred = |n: NoteV| n.event_id != id;
                let pre = ns0.subrange(0, j as int + 1);
                assert(pre.drop_last() =~= ns0.subrange(0, j as int));
                assert(pre.last() == ns0[j as int]);
                assert(kept_notes.deep_view() =~= pre.filter(pred));
            }
            j = j + 1;
        }
        proof {
            assert(ns0.subrange(0, nn as int) =~= ns0);
        }
        self.notes = kept_notes;
        proof {
            let fpred = |f: FileV| f.event_id != id;
            let npred = |n: NoteV| n.event_id != id;
            assert(self.files_v() == fs0.filter(fpred));
            assert(self.notes_v() == ns0.filter(npred));
            lemma_filter_unique_by(fs0, fpred, |f: FileV| f.id);
            lemma_filter_unique_by(ns0, npred, |n: NoteV| n.id);
            assert forall|i2: int| 0 <= i2 < self.files_v().len() implies has_event(
                self.events_v(),
                (#[trigger] self.files_v()[i2]).event_id,
            ) by {
                let x = fs0.filter(fpred)[i2];
                fs0.lemma_filter_pred(fpred, i2);
                assert(fs0.contains(x));
                let k = choose|k: int| 0 <= k < fs0.len() && fs0[k] == x;
                assert(has_event(dv0, fs0[k].event_id));
                assert(x.event_id != id);
                assert(has_event(self.events_v(), x.event_id));
            }
            assert forall|i2: int| 0 <= i2 < self.notes_v().len() implies has_event(
                self.events_v(),
                (#[trigger] self.notes_v()[i2]).event_id,
            ) by {
                let x = ns0.filter(npred)[i2];
                ns0.lemma_filter_pred(npred, i2);
                assert(ns0.contains(x));
                let k = choose|k: int| 0 <= k < ns0.len() && ns0[k] == x;
                assert(has_event(dv0, ns0[k].event_id));
                assert(x.event_id != id);
                assert(has_event(self.events_v(), x.event_id));
            }
            assert(unique_file_ids(self.files_v()));
            assert(unique_note_ids(self.notes_v()));
        }
        Ok(())
    }

    /// Append a note under a given id. Succeeds exactly when the referenced
    /// event exists and the id is non-nil and not yet issued; otherwise the
    /// insert is a persistence failure, as a schema with a foreign-key
    /// constraint reports it.
    pub fn add_note_with_id(&mut self, event_id: u128, req: CreateNoteRequest, id: u128, now: i64)
        -> (r: Result<EventNote, ApiError>)
        requires
            old(self).wf(),
        ensures
            final(self).wf(),
            final(self).events_v() == old(self).events_v(),
            final(self).files_v() == old(self).files_v(),
            r is Ok <==> (has_event(old(self).events_v(), event_id) && id != 0 && !has_note(
                old(self).notes_v(),
                id,
            )),
            match r {
                Ok(note) => {
                    &&& note@ == (NoteV {
                        id: id,
                        event_id: event_id,
                        author_name: req.author_name@,
                        content: req.content@,
                        created_at: now as int,
                        updated_at: now as int,
                    })
                    &&& final(self).notes_v() == old(self).notes_v().push(note@)
                },
                Err(e) => {
                    &&& final(self).notes_v() == old(self).notes_v()
                    &&& e == ApiError::Storage
                },
            },
    {
        if id == 0 {
            return Err(ApiError::Storage);
        }
        if !self.contains_event(event_id) {
            return Err(ApiError::Storage);
        }
        let n = self.notes.len();
        let mut i: usize = 0;
        while i < n
            invariant
                n == self.notes@.len(),
                0 <= i <= n,
                self.wf(),
                self.events_v() == old(self).events_v(),
                self.files_v() == old(self).files_v(),
                self.notes_v() == old(self).notes_v(),
                has_event(old(self).events_v(), event_id),
                forall|k: int| 0 <= k < i ==> (#[trigger] self.notes_v()[k]).id != id,
            decreases n - i,
        {
            if self.notes[i].id == id {
                proof {
                    assert((self.notes_v()[i as int]).id == id);
                }
                return Err(ApiError::Storage);
            }
            i = i + 1;
        }
        let note = EventNote {
            id,
            event_id,
            author_name: req.author_name,
            content: req.content,
            created_at: now,
            updated_at: now,
        };
        let ret = clone_note(&note);
        let ghost nsnap = self.notes;
        let ghost noteg = note;
        self.notes.push(note);
        proof {
            lemma_dv_push(nsnap, self.notes, noteg);
            let t = self.notes_v();
            let s0 = nsnap.deep_view();
            assert forall|i2: int, j2: int| 0 <= i2 < j2 < t.len() implies (#[trigger] t[i2]).id
                != (#[trigger] t[j2]).id by {
                if j2 < t.len() - 1 {
                    assert(t[i2] == s0[i2] && t[j2] == s0[j2]);
                } else {
                    assert(t[i2] == s0[i2] && t[j2] == noteg@);
                }
            }
            assert forall|i2: int| 0 <= i2 < t.len() implies has_event(
                self.events_v(),
                (#[trigger] t[i2]).event_id,
            ) by {
                if i2 < t.len() - 1 {
                    assert(t[i2] == s0[i2]);
                } else {
                    assert(t[i2] == noteg@);
                }
            }
        }
        Ok(ret)
    }

    /// Append a note under a freshly drawn server id, with both server
    /// timestamps set to the creation instant.
    pub fn add_note(&mut self, event_id: u128, req: CreateNoteRequest, now: i64) -> (r: Result<
        EventNote,
        ApiError,
    >)
        requires
            old(self).wf(),
        ensures
            final(self).wf(),
            final(self).events_v() == old(self).events_v(),
            final(self).files_v() == old(self).files_v(),
            !has_event(old(self).events_v(), event_id) ==> r is Err,
            match r {
                Ok(note) => {
                    &&& has_event(old(self).events_v(), event_id)
                    &&& note@.id != 0
                    &&& !has_note(old(self).notes_v(), note@.id)
                    &&& note@ == (NoteV {
                        id: note@.id,
                        event_id: event_id,
                        author_name: req.author_name@,
                        content: req.content@,
                        created_at: now as int,
                        updated_at: now as int,
                    })
                    &&& final(self).notes_v() == old(self).notes_v().push(note@)
                },
                Err(e) => {
                    &&& final(self).notes_v() == old(self).notes_v()
                    &&& e == ApiError::Storage
                },
            },
    {
        let id = crate::ids::fresh_uuid();
        self.add_note_with_id(event_id, req, id, now)
    }

    /// List the notes of one event, oldest first.
    pub fn get_notes(&self, event_id: u128) -> (r: Vec<EventNote>)
        requires
            self.wf(),
        ensures
            r.deep_view() == notes_for(self.notes_v(), event_id),
    {
        let n = self.notes.len();
        let mut out: Vec<EventNote> = Vec::new();
        let ghost ns0 = self.notes.deep_view();
        proof {
            assert(out.deep_view() =~= ns0.subrange(0, 0).filter(
                |nv: NoteV| nv.event_id == event_id,
            ));
        }
        let mut i: usize = 0;
        while i < n
            invariant
                n == self.notes@.len(),
                0 <= i <= n,
                ns0 == self.notes.deep_view(),
                out.deep_view() =~= ns0.subrange(0, i as int).filter(
                    |nv: NoteV| nv.event_id == event_id,
                ),
            decreases n - i,
        {
            let ghost osnap = out;
            if self.notes[i].event_id == event_id {
                let c = clone_note(&self.notes[i]);
                out.push(c);
                proof {
                    lemma_dv_push(osnap, out, c);
                }
            }
            proof {
                reveal(Seq::filter);
                let pred = |nv: NoteV| nv.event_id == event_id;
                let pre = ns0.subrange(0, i as int + 1);
                assert(pre.drop_last() =~= ns0.subrange(0, i as int));
                assert(pre.last() == ns0[i as int]);
                assert(out.deep_view() =~= pre.filter(pred));
            }
            i = i + 1;
        }
        proof {
            assert(ns0.subrange(0, n as int) =~= ns0);
        }
        out
    }

    /// List the file rows of one event, newest first.
    pub fn get_files(&self, event_id: u128) -> (r: Vec<EventFile>)
        requires
            self.wf(),
        ensures
            r.deep_view() == files_for(self.files_v(), event_id).reverse(),
    {
        let n = self.files.len();
        let mut out: Vec<EventFile> = Vec::new();
        let ghost fs0 = self.files.deep_view();
        proof {
            assert(out.deep_view() =~= fs0.subrange(0, 0).filter(
                |fv: FileV| fv.event_id == event_id,
            ).reverse());
        }
        let mut i: usize = 0;
        while i < n
            invariant
                n == self.files@.len(),
                0 <= i <= n,
                fs0 == self.files.deep_view(),
                out.deep_view() =~= fs0.subrange(0, i as int).filter(
                    |fv: FileV| fv.event_id == event_id,
                ).reverse(),
            decreases n - i,
        {
            let ghost osnap = out;
            if self.files[i].event_id == event_id {
                let c = clone_file(&self.files[i]);
                let ghost cg = c;
                out.insert(0, c);
                proof {
                    lemma_dv_insert(osnap, out, 0, cg);
                }
            }
            proof {
                reveal(Seq::filter);
                let pred = |fv: FileV| fv.event_id == event_id;
                let pre = fs0.subrange(0, i as int + 1);
                assert(pre.drop_last() =~= fs0.subrange(0, i as int));
                assert(pre.last() == fs0[i as int]);
                if pred(fs0[i as int]) {
                    assert(pre.filter(pred) == pre.drop_last().filter(pred).push(
                        fs0[i as int],
                    ));
                }
                assert(out.deep_view() =~= pre.filter(pred).reverse());
            }
            i = i + 1;
        }
        proof {
            assert(fs0.subrange(0, n as int) =~= fs0);
        }
        out
    }

    /// Record an uploaded blob's metadata row, after the blob itself is
    /// safely in storage. Succeeds exactly when the referenced event exists
    /// and the file id is non-nil and not yet issued; otherwise the insert
    /// is a persistence failure, as a schema with foreign-key and primary-key
    /// constraints reports it.
    pub fn upload_file(
        &mut self,
        event_id: u128,
        meta: UploadMeta,
        size: u64,
        file_id: u128,
        now: i64,
    ) -> (r: Result<FileUploadResponse, ApiError>)
        requires
            old(self).wf(),
            size <= i64::MAX as u64,
        ensures
            final(self).wf(),
            final(self).events_v() == old(self).events_v(),
            final(self).notes_v() == old(self).notes_v(),
            r is Ok <==> (has_event(old(self).events_v(), event_id) && file_id != 0 && !has_file(
                old(self).files_v(),
                file_id,
            )),
            match r {
                Ok(resp) => {
                    &&& final(self).files_v() == old(self).files_v().push(
                        FileV {
                            id: file_id,
                            event_id: event_id,
                            filename: storage_name(file_id, meta.original_filename@),
                            original_filename: meta.original_filename@,
                            file_size: size as int,
                            mime_type: meta.mime_type@,
                            uploaded_by: meta.uploaded_by@,
                            created_at: now as int,
                        },
                    )
                    &&& resp@ == (FileUploadV {
                        id: file_id,
                        filename: storage_name(file_id, meta.original_filename@),
                        original_filename: meta.original_filename@,
                        file_size: size as int,
                        uploaded_by: meta.uploaded_by@,
                    })
                },
                Err(e) => {
                    &&& final(self).files_v() == old(self).files_v()
                    &&& e == ApiError::Storage
                },
            },
    {
        if file_id == 0 {
            return Err(ApiError::Storage);
        }
        if !self.contains_event(event_id) {
            return Err(ApiError::Storage);
        }
        let n = self.files.len();
        let mut i: usize = 0;
        while i < n
            invariant
                n == self.files@.len(),
                0 <= i <= n,
                self.wf(),
                self.events_v() == old(self).events_v(),
                self.files_v() == old(self).files_v(),
                self.notes_v() == old(self).notes_v(),
                has_event(old(self).events_v(), event_id),
                forall|k: int| 0 <= k < i ==> (#[trigger] self.files_v()[k]).id != file_id,
            decreases n - i,
        {
            if self.files[i].id == file_id {
                proof {
                    assert((self.files_v()[i as int]).id == file_id);
                }
                return Err(ApiError::Storage);
            }
            i = i + 1;
        }
        let filename = storage_filename(file_id, meta.original_filename.as_str());
        let row = EventFile {
            id: file_id,
            event_id,
            filename,
            original_filename: meta.original_filename,
            file_size: size as i64,
            mime_type: meta.mime_type,
            uploaded_by: meta.uploaded_by,
            created_at: now,
        };
        let resp = FileUploadResponse {
            id: row.id,
            filename: clone_string(&row.filename),
            original_filename: clone_string(&row.original_filename),
            file_size: row.file_size,
            uploaded_by: clone_string(&row.uploaded_by),
        };
        let ghost fsnap = self.files;
        let ghost rowg = row;
        self.files.push(row);
        proof {
            lemma_dv_push(fsnap, self.files, rowg);
            let t = self.files_v();
            let s0 = fsnap.deep_view();
            assert forall|i2: int, j2: int| 0 <= i2 < j2 < t.len() implies (#[trigger] t[i2]).id
                != (#[trigger] t[j2]).id by {
                if j2 < t.len() - 1 {
                    assert(t[i2] == s0[i2] && t[j2] == s0[j2]);
                } else {
                    assert(t[i2] == s0[i2] && t[j2] == rowg@);
                }
            }
            assert forall|i2: int| 0 <= i2 < t.len() implies has_event(
                self.events_v(),
                (#[trigger] t[i2]).event_id,
            ) by {
                if i2 < t.len() - 1 {
                    assert(t[i2] == s0[i2]);
                } else {
                    assert(t[i2] == rowg@);
                }
            }
        }
        Ok(resp)
    }

    /// Look up a file row by id, or `NotFound` if no row matches.
    pub fn get_file(&self, file_id: u128) -> (r: Result<&EventFile, ApiError>)
        requires
            self.wf(),
        ensures
            match r {
                Ok(f) => has_file(self.files_v(), file_id) && f@ == file_with_id(
                    self.files_v(),
                    file_id,
                ) && f@.id == file_id,
                Err(e) => e == ApiError::NotFound && !has_file(self.files_v(), file_id),
            },
    {
        let n = self.files.len();
        let mut i: usize = 0;
        while i < n
            invariant
                n == self.files.len(),
                0 <= i <= n,
                self.wf(),
                forall|k: int| 0 <= k < i ==> (#[trigger] self.files_v()[k]).id != file_id,
            decreases n - i,
        {
            if self.files[i].id == file_id {
                proof {
                    lemma_file_at_index(self.files_v(), i as int);
                }
                return Ok(&self.files[i]);
            }
            i = i + 1;
        }
        Err(ApiError::NotFound)
    }

    /// The aggregate view: the event itself, its files newest first and its
    /// notes oldest first; `NotFound` when the event does not exist. An
    /// event with no files and no notes yields two empty lists.
    pub fn get_event_details(&self, event_id: u128) -> (r: Result<EventWithDetails, ApiError>)
        requires
            self.wf(),
        ensures
            match r {
                Ok(d) => {
                    &&& has_event(self.events_v(), event_id)
                    &&& d.event@ == event_with_id(self.events_v(), event_id)
                    &&& d.files.deep_view() == files_for(self.files_v(), event_id).reverse()
                    &&& d.notes.deep_view() == notes_for(self.notes_v(), event_id)
                },
                Err(e) => e == ApiError::NotFound && !has_event(self.events_v(), event_id),
            },
    {
        let ev = match self.get_event(event_id) {
            Ok(e) => clone_event(e),
            Err(_) => {
                return Err(ApiError::NotFound);
            },
        };
        let files = self.get_files(event_id);
        let notes = self.get_notes(event_id);
        Ok(EventWithDetails { event: ev, files, notes })
    }
}

/// A Create payload is valid when the required title is non-empty and both
/// timestamps parse.
pub open spec fn create_valid(r: CreateEventV) -> bool {
    &&& r.title.len() > 0
    &&& ts_millis(r.start_time) is Some
    &&& ts_millis(r.end_time) is Some
}

/// The event a valid Create payload produces: client fields taken as sent,
/// priority defaulted to `"medium"` when absent, both server timestamps set
/// to the creation instant.
pub open spec fn created_event(r: CreateEventV, id: u128, now: int) -> EventV {
    EventV {
        id: id,
        title: r.title,
        description: r.description,
        course: r.course,
        event_type: r.event_type,
        start_time: ts_millis(r.start_time)->Some_0,
        end_time: ts_millis(r.end_time)->Some_0,
        location: r.location,
        instructor: r.instructor,
        priority: match r.priority {
            Some(p) => p,
            None => "medium"@,
        },
        created_at: now,
        updated_at: now,
    }
}

fn clone_string(s: &String) -> (r: String)
    ensures
        r@ == s@,
{
    s.as_str().to_owned()
}

fn clone_opt_string(o: &Option<String>) -> (r: Option<String>)
    ensures
        r.deep_view() == o.deep_view(),
{
    match o {
        Some(s) => Some(clone_string(s)),
        None => None,
    }
}

fn clone_event(e: &Event) -> (r: Event)
    ensures
        r@ == e@,
{
    Event {
        id: e.id,
        title: clone_string(&e.title),
        description: clone_opt_string(&e.description),
        course: clone_opt_string(&e.course),
        event_type: clone_string(&e.event_type),
        start_time: e.start_time,
        end_time: e.end_time,
        location: clone_opt_string(&e.location),
        instructor: clone_opt_string(&e.instructor),
        priority: clone_string(&e.priority),
        created_at: e.created_at,
        updated_at: e.updated_at,
    }
}

fn evt_before(a: &Event, b: &Event) -> (r: bool)
    ensures
        r == evt_lt(a@, b@),
{
    a.start_time < b.start_time || (a.start_time == b.start_time && a.id < b.id)
}

proof fn lemma_dv_insert<T: DeepView>(a: Vec<T>, b: Vec<T>, p: int, x: T)
    requires
        0 <= p <= a@.len(),
        b@ == a@.insert(p, x),
    ensures
        b.deep_view() == a.deep_view().insert(p, x.deep_view()),
{
    a@.insert_ensures(p, x);
    a.deep_view().insert_ensures(p, x.deep_view());
    assert(b.deep_view() =~= a.deep_view().insert(p, x.deep_view()));
}

proof fn lemma_dv_push<T: DeepView>(a: Vec<T>, b: Vec<T>, x: T)
    requires
        b@ == a@.push(x),
    ensures
        b.deep_view() == a.deep_view().push(x.deep_view()),
{
    assert(b.deep_view() =~= a.deep_view().push(x.deep_view()));
}

/// Inserting an event with a fresh id: what becomes of membership, lookup and
/// uniqueness.
proof fn lemma_insert_event_facts(s: Seq<EventV>, p: int, x: EventV)
    requires
        0 <= p <= s.len(),
        unique_event_ids(s),
        !has_event(s, x.id),
    ensures
        unique_event_ids(s.insert(p, x)),
        forall|w: u128| has_event(s.insert(p, x), w) <==> (has_event(s, w) || w == x.id),
        event_with_id(s.insert(p, x), x.id) == x,
        forall|w: u128|
            w != x.id && has_event(s, w) ==> event_with_id(s.insert(p, x), w) == event_with_id(
                s,
                w,
            ),
{
    s.insert_ensures(p, x);
    let t = s.insert(p, x);
    assert(forall|i: int| 0 <= i < s.len() ==> (#[trigger] s[i]).id != x.id);
    assert forall|i: int| 0 <= i < t.len() implies (#[trigger] t[i]) == (if i < p {
        s[i]
    } else if i == p {
        x
    } else {
        s[i - 1]
    }) by {
        if i > p {
            assert(t[(i - 1) + 1] == s[i - 1]);
        }
    }
    assert forall|w: u128| has_event(t, w) implies (has_event(s, w) || w == x.id) by {
        let i = choose|i: int| 0 <= i < t.len() && (#[trigger] t[i]).id == w;
        if i < p {
            assert(s[i].id == w);
        } else if i > p {
            assert(s[i - 1].id == w);
        }
    }
    assert forall|w: u128| has_event(s, w) implies has_event(t, w) by {
        let i = choose|i: int| 0 <= i < s.len() && (#[trigger] s[i]).id == w;
        if i < p {
            assert(t[i].id == w);
        } else {
            assert(t[i + 1].id == w);
        }
    }
    assert(t[p] == x && t[p].id == x.id);
    assert(has_event(t, x.id));
    let q = choose|i: int| 0 <= i < t.len() && (#[trigger] t[i]).id == x.id;
    assert(t[q].id == x.id);
    assert(q == p);
    assert(event_with_id(t, x.id) == x);
    assert forall|w: u128| w != x.id && has_event(s, w) implies event_with_id(t, w)
        == event_with_id(s, w) by {
        let i0 = choose|i: int| 0 <= i < s.len() && (#[trigger] s[i]).id == w;
        let j = if i0 < p {
            i0
        } else {
            i0 + 1
        };
        assert(t[j].id == w);
        let jq = choose|i: int| 0 <= i < t.len() && (#[trigger] t[i]).id == w;
        assert(t[jq].id == w);
        if jq != j {
            assert(t[jq].id != t[j].id || jq == j) by {
                if jq < j {
                    assert(t[jq].id != t[j].id);
                } else if j < jq {
                    assert(t[j].id != t[jq].id);
                }
            }
        }
        let iq = choose|i: int| 0 <= i < s.len() && (#[trigger] s[i]).id == w;
        assert(s[iq].id == w);
        if iq != i0 {
            if iq < i0 {
                assert(s[iq].id != s[i0].id);
            } else {
                assert(s[i0].id != s[iq].id);
            }
        }
        assert(event_with_id(t, w) == t[j]);
        assert(event_with_id(s, w) == s[i0]);
    }
}

/// Insert an event with a fresh id at its place in the listing order.
fn insert_sorted(v: &mut Vec<Event>, ev: Event)
    requires
        sorted_by_start(old(v).deep_view()),
        unique_event_ids(old(v).deep_view()),
        !has_event(old(v).deep_view(), ev@.id),
    ensures
        final(v).deep_view().len() == old(v).deep_view().len() + 1,
        sorted_by_start(final(v).deep_view()),
        unique_event_ids(final(v).deep_view()),
        forall|w: u128|
            has_event(final(v).deep_view(), w) <==> (has_event(old(v).deep_view(), w) || w
                == ev@.id),
        event_with_id(final(v).deep_view(), ev@.id) == ev@,
        forall|w: u128|
            w != ev@.id && has_event(old(v).deep_view(), w) ==> event_with_id(
                final(v).deep_view(),
                w,
            ) == event_with_id(old(v).deep_view(), w),
        exists|p: int|
            0 <= p <= old(v).deep_view().len() && final(v).deep_view() == old(v).deep_view().insert(
                p,
                ev@,
            ),
{
    let ghost dv0 = v.deep_view();
    let n = v.len();
    let mut p: usize = 0;
    while p < n && evt_before(&v[p], &ev)
        invariant
            0 <= p <= n,
            n == v@.len(),
            dv0 == v.deep_view(),
            forall|k: int| 0 <= k < p ==> evt_lt(#[trigger] dv0[k], ev@),
        decreases n - p,
    {
        p = p + 1;
    }
    proof {
        assert(dv0.len() == v@.len());
        if (p as int) < dv0.len() {
            assert(!evt_lt(dv0[p as int], ev@));
            assert(dv0[p as int].id != ev@.id) by {
                assert(forall|i: int|
                    0 <= i < dv0.len() ==> (#[trigger] dv0[i]).id != ev@.id);
            }
            assert(evt_lt(ev@, dv0[p as int]));
        }
    }
    let ghost vsnap = *v;
    let ghost evg = ev;
    v.insert(p, ev);
    proof {
        lemma_dv_insert(vsnap, *v, p as int, evg);
        lemma_insert_event_facts(dv0, p as int, evg@);
        dv0.insert_ensures(p as int, evg@);
        let t = v.deep_view();
        assert forall|i: int, j: int| 0 <= i < j < t.len() implies evt_lt(t[i], t[j]) by {
            let pi = p as int;
            if j < pi {
                assert(t[i] == dv0[i] && t[j] == dv0[j]);
            } else if i < pi && j == pi {
                assert(t[i] == dv0[i] && t[j] == evg@);
            } else if i < pi && j > pi {
                assert(t[i] == dv0[i] && t[(j - 1) + 1] == dv0[j - 1]);
                assert(i < j - 1);
                assert(evt_lt(dv0[i], dv0[j - 1]));
                assert(t[j] == dv0[j - 1]);
            } else if i == pi {
                assert(t[i] == evg@);
                assert(t[(j - 1) + 1] == dv0[j - 1]);
                assert(j - 1 >= pi);
                if j - 1 == pi {
                    assert(evt_lt(evg@, dv0[pi]));
                } else {
                    assert(evt_lt(evg@, dv0[pi]) && evt_lt(dv0[pi], dv0[j - 1]));
                }
            } else {
                assert(t[(i - 1) + 1] == dv0[i - 1] && t[(j - 1) + 1] == dv0[j - 1]);
            }
        }
    }
}

/// An Update payload is valid when each supplied timestamp parses.
pub open spec fn upd_valid(r: UpdateEventV) -> bool {
    &&& match r.start_time {
        Some(s) => ts_millis(s) is Some,
        None => true,
    }
    &&& match r.end_time {
        Some(s) => ts_millis(s) is Some,
        None => true,
    }
}

/// The merge of a patch into a stored event: supplied fields replace stored
/// ones, omitted fields keep their stored values, `updated_at` is refreshed
/// and `id` and `created_at` never change.
pub open spec fn merged(e: EventV, r: UpdateEventV, now: int) -> EventV {
    EventV {
        id: e.id,
        title: match r.title {
            Some(t) => t,
            None => e.title,
        },
        description: match r.description {
            Some(d) => Some(d),
            None => e.description,
        },
        course: match r.course {
            Some(c) => Some(c),
            None => e.course,
        },
        event_type: match r.event_type {
            Some(t) => t,
            None => e.event_type,
        },
        start_time: match r.start_time {
            Some(s) => ts_millis(s)->Some_0,
            None => e.start_time,
        },
        end_time: match r.end_time {
            Some(s) => ts_millis(s)->Some_0,
            None => e.end_time,
        },
        location: match r.location {
            Some(l) => Some(l),
            None => e.location,
        },
        instructor: match r.instructor {
            Some(x) => Some(x),
            None => e.instructor,
        },
        priority: match r.priority {
            Some(p) => p,
            None => e.priority,
        },
        created_at: e.created_at,
        updated_at: now,
    }
}

/// Law: update is idempotent — applying one and the same patch twice leaves
/// every field as one application left it, except `updated_at`, which always
/// takes the instant of the later application.
pub proof fn lemma_update_idempotent(e: EventV, r: UpdateEventV, t1: int, t2: int)
    ensures
        merged(merged(e, r, t1), r, t2) == merged(e, r, t2),
{
}

/// Law: update never touches a field the patch omits, and never changes the
/// id or the creation instant.
pub proof fn lemma_update_preserves_omitted(e: EventV, r: UpdateEventV, now: int)
    ensures
        merged(e, r, now).id == e.id,
        merged(e, r, now).created_at == e.created_at,
        r.title is None ==> merged(e, r, now).title == e.title,
        r.description is None ==> merged(e, r, now).description == e.description,
        r.course is None ==> merged(e, r, now).course == e.course,
        r.event_type is None ==> merged(e, r, now).event_type == e.event_type,
        r.start_time is None ==> merged(e, r, now).start_time == e.start_time,
        r.end_time is None ==> merged(e, r, now).end_time == e.end_time,
        r.location is None ==> merged(e, r, now).location == e.location,
        r.instructor is None ==> merged(e, r, now).instructor == e.instructor,
        r.priority is None ==> merged(e, r, now).priority == e.priority,
{
}

/// The file rows whose event survives a delete of `id`, in stored order.
pub open spec fn files_without(fs: Seq<FileV>, id: u128) -> Seq<FileV> {
    fs.filter(|f: FileV| f.event_id != id)
}

/// The note rows whose event survives a delete of `id`, in stored order.
pub open spec fn notes_without(ns: Seq<NoteV>, id: u128) -> Seq<NoteV> {
    ns.filter(|n: NoteV| n.event_id != id)
}

/// A filtered sequence is made of elements of the original, and filtering
/// keeps keys distinct when they were distinct.
proof fn lemma_filter_unique_by<A>(s: Seq<A>, pred: spec_fn(A) -> bool, key: spec_fn(A) -> u128)
    requires
        forall|i: int, j: int| 0 <= i < j < s.len() ==> key(#[trigger] s[i]) != key(#[trigger] s[j]),
    ensures
        forall|i: int|
            0 <= i < s.filter(pred).len() ==> s.contains(#[trigger] s.filter(pred)[i]),
        forall|i: int, j: int|
            0 <= i < j < s.filter(pred).len() ==> key(#[trigger] s.filter(pred)[i]) != key(
                #[trigger] s.filter(pred)[j],
            ),
    decreases s.len(),
{
    reveal(Seq::filter);
    if s.len() > 0 {
        let butlast = s.drop_last();
        assert(forall|i: int, j: int|
            0 <= i < j < butlast.len() ==> key(#[trigger] butlast[i]) != key(
                #[trigger] butlast[j],
            ));
        lemma_filter_unique_by(butlast, pred, key);
        let t = s.filter(pred);
        let bt = butlast.filter(pred);
        assert forall|i: int| 0 <= i < t.len() implies s.contains(#[trigger] t[i]) by {
            if pred(s.last()) {
                assert(t == bt.push(s.last()));
                if i < bt.len() {
                    assert(butlast.contains(bt[i]));
                    let j = choose|j: int| 0 <= j < butlast.len() && butlast[j] == bt[i];
                    assert(s[j] == t[i]);
                } else {
                    assert(t[i] == s.last());
                    assert(s[s.len() - 1] == s.last());
                }
            } else {
                assert(t == bt);
                assert(butlast.contains(bt[i]));
                let j = choose|j: int| 0 <= j < butlast.len() && butlast[j] == bt[i];
                assert(s[j] == t[i]);
            }
        }
        assert forall|i: int, j: int| 0 <= i < j < t.len() implies key(#[trigger] t[i]) != key(
            #[trigger] t[j],
        ) by {
            if pred(s.last()) {
                assert(t == bt.push(s.last()));
                if j < bt.len() {
                } else {
                    assert(t[j] == s.last());
                    assert(butlast.contains(bt[i]));
                    let m = choose|m: int| 0 <= m < butlast.len() && butlast[m] == bt[i];
                    assert(key(s[m]) != key(s[s.len() - 1]));
                }
            } else {
                assert(t == bt);
            }
        }
    }
}

/// A filter that keeps every element of a sequence changes nothing.
proof fn lemma_filter_all<A>(s: Seq<A>, pred: spec_fn(A) -> bool)
    requires
        forall|i: int| 0 <= i < s.len() ==> pred(#[trigger] s[i]),
    ensures
        s.filter(pred) == s,
    decreases s.len(),
{
    reveal(Seq::filter);
    if s.len() > 0 {
        assert(forall|i: int|
            0 <= i < s.drop_last().len() ==> pred(#[trigger] s.drop_last()[i]));
        lemma_filter_all(s.drop_last(), pred);
        assert(s.filter(pred) =~= s);
    } else {
        assert(s.filter(pred) =~= s);
    }
}

proof fn lemma_dv_remove<T: DeepView>(a: Vec<T>, b: Vec<T>, p: int)
    requires
        0 <= p < a@.len(),
        b@ == a@.remove(p),
    ensures
        b.deep_view() == a.deep_view().remove(p),
{
    a@.remove_ensures(p);
    a.deep_view().remove_ensures(p);
    assert(b.deep_view() =~= a.deep_view().remove(p));
}

/// Removing the event at an index: what becomes of membership, lookup, order
/// and uniqueness.
proof fn lemma_remove_event_facts(s: Seq<EventV>, p: int)
    requires
        0 <= p < s.len(),
        unique_event_ids(s),
    ensures
        unique_event_ids(s.remove(p)),
        sorted_by_start(s) ==> sorted_by_start(s.remove(p)),
        forall|w: u128| has_event(s.remove(p), w) <==> (has_event(s, w) && w != s[p].id),
        forall|w: u128|
            w != s[p].id && has_event(s, w) ==> event_with_id(s.remove(p), w) == event_with_id(
                s,
                w,
            ),
{
    s.remove_ensures(p);
    let t = s.remove(p);
    assert forall|i: int| 0 <= i < t.len() implies (#[trigger] t[i]) == (if i < p {
        s[i]
    } else {
        s[i + 1]
    }) by {}
    assert forall|w: u128| has_event(t, w) implies (has_event(s, w) && w != s[p].id) by {
        let i = choose|i: int| 0 <= i < t.len() && (#[trigger] t[i]).id == w;
        if i < p {
            assert(s[i].id == w);
            assert(s[i].id != s[p].id);
        } else {
            assert(s[i + 1].id == w);
            assert(s[p].id != s[i + 1].id);
        }
    }
    assert forall|w: u128| has_event(s, w) && w != s[p].id implies has_event(t, w) by {
        let j = choose|i: int| 0 <= i < s.len() && (#[trigger] s[i]).id == w;
        if j < p {
            assert(t[j].id == w);
        } else {
            assert(j != p);
            assert(t[j - 1] == s[(j - 1) + 1]);
            assert(t[j - 1].id == w);
        }
    }
    assert forall|w: u128| w != s[p].id && has_event(s, w) implies event_with_id(t, w)
        == event_with_id(s, w) by {
        let j = choose|i: int| 0 <= i < s.len() && (#[trigger] s[i]).id == w;
        let j2 = if j < p {
            j
        } else {
            j - 1
        };
        assert(t[j2].id == w);
        let jq = choose|i: int| 0 <= i < t.len() && (#[trigger] t[i]).id == w;
        if jq != j2 {
            if jq < j2 {
                assert(t[jq].id != t[j2].id);
            } else {
                assert(t[j2].id != t[jq].id);
            }
        }
        let iq = choose|i: int| 0 <= i < s.len() && (#[trigger] s[i]).id == w;
        if iq != j {
            if iq < j {
                assert(s[iq].id != s[j].id);
            } else {
                assert(s[j].id != s[iq].id);
            }
        }
        assert(event_with_id(t, w) == t[j2]);
        assert(event_with_id(s, w) == s[j]);
    }
}

fn clone_file(f: &EventFile) -> (r: EventFile)
    ensures
        r@ == f@,
{
    EventFile {
        id: f.id,
        event_id: f.event_id,
        filename: clone_string(&f.filename),
        original_filename: clone_string(&f.original_filename),
        file_size: f.file_size,
        mime_type: clone_string(&f.mime_type),
        uploaded_by: clone_string(&f.uploaded_by),
        created_at: f.created_at,
    }
}

fn clone_note(n: &EventNote) -> (r: EventNote)
    ensures
        r@ == n@,
{
    EventNote {
        id: n.id,
        event_id: n.event_id,
        author_name: clone_string(&n.author_name),
        content: clone_string(&n.content),
        created_at: n.created_at,
        updated_at: n.updated_at,
    }
}

pub open spec fn has_note(s: Seq<NoteV>, id: u128) -> bool {
    exists|i: int| 0 <= i < s.len() && (#[trigger] s[i]).id == id
}

/// The notes of one event, in thread order (oldest first).
pub open spec fn notes_for(ns: Seq<NoteV>, event_id: u128) -> Seq<NoteV> {
    ns.filter(|n: NoteV| n.event_id == event_id)
}

/// The file rows of one event, in upload order (oldest first); listings
/// reverse this.
pub open spec fn files_for(fs: Seq<FileV>, event_id: u128) -> Seq<FileV> {
    fs.filter(|f: FileV| f.event_id == event_id)
}

/// A filter that keeps no element of a sequence leaves nothing.
proof fn lemma_filter_none<A>(s: Seq<A>, pred: spec_fn(A) -> bool)
    requires
        forall|i: int| 0 <= i < s.len() ==> !pred(#[trigger] s[i]),
    ensures
        s.filter(pred) == Seq::<A>::empty(),
    decreases s.len(),
{
    reveal(Seq::filter);
    if s.len() > 0 {
        assert(forall|i: int|
            0 <= i < s.drop_last().len() ==> !pred(#[trigger] s.drop_last()[i]));
        lemma_filter_none(s.drop_last(), pred);
    }
}

/// Law: an event with no file rows and no notes yields empty detail lists,
/// not an error.
pub proof fn lemma_details_empty(fs: Seq<FileV>, ns: Seq<NoteV>, event_id: u128)
    requires
        forall|i: int| 0 <= i < fs.len() ==> (#[trigger] fs[i]).event_id != event_id,
        forall|i: int| 0 <= i < ns.len() ==> (#[trigger] ns[i]).event_id != event_id,
    ensures
        files_for(fs, event_id).reverse() == Seq::<FileV>::empty(),
        notes_for(ns, event_id) == Seq::<NoteV>::empty(),
{
    lemma_filter_none(fs, |f: FileV| f.event_id == event_id);
    lemma_filter_none(ns, |n: NoteV| n.event_id == event_id);
    assert(Seq::<FileV>::empty().reverse() =~= Seq::<FileV>::empty());
}

/// Law: a newly added note closes its event's thread — the thread grows at
/// the end, and every other thread is untouched.
pub proof fn lemma_note_thread_append(ns: Seq<NoteV>, n: NoteV, event_id: u128)
    ensures
        n.event_id == event_id ==> notes_for(ns.push(n), event_id) == notes_for(
            ns,
            event_id,
        ).push(n),
        n.event_id != event_id ==> notes_for(ns.push(n), event_id) == notes_for(ns, event_id),
{
    reveal(Seq::filter);
    assert(ns.push(n).drop_last() =~= ns);
    assert(ns.push(n).last() == n);
}

/// Law: a newly uploaded file heads its event's newest-first listing, and
/// every other event's listing is untouched.
pub proof fn lemma_file_listing_newest_first(fs: Seq<FileV>, f: FileV, event_id: u128)
    ensures
        f.event_id == event_id ==> files_for(fs.push(f), event_id).reverse() == seq![f]
            + files_for(fs, event_id).reverse(),
        f.event_id != event_id ==> files_for(fs.push(f), event_id).reverse() == files_for(
            fs,
            event_id,
        ).reverse(),
{
    reveal(Seq::filter);
    assert(fs.push(f).drop_last() =~= fs);
    assert(fs.push(f).last() == f);
    if f.event_id == event_id {
        assert(files_for(fs.push(f), event_id) == files_for(fs, event_id).push(f));
        assert(files_for(fs, event_id).push(f).reverse() =~= seq![f] + files_for(
            fs,
            event_id,
        ).reverse());
    }
}

/// With unique ids, the element found at an index is the one `event_with_id`
/// denotes.
proof fn lemma_event_at_index(s: Seq<EventV>, p: int)
    requires
        unique_event_ids(s),
        0 <= p < s.len(),
    ensures
        has_event(s, s[p].id),
        event_with_id(s, s[p].id) == s[p],
{
    assert(has_event(s, s[p].id));
    let q = choose|i: int| 0 <= i < s.len() && (#[trigger] s[i]).id == s[p].id;
    if q != p {
        if q < p {
            assert(s[q].id != s[p].id);
        } else {
            assert(s[p].id != s[q].id);
        }
    }
}

/// With unique ids, the file row found at an index is the one `file_with_id`
/// denotes.
proof fn lemma_file_at_index(s: Seq<FileV>, p: int)
    requires
        unique_file_ids(s),
        0 <= p < s.len(),
    ensures
        has_file(s, s[p].id),
        file_with_id(s, s[p].id) == s[p],
{
    assert(has_file(s, s[p].id));
    let q = choose|i: int| 0 <= i < s.len() && (#[trigger] s[i]).id == s[p].id;
    if q != p {
        if q < p {
            assert(s[q].id != s[p].id);
        } else {
            assert(s[p].id != s[q].id);
        }
    }
}

} // verus!
