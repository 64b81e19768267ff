//! The in-memory model of the relational store: one vector per table,
//! identifier counters for the server-assigned keys, and the invariant
//! that every accessor preserves.

use vstd::prelude::*;

use crate::agenda::Agenda;
use crate::attachment::Attachment;
use crate::attendee::Attendee;
use crate::auth::{Session, User};
use crate::category::Category;
use crate::comment::Comment;
use crate::event::Event;
use crate::faq::Faq;
use crate::organizer::Organizer;
use crate::speaker::Speaker;

verus! {

/// The backing store. Accessor functions of the entity modules take a
/// `Database` in place of a pooled storage connection.
pub struct Database {
    pub users: Vec<User>,
    pub sessions: Vec<Session>,
    pub organizers: Vec<Organizer>,
    pub events: Vec<Event>,
    pub agendas: Vec<Agenda>,
    pub speakers: Vec<Speaker>,
    pub faqs: Vec<Faq>,
    pub attachments: Vec<Attachment>,
    pub comments: Vec<Comment>,
    pub categories: Vec<Category>,
    pub attendees: Vec<Attendee>,
    pub next_user_id: i64,
    pub next_session_id: i64,
    pub next_event_id: i64,
    pub next_agenda_id: i64,
    pub next_speaker_id: i64,
    pub next_faq_id: i64,
    pub next_attachment_id: i64,
}

impl Database {
    /// Store invariant: every row is well formed, primary keys are unique
    /// and below their table's counter (so each table holds fewer rows than
    /// that counter), usernames and session tokens are unique.
    pub open spec fn wf(self) -> bool {
        &&& self.users@.len() < self.next_user_id
        &&& self.sessions@.len() < self.next_session_id
        &&& self.events@.len() < self.next_event_id
        &&& self.agendas@.len() < self.next_agenda_id
        &&& self.speakers@.len() < self.next_speaker_id
        &&& self.faqs@.len() < self.next_faq_id
        &&& self.attachments@.len() < self.next_attachment_id
        &&& forall|i: int|
            0 <= i < self.users@.len() ==> 1 <= (#[trigger] self.users@[i]).id
                < self.next_user_id
        &&& forall|i: int, j: int|
            0 <= i < j < self.users@.len() ==> self.users@[i].id != self.users@[j].id
        &&& forall|i: int, j: int|
            0 <= i < j < self.users@.len() ==> self.users@[i].username@
                != self.users@[j].username@
        &&& forall|i: int|
            0 <= i < self.sessions@.len() ==> 1 <= (#[trigger] self.sessions@[i]).id
                < self.next_session_id
        &&& forall|i: int, j: int|
            0 <= i < j < self.sessions@.len() ==> self.sessions@[i].id != self.sessions@[j].id
        &&& forall|i: int, j: int|
            0 <= i < j < self.sessions@.len() ==> self.sessions@[i].token@
                != self.sessions@[j].token@
        &&& forall|i: int, j: int|
            0 <= i < j < self.organizers@.len() ==> self.organizers@[i].id
                != self.organizers@[j].id
        &&& forall|i: int| 0 <= i < self.events@.len() ==> (#[trigger] self.events@[i]).wf()
        &&& forall|i: int|
            0 <= i < self.events@.len() ==> 1 <= (#[trigger] self.events@[i]).id
                < self.next_event_id
        &&& forall|i: int, j: int|
            0 <= i < j < self.events@.len() ==> self.events@[i].id != self.events@[j].id
        &&& forall|i: int|
            0 <= i < self.agendas@.len() ==> 1 <= (#[trigger] self.agendas@[i]).id
                < self.next_agenda_id
        &&& forall|i: int, j: int|
            0 <= i < j < self.agendas@.len() ==> self.agendas@[i].id != self.agendas@[j].id
        &&& forall|i: int|
            0 <= i < self.speakers@.len() ==> 1 <= (#[trigger] self.speakers@[i]).id
                < self.next_speaker_id
        &&& forall|i: int, j: int|
            0 <= i < j < self.speakers@.len() ==> self.speakers@[i].id != self.speakers@[j].id
        &&& forall|i: int|
            0 <= i < self.faqs@.len() ==> 1 <= (#[trigger] self.faqs@[i]).id < self.next_faq_id
        &&& forall|i: int, j: int|
            0 <= i < j < self.faqs@.len() ==> self.faqs@[i].id != self.faqs@[j].id
        &&& forall|i: int|
            0 <= i < self.attachments@.len() ==> 1 <= (#[trigger] self.attachments@[i]).id
                < self.next_attachment_id
        &&& forall|i: int, j: int|
            0 <= i < j < self.attachments@.len() ==> self.attachments@[i].id
                != self.attachments@[j].id
    }

    /// An empty store with all identifier counters at one.
    pub fn new() -> (db: Database)
        ensures
            db.wf(),
            db.users@.len() == 0,
            db.sessions@.len() == 0,
            db.organizers@.len() == 0,
            db.events@.len() == 0,
            db.agendas@.len() == 0,
            db.speakers@.len() == 0,
            db.faqs@.len() == 0,
            db.attachments@.len() == 0,
            db.comments@.len() == 0,
            db.categories@.len() == 0,
            db.attendees@.len() == 0,
            db.next_user_id == 1,
            db.next_session_id == 1,
            db.next_event_id == 1,
            db.next_agenda_id == 1,
            db.next_speaker_id == 1,
            db.next_faq_id == 1,
            db.next_attachment_id == 1,
    {
        Database {
            users: Vec::new(),
            sessions: Vec::new(),
            organizers: Vec::new(),
            events: Vec::new(),
            agendas: Vec::new(),
            speakers: Vec::new(),
            faqs: Vec::new(),
            attachments: Vec::new(),
            comments: Vec::new(),
            categories: Vec::new(),
            attendees: Vec::new(),
            next_user_id: 1,
            next_session_id: 1,
            next_event_id: 1,
            next_agenda_id: 1,
            next_speaker_id: 1,
            next_faq_id: 1,
            next_attachment_id: 1,
        }
    }
}

} // verus!
