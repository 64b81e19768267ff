//! Comments: reader messages attached to one event (read-only here).

use vstd::prelude::*;

use crate::AppError;
use crate::store::Database;
use crate::sums::{filter_where, lemma_filter_where_take_step, lemma_take_all};

verus! {

pub struct Comment {
    pub id: i64,
    pub event_id: i64,
    pub message: String,
}

impl Comment {
    pub fn clone_comment(&self) -> (r: Comment)
        ensures
            r == *self,
    {
        Comment { id: self.id, event_id: self.event_id, message: self.message.clone() }
    }
}

/// Lookup key: the owning event.
pub struct GetCommentData {
    pub event_id: i64,
}

/// Ownership key of comment rows: the parent event.
pub open spec fn comment_of_event_fn(event_id: i64) -> spec_fn(Comment) -> bool {
    |x: Comment| x.event_id == event_id
}

/// The comment rows of `s` owned by the given event, in table order.
pub open spec fn comments_of_event(s: Seq<Comment>, event_id: i64) -> Seq<Comment> {
    filter_where(s, comment_of_event_fn(event_id))
}

/// Retrieves the comment rows of one event.
pub fn fetch_comments(data: GetCommentData, db: &Database) -> (r: Result<Vec<Comment>, AppError>)
    requires
        db.wf(),
    ensures
        r is Ok,
        r->Ok_0@ == comments_of_event(db.comments@, data.event_id),
{
    let ghost s = db.comments@;
    let mut out: Vec<Comment> = Vec::new();
    let n = db.comments.len();
    proof {
        assert(s.take(0) =~= Seq::<Comment>::empty());
    }
    let mut i: usize = 0;
    while i < n
        invariant
            i <= n,
            n == s.len(),
            s == db.comments@,
            out@ == comments_of_event(s.take(i as int), data.event_id),
        decreases n - i,
    {
        proof {
            lemma_filter_where_take_step(s, comment_of_event_fn(data.event_id), i as int);
            assert(comment_of_event_fn(data.event_id)(s[i as int]) == (s[i as int].event_id
                == data.event_id));
        }
        let x = &db.comments[i];
        if x.event_id == data.event_id {
            out.push(x.clone_comment());
        }
        i += 1;
    }
    proof {
        lemma_take_all(s);
    }
    Ok(out)
}

} // verus!
