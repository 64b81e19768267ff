//! Categories: read-only reference data shared across organizers.

use vstd::prelude::*;

use crate::AppError;
use crate::store::Database;

verus! {

pub struct Category {
    pub id: i64,
    pub name: String,
    pub description: String,
}

impl Category {
    pub fn clone_category(&self) -> (r: Category)
        ensures
            r == *self,
    {
        Category { id: self.id, name: self.name.clone(), description: self.description.clone() }
    }
}

/// Retrieves the full category table: shared, read-only reference data.
pub fn fetch_categories(db: &Database) -> (r: Result<Vec<Category>, AppError>)
    requires
        db.wf(),
    ensures
        r is Ok,
        r->Ok_0@ == db.categories@,
{
    let ghost s = db.categories@;
    let mut out: Vec<Category> = Vec::new();
    let n = db.categories.len();
    let mut i: usize = 0;
    while i < n
        invariant
            i <= n,
            n == s.len(),
            s == db.categories@,
            out@ == s.take(i as int),
        decreases n - i,
    {
        out.push(db.categories[i].clone_category());
        proof {
            assert(out@ =~= s.take(i as int + 1));
        }
        i += 1;
    }
    proof {
        assert(s.take(n as int) =~= s);
    }
    Ok(out)
}

/// Handler core of the category list route: categories are shared
/// reference data, listed without authentication.
pub fn get_categories(db: &Database) -> (r: Result<Vec<Category>, AppError>)
    requires
        db.wf(),
    ensures
        r is Ok,
        r->Ok_0@ == db.categories@,
{
    fetch_categories(db)
}

} // verus!
