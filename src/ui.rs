use crate::app::App;
use vstd::prelude::*;

verus! {

/// The list of ranked candidates, as the renderer draws it.
pub struct FileList;

/// The query entry field, as the renderer draws it.
pub struct Input;

impl FileList {
    /// The rows to draw: the candidates of the ranked view, best first.
    pub fn rows(app: &App) -> (r: Vec<String>)
        ensures
            r.len() == app.filtered_files.len(),
            forall|k: int| 0 <= k < r.len() ==> #[trigger] r@[k]@ == app.filtered_files@[k]@,
    {
        let mut r: Vec<String> = Vec::new();
        let mut i: usize = 0;
        while i < app.filtered_files.len()
            invariant
                i <= app.filtered_files.len(),
                r.len() == i,
                forall|k: int| 0 <= k < i ==> #[trigger] r@[k]@ == app.filtered_files@[k]@,
            decreases app.filtered_files.len() - i,
        {
            r.push(app.filtered_files[i].clone());
            i += 1;
        }
        r
    }

    /// The row to highlight: the cursor, unless the view is empty.
    pub fn highlighted(app: &App) -> (r: Option<usize>)
        ensures
            r == (if app.filtered_files.len() == 0 {
                None
            } else {
                Some(app.selected)
            }),
    {
        if app.filtered_files.len() == 0 {
            None
        } else {
            Some(app.selected)
        }
    }
}

impl Input {
    /// The text of the entry field: the query typed so far.
    pub fn text(app: &App) -> (r: String)
        ensures
            r@ == app.query@,
    {
        app.query.clone()
    }
}

} // verus!
