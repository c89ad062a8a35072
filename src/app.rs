use crate::ranking::{
    lemma_extending_query_narrows, matcher_agrees, rank_candidates, ranked_view, shows, texts,
    view_entries,
};
use vstd::prelude::*;

verus! {

/// A step of the cursor through the ranked view.
#[derive(Clone, Copy, Debug, PartialEq, Eq, Structural)]
pub enum Direction {
    Up,
    Down,
}

/// The state of one picking session: the candidates, the query typed so far, the
/// ranked view that the query gives, and the cursor into that view.
pub struct App {
    /// Every candidate, in the order in which they were found.
    pub files: Vec<String>,
    /// The candidates of the ranked view, best first.
    pub filtered_files: Vec<String>,
    /// The score of each entry of the ranked view; `None` while the query is empty.
    pub filtered_scores: Vec<Option<i64>>,
    /// The query typed so far.
    pub query: String,
    /// Index of the highlighted entry of the ranked view.
    pub selected: usize,
}

/// Relies on `String::push`: appends one character.
#[verifier::external_body]
fn push_char(s: &mut String, c: char)
    ensures
        final(s)@ == old(s)@.push(c),
{
    s.push(c)
}

/// Relies on `String::pop`: removes and returns the last character, if any.
#[verifier::external_body]
fn pop_char(s: &mut String) -> (r: Option<char>)
    ensures
        old(s)@.len() == 0 ==> r is None && final(s)@ == old(s)@,
        old(s)@.len() > 0 ==> r == Some(old(s)@.last()) && final(s)@ == old(s)@.drop_last(),
{
    s.pop()
}

impl App {
    /// The ranked view: each candidate shown with its score.
    pub open spec fn ranked(&self) -> Seq<(Seq<char>, Option<i64>)> {
        view_entries(self.filtered_files@, self.filtered_scores@)
    }

    /// The cursor lies in the ranked view, or is 0 when the view is empty.
    pub open spec fn cursor_ok(&self) -> bool {
        self.selected == 0 || self.selected < self.filtered_files.len()
    }

    /// The ranked view is the one that the candidates and the query give, the matcher
    /// was seen to score the candidates that hold the query in order, and the cursor
    /// lies in the view.
    pub open spec fn wf(&self) -> bool {
        &&& self.filtered_files.len() == self.filtered_scores.len()
        &&& self.ranked() == ranked_view(texts(self.files@), self.query@)
        &&& matcher_agrees(texts(self.files@), self.query@)
        &&& self.cursor_ok()
    }

    /// `post` is `pre` with the ranked view rebuilt from the candidates and the query
    /// and the cursor back at the top.
    pub open spec fn recomputed(pre: App, post: App) -> bool {
        &&& post.files@ == pre.files@
        &&& post.query@ == pre.query@
        &&& post.wf()
        &&& post.selected == 0
    }

    /// `post` is `pre` with `c` appended to the query, then recomputed.
    pub open spec fn char_inserted(pre: App, post: App, c: char) -> bool {
        &&& post.files@ == pre.files@
        &&& post.query@ == pre.query@.push(c)
        &&& post.wf()
        &&& post.selected == 0
    }

    /// `post` is `pre` with the last character of the query removed, then recomputed.
    pub open spec fn char_removed(pre: App, post: App) -> bool {
        &&& post.files@ == pre.files@
        &&& post.query@ == pre.query@.drop_last()
        &&& post.wf()
        &&& post.selected == 0
    }

    /// Where the cursor goes from `selected` in a view of `len` entries: one step in
    /// `dir`, unless that leaves the view.
    pub open spec fn cursor_after(selected: usize, len: nat, dir: Direction) -> usize {
        match dir {
            Direction::Up => if selected > 0 { (selected - 1) as usize } else { selected },
            Direction::Down => if selected + 1 < len { (selected + 1) as usize } else { selected },
        }
    }

    /// `post` is `pre` with the cursor moved one step in `dir`, within the view.
    pub open spec fn cursor_moved(pre: App, post: App, dir: Direction) -> bool {
        &&& post.files == pre.files
        &&& post.filtered_files == pre.filtered_files
        &&& post.filtered_scores == pre.filtered_scores
        &&& post.query == pre.query
        &&& post.selected == Self::cursor_after(pre.selected, pre.filtered_files.len() as nat, dir)
    }

    /// Rebuilding the view twice in a row, with no edit in between, gives the same
    /// view and cursor as rebuilding it once.
    pub proof fn lemma_recompute_idempotent(a: App, b: App, c: App)
        requires
            Self::recomputed(a, b),
            Self::recomputed(b, c),
        ensures
            c.ranked() == b.ranked(),
            c.selected == b.selected,
            c.query@ == b.query@,
    {
    }

    /// Typing a character never widens the view: the new view has at most as many
    /// entries, each a candidate that the previous view showed.
    pub proof fn lemma_typing_narrows(pre: App, post: App, c: char)
        requires
            pre.wf(),
            Self::char_inserted(pre, post, c),
        ensures
            post.filtered_files.len() <= pre.filtered_files.len(),
            forall|i: int|
                0 <= i < post.filtered_files.len() ==> shows(pre.ranked(), #[trigger] post.ranked()[i].0),
    {
        lemma_extending_query_narrows(texts(pre.files@), pre.query@, c);
    }

    /// Starts a session over `files`: empty query, every candidate shown unscored in
    /// the order it was given in, cursor at the top.
    pub fn new(files: Vec<String>) -> (r: Self)
        ensures
            r.wf(),
            r.files@ == files@,
            r.query@ == Seq::<char>::empty(),
            r.selected == 0,
            r.ranked() == texts(files@).map_values(|f: Seq<char>| (f, None::<i64>)),
    {
        let query = String::new();
        let (filtered_files, filtered_scores) = rank_candidates(&files, &query);
        App { files, filtered_files, filtered_scores, query, selected: 0 }
    }

    /// Rebuilds the ranked view from the candidates and the query, and moves the cursor
    /// to the top.
    pub fn update_filtered_files(&mut self)
        ensures
            Self::recomputed(*old(self), *final(self)),
    {
        let (filtered_files, filtered_scores) = rank_candidates(&self.files, &self.query);
        self.filtered_files = filtered_files;
        self.filtered_scores = filtered_scores;
        self.selected = 0;
    }

    /// Appends `c` to the query and recomputes the view.
    pub fn insert_char(&mut self, c: char)
        ensures
            Self::char_inserted(*old(self), *final(self), c),
    {
        push_char(&mut self.query, c);
        self.update_filtered_files();
    }

    /// Removes the last character of the query and recomputes the view. On an empty
    /// query nothing changes: neither the view nor the cursor.
    pub fn remove_char(&mut self)
        ensures
            old(self).query@.len() == 0 ==> *final(self) == *old(self),
            old(self).query@.len() > 0 ==> Self::char_removed(*old(self), *final(self)),
    {
        if self.query.as_str().unicode_len() == 0 {
            return;
        }
        let _ = pop_char(&mut self.query);
        self.update_filtered_files();
    }

    /// Moves the cursor one step; at either end of the view it stays where it is.
    pub fn move_cursor(&mut self, dir: Direction)
        requires
            old(self).wf(),
        ensures
            Self::cursor_moved(*old(self), *final(self), dir),
            final(self).wf(),
    {
        match dir {
            Direction::Up => {
                if self.selected > 0 {
                    self.selected = self.selected - 1;
                }
            },
            Direction::Down => {
                if self.selected + 1 < self.filtered_files.len() {
                    self.selected = self.selected + 1;
                }
            },
        }
    }

    /// The highlighted candidate, or `None` when the view is empty.
    pub fn current_selection(&self) -> (r: Option<String>)
        ensures
            match r {
                Some(s) => self.selected < self.filtered_files.len() && s@ == self.filtered_files@[self.selected as int]@,
                None => self.selected >= self.filtered_files.len(),
            },
    {
        if self.selected < self.filtered_files.len() {
            Some(self.filtered_files[self.selected].clone())
        } else {
            None
        }
    }
}

} // verus!
