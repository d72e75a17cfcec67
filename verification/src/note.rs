//! A note of the diary, and its mathematical view.
use vstd::prelude::*;

verus! {

broadcast use vstd::std_specs::vec::vec_clone_deep_view_proof;

/// A note owned by a user: its text, its folder and tags, its place in the
/// list, its diary date and the reminder set on it.
#[derive(Debug, Clone, PartialEq)]
pub struct Note {
    pub user_id: String,
    pub id: String,
    pub title: String,
    pub content: String,
    pub folder_id: Option<String>,
    pub tag_ids: Vec<String>,
    pub pinned: bool,
    pub starred: bool,
    pub updated_at_ms: i64,
    pub order: i64,
    pub date_ms: i64,
    pub remind_before_hours: Option<i64>,
}

/// A note with its texts seen as character sequences.
pub struct NoteView {
    pub user_id: Seq<char>,
    pub id: Seq<char>,
    pub title: Seq<char>,
    pub content: Seq<char>,
    pub folder_id: Option<Seq<char>>,
    pub tag_ids: Seq<Seq<char>>,
    pub pinned: bool,
    pub starred: bool,
    pub updated_at_ms: i64,
    pub order: i64,
    pub date_ms: i64,
    pub remind_before_hours: Option<i64>,
}

pub open spec fn opt_str_view(o: Option<String>) -> Option<Seq<char>> {
    match o {
        Some(s) => Some(s@),
        None => None,
    }
}

impl View for Note {
    type V = NoteView;

    open spec fn view(&self) -> NoteView {
        NoteView {
            user_id: self.user_id@,
            id: self.id@,
            title: self.title@,
            content: self.content@,
            folder_id: opt_str_view(self.folder_id),
            tag_ids: self.tag_ids.deep_view(),
            pinned: self.pinned,
            starred: self.starred,
            updated_at_ms: self.updated_at_ms,
            order: self.order,
            date_ms: self.date_ms,
            remind_before_hours: self.remind_before_hours,
        }
    }
}

/// A copy of an optional text.
pub fn clone_opt_string(o: &Option<String>) -> (r: Option<String>)
    ensures
        opt_str_view(r) == opt_str_view(*o),
{
    match o {
        Some(s) => Some(s.clone()),
        None => None,
    }
}

/// A copy of a list of texts.
pub fn clone_strings(v: &Vec<String>) -> (r: Vec<String>)
    ensures
        r.deep_view() == v.deep_view(),
        r@ == v@,
{
    let mut r: Vec<String> = Vec::new();
    let mut i: usize = 0;
    while i < v.len()
        invariant
            i <= v.len(),
            r@ == v@.take(i as int),
        decreases v.len() - i,
    {
        r.push(v[i].clone());
        assert(r@ =~= v@.take(i + 1));
        i = i + 1;
    }
    assert(r@ =~= v@);
    assert(r.deep_view() =~= v.deep_view());
    r
}

impl Note {
    /// A field-by-field copy of the note.
    pub fn duplicate(&self) -> (r: Note)
        ensures
            r@ == self@,
    {
        Note {
            user_id: self.user_id.clone(),
            id: self.id.clone(),
            title: self.title.clone(),
            content: self.content.clone(),
            folder_id: clone_opt_string(&self.folder_id),
            tag_ids: clone_strings(&self.tag_ids),
            pinned: self.pinned,
            starred: self.starred,
            updated_at_ms: self.updated_at_ms,
            order: self.order,
            date_ms: self.date_ms,
            remind_before_hours: self.remind_before_hours,
        }
    }
}

} // verus!
