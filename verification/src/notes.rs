//! The notes store: the user's notes, folders and tags, the list filter and
//! search, and the appearance and sync settings.
use vstd::prelude::*;

use crate::clock::{local_ms_at, now_ms, wrap_i64};
use crate::date_math::LocalOffset;
use crate::note::{opt_str_view, Note, NoteView};
use crate::reminders::notes_view;
use crate::sorting::{sort_in_order, sort_ordered, views, Order};
use crate::text::{
    contains_bytes, contains_text, decimal, eq_ignore_ascii_case, eq_ignore_ascii_case_spec,
    lowercase, push_decimal, str_eq, replace_spaces_with_hyphens, spaces_to_hyphens, to_lowercase, trim,
    trim_spec,
};

verus! {

/// The icon of a folder.
#[derive(Debug, Clone, Copy, PartialEq, Eq, Structural)]
pub enum FolderIcon {
    Inbox,
    Briefcase,
    User,
    BookOpen,
    Notebook,
    Archive,
    House,
    Star,
    Heart,
    Settings,
    Calendar,
    Camera,
    Music,
    Code,
    Palette,
    Gift,
    Globe,
    Lock,
    Rocket,
    Bookmark,
}

/// A folder of notes.
#[derive(Debug, Clone, PartialEq)]
pub struct Folder {
    pub user_id: String,
    pub id: String,
    pub name: String,
    pub icon: FolderIcon,
    pub updated_at_ms: i64,
    pub order: i64,
}

/// A tag that notes can carry.
#[derive(Debug, Clone, PartialEq)]
pub struct Tag {
    pub user_id: String,
    pub id: String,
    pub name: String,
    pub updated_at_ms: i64,
    pub order: i64,
}

/// The colour theme.
#[derive(Debug, Clone, Copy, PartialEq, Eq, Structural)]
pub enum Theme {
    Dark,
    Light,
}

impl Default for Theme {
    fn default() -> (r: Theme)
        ensures
            r == Theme::Dark,
    {
        Theme::Dark
    }
}

impl Theme {
    /// The theme's name as the page's `data-theme` attribute takes it.
    pub fn as_str(&self) -> (r: &'static str)
        ensures
            r@ == (match self {
                Theme::Dark => "dark"@,
                Theme::Light => "light"@,
            }),
    {
        match self {
            Theme::Dark => "dark",
            Theme::Light => "light",
        }
    }
}

/// Whether changes are being synced.
#[derive(Debug, Clone, Copy, PartialEq, Eq, Structural)]
pub enum SyncStatus {
    Synced,
    Offline,
}

impl Default for SyncStatus {
    fn default() -> (r: SyncStatus)
        ensures
            r == SyncStatus::Synced,
    {
        SyncStatus::Synced
    }
}

/// The language of the interface.
#[derive(Debug, Clone, Copy, PartialEq, Eq, Structural)]
pub enum Language {
    English,
    Spanish,
}

impl Default for Language {
    fn default() -> (r: Language)
        ensures
            r == Language::English,
    {
        Language::English
    }
}

/// Which notes the list shows.
#[derive(Debug, Clone, PartialEq)]
pub enum NoteFilter {
    All,
    Starred,
    Pinned,
    Folder(String),
    Tag(String),
}

/// What the title of the note list names: a fixed heading, or a text.
#[derive(Debug, Clone, PartialEq)]
pub enum FilterTitle {
    AllNotes,
    Starred,
    Pinned,
    Text(String),
}

/// The part of the store that is saved between sessions.
#[derive(Debug, Clone)]
pub struct PersistedState {
    pub notes: Vec<Note>,
    pub folders: Vec<Folder>,
    pub tags: Vec<Tag>,
    pub theme: Theme,
    pub accent: String,
    pub language: Language,
    pub sync: SyncStatus,
    pub next_id: u32,
}

/// The notes store of the signed-in user.  Notes, folders and tags of other
/// users may be held too; every query and edit only sees those of `user_id`.
pub struct NotesStore {
    pub user_id: String,
    pub notes: Vec<Note>,
    pub folders: Vec<Folder>,
    pub tags: Vec<Tag>,
    pub filter: NoteFilter,
    pub search: String,
    pub theme: Theme,
    pub accent: String,
    pub language: Language,
    pub sync: SyncStatus,
    pub next_id: u32,
}

// ---------------------------------------------------------------------------
// Views
// ---------------------------------------------------------------------------
pub struct FolderView {
    pub user_id: Seq<char>,
    pub id: Seq<char>,
    pub name: Seq<char>,
    pub icon: FolderIcon,
    pub updated_at_ms: i64,
    pub order: i64,
}

pub struct TagView {
    pub user_id: Seq<char>,
    pub id: Seq<char>,
    pub name: Seq<char>,
    pub updated_at_ms: i64,
    pub order: i64,
}

pub enum FilterView {
    All,
    Starred,
    Pinned,
    InFolder(Seq<char>),
    WithTag(Seq<char>),
}

impl View for Folder {
    type V = FolderView;

    open spec fn view(&self) -> FolderView {
        FolderView {
            user_id: self.user_id@,
            id: self.id@,
            name: self.name@,
            icon: self.icon,
            updated_at_ms: self.updated_at_ms,
            order: self.order,
        }
    }
}

impl View for Tag {
    type V = TagView;

    open spec fn view(&self) -> TagView {
        TagView {
            user_id: self.user_id@,
            id: self.id@,
            name: self.name@,
            updated_at_ms: self.updated_at_ms,
            order: self.order,
        }
    }
}

impl View for NoteFilter {
    type V = FilterView;

    open spec fn view(&self) -> FilterView {
        match self {
            NoteFilter::All => FilterView::All,
            NoteFilter::Starred => FilterView::Starred,
            NoteFilter::Pinned => FilterView::Pinned,
            NoteFilter::Folder(id) => FilterView::InFolder(id@),
            NoteFilter::Tag(id) => FilterView::WithTag(id@),
        }
    }
}

pub open spec fn folders_view(s: Seq<Folder>) -> Seq<FolderView> {
    s.map_values(|f: Folder| f@)
}

pub open spec fn tags_view(s: Seq<Tag>) -> Seq<TagView> {
    s.map_values(|t: Tag| t@)
}

// ---------------------------------------------------------------------------
// Ownership and lookups, stated directly.
// ---------------------------------------------------------------------------
/// The notes of user `uid`, in store order.
pub open spec fn owned_notes_spec(s: Seq<NoteView>, uid: Seq<char>) -> Seq<NoteView>
    decreases s.len(),
{
    if s.len() == 0 {
        s
    } else if s.last().user_id == uid {
        owned_notes_spec(s.drop_last(), uid).push(s.last())
    } else {
        owned_notes_spec(s.drop_last(), uid)
    }
}

/// The folders of user `uid`, in store order.
pub open spec fn owned_folders_spec(s: Seq<FolderView>, uid: Seq<char>) -> Seq<FolderView>
    decreases s.len(),
{
    if s.len() == 0 {
        s
    } else if s.last().user_id == uid {
        owned_folders_spec(s.drop_last(), uid).push(s.last())
    } else {
        owned_folders_spec(s.drop_last(), uid)
    }
}

/// The tags of user `uid`, in store order.
pub open spec fn owned_tags_spec(s: Seq<TagView>, uid: Seq<char>) -> Seq<TagView>
    decreases s.len(),
{
    if s.len() == 0 {
        s
    } else if s.last().user_id == uid {
        owned_tags_spec(s.drop_last(), uid).push(s.last())
    } else {
        owned_tags_spec(s.drop_last(), uid)
    }
}

/// Position of the first element of `s` that satisfies `p`.
#[verifier::opaque]
pub open spec fn first_match<V>(s: Seq<V>, p: spec_fn(V) -> bool) -> Option<int> {
    if exists|i: int| 0 <= i < s.len() && p(s[i]) {
        Some(choose|i: int| 0 <= i < s.len() && p(s[i]) && forall|j: int| 0 <= j < i ==> !p(s[j]))
    } else {
        None
    }
}

pub proof fn lemma_first_match_some<V>(s: Seq<V>, p: spec_fn(V) -> bool, i: int)
    requires
        0 <= i < s.len(),
        p(s[i]),
        forall|j: int| 0 <= j < i ==> !p(s[j]),
    ensures
        first_match(s, p) == Some(i),
{
    reveal(first_match);
    let k = choose|k: int| 0 <= k < s.len() && p(s[k]) && forall|j: int| 0 <= j < k ==> !p(s[j]);
    assert(0 <= k < s.len() && p(s[k]) && forall|j: int| 0 <= j < k ==> !p(s[j]));
    if k < i {
        assert(!p(s[k]));
    } else if i < k {
        assert(!p(s[i]));
    }
}

pub proof fn lemma_first_match_none<V>(s: Seq<V>, p: spec_fn(V) -> bool)
    requires
        forall|j: int| 0 <= j < s.len() ==> !p(s[j]),
    ensures
        first_match(s, p) is None,
{
    reveal(first_match);
}

pub proof fn lemma_first_match_facts<V>(s: Seq<V>, p: spec_fn(V) -> bool)
    ensures
        match first_match(s, p) {
            Some(k) => 0 <= k < s.len() && p(s[k]) && forall|j: int| 0 <= j < k ==> !p(#[trigger] s[j]),
            None => forall|j: int| 0 <= j < s.len() ==> !p(#[trigger] s[j]),
        },
{
    reveal(first_match);
    if exists|i: int| 0 <= i < s.len() && p(s[i]) {
        let i = choose|i: int| 0 <= i < s.len() && p(s[i]);
        lemma_first_exists(s, p, i);
    }
}

proof fn lemma_first_exists<V>(s: Seq<V>, p: spec_fn(V) -> bool, i: int)
    requires
        0 <= i < s.len(),
        p(s[i]),
    ensures
        exists|k: int| 0 <= k < s.len() && p(s[k]) && forall|j: int| 0 <= j < k ==> !p(s[j]),
    decreases i,
{
    if exists|j: int| 0 <= j < i && p(s[j]) {
        let j = choose|j: int| 0 <= j < i && p(s[j]);
        lemma_first_exists(s, p, j);
    } else {
        assert(forall|j: int| 0 <= j < i ==> !p(s[j]));
    }
}

/// The note `id` of user `uid`.
pub open spec fn is_note(id: Seq<char>, uid: Seq<char>) -> spec_fn(NoteView) -> bool {
    |n: NoteView| n.id == id && n.user_id == uid
}

pub open spec fn is_folder(id: Seq<char>, uid: Seq<char>) -> spec_fn(FolderView) -> bool {
    |f: FolderView| f.id == id && f.user_id == uid
}


/// Number of elements of `s` that satisfy `p`.
pub open spec fn count_where<V>(s: Seq<V>, p: spec_fn(V) -> bool) -> nat
    decreases s.len(),
{
    if s.len() == 0 {
        0
    } else {
        count_where(s.drop_last(), p) + if p(s.last()) {
            1nat
        } else {
            0nat
        }
    }
}

/// The elements of `s` that satisfy `p`, in order.
pub open spec fn keep_where<V>(s: Seq<V>, p: spec_fn(V) -> bool) -> Seq<V>
    decreases s.len(),
{
    if s.len() == 0 {
        s
    } else if p(s.last()) {
        keep_where(s.drop_last(), p).push(s.last())
    } else {
        keep_where(s.drop_last(), p)
    }
}

/// An element is kept exactly when it is in the sequence and satisfies `p`.
pub proof fn lemma_keep_where_contains<V>(s: Seq<V>, p: spec_fn(V) -> bool, x: V)
    ensures
        keep_where(s, p).contains(x) <==> (s.contains(x) && p(x)),
    decreases s.len(),
{
    if s.len() > 0 {
        let prev = s.drop_last();
        lemma_keep_where_contains(prev, p, x);
        let k = keep_where(prev, p);
        if s.contains(x) && x != s.last() {
            let i = choose|i: int| 0 <= i < s.len() && s[i] == x;
            assert(prev[i] == x);
        }
        if prev.contains(x) {
            let i = choose|i: int| 0 <= i < prev.len() && prev[i] == x;
            assert(s[i] == x);
        }
        if p(s.last()) {
            let t = k.push(s.last());
            if t.contains(x) {
                let i = choose|i: int| 0 <= i < t.len() && t[i] == x;
                if i < k.len() {
                    assert(k[i] == x);
                }
            }
            if k.contains(x) {
                let i = choose|i: int| 0 <= i < k.len() && k[i] == x;
                assert(t[i] == x);
            }
            assert(t[k.len() as int] == s.last());
            assert(s[s.len() - 1] == s.last());
        } else {
            assert(s[s.len() - 1] == s.last());
        }
    }
}

pub open spec fn in_folder(folder_id: Seq<char>) -> spec_fn(NoteView) -> bool {
    |n: NoteView| n.folder_id == Some(folder_id)
}

pub open spec fn has_tag(tag_id: Seq<char>) -> spec_fn(NoteView) -> bool {
    |n: NoteView| n.tag_ids.contains(tag_id)
}

pub open spec fn is_starred() -> spec_fn(NoteView) -> bool {
    |n: NoteView| n.starred
}

pub open spec fn is_pinned() -> spec_fn(NoteView) -> bool {
    |n: NoteView| n.pinned
}

/// Whether a note passes the list filter.
pub open spec fn passes_filter(f: FilterView, n: NoteView) -> bool {
    match f {
        FilterView::All => true,
        FilterView::Starred => n.starred,
        FilterView::Pinned => n.pinned,
        FilterView::InFolder(id) => n.folder_id == Some(id),
        FilterView::WithTag(id) => n.tag_ids.contains(id),
    }
}

/// Whether a note matches the search: an empty query matches everything,
/// otherwise the lowercased title or content contains the lowercased query.
pub open spec fn matches_search(query: Seq<char>, n: NoteView) -> bool {
    let q = lowercase(query);
    q.len() == 0 || contains_bytes(
        vstd::utf8::encode_utf8(lowercase(n.title)),
        vstd::utf8::encode_utf8(q),
    ) || contains_bytes(vstd::utf8::encode_utf8(lowercase(n.content)), vstd::utf8::encode_utf8(q))
}

/// The notes the list shows, before ordering.
pub open spec fn is_visible(f: FilterView, query: Seq<char>) -> spec_fn(NoteView) -> bool {
    |n: NoteView| passes_filter(f, n) && matches_search(query, n)
}

// ---------------------------------------------------------------------------
// Orders
// ---------------------------------------------------------------------------
/// Pinned notes first, then the most recently ordered.
pub struct PinnedThenRecent;

impl Order<Note> for PinnedThenRecent {
    open spec fn le(a: NoteView, b: NoteView) -> bool {
        (a.pinned && !b.pinned) || (a.pinned == b.pinned && a.order >= b.order)
    }

    fn exec_le(a: &Note, b: &Note) -> (r: bool) {
        (a.pinned && !b.pinned) || (a.pinned == b.pinned && a.order >= b.order)
    }
}

/// Folders by their `order` field, ascending.
pub struct FolderByOrder;

impl Order<Folder> for FolderByOrder {
    open spec fn le(a: FolderView, b: FolderView) -> bool {
        a.order <= b.order
    }

    fn exec_le(a: &Folder, b: &Folder) -> (r: bool) {
        a.order <= b.order
    }
}

/// Tags by their `order` field, ascending.
pub struct TagByOrder;

impl Order<Tag> for TagByOrder {
    open spec fn le(a: TagView, b: TagView) -> bool {
        a.order <= b.order
    }

    fn exec_le(a: &Tag, b: &Tag) -> (r: bool) {
        a.order <= b.order
    }
}

// ---------------------------------------------------------------------------
// Copies
// ---------------------------------------------------------------------------
impl Folder {
    /// A field-by-field copy.
    pub fn duplicate(&self) -> (r: Folder)
        ensures
            r@ == self@,
    {
        Folder {
            user_id: self.user_id.clone(),
            id: self.id.clone(),
            name: self.name.clone(),
            icon: self.icon,
            updated_at_ms: self.updated_at_ms,
            order: self.order,
        }
    }
}

impl Tag {
    /// A field-by-field copy.
    pub fn duplicate(&self) -> (r: Tag)
        ensures
            r@ == self@,
    {
        Tag {
            user_id: self.user_id.clone(),
            id: self.id.clone(),
            name: self.name.clone(),
            updated_at_ms: self.updated_at_ms,
            order: self.order,
        }
    }
}

impl NoteFilter {
    /// A copy of the filter.
    pub fn duplicate(&self) -> (r: NoteFilter)
        ensures
            r@ == self@,
    {
        match self {
            NoteFilter::All => NoteFilter::All,
            NoteFilter::Starred => NoteFilter::Starred,
            NoteFilter::Pinned => NoteFilter::Pinned,
            NoteFilter::Folder(id) => NoteFilter::Folder(id.clone()),
            NoteFilter::Tag(id) => NoteFilter::Tag(id.clone()),
        }
    }
}


/// The accent colours the settings offer; the first is the default.
pub const ACCENT_SWATCHES: [&'static str; 6] = ["#9184d9", "#84a7d9", "#7db8a0", "#d99184", "#c9a24b", "#c58fd0"];

// ---------------------------------------------------------------------------
// Queries
// ---------------------------------------------------------------------------
impl NotesStore {
    /// A store with nothing in it: no user, no notes, folders or tags, all
    /// notes listed, no search, dark theme, the first accent colour, the
    /// default language, synced, and identifiers starting at 1.
    pub fn empty() -> (r: Self)
        ensures
            r.user_id@ == Seq::<char>::empty(),
            r.notes@.len() == 0,
            r.folders@.len() == 0,
            r.tags@.len() == 0,
            r.filter@ == FilterView::All,
            r.search@ == Seq::<char>::empty(),
            r.theme == Theme::Dark,
            r.accent@ == "#9184d9"@,
            r.language == Language::English,
            r.sync == SyncStatus::Synced,
            r.next_id == 1,
    {
        NotesStore {
            user_id: String::new(),
            notes: Vec::new(),
            folders: Vec::new(),
            tags: Vec::new(),
            filter: NoteFilter::All,
            search: String::new(),
            theme: Theme::Dark,
            accent: "#9184d9".to_owned(),
            language: Language::English,
            sync: SyncStatus::Synced,
            next_id: 1,
        }
    }

    /// The signed-in user.
    pub fn user_id(&self) -> (r: String)
        ensures
            r@ == self.user_id@,
    {
        self.user_id.clone()
    }

    /// The signed-in user, read without subscribing to changes.
    pub fn peek_user_id(&self) -> (r: String)
        ensures
            r@ == self.user_id@,
    {
        self.user_id.clone()
    }

    /// Switches the store to another user.
    pub fn set_user(&mut self, user_id: String)
        ensures
            final(self).user_id == user_id,
            final(self).notes == old(self).notes,
            final(self).folders == old(self).folders,
            final(self).tags == old(self).tags,
            final(self).filter == old(self).filter,
            final(self).search == old(self).search,
            final(self).theme == old(self).theme,
            final(self).accent == old(self).accent,
            final(self).language == old(self).language,
            final(self).sync == old(self).sync,
            final(self).next_id == old(self).next_id,
    {
        self.user_id = user_id;
    }

    fn owned_notes(&self) -> (r: Vec<Note>)
        ensures
            notes_view(r@) == owned_notes_spec(notes_view(self.notes@), self.user_id@),
    {
        let ghost nv = notes_view(self.notes@);
        let mut out: Vec<Note> = Vec::new();
        let mut i: usize = 0;
        while i < self.notes.len()
            invariant
                i <= self.notes.len(),
                nv == notes_view(self.notes@),
                notes_view(out@) == owned_notes_spec(nv.take(i as int), self.user_id@),
            decreases self.notes.len() - i,
        {
            let note = &self.notes[i];
            assert(nv.take(i + 1).drop_last() =~= nv.take(i as int));
            assert(nv.take(i + 1).last() == note@);
            if note.user_id == self.user_id {
                out.push(note.duplicate());
                assert(notes_view(out@) =~= owned_notes_spec(nv.take(i + 1), self.user_id@));
            }
            i = i + 1;
        }
        assert(nv.take(self.notes.len() as int) =~= nv);
        out
    }

    fn owned_folders(&self) -> (r: Vec<Folder>)
        ensures
            folders_view(r@) == owned_folders_spec(folders_view(self.folders@), self.user_id@),
    {
        let ghost fv = folders_view(self.folders@);
        let mut out: Vec<Folder> = Vec::new();
        let mut i: usize = 0;
        while i < self.folders.len()
            invariant
                i <= self.folders.len(),
                fv == folders_view(self.folders@),
                folders_view(out@) == owned_folders_spec(fv.take(i as int), self.user_id@),
            decreases self.folders.len() - i,
        {
            let folder = &self.folders[i];
            assert(fv.take(i + 1).drop_last() =~= fv.take(i as int));
            assert(fv.take(i + 1).last() == folder@);
            if folder.user_id == self.user_id {
                out.push(folder.duplicate());
                assert(folders_view(out@) =~= owned_folders_spec(fv.take(i + 1), self.user_id@));
            }
            i = i + 1;
        }
        assert(fv.take(self.folders.len() as int) =~= fv);
        out
    }

    fn owned_tags(&self) -> (r: Vec<Tag>)
        ensures
            tags_view(r@) == owned_tags_spec(tags_view(self.tags@), self.user_id@),
    {
        let ghost tv = tags_view(self.tags@);
        let mut out: Vec<Tag> = Vec::new();
        let mut i: usize = 0;
        while i < self.tags.len()
            invariant
                i <= self.tags.len(),
                tv == tags_view(self.tags@),
                tags_view(out@) == owned_tags_spec(tv.take(i as int), self.user_id@),
            decreases self.tags.len() - i,
        {
            let tag = &self.tags[i];
            assert(tv.take(i + 1).drop_last() =~= tv.take(i as int));
            assert(tv.take(i + 1).last() == tag@);
            if tag.user_id == self.user_id {
                out.push(tag.duplicate());
                assert(tags_view(out@) =~= owned_tags_spec(tv.take(i + 1), self.user_id@));
            }
            i = i + 1;
        }
        assert(tv.take(self.tags.len() as int) =~= tv);
        out
    }

    /// The user's notes, in store order, read without subscribing to changes.
    pub fn peek_notes(&self) -> (r: Vec<Note>)
        ensures
            notes_view(r@) == owned_notes_spec(notes_view(self.notes@), self.user_id@),
    {
        self.owned_notes()
    }

    /// The user's notes, in store order.
    pub fn all_notes(&self) -> (r: Vec<Note>)
        ensures
            notes_view(r@) == owned_notes_spec(notes_view(self.notes@), self.user_id@),
    {
        self.owned_notes()
    }

    /// The user's folders, by their order field (ties in store order).
    pub fn folders(&self) -> (r: Vec<Folder>)
        ensures
            folders_view(r@) == sort_ordered::<Folder, FolderByOrder>(
                owned_folders_spec(folders_view(self.folders@), self.user_id@),
            ),
    {
        let owned = self.owned_folders();
        let r = sort_in_order::<Folder, FolderByOrder>(owned);
        assert(views(r@) =~= folders_view(r@));
        assert(views(owned@) =~= folders_view(owned@));
        r
    }

    /// The user's tags, by their order field (ties in store order).
    pub fn tags(&self) -> (r: Vec<Tag>)
        ensures
            tags_view(r@) == sort_ordered::<Tag, TagByOrder>(
                owned_tags_spec(tags_view(self.tags@), self.user_id@),
            ),
    {
        let owned = self.owned_tags();
        let r = sort_in_order::<Tag, TagByOrder>(owned);
        assert(views(r@) =~= tags_view(r@));
        assert(views(owned@) =~= tags_view(owned@));
        r
    }
}


pub open spec fn tag_id_is(id: Seq<char>) -> spec_fn(TagView) -> bool {
    |t: TagView| t.id == id
}

pub open spec fn folder_id_is(id: Seq<char>) -> spec_fn(FolderView) -> bool {
    |f: FolderView| f.id == id
}

pub open spec fn note_id_is(id: Seq<char>) -> spec_fn(NoteView) -> bool {
    |n: NoteView| n.id == id
}

/// The name of the first tag with id `id` among `tags`.
pub open spec fn tag_name_in(tags: Seq<TagView>, id: Seq<char>) -> Option<Seq<char>> {
    match first_match(tags, tag_id_is(id)) {
        Some(k) => Some(tags[k].name),
        None => None,
    }
}

/// The name of the first folder with id `id` among `folders`.
pub open spec fn folder_name_in(folders: Seq<FolderView>, id: Seq<char>) -> Option<Seq<char>> {
    match first_match(folders, folder_id_is(id)) {
        Some(k) => Some(folders[k].name),
        None => None,
    }
}

/// What reading the user's note `id` gives: the first of the user's notes
/// with that id.
pub open spec fn note_read(s: &NotesStore, id: Seq<char>) -> Option<NoteView> {
    let owned = owned_notes_spec(notes_view(s.notes@), s.user_id@);
    match first_match(owned, note_id_is(id)) {
        Some(k) => Some(owned[k]),
        None => None,
    }
}

pub(crate) fn find_tag(tags: &Vec<Tag>, id: &str) -> (r: Option<usize>)
    ensures
        match r {
            Some(k) => k < tags@.len() && first_match(tags_view(tags@), tag_id_is(id@)) == Some(
                k as int,
            ),
            None => first_match(tags_view(tags@), tag_id_is(id@)) is None,
        },
{
    let ghost tv = tags_view(tags@);
    let mut i: usize = 0;
    while i < tags.len()
        invariant
            i <= tags.len(),
            tv == tags_view(tags@),
            forall|j: int| 0 <= j < i ==> !(tag_id_is(id@))(#[trigger] tv[j]),
        decreases tags.len() - i,
    {
        if str_eq(tags[i].id.as_str(), id) {
            proof {
                lemma_first_match_some(tv, tag_id_is(id@), i as int);
            }
            return Some(i);
        }
        i = i + 1;
    }
    proof {
        lemma_first_match_none(tv, tag_id_is(id@));
    }
    None
}

pub(crate) fn find_folder(folders: &Vec<Folder>, id: &str) -> (r: Option<usize>)
    ensures
        match r {
            Some(k) => k < folders@.len() && first_match(folders_view(folders@), folder_id_is(id@))
                == Some(k as int),
            None => first_match(folders_view(folders@), folder_id_is(id@)) is None,
        },
{
    let ghost fv = folders_view(folders@);
    let mut i: usize = 0;
    while i < folders.len()
        invariant
            i <= folders.len(),
            fv == folders_view(folders@),
            forall|j: int| 0 <= j < i ==> !(folder_id_is(id@))(#[trigger] fv[j]),
        decreases folders.len() - i,
    {
        if str_eq(folders[i].id.as_str(), id) {
            proof {
                lemma_first_match_some(fv, folder_id_is(id@), i as int);
            }
            return Some(i);
        }
        i = i + 1;
    }
    proof {
        lemma_first_match_none(fv, folder_id_is(id@));
    }
    None
}

fn find_note(notes: &Vec<Note>, id: &str) -> (r: Option<usize>)
    ensures
        match r {
            Some(k) => k < notes@.len() && first_match(notes_view(notes@), note_id_is(id@)) == Some(
                k as int,
            ),
            None => first_match(notes_view(notes@), note_id_is(id@)) is None,
        },
{
    let ghost nv = notes_view(notes@);
    let mut i: usize = 0;
    while i < notes.len()
        invariant
            i <= notes.len(),
            nv == notes_view(notes@),
            forall|j: int| 0 <= j < i ==> !(note_id_is(id@))(#[trigger] nv[j]),
        decreases notes.len() - i,
    {
        if str_eq(notes[i].id.as_str(), id) {
            proof {
                lemma_first_match_some(nv, note_id_is(id@), i as int);
            }
            return Some(i);
        }
        i = i + 1;
    }
    proof {
        lemma_first_match_none(nv, note_id_is(id@));
    }
    None
}

fn count_notes_where_starred(notes: &Vec<Note>) -> (r: usize)
    ensures
        r == count_where(notes_view(notes@), is_starred()),
{
    let ghost nv = notes_view(notes@);
    let mut count: usize = 0;
    let mut i: usize = 0;
    while i < notes.len()
        invariant
            i <= notes.len(),
            nv == notes_view(notes@),
            count == count_where(nv.take(i as int), is_starred()),
            count <= i,
        decreases notes.len() - i,
    {
        assert(nv.take(i + 1).drop_last() =~= nv.take(i as int));
        assert(nv.take(i + 1).last() == notes[i as int]@);
        if notes[i].starred {
            count = count + 1;
        }
        i = i + 1;
    }
    assert(nv.take(notes.len() as int) =~= nv);
    count
}

fn count_notes_where_pinned(notes: &Vec<Note>) -> (r: usize)
    ensures
        r == count_where(notes_view(notes@), is_pinned()),
{
    let ghost nv = notes_view(notes@);
    let mut count: usize = 0;
    let mut i: usize = 0;
    while i < notes.len()
        invariant
            i <= notes.len(),
            nv == notes_view(notes@),
            count == count_where(nv.take(i as int), is_pinned()),
            count <= i,
        decreases notes.len() - i,
    {
        assert(nv.take(i + 1).drop_last() =~= nv.take(i as int));
        assert(nv.take(i + 1).last() == notes[i as int]@);
        if notes[i].pinned {
            count = count + 1;
        }
        i = i + 1;
    }
    assert(nv.take(notes.len() as int) =~= nv);
    count
}

pub(crate) fn note_in_folder(note: &Note, folder_id: &str) -> (r: bool)
    ensures
        r == (in_folder(folder_id@))(note@),
{
    match &note.folder_id {
        Some(f) => str_eq(f.as_str(), folder_id),
        None => false,
    }
}

pub(crate) fn strings_contain(v: &Vec<String>, s: &str) -> (r: bool)
    ensures
        r == v.deep_view().contains(s@),
{
    let ghost dv = v.deep_view();
    let mut i: usize = 0;
    while i < v.len()
        invariant
            i <= v.len(),
            dv == v.deep_view(),
            forall|j: int| 0 <= j < i ==> dv[j] != s@,
        decreases v.len() - i,
    {
        if str_eq(v[i].as_str(), s) {
            assert(dv[i as int] == s@);
            return true;
        }
        i = i + 1;
    }
    false
}

fn count_notes_in_folder(notes: &Vec<Note>, folder_id: &str) -> (r: usize)
    ensures
        r == count_where(notes_view(notes@), in_folder(folder_id@)),
{
    let ghost nv = notes_view(notes@);
    let mut count: usize = 0;
    let mut i: usize = 0;
    while i < notes.len()
        invariant
            i <= notes.len(),
            nv == notes_view(notes@),
            count == count_where(nv.take(i as int), in_folder(folder_id@)),
            count <= i,
        decreases notes.len() - i,
    {
        assert(nv.take(i + 1).drop_last() =~= nv.take(i as int));
        assert(nv.take(i + 1).last() == notes[i as int]@);
        if note_in_folder(&notes[i], folder_id) {
            count = count + 1;
        }
        i = i + 1;
    }
    assert(nv.take(notes.len() as int) =~= nv);
    count
}

fn count_notes_with_tag(notes: &Vec<Note>, tag_id: &str) -> (r: usize)
    ensures
        r == count_where(notes_view(notes@), has_tag(tag_id@)),
{
    let ghost nv = notes_view(notes@);
    let mut count: usize = 0;
    let mut i: usize = 0;
    while i < notes.len()
        invariant
            i <= notes.len(),
            nv == notes_view(notes@),
            count == count_where(nv.take(i as int), has_tag(tag_id@)),
            count <= i,
        decreases notes.len() - i,
    {
        assert(nv.take(i + 1).drop_last() =~= nv.take(i as int));
        assert(nv.take(i + 1).last() == notes[i as int]@);
        if strings_contain(&notes[i].tag_ids, tag_id) {
            count = count + 1;
        }
        i = i + 1;
    }
    assert(nv.take(notes.len() as int) =~= nv);
    count
}

impl NotesStore {
    /// The name of the user's first tag with this id.
    pub fn tag_name(&self, id: &str) -> (r: Option<String>)
        ensures
            match tag_name_in(owned_tags_spec(tags_view(self.tags@), self.user_id@), id@) {
                Some(name) => r matches Some(n) && n@ == name,
                None => r is None,
            },
    {
        let owned = self.owned_tags();
        match find_tag(&owned, id) {
            Some(k) => Some(owned[k].name.clone()),
            None => None,
        }
    }

    /// The list filter.
    pub fn filter(&self) -> (r: NoteFilter)
        ensures
            r@ == self.filter@,
    {
        self.filter.duplicate()
    }

    /// What the title of the note list names: the heading of the filter, the
    /// tag's name after a `#`, or the folder's name (empty when the tag or
    /// folder is not the user's).
    pub fn filter_title(&self) -> (r: FilterTitle)
        ensures
            match self.filter@ {
                FilterView::All => r == FilterTitle::AllNotes,
                FilterView::Starred => r == FilterTitle::Starred,
                FilterView::Pinned => r == FilterTitle::Pinned,
                FilterView::WithTag(id) => r matches FilterTitle::Text(t) && t@ == match tag_name_in(
                    owned_tags_spec(tags_view(self.tags@), self.user_id@),
                    id,
                ) {
                    Some(name) => seq!['#'] + name,
                    None => Seq::<char>::empty(),
                },
                FilterView::InFolder(id) => r matches FilterTitle::Text(t) && t@ == match folder_name_in(
                    sort_ordered::<Folder, FolderByOrder>(
                        owned_folders_spec(folders_view(self.folders@), self.user_id@),
                    ),
                    id,
                ) {
                    Some(name) => name,
                    None => Seq::<char>::empty(),
                },
            },
    {
        match &self.filter {
            NoteFilter::All => FilterTitle::AllNotes,
            NoteFilter::Starred => FilterTitle::Starred,
            NoteFilter::Pinned => FilterTitle::Pinned,
            NoteFilter::Tag(tag_id) => match self.tag_name(tag_id.as_str()) {
                Some(name) => {
                    let mut text = "#".to_owned();
                    proof {
                        reveal_strlit("#");
                    }
                    text.append(name.as_str());
                    assert(text@ =~= seq!['#'] + name@);
                    FilterTitle::Text(text)
                },
                None => FilterTitle::Text(String::new()),
            },
            NoteFilter::Folder(folder_id) => {
                let folders = self.folders();
                match find_folder(&folders, folder_id.as_str()) {
                    Some(k) => {
                        assert(folders_view(folders@)[k as int].name == folders@[k as int].name@);
                        FilterTitle::Text(folders[k].name.clone())
                    },
                    None => FilterTitle::Text(String::new()),
                }
            },
        }
    }

    /// The search query.
    pub fn search(&self) -> (r: String)
        ensures
            r@ == self.search@,
    {
        self.search.clone()
    }

    /// The colour theme.
    pub fn theme(&self) -> (r: Theme)
        ensures
            r == self.theme,
    {
        self.theme
    }

    /// The accent colour.
    pub fn accent(&self) -> (r: String)
        ensures
            r@ == self.accent@,
    {
        self.accent.clone()
    }

    /// The interface language.
    pub fn language(&self) -> (r: Language)
        ensures
            r == self.language,
    {
        self.language
    }

    /// The sync status.
    pub fn sync(&self) -> (r: SyncStatus)
        ensures
            r == self.sync,
    {
        self.sync
    }

    /// The user's first note with this id.
    pub fn note(&self, id: &str) -> (r: Option<Note>)
        ensures
            match note_read(self, id@) {
                Some(v) => r matches Some(n) && n@ == v,
                None => r is None,
            },
    {
        let owned = self.owned_notes();
        match find_note(&owned, id) {
            Some(k) => Some(owned[k].duplicate()),
            None => None,
        }
    }

    /// Number of the user's notes.
    pub fn note_count(&self) -> (r: usize)
        ensures
            r == owned_notes_spec(notes_view(self.notes@), self.user_id@).len(),
    {
        self.owned_notes().len()
    }

    /// Number of the user's starred notes.
    pub fn starred_count(&self) -> (r: usize)
        ensures
            r == count_where(owned_notes_spec(notes_view(self.notes@), self.user_id@), is_starred()),
    {
        count_notes_where_starred(&self.owned_notes())
    }

    /// Number of the user's pinned notes.
    pub fn pinned_count(&self) -> (r: usize)
        ensures
            r == count_where(owned_notes_spec(notes_view(self.notes@), self.user_id@), is_pinned()),
    {
        count_notes_where_pinned(&self.owned_notes())
    }

    /// Number of the user's notes in a folder.
    pub fn folder_note_count(&self, folder_id: &str) -> (r: usize)
        ensures
            r == count_where(
                owned_notes_spec(notes_view(self.notes@), self.user_id@),
                in_folder(folder_id@),
            ),
    {
        count_notes_in_folder(&self.owned_notes(), folder_id)
    }

    /// Number of the user's notes carrying a tag.
    pub fn tag_note_count(&self, tag_id: &str) -> (r: usize)
        ensures
            r == count_where(
                owned_notes_spec(notes_view(self.notes@), self.user_id@),
                has_tag(tag_id@),
            ),
    {
        count_notes_with_tag(&self.owned_notes(), tag_id)
    }
}


/// The user, the list filter and search, and the settings are as before.
pub open spec fn same_settings(a: &NotesStore, b: &NotesStore) -> bool {
    &&& a.user_id == b.user_id
    &&& a.filter == b.filter
    &&& a.search == b.search
    &&& a.theme == b.theme
    &&& a.accent == b.accent
    &&& a.language == b.language
    &&& a.sync == b.sync
}

/// Everything but the notes and the identifier counter is as before.
pub open spec fn same_settings_and_lists(a: &NotesStore, b: &NotesStore) -> bool {
    &&& a.user_id == b.user_id
    &&& a.folders == b.folders
    &&& a.tags == b.tags
    &&& a.filter == b.filter
    &&& a.search == b.search
    &&& a.theme == b.theme
    &&& a.accent == b.accent
    &&& a.language == b.language
    &&& a.sync == b.sync
}

/// `after` is `before` with note `k` replaced by `edited`, stamped with the
/// list order `order` and some update time.
pub open spec fn edited_and_touched(
    before: Seq<NoteView>,
    k: int,
    edited: NoteView,
    order: i64,
    after: Seq<NoteView>,
) -> bool {
    after == before.update(
        k,
        NoteView { order: order, updated_at_ms: after[k].updated_at_ms, ..edited },
    )
}

pub proof fn lemma_first_match_same_keys(s1: Seq<NoteView>, s2: Seq<NoteView>, id: Seq<char>, uid: Seq<char>)
    requires
        s1.len() == s2.len(),
        forall|j: int| 0 <= j < s1.len() ==> s1[j].id == s2[j].id && s1[j].user_id == s2[j].user_id,
    ensures
        first_match(s1, is_note(id, uid)) == first_match(s2, is_note(id, uid)),
{
    let p = is_note(id, uid);
    assert forall|j: int| 0 <= j < s1.len() implies p(s1[j]) == p(s2[j]) by {}
    lemma_first_match_facts(s1, p);
    match first_match(s1, p) {
        Some(k) => {
            assert forall|j: int| 0 <= j < k implies !p(s2[j]) by {
                assert(!p(s1[j]));
            }
            lemma_first_match_some(s2, p, k);
        },
        None => {
            assert forall|j: int| 0 <= j < s2.len() implies !p(s2[j]) by {
                assert(!p(s1[j]));
            }
            lemma_first_match_none(s2, p);
        },
    }
}

fn note_passes_filter(filter: &NoteFilter, note: &Note) -> (r: bool)
    ensures
        r == passes_filter(filter@, note@),
{
    match filter {
        NoteFilter::All => true,
        NoteFilter::Starred => note.starred,
        NoteFilter::Pinned => note.pinned,
        NoteFilter::Folder(folder_id) => note_in_folder(note, folder_id.as_str()),
        NoteFilter::Tag(tag_id) => strings_contain(&note.tag_ids, tag_id.as_str()),
    }
}

fn note_matches_search(query: &String, lowered: &String, note: &Note) -> (r: bool)
    requires
        lowered@ == lowercase(query@),
    ensures
        r == matches_search(query@, note@),
{
    if lowered.as_str().is_empty() {
        return true;
    }
    if contains_text(to_lowercase(note.title.as_str()).as_str(), lowered.as_str()) {
        return true;
    }
    contains_text(to_lowercase(note.content.as_str()).as_str(), lowered.as_str())
}

/// Texts other than `s`.
pub open spec fn other_than(s: Seq<char>) -> spec_fn(Seq<char>) -> bool {
    |x: Seq<char>| x != s
}

/// Notes other than the note `id` of user `uid`.
pub open spec fn not_note(id: Seq<char>, uid: Seq<char>) -> spec_fn(NoteView) -> bool {
    |n: NoteView| !(n.id == id && n.user_id == uid)
}

fn remove_string(v: &Vec<String>, s: &str) -> (r: Vec<String>)
    ensures
        r.deep_view() == keep_where(v.deep_view(), other_than(s@)),
{
    let ghost dv = v.deep_view();
    let mut out: Vec<String> = Vec::new();
    let mut i: usize = 0;
    while i < v.len()
        invariant
            i <= v.len(),
            dv == v.deep_view(),
            out.deep_view() == keep_where(dv.take(i as int), other_than(s@)),
        decreases v.len() - i,
    {
        assert(dv.take(i + 1).drop_last() =~= dv.take(i as int));
        assert(dv.take(i + 1).last() == v@[i as int]@);
        if !str_eq(v[i].as_str(), s) {
            out.push(v[i].clone());
            assert(out.deep_view() =~= keep_where(dv.take(i + 1), other_than(s@)));
        } else {
            assert(out.deep_view() =~= keep_where(dv.take(i + 1), other_than(s@)));
        }
        i = i + 1;
    }
    assert(dv.take(v.len() as int) =~= dv);
    out
}

impl NotesStore {
    /// The notes the list shows: the user's notes that pass the filter and
    /// match the search, pinned first, then by descending order field (ties
    /// in store order).
    pub fn visible_notes(&self) -> (r: Vec<Note>)
        ensures
            notes_view(r@) == sort_ordered::<Note, PinnedThenRecent>(
                keep_where(
                    owned_notes_spec(notes_view(self.notes@), self.user_id@),
                    is_visible(self.filter@, self.search@),
                ),
            ),
            forall|n: NoteView|
                #![trigger notes_view(r@).contains(n)]
                notes_view(r@).contains(n) <==> {
                    &&& owned_notes_spec(notes_view(self.notes@), self.user_id@).contains(n)
                    &&& (self.filter@ is Starred ==> n.starred)
                    &&& (self.filter@ is Pinned ==> n.pinned)
                    &&& (self.filter@ matches FilterView::InFolder(id) ==> n.folder_id == Some(id))
                    &&& (self.filter@ matches FilterView::WithTag(id) ==> n.tag_ids.contains(id))
                    &&& matches_search(self.search@, n)
                },
            forall|i: int, j: int|
                0 <= i < j < r@.len() ==> (notes_view(r@)[i].pinned || !notes_view(r@)[j].pinned)
                    && (notes_view(r@)[i].pinned == notes_view(r@)[j].pinned
                    ==> notes_view(r@)[i].order >= notes_view(r@)[j].order),
    {
        proof {
            let owned = owned_notes_spec(notes_view(self.notes@), self.user_id@);
            assert forall|n: NoteView| true implies (sort_ordered::<Note, PinnedThenRecent>(
                keep_where(owned, is_visible(self.filter@, self.search@)),
            ).contains(n) <==> {
                &&& owned.contains(n)
                &&& (self.filter@ is Starred ==> n.starred)
                &&& (self.filter@ is Pinned ==> n.pinned)
                &&& (self.filter@ matches FilterView::InFolder(id) ==> n.folder_id == Some(id))
                &&& (self.filter@ matches FilterView::WithTag(id) ==> n.tag_ids.contains(id))
                &&& matches_search(self.search@, n)
            }) by {
                crate::notes_laws::lemma_visible_notes_contents(owned, self.filter@, self.search@, n);
            }
            crate::notes_laws::lemma_visible_notes_order(
                keep_where(owned, is_visible(self.filter@, self.search@)),
            );
        }
        let owned = self.owned_notes();
        let ghost ov = notes_view(owned@);
        let lowered = to_lowercase(self.search.as_str());
        let mut shown: Vec<Note> = Vec::new();
        let mut i: usize = 0;
        while i < owned.len()
            invariant
                i <= owned.len(),
                ov == notes_view(owned@),
                lowered@ == lowercase(self.search@),
                notes_view(shown@) == keep_where(
                    ov.take(i as int),
                    is_visible(self.filter@, self.search@),
                ),
            decreases owned.len() - i,
        {
            let note = &owned[i];
            assert(ov.take(i + 1).drop_last() =~= ov.take(i as int));
            assert(ov.take(i + 1).last() == note@);
            if note_passes_filter(&self.filter, note) && note_matches_search(
                &self.search,
                &lowered,
                note,
            ) {
                shown.push(note.duplicate());
                assert(notes_view(shown@) =~= keep_where(
                    ov.take(i + 1),
                    is_visible(self.filter@, self.search@),
                ));
            }
            i = i + 1;
        }
        assert(ov.take(owned.len() as int) =~= ov);
        let r = sort_in_order::<Note, PinnedThenRecent>(shown);
        assert(views(r@) =~= notes_view(r@));
        assert(views(shown@) =~= notes_view(shown@));
        r
    }

    /// Shows the notes of a filter, clearing the search.
    pub fn set_filter(&mut self, filter: NoteFilter)
        ensures
            final(self).filter == filter,
            final(self).search@ == Seq::<char>::empty(),
            final(self).user_id == old(self).user_id,
            final(self).notes == old(self).notes,
            final(self).folders == old(self).folders,
            final(self).tags == old(self).tags,
            final(self).theme == old(self).theme,
            final(self).accent == old(self).accent,
            final(self).language == old(self).language,
            final(self).sync == old(self).sync,
            final(self).next_id == old(self).next_id,
    {
        self.filter = filter;
        self.search = String::new();
    }

    /// Sets the search query.
    pub fn set_search(&mut self, query: String)
        ensures
            final(self).search == query,
            final(self).user_id == old(self).user_id,
            final(self).notes == old(self).notes,
            final(self).folders == old(self).folders,
            final(self).tags == old(self).tags,
            final(self).filter == old(self).filter,
            final(self).theme == old(self).theme,
            final(self).accent == old(self).accent,
            final(self).language == old(self).language,
            final(self).sync == old(self).sync,
            final(self).next_id == old(self).next_id,
    {
        self.search = query;
    }

    /// Sets the colour theme.
    pub fn set_theme(&mut self, theme: Theme)
        ensures
            final(self).theme == theme,
            final(self).user_id == old(self).user_id,
            final(self).notes == old(self).notes,
            final(self).folders == old(self).folders,
            final(self).tags == old(self).tags,
            final(self).filter == old(self).filter,
            final(self).search == old(self).search,
            final(self).accent == old(self).accent,
            final(self).language == old(self).language,
            final(self).sync == old(self).sync,
            final(self).next_id == old(self).next_id,
    {
        self.theme = theme;
    }

    /// Sets the accent colour.
    pub fn set_accent(&mut self, accent: String)
        ensures
            final(self).accent == accent,
            final(self).user_id == old(self).user_id,
            final(self).notes == old(self).notes,
            final(self).folders == old(self).folders,
            final(self).tags == old(self).tags,
            final(self).filter == old(self).filter,
            final(self).search == old(self).search,
            final(self).theme == old(self).theme,
            final(self).language == old(self).language,
            final(self).sync == old(self).sync,
            final(self).next_id == old(self).next_id,
    {
        self.accent = accent;
    }

    /// Sets the interface language.
    pub fn set_language(&mut self, language: Language)
        ensures
            final(self).language == language,
            final(self).user_id == old(self).user_id,
            final(self).notes == old(self).notes,
            final(self).folders == old(self).folders,
            final(self).tags == old(self).tags,
            final(self).filter == old(self).filter,
            final(self).search == old(self).search,
            final(self).theme == old(self).theme,
            final(self).accent == old(self).accent,
            final(self).sync == old(self).sync,
            final(self).next_id == old(self).next_id,
    {
        self.language = language;
    }

    /// Switches between synced and offline.
    pub fn toggle_sync(&mut self)
        ensures
            final(self).sync == (match old(self).sync {
                SyncStatus::Synced => SyncStatus::Offline,
                SyncStatus::Offline => SyncStatus::Synced,
            }),
            final(self).user_id == old(self).user_id,
            final(self).notes == old(self).notes,
            final(self).folders == old(self).folders,
            final(self).tags == old(self).tags,
            final(self).filter == old(self).filter,
            final(self).search == old(self).search,
            final(self).theme == old(self).theme,
            final(self).accent == old(self).accent,
            final(self).language == old(self).language,
            final(self).next_id == old(self).next_id,
    {
        let next = match self.sync {
            SyncStatus::Synced => SyncStatus::Offline,
            SyncStatus::Offline => SyncStatus::Synced,
        };
        self.sync = next;
    }

    /// Hands out the next identifier.
    fn next_id(&mut self) -> (r: u32)
        requires
            old(self).next_id < u32::MAX,
        ensures
            r == old(self).next_id,
            final(self).next_id == old(self).next_id + 1,
            same_settings_and_lists(final(self), old(self)),
            final(self).notes == old(self).notes,
    {
        let id = self.next_id;
        self.next_id = id + 1;
        id
    }

    /// Position of the user's first note with this id.
    fn find_owned_note(&self, id: &str) -> (r: Option<usize>)
        ensures
            match r {
                Some(k) => k < self.notes@.len() && first_match(
                    notes_view(self.notes@),
                    is_note(id@, self.user_id@),
                ) == Some(k as int),
                None => first_match(notes_view(self.notes@), is_note(id@, self.user_id@)) is None,
            },
    {
        let ghost nv = notes_view(self.notes@);
        let mut i: usize = 0;
        while i < self.notes.len()
            invariant
                i <= self.notes.len(),
                nv == notes_view(self.notes@),
                forall|j: int| 0 <= j < i ==> !(is_note(id@, self.user_id@))(#[trigger] nv[j]),
            decreases self.notes.len() - i,
        {
            if str_eq(self.notes[i].id.as_str(), id) && self.notes[i].user_id == self.user_id {
                proof {
                    lemma_first_match_some(nv, is_note(id@, self.user_id@), i as int);
                }
                return Some(i);
            }
            i = i + 1;
        }
        proof {
            lemma_first_match_none(nv, is_note(id@, self.user_id@));
        }
        None
    }

    /// Stamps the user's note `id` with the next list order and the current
    /// time (the identifier counter advances even without such a note).
    fn touch_note(&mut self, id: &str)
        requires
            old(self).next_id < u32::MAX,
        ensures
            final(self).next_id == old(self).next_id + 1,
            same_settings_and_lists(final(self), old(self)),
            match first_match(notes_view(old(self).notes@), is_note(id@, old(self).user_id@)) {
                Some(k) => edited_and_touched(
                    notes_view(old(self).notes@),
                    k,
                    notes_view(old(self).notes@)[k],
                    old(self).next_id as i64,
                    notes_view(final(self).notes@),
                ),
                None => final(self).notes == old(self).notes,
            },
    {
        let order = self.next_id() as i64;
        match self.find_owned_note(id) {
            Some(k) => {
                let ghost before = notes_view(self.notes@);
                let mut n = self.notes[k].duplicate();
                n.updated_at_ms = now_ms();
                n.order = order;
                self.notes.set(k, n);
                assert(notes_view(self.notes@) =~= before.update(
                    k as int,
                    NoteView {
                        order: order,
                        updated_at_ms: notes_view(self.notes@)[k as int].updated_at_ms,
                        ..before[k as int]
                    },
                ));
            },
            None => {},
        }
    }
}


/// What an edit of the user's note `id` followed by a touch does: the
/// identifier counter advances; the user's first note `id`, if there is one,
/// becomes `change` of itself, stamped with the old counter as its list order
/// and with the current time; nothing else changes.
pub open spec fn note_edited(
    before: &NotesStore,
    after: &NotesStore,
    id: Seq<char>,
    change: spec_fn(NoteView) -> NoteView,
) -> bool {
    &&& after.next_id == before.next_id + 1
    &&& same_settings_and_lists(after, before)
    &&& match first_match(notes_view(before.notes@), is_note(id, before.user_id@)) {
        Some(k) => edited_and_touched(
            notes_view(before.notes@),
            k,
            change(notes_view(before.notes@)[k]),
            before.next_id as i64,
            notes_view(after.notes@),
        ),
        None => after.notes == before.notes,
    }
}

/// What an edit of the user's note `id` without a touch does: the user's
/// first note `id`, if there is one, becomes `change` of itself; nothing else
/// changes.
pub open spec fn note_changed(
    before: &NotesStore,
    after: &NotesStore,
    id: Seq<char>,
    change: spec_fn(NoteView) -> NoteView,
) -> bool {
    &&& after.next_id == before.next_id
    &&& same_settings_and_lists(after, before)
    &&& match first_match(notes_view(before.notes@), is_note(id, before.user_id@)) {
        Some(k) => notes_view(after.notes@) == notes_view(before.notes@).update(
            k,
            change(notes_view(before.notes@)[k]),
        ),
        None => after.notes == before.notes,
    }
}

impl NotesStore {
    /// Puts `edited` in place of the user's first note `id` (at `k`), then
    /// touches it.
    fn put_and_touch(&mut self, id: &str, k: usize, edited: Note)
        requires
            old(self).next_id < u32::MAX,
            k < old(self).notes@.len(),
            first_match(notes_view(old(self).notes@), is_note(id@, old(self).user_id@)) == Some(
                k as int,
            ),
            edited.id@ == old(self).notes@[k as int].id@,
            edited.user_id@ == old(self).notes@[k as int].user_id@,
        ensures
            final(self).next_id == old(self).next_id + 1,
            same_settings_and_lists(final(self), old(self)),
            edited_and_touched(
                notes_view(old(self).notes@),
                k as int,
                edited@,
                old(self).next_id as i64,
                notes_view(final(self).notes@),
            ),
    {
        let ghost before = notes_view(self.notes@);
        self.notes.set(k, edited);
        proof {
            let after = notes_view(self.notes@);
            assert(after =~= before.update(k as int, edited@));
            lemma_first_match_same_keys(before, after, id@, self.user_id@);
        }
        let ghost order = self.next_id as i64;
        self.touch_note(id);
        proof {
            let after = notes_view(self.notes@);
            assert(after =~= before.update(
                k as int,
                NoteView { order: order, updated_at_ms: after[k as int].updated_at_ms, ..edited@ },
            ));
        }
    }

    /// Sets the title of the user's note `id` and touches it.
    pub fn set_note_title(&mut self, id: &str, title: String)
        requires
            old(self).next_id < u32::MAX,
        ensures
            note_edited(old(self), final(self), id@, |n: NoteView| NoteView { title: title@, ..n }),
    {
        match self.find_owned_note(id) {
            Some(k) => {
                let mut n = self.notes[k].duplicate();
                n.title = title;
                self.put_and_touch(id, k, n);
            },
            None => self.touch_note(id),
        }
    }
}
impl NotesStore {
    /// Sets the content of the user's note `id` and touches it.
    pub fn set_note_content(&mut self, id: &str, content: String)
        requires
            old(self).next_id < u32::MAX,
        ensures
            note_edited(
                old(self),
                final(self),
                id@,
                |n: NoteView| NoteView { content: content@, ..n },
            ),
    {
        match self.find_owned_note(id) {
            Some(k) => {
                let mut n = self.notes[k].duplicate();
                n.content = content;
                self.put_and_touch(id, k, n);
            },
            None => self.touch_note(id),
        }
    }

    /// Moves the user's note `id` into a folder (or out of any) and touches it.
    pub fn set_note_folder(&mut self, id: &str, folder_id: Option<String>)
        requires
            old(self).next_id < u32::MAX,
        ensures
            note_edited(
                old(self),
                final(self),
                id@,
                |n: NoteView| NoteView { folder_id: opt_str_view(folder_id), ..n },
            ),
    {
        match self.find_owned_note(id) {
            Some(k) => {
                let mut n = self.notes[k].duplicate();
                n.folder_id = folder_id;
                self.put_and_touch(id, k, n);
            },
            None => self.touch_note(id),
        }
    }

    /// Sets the diary date of the user's note `id` and touches it.
    pub fn set_note_date(&mut self, id: &str, date_ms: i64)
        requires
            old(self).next_id < u32::MAX,
        ensures
            note_edited(old(self), final(self), id@, |n: NoteView| NoteView { date_ms: date_ms, ..n }),
    {
        match self.find_owned_note(id) {
            Some(k) => {
                let mut n = self.notes[k].duplicate();
                n.date_ms = date_ms;
                self.put_and_touch(id, k, n);
            },
            None => self.touch_note(id),
        }
    }

    /// Sets how many hours before its date the user's note `id` reminds (or
    /// that it does not), and touches it.
    pub fn set_note_remind_before(&mut self, id: &str, remind_before_hours: Option<i64>)
        requires
            old(self).next_id < u32::MAX,
        ensures
            note_edited(
                old(self),
                final(self),
                id@,
                |n: NoteView| NoteView { remind_before_hours: remind_before_hours, ..n },
            ),
    {
        match self.find_owned_note(id) {
            Some(k) => {
                let mut n = self.notes[k].duplicate();
                n.remind_before_hours = remind_before_hours;
                self.put_and_touch(id, k, n);
            },
            None => self.touch_note(id),
        }
    }

    /// Adds a tag to the user's note `id` unless it carries it already, and
    /// touches the note.
    pub fn add_note_tag(&mut self, id: &str, tag_id: String)
        requires
            old(self).next_id < u32::MAX,
        ensures
            note_edited(
                old(self),
                final(self),
                id@,
                |n: NoteView|
                    NoteView {
                        tag_ids: if n.tag_ids.contains(tag_id@) {
                            n.tag_ids
                        } else {
                            n.tag_ids.push(tag_id@)
                        },
                        ..n
                    },
            ),
    {
        match self.find_owned_note(id) {
            Some(k) => {
                let mut n = self.notes[k].duplicate();
                if !strings_contain(&n.tag_ids, tag_id.as_str()) {
                    n.tag_ids.push(tag_id);
                    assert(n.tag_ids.deep_view() =~= self.notes@[k as int].tag_ids.deep_view().push(
                        tag_id@,
                    ));
                }
                self.put_and_touch(id, k, n);
            },
            None => self.touch_note(id),
        }
    }

    /// Takes a tag off the user's note `id` and touches the note.
    pub fn remove_note_tag(&mut self, id: &str, tag_id: &str)
        requires
            old(self).next_id < u32::MAX,
        ensures
            note_edited(
                old(self),
                final(self),
                id@,
                |n: NoteView| NoteView { tag_ids: keep_where(n.tag_ids, other_than(tag_id@)), ..n },
            ),
    {
        match self.find_owned_note(id) {
            Some(k) => {
                let mut n = self.notes[k].duplicate();
                n.tag_ids = remove_string(&n.tag_ids, tag_id);
                self.put_and_touch(id, k, n);
            },
            None => self.touch_note(id),
        }
    }

    /// Puts `edited` in place of the note at `k`.
    fn put_note(&mut self, k: usize, edited: Note)
        requires
            k < old(self).notes@.len(),
        ensures
            final(self).next_id == old(self).next_id,
            same_settings_and_lists(final(self), old(self)),
            notes_view(final(self).notes@) == notes_view(old(self).notes@).update(k as int, edited@),
    {
        self.notes.set(k, edited);
        assert(notes_view(self.notes@) =~= notes_view(old(self).notes@).update(k as int, edited@));
    }

    /// Pins or unpins the user's note `id` (its list order stays).
    pub fn toggle_note_pin(&mut self, id: &str)
        ensures
            note_changed(old(self), final(self), id@, |n: NoteView| NoteView { pinned: !n.pinned, ..n }),
    {
        match self.find_owned_note(id) {
            Some(k) => {
                let mut n = self.notes[k].duplicate();
                n.pinned = !n.pinned;
                self.put_note(k, n);
            },
            None => {},
        }
    }

    /// Stars or unstars the user's note `id` (its list order stays).
    pub fn toggle_note_star(&mut self, id: &str)
        ensures
            note_changed(
                old(self),
                final(self),
                id@,
                |n: NoteView| NoteView { starred: !n.starred, ..n },
            ),
    {
        match self.find_owned_note(id) {
            Some(k) => {
                let mut n = self.notes[k].duplicate();
                n.starred = !n.starred;
                self.put_note(k, n);
            },
            None => {},
        }
    }

    /// Deletes every note `id` of the user.
    pub fn delete_note(&mut self, id: &str)
        ensures
            notes_view(final(self).notes@) == keep_where(
                notes_view(old(self).notes@),
                not_note(id@, old(self).user_id@),
            ),
            final(self).next_id == old(self).next_id,
            same_settings_and_lists(final(self), old(self)),
    {
        let ghost nv = notes_view(self.notes@);
        let mut kept: Vec<Note> = Vec::new();
        let mut i: usize = 0;
        while i < self.notes.len()
            invariant
                i <= self.notes.len(),
                nv == notes_view(self.notes@),
                notes_view(kept@) == keep_where(nv.take(i as int), not_note(id@, self.user_id@)),
            decreases self.notes.len() - i,
        {
            let note = &self.notes[i];
            assert(nv.take(i + 1).drop_last() =~= nv.take(i as int));
            assert(nv.take(i + 1).last() == note@);
            if !(str_eq(note.id.as_str(), id) && note.user_id == self.user_id) {
                kept.push(note.duplicate());
                assert(notes_view(kept@) =~= keep_where(nv.take(i + 1), not_note(id@, self.user_id@)));
            }
            i = i + 1;
        }
        assert(nv.take(self.notes.len() as int) =~= nv);
        self.notes = kept;
    }
}

/// The folder a new note goes into under a filter: the filtered folder.
pub open spec fn filter_folder(f: FilterView) -> Option<Seq<char>> {
    match f {
        FilterView::InFolder(id) => Some(id),
        _ => None,
    }
}

/// The tags a new note carries under a filter: the filtered tag.
pub open spec fn filter_tags(f: FilterView) -> Seq<Seq<char>> {
    match f {
        FilterView::WithTag(id) => seq![id],
        _ => Seq::empty(),
    }
}

/// What inserting a new note does: it takes the old identifier counter as
/// its list order and `note-<order>` as its id, belongs to the user, is
/// empty, unpinned and unstarred, carries no reminder, is stamped with some
/// time, and stands first; the counter advances and nothing else changes.
pub open spec fn note_inserted(
    before: &NotesStore,
    after: &NotesStore,
    id: Seq<char>,
    folder_id: Option<Seq<char>>,
    tag_ids: Seq<Seq<char>>,
    date_ms: i64,
) -> bool {
    let nv = notes_view(after.notes@);
    &&& id == "note-"@ + decimal(before.next_id as nat)
    &&& after.next_id == before.next_id + 1
    &&& same_settings_and_lists(after, before)
    &&& nv.len() == before.notes@.len() + 1
    &&& nv.drop_first() == notes_view(before.notes@)
    &&& nv[0] == NoteView {
        user_id: before.user_id@,
        id: id,
        title: Seq::empty(),
        content: Seq::empty(),
        folder_id: folder_id,
        tag_ids: tag_ids,
        pinned: false,
        starred: false,
        updated_at_ms: nv[0].updated_at_ms,
        order: before.next_id as i64,
        date_ms: date_ms,
        remind_before_hours: None,
    }
}

impl NotesStore {
    fn insert_note(
        &mut self,
        folder_id: Option<String>,
        tag_ids: Vec<String>,
        date_ms: i64,
        updated_at_ms: i64,
    ) -> (r: String)
        requires
            old(self).next_id < u32::MAX,
        ensures
            note_inserted(
                old(self),
                final(self),
                r@,
                opt_str_view(folder_id),
                tag_ids.deep_view(),
                date_ms,
            ),
            notes_view(final(self).notes@)[0].updated_at_ms == updated_at_ms,
    {
        let ghost before = notes_view(self.notes@);
        let order = self.next_id();
        let mut id = "note-".to_owned();
        push_decimal(&mut id, order as u64);
        let note = Note {
            user_id: self.user_id.clone(),
            id: id.clone(),
            title: String::new(),
            content: String::new(),
            folder_id,
            tag_ids,
            pinned: false,
            starred: false,
            updated_at_ms,
            order: order as i64,
            date_ms,
            remind_before_hours: None,
        };
        self.notes.insert(0, note);
        assert(notes_view(self.notes@).drop_first() =~= before);
        id
    }

    /// Creates an empty note at the top of the list, in the filtered folder
    /// or with the filtered tag, and returns its id.  One clock reading dates
    /// it: its update time is the reading, its diary date the same instant on
    /// the local clock.
    pub fn create_note(&mut self, offset: &LocalOffset) -> (r: String)
        requires
            old(self).next_id < u32::MAX,
        ensures
            note_inserted(
                old(self),
                final(self),
                r@,
                filter_folder(old(self).filter@),
                filter_tags(old(self).filter@),
                notes_view(final(self).notes@)[0].date_ms,
            ),
            notes_view(final(self).notes@)[0].date_ms == wrap_i64(
                notes_view(final(self).notes@)[0].updated_at_ms + offset.offset_ms,
            ),
    {
        let folder_id = match &self.filter {
            NoteFilter::Folder(folder_id) => Some(folder_id.clone()),
            _ => None,
        };
        let mut tag_ids: Vec<String> = Vec::new();
        match &self.filter {
            NoteFilter::Tag(tag_id) => tag_ids.push(tag_id.clone()),
            _ => {},
        }
        assert(tag_ids.deep_view() =~= filter_tags(self.filter@));
        let now = now_ms();
        let date_ms = local_ms_at(offset, now);
        self.insert_note(folder_id, tag_ids, date_ms, now)
    }

    /// Creates an empty note on a diary date, in a folder and with tags, at
    /// the top of the list, and returns its id.
    pub fn create_diary_note(&mut self, date_ms: i64, folder_id: Option<String>, tag_ids: Vec<
        String,
    >) -> (r: String)
        requires
            old(self).next_id < u32::MAX,
        ensures
            note_inserted(
                old(self),
                final(self),
                r@,
                opt_str_view(folder_id),
                tag_ids.deep_view(),
                date_ms,
            ),
    {
        self.insert_note(folder_id, tag_ids, date_ms, now_ms())
    }
}

/// Folders other than the folder `id` of user `uid`.
pub open spec fn not_folder(id: Seq<char>, uid: Seq<char>) -> spec_fn(FolderView) -> bool {
    |f: FolderView| !(f.id == id && f.user_id == uid)
}

/// The user's notes in folder `id` taken out of it.
pub open spec fn notes_out_of_folder(s: Seq<NoteView>, id: Seq<char>, uid: Seq<char>) -> Seq<
    NoteView,
> {
    s.map_values(
        |n: NoteView|
            if n.user_id == uid && n.folder_id == Some(id) {
                NoteView { folder_id: None, ..n }
            } else {
                n
            },
    )
}

/// What an edit of the user's folder `id` does: the user's first folder
/// `id`, if there is one, becomes `change` of itself stamped with some time;
/// nothing else changes.
pub open spec fn folder_changed(
    before: &NotesStore,
    after: &NotesStore,
    id: Seq<char>,
    change: spec_fn(FolderView) -> FolderView,
) -> bool {
    let fv = folders_view(before.folders@);
    let fa = folders_view(after.folders@);
    &&& same_settings(after, before)
    &&& after.notes == before.notes
    &&& after.tags == before.tags
    &&& after.next_id == before.next_id
    &&& match first_match(fv, is_folder(id, before.user_id@)) {
        Some(k) => fa == fv.update(k, FolderView { updated_at_ms: fa[k].updated_at_ms, ..change(fv[k]) }),
        None => after.folders == before.folders,
    }
}

/// After the filtered folder or tag is deleted the list shows all notes and
/// the search is cleared; otherwise the filter and search stay.
pub open spec fn filter_after_delete(before: &NotesStore, after: &NotesStore, gone: FilterView) -> bool {
    if before.filter@ == gone {
        after.filter@ == FilterView::All && after.search@ == Seq::<char>::empty()
    } else {
        after.filter == before.filter && after.search == before.search
    }
}

impl NotesStore {
    /// Position of the user's first folder with this id.
    fn find_owned_folder(&self, id: &str) -> (r: Option<usize>)
        ensures
            match r {
                Some(k) => k < self.folders@.len() && first_match(
                    folders_view(self.folders@),
                    is_folder(id@, self.user_id@),
                ) == Some(k as int),
                None => first_match(folders_view(self.folders@), is_folder(id@, self.user_id@)) is None,
            },
    {
        let ghost fv = folders_view(self.folders@);
        let mut i: usize = 0;
        while i < self.folders.len()
            invariant
                i <= self.folders.len(),
                fv == folders_view(self.folders@),
                forall|j: int| 0 <= j < i ==> !(is_folder(id@, self.user_id@))(#[trigger] fv[j]),
            decreases self.folders.len() - i,
        {
            if str_eq(self.folders[i].id.as_str(), id) && self.folders[i].user_id == self.user_id {
                proof {
                    lemma_first_match_some(fv, is_folder(id@, self.user_id@), i as int);
                }
                return Some(i);
            }
            i = i + 1;
        }
        proof {
            lemma_first_match_none(fv, is_folder(id@, self.user_id@));
        }
        None
    }

    /// Creates a folder of the user with a name and an icon, after the
    /// others, and returns its id: `folder-<order>`, where the order is the
    /// identifier counter, which advances.
    pub fn create_folder_with_icon(&mut self, name: String, icon: FolderIcon) -> (r: String)
        requires
            old(self).next_id < u32::MAX,
        ensures
            r@ == "folder-"@ + decimal(old(self).next_id as nat),
            final(self).next_id == old(self).next_id + 1,
            same_settings(final(self), old(self)),
            final(self).notes == old(self).notes,
            final(self).tags == old(self).tags,
            folders_view(final(self).folders@) == folders_view(old(self).folders@).push(
                FolderView {
                    user_id: old(self).user_id@,
                    id: r@,
                    name: name@,
                    icon: icon,
                    updated_at_ms: final(self).folders@.last().updated_at_ms,
                    order: old(self).next_id as i64,
                },
            ),
    {
        let order = self.next_id();
        let mut id = "folder-".to_owned();
        push_decimal(&mut id, order as u64);
        let folder = Folder {
            user_id: self.user_id.clone(),
            id: id.clone(),
            name,
            icon,
            updated_at_ms: now_ms(),
            order: order as i64,
        };
        self.folders.push(folder);
        assert(folders_view(self.folders@) =~= folders_view(old(self).folders@).push(
            self.folders@.last()@,
        ));
        id
    }

    /// Renames the user's folder `folder_id`.
    pub fn rename_folder(&mut self, folder_id: &str, name: String)
        ensures
            folder_changed(
                old(self),
                final(self),
                folder_id@,
                |f: FolderView| FolderView { name: name@, ..f },
            ),
    {
        match self.find_owned_folder(folder_id) {
            Some(k) => {
                let mut f = self.folders[k].duplicate();
                f.name = name;
                f.updated_at_ms = now_ms();
                self.folders.set(k, f);
                assert(folders_view(self.folders@) =~= folders_view(old(self).folders@).update(
                    k as int,
                    FolderView {
                        updated_at_ms: folders_view(self.folders@)[k as int].updated_at_ms,
                        name: name@,
                        ..folders_view(old(self).folders@)[k as int]
                    },
                ));
            },
            None => {},
        }
    }

    /// Gives the user's folder `folder_id` another icon.
    pub fn set_folder_icon(&mut self, folder_id: &str, icon: FolderIcon)
        ensures
            folder_changed(
                old(self),
                final(self),
                folder_id@,
                |f: FolderView| FolderView { icon: icon, ..f },
            ),
    {
        match self.find_owned_folder(folder_id) {
            Some(k) => {
                let mut f = self.folders[k].duplicate();
                f.icon = icon;
                f.updated_at_ms = now_ms();
                self.folders.set(k, f);
                assert(folders_view(self.folders@) =~= folders_view(old(self).folders@).update(
                    k as int,
                    FolderView {
                        updated_at_ms: folders_view(self.folders@)[k as int].updated_at_ms,
                        icon: icon,
                        ..folders_view(old(self).folders@)[k as int]
                    },
                ));
            },
            None => {},
        }
    }

    /// Deletes every folder `folder_id` of the user, takes the user's notes
    /// out of it, and shows all notes if the list showed that folder.
    pub fn delete_folder(&mut self, folder_id: &str)
        ensures
            folders_view(final(self).folders@) == keep_where(
                folders_view(old(self).folders@),
                not_folder(folder_id@, old(self).user_id@),
            ),
            notes_view(final(self).notes@) == notes_out_of_folder(
                notes_view(old(self).notes@),
                folder_id@,
                old(self).user_id@,
            ),
            filter_after_delete(old(self), final(self), FilterView::InFolder(folder_id@)),
            final(self).user_id == old(self).user_id,
            final(self).tags == old(self).tags,
            final(self).theme == old(self).theme,
            final(self).accent == old(self).accent,
            final(self).language == old(self).language,
            final(self).sync == old(self).sync,
            final(self).next_id == old(self).next_id,
    {
        let ghost fv = folders_view(self.folders@);
        let mut kept: Vec<Folder> = Vec::new();
        let mut i: usize = 0;
        while i < self.folders.len()
            invariant
                i <= self.folders.len(),
                fv == folders_view(self.folders@),
                folders_view(kept@) == keep_where(fv.take(i as int), not_folder(folder_id@, self.user_id@)),
            decreases self.folders.len() - i,
        {
            let folder = &self.folders[i];
            assert(fv.take(i + 1).drop_last() =~= fv.take(i as int));
            assert(fv.take(i + 1).last() == folder@);
            if !(str_eq(folder.id.as_str(), folder_id) && folder.user_id == self.user_id) {
                kept.push(folder.duplicate());
                assert(folders_view(kept@) =~= keep_where(
                    fv.take(i + 1),
                    not_folder(folder_id@, self.user_id@),
                ));
            }
            i = i + 1;
        }
        assert(fv.take(self.folders.len() as int) =~= fv);
        self.folders = kept;

        let ghost nv = notes_view(self.notes@);
        let mut notes: Vec<Note> = Vec::new();
        let mut j: usize = 0;
        while j < self.notes.len()
            invariant
                j <= self.notes.len(),
                nv == notes_view(self.notes@),
                notes_view(notes@) == notes_out_of_folder(nv.take(j as int), folder_id@, self.user_id@),
            decreases self.notes.len() - j,
        {
            let mut note = self.notes[j].duplicate();
            assert(nv[j as int] == note@);
            if note.user_id == self.user_id && note_in_folder(&note, folder_id) {
                note.folder_id = None;
                assert(note@ == NoteView { folder_id: None, ..nv[j as int] });
            }
            notes.push(note);
            assert(notes_view(notes@).last() == (if nv[j as int].user_id == self.user_id@
                && nv[j as int].folder_id == Some(folder_id@) {
                NoteView { folder_id: None, ..nv[j as int] }
            } else {
                nv[j as int]
            }));
            assert(nv.take(j + 1) =~= nv.take(j as int).push(nv[j as int]));
            assert(notes_out_of_folder(nv.take(j + 1), folder_id@, self.user_id@) =~= notes_out_of_folder(
                nv.take(j as int),
                folder_id@,
                self.user_id@,
            ).push(notes_view(notes@).last()));
            assert(notes_view(notes@) =~= notes_out_of_folder(
                nv.take(j + 1),
                folder_id@,
                self.user_id@,
            ));
            j = j + 1;
        }
        assert(nv.take(self.notes.len() as int) =~= nv);
        self.notes = notes;

        let shown = match &self.filter {
            NoteFilter::Folder(id) => str_eq(id.as_str(), folder_id),
            _ => false,
        };
        if shown {
            self.set_filter(NoteFilter::All);
        }
    }
}

/// The name a tag is saved under: trimmed, lowercased, with hyphens for
/// spaces.
pub open spec fn normalized_tag_name(name: Seq<char>) -> Seq<char> {
    spaces_to_hyphens(lowercase(trim_spec(name)))
}

pub open spec fn tag_named(name: Seq<char>) -> spec_fn(TagView) -> bool {
    |t: TagView| t.name == name
}

/// Tags other than the tag `id` of user `uid`.
pub open spec fn not_tag(id: Seq<char>, uid: Seq<char>) -> spec_fn(TagView) -> bool {
    |t: TagView| !(t.id == id && t.user_id == uid)
}

/// The tag taken off the user's notes.
pub open spec fn notes_without_tag(s: Seq<NoteView>, id: Seq<char>, uid: Seq<char>) -> Seq<NoteView> {
    s.map_values(
        |n: NoteView|
            if n.user_id == uid {
                NoteView { tag_ids: keep_where(n.tag_ids, other_than(id)), ..n }
            } else {
                n
            },
    )
}

/// What creating a tag named `name` does: when the user has a tag with the
/// normalized name, the first one's id is the answer and nothing changes;
/// otherwise a tag of the user with the normalized name is added after the
/// others, with the identifier counter as its order and `tag-<order>` as its
/// id, stamped with some time, and the counter advances.
pub open spec fn tag_created(before: &NotesStore, after: &NotesStore, name: Seq<char>, r: Seq<char>) -> bool {
    let norm = normalized_tag_name(name);
    let owned = owned_tags_spec(tags_view(before.tags@), before.user_id@);
    match first_match(owned, tag_named(norm)) {
        Some(k) => r == owned[k].id && *after == *before,
        None => {
            &&& r == "tag-"@ + decimal(before.next_id as nat)
            &&& after.next_id == before.next_id + 1
            &&& same_settings(after, before)
            &&& after.notes == before.notes
            &&& after.folders == before.folders
            &&& tags_view(after.tags@) == tags_view(before.tags@).push(
                TagView {
                    user_id: before.user_id@,
                    id: r,
                    name: norm,
                    updated_at_ms: after.tags@.last().updated_at_ms,
                    order: before.next_id as i64,
                },
            )
        },
    }
}

/// Whether a tag's name equals `name` up to ASCII case.
pub open spec fn tag_named_ignoring_case(name: Seq<char>) -> spec_fn(TagView) -> bool {
    |t: TagView|
        eq_ignore_ascii_case_spec(
            vstd::utf8::encode_utf8(t.name),
            vstd::utf8::encode_utf8(name),
        )
}

fn find_tag_named(tags: &Vec<Tag>, name: &str) -> (r: Option<usize>)
    ensures
        match r {
            Some(k) => k < tags@.len() && first_match(tags_view(tags@), tag_named(name@)) == Some(
                k as int,
            ),
            None => first_match(tags_view(tags@), tag_named(name@)) is None,
        },
{
    let ghost tv = tags_view(tags@);
    let mut i: usize = 0;
    while i < tags.len()
        invariant
            i <= tags.len(),
            tv == tags_view(tags@),
            forall|j: int| 0 <= j < i ==> !(tag_named(name@))(#[trigger] tv[j]),
        decreases tags.len() - i,
    {
        if str_eq(tags[i].name.as_str(), name) {
            proof {
                lemma_first_match_some(tv, tag_named(name@), i as int);
            }
            return Some(i);
        }
        i = i + 1;
    }
    proof {
        lemma_first_match_none(tv, tag_named(name@));
    }
    None
}

fn find_tag_named_ignoring_case(tags: &Vec<Tag>, name: &str) -> (r: Option<usize>)
    ensures
        match r {
            Some(k) => k < tags@.len() && first_match(
                tags_view(tags@),
                tag_named_ignoring_case(name@),
            ) == Some(k as int),
            None => first_match(tags_view(tags@), tag_named_ignoring_case(name@)) is None,
        },
{
    let ghost tv = tags_view(tags@);
    let mut i: usize = 0;
    while i < tags.len()
        invariant
            i <= tags.len(),
            tv == tags_view(tags@),
            forall|j: int| 0 <= j < i ==> !(tag_named_ignoring_case(name@))(#[trigger] tv[j]),
        decreases tags.len() - i,
    {
        if eq_ignore_ascii_case(tags[i].name.as_str(), name) {
            proof {
                lemma_first_match_some(tv, tag_named_ignoring_case(name@), i as int);
            }
            return Some(i);
        }
        i = i + 1;
    }
    proof {
        lemma_first_match_none(tv, tag_named_ignoring_case(name@));
    }
    None
}

impl NotesStore {
    /// Creates a tag of the user, or finds the one that has the same
    /// normalized name, and returns its id.
    pub fn create_tag(&mut self, name: String) -> (r: String)
        requires
            old(self).next_id < u32::MAX,
        ensures
            tag_created(old(self), final(self), name@, r@),
    {
        let trimmed = trim(name.as_str());
        let lowered = to_lowercase(trimmed.as_str());
        let normalized = replace_spaces_with_hyphens(lowered.as_str());
        let owned = self.owned_tags();
        match find_tag_named(&owned, normalized.as_str()) {
            Some(k) => {
                return owned[k].id.clone();
            },
            None => {},
        }
        let order = self.next_id();
        let mut id = "tag-".to_owned();
        push_decimal(&mut id, order as u64);
        let tag = Tag {
            user_id: self.user_id.clone(),
            id: id.clone(),
            name: normalized,
            updated_at_ms: now_ms(),
            order: order as i64,
        };
        self.tags.push(tag);
        assert(tags_view(self.tags@) =~= tags_view(old(self).tags@).push(self.tags@.last()@));
        id
    }

    /// The id of the user's first tag whose name equals `name` up to ASCII
    /// case; without one, the id of the tag that creating `name` gives.
    pub fn tag_id_for_name(&mut self, name: &str) -> (r: String)
        requires
            old(self).next_id < u32::MAX,
        ensures
            match first_match(
                owned_tags_spec(tags_view(old(self).tags@), old(self).user_id@),
                tag_named_ignoring_case(name@),
            ) {
                Some(k) => r@ == owned_tags_spec(tags_view(old(self).tags@), old(self).user_id@)[k].id
                    && *final(self) == *old(self),
                None => tag_created(old(self), final(self), name@, r@),
            },
    {
        let owned = self.owned_tags();
        match find_tag_named_ignoring_case(&owned, name) {
            Some(k) => owned[k].id.clone(),
            None => self.create_tag(name.to_string()),
        }
    }

    /// Deletes every tag `tag_id` of the user, takes it off the user's notes,
    /// and shows all notes if the list showed that tag.
    pub fn delete_tag(&mut self, tag_id: &str)
        ensures
            tags_view(final(self).tags@) == keep_where(
                tags_view(old(self).tags@),
                not_tag(tag_id@, old(self).user_id@),
            ),
            notes_view(final(self).notes@) == notes_without_tag(
                notes_view(old(self).notes@),
                tag_id@,
                old(self).user_id@,
            ),
            filter_after_delete(old(self), final(self), FilterView::WithTag(tag_id@)),
            final(self).user_id == old(self).user_id,
            final(self).folders == old(self).folders,
            final(self).theme == old(self).theme,
            final(self).accent == old(self).accent,
            final(self).language == old(self).language,
            final(self).sync == old(self).sync,
            final(self).next_id == old(self).next_id,
    {
        let ghost tv = tags_view(self.tags@);
        let mut kept: Vec<Tag> = Vec::new();
        let mut i: usize = 0;
        while i < self.tags.len()
            invariant
                i <= self.tags.len(),
                tv == tags_view(self.tags@),
                tags_view(kept@) == keep_where(tv.take(i as int), not_tag(tag_id@, self.user_id@)),
            decreases self.tags.len() - i,
        {
            let tag = &self.tags[i];
            assert(tv.take(i + 1).drop_last() =~= tv.take(i as int));
            assert(tv.take(i + 1).last() == tag@);
            if !(str_eq(tag.id.as_str(), tag_id) && tag.user_id == self.user_id) {
                kept.push(tag.duplicate());
                assert(tags_view(kept@) =~= keep_where(tv.take(i + 1), not_tag(tag_id@, self.user_id@)));
            }
            i = i + 1;
        }
        assert(tv.take(self.tags.len() as int) =~= tv);
        self.tags = kept;

        let ghost nv = notes_view(self.notes@);
        let mut notes: Vec<Note> = Vec::new();
        let mut j: usize = 0;
        while j < self.notes.len()
            invariant
                j <= self.notes.len(),
                nv == notes_view(self.notes@),
                notes_view(notes@) == notes_without_tag(nv.take(j as int), tag_id@, self.user_id@),
            decreases self.notes.len() - j,
        {
            let mut note = self.notes[j].duplicate();
            assert(nv[j as int] == note@);
            if note.user_id == self.user_id {
                note.tag_ids = remove_string(&note.tag_ids, tag_id);
                assert(note@ == NoteView {
                    tag_ids: keep_where(nv[j as int].tag_ids, other_than(tag_id@)),
                    ..nv[j as int]
                });
            }
            notes.push(note);
            assert(nv.take(j + 1) =~= nv.take(j as int).push(nv[j as int]));
            assert(notes_without_tag(nv.take(j + 1), tag_id@, self.user_id@) =~= notes_without_tag(
                nv.take(j as int),
                tag_id@,
                self.user_id@,
            ).push(notes_view(notes@).last()));
            assert(notes_view(notes@) =~= notes_without_tag(nv.take(j + 1), tag_id@, self.user_id@));
            j = j + 1;
        }
        assert(nv.take(self.notes.len() as int) =~= nv);
        self.notes = notes;

        let shown = match &self.filter {
            NoteFilter::Tag(id) => str_eq(id.as_str(), tag_id),
            _ => false,
        };
        if shown {
            self.set_filter(NoteFilter::All);
        }
    }
}

/// `p` is what is saved of `s`: the user's notes, folders and tags in store
/// order, the settings and the identifier counter.
pub open spec fn saved_from(s: &NotesStore, p: &PersistedState) -> bool {
    &&& notes_view(p.notes@) == owned_notes_spec(notes_view(s.notes@), s.user_id@)
    &&& folders_view(p.folders@) == owned_folders_spec(folders_view(s.folders@), s.user_id@)
    &&& tags_view(p.tags@) == owned_tags_spec(tags_view(s.tags@), s.user_id@)
    &&& p.theme == s.theme
    &&& p.accent@ == s.accent@
    &&& p.language == s.language
    &&& p.sync == s.sync
    &&& p.next_id == s.next_id
}

/// `after` is `before` with the saved state `p` put back: its lists,
/// settings and counter; the user, the filter and the search stay.
pub open spec fn restored_from(before: &NotesStore, p: &PersistedState, after: &NotesStore) -> bool {
    &&& after.notes == p.notes
    &&& after.folders == p.folders
    &&& after.tags == p.tags
    &&& after.theme == p.theme
    &&& after.accent == p.accent
    &&& after.language == p.language
    &&& after.sync == p.sync
    &&& after.next_id == p.next_id
    &&& after.user_id == before.user_id
    &&& after.filter == before.filter
    &&& after.search == before.search
}

impl NotesStore {
    /// What is saved between sessions: the user's notes, folders and tags,
    /// the settings and the identifier counter.
    pub fn snapshot(&self) -> (r: PersistedState)
        ensures
            saved_from(self, &r),
    {
        PersistedState {
            notes: self.owned_notes(),
            folders: self.owned_folders(),
            tags: self.owned_tags(),
            theme: self.theme,
            accent: self.accent.clone(),
            language: self.language,
            sync: self.sync,
            next_id: self.next_id,
        }
    }

    /// Puts a saved state back.
    pub fn restore(&mut self, state: PersistedState)
        ensures
            restored_from(old(self), &state, final(self)),
    {
        self.notes = state.notes;
        self.folders = state.folders;
        self.tags = state.tags;
        self.theme = state.theme;
        self.accent = state.accent;
        self.language = state.language;
        self.sync = state.sync;
        self.next_id = state.next_id;
    }

    /// Forgets the user and their notes, folders and tags, and restarts the
    /// identifier counter; the settings, filter and search stay.
    pub fn clear_synced_entities(&mut self)
        ensures
            final(self).user_id@ == Seq::<char>::empty(),
            final(self).notes@.len() == 0,
            final(self).folders@.len() == 0,
            final(self).tags@.len() == 0,
            final(self).next_id == 1,
            final(self).filter == old(self).filter,
            final(self).search == old(self).search,
            final(self).theme == old(self).theme,
            final(self).accent == old(self).accent,
            final(self).language == old(self).language,
            final(self).sync == old(self).sync,
    {
        self.user_id = String::new();
        self.notes = Vec::new();
        self.folders = Vec::new();
        self.tags = Vec::new();
        self.next_id = 1;
    }
}

} // verus!
