//! Laws of the notes store that span its operations.
use vstd::prelude::*;

use crate::note::NoteView;
use crate::notes::{
    is_visible, lemma_keep_where_contains, matches_search, FilterView,
    lemma_first_match_none, lemma_first_match_same_keys, note_changed, note_id_is, note_read, not_note,
    count_where, first_match, folders_view, has_tag, in_folder, keep_where, lemma_first_match_facts,
    lemma_first_match_some, note_edited, note_inserted, normalized_tag_name, is_note, notes_out_of_folder, notes_without_tag, other_than,
    owned_folders_spec, owned_notes_spec, owned_tags_spec, restored_from, saved_from, tag_created,
    tag_named, tags_view, FolderView, NotesStore, PersistedState, PinnedThenRecent, TagView,
};
use crate::reminders::notes_view;
use crate::sorting::{lemma_sort_ordered, sort_ordered, total_preorder, Order};

verus! {

proof fn lemma_pinned_then_recent_total()
    ensures
        total_preorder::<crate::note::Note, PinnedThenRecent>(),
{
}

/// The note list shows pinned notes before unpinned ones and, among notes
/// alike in that, the higher list order first; it shows each passing note
/// exactly once.
pub proof fn lemma_visible_notes_order(s: Seq<NoteView>)
    ensures
        ({
            let shown = sort_ordered::<crate::note::Note, PinnedThenRecent>(s);
            &&& shown.to_multiset() == s.to_multiset()
            &&& forall|i: int, j: int|
                0 <= i < j < shown.len() ==> (shown[i].pinned || !shown[j].pinned) && (
                shown[i].pinned == shown[j].pinned ==> shown[i].order >= shown[j].order)
        }),
{
    lemma_pinned_then_recent_total();
    lemma_sort_ordered::<crate::note::Note, PinnedThenRecent>(s);
    let shown = sort_ordered::<crate::note::Note, PinnedThenRecent>(s);
    assert forall|i: int, j: int| 0 <= i < j < shown.len() implies (shown[i].pinned
        || !shown[j].pinned) && (shown[i].pinned == shown[j].pinned ==> shown[i].order
        >= shown[j].order) by {
        assert(<PinnedThenRecent as Order<crate::note::Note>>::le(shown[i], shown[j]));
    }
}

proof fn lemma_owned_notes_twice(s: Seq<NoteView>, uid: Seq<char>)
    ensures
        owned_notes_spec(owned_notes_spec(s, uid), uid) == owned_notes_spec(s, uid),
    decreases s.len(),
{
    if s.len() > 0 {
        lemma_owned_notes_twice(s.drop_last(), uid);
        let o = owned_notes_spec(s.drop_last(), uid);
        if s.last().user_id == uid {
            assert(o.push(s.last()).drop_last() =~= o);
        }
    }
}

proof fn lemma_owned_folders_twice(s: Seq<FolderView>, uid: Seq<char>)
    ensures
        owned_folders_spec(owned_folders_spec(s, uid), uid) == owned_folders_spec(s, uid),
    decreases s.len(),
{
    if s.len() > 0 {
        lemma_owned_folders_twice(s.drop_last(), uid);
        let o = owned_folders_spec(s.drop_last(), uid);
        if s.last().user_id == uid {
            assert(o.push(s.last()).drop_last() =~= o);
        }
    }
}

proof fn lemma_owned_tags_twice(s: Seq<TagView>, uid: Seq<char>)
    ensures
        owned_tags_spec(owned_tags_spec(s, uid), uid) == owned_tags_spec(s, uid),
    decreases s.len(),
{
    if s.len() > 0 {
        lemma_owned_tags_twice(s.drop_last(), uid);
        let o = owned_tags_spec(s.drop_last(), uid);
        if s.last().user_id == uid {
            assert(o.push(s.last()).drop_last() =~= o);
        }
    }
}

/// Restoring what was saved gives the user back the same notes, folders and
/// tags, in the same order, the same settings and the same identifier
/// counter; the user, filter and search stay.
pub proof fn lemma_snapshot_restore(s: NotesStore, saved: PersistedState, t: NotesStore)
    requires
        saved_from(&s, &saved),
        restored_from(&s, &saved, &t),
    ensures
        owned_notes_spec(notes_view(t.notes@), t.user_id@) == owned_notes_spec(
            notes_view(s.notes@),
            s.user_id@,
        ),
        owned_folders_spec(folders_view(t.folders@), t.user_id@) == owned_folders_spec(
            folders_view(s.folders@),
            s.user_id@,
        ),
        owned_tags_spec(tags_view(t.tags@), t.user_id@) == owned_tags_spec(
            tags_view(s.tags@),
            s.user_id@,
        ),
        t.theme == s.theme,
        t.accent@ == s.accent@,
        t.language == s.language,
        t.sync == s.sync,
        t.next_id == s.next_id,
        t.user_id == s.user_id,
        t.filter == s.filter,
        t.search == s.search,
{
    lemma_owned_notes_twice(notes_view(s.notes@), s.user_id@);
    lemma_owned_folders_twice(folders_view(s.folders@), s.user_id@);
    lemma_owned_tags_twice(tags_view(s.tags@), s.user_id@);
}

proof fn lemma_owned_tags_push(s: Seq<TagView>, uid: Seq<char>, x: TagView)
    requires
        x.user_id == uid,
    ensures
        owned_tags_spec(s.push(x), uid) == owned_tags_spec(s, uid).push(x),
{
    assert(s.push(x).drop_last() =~= s);
}

/// Creating a tag twice under one name gives one id and leaves the store as
/// the first creation left it.
pub proof fn lemma_create_tag_twice(
    s0: NotesStore,
    s1: NotesStore,
    s2: NotesStore,
    name: Seq<char>,
    r1: Seq<char>,
    r2: Seq<char>,
)
    requires
        tag_created(&s0, &s1, name, r1),
        tag_created(&s1, &s2, name, r2),
    ensures
        r2 == r1,
        s2 == s1,
{
    let norm = normalized_tag_name(name);
    let owned0 = owned_tags_spec(tags_view(s0.tags@), s0.user_id@);
    lemma_first_match_facts(owned0, tag_named(norm));
    match first_match(owned0, tag_named(norm)) {
        Some(k) => {},
        None => {
            let x = tags_view(s1.tags@).last();
            assert(tags_view(s1.tags@).last() == tags_view(s1.tags@)[tags_view(s1.tags@).len() - 1]);
            lemma_owned_tags_push(tags_view(s0.tags@), s0.user_id@, x);
            let owned1 = owned0.push(x);
            assert forall|j: int| 0 <= j < owned0.len() implies !(tag_named(norm))(owned1[j]) by {
                assert(owned1[j] == owned0[j]);
            }
            lemma_first_match_some(owned1, tag_named(norm), owned0.len() as int);
        },
    }
}

proof fn lemma_no_note_left_in_folder(s: Seq<NoteView>, id: Seq<char>, uid: Seq<char>)
    ensures
        count_where(owned_notes_spec(notes_out_of_folder(s, id, uid), uid), in_folder(id)) == 0,
    decreases s.len(),
{
    if s.len() > 0 {
        lemma_no_note_left_in_folder(s.drop_last(), id, uid);
        assert(notes_out_of_folder(s, id, uid).drop_last() =~= notes_out_of_folder(
            s.drop_last(),
            id,
            uid,
        ));
        let o = owned_notes_spec(notes_out_of_folder(s.drop_last(), id, uid), uid);
        assert(o.push(notes_out_of_folder(s, id, uid).last()).drop_last() =~= o);
    }
}

/// After a folder is deleted none of the user's notes is in it.
pub proof fn lemma_delete_folder_empties_it(before: Seq<NoteView>, after: Seq<NoteView>, id: Seq<char>, uid: Seq<char>)
    requires
        after == notes_out_of_folder(before, id, uid),
    ensures
        count_where(owned_notes_spec(after, uid), in_folder(id)) == 0,
{
    lemma_no_note_left_in_folder(before, id, uid);
}

proof fn lemma_kept_lacks(s: Seq<Seq<char>>, id: Seq<char>)
    ensures
        !keep_where(s, other_than(id)).contains(id),
    decreases s.len(),
{
    if s.len() > 0 {
        lemma_kept_lacks(s.drop_last(), id);
        let k = keep_where(s.drop_last(), other_than(id));
        if s.last() != id {
            assert forall|j: int| 0 <= j < k.push(s.last()).len() implies k.push(s.last())[j] != id by {
                if j < k.len() {
                    assert(k.push(s.last())[j] == k[j]);
                }
            }
        }
    }
}

proof fn lemma_no_note_left_with_tag(s: Seq<NoteView>, id: Seq<char>, uid: Seq<char>)
    ensures
        count_where(owned_notes_spec(notes_without_tag(s, id, uid), uid), has_tag(id)) == 0,
    decreases s.len(),
{
    if s.len() > 0 {
        lemma_no_note_left_with_tag(s.drop_last(), id, uid);
        assert(notes_without_tag(s, id, uid).drop_last() =~= notes_without_tag(s.drop_last(), id, uid));
        let o = owned_notes_spec(notes_without_tag(s.drop_last(), id, uid), uid);
        assert(o.push(notes_without_tag(s, id, uid).last()).drop_last() =~= o);
        lemma_kept_lacks(s.last().tag_ids, id);
    }
}

/// After a tag is deleted none of the user's notes carries it.
pub proof fn lemma_delete_tag_clears_it(before: Seq<NoteView>, after: Seq<NoteView>, id: Seq<char>, uid: Seq<char>)
    requires
        after == notes_without_tag(before, id, uid),
    ensures
        count_where(owned_notes_spec(after, uid), has_tag(id)) == 0,
{
    lemma_no_note_left_with_tag(before, id, uid);
}

/// Every note's list order is below the identifier counter, as it is for
/// notes that the store created or edited.
pub open spec fn orders_below_counter(s: &NotesStore) -> bool {
    forall|i: int| 0 <= i < s.notes@.len() ==> #[trigger] s.notes@[i].order < s.next_id
}

/// An edited note gets a list order above every other note's, so the list
/// shows it first among notes alike in pinning; the orders stay below the
/// counter.
pub proof fn lemma_edited_note_comes_first(
    before: NotesStore,
    after: NotesStore,
    id: Seq<char>,
    change: spec_fn(NoteView) -> NoteView,
)
    requires
        orders_below_counter(&before),
        note_edited(&before, &after, id, change),
    ensures
        orders_below_counter(&after),
        match first_match(notes_view(before.notes@), is_note(id, before.user_id@)) {
            Some(k) => forall|j: int|
                0 <= j < after.notes@.len() && j != k ==> #[trigger] after.notes@[j].order
                    < after.notes@[k].order,
            None => true,
        },
{
    let nb = notes_view(before.notes@);
    let na = notes_view(after.notes@);
    lemma_first_match_facts(nb, is_note(id, before.user_id@));
    match first_match(nb, is_note(id, before.user_id@)) {
        Some(k) => {
            assert(na.len() == nb.len());
            assert forall|i: int| 0 <= i < after.notes@.len() implies #[trigger] after.notes@[i].order
                < after.next_id by {
                assert(na[i].order == after.notes@[i].order);
                assert(nb[i].order == before.notes@[i].order);
            }
            assert forall|j: int| 0 <= j < after.notes@.len() && j != k implies #[trigger] after.notes@[j].order
                < after.notes@[k].order by {
                assert(na[j].order == after.notes@[j].order);
                assert(na[k].order == after.notes@[k].order);
                assert(nb[j].order == before.notes@[j].order);
            }
        },
        None => {},
    }
}

/// A new note gets a list order above every other note's, so the list shows
/// it first among unpinned notes; the orders stay below the counter.
pub proof fn lemma_new_note_comes_first(
    before: NotesStore,
    after: NotesStore,
    id: Seq<char>,
    folder_id: Option<Seq<char>>,
    tag_ids: Seq<Seq<char>>,
    date_ms: i64,
)
    requires
        orders_below_counter(&before),
        note_inserted(&before, &after, id, folder_id, tag_ids, date_ms),
    ensures
        orders_below_counter(&after),
        forall|j: int| 1 <= j < after.notes@.len() ==> #[trigger] after.notes@[j].order
            < after.notes@[0].order,
{
    let nb = notes_view(before.notes@);
    let na = notes_view(after.notes@);
    assert(na[0].order == after.notes@[0].order);
    assert forall|i: int| 0 <= i < after.notes@.len() implies #[trigger] after.notes@[i].order
        < after.next_id by {
        assert(na[i].order == after.notes@[i].order);
        if i > 0 {
            assert(na.drop_first()[i - 1] == na[i]);
            assert(nb[i - 1].order == before.notes@[i - 1].order);
        }
    }
    assert forall|j: int| 1 <= j < after.notes@.len() implies #[trigger] after.notes@[j].order
        < after.notes@[0].order by {
        assert(na[j].order == after.notes@[j].order);
        assert(na.drop_first()[j - 1] == na[j]);
        assert(nb[j - 1].order == before.notes@[j - 1].order);
    }
}

proof fn lemma_first_match_push<V>(s: Seq<V>, x: V, p: spec_fn(V) -> bool)
    ensures
        first_match(s.push(x), p) == match first_match(s, p) {
            Some(k) => Some(k),
            None => if p(x) {
                Some(s.len() as int)
            } else {
                None
            },
        },
{
    lemma_first_match_facts(s, p);
    let t = s.push(x);
    match first_match(s, p) {
        Some(k) => {
            assert forall|j: int| 0 <= j < k implies !p(t[j]) by {
                assert(t[j] == s[j]);
            }
            assert(t[k] == s[k]);
            lemma_first_match_some(t, p, k);
        },
        None => {
            assert forall|j: int| 0 <= j < s.len() implies !p(t[j]) by {
                assert(t[j] == s[j]);
            }
            if p(x) {
                lemma_first_match_some(t, p, s.len() as int);
            } else {
                lemma_first_match_none(t, p);
            }
        },
    }
}

/// The user's first note `id` among all notes is their first note `id`
/// among their own notes.
proof fn lemma_owned_first(s: Seq<NoteView>, uid: Seq<char>, id: Seq<char>)
    ensures
        match first_match(s, is_note(id, uid)) {
            Some(k) => first_match(owned_notes_spec(s, uid), note_id_is(id)) matches Some(j) && 0
                <= j < owned_notes_spec(s, uid).len() && owned_notes_spec(s, uid)[j] == s[k],
            None => first_match(owned_notes_spec(s, uid), note_id_is(id)) is None,
        },
    decreases s.len(),
{
    lemma_first_match_facts(s, is_note(id, uid));
    if s.len() == 0 {
        lemma_first_match_none(owned_notes_spec(s, uid), note_id_is(id));
    } else {
        let prev = s.drop_last();
        let x = s.last();
        lemma_owned_first(prev, uid, id);
        assert(prev.push(x) =~= s);
        lemma_first_match_push(prev, x, is_note(id, uid));
        let op = owned_notes_spec(prev, uid);
        lemma_first_match_facts(op, note_id_is(id));
        lemma_first_match_facts(prev, is_note(id, uid));
        let os = owned_notes_spec(s, uid);
        if x.user_id == uid {
            assert(os == op.push(x));
            lemma_first_match_push(op, x, note_id_is(id));
            assert((is_note(id, uid))(x) == (note_id_is(id))(x));
            match first_match(prev, is_note(id, uid)) {
                Some(k) => {
                    let j = first_match(op, note_id_is(id))->0;
                    assert(os[j] == op[j]);
                    assert(s[k] == prev[k]);
                },
                None => {
                    assert(os[op.len() as int] == x);
                    assert(s[prev.len() as int] == x);
                },
            }
        } else {
            assert(os == op);
            assert(!(is_note(id, uid))(x));
            match first_match(prev, is_note(id, uid)) {
                Some(k) => {
                    assert(s[k] == prev[k]);
                },
                None => {},
            }
        }
    }
}

/// What a read gives back of an edit: after the user's note `id` is edited
/// (and touched), reading note `id` gives the edited note, with the old
/// identifier counter as its list order.
pub proof fn lemma_read_after_edit(
    before: NotesStore,
    after: NotesStore,
    id: Seq<char>,
    change: spec_fn(NoteView) -> NoteView,
)
    requires
        note_edited(&before, &after, id, change),
        note_read(&before, id) is Some,
        forall|n: NoteView| #[trigger] change(n).id == n.id && change(n).user_id == n.user_id,
    ensures
        note_read(&after, id) matches Some(n) && n == (NoteView {
            order: before.next_id as i64,
            updated_at_ms: n.updated_at_ms,
            ..change(note_read(&before, id)->0)
        }),
{
    let uid = before.user_id@;
    let nb = notes_view(before.notes@);
    let na = notes_view(after.notes@);
    lemma_owned_first(nb, uid, id);
    lemma_first_match_facts(nb, is_note(id, uid));
    let k = first_match(nb, is_note(id, uid))->0;
    let edited = NoteView {
        order: before.next_id as i64,
        updated_at_ms: na[k].updated_at_ms,
        ..change(nb[k])
    };
    assert(na == nb.update(k, edited));
    assert forall|j: int| 0 <= j < nb.len() implies nb[j].id == na[j].id && nb[j].user_id
        == na[j].user_id by {
        if j == k {
            assert(change(nb[k]).id == nb[k].id && change(nb[k]).user_id == nb[k].user_id);
        }
    }
    lemma_first_match_same_keys(nb, na, id, uid);
    lemma_owned_first(na, uid, id);
}

/// What a read gives back of a pin or star: reading note `id` gives the
/// changed note.
pub proof fn lemma_read_after_change(
    before: NotesStore,
    after: NotesStore,
    id: Seq<char>,
    change: spec_fn(NoteView) -> NoteView,
)
    requires
        note_changed(&before, &after, id, change),
        note_read(&before, id) is Some,
        forall|n: NoteView| #[trigger] change(n).id == n.id && change(n).user_id == n.user_id,
    ensures
        note_read(&after, id) == Some(change(note_read(&before, id)->0)),
{
    let uid = before.user_id@;
    let nb = notes_view(before.notes@);
    let na = notes_view(after.notes@);
    lemma_owned_first(nb, uid, id);
    lemma_first_match_facts(nb, is_note(id, uid));
    let k = first_match(nb, is_note(id, uid))->0;
    assert forall|j: int| 0 <= j < nb.len() implies nb[j].id == na[j].id && nb[j].user_id
        == na[j].user_id by {
        if j == k {
            assert(change(nb[k]).id == nb[k].id && change(nb[k]).user_id == nb[k].user_id);
        }
    }
    lemma_first_match_same_keys(nb, na, id, uid);
    lemma_owned_first(na, uid, id);
}

/// Reading a note just created gives it back.
pub proof fn lemma_read_after_insert(
    before: NotesStore,
    after: NotesStore,
    id: Seq<char>,
    folder_id: Option<Seq<char>>,
    tag_ids: Seq<Seq<char>>,
    date_ms: i64,
)
    requires
        note_inserted(&before, &after, id, folder_id, tag_ids, date_ms),
    ensures
        note_read(&after, id) == Some(notes_view(after.notes@)[0]),
{
    let uid = after.user_id@;
    let na = notes_view(after.notes@);
    lemma_first_match_some(na, is_note(id, uid), 0);
    lemma_owned_first(na, uid, id);
}

proof fn lemma_no_note_left(s: Seq<NoteView>, id: Seq<char>, uid: Seq<char>)
    ensures
        first_match(owned_notes_spec(keep_where(s, not_note(id, uid)), uid), note_id_is(id)) is None,
    decreases s.len(),
{
    let kept = keep_where(s, not_note(id, uid));
    let owned = owned_notes_spec(kept, uid);
    if s.len() > 0 {
        lemma_no_note_left(s.drop_last(), id, uid);
        let prev_owned = owned_notes_spec(keep_where(s.drop_last(), not_note(id, uid)), uid);
        lemma_first_match_facts(prev_owned, note_id_is(id));
        if (not_note(id, uid))(s.last()) {
            let pk = keep_where(s.drop_last(), not_note(id, uid));
            assert(pk.push(s.last()).drop_last() =~= pk);
            if s.last().user_id == uid {
                lemma_first_match_push(prev_owned, s.last(), note_id_is(id));
            }
        }
    } else {
        lemma_first_match_none(owned, note_id_is(id));
    }
}

/// After a note is deleted, reading it gives nothing.
pub proof fn lemma_read_after_delete(before: NotesStore, after: NotesStore, id: Seq<char>)
    requires
        notes_view(after.notes@) == keep_where(notes_view(before.notes@), not_note(id, before.user_id@)),
        after.user_id == before.user_id,
    ensures
        note_read(&after, id) is None,
{
    lemma_no_note_left(notes_view(before.notes@), id, before.user_id@);
}

/// What the note list shows, over all stores: exactly the user's notes that
/// the filter lets through (all; starred ones; pinned ones; those in the
/// folder; those with the tag) and that match the search.
pub proof fn lemma_visible_notes_contents(
    owned: Seq<NoteView>,
    filter: FilterView,
    search: Seq<char>,
    n: NoteView,
)
    ensures
        sort_ordered::<crate::note::Note, PinnedThenRecent>(
            keep_where(owned, is_visible(filter, search)),
        ).contains(n) <==> {
            &&& owned.contains(n)
            &&& (filter is Starred ==> n.starred)
            &&& (filter is Pinned ==> n.pinned)
            &&& (filter matches FilterView::InFolder(id) ==> n.folder_id == Some(id))
            &&& (filter matches FilterView::WithTag(id) ==> n.tag_ids.contains(id))
            &&& matches_search(search, n)
        },
{
    broadcast use vstd::seq_lib::group_to_multiset_ensures;

    let kept = keep_where(owned, is_visible(filter, search));
    lemma_pinned_then_recent_total();
    lemma_sort_ordered::<crate::note::Note, PinnedThenRecent>(kept);
    lemma_keep_where_contains(owned, is_visible(filter, search), n);
    let shown = sort_ordered::<crate::note::Note, PinnedThenRecent>(kept);
    assert(shown.contains(n) <==> shown.to_multiset().count(n) > 0);
    assert(kept.contains(n) <==> kept.to_multiset().count(n) > 0);
}

} // verus!
