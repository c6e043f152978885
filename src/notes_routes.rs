use crate::notes_model::Note;
use crate::notes_service::{is_recency_listing, is_update_of, lookup, NotesService};
use crate::render::{
    contains_text, content_to_markdown, find_text, first_20_chars, markdown_events_strikethrough,
    plain_text, rendered_html, truncated,
};
use vstd::prelude::*;
use vstd::string::StrSliceExecFns;
use vstd::string::StringExecFns;

verus! {

/// Fewest characters a note may hold.
pub const MIN_CONTENT_CHARS: usize = 1;

/// Most characters a note may hold.
pub const MAX_CONTENT_CHARS: usize = 1000;

/// Content of this many characters may be stored.
pub open spec fn valid_length(len: nat) -> bool {
    MIN_CONTENT_CHARS <= len <= MAX_CONTENT_CHARS
}

/// The title under which a note is listed: its plain text, cut to twenty
/// characters.
pub open spec fn list_title(content: Seq<char>) -> Seq<char> {
    truncated(plain_text(markdown_events_strikethrough(content)), 20)
}

/// The lower-case form of a text, as `str::to_lowercase` gives it.
pub uninterp spec fn lower_of(s: Seq<char>) -> Seq<char>;

/// Relies on str::to_lowercase: the result depends on the characters alone,
/// and the empty text stays empty.
#[verifier::external_body]
fn lowercase(s: &str) -> (r: String)
    ensures
        r@ == lower_of(s@),
        s@.len() == 0 ==> r@.len() == 0,
{
    s.to_lowercase()
}

/// A search query matches a note when the lower-cased query occurs in the
/// lower-cased content.
pub open spec fn search_hit(content: Seq<char>, query: Seq<char>) -> bool {
    contains_text(lower_of(content), lower_of(query))
}

/// An entry of the note list.
pub struct NoteListItem {
    pub id: i64,
    pub title: String,
}

impl NoteListItem {
    pub fn from(note: &Note) -> (r: NoteListItem)
        ensures
            r.id == note.id,
            r.title@ == list_title(note.content@),
    {
        NoteListItem { id: note.id, title: first_20_chars(note.content.as_str()) }
    }
}

/// The list entries of notes, in the same order.
pub fn note_list(notes: &Vec<Note>) -> (r: Vec<NoteListItem>)
    ensures
        r@.len() == notes@.len(),
        forall|i: int|
            0 <= i < r@.len() ==> (#[trigger] r@[i]).id == notes@[i].id && r@[i].title@ == list_title(
                notes@[i].content@,
            ),
{
    let mut out: Vec<NoteListItem> = Vec::new();
    let mut k: usize = 0;
    while k < notes.len()
        invariant
            k <= notes@.len(),
            out@.len() == k,
            forall|i: int|
                0 <= i < k ==> (#[trigger] out@[i]).id == notes@[i].id && out@[i].title@ == list_title(
                    notes@[i].content@,
                ),
        decreases notes@.len() - k,
    {
        out.push(NoteListItem::from(&notes[k]));
        k += 1;
    }
    out
}

/// The note form: the content being written, the note it edits if any, and
/// the reason the content was refused if it was.
pub struct NoteForm {
    pub id: Option<i64>,
    pub content: String,
    pub content_error: Option<String>,
}

impl Default for NoteForm {
    fn default() -> (r: NoteForm)
        ensures
            r.id.is_none(),
            r.content@.len() == 0,
            r.content_error.is_none(),
    {
        NoteForm { id: None, content: String::new(), content_error: None }
    }
}

impl NoteForm {
    /// A form holding an existing note, for editing.
    pub fn from(note: &Note) -> (r: NoteForm)
        ensures
            r.id == Some(note.id),
            r.content == note.content,
            r.content_error.is_none(),
    {
        NoteForm { id: Some(note.id), content: note.content.clone(), content_error: None }
    }

    /// Checks the content length. On failure the form records why; on
    /// success any earlier reason is cleared.
    pub fn is_valid(&mut self) -> (r: bool)
        ensures
            r == valid_length(old(self).content@.len()),
            final(self).id == old(self).id,
            final(self).content == old(self).content,
            r <==> final(self).content_error.is_none(),
            final(self).content_error matches Some(m) ==> m@ == (if old(self).content@.len() < MIN_CONTENT_CHARS {
                "Content is too short. It must be at least 1 characters long."@
            } else {
                "Content is too long. It must be no more than 1000 characters long."@
            }),
    {
        let len = self.content.as_str().unicode_len();
        if len < MIN_CONTENT_CHARS {
            self.content_error = Some(
                String::from_str("Content is too short. It must be at least 1 characters long."),
            );
            false
        } else if len > MAX_CONTENT_CHARS {
            self.content_error = Some(
                String::from_str(
                    "Content is too long. It must be no more than 1000 characters long.",
                ),
            );
            false
        } else {
            self.content_error = None;
            true
        }
    }
}

/// The page that lists the notes, with a form for a new one.
pub struct IndexTemplate {
    pub note_list: Vec<NoteListItem>,
    pub note_form: NoteForm,
}

/// The page that shows one note rendered.
pub struct ShowTemplate {
    pub note_list: Vec<NoteListItem>,
    pub preview: String,
    pub selected_note: Note,
}

/// The page that edits one note.
pub struct EditTemplate {
    pub note_list: Vec<NoteListItem>,
    pub note_form: NoteForm,
}

/// The query of a search.
pub struct SearchQuery {
    pub search: String,
}

/// A note that a search found, rendered.
pub struct NoteSearchPreview {
    pub id: i64,
    pub preview: String,
}

/// The page of search results.
pub struct SearchTemplate {
    pub note_list: Vec<NoteListItem>,
    pub filtered_notes: Vec<NoteSearchPreview>,
    pub search: String,
}

/// Whether lower-cased `query_lower` occurs in lower-cased `content_lower`.
pub fn matches_folded(content_lower: &str, query_lower: &str) -> (r: bool)
    ensures
        r == contains_text(content_lower@, query_lower@),
{
    find_text(content_lower, query_lower)
}

/// Whether a search for `query` finds `content`, ignoring case.
pub fn search_matches(content: &str, query: &str) -> (r: bool)
    ensures
        r == search_hit(content@, query@),
{
    let c = lowercase(content);
    let q = lowercase(query);
    matches_folded(c.as_str(), q.as_str())
}

/// The notes that a search finds, in their order.
pub open spec fn search_hits(notes: Seq<Note>, query: Seq<char>) -> Seq<Note>
    decreases notes.len(),
{
    if notes.len() == 0 {
        Seq::empty()
    } else {
        let rest = search_hits(notes.drop_last(), query);
        if search_hit(notes.last().content@, query) {
            rest.push(notes.last())
        } else {
            rest
        }
    }
}

/// `previews` shows `hits` one for one: the same ids, each note rendered.
pub open spec fn shows_hits(previews: Seq<NoteSearchPreview>, hits: Seq<Note>) -> bool {
    &&& previews.len() == hits.len()
    &&& forall|i: int|
        0 <= i < previews.len() ==> (#[trigger] previews[i]).id == hits[i].id && previews[i].preview@
            == rendered_html(hits[i].content@)
}

/// The notes that a search finds, in their order, each rendered.
pub fn search_notes(notes: &Vec<Note>, search: &str) -> (r: Vec<NoteSearchPreview>)
    ensures
        shows_hits(r@, search_hits(notes@, search@)),
{
    let mut out: Vec<NoteSearchPreview> = Vec::new();
    let mut k: usize = 0;
    while k < notes.len()
        invariant
            k <= notes@.len(),
            shows_hits(out@, search_hits(notes@.take(k as int), search@)),
        decreases notes@.len() - k,
    {
        proof {
            assert(notes@.take(k + 1).drop_last() == notes@.take(k as int));
            assert(notes@.take(k + 1).last() == notes@[k as int]);
        }
        let note = &notes[k];
        if search_matches(note.content.as_str(), search) {
            let preview = content_to_markdown(note.content.as_str());
            let ghost before = out@;
            out.push(NoteSearchPreview { id: note.id, preview });
            proof {
                let hits = search_hits(notes@.take(k + 1), search@);
                assert(hits == search_hits(notes@.take(k as int), search@).push(notes@[k as int]));
                assert forall|i: int| 0 <= i < out@.len() implies (#[trigger] out@[i]).id == hits[i].id
                    && out@[i].preview@ == rendered_html(hits[i].content@) by {
                    if i < before.len() {
                        assert(out@[i] == before[i]);
                    }
                }
            }
        }
        k += 1;
    }
    proof {
        assert(notes@.take(k as int) == notes@);
    }
    out
}

/// `items` lists `notes` entry for entry: the same ids, each titled by its
/// content.
pub open spec fn lists(items: Seq<NoteListItem>, notes: Seq<Note>) -> bool {
    &&& items.len() == notes.len()
    &&& forall|i: int|
        0 <= i < items.len() ==> (#[trigger] items[i]).id == notes[i].id && items[i].title@ == list_title(
            notes[i].content@,
        )
}

/// `items` lists every note of `user_id`, newest first.
pub open spec fn lists_owner_notes(items: Seq<NoteListItem>, service: NotesService, user_id: Seq<char>) -> bool {
    exists|l: Seq<Note>| is_recency_listing(l, service.notes@, user_id) && #[trigger] lists(items, l)
}

/// The list entries of `user_id`'s notes, newest first.
pub fn owner_note_list(service: &NotesService, user_id: &String) -> (r: Vec<NoteListItem>)
    requires
        service.wf(),
    ensures
        lists_owner_notes(r@, *service, user_id@),
{
    let notes = service.all_notes_ordered_by_most_recent(user_id);
    let r = note_list(&notes);
    proof {
        assert(lists(r@, notes@));
    }
    r
}

/// The front page of `user_id`: their notes and an empty form.
pub fn index(service: &NotesService, user_id: &String) -> (r: IndexTemplate)
    requires
        service.wf(),
    ensures
        lists_owner_notes(r.note_list@, *service, user_id@),
        r.note_form.id.is_none(),
        r.note_form.content@.len() == 0,
        r.note_form.content_error.is_none(),
{
    IndexTemplate { note_list: owner_note_list(service, user_id), note_form: NoteForm::default() }
}

/// The page showing note `id` rendered, if `user_id` owns such a note.
pub fn show_note(service: &NotesService, id: i64, user_id: &String) -> (r: Option<ShowTemplate>)
    requires
        service.wf(),
    ensures
        r.is_some() == lookup(service.notes@, id, user_id@).is_some(),
        r matches Some(t) ==> Some(t.selected_note) == lookup(service.notes@, id, user_id@)
            && t.preview@ == rendered_html(t.selected_note.content@)
            && lists_owner_notes(t.note_list@, *service, user_id@),
{
    match service.note_by_id(id, user_id) {
        Some(note) => {
            let preview = content_to_markdown(note.content.as_str());
            Some(
                ShowTemplate {
                    note_list: owner_note_list(service, user_id),
                    preview,
                    selected_note: note,
                },
            )
        },
        None => None,
    }
}

/// The page editing note `id`, if `user_id` owns such a note.
pub fn edit_note(service: &NotesService, id: i64, user_id: &String) -> (r: Option<EditTemplate>)
    requires
        service.wf(),
    ensures
        r.is_some() == lookup(service.notes@, id, user_id@).is_some(),
        r matches Some(t) ==> {
            let n = lookup(service.notes@, id, user_id@).unwrap();
            &&& t.note_form.id == Some(n.id)
            &&& t.note_form.content == n.content
            &&& t.note_form.content_error.is_none()
            &&& lists_owner_notes(t.note_list@, *service, user_id@)
        },
{
    match service.note_by_id(id, user_id) {
        Some(note) => Some(
            EditTemplate {
                note_list: owner_note_list(service, user_id),
                note_form: NoteForm::from(&note),
            },
        ),
        None => None,
    }
}

/// The results page of a search among `user_id`'s notes: the list of their
/// notes and, out of that same list, the notes found, in order.
pub fn search_note(service: &NotesService, search: String, user_id: &String) -> (r: SearchTemplate)
    requires
        service.wf(),
    ensures
        r.search == search,
        exists|l: Seq<Note>|
            is_recency_listing(l, service.notes@, user_id@) && #[trigger] lists(r.note_list@, l)
                && shows_hits(r.filtered_notes@, search_hits(l, search@)),
{
    let notes = service.all_notes_ordered_by_most_recent(user_id);
    let query = search.as_str();
    let filtered_notes = search_notes(&notes, query);
    let note_list = note_list(&notes);
    proof {
        assert(query@ == search@);
        assert(lists(note_list@, notes@));
        assert(shows_hits(filtered_notes@, search_hits(notes@, search@)));
        assert(is_recency_listing(notes@, service.notes@, user_id@));
    }
    let ghost query_text = search@;
    let r = SearchTemplate { note_list, filtered_notes, search };
    proof {
        assert(r.search@ == query_text);
        assert(lists(r.note_list@, notes@));
        assert(shows_hits(r.filtered_notes@, search_hits(notes@, query_text)));
    }
    r
}

/// What a submitted note form leads to.
pub enum FormOutcome {
    /// The content was refused; the front page is shown again with the reason.
    Refused(IndexTemplate),
    /// The note was saved under this id.
    Saved(i64),
    /// Nothing was saved: the note to update does not exist, or the store
    /// has no id left to give.
    NotSaved,
}

/// Handles the form for a new note of `user_id`, created at `now`.
pub fn create_note(service: &mut NotesService, user_id: String, note_form: NoteForm, now: u64) -> (r: FormOutcome)
    requires
        old(service).wf(),
    ensures
        final(service).wf(),
        !valid_length(note_form.content@.len()) ==> *final(service) == *old(service) && (r matches FormOutcome::Refused(page)
            && page.note_form.content == note_form.content && page.note_form.content_error.is_some()
            && lists_owner_notes(page.note_list@, *old(service), user_id@)),
        valid_length(note_form.content@.len()) && old(service).next_id < i64::MAX ==> r == FormOutcome::Saved(old(service).next_id)
            && final(service).notes@.len() == old(service).notes@.len() + 1
            && final(service).notes@.last().id == old(service).next_id
            && final(service).notes@.last().content == note_form.content
            && final(service).notes@.last().user_id == user_id
            && final(service).notes@.last().created_at == now,
        valid_length(note_form.content@.len()) && old(service).next_id == i64::MAX ==> r == FormOutcome::NotSaved
            && *final(service) == *old(service),
{
    let mut note_form = note_form;
    if !note_form.is_valid() {
        let note_list = owner_note_list(service, &user_id);
        return FormOutcome::Refused(IndexTemplate { note_list, note_form });
    }
    match service.create_note(note_form.content, user_id, now) {
        Some(note) => FormOutcome::Saved(note.id),
        None => FormOutcome::NotSaved,
    }
}

/// Handles the form editing a note, at `now`. As in the store, the owner of
/// the note is not checked again here.
pub fn update_note(service: &mut NotesService, user_id: &String, note_form: NoteForm, now: u64) -> (r: FormOutcome)
    requires
        old(service).wf(),
    ensures
        final(service).wf(),
        final(service).next_id == old(service).next_id,
        !valid_length(note_form.content@.len()) ==> *final(service) == *old(service) && (r matches FormOutcome::Refused(page)
            && page.note_form.content == note_form.content && page.note_form.content_error.is_some()
            && lists_owner_notes(page.note_list@, *old(service), user_id@)),
        valid_length(note_form.content@.len()) ==> match note_form.id {
            Some(id) => if exists|i: int| 0 <= i < old(service).notes@.len() && (#[trigger] old(service).notes@[i]).id == id {
                r == FormOutcome::Saved(id) && exists|i: int|
                    0 <= i < old(service).notes@.len() && (#[trigger] old(service).notes@[i]).id == id
                        && final(service).notes@[i].content@ == note_form.content@
                        && final(service).notes@.len() == old(service).notes@.len()
            } else {
                r == FormOutcome::NotSaved && final(service).notes@ == old(service).notes@
            },
            None => r == FormOutcome::NotSaved && *final(service) == *old(service),
        },
{
    let mut note_form = note_form;
    if !note_form.is_valid() {
        let note_list = owner_note_list(service, user_id);
        return FormOutcome::Refused(IndexTemplate { note_list, note_form });
    }
    match note_form.id {
        Some(id) => {
            let ghost content = note_form.content;
            match service.update_note(note_form.content, id, now) {
                Some(note) => {
                    proof {
                        let i = choose|i: int|
                            0 <= i < old(service).notes@.len() && (#[trigger] old(service).notes@[i]).id == id
                                && is_update_of(note, old(service).notes@[i], content@, now)
                                && service.notes@ == old(service).notes@.update(i, note);
                        assert(service.notes@[i] == note);
                        assert(note.content@ == content@);
                    }
                    FormOutcome::Saved(note.id)
                },
                None => FormOutcome::NotSaved,
            }
        },
        None => FormOutcome::NotSaved,
    }
}

} // verus!
