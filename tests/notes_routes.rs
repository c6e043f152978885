use ephemeral_notes::notes_model::Note;
use ephemeral_notes::notes_routes::{
    create_note, edit_note, index, search_matches, search_note, show_note, update_note,
    FormOutcome, NoteForm, NoteListItem,
};
use ephemeral_notes::notes_service::NotesService;

fn form(content: &str) -> NoteForm {
    NoteForm { id: None, content: content.to_string(), content_error: None }
}

#[test]
fn empty_content_is_rejected() {
    let mut f = form("");
    assert!(!f.is_valid());
    assert_eq!(
        f.content_error.as_deref(),
        Some("Content is too short. It must be at least 1 characters long.")
    );
}

#[test]
fn content_at_maximum_is_accepted() {
    let mut f = form(&"a".repeat(1000));
    assert!(f.is_valid());
    assert!(f.content_error.is_none());
    let mut g = form(&"é".repeat(1000));
    assert!(g.is_valid());
}

#[test]
fn content_beyond_maximum_is_rejected() {
    let mut f = form(&"a".repeat(1001));
    assert!(!f.is_valid());
    assert_eq!(
        f.content_error.as_deref(),
        Some("Content is too long. It must be no more than 1000 characters long.")
    );
    let mut g = form("x");
    g.content_error = Some("stale".to_string());
    assert!(g.is_valid());
    assert!(g.content_error.is_none());
}

#[test]
fn form_and_list_item_from_note() {
    let n = Note {
        id: 3,
        content: "Some **bold** words in a long note".to_string(),
        created_at: 5,
        updated_at: None,
        user_id: "u".to_string(),
    };
    let f = NoteForm::from(&n);
    assert_eq!(f.id, Some(3));
    assert_eq!(f.content, n.content);
    let item = NoteListItem::from(&n);
    assert_eq!(item.id, 3);
    assert_eq!(item.title, "Some bold words in a");
}

#[test]
fn search_ignores_case() {
    assert!(search_matches("Hello World", "WORLD"));
    assert!(!search_matches("Hello", "bye"));
    let mut store = NotesService::new();
    store.create_note("Rust notes".to_string(), "u".to_string(), 1).unwrap();
    store.create_note("other".to_string(), "u".to_string(), 2).unwrap();
    store.create_note("rust too".to_string(), "v".to_string(), 3).unwrap();
    let page = search_note(&store, "RUST".to_string(), &"u".to_string());
    let found: Vec<i64> = page.filtered_notes.iter().map(|p| p.id).collect();
    assert_eq!(found, vec![1]);
    assert_eq!(page.note_list.len(), 2);
    assert_eq!(page.search, "RUST");
}

#[test]
fn forms_create_and_update() {
    let mut store = NotesService::new();
    let u = "u".to_string();
    match create_note(&mut store, u.clone(), form(""), 10) {
        FormOutcome::Refused(page) => assert!(page.note_form.content_error.is_some()),
        _ => panic!("empty content accepted"),
    }
    assert!(store.notes.is_empty());
    assert!(matches!(create_note(&mut store, u.clone(), form("hi"), 10), FormOutcome::Saved(1)));
    let mut edit = form("changed");
    edit.id = Some(1);
    assert!(matches!(update_note(&mut store, &u, edit, 20), FormOutcome::Saved(1)));
    assert_eq!(store.notes[0].content, "changed");
    let mut missing = form("x");
    missing.id = Some(9);
    assert!(matches!(update_note(&mut store, &u, missing, 20), FormOutcome::NotSaved));
    assert!(matches!(update_note(&mut store, &u, form("x"), 20), FormOutcome::NotSaved));
}

#[test]
fn pages_for_owner() {
    let mut store = NotesService::new();
    store.create_note("# Title".to_string(), "u".to_string(), 1).unwrap();
    let u = "u".to_string();
    let page = index(&store, &u);
    assert_eq!(page.note_list.len(), 1);
    assert_eq!(page.note_list[0].title, "Title");
    let shown = show_note(&store, 1, &u).unwrap();
    assert_eq!(shown.preview, "<h1>Title</h1>\n");
    assert!(show_note(&store, 1, &"v".to_string()).is_none());
    let edit = edit_note(&store, 1, &u).unwrap();
    assert_eq!(edit.note_form.content, "# Title");
    assert!(edit_note(&store, 2, &u).is_none());
}

#[test]
fn search_previews_are_rendered_notes() {
    let mut store = NotesService::new();
    store.create_note("**Find** me".to_string(), "u".to_string(), 1).unwrap();
    let page = search_note(&store, "find".to_string(), &"u".to_string());
    assert_eq!(page.filtered_notes.len(), 1);
    assert_eq!(page.filtered_notes[0].preview, "<p><strong>Find</strong> me</p>\n");
    assert_eq!(page.note_list[0].title, "Find me");
}
