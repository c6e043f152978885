use ephemeral_notes::notes_model::Note;
use ephemeral_notes::notes_service::{find_note, is_expired, NotesService};

fn s(x: &str) -> String {
    x.to_string()
}

fn ids(notes: &[Note]) -> Vec<i64> {
    notes.iter().map(|n| n.id).collect()
}

#[test]
fn listing_is_scoped_and_newest_first() {
    let mut store = NotesService::new();
    store.create_note(s("a1"), s("alice"), 100).unwrap();
    store.create_note(s("b1"), s("bob"), 150).unwrap();
    store.create_note(s("a2"), s("alice"), 200).unwrap();
    store.create_note(s("a3"), s("alice"), 200).unwrap();
    store.create_note(s("a0"), s("alice"), 50).unwrap();
    let list = store.all_notes_ordered_by_most_recent(&s("alice"));
    assert_eq!(ids(&list), vec![3, 4, 1, 5]);
    assert!(list.iter().all(|n| n.user_id == "alice"));
    let bob = store.all_notes_ordered_by_most_recent(&s("bob"));
    assert_eq!(ids(&bob), vec![2]);
    assert!(store.all_notes_ordered_by_most_recent(&s("carol")).is_empty());
}

#[test]
fn created_note_is_found_by_owner_only() {
    let mut store = NotesService::new();
    let n = store.create_note(s("hello"), s("alice"), 1000).unwrap();
    assert_eq!(n.id, 1);
    assert_eq!(n.updated_at, None);
    let found = store.note_by_id(n.id, &s("alice")).unwrap();
    assert_eq!(found.content, "hello");
    assert!(found.created_at <= 1000);
    assert!(store.note_by_id(n.id, &s("bob")).is_none());
    assert!(store.note_by_id(99, &s("alice")).is_none());
}

#[test]
fn note_survives_fourteen_minutes_not_sixteen() {
    let t = 10_000;
    let mut store = NotesService::new();
    store.create_note(s("x"), s("alice"), t).unwrap();
    store.delete_notes_old_than_15_minutes(t + 14 * 60);
    assert_eq!(store.all_notes_ordered_by_most_recent(&s("alice")).len(), 1);
    store.delete_notes_old_than_15_minutes(t + 16 * 60);
    assert!(store.all_notes_ordered_by_most_recent(&s("alice")).is_empty());
}

#[test]
fn sweep_boundary_is_strict() {
    let n = Note { id: 1, content: s("x"), created_at: 100, updated_at: None, user_id: s("u") };
    assert!(!is_expired(&n, 1000));
    assert!(is_expired(&n, 1001));
    assert!(!is_expired(&n, 50));
}

#[test]
fn sweep_twice_equals_once() {
    let mut store = NotesService::new();
    store.create_note(s("old"), s("a"), 0).unwrap();
    store.create_note(s("new"), s("b"), 2000).unwrap();
    store.create_note(s("mid"), s("a"), 1500).unwrap();
    store.delete_notes_old_than_15_minutes(2100);
    let once = ids(&store.notes);
    store.delete_notes_old_than_15_minutes(2100);
    assert_eq!(ids(&store.notes), once);
    assert_eq!(once, vec![2, 3]);
}

#[test]
fn update_replaces_content_and_stamps() {
    let mut store = NotesService::new();
    store.create_note(s("first"), s("alice"), 500).unwrap();
    let u = store.update_note(s("second"), 1, 700).unwrap();
    assert_eq!(u.content, "second");
    assert_eq!(u.updated_at, Some(700));
    assert_eq!(u.created_at, 500);
    let early = store.update_note(s("third"), 1, 10).unwrap();
    assert_eq!(early.updated_at, Some(500));
    assert!(store.update_note(s("none"), 42, 700).is_none());
    assert_eq!(store.notes.len(), 1);
}

#[test]
fn ids_exhausted_refuses_create() {
    let mut store = NotesService::new();
    store.next_id = i64::MAX;
    assert!(store.create_note(s("x"), s("a"), 0).is_none());
    assert!(store.notes.is_empty());
}

#[test]
fn find_note_takes_first_match() {
    let notes = vec![
        Note { id: 7, content: s("a"), created_at: 1, updated_at: None, user_id: s("u") },
        Note { id: 8, content: s("b"), created_at: 1, updated_at: None, user_id: s("u") },
    ];
    assert_eq!(find_note(&notes, 8).unwrap().content, "b");
    assert!(find_note(&notes, 9).is_none());
}
