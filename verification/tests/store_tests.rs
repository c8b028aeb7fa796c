use calendar_rs::models::{ApiError, CreateEventRequest, CreateNoteRequest, UpdateEventRequest};
use calendar_rs::store::EventStore;

fn create_req(title: &str, start: &str, end: &str) -> CreateEventRequest {
    CreateEventRequest {
        title: title.to_string(),
        description: None,
        course: None,
        event_type: "exam".to_string(),
        start_time: start.to_string(),
        end_time: end.to_string(),
        location: None,
        instructor: None,
        priority: None,
    }
}

fn empty_update() -> UpdateEventRequest {
    UpdateEventRequest {
        title: None,
        description: None,
        course: None,
        event_type: None,
        start_time: None,
        end_time: None,
        location: None,
        instructor: None,
        priority: None,
    }
}

#[test]
fn create_defaults_priority_to_medium() {
    let mut store = EventStore::new();
    let req = create_req(
        "Midterm",
        "2024-03-01T10:00:00Z",
        "2024-03-01T12:00:00Z",
    );
    let ev = store.create_event(req, 1_000).unwrap();
    assert_eq!(ev.title, "Midterm");
    assert_eq!(ev.event_type, "exam");
    assert_eq!(ev.priority, "medium");
    assert_eq!(ev.created_at, 1_000);
    assert_eq!(ev.updated_at, 1_000);
}

#[test]
fn create_issues_distinct_non_nil_ids() {
    let mut store = EventStore::new();
    let a = store
        .create_event(
            create_req("A", "2024-01-01T00:00:00Z", "2024-01-01T01:00:00Z"),
            1,
        )
        .unwrap();
    let b = store
        .create_event(
            create_req("B", "2024-01-02T00:00:00Z", "2024-01-02T01:00:00Z"),
            2,
        )
        .unwrap();
    assert_ne!(a.id, 0);
    assert_ne!(b.id, 0);
    assert_ne!(a.id, b.id);
}

#[test]
fn create_rejects_empty_title() {
    let mut store = EventStore::new();
    let req = create_req("", "2024-03-01T10:00:00Z", "2024-03-01T12:00:00Z");
    assert_eq!(store.create_event(req, 1).unwrap_err(), ApiError::Validation);
}

#[test]
fn create_rejects_unparseable_timestamp() {
    let mut store = EventStore::new();
    let req = create_req("X", "next tuesday", "2024-03-01T12:00:00Z");
    assert_eq!(store.create_event(req, 1).unwrap_err(), ApiError::Validation);
}

#[test]
fn get_event_not_found() {
    let store = EventStore::new();
    assert_eq!(store.get_event(42).unwrap_err(), ApiError::NotFound);
}

#[test]
fn update_preserves_omitted_fields() {
    let mut store = EventStore::new();
    let mut req = create_req("T", "2024-03-01T10:00:00Z", "2024-03-01T12:00:00Z");
    req.description = Some("D".to_string());
    let ev = store.create_event(req, 1).unwrap();
    let mut patch = empty_update();
    patch.title = Some("X".to_string());
    let upd = store.update_event(ev.id, patch, 2).unwrap();
    assert_eq!(upd.title, "X");
    assert_eq!(upd.description.as_deref(), Some("D"));
    assert_eq!(upd.created_at, 1);
    assert_eq!(upd.updated_at, 2);
    assert_eq!(upd.id, ev.id);
}

#[test]
fn update_is_idempotent() {
    let mut store = EventStore::new();
    let ev = store
        .create_event(
            create_req("T", "2024-03-01T10:00:00Z", "2024-03-01T12:00:00Z"),
            1,
        )
        .unwrap();
    let patch = || {
        let mut p = empty_update();
        p.title = Some("New".to_string());
        p.location = Some("Hall".to_string());
        p.start_time = Some("2024-04-01T10:00:00Z".to_string());
        p
    };
    let once = store.update_event(ev.id, patch(), 2).unwrap();
    let twice = store.update_event(ev.id, patch(), 3).unwrap();
    assert_eq!(once.title, twice.title);
    assert_eq!(once.location, twice.location);
    assert_eq!(once.start_time, twice.start_time);
    assert_eq!(once.description, twice.description);
    assert_eq!(once.priority, twice.priority);
    assert_eq!(once.created_at, twice.created_at);
    assert_eq!(once.updated_at, 2);
    assert_eq!(twice.updated_at, 3);
}

#[test]
fn update_missing_event_is_not_found() {
    let mut store = EventStore::new();
    assert_eq!(
        store.update_event(7, empty_update(), 1).unwrap_err(),
        ApiError::NotFound
    );
}

#[test]
fn update_rejects_unparseable_timestamp() {
    let mut store = EventStore::new();
    let ev = store
        .create_event(
            create_req("T", "2024-03-01T10:00:00Z", "2024-03-01T12:00:00Z"),
            1,
        )
        .unwrap();
    let mut patch = empty_update();
    patch.end_time = Some("not a time".to_string());
    assert_eq!(
        store.update_event(ev.id, patch, 2).unwrap_err(),
        ApiError::Validation
    );
}

#[test]
fn delete_is_idempotent() {
    let mut store = EventStore::new();
    let ev = store
        .create_event(
            create_req("T", "2024-03-01T10:00:00Z", "2024-03-01T12:00:00Z"),
            1,
        )
        .unwrap();
    assert!(store.delete_event(424_242).is_ok());
    assert_eq!(store.get_events().len(), 1);
    assert!(store.delete_event(ev.id).is_ok());
    assert_eq!(store.get_event(ev.id).unwrap_err(), ApiError::NotFound);
    assert!(store.delete_event(ev.id).is_ok());
    assert_eq!(store.get_events().len(), 0);
}

#[test]
fn list_orders_by_start_time_ascending() {
    let mut store = EventStore::new();
    store
        .create_event(
            create_req("T3", "2024-03-03T00:00:00Z", "2024-03-03T01:00:00Z"),
            1,
        )
        .unwrap();
    store
        .create_event(
            create_req("T2", "2024-03-02T00:00:00Z", "2024-03-02T01:00:00Z"),
            2,
        )
        .unwrap();
    store
        .create_event(
            create_req("T1", "2024-03-01T00:00:00Z", "2024-03-01T01:00:00Z"),
            3,
        )
        .unwrap();
    let titles: Vec<&str> = store.get_events().iter().map(|e| e.title.as_str()).collect();
    assert_eq!(titles, ["T1", "T2", "T3"]);
}

#[test]
fn list_breaks_start_time_ties_by_id() {
    let mut store = EventStore::new();
    for title in ["A", "B"] {
        store
            .create_event(
                create_req(title, "2024-05-01T00:00:00Z", "2024-05-01T01:00:00Z"),
                1,
            )
            .unwrap();
    }
    let events = store.get_events();
    assert_eq!(events.len(), 2);
    assert!(events[0].id < events[1].id);
}

#[test]
fn update_of_start_time_reorders_listing() {
    let mut store = EventStore::new();
    let a = store
        .create_event(
            create_req("A", "2024-03-01T00:00:00Z", "2024-03-01T01:00:00Z"),
            1,
        )
        .unwrap();
    store
        .create_event(
            create_req("B", "2024-03-02T00:00:00Z", "2024-03-02T01:00:00Z"),
            2,
        )
        .unwrap();
    let mut patch = empty_update();
    patch.start_time = Some("2024-03-03T00:00:00Z".to_string());
    store.update_event(a.id, patch, 3).unwrap();
    let titles: Vec<&str> = store.get_events().iter().map(|e| e.title.as_str()).collect();
    assert_eq!(titles, ["B", "A"]);
}

#[test]
fn details_of_bare_event_has_empty_lists() {
    let mut store = EventStore::new();
    let ev = store
        .create_event(
            create_req("T", "2024-03-01T10:00:00Z", "2024-03-01T12:00:00Z"),
            1,
        )
        .unwrap();
    let details = store.get_event_details(ev.id).unwrap();
    assert_eq!(details.event.id, ev.id);
    assert!(details.files.is_empty());
    assert!(details.notes.is_empty());
}

#[test]
fn details_of_missing_event_is_not_found() {
    let store = EventStore::new();
    assert_eq!(store.get_event_details(9).unwrap_err(), ApiError::NotFound);
}

#[test]
fn notes_are_listed_oldest_first() {
    let mut store = EventStore::new();
    let ev = store
        .create_event(
            create_req("T", "2024-03-01T10:00:00Z", "2024-03-01T12:00:00Z"),
            1,
        )
        .unwrap();
    for (i, text) in ["N1", "N2", "N3"].iter().enumerate() {
        let req = CreateNoteRequest {
            author_name: "Ann".to_string(),
            content: text.to_string(),
        };
        store.add_note(ev.id, req, 10 + i as i64).unwrap();
    }
    let notes = store.get_notes(ev.id);
    let contents: Vec<&str> = notes.iter().map(|n| n.content.as_str()).collect();
    assert_eq!(contents, ["N1", "N2", "N3"]);
    let details = store.get_event_details(ev.id).unwrap();
    let thread: Vec<&str> = details.notes.iter().map(|n| n.content.as_str()).collect();
    assert_eq!(thread, ["N1", "N2", "N3"]);
}

#[test]
fn note_fields_and_missing_event() {
    let mut store = EventStore::new();
    let ev = store
        .create_event(
            create_req("T", "2024-03-01T10:00:00Z", "2024-03-01T12:00:00Z"),
            1,
        )
        .unwrap();
    let note = store
        .add_note(
            ev.id,
            CreateNoteRequest {
                author_name: "Bo".to_string(),
                content: "hello".to_string(),
            },
            5,
        )
        .unwrap();
    assert_ne!(note.id, 0);
    assert_eq!(note.event_id, ev.id);
    assert_eq!(note.author_name, "Bo");
    assert_eq!(note.created_at, 5);
    assert_eq!(note.updated_at, 5);
    let orphan = CreateNoteRequest {
        author_name: "Bo".to_string(),
        content: "lost".to_string(),
    };
    assert_eq!(store.add_note(777, orphan, 6).unwrap_err(), ApiError::Storage);
}
