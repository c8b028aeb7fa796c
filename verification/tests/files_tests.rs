use calendar_rs::files::{collect_upload, download_file, content_disposition, storage_filename, FilePart};
use calendar_rs::ids::uuid_string;
use calendar_rs::models::{ApiError, ApiResponse, CreateEventRequest};
use calendar_rs::store::EventStore;

fn create_req(title: &str) -> CreateEventRequest {
    CreateEventRequest {
        title: title.to_string(),
        description: None,
        course: None,
        event_type: "exam".to_string(),
        start_time: "2024-03-01T10:00:00Z".to_string(),
        end_time: "2024-03-01T12:00:00Z".to_string(),
        location: None,
        instructor: None,
        priority: None,
    }
}

fn part(name: Option<&str>, mime: Option<&str>, data: &[u8]) -> FilePart {
    FilePart {
        filename: name.map(|s| s.to_string()),
        content_type: mime.map(|s| s.to_string()),
        data: data.to_vec(),
    }
}

#[test]
fn uuid_string_matches_reference_library() {
    for id in [0u128, 1, 0x1234_5678_9abc_def0_0fed_cba9_8765_4321, u128::MAX] {
        assert_eq!(uuid_string(id), uuid::Uuid::from_u128(id).hyphenated().to_string());
    }
}

#[test]
fn storage_name_keeps_extension() {
    let id = 0x1234_5678_9abc_def0_0fed_cba9_8765_4321u128;
    let hex = uuid_string(id);
    assert_eq!(storage_filename(id, "report.pdf"), format!("{hex}.pdf"));
    assert_eq!(storage_filename(id, "archive.tar.gz"), format!("{hex}.gz"));
    assert_eq!(storage_filename(id, "noext"), hex.clone());
    assert_eq!(storage_filename(id, ".bashrc"), hex.clone());
    assert_eq!(storage_filename(id, "dir/file.txt"), format!("{hex}.txt"));
    assert_eq!(storage_filename(id, "dir.d/noext"), hex.clone());
    assert_eq!(storage_filename(id, "trailing."), hex.clone());
}

#[test]
fn content_disposition_quotes_and_sanitizes() {
    assert_eq!(
        content_disposition("report.pdf"),
        "attachment; filename=\"report.pdf\""
    );
    assert_eq!(
        content_disposition("a\"b.pdf"),
        "attachment; filename=\"ab.pdf\""
    );
    assert_eq!(
        content_disposition("bad\\name\n.txt"),
        "attachment; filename=\"badname.txt\""
    );
}

#[test]
fn collect_upload_requires_file_part() {
    assert_eq!(
        collect_upload(None, Some("Ann".to_string())).unwrap_err(),
        ApiError::Validation
    );
}

#[test]
fn collect_upload_applies_defaults() {
    let (meta, data) = collect_upload(Some(part(None, None, b"abc")), None).unwrap();
    assert_eq!(meta.original_filename, "unknown");
    assert_eq!(meta.mime_type, "application/octet-stream");
    assert_eq!(meta.uploaded_by, "Anonymous");
    assert_eq!(data, b"abc");
    let (meta2, _) = collect_upload(
        Some(part(Some("a.txt"), Some("text/plain"), b"x")),
        Some("Bo".to_string()),
    )
    .unwrap();
    assert_eq!(meta2.original_filename, "a.txt");
    assert_eq!(meta2.mime_type, "text/plain");
    assert_eq!(meta2.uploaded_by, "Bo");
}

#[test]
fn upload_download_round_trip() {
    let mut store = EventStore::new();
    let ev = store.create_event(create_req("T"), 1).unwrap();
    let bytes = b"%PDF-1.4 sample bytes".to_vec();
    let (meta, data) =
        collect_upload(Some(part(Some("report.pdf"), Some("application/pdf"), &bytes)), None)
            .unwrap();
    let file_id = uuid::Uuid::new_v4().as_u128();
    let resp = store
        .upload_file(ev.id, meta, data.len() as u64, file_id, 7)
        .unwrap();
    assert_eq!(resp.id, file_id);
    assert_eq!(resp.original_filename, "report.pdf");
    assert_eq!(resp.file_size, bytes.len() as i64);
    assert_eq!(resp.uploaded_by, "Anonymous");
    assert!(resp.filename.ends_with(".pdf"));
    let record = store.get_file(resp.id).unwrap();
    assert_eq!(record.mime_type, "application/pdf");
    let down = download_file(record, Some(data)).unwrap();
    assert_eq!(down.data, bytes);
    assert_eq!(down.content_type, "application/pdf");
    assert!(down.content_disposition.contains("report.pdf"));
}

#[test]
fn download_of_missing_blob_is_not_found() {
    let mut store = EventStore::new();
    let ev = store.create_event(create_req("T"), 1).unwrap();
    let (meta, data) = collect_upload(Some(part(Some("gone.bin"), None, b"xyz")), None).unwrap();
    let file_id = uuid::Uuid::new_v4().as_u128();
    let resp = store
        .upload_file(ev.id, meta, data.len() as u64, file_id, 2)
        .unwrap();
    let record = store.get_file(resp.id).unwrap();
    assert_eq!(download_file(record, None).unwrap_err(), ApiError::NotFound);
}

#[test]
fn files_are_listed_newest_first() {
    let mut store = EventStore::new();
    let ev = store.create_event(create_req("T"), 1).unwrap();
    for (i, name) in ["F1.txt", "F2.txt", "F3.txt"].into_iter().enumerate() {
        let (meta, data) = collect_upload(Some(part(Some(name), None, b"d")), None).unwrap();
        let id = uuid::Uuid::new_v4().as_u128();
        store
            .upload_file(ev.id, meta, data.len() as u64, id, 10 + i as i64)
            .unwrap();
    }
    let details = store.get_event_details(ev.id).unwrap();
    let names: Vec<&str> = details
        .files
        .iter()
        .map(|f| f.original_filename.as_str())
        .collect();
    assert_eq!(names, ["F3.txt", "F2.txt", "F1.txt"]);
}

#[test]
fn upload_to_missing_event_fails() {
    let mut store = EventStore::new();
    let (meta, data) = collect_upload(Some(part(Some("a.txt"), None, b"d")), None).unwrap();
    let id = uuid::Uuid::new_v4().as_u128();
    assert_eq!(
        store
            .upload_file(31_337, meta, data.len() as u64, id, 1)
            .unwrap_err(),
        ApiError::Storage
    );
}

#[test]
fn cascade_delete_removes_file_rows() {
    let mut store = EventStore::new();
    let ev = store.create_event(create_req("T"), 1).unwrap();
    let (meta, data) = collect_upload(Some(part(Some("a.txt"), None, b"d")), None).unwrap();
    let id = uuid::Uuid::new_v4().as_u128();
    let resp = store.upload_file(ev.id, meta, data.len() as u64, id, 2).unwrap();
    store.delete_event(ev.id).unwrap();
    assert_eq!(store.get_file(resp.id).unwrap_err(), ApiError::NotFound);
    assert!(store.get_notes(ev.id).is_empty());
}

#[test]
fn error_status_codes() {
    assert_eq!(ApiError::Validation.status_code(), 400);
    assert_eq!(ApiError::NotFound.status_code(), 404);
    assert_eq!(ApiError::Storage.status_code(), 500);
}

#[test]
fn response_envelope_shape() {
    let ok = ApiResponse::success(5u32);
    assert!(ok.success);
    assert_eq!(ok.data, Some(5));
    assert!(ok.message.is_none());
    let err = ApiResponse::<u32>::error("boom".to_string());
    assert!(!err.success);
    assert!(err.data.is_none());
    assert_eq!(err.message.as_deref(), Some("boom"));
}
