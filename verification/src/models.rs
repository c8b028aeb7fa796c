//! The data model: entities, request shapes, the response envelope and the
//! error taxonomy, together with their mathematical views.

use vstd::prelude::*;

verus! {

/// A calendar event row. Identifiers are 128-bit UUID values; instants are
/// milliseconds since the Unix epoch.
#[derive(Debug)]
pub struct Event {
    pub id: u128,
    pub title: String,
    pub description: Option<String>,
    pub course: Option<String>,
    pub event_type: String,
    pub start_time: i64,
    pub end_time: i64,
    pub location: Option<String>,
    pub instructor: Option<String>,
    pub priority: String,
    pub created_at: i64,
    pub updated_at: i64,
}

/// Mathematical value of an [`Event`].
pub ghost struct EventV {
    pub id: u128,
    pub title: Seq<char>,
    pub description: Option<Seq<char>>,
    pub course: Option<Seq<char>>,
    pub event_type: Seq<char>,
    pub start_time: int,
    pub end_time: int,
    pub location: Option<Seq<char>>,
    pub instructor: Option<Seq<char>>,
    pub priority: Seq<char>,
    pub created_at: int,
    pub updated_at: int,
}

impl View for Event {
    type V = EventV;

    open spec fn view(&self) -> EventV {
        EventV {
            id: self.id,
            title: self.title@,
            description: self.description.deep_view(),
            course: self.course.deep_view(),
            event_type: self.event_type@,
            start_time: self.start_time as int,
            end_time: self.end_time as int,
            location: self.location.deep_view(),
            instructor: self.instructor.deep_view(),
            priority: self.priority@,
            created_at: self.created_at as int,
            updated_at: self.updated_at as int,
        }
    }
}

impl DeepView for Event {
    type V = EventV;

    open spec fn deep_view(&self) -> EventV {
        self.view()
    }
}

/// Metadata of a file attached to an event. The binary content itself is
/// stored out of band under `filename`; `original_filename` is the untrusted
/// client-supplied name, kept for display and download headers only.
#[derive(Debug)]
pub struct EventFile {
    pub id: u128,
    pub event_id: u128,
    pub filename: String,
    pub original_filename: String,
    pub file_size: i64,
    pub mime_type: String,
    pub uploaded_by: String,
    pub created_at: i64,
}

/// Mathematical value of an [`EventFile`].
pub ghost struct FileV {
    pub id: u128,
    pub event_id: u128,
    pub filename: Seq<char>,
    pub original_filename: Seq<char>,
    pub file_size: int,
    pub mime_type: Seq<char>,
    pub uploaded_by: Seq<char>,
    pub created_at: int,
}

impl View for EventFile {
    type V = FileV;

    open spec fn view(&self) -> FileV {
        FileV {
            id: self.id,
            event_id: self.event_id,
            filename: self.filename@,
            original_filename: self.original_filename@,
            file_size: self.file_size as int,
            mime_type: self.mime_type@,
            uploaded_by: self.uploaded_by@,
            created_at: self.created_at as int,
        }
    }
}

impl DeepView for EventFile {
    type V = FileV;

    open spec fn deep_view(&self) -> FileV {
        self.view()
    }
}

/// A note in an event's thread.
#[derive(Debug)]
pub struct EventNote {
    pub id: u128,
    pub event_id: u128,
    pub author_name: String,
    pub content: String,
    pub created_at: i64,
    pub updated_at: i64,
}

/// Mathematical value of an [`EventNote`].
pub ghost struct NoteV {
    pub id: u128,
    pub event_id: u128,
    pub author_name: Seq<char>,
    pub content: Seq<char>,
    pub created_at: int,
    pub updated_at: int,
}

impl View for EventNote {
    type V = NoteV;

    open spec fn view(&self) -> NoteV {
        NoteV {
            id: self.id,
            event_id: self.event_id,
            author_name: self.author_name@,
            content: self.content@,
            created_at: self.created_at as int,
            updated_at: self.updated_at as int,
        }
    }
}

impl DeepView for EventNote {
    type V = NoteV;

    open spec fn deep_view(&self) -> NoteV {
        self.view()
    }
}

/// Payload of the Create operation. Timestamps arrive as ISO-8601 strings.
#[derive(Debug)]
pub struct CreateEventRequest {
    pub title: String,
    pub description: Option<String>,
    pub course: Option<String>,
    pub event_type: String,
    pub start_time: String,
    pub end_time: String,
    pub location: Option<String>,
    pub instructor: Option<String>,
    pub priority: Option<String>,
}

/// Mathematical value of a [`CreateEventRequest`].
pub ghost struct CreateEventV {
    pub title: Seq<char>,
    pub description: Option<Seq<char>>,
    pub course: Option<Seq<char>>,
    pub event_type: Seq<char>,
    pub start_time: Seq<char>,
    pub end_time: Seq<char>,
    pub location: Option<Seq<char>>,
    pub instructor: Option<Seq<char>>,
    pub priority: Option<Seq<char>>,
}

impl View for CreateEventRequest {
    type V = CreateEventV;

    open spec fn view(&self) -> CreateEventV {
        CreateEventV {
            title: self.title@,
            description: self.description.deep_view(),
            course: self.course.deep_view(),
            event_type: self.event_type@,
            start_time: self.start_time@,
            end_time: self.end_time@,
            location: self.location.deep_view(),
            instructor: self.instructor.deep_view(),
            priority: self.priority.deep_view(),
        }
    }
}

/// Payload of the Update operation: a patch where every field is optional and
/// an omitted field must keep its stored value.
#[derive(Debug)]
pub struct UpdateEventRequest {
    pub title: Option<String>,
    pub description: Option<String>,
    pub course: Option<String>,
    pub event_type: Option<String>,
    pub start_time: Option<String>,
    pub end_time: Option<String>,
    pub location: Option<String>,
    pub instructor: Option<String>,
    pub priority: Option<String>,
}

/// Mathematical value of an [`UpdateEventRequest`].
pub ghost struct UpdateEventV {
    pub title: Option<Seq<char>>,
    pub description: Option<Seq<char>>,
    pub course: Option<Seq<char>>,
    pub event_type: Option<Seq<char>>,
    pub start_time: Option<Seq<char>>,
    pub end_time: Option<Seq<char>>,
    pub location: Option<Seq<char>>,
    pub instructor: Option<Seq<char>>,
    pub priority: Option<Seq<char>>,
}

impl View for UpdateEventRequest {
    type V = UpdateEventV;

    open spec fn view(&self) -> UpdateEventV {
        UpdateEventV {
            title: self.title.deep_view(),
            description: self.description.deep_view(),
            course: self.course.deep_view(),
            event_type: self.event_type.deep_view(),
            start_time: self.start_time.deep_view(),
            end_time: self.end_time.deep_view(),
            location: self.location.deep_view(),
            instructor: self.instructor.deep_view(),
            priority: self.priority.deep_view(),
        }
    }
}

/// Payload of the note Add operation.
#[derive(Debug)]
pub struct CreateNoteRequest {
    pub author_name: String,
    pub content: String,
}

/// Response of the Upload operation: deliberately not the full row.
#[derive(Debug)]
pub struct FileUploadResponse {
    pub id: u128,
    pub filename: String,
    pub original_filename: String,
    pub file_size: i64,
    pub uploaded_by: String,
}

/// Mathematical value of a [`FileUploadResponse`].
pub ghost struct FileUploadV {
    pub id: u128,
    pub filename: Seq<char>,
    pub original_filename: Seq<char>,
    pub file_size: int,
    pub uploaded_by: Seq<char>,
}

impl View for FileUploadResponse {
    type V = FileUploadV;

    open spec fn view(&self) -> FileUploadV {
        FileUploadV {
            id: self.id,
            filename: self.filename@,
            original_filename: self.original_filename@,
            file_size: self.file_size as int,
            uploaded_by: self.uploaded_by@,
        }
    }
}

/// Query shape for filtered event listings; defined but consumed by no
/// operation yet.
#[derive(Debug)]
pub struct EventsQuery {
    pub start_date: Option<i64>,
    pub end_date: Option<i64>,
    pub event_type: Option<String>,
    pub course: Option<String>,
    pub search: Option<String>,
}

/// Recurrence shape; defined but consumed by no operation yet.
#[derive(Debug)]
pub struct RecurrencePattern {
    pub frequency: String,
    pub days_of_week: Option<Vec<u8>>,
    pub interval: Option<u32>,
}

/// Aggregate view of an event: the row itself plus all its files (newest
/// first) and notes (oldest first).
#[derive(Debug)]
pub struct EventWithDetails {
    pub event: Event,
    pub files: Vec<EventFile>,
    pub notes: Vec<EventNote>,
}

/// Error taxonomy of the whole API surface.
///
/// `Validation` is malformed or missing required input, `NotFound` a missing
/// row or blob, `Storage` a persistence failure.
#[derive(Clone, Copy, Debug, PartialEq, Eq, Structural)]
pub enum ApiError {
    Validation,
    NotFound,
    Storage,
}

impl ApiError {
    /// The HTTP status code each error maps to.
    pub fn status_code(&self) -> (code: u16)
        ensures
            code == match *self {
                ApiError::Validation => 400u16,
                ApiError::NotFound => 404u16,
                ApiError::Storage => 500u16,
            },
    {
        match *self {
            ApiError::Validation => 400,
            ApiError::NotFound => 404,
            ApiError::Storage => 500,
        }
    }
}

/// Uniform wrapper around every API payload.
pub struct ApiResponse<T> {
    pub success: bool,
    pub data: Option<T>,
    pub message: Option<String>,
}

impl<T> ApiResponse<T> {
    /// The success envelope: `{success: true, data, message: null}`.
    pub fn success(data: T) -> (r: Self)
        ensures
            r.success == true,
            r.data == Some(data),
            r.message is None,
    {
        Self { success: true, data: Some(data), message: None }
    }

    /// The failure envelope: `{success: false, data: null, message}`.
    pub fn error(message: String) -> (r: Self)
        ensures
            r.success == false,
            r.data is None,
            r.message == Some(message),
    {
        Self { success: false, data: None, message: Some(message) }
    }
}

} // verus!
