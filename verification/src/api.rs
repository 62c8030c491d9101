//! The messages that clients and the server exchange.
use crate::text::{opt_view, views};
use vstd::prelude::*;

verus! {

pub const PROTOCOL_VERSION: u32 = 1;

/// Filter applied to the `List` command.
#[derive(Debug, Clone, Copy, PartialEq, Eq, Structural)]
pub enum ListFilter {
    /// All slots, both in-use and background
    All,
    /// Only slots that are currently checked out
    Active,
    /// Only slots that are ready and not checked out
    Free,
    /// Only slots that are not checked out, whatever their status
    Background,
}

/// The payload of a client request.
#[derive(Debug, Clone, PartialEq, Eq)]
pub enum Request {
    /// Allocate a ready slot for the given project
    Add { project_name: String, checkout_name: String },
    /// List slots, optionally filtered
    List { filter: ListFilter },
    /// Return a checked-out slot to the pool
    Remove {
        project_name: String,
        checkout_name: String,
        /// Skip dirty-tree check.
        force: bool,
    },
    /// Remove the background slots that a pool has beyond its configured size
    Cleanup,
    /// Remove all background slots
    Purge,
}

/// What a request says, as plain text and values.
pub enum RequestView {
    Add { project_name: Seq<char>, checkout_name: Seq<char> },
    List { filter: ListFilter },
    Remove { project_name: Seq<char>, checkout_name: Seq<char>, force: bool },
    Cleanup,
    Purge,
}

impl View for Request {
    type V = RequestView;

    open spec fn view(&self) -> RequestView {
        match self {
            Request::Add { project_name, checkout_name } => RequestView::Add {
                project_name: project_name@,
                checkout_name: checkout_name@,
            },
            Request::List { filter } => RequestView::List { filter: *filter },
            Request::Remove { project_name, checkout_name, force } => RequestView::Remove {
                project_name: project_name@,
                checkout_name: checkout_name@,
                force: *force,
            },
            Request::Cleanup => RequestView::Cleanup,
            Request::Purge => RequestView::Purge,
        }
    }
}

#[derive(Debug, Clone, Copy, PartialEq, Eq, Structural)]
pub enum SlotStatusSummary {
    Uninitialized,
    Cloning,
    Building,
    Ready,
    CheckedOut,
    Error,
}

/// A flat, serialization-friendly view of a slot shown in list responses.
#[derive(Debug, Clone, PartialEq, Eq)]
pub struct SlotInfo {
    pub project: String,
    /// Set when the slot is currently checked out.
    pub checkout_name: Option<String>,
    pub status: SlotStatusSummary,
    /// ISO-8601 timestamp of the last successful refresh, if any.
    pub last_refreshed: Option<String>,
    pub error_message: Option<String>,
    /// The directory of the slot.
    pub path: Option<String>,
}

pub struct SlotInfoView {
    pub project: Seq<char>,
    pub checkout_name: Option<Seq<char>>,
    pub status: SlotStatusSummary,
    pub last_refreshed: Option<Seq<char>>,
    pub error_message: Option<Seq<char>>,
    pub path: Option<Seq<char>>,
}

impl View for SlotInfo {
    type V = SlotInfoView;

    open spec fn view(&self) -> SlotInfoView {
        SlotInfoView {
            project: self.project@,
            checkout_name: opt_view(self.checkout_name),
            status: self.status,
            last_refreshed: opt_view(self.last_refreshed),
            error_message: opt_view(self.error_message),
            path: opt_view(self.path),
        }
    }
}

/// The slots that a `List` request asked for.
#[derive(Debug, Clone, PartialEq, Eq)]
pub struct SlotList {
    pub slots: Vec<SlotInfo>,
}

impl View for SlotList {
    type V = Seq<SlotInfoView>;

    open spec fn view(&self) -> Seq<SlotInfoView> {
        self.slots@.map_values(|s: SlotInfo| s@)
    }
}

/// The payload of a server response.
#[derive(Debug, Clone, PartialEq, Eq)]
pub enum Response {
    /// Generic success with no additional data.
    Okay,
    /// Returned after a successful `Add`; carries the path that was handed out.
    Added { checkout_name: String, path: String },
    /// Returned for `List` requests.
    List(SlotList),
    /// Returned for `Cleanup` and `Purge`; carries the directories that are to go.
    Cleaned { paths: Vec<String> },
    /// The server encountered an error while processing the request.
    Error { message: String },
    /// The client's protocol version does not match the server's.
    VersionMismatch { expected: u32, got: u32 },
}

pub enum ResponseView {
    Okay,
    Added { checkout_name: Seq<char>, path: Seq<char> },
    List(Seq<SlotInfoView>),
    Cleaned { paths: Seq<Seq<char>> },
    Error { message: Seq<char> },
    VersionMismatch { expected: u32, got: u32 },
}

impl View for Response {
    type V = ResponseView;

    open spec fn view(&self) -> ResponseView {
        match self {
            Response::Okay => ResponseView::Okay,
            Response::Added { checkout_name, path } => ResponseView::Added {
                checkout_name: checkout_name@,
                path: path@,
            },
            Response::List(list) => ResponseView::List(list@),
            Response::Cleaned { paths } => ResponseView::Cleaned { paths: views(paths@) },
            Response::Error { message } => ResponseView::Error { message: message@ },
            Response::VersionMismatch { expected, got } => ResponseView::VersionMismatch {
                expected: *expected,
                got: *got,
            },
        }
    }
}

/// Wrapper that adds a protocol `version` and a caller-supplied `request_id`
#[derive(Debug, Clone, PartialEq, Eq)]
pub struct Envelope<T> {
    pub version: u32,
    pub request_id: String,
    pub content: T,
}

pub type RequestEnvelope = Envelope<Request>;

pub type ResponseEnvelope = Envelope<Response>;

} // verus!
