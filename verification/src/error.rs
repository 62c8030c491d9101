//! What can go wrong in the server.
use crate::text::{decimal, to_decimal};
use vstd::prelude::*;
use vstd::string::*;

verus! {

#[derive(Debug, Clone, PartialEq, Eq)]
pub enum ServerError {
    Config(String),
    Io(String),
    Json(String),
    Toml(String),
    LockfileHeld { pid: u32, path: String },
    Pool(String),
    Git(String),
    Build(String),
}

pub type Result<T> = std::result::Result<T, ServerError>;

pub enum ErrorView {
    Config(Seq<char>),
    Io(Seq<char>),
    Json(Seq<char>),
    Toml(Seq<char>),
    LockfileHeld { pid: u32, path: Seq<char> },
    Pool(Seq<char>),
    Git(Seq<char>),
    Build(Seq<char>),
}

impl View for ServerError {
    type V = ErrorView;

    open spec fn view(&self) -> ErrorView {
        match self {
            ServerError::Config(m) => ErrorView::Config(m@),
            ServerError::Io(m) => ErrorView::Io(m@),
            ServerError::Json(m) => ErrorView::Json(m@),
            ServerError::Toml(m) => ErrorView::Toml(m@),
            ServerError::LockfileHeld { pid, path } => ErrorView::LockfileHeld {
                pid: *pid,
                path: path@,
            },
            ServerError::Pool(m) => ErrorView::Pool(m@),
            ServerError::Git(m) => ErrorView::Git(m@),
            ServerError::Build(m) => ErrorView::Build(m@),
        }
    }
}

impl ErrorView {
    /// The text that an error is shown with.
    pub open spec fn text(self) -> Seq<char> {
        match self {
            ErrorView::Config(m) => "config error: "@ + m,
            ErrorView::Io(m) => m,
            ErrorView::Json(m) => m,
            ErrorView::Toml(m) => "toml parse error: "@ + m,
            ErrorView::LockfileHeld { pid, path } => "another server is already running (pid "@
                + decimal(pid as nat) + ", lockfile "@ + path + ")"@,
            ErrorView::Pool(m) => "pool error: "@ + m,
            ErrorView::Git(m) => "git error: "@ + m,
            ErrorView::Build(m) => "build error: "@ + m,
        }
    }
}

fn prefixed(prefix: &str, message: &String) -> (r: String)
    ensures
        r@ == prefix@ + message@,
{
    prefix.to_owned().concat(message.as_str())
}

impl ServerError {
    /// The text that the error is shown with.
    pub fn message(&self) -> (r: String)
        ensures
            r@ == self@.text(),
    {
        match self {
            ServerError::Config(m) => prefixed("config error: ", m),
            ServerError::Io(m) => m.clone(),
            ServerError::Json(m) => m.clone(),
            ServerError::Toml(m) => prefixed("toml parse error: ", m),
            ServerError::LockfileHeld { pid, path } => {
                let mut r = "another server is already running (pid ".to_owned();
                r.append(to_decimal(*pid as u64).as_str());
                r.append(", lockfile ");
                r.append(path.as_str());
                r.append(")");
                r
            },
            ServerError::Pool(m) => prefixed("pool error: ", m),
            ServerError::Git(m) => prefixed("git error: ", m),
            ServerError::Build(m) => prefixed("build error: ", m),
        }
    }
}

} // verus!
