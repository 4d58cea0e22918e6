//! The error type of every command; it is shown to the user as a readable message.

use vstd::prelude::*;
use crate::text::{concat2, concat4};

verus! {

/// What went wrong, with the text that the user sees.
#[derive(Debug)]
pub enum AppError {
    /// A file could not be read or written; `message` is the system's text.
    Io { path: String, message: String },
    /// A network request failed.
    Http(String),
    /// A TOML configuration could not be parsed.
    Toml { path: String, message: String },
    /// A JSON document could not be parsed.
    Json(String),
    /// Any other failure, with its message.
    Message(String),
}

/// The model of an error: its variant and texts.
pub enum ErrorView {
    Io { path: Seq<char>, message: Seq<char> },
    Http(Seq<char>),
    Toml { path: Seq<char>, message: Seq<char> },
    Json(Seq<char>),
    Message(Seq<char>),
}

impl View for AppError {
    type V = ErrorView;

    open spec fn view(&self) -> ErrorView {
        match self {
            AppError::Io { path, message } => ErrorView::Io { path: path@, message: message@ },
            AppError::Http(s) => ErrorView::Http(s@),
            AppError::Toml { path, message } => ErrorView::Toml { path: path@, message: message@ },
            AppError::Json(s) => ErrorView::Json(s@),
            AppError::Message(s) => ErrorView::Message(s@),
        }
    }
}

/// The text that the user sees for an error.
pub open spec fn error_text(e: ErrorView) -> Seq<char> {
    match e {
        ErrorView::Io { path, message } => "IO 错误（"@ + path + "）："@ + message,
        ErrorView::Http(s) => "网络请求失败："@ + s,
        ErrorView::Toml { path, message } => "TOML 配置解析失败（"@ + path + "）："@ + message,
        ErrorView::Json(s) => "JSON 解析失败："@ + s,
        ErrorView::Message(s) => s,
    }
}

/// A plain message error.
pub open spec fn message(s: Seq<char>) -> ErrorView {
    ErrorView::Message(s)
}

impl AppError {
    /// An I/O failure on `path`, with the system's text `source`.
    pub fn io(path: &str, source: &str) -> (res: AppError)
        ensures
            res@ == (ErrorView::Io { path: path@, message: source@ }),
    {
        AppError::Io { path: path.to_owned(), message: source.to_owned() }
    }

    /// A TOML parse failure on `path`, with the parser's text.
    pub fn toml(path: &str, err: &str) -> (res: AppError)
        ensures
            res@ == (ErrorView::Toml { path: path@, message: err@ }),
    {
        AppError::Toml { path: path.to_owned(), message: err.to_owned() }
    }

    /// A plain message.
    pub fn msg(text: &str) -> (res: AppError)
        ensures
            res@ == message(text@),
    {
        AppError::Message(text.to_owned())
    }

    /// A JSON parse failure, with the parser's text.
    pub fn json(text: &str) -> (res: AppError)
        ensures
            res@ == ErrorView::Json(text@),
    {
        AppError::Json(text.to_owned())
    }

    /// A failed HTTP request: a time-out and a refused connection get a fixed
    /// hint, any other failure keeps the client's own text.
    pub fn http_failure(is_timeout: bool, is_connect: bool, text: &str) -> (res: AppError)
        ensures
            res@ == ErrorView::Http(
                if is_timeout {
                    "请求超时，请检查网络后重试"@
                } else if is_connect {
                    "无法连接到服务器，请检查网络后重试"@
                } else {
                    text@
                },
            ),
    {
        if is_timeout {
            AppError::Http("请求超时，请检查网络后重试".to_owned())
        } else if is_connect {
            AppError::Http("无法连接到服务器，请检查网络后重试".to_owned())
        } else {
            AppError::Http(text.to_owned())
        }
    }

    /// The text that the user sees.
    pub fn text(&self) -> (res: String)
        ensures
            res@ == error_text(self@),
    {
        match self {
            AppError::Io { path, message } => concat4(
                "IO 错误（",
                path.as_str(),
                "）：",
                message.as_str(),
            ),
            AppError::Http(s) => concat2("网络请求失败：", s.as_str()),
            AppError::Toml { path, message } => concat4(
                "TOML 配置解析失败（",
                path.as_str(),
                "）：",
                message.as_str(),
            ),
            AppError::Json(s) => concat2("JSON 解析失败：", s.as_str()),
            AppError::Message(s) => s.clone(),
        }
    }
}

} // verus!
