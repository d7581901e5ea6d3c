//! The error answer of a request: an HTTP status and a message.

use vstd::prelude::*;

use crate::xtream::error::{error_message, XtreamError};

verus! {

pub const STATUS_BAD_REQUEST: u16 = 400;

pub const STATUS_NOT_FOUND: u16 = 404;

pub const STATUS_INTERNAL_SERVER_ERROR: u16 = 500;

pub const STATUS_BAD_GATEWAY: u16 = 502;

pub const STATUS_SERVICE_UNAVAILABLE: u16 = 503;

/// A failed request: answered with `status` and `{"error": message}`.
#[derive(Debug)]
pub struct AppError {
    pub status: u16,
    pub message: String,
}

/// An error as plain values: status and message.
pub open spec fn error_view(e: AppError) -> (u16, Seq<char>) {
    (e.status, e.message@)
}

impl AppError {
    /// `404 Not Found` with `msg`.
    pub fn not_found(msg: &str) -> (e: Self)
        ensures
            error_view(e) == (STATUS_NOT_FOUND, msg@),
    {
        AppError { status: STATUS_NOT_FOUND, message: String::from_str(msg) }
    }

    /// `400 Bad Request` with `msg`.
    pub fn bad_request(msg: &str) -> (e: Self)
        ensures
            error_view(e) == (STATUS_BAD_REQUEST, msg@),
    {
        AppError { status: STATUS_BAD_REQUEST, message: String::from_str(msg) }
    }

    /// `500 Internal Server Error` with `msg`.
    pub fn internal(msg: &str) -> (e: Self)
        ensures
            error_view(e) == (STATUS_INTERNAL_SERVER_ERROR, msg@),
    {
        AppError { status: STATUS_INTERNAL_SERVER_ERROR, message: String::from_str(msg) }
    }

    /// `502 Bad Gateway` with `msg`.
    pub fn bad_gateway(msg: &str) -> (e: Self)
        ensures
            error_view(e) == (STATUS_BAD_GATEWAY, msg@),
    {
        AppError { status: STATUS_BAD_GATEWAY, message: String::from_str(msg) }
    }

    /// Every Xtream failure is a bad gateway, with the error's text.
    pub fn from_xtream(e: XtreamError) -> (r: Self)
        ensures
            error_view(r) == (STATUS_BAD_GATEWAY, error_message(e)),
    {
        AppError { status: STATUS_BAD_GATEWAY, message: e.message() }
    }

    /// The HTTP status of the answer.
    pub fn status(&self) -> (s: u16)
        ensures
            s == self.status,
    {
        self.status
    }

    /// The message of the answer.
    pub fn message(&self) -> (m: &str)
        ensures
            m@ == self.message@,
    {
        self.message.as_str()
    }
}

} // verus!
