//! The errors of the store: a failed file operation, or a failed encoding or decoding.

use vstd::prelude::*;

verus! {

/// The operating system's description of a failed file operation.
#[verifier::external_type_specification]
#[verifier::external_body]
pub struct ExIoError(std::io::Error);

/// The two kinds of error.
#[derive(Debug)]
pub enum ErrorType {
    /// Reading or writing the file failed: file not found, permission denied and the like.
    Io,
    /// Data could not be encoded or decoded.
    Serialization,
}

/// What went wrong, with its cause.
#[derive(Debug)]
pub enum ErrorCode {
    /// The file operation that failed, as the operating system reported it.
    Io(std::io::Error),
    /// A description of the failed encoding or decoding.
    Serialization(String),
}

/// An error of the store.
#[derive(Debug)]
pub struct Error {
    err_code: ErrorCode,
}

/// Either `T` or an [`Error`].
pub type Result<T> = std::result::Result<T, Error>;

impl Error {
    /// What went wrong, with its cause.
    pub closed spec fn code(&self) -> ErrorCode {
        self.err_code
    }

    /// The error is of the serialization kind and carries the description `msg`.
    pub open spec fn is_serialization(&self, msg: Seq<char>) -> bool {
        self.code() matches ErrorCode::Serialization(m) && m@ == msg
    }

    /// The error is of the I/O kind and carries `cause`.
    pub open spec fn is_io(&self, cause: std::io::Error) -> bool {
        self.code() == ErrorCode::Io(cause)
    }

    /// An error with the given cause.
    pub fn new(err_code: ErrorCode) -> (e: Error)
        ensures
            e.code() == err_code,
    {
        Error { err_code }
    }

    /// The cause, taken out of the error.
    pub fn into_code(self) -> (err_code: ErrorCode)
        ensures
            err_code == self.code(),
    {
        self.err_code
    }

    /// The kind of the error.
    pub fn get_type(&self) -> (t: ErrorType)
        ensures
            t is Io <==> self.code() is Io,
            t is Serialization <==> self.code() is Serialization,
    {
        match self.err_code {
            ErrorCode::Io(_) => ErrorType::Io,
            ErrorCode::Serialization(_) => ErrorType::Serialization,
        }
    }

    /// The error's message: the operating system's for an I/O error, the stored description
    /// for a serialization error.
    pub fn to_string(&self) -> (msg: String)
        ensures
            self.code() matches ErrorCode::Serialization(m) ==> msg@ == m@,
            self.code() matches ErrorCode::Io(cause) ==> vstd::string::to_string_from_display_ensures::<
                std::io::Error,
            >(&cause, msg),
    {
        match &self.err_code {
            ErrorCode::Io(err) => err.to_string(),
            ErrorCode::Serialization(err_str) => err_str.clone(),
        }
    }
}

} // verus!
