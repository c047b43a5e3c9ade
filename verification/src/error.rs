//! The pipeline's error type: a kind, a message, and an optional chain of
//! wrapped causes.

use vstd::prelude::*;
use vstd::string::StringExecFns;

verus! {

/// The failure taxonomy of the pipeline: unreadable input, unparseable
/// content, a store constraint violation, or a lookup miss.
#[derive(Clone, Copy, PartialEq, Eq, Structural, Debug)]
pub enum ErrorKind {
    Io,
    Decode,
    Store,
    NotFound,
}

/// An error with a message and an optional wrapped cause. The kind of the
/// outermost error classifies the whole chain.
pub struct Error {
    pub kind: ErrorKind,
    pub message: String,
    pub child: Option<Box<Error>>,
}

/// The messages of an error chain, outermost first, joined by `: `.
pub open spec fn error_text(e: Error) -> Seq<char>
    decreases e,
{
    match e.child {
        None => e.message@,
        Some(c) => e.message@ + ": "@ + error_text(*c),
    }
}

impl Error {
    /// A fresh error with no cause.
    pub fn new(kind: ErrorKind, message: &str) -> (r: Error)
        ensures
            r.kind == kind,
            r.message@ == message@,
            r.child is None,
    {
        Error { kind, message: String::from_str(message), child: None }
    }

    /// Wraps this error under a higher-level message, keeping its kind.
    pub fn context(self, message: &str) -> (r: Error)
        ensures
            r.kind == self.kind,
            r.message@ == message@,
            r.child matches Some(c) && *c == self,
    {
        Error { kind: self.kind, message: String::from_str(message), child: Some(Box::new(self)) }
    }

    /// Renders the whole chain as one line, outermost message first.
    pub fn describe(&self) -> (r: String)
        ensures
            r@ == error_text(*self),
        decreases *self,
    {
        match &self.child {
            None => self.message.clone(),
            Some(c) => {
                let mut r = self.message.clone();
                r.append(": ");
                let rest = c.describe();
                r.append(rest.as_str());
                r
            },
        }
    }
}

/// Attaches a context message while converting into `Result<T, Error>`.
pub trait WithContext<T>: Sized {
    fn context(self, message: &str) -> Result<T, Error>;
}

impl<T> WithContext<T> for Result<T, Error> {
    /// Keeps an `Ok` value; wraps an error under `message`, keeping its kind
    /// and holding the original error as the cause.
    fn context(self, message: &str) -> (r: Result<T, Error>)
        ensures
            self is Ok <==> r is Ok,
            self is Ok ==> r == self,
            self is Err ==> (r matches Err(e) && e.kind == self->Err_0.kind && e.message@
                == message@ && (e.child matches Some(c) && *c == self->Err_0)),
    {
        match self {
            Ok(v) => Ok(v),
            Err(e) => Err(e.context(message)),
        }
    }
}

impl<T> WithContext<T> for Option<T> {
    /// Turns `None` into a lookup-miss error under `message`.
    fn context(self, message: &str) -> (r: Result<T, Error>)
        ensures
            self is Some <==> r is Ok,
            self matches Some(v) ==> r == Ok::<T, Error>(v),
            self is None ==> (r matches Err(e) && e.kind == ErrorKind::NotFound && e.message@
                == message@ && e.child is None),
    {
        match self {
            Some(v) => Ok(v),
            None => Err(Error::new(ErrorKind::NotFound, message)),
        }
    }
}

/// The computed content of an error page: the status code actually served,
/// the page title, and the human-readable message.
pub struct ErrorPage {
    pub code: u16,
    pub title: String,
    pub message: String,
}

/// Builds the content of an error page. The title is the decimal code; the
/// message is `Error <code>: <message>`; a code outside the valid HTTP
/// status range 100..=999 is served as 500.
pub fn make_error(code: u16, message: &str) -> (r: ErrorPage)
    ensures
        r.code == if 100 <= code && code <= 999 {
            code
        } else {
            500u16
        },
        r.title@ == crate::text::dec_of(code as nat),
        r.message@ == "Error "@ + crate::text::dec_of(code as nat) + ": "@ + message@,
{
    let title = crate::text::u16_to_dec(code);
    let mut m = String::from_str("Error ");
    m.append(title.as_str());
    m.append(": ");
    m.append(message);
    let served: u16 = if 100 <= code && code <= 999 {
        code
    } else {
        500
    };
    ErrorPage { code: served, title, message: m }
}

} // verus!
