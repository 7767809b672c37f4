use crate::data_type::{dtype_name, DataType};
use crate::shape::{decimal, decimal_text, dims_text, Shape};
use vstd::prelude::*;
use vstd::string::StringExecFns;

verus! {

/// Declares std's `io::Error`, which an I/O error carries unread.
#[verifier::external_type_specification]
#[verifier::external_body]
pub struct ExIoError(std::io::Error);

/// Declares std's `num::ParseIntError`, which a parsing error carries unread.
#[verifier::external_type_specification]
#[verifier::external_body]
pub struct ExParseIntError(std::num::ParseIntError);

/// Declares std's `backtrace::Backtrace`, which an error may carry.
#[verifier::external_type_specification]
#[verifier::external_body]
pub struct ExBacktrace(std::backtrace::Backtrace);

/// The underlying kind of an error.
#[derive(Debug)]
pub enum ErrorKind {
    /// A data type other than the one expected.
    UnexpectedDType { msg: &'static str, expected: DataType, got: DataType },
    /// A data type that an operation does not support.
    UnsupportedDataTypeForOp { dtype: DataType, op: &'static str },
    /// A tensor with another number of dimensions than the one expected.
    UnexpectedNumberOfDims { expected: usize, got: usize, shape: Shape },
    /// An I/O error.
    Io(std::io::Error),
    /// An integer that did not parse.
    ParseInt(std::num::ParseIntError),
    /// A message.
    Msg(String),
}

/// An error: its kind, the context added to it oldest first, the file it concerns,
/// and a backtrace when one was captured.
#[derive(Debug)]
pub struct Error {
    pub kind: ErrorKind,
    pub context: Vec<String>,
    pub path: Option<String>,
    pub backtrace: Option<std::backtrace::Backtrace>,
}

pub type Result<T> = std::result::Result<T, Error>;

/// Relies on the `Display` of `std::io::Error`, for its message.
#[verifier::external_body]
fn io_error_text(e: &std::io::Error) -> String {
    e.to_string()
}

/// Relies on the `Display` of `std::num::ParseIntError`, for its message.
#[verifier::external_body]
fn parse_int_error_text(e: &std::num::ParseIntError) -> String {
    e.to_string()
}

/// How the `Debug` of `std::path::PathBuf` writes the path `p`: quoted, with special
/// characters escaped.
pub uninterp spec fn path_debug(p: Seq<char>) -> Seq<char>;

/// Relies on `std::path::PathBuf::from` and the `Debug` of `PathBuf`, which quotes the
/// path; the text depends on the path's characters alone.
#[verifier::external_body]
fn path_text(p: &str) -> (r: String)
    ensures
        r@ == path_debug(p@),
{
    format!("{:?}", std::path::PathBuf::from(p))
}

/// Relies on the `Display` of `std::backtrace::Backtrace`, for its frames.
#[verifier::external_body]
fn backtrace_text(b: &std::backtrace::Backtrace) -> String {
    b.to_string()
}

/// The message of an error kind whose message this library writes itself; `None` for
/// those of std (I/O and integer parsing).
pub open spec fn kind_text(k: ErrorKind) -> Option<Seq<char>> {
    match k {
        ErrorKind::UnexpectedDType { msg, expected, got } => Some(
            msg@ + ", expected: "@ + dtype_name(expected) + ", got: "@ + dtype_name(got),
        ),
        ErrorKind::UnsupportedDataTypeForOp { dtype, op } => Some(
            "unsupported dtype "@ + dtype_name(dtype) + " for op "@ + op@,
        ),
        ErrorKind::UnexpectedNumberOfDims { expected, got, shape } => Some(
            "unexpected rank, expected: "@ + decimal(expected as nat) + ", got: "@ + decimal(
                got as nat,
            ) + " (Shape("@ + dims_text(shape.0@) + "))"@,
        ),
        ErrorKind::Msg(m) => Some(m@),
        _ => None,
    }
}

/// The path line, after `path: `, when there is a path.
pub open spec fn path_line(p: Option<String>) -> Seq<char> {
    match p {
        Some(p) => "\npath: "@ + path_debug(p@),
        None => Seq::empty(),
    }
}

/// The context lines: each one on a line of its own, after `context: `.
pub open spec fn context_text(ctx: Seq<String>) -> Seq<char>
    decreases ctx.len(),
{
    if ctx.len() == 0 {
        Seq::empty()
    } else {
        context_text(ctx.drop_last()) + "\ncontext: "@ + ctx.last()@
    }
}

impl ErrorKind {
    /// The kind's message.
    pub fn to_string(&self) -> (r: String)
        ensures
            kind_text(*self) matches Some(t) ==> r@ == t,
    {
        match self {
            ErrorKind::UnexpectedDType { msg, expected, got } => {
                let mut s = String::from_str(msg);
                s.append(", expected: ");
                s.append(expected.name());
                s.append(", got: ");
                s.append(got.name());
                s
            },
            ErrorKind::UnsupportedDataTypeForOp { dtype, op } => {
                let mut s = String::from_str("unsupported dtype ");
                s.append(dtype.name());
                s.append(" for op ");
                s.append(op);
                s
            },
            ErrorKind::UnexpectedNumberOfDims { expected, got, shape } => {
                let mut s = String::from_str("unexpected rank, expected: ");
                s.append(decimal_text(*expected).as_str());
                s.append(", got: ");
                s.append(decimal_text(*got).as_str());
                s.append(" (");
                s.append(shape.text().as_str());
                s.append(")");
                proof {
                    reveal_strlit(" (Shape(");
                    reveal_strlit(" (");
                    reveal_strlit("Shape(");
                    reveal_strlit("))");
                    reveal_strlit(")");
                }
                assert(s@ =~= kind_text(*self)->Some_0);
                s
            },
            ErrorKind::Io(e) => io_error_text(e),
            ErrorKind::ParseInt(e) => parse_int_error_text(e),
            ErrorKind::Msg(m) => String::from_str(m.as_str()),
        }
    }
}

/// No backtrace is taken: capturing one is left to a build that asks for it.
fn capture_backtrace() -> (r: Option<std::backtrace::Backtrace>)
    ensures
        r is None,
{
    None
}

impl Error {
    /// An error of the given kind, with no context, no path and no backtrace.
    pub fn new(kind: ErrorKind) -> (r: Self)
        ensures
            r.kind == kind,
            r.context@.len() == 0,
            r.path is None,
            r.backtrace is None,
    {
        Error { kind, context: Vec::new(), path: None, backtrace: capture_backtrace() }
    }

    /// An error with the given message.
    pub fn msg(msg: &str) -> (r: Self)
        ensures
            r.kind matches ErrorKind::Msg(m) && m@ == msg@,
            r.context@.len() == 0,
            r.path is None,
            r.backtrace is None,
    {
        Self::new(ErrorKind::Msg(String::from_str(msg)))
    }

    /// The error with one more line of context, after those it had.
    pub fn context(self, ctx: &str) -> (r: Self)
        ensures
            r.kind == self.kind,
            r.context@.len() == self.context@.len() + 1,
            forall|i: int| 0 <= i < self.context@.len() ==> r.context@[i] == self.context@[i],
            r.context@.last()@ == ctx@,
            r.path == self.path,
            r.backtrace == self.backtrace,
    {
        let mut e = self;
        e.context.push(String::from_str(ctx));
        e
    }

    /// The error with the given path.
    pub fn with_path(self, p: &str) -> (r: Self)
        ensures
            r.kind == self.kind,
            r.context == self.context,
            r.path matches Some(q) && q@ == p@,
            r.backtrace == self.backtrace,
    {
        let mut e = self;
        e.path = Some(String::from_str(p));
        e
    }

    /// The error's message, then each line of context after `context: `, then the path
    /// after `path: `, then the backtrace, each on a line of its own.
    pub fn to_string(&self) -> (r: String)
        ensures
            kind_text(self.kind) is Some && self.backtrace is None ==> r@ == kind_text(
                self.kind,
            )->Some_0 + context_text(self.context@) + path_line(self.path),
    {
        let mut s = self.kind.to_string();
        let mut i: usize = 0;
        let ghost head = s@;
        while i < self.context.len()
            invariant
                i <= self.context@.len(),
                s@ == head + context_text(self.context@.take(i as int)),
            decreases self.context@.len() - i,
        {
            s.append("\ncontext: ");
            s.append(self.context[i].as_str());
            i = i + 1;
            assert(self.context@.take(i as int).drop_last() =~= self.context@.take(i as int - 1));
        }
        assert(self.context@.take(i as int) =~= self.context@);
        let ghost body = s@;
        match &self.path {
            Some(p) => {
                s.append("\npath: ");
                s.append(path_text(p.as_str()).as_str());
            },
            None => {
                assert(s@ =~= body + path_line(self.path));
            },
        }
        match &self.backtrace {
            Some(b) => {
                s.append("\n");
                s.append(backtrace_text(b).as_str());
            },
            None => {},
        }
        s
    }
}

impl From<std::io::Error> for Error {
    fn from(e: std::io::Error) -> (r: Self)
        ensures
            r.kind == ErrorKind::Io(e),
            r.context@.len() == 0,
            r.path is None,
            r.backtrace is None,
    {
        Error::new(ErrorKind::Io(e))
    }
}

impl vstd::std_specs::convert::FromSpecImpl<std::io::Error> for Error {
    open spec fn obeys_from_spec() -> bool {
        false
    }

    open spec fn from_spec(e: std::io::Error) -> Error {
        arbitrary()
    }
}

impl From<std::num::ParseIntError> for Error {
    fn from(e: std::num::ParseIntError) -> (r: Self)
        ensures
            r.kind == ErrorKind::ParseInt(e),
            r.context@.len() == 0,
            r.path is None,
            r.backtrace is None,
    {
        Error::new(ErrorKind::ParseInt(e))
    }
}

impl vstd::std_specs::convert::FromSpecImpl<std::num::ParseIntError> for Error {
    open spec fn obeys_from_spec() -> bool {
        false
    }

    open spec fn from_spec(e: std::num::ParseIntError) -> Error {
        arbitrary()
    }
}

} // verus!
