//! Error types shared by every storage component.
use vstd::prelude::*;

verus! {

/// An allocation could not be satisfied.
#[derive(Debug)]
pub struct MemoryError {
    desc: String,
}

impl View for MemoryError {
    type V = Seq<char>;

    closed spec fn view(&self) -> Seq<char> {
        self.desc@
    }
}

impl MemoryError {
    /// Builds an error carrying the given description.
    pub fn new(desc: &str) -> (e: MemoryError)
        ensures
            e@ == desc@,
    {
        MemoryError { desc: desc.to_owned() }
    }

    /// The description given at construction.
    pub fn description(&self) -> (r: &str)
        ensures
            r@ == self@,
    {
        self.desc.as_str()
    }
}

/// A precondition of a storage operation did not hold.
#[derive(Debug)]
pub struct AssertionError {
    desc: String,
}

impl View for AssertionError {
    type V = Seq<char>;

    closed spec fn view(&self) -> Seq<char> {
        self.desc@
    }
}

impl AssertionError {
    /// Builds an error carrying the given description.
    pub fn new(desc: &str) -> (e: AssertionError)
        ensures
            e@ == desc@,
    {
        AssertionError { desc: desc.to_owned() }
    }

    /// `Ok` when `condition` holds, otherwise an error carrying `msg`.
    pub fn assert_true(condition: bool, msg: &str) -> (r: Result<(), AssertionError>)
        ensures
            r is Ok <==> condition,
            r matches Err(e) ==> e@ == msg@,
    {
        if !condition {
            return Err(AssertionError::new(msg));
        }
        Ok(())
    }

    /// `Ok` when `condition` does not hold, otherwise an error carrying `msg`.
    pub fn assert_not(condition: bool, msg: &str) -> (r: Result<(), AssertionError>)
        ensures
            r is Ok <==> !condition,
            r matches Err(e) ==> e@ == msg@,
    {
        AssertionError::assert_true(!condition, msg)
    }

    /// The description given at construction.
    pub fn description(&self) -> (r: &str)
        ensures
            r@ == self@,
    {
        self.desc.as_str()
    }
}

/// The description that a decoding failure of UTF-8 text reports.
pub const ERR_INVALID_UTF8: &'static str = "invalid utf-8: corrupt contents";

/// Every error a storage operation can report.
#[derive(Debug)]
pub enum Error {
    /// An input/output operation failed; the text is the failure's description.
    Io(String),
    /// Bytes that were to be read as text are not valid UTF-8.
    Utf8,
    /// An allocation failed.
    Memory(MemoryError),
    /// A precondition of the operation did not hold.
    Assertion(AssertionError),
}

/// The error is an assertion failure that carries the text `msg`.
pub open spec fn is_assertion(e: Error, msg: Seq<char>) -> bool {
    e matches Error::Assertion(a) && a@ == msg
}

impl Error {
    /// The description of the underlying failure.
    pub fn description(&self) -> (r: &str)
        ensures
            match self {
                Error::Io(s) => r@ == s@,
                Error::Utf8 => r@ == ERR_INVALID_UTF8@,
                Error::Memory(m) => r@ == m@,
                Error::Assertion(a) => r@ == a@,
            },
    {
        match self {
            Error::Io(s) => s.as_str(),
            Error::Utf8 => ERR_INVALID_UTF8,
            Error::Memory(m) => m.description(),
            Error::Assertion(a) => a.description(),
        }
    }
}

impl From<AssertionError> for Error {
    fn from(err: AssertionError) -> (r: Error) {
        Error::Assertion(err)
    }
}

impl vstd::std_specs::convert::FromSpecImpl<AssertionError> for Error {
    open spec fn obeys_from_spec() -> bool {
        true
    }

    open spec fn from_spec(err: AssertionError) -> Error {
        Error::Assertion(err)
    }
}

impl From<MemoryError> for Error {
    fn from(err: MemoryError) -> (r: Error) {
        Error::Memory(err)
    }
}

impl vstd::std_specs::convert::FromSpecImpl<MemoryError> for Error {
    open spec fn obeys_from_spec() -> bool {
        true
    }

    open spec fn from_spec(err: MemoryError) -> Error {
        Error::Memory(err)
    }
}

} // verus!
