//! Errors and the status codes that callers across the C boundary see.
//!
//! Code 0 means success; every error has a code of its own that is not 0.

use vstd::prelude::*;

use crate::text;

verus! {

/// Result codes shared with callers in other languages.
#[derive(Debug, Clone, Copy, PartialEq, Eq, Structural)]
pub enum StowStatus {
    /// Operation succeeded.
    Success,
    /// Catch-all internal error.
    Unknown,
    /// A panic was caught at the boundary.
    Panic,
    /// A required argument was missing or invalid.
    InvalidArg,
    /// The configuration was missing or malformed.
    InvalidConfig,
    /// Functionality that does not exist.
    Unimplemented,
    /// Requested item or object not found.
    NotFound,
    /// Local filesystem error.
    Io,
    /// Network or object store error.
    Network,
    /// Operation was cancelled.
    Cancelled,
    /// Content failed integrity verification.
    Integrity,
}

impl StowStatus {
    /// The number that stands for this status.
    pub open spec fn number(self) -> int {
        match self {
            StowStatus::Success => 0,
            StowStatus::Unknown => 1,
            StowStatus::Panic => 2,
            StowStatus::InvalidArg => 3,
            StowStatus::InvalidConfig => 4,
            StowStatus::Unimplemented => 5,
            StowStatus::NotFound => 6,
            StowStatus::Io => 7,
            StowStatus::Network => 8,
            StowStatus::Cancelled => 9,
            StowStatus::Integrity => 10,
        }
    }

    /// The number sent across the boundary.
    pub fn code(self) -> (r: i32)
        ensures
            r == self.number(),
    {
        match self {
            StowStatus::Success => 0,
            StowStatus::Unknown => 1,
            StowStatus::Panic => 2,
            StowStatus::InvalidArg => 3,
            StowStatus::InvalidConfig => 4,
            StowStatus::Unimplemented => 5,
            StowStatus::NotFound => 6,
            StowStatus::Io => 7,
            StowStatus::Network => 8,
            StowStatus::Cancelled => 9,
            StowStatus::Integrity => 10,
        }
    }
}

/// What went wrong, with a message where there is something to say.
#[derive(Debug)]
pub enum StowError {
    InvalidArg(String),
    InvalidConfig(String),
    Unimplemented(&'static str),
    NotFound(String),
    Io(String),
    Network(String),
    Cancelled,
    Integrity(String),
    Unknown(String),
}

/// The content of a `StowError`.
pub enum Fault {
    InvalidArg(Seq<char>),
    InvalidConfig(Seq<char>),
    Unimplemented(Seq<char>),
    NotFound(Seq<char>),
    Io(Seq<char>),
    Network(Seq<char>),
    Cancelled,
    Integrity(Seq<char>),
    Unknown(Seq<char>),
}

impl View for StowError {
    type V = Fault;

    open spec fn view(&self) -> Fault {
        match *self {
            StowError::InvalidArg(m) => Fault::InvalidArg(m@),
            StowError::InvalidConfig(m) => Fault::InvalidConfig(m@),
            StowError::Unimplemented(m) => Fault::Unimplemented(m@),
            StowError::NotFound(m) => Fault::NotFound(m@),
            StowError::Io(m) => Fault::Io(m@),
            StowError::Network(m) => Fault::Network(m@),
            StowError::Cancelled => Fault::Cancelled,
            StowError::Integrity(m) => Fault::Integrity(m@),
            StowError::Unknown(m) => Fault::Unknown(m@),
        }
    }
}

impl Fault {
    /// The status that an error is reported as.
    pub open spec fn status(self) -> StowStatus {
        match self {
            Fault::InvalidArg(_) => StowStatus::InvalidArg,
            Fault::InvalidConfig(_) => StowStatus::InvalidConfig,
            Fault::Unimplemented(_) => StowStatus::Unimplemented,
            Fault::NotFound(_) => StowStatus::NotFound,
            Fault::Io(_) => StowStatus::Io,
            Fault::Network(_) => StowStatus::Network,
            Fault::Cancelled => StowStatus::Cancelled,
            Fault::Integrity(_) => StowStatus::Integrity,
            Fault::Unknown(_) => StowStatus::Unknown,
        }
    }

    /// The text that a user is shown for an error.
    pub open spec fn text(self) -> Seq<char> {
        match self {
            Fault::InvalidArg(m) => "invalid argument: "@ + m,
            Fault::InvalidConfig(m) => "invalid config: "@ + m,
            Fault::Unimplemented(m) => "not implemented yet: "@ + m,
            Fault::NotFound(m) => "not found: "@ + m,
            Fault::Io(m) => "io error: "@ + m,
            Fault::Network(m) => "network error: "@ + m,
            Fault::Cancelled => "cancelled"@,
            Fault::Integrity(m) => "integrity check failed: "@ + m,
            Fault::Unknown(m) => m,
        }
    }
}

impl StowError {
    /// The status that this error is reported as.
    pub fn status(&self) -> (r: StowStatus)
        ensures
            r == self@.status(),
    {
        match self {
            StowError::InvalidArg(_) => StowStatus::InvalidArg,
            StowError::InvalidConfig(_) => StowStatus::InvalidConfig,
            StowError::Unimplemented(_) => StowStatus::Unimplemented,
            StowError::NotFound(_) => StowStatus::NotFound,
            StowError::Io(_) => StowStatus::Io,
            StowError::Network(_) => StowStatus::Network,
            StowError::Cancelled => StowStatus::Cancelled,
            StowError::Integrity(_) => StowStatus::Integrity,
            StowError::Unknown(_) => StowStatus::Unknown,
        }
    }

    /// The text that a user is shown for this error.
    pub fn message(&self) -> (r: String)
        ensures
            r@ == self@.text(),
    {
        match self {
            StowError::InvalidArg(m) => text::cat2("invalid argument: ", m.as_str()),
            StowError::InvalidConfig(m) => text::cat2("invalid config: ", m.as_str()),
            StowError::Unimplemented(m) => text::cat2("not implemented yet: ", m),
            StowError::NotFound(m) => text::cat2("not found: ", m.as_str()),
            StowError::Io(m) => text::cat2("io error: ", m.as_str()),
            StowError::Network(m) => text::cat2("network error: ", m.as_str()),
            StowError::Cancelled => "cancelled".to_owned(),
            StowError::Integrity(m) => text::cat2("integrity check failed: ", m.as_str()),
            StowError::Unknown(m) => m.clone(),
        }
    }
}

pub type StowResult<T> = Result<T, StowError>;

/// The content of an outcome.
pub open spec fn outcome_of<T: View>(r: StowResult<T>) -> Result<T::V, Fault> {
    match r {
        Ok(x) => Ok(x@),
        Err(e) => Err(e@),
    }
}

/// The content of an outcome that may be empty.
pub open spec fn outcome_opt<T: View>(r: StowResult<Option<T>>) -> Result<Option<T::V>, Fault> {
    match r {
        Ok(Some(x)) => Ok(Some(x@)),
        Ok(None) => Ok(None),
        Err(e) => Err(e@),
    }
}

/// The content of an outcome with several parts.
pub open spec fn outcome_seq<T: View>(r: StowResult<Vec<T>>) -> Result<Seq<T::V>, Fault> {
    match r {
        Ok(v) => Ok(v@.map_values(|x: T| x@)),
        Err(e) => Err(e@),
    }
}

/// The content of a reply that is refused with a message.
pub open spec fn reply_of<T: View>(r: Result<T, String>) -> Result<T::V, Seq<char>> {
    match r {
        Ok(x) => Ok(x@),
        Err(m) => Err(m@),
    }
}

/// No error is ever reported with the code of success, and two statuses with the
/// same code are the same.
pub proof fn law_codes_tell_outcomes_apart(e: Fault, a: StowStatus, b: StowStatus)
    ensures
        StowStatus::Success.number() == 0,
        e.status().number() != 0,
        a.number() == b.number() ==> a == b,
{
}

/// Each kind of error has its own code, and no other has it; what is said of an error begins with
/// its kind and ends with what went wrong.
pub proof fn law_each_kind_of_error_has_its_code(e: Fault, m: Seq<char>)
    ensures
        e.status().number() == 1 <==> e is Unknown,
        e.status().number() == 3 <==> e is InvalidArg,
        e.status().number() == 4 <==> e is InvalidConfig,
        e.status().number() == 5 <==> e is Unimplemented,
        e.status().number() == 6 <==> e is NotFound,
        e.status().number() == 7 <==> e is Io,
        e.status().number() == 8 <==> e is Network,
        e.status().number() == 9 <==> e is Cancelled,
        e.status().number() == 10 <==> e is Integrity,
        m.is_suffix_of(Fault::InvalidArg(m).text()),
        m.is_suffix_of(Fault::InvalidConfig(m).text()),
        m.is_suffix_of(Fault::Unimplemented(m).text()),
        m.is_suffix_of(Fault::NotFound(m).text()),
        m.is_suffix_of(Fault::Io(m).text()),
        m.is_suffix_of(Fault::Network(m).text()),
        m.is_suffix_of(Fault::Integrity(m).text()),
        Fault::Unknown(m).text() == m,
        "invalid argument: "@.is_prefix_of(Fault::InvalidArg(m).text()),
        "invalid config: "@.is_prefix_of(Fault::InvalidConfig(m).text()),
        "not implemented yet: "@.is_prefix_of(Fault::Unimplemented(m).text()),
        "not found: "@.is_prefix_of(Fault::NotFound(m).text()),
        "io error: "@.is_prefix_of(Fault::Io(m).text()),
        "network error: "@.is_prefix_of(Fault::Network(m).text()),
        "integrity check failed: "@.is_prefix_of(Fault::Integrity(m).text()),
{
    lemma_ends(Fault::InvalidArg(m).text(), m);
    lemma_ends(Fault::InvalidConfig(m).text(), m);
    lemma_ends(Fault::Unimplemented(m).text(), m);
    lemma_ends(Fault::NotFound(m).text(), m);
    lemma_ends(Fault::Io(m).text(), m);
    lemma_ends(Fault::Network(m).text(), m);
    lemma_ends(Fault::Integrity(m).text(), m);
    lemma_begins("invalid argument: "@, m);
    lemma_begins("invalid config: "@, m);
    lemma_begins("not implemented yet: "@, m);
    lemma_begins("not found: "@, m);
    lemma_begins("io error: "@, m);
    lemma_begins("network error: "@, m);
    lemma_begins("integrity check failed: "@, m);
}

proof fn lemma_begins(p: Seq<char>, m: Seq<char>)
    ensures
        p.is_prefix_of(p + m),
{
    assert(p =~= (p + m).subrange(0, p.len() as int));
}

proof fn lemma_ends(t: Seq<char>, m: Seq<char>)
    requires
        t.len() >= m.len(),
        t.skip(t.len() - m.len()) =~= m,
    ensures
        m.is_suffix_of(t),
{
    assert(m =~= t.subrange(t.len() - m.len(), t.len() as int));
}

} // verus!
