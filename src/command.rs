use vstd::prelude::*;

verus! {

/// One entry of the log: a binding of a key to a value, or its removal.
pub enum Command {
    Rm(String),
    Put(String, String),
}

impl Command {
    /// The key that the entry is about.
    pub open spec fn key_view(&self) -> Seq<char> {
        match self {
            Command::Rm(k) => k@,
            Command::Put(k, _) => k@,
        }
    }

    /// The value that a `Put` binds; empty for a removal.
    pub open spec fn value_view(&self) -> Seq<char> {
        match self {
            Command::Rm(_) => Seq::empty(),
            Command::Put(_, v) => v@,
        }
    }

    /// The key that the entry is about.
    pub fn key(&self) -> (r: &String)
        ensures
            r@ == self.key_view(),
    {
        match self {
            Command::Rm(k) => k,
            Command::Put(k, _) => k,
        }
    }
}

/// What a point read returns for the entry found at a key's offset: the
/// value of a `Put`; a removal there means that the index and the log disagree.
pub fn value_of(cmd: Command) -> (r: Result<String, KvError>)
    ensures
        cmd is Put ==> (r is Ok && r->Ok_0@ == cmd.value_view()),
        cmd is Rm ==> (r is Err && r->Err_0 is BadLogEntry),
{
    match cmd {
        Command::Put(_, v) => Ok(v),
        Command::Rm(_) => Err(KvError::BadLogEntry),
    }
}

/// The ways in which an operation on the store can fail.
#[derive(Debug)]
pub enum KvError {
    /// The log file could not be opened, read, written or flushed.
    PathError(String),
    /// A log record does not decode as a command.
    SerializeError(String),
    /// `remove` of a key that has no value.
    KeyNoExist,
    /// The index points at a record that is not a `Put`.
    BadLogEntry,
}

impl KvError {
    /// A short description of the error, for messages.
    pub fn message(&self) -> (r: String)
        ensures
            r@ == (match self {
                KvError::PathError(_) => "could not open path"@,
                KvError::SerializeError(_) => "could not serialize to JSON"@,
                KvError::KeyNoExist => "Key not found"@,
                KvError::BadLogEntry => "Bad log entry"@,
            }),
    {
        match self {
            KvError::PathError(_) => String::from_str("could not open path"),
            KvError::SerializeError(_) => String::from_str("could not serialize to JSON"),
            KvError::KeyNoExist => String::from_str("Key not found"),
            KvError::BadLogEntry => String::from_str("Bad log entry"),
        }
    }
}

} // verus!
