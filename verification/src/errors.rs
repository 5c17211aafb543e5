//! What can go wrong, and the words that say so.

use vstd::prelude::*;
use vstd::string::StringExecFns;

verus! {

/// A failure of the store. Each kind carries a message for a person to read.
#[derive(Debug)]
pub enum Error {
    /// The operating system refused to open, read, write, rename or remove a
    /// file.
    OsError(String),
    /// A record of the log was complete and yet did not decode.
    LogParseError(String),
    /// A lock was poisoned: a thread panicked while it held it.
    LockError(String),
    /// A value could not be encoded.
    SerializeError(String),
}

/// The decimal digit for `d`.
pub open spec fn digit(d: int) -> char
    recommends
        0 <= d < 10,
{
    if d == 0 {
        '0'
    } else if d == 1 {
        '1'
    } else if d == 2 {
        '2'
    } else if d == 3 {
        '3'
    } else if d == 4 {
        '4'
    } else if d == 5 {
        '5'
    } else if d == 6 {
        '6'
    } else if d == 7 {
        '7'
    } else if d == 8 {
        '8'
    } else {
        '9'
    }
}

/// `n` written in decimal, without leading zeros.
pub open spec fn decimal(n: nat) -> Seq<char>
    decreases n,
{
    if n < 10 {
        seq![digit(n as int)]
    } else {
        decimal(n / 10).push(digit(n as int % 10))
    }
}

/// The message of a poisoned table lock.
pub open spec fn lock_error_text(detail: Seq<char>) -> Seq<char> {
    "RwLock Poisoned, this indicates that one of your transactions panicked! Error: "@ + detail
}

/// The message of a poisoned log lock.
pub open spec fn writer_lock_text(detail: Seq<char>) -> Seq<char> {
    "Writer lock poisoned, this suggest an internal, unexpected, database error. Error: "@
        + detail
}

/// The message of a value that could not be encoded.
pub open spec fn serialize_text(name: Seq<char>, detail: Seq<char>) -> Seq<char> {
    "Unexpected Error while trying to serialize type "@ + name + ". Bincode error: "@
        + detail
}

/// The message of a record that did not decode.
pub open spec fn log_parse_text(
    size: nat,
    name: Seq<char>,
    remaining: nat,
    detail: Seq<char>,
) -> Seq<char> {
    "While parsing the log we were looking for "@ + decimal(size)
        + " bytes for the next entry, we found that many bytes, but they failed to deserialize into the type "@
        + name
        + ". This could indicate a Schema Data mismatch, or a corrupted log. There are "@
        + decimal(remaining) + " bytes left in the log after this entry. Bincode error: "@
        + detail
}

/// The message of a file that could not be opened.
pub open spec fn open_failed_text(path: Seq<char>, detail: Seq<char>) -> Seq<char> {
    "While opening "@ + path + " during startup, we received an error from the OS: "@ + detail
}

/// The message of a log that could not be read.
pub open spec fn read_failed_text(detail: Seq<char>) -> Seq<char> {
    "After having opened the db file successfully, we were unable to read it into a buffer: "@
        + detail
}

/// The message of a record that could not be written.
pub open spec fn append_failed_text(bytes: nat, detail: Seq<char>) -> Seq<char> {
    "Failed to append "@ + decimal(bytes) + " bytes to the log, error: "@ + detail
}

/// The message of a batch record that could not be written.
pub open spec fn batch_failed_text(bytes: nat, detail: Seq<char>) -> Seq<char> {
    "Failed to append "@ + decimal(bytes) + " bytes to the log for a transaction, error: "@
        + detail
}

/// The message of a log that could not be moved out of the way.
pub open spec fn retire_failed_text(name: Seq<char>, detail: Seq<char>) -> Seq<char> {
    "Failed to rename the old schema file to a temporary name: "@ + name + ", error: "@ + detail
        + "."@
}

/// The message of a compacted log that could not be moved into place.
pub open spec fn promote_failed_text(path: Seq<char>, detail: Seq<char>) -> Seq<char> {
    "Failed to rename the new schema file to the appropriate schema name: "@ + path
        + ", error: "@ + detail + "."@
}

/// The message of an old log that could not be removed.
pub open spec fn remove_failed_text(detail: Seq<char>) -> Seq<char> {
    "Failed to clean up old schema file, error: "@ + detail + "."@
}

/// The text of one decimal digit.
fn digit_str(d: u64) -> (s: &'static str)
    requires
        d < 10,
    ensures
        s@ == seq![digit(d as int)],
{
    proof {
        reveal_strlit("0");
        reveal_strlit("1");
        reveal_strlit("2");
        reveal_strlit("3");
        reveal_strlit("4");
        reveal_strlit("5");
        reveal_strlit("6");
        reveal_strlit("7");
        reveal_strlit("8");
        reveal_strlit("9");
    }
    let s: &'static str = if d == 0 {
        "0"
    } else if d == 1 {
        "1"
    } else if d == 2 {
        "2"
    } else if d == 3 {
        "3"
    } else if d == 4 {
        "4"
    } else if d == 5 {
        "5"
    } else if d == 6 {
        "6"
    } else if d == 7 {
        "7"
    } else if d == 8 {
        "8"
    } else {
        "9"
    };
    assert(s@ =~= seq![digit(d as int)]);
    s
}

/// Writes `n` in decimal at the end of `text`.
pub fn push_decimal(text: &mut String, n: u64)
    ensures
        final(text)@ == old(text)@ + decimal(n as nat),
    decreases n,
{
    if n >= 10 {
        push_decimal(text, n / 10);
    }
    text.append(digit_str(n % 10));
    proof {
        if n >= 10 {
            assert(final(text)@ =~= old(text)@ + decimal(n as nat));
        } else {
            assert(final(text)@ =~= old(text)@ + decimal(n as nat));
        }
    }
}

impl Error {
    /// The message that the error carries.
    pub open spec fn text(self) -> Seq<char> {
        match self {
            Error::OsError(m) => m@,
            Error::LogParseError(m) => m@,
            Error::LockError(m) => m@,
            Error::SerializeError(m) => m@,
        }
    }

    /// The message that the error carries.
    pub fn message(&self) -> (m: &String)
        ensures
            m@ == self.text(),
    {
        match self {
            Error::OsError(m) => m,
            Error::LogParseError(m) => m,
            Error::LockError(m) => m,
            Error::SerializeError(m) => m,
        }
    }

    /// The error of a table whose lock is poisoned; `detail` is what the lock
    /// said.
    pub fn lock_error(detail: &str) -> (e: Error)
        ensures
            e is LockError,
            e.text() == lock_error_text(detail@),
    {
        let mut m = String::from_str(
            "RwLock Poisoned, this indicates that one of your transactions panicked! Error: ",
        );
        m.append(detail);
        Error::LockError(m)
    }

    /// The error of a log whose lock is poisoned; `detail` is what the lock
    /// said.
    pub fn writer_lock(detail: &str) -> (e: Error)
        ensures
            e is LockError,
            e.text() == writer_lock_text(detail@),
    {
        let mut m = String::from_str(
            "Writer lock poisoned, this suggest an internal, unexpected, database error. Error: ",
        );
        m.append(detail);
        Error::LockError(m)
    }

    /// The error of a value of the type called `name` that the encoder refused;
    /// `detail` is what the encoder said.
    pub fn serialize(name: &str, detail: &str) -> (e: Error)
        ensures
            e is SerializeError,
            e.text() == serialize_text(name@, detail@),
    {
        let mut m = String::from_str("Unexpected Error while trying to serialize type ");
        m.append(name);
        m.append(". Bincode error: ");
        m.append(detail);
        Error::SerializeError(m)
    }

    /// The error of a complete record of `size` bytes, followed in the log by
    /// `remaining` more bytes, that did not decode as the type called `name`; `detail`
    /// is what the decoder said.
    pub fn log_parse(size: usize, name: &str, remaining: usize, detail: &str) -> (e: Error)
        ensures
            e is LogParseError,
            e.text() == log_parse_text(size as nat, name@, remaining as nat, detail@),
    {
        let mut m = String::from_str("While parsing the log we were looking for ");
        push_decimal(&mut m, size as u64);
        m.append(
            " bytes for the next entry, we found that many bytes, but they failed to deserialize into the type ",
        );
        m.append(name);
        m.append(
            ". This could indicate a Schema Data mismatch, or a corrupted log. There are ",
        );
        push_decimal(&mut m, remaining as u64);
        m.append(" bytes left in the log after this entry. Bincode error: ");
        m.append(detail);
        Error::LogParseError(m)
    }

    /// The error of a file at `path` that the operating system would not
    /// open; `detail` is what it said.
    pub fn open_failed(path: &str, detail: &str) -> (e: Error)
        ensures
            e is OsError,
            e.text() == open_failed_text(path@, detail@),
    {
        let mut m = String::from_str("While opening ");
        m.append(path);
        m.append(" during startup, we received an error from the OS: ");
        m.append(detail);
        Error::OsError(m)
    }

    /// The error of a log that was opened and could not be read; `detail` is
    /// what the operating system said.
    pub fn read_failed(detail: &str) -> (e: Error)
        ensures
            e is OsError,
            e.text() == read_failed_text(detail@),
    {
        let mut m = String::from_str(
            "After having opened the db file successfully, we were unable to read it into a buffer: ",
        );
        m.append(detail);
        Error::OsError(m)
    }

    /// The error of a record of `bytes` bytes that could not be written;
    /// `detail` is what the operating system said.
    pub fn append_failed(bytes: usize, detail: &str) -> (e: Error)
        ensures
            e is OsError,
            e.text() == append_failed_text(bytes as nat, detail@),
    {
        let mut m = String::from_str("Failed to append ");
        push_decimal(&mut m, bytes as u64);
        m.append(" bytes to the log, error: ");
        m.append(detail);
        Error::OsError(m)
    }

    /// The error of a batch record of `bytes` bytes that could not be
    /// written; `detail` is what the operating system said.
    pub fn batch_failed(bytes: usize, detail: &str) -> (e: Error)
        ensures
            e is OsError,
            e.text() == batch_failed_text(bytes as nat, detail@),
    {
        let mut m = String::from_str("Failed to append ");
        push_decimal(&mut m, bytes as u64);
        m.append(" bytes to the log for a transaction, error: ");
        m.append(detail);
        Error::OsError(m)
    }

    /// The error of a log that could not be renamed to `name`; `detail` is
    /// what the operating system said.
    pub fn retire_failed(name: &str, detail: &str) -> (e: Error)
        ensures
            e is OsError,
            e.text() == retire_failed_text(name@, detail@),
    {
        let mut m = String::from_str("Failed to rename the old schema file to a temporary name: ");
        m.append(name);
        m.append(", error: ");
        m.append(detail);
        m.append(".");
        Error::OsError(m)
    }

    /// The error of a compacted log that could not be renamed to `path`;
    /// `detail` is what the operating system said.
    pub fn promote_failed(path: &str, detail: &str) -> (e: Error)
        ensures
            e is OsError,
            e.text() == promote_failed_text(path@, detail@),
    {
        let mut m = String::from_str(
            "Failed to rename the new schema file to the appropriate schema name: ",
        );
        m.append(path);
        m.append(", error: ");
        m.append(detail);
        m.append(".");
        Error::OsError(m)
    }

    /// The error of an old log that could not be removed; `detail` is what
    /// the operating system said.
    pub fn remove_failed(detail: &str) -> (e: Error)
        ensures
            e is OsError,
            e.text() == remove_failed_text(detail@),
    {
        let mut m = String::from_str("Failed to clean up old schema file, error: ");
        m.append(detail);
        m.append(".");
        Error::OsError(m)
    }
}

} // verus!
