use hmdb::errors::{push_decimal, Error};

fn os(e: Error) -> String {
    match e {
        Error::OsError(m) => m,
        _ => panic!("expected an OS error"),
    }
}

#[test]
fn decimal_of_numbers() {
    for n in [0u64, 1, 9, 10, 11, 99, 100, 101, 4096, 65_535, 4_294_967_295, u64::MAX] {
        let mut text = String::from("n=");
        push_decimal(&mut text, n);
        assert_eq!(text, format!("n={}", n));
    }
}

#[test]
fn lock_error_message() {
    match Error::lock_error("poisoned lock: another task failed inside") {
        Error::LockError(m) => assert_eq!(
            m,
            "RwLock Poisoned, this indicates that one of your transactions panicked! Error: \
             poisoned lock: another task failed inside"
        ),
        _ => panic!("expected a lock error"),
    }
}

#[test]
fn writer_lock_message() {
    match Error::writer_lock("poisoned") {
        Error::LockError(m) => assert_eq!(
            m,
            "Writer lock poisoned, this suggest an internal, unexpected, database error. Error: \
             poisoned"
        ),
        _ => panic!("expected a lock error"),
    }
}

#[test]
fn serialize_message() {
    match Error::serialize("demo::Items", "sequence too long") {
        Error::SerializeError(m) => assert_eq!(
            m,
            "Unexpected Error while trying to serialize type demo::Items. Bincode error: \
             sequence too long"
        ),
        _ => panic!("expected a serialize error"),
    }
}

#[test]
fn log_parse_message() {
    let e = Error::log_parse(28, "demo::Entry", 0, "invalid tag");
    assert_eq!(e.message().as_str(), match &e {
        Error::LogParseError(m) => m.as_str(),
        _ => panic!("expected a parse error"),
    });
    assert_eq!(
        e.message().as_str(),
        "While parsing the log we were looking for 28 bytes for the next entry, we found that \
         many bytes, but they failed to deserialize into the type demo::Entry. This could \
         indicate a Schema Data mismatch, or a corrupted log. There are 0 bytes left in the log \
         after this entry. Bincode error: invalid tag"
    );
}

#[test]
fn os_error_messages() {
    assert_eq!(
        os(Error::open_failed("\"/data/db/demo__Db\"", "permission denied")),
        "While opening \"/data/db/demo__Db\" during startup, we received an error from the OS: \
         permission denied"
    );
    assert_eq!(
        os(Error::read_failed("interrupted")),
        "After having opened the db file successfully, we were unable to read it into a \
         buffer: interrupted"
    );
    assert_eq!(
        os(Error::append_failed(28, "disk full")),
        "Failed to append 28 bytes to the log, error: disk full"
    );
    assert_eq!(
        os(Error::batch_failed(1036, "disk full")),
        "Failed to append 1036 bytes to the log for a transaction, error: disk full"
    );
    assert_eq!(
        os(Error::retire_failed("old-name", "busy")),
        "Failed to rename the old schema file to a temporary name: old-name, error: busy."
    );
    assert_eq!(
        os(Error::promote_failed("/data/db/demo__Db", "busy")),
        "Failed to rename the new schema file to the appropriate schema name: \
         /data/db/demo__Db, error: busy."
    );
    assert_eq!(
        os(Error::remove_failed("not found")),
        "Failed to clean up old schema file, error: not found."
    );
}
