use appendlog::{Error, Log, Options};

#[test]
fn it_should_create_log() {
    // Write data
    let stored: Vec<u8>;
    {
        let mut log = Log::open_default(Vec::new()).expect("log to open");

        log.append(&[1, 2, 3]);
        log.append(&[4, 5, 6]);
        log.flush().expect("flush to succeed");
        stored = log.storage().clone();
    }

    // Re-open log
    {
        let log = Log::open_default(stored).expect("log to re-open");

        assert_eq!(log.last_data_off(), 16);
        let chunk = log.read(log.last_data_off()).expect("read to succeed");
        assert_eq!(chunk.data, vec![4, 5, 6]);
        assert_eq!(chunk.next, 32);

        let chunk = log.read(0).expect("read to succeed");
        assert_eq!(chunk.next, 16);
    }
}

#[test]
fn it_should_iterate() {
    // Write data
    let mut log = Log::open_default(Vec::new()).expect("log to open");

    log.append(&[1, 2, 3]);
    log.append(&[4, 5, 6]);
    log.append(&[7, 8, 9]);
    log.flush().expect("flush to succeed");

    {
        let mut iter = log.iter().expect("iterator to be created");

        let chunk = iter
            .next()
            .expect("1st chunk")
            .expect("1st chunk to be read");
        assert_eq!(chunk, vec![1, 2, 3]);

        let chunk = iter
            .next()
            .expect("2nd chunk")
            .expect("2nd chunk to be read");
        assert_eq!(chunk, vec![4, 5, 6]);

        let chunk = iter
            .next()
            .expect("3rd chunk")
            .expect("3rd chunk to be read");
        assert_eq!(chunk, vec![7, 8, 9]);

        assert!(iter.next().is_none());
    }
}

#[test]
fn concrete_default_layout() {
    let mut log = Log::open_default(Vec::new()).expect("log to open");

    assert_eq!(log.append(&[1, 2, 3]), 0);
    assert_eq!(log.append(&[4, 5, 6]), 16);
    log.flush().expect("flush to succeed");

    assert_eq!(log.last_data_off(), 16);

    let chunk = log.read(16).expect("read to succeed");
    assert_eq!(chunk.data, vec![4, 5, 6]);
    assert_eq!(chunk.next, 32);

    let chunk = log.read(0).expect("read to succeed");
    assert_eq!(chunk.data, vec![1, 2, 3]);
    assert_eq!(chunk.next, 16);

    // The trailer's end lands on a block boundary.
    assert_eq!(log.storage().len(), 4096);
}

#[test]
fn empty_payload_round_trip() {
    let mut log = Log::open_default(Vec::new()).expect("log to open");

    let off = log.append(&[]);
    assert_eq!(off, 0);
    log.flush().expect("flush to succeed");

    let chunk = log.read(off).expect("read to succeed");
    assert_eq!(chunk.data, Vec::<u8>::new());
    assert_eq!(chunk.next, 16);
}

#[test]
fn checksum_enforcement() {
    let mut log = Log::open_default(Vec::new()).expect("log to open");
    log.append(&[1, 2, 3]);
    log.append(&[4, 5, 6]);
    log.flush().expect("flush to succeed");

    // Corrupt one payload byte of the first entry (its payload sits right
    // after the 8-byte length and 4-byte checksum), without touching its
    // length field.
    let mut corrupted = log.storage().clone();
    corrupted[12] ^= 0xff;

    let log = Log::open_default(corrupted).expect("log to re-open");
    assert_eq!(log.read(0).unwrap_err(), Error::InvalidChecksum);

    // The untouched entry is still readable.
    let chunk = log.read(16).expect("read to succeed");
    assert_eq!(chunk.data, vec![4, 5, 6]);
}

#[test]
fn reopen_recovers_anchor_and_payload() {
    let mut log = Log::open_default(Vec::new()).expect("log to open");
    log.append(&[9, 9, 9, 9, 9]);
    let off = log.append(&[10, 20, 30]);
    log.flush().expect("flush to succeed");
    let before_close = log.last_data_off();
    let stored = log.storage().clone();
    drop(log);

    let log = Log::open_default(stored).expect("log to re-open");
    assert_eq!(log.last_data_off(), before_close);
    assert_eq!(log.last_data_off(), off);
    let chunk = log.read(log.last_data_off()).expect("read to succeed");
    assert_eq!(chunk.data, vec![10, 20, 30]);
}

#[test]
fn open_rejects_unaligned_length() {
    let mut log = Log::open_default(Vec::new()).expect("log to open");
    log.append(&[1, 2, 3]);
    log.flush().expect("flush to succeed");

    let mut truncated = log.storage().clone();
    truncated.pop();

    let err = Log::open_default(truncated).unwrap_err();
    assert_eq!(err, Error::InvalidLength);
}

#[test]
fn open_rejects_bad_magic() {
    let mut log = Log::open_default(Vec::new()).expect("log to open");
    log.append(&[1, 2, 3]);
    log.flush().expect("flush to succeed");

    let mut corrupted = log.storage().clone();
    let end = corrupted.len();
    corrupted[end - 1] ^= 0xff;

    let err = Log::open_default(corrupted).unwrap_err();
    assert_eq!(err, Error::InvalidMagic);
}

#[test]
fn open_rejects_mismatched_options_magic() {
    let mut log = Log::open_default(Vec::new()).expect("log to open");
    log.append(&[7]);
    log.flush().expect("flush to succeed");
    let stored = log.storage().clone();

    let mut options = Options::default();
    options.magic = 0x1234_5678_9abc_def0;
    let err = Log::open(stored, options).unwrap_err();
    assert_eq!(err, Error::InvalidMagic);
}

#[test]
fn empty_log_yields_no_payloads() {
    let log = Log::open_default(Vec::new()).expect("log to open");
    assert_eq!(log.last_data_off(), 0);

    // A fresh log has no readable entry: the first step fails instead of
    // yielding a payload.
    let mut iter = log.iter().expect("iterator to be created");
    assert!(matches!(iter.next(), Some(Err(Error::IO))));

    // After one append and flush, replay yields that payload.
    let mut log = Log::open_default(Vec::new()).expect("log to open");
    log.append(&[42]);
    log.flush().expect("flush to succeed");
    let mut iter = log.iter().expect("iterator to be created");
    let chunk = iter.next().expect("a chunk").expect("chunk to be read");
    assert_eq!(chunk, vec![42]);
    assert!(iter.next().is_none());
}

#[test]
fn flush_of_empty_buffer_changes_nothing() {
    let mut log = Log::open_default(Vec::new()).expect("log to open");
    log.flush().expect("flush to succeed");
    assert_eq!(log.storage().len(), 0);
    assert_eq!(log.last_data_off(), 0);
}

#[test]
fn repair_is_not_implemented() {
    let log = Log::open_default(Vec::new()).expect("log to open");
    assert_eq!(log.repair().unwrap_err(), Error::NotImplemented);
}

#[test]
fn custom_alignment_options() {
    let mut options = Options::default();
    options.block_size = 32;
    options.pad_size = 4;

    let mut log = Log::open(Vec::new(), options).expect("log to open");
    assert_eq!(log.append(&[1, 2]), 0);
    // 12 header bytes + 2 payload bytes = 14, padded to 16.
    assert_eq!(log.append(&[3]), 16);
    log.flush().expect("flush to succeed");

    // 16 + 13 = 29, padded to 32; trailer end 32 + 16 = 48, padded to 64.
    assert_eq!(log.storage().len(), 64);

    let chunk = log.read(0).expect("read to succeed");
    assert_eq!(chunk.data, vec![1, 2]);
    assert_eq!(chunk.next, 16);
    let chunk = log.read(16).expect("read to succeed");
    assert_eq!(chunk.data, vec![3]);
    assert_eq!(chunk.next, 32);
}

#[test]
fn append_after_reopen() {
    let mut log = Log::open_default(Vec::new()).expect("log to open");
    log.append(&[1, 1, 1]);
    log.flush().expect("flush to succeed");
    let stored = log.storage().clone();
    drop(log);

    // New appends land past the previous session's trailer.
    let mut log = Log::open_default(stored).expect("log to re-open");
    let off = log.append(&[2, 2]);
    assert_eq!(off, 4096);
    log.flush().expect("flush to succeed");
    assert_eq!(log.storage().len(), 8192);

    let chunk = log.read(0).expect("read to succeed");
    assert_eq!(chunk.data, vec![1, 1, 1]);
    let chunk = log.read(4096).expect("read to succeed");
    assert_eq!(chunk.data, vec![2, 2]);
    assert_eq!(log.last_data_off(), 4096);
}

#[test]
fn read_past_end_is_io_error() {
    let mut log = Log::open_default(Vec::new()).expect("log to open");
    log.append(&[1]);
    log.flush().expect("flush to succeed");

    assert_eq!(log.read(4096).unwrap_err(), Error::IO);
    assert_eq!(log.read(4090).unwrap_err(), Error::IO);
    assert_eq!(log.read(u64::MAX).unwrap_err(), Error::IO);

    // An unflushed entry is not yet visible to reads.
    let off = log.append(&[2]);
    assert_eq!(log.read(off).unwrap_err(), Error::IO);
}

#[test]
fn error_descriptions() {
    assert_eq!(
        Error::InvalidLength.description(),
        "Log file length is not a multiple of block size"
    );
    assert_eq!(
        Error::InvalidMagic.description(),
        "Invalid magic value at the end of the log file"
    );
    assert_eq!(Error::InvalidChecksum.description(), "Checksum mismatch during read");
    assert_eq!(Error::NotImplemented.description(), "Feature is not implemented yet");
    assert_eq!(Error::IO.description(), "IO error");
}

#[test]
fn iterator_hands_log_back() {
    let mut log = Log::open_default(Vec::new()).expect("log to open");
    log.append(&[5, 5]);
    log.flush().expect("flush to succeed");

    let mut iter = log.iter().expect("iterator to be created");
    let chunk = iter.next().expect("a chunk").expect("chunk to be read");
    assert_eq!(chunk, vec![5, 5]);

    let mut log = iter.into_log();
    let off = log.append(&[6, 6]);
    log.flush().expect("flush to succeed");
    let chunk = log.read(off).expect("read to succeed");
    assert_eq!(chunk.data, vec![6, 6]);
}
