use cluster_controller::loglet::{
    AppendError, LogRecord, LogletBase, LogletOffset, LogletReadStream, Record, TailState,
};
use cluster_controller::memory_loglet::MemoryLoglet;
use cluster_controller::sequence::{Lsn, SequenceNumber};

fn data(record: Option<LogRecord>) -> Option<(u64, Vec<u8>)> {
    match record {
        Some(LogRecord {
            offset,
            record: Record::Data(payload),
        }) => Some((offset, payload)),
        _ => None,
    }
}

#[test]
fn sequence_numbers_saturate() {
    assert_eq!(Lsn::invalid(), Lsn::new(0));
    assert_eq!(Lsn::oldest(), Lsn::new(1));
    assert_eq!(Lsn::max_value(), Lsn::new(u64::MAX));
    assert_eq!(Lsn::new(41).next(), Lsn::new(42));
    assert_eq!(Lsn::max_value().next(), Lsn::max_value());
    assert_eq!(Lsn::invalid().next(), Lsn::oldest());
    assert_eq!(Lsn::new(42).prev(), Lsn::new(41));
    assert_eq!(Lsn::new(2).prev(), Lsn::oldest());
    assert_eq!(Lsn::oldest().prev(), Lsn::oldest());
    assert_eq!(Lsn::invalid().prev(), Lsn::oldest());
    assert_eq!(Lsn::new(9).as_u64(), 9);
}

#[test]
fn loglet_offsets_saturate() {
    assert_eq!(LogletOffset::invalid(), LogletOffset(0));
    assert_eq!(LogletOffset::oldest(), LogletOffset(1));
    assert_eq!(LogletOffset::max_value(), LogletOffset(u64::MAX));
    assert_eq!(LogletOffset(7).next(), LogletOffset(8));
    assert_eq!(LogletOffset(u64::MAX).next(), LogletOffset(u64::MAX));
    assert_eq!(LogletOffset(7).prev(), LogletOffset(6));
    assert_eq!(LogletOffset(1).prev(), LogletOffset(1));
    assert_eq!(LogletOffset(0).prev(), LogletOffset(1));
}

#[test]
fn loglet_offsets_add_and_convert() {
    assert_eq!(LogletOffset(7) + 3, LogletOffset(10));
    assert_eq!(LogletOffset(7) + 0, LogletOffset(7));
    assert_eq!(LogletOffset(u64::MAX - 2) + 2, LogletOffset(u64::MAX));
    assert_eq!(LogletOffset(u64::MAX - 2) + 3, LogletOffset(u64::MAX));
    assert_eq!(LogletOffset(u64::MAX) + usize::MAX, LogletOffset(u64::MAX));
    assert_eq!(LogletOffset::from(5), LogletOffset(5));
    assert_eq!(u64::from(LogletOffset(5)), 5);
    assert!(LogletOffset(5) < LogletOffset(6));
}

#[test]
fn an_empty_loglet_is_open_at_the_oldest_offset() {
    let loglet = MemoryLoglet::new();
    assert_eq!(loglet.find_tail(), Ok(TailState::Open(LogletOffset(1))));
    assert_eq!(loglet.get_trim_point(), Ok(None));
    assert_eq!(loglet.read_opt(LogletOffset(1)), Ok(None));
    assert_eq!(loglet.last_known_unsealed_tail(), None);
}

#[test]
fn an_append_is_read_back() {
    let mut loglet = MemoryLoglet::new();
    for (i, payload) in [b"one".to_vec(), b"two".to_vec(), vec![]].into_iter().enumerate() {
        let offset = loglet.append(payload.clone()).unwrap();
        assert_eq!(offset, LogletOffset(i as u64 + 1));
        assert_eq!(
            data(loglet.read_opt(offset).unwrap()),
            Some((offset.0, payload))
        );
    }
    assert_eq!(
        data(loglet.read_opt(LogletOffset(1)).unwrap()),
        Some((1, b"one".to_vec()))
    );
    assert_eq!(loglet.find_tail(), Ok(TailState::Open(LogletOffset(4))));
    assert_eq!(loglet.read_opt(LogletOffset(4)), Ok(None));
}

#[test]
fn a_read_below_the_oldest_offset_starts_at_the_oldest() {
    let mut loglet = MemoryLoglet::new();
    loglet.append(b"one".to_vec()).unwrap();
    assert_eq!(
        data(loglet.read_opt(LogletOffset(0)).unwrap()),
        Some((1, b"one".to_vec()))
    );
}

#[test]
fn a_batch_is_appended_whole() {
    let mut loglet = MemoryLoglet::new();
    loglet.append(b"zero".to_vec()).unwrap();
    let batch = vec![b"a".to_vec(), b"b".to_vec(), b"c".to_vec()];
    assert_eq!(loglet.append_batch(&batch), Ok(LogletOffset(2)));
    assert_eq!(loglet.find_tail(), Ok(TailState::Open(LogletOffset(5))));
    for (i, payload) in batch.into_iter().enumerate() {
        assert_eq!(
            data(loglet.read_opt(LogletOffset(2 + i as u64)).unwrap()),
            Some((2 + i as u64, payload))
        );
    }
    assert_eq!(loglet.append_batch(&vec![]), Ok(LogletOffset(5)));
    assert_eq!(loglet.find_tail(), Ok(TailState::Open(LogletOffset(5))));
}

#[test]
fn a_sealed_loglet_takes_no_append() {
    let mut loglet = MemoryLoglet::new();
    loglet.append(b"one".to_vec()).unwrap();
    assert_eq!(loglet.seal(), Ok(()));
    assert_eq!(loglet.find_tail(), Ok(TailState::Sealed(LogletOffset(2))));
    assert_eq!(loglet.append(b"two".to_vec()), Err(AppendError::Sealed));
    assert_eq!(
        loglet.append_batch(&vec![b"two".to_vec()]),
        Err(AppendError::Sealed)
    );
    assert_eq!(loglet.seal(), Ok(()));
    assert_eq!(loglet.trim(LogletOffset(1)), Ok(()));
    assert_eq!(loglet.find_tail(), Ok(TailState::Sealed(LogletOffset(2))));
    assert_eq!(loglet.read_opt(LogletOffset(2)), Ok(None));
}

#[test]
fn trimming_is_idempotent() {
    let mut once = MemoryLoglet::new();
    let mut twice = MemoryLoglet::new();
    for loglet in [&mut once, &mut twice] {
        for payload in [b"a", b"b", b"c", b"d"] {
            loglet.append(payload.to_vec()).unwrap();
        }
    }
    once.trim(LogletOffset(2)).unwrap();
    twice.trim(LogletOffset(2)).unwrap();
    twice.trim(LogletOffset(2)).unwrap();
    for offset in 0..=5 {
        assert_eq!(
            once.read_opt(LogletOffset(offset)),
            twice.read_opt(LogletOffset(offset))
        );
    }
    assert_eq!(once.get_trim_point(), Ok(Some(LogletOffset(2))));
    assert_eq!(twice.get_trim_point(), Ok(Some(LogletOffset(2))));
    assert_eq!(once.find_tail(), twice.find_tail());
}

#[test]
fn trimming_to_the_invalid_offset_changes_nothing() {
    let mut loglet = MemoryLoglet::new();
    loglet.append(b"a".to_vec()).unwrap();
    assert_eq!(loglet.trim(LogletOffset::invalid()), Ok(()));
    assert_eq!(loglet.get_trim_point(), Ok(None));
    assert_eq!(
        data(loglet.read_opt(LogletOffset(1)).unwrap()),
        Some((1, b"a".to_vec()))
    );
    loglet.trim(LogletOffset(1)).unwrap();
    loglet.trim(LogletOffset::invalid()).unwrap();
    assert_eq!(loglet.get_trim_point(), Ok(Some(LogletOffset(1))));
}

#[test]
fn trimming_stops_at_the_tail_and_never_goes_back() {
    let mut loglet = MemoryLoglet::new();
    for payload in [b"a", b"b", b"c"] {
        loglet.append(payload.to_vec()).unwrap();
    }
    loglet.trim(LogletOffset(2)).unwrap();
    loglet.trim(LogletOffset(1)).unwrap();
    assert_eq!(loglet.get_trim_point(), Ok(Some(LogletOffset(2))));
    assert_eq!(
        loglet.read_opt(LogletOffset(1)),
        Ok(Some(LogRecord {
            offset: 1,
            record: Record::TrimGap { to: 2 },
        }))
    );
    loglet.trim(LogletOffset::max_value()).unwrap();
    assert_eq!(loglet.get_trim_point(), Ok(Some(LogletOffset(3))));
    assert_eq!(loglet.find_tail(), Ok(TailState::Open(LogletOffset(4))));
    assert_eq!(loglet.append(b"d".to_vec()), Ok(LogletOffset(4)));

    let mut empty = MemoryLoglet::new();
    empty.trim(LogletOffset::max_value()).unwrap();
    assert_eq!(empty.get_trim_point(), Ok(None));
}

#[test]
fn a_read_stream_hands_out_records_in_order() {
    let mut loglet = MemoryLoglet::new();
    for payload in [b"a", b"b", b"c", b"d"] {
        loglet.append(payload.to_vec()).unwrap();
    }
    loglet.trim(LogletOffset(2)).unwrap();

    let mut stream = loglet
        .create_read_stream(LogletOffset(0), Some(LogletOffset(3)))
        .unwrap();
    assert_eq!(stream.read_pointer(), LogletOffset(1));
    assert!(!stream.is_terminated());
    assert_eq!(
        stream.next_record(),
        Some(Ok(LogRecord {
            offset: 1,
            record: Record::TrimGap { to: 2 },
        }))
    );
    assert_eq!(stream.read_pointer(), LogletOffset(3));
    assert_eq!(
        stream.next_record(),
        Some(Ok(LogRecord {
            offset: 3,
            record: Record::Data(b"c".to_vec()),
        }))
    );
    assert_eq!(stream.read_pointer(), LogletOffset(4));
    assert!(!stream.is_terminated());
    assert_eq!(stream.next_record(), None);
    assert!(stream.is_terminated());
    assert_eq!(stream.next_record(), None);
    assert!(stream.is_terminated());
    assert_eq!(stream.read_pointer(), LogletOffset(4));
}

#[test]
fn an_open_ended_read_stream_waits_at_the_tail() {
    let mut loglet = MemoryLoglet::new();
    loglet.append(b"a".to_vec()).unwrap();
    let mut stream = loglet.create_read_stream(LogletOffset(1), None).unwrap();
    assert_eq!(
        stream.read_next(),
        Some(LogRecord {
            offset: 1,
            record: Record::Data(b"a".to_vec()),
        })
    );
    assert_eq!(stream.read_next(), None);
    assert!(!stream.is_terminated());
    assert_eq!(stream.read_pointer(), LogletOffset(2));
}
