use bevy_serial::events::SerialReadEvent;
use bevy_serial::reactor::{polls, ports_to_drain, Readiness, POLL_TIMEOUT_MICROS};
use bevy_serial::read_pump::{ReadAction, ReadOutcome, ReadPump, ReadStep, READ_BUFFER_LEN};
use bevy_serial::settings::SerialSetting;
use bevy_serial::table::PortTable;

fn two_ports() -> PortTable {
    let a = SerialSetting {
        label: Some("a".to_string()),
        port_name: "/dev/ttyUSB0".to_string(),
        ..Default::default()
    };
    let b = SerialSetting {
        label: Some("b".to_string()),
        port_name: "/dev/ttyUSB1".to_string(),
        ..Default::default()
    };
    PortTable::open(&vec![a, b]).unwrap()
}

/// A device that holds `pending` bytes and hands out at most `chunk` of them per read.
struct Device {
    pending: Vec<u8>,
    chunk: usize,
    reads: usize,
}

impl Device {
    fn read(&mut self, max_len: usize) -> ReadOutcome {
        self.reads += 1;
        if self.pending.is_empty() {
            return ReadOutcome::WouldBlock;
        }
        let n: usize = self.chunk.min(max_len).min(self.pending.len());
        ReadOutcome::Bytes(self.pending.drain(..n).collect())
    }
}

/// One drain cycle of the port `token` against the device.
fn drain(table: &mut PortTable, token: usize, device: &mut Device) -> Option<SerialReadEvent> {
    let mut pump = ReadPump::new(token);
    loop {
        let max_len: usize = match pump.next_read(table) {
            ReadAction::Attempt { token: port, max_len } => {
                assert_eq!(port, token);
                assert!(max_len > 0 && max_len <= READ_BUFFER_LEN);
                max_len
            }
            ReadAction::Skip => return None,
        };
        match pump.step(table, device.read(max_len)) {
            ReadStep::Continue(next) => pump = next,
            ReadStep::Emit(record) => return Some(record),
            ReadStep::Idle | ReadStep::Closed | ReadStep::Skipped => return None,
        }
    }
}

fn pattern(len: usize) -> Vec<u8> {
    (0..len).map(|i| (i * 7 + i / 251) as u8).collect()
}

#[test]
fn ping_in_two_reads_gives_one_record_for_a_and_none_for_b() {
    let mut table = two_ports();
    assert!(polls(&table));
    let events = vec![Readiness { token: 0, readable: true }];
    let tokens = ports_to_drain(&table, &events);
    assert_eq!(tokens, vec![0]);
    let mut device = Device { pending: b"PING".to_vec(), chunk: 2, reads: 0 };
    let mut records: Vec<SerialReadEvent> = Vec::new();
    for token in tokens {
        if let Some(record) = drain(&mut table, token, &mut device) {
            records.push(record);
        }
    }
    assert_eq!(records, vec![SerialReadEvent("a".to_string(), b"PING".to_vec())]);
    // two reads of two bytes, then the would-block that ends the cycle
    assert_eq!(device.reads, 3);
    assert!(table.get(0).is_connected() && table.get(1).is_connected());
}

#[test]
fn record_is_what_was_delivered_whatever_the_chunk_size() {
    let data = pattern(3 * READ_BUFFER_LEN + 123);
    for chunk in [1usize, 2, 3, 100, 2047, 2048, 2049, 5000, usize::MAX] {
        let mut table = two_ports();
        let mut device = Device { pending: data.clone(), chunk, reads: 0 };
        let record = drain(&mut table, 1, &mut device);
        assert_eq!(record, Some(SerialReadEvent("b".to_string(), data.clone())));
    }
}

#[test]
fn record_is_whole_when_data_ends_on_a_buffer_boundary() {
    for len in [2047usize, 2048, 2049, 4095, 4096, 4097] {
        let data = pattern(len);
        let mut table = two_ports();
        let mut device = Device { pending: data.clone(), chunk: usize::MAX, reads: 0 };
        let record = drain(&mut table, 0, &mut device);
        assert_eq!(record, Some(SerialReadEvent("a".to_string(), data)));
        // every read fills what is left of the buffer, which then grows by one increment
        let expected_reads: usize = len / READ_BUFFER_LEN + 1 + if len % READ_BUFFER_LEN == 0 { 0 } else { 1 };
        assert_eq!(device.reads, expected_reads);
    }
}

#[test]
fn records_of_several_ticks_join_to_what_was_delivered() {
    let data = pattern(5000);
    let mut table = two_ports();
    let mut joined: Vec<u8> = Vec::new();
    let mut records: usize = 0;
    for part in data.chunks(1700) {
        let mut device = Device { pending: part.to_vec(), chunk: 64, reads: 0 };
        if let Some(SerialReadEvent(label, bytes)) = drain(&mut table, 0, &mut device) {
            assert_eq!(label, "a");
            joined.extend_from_slice(&bytes);
            records += 1;
        }
    }
    assert_eq!(records, 3);
    assert_eq!(joined, data);
}

#[test]
fn room_is_what_is_left_of_the_buffer() {
    let mut table = two_ports();
    let pump = ReadPump::new(0);
    assert_eq!(pump.token(), 0);
    assert_eq!(pump.next_read(&table), ReadAction::Attempt { token: 0, max_len: 2048 });
    let pump = match pump.step(&mut table, ReadOutcome::Bytes(vec![1, 2, 3, 4, 5])) {
        ReadStep::Continue(pump) => pump,
        other => panic!("unexpected step {:?}", other),
    };
    assert_eq!(pump.next_read(&table), ReadAction::Attempt { token: 0, max_len: 2043 });
    let pump = match pump.step(&mut table, ReadOutcome::Bytes(vec![9; 2043])) {
        ReadStep::Continue(pump) => pump,
        other => panic!("unexpected step {:?}", other),
    };
    assert_eq!(pump.next_read(&table), ReadAction::Attempt { token: 0, max_len: 2048 });
    let pump = match pump.step(&mut table, ReadOutcome::Bytes(vec![7])) {
        ReadStep::Continue(pump) => pump,
        other => panic!("unexpected step {:?}", other),
    };
    assert_eq!(pump.next_read(&table), ReadAction::Attempt { token: 0, max_len: 2047 });
    let mut expected: Vec<u8> = vec![1, 2, 3, 4, 5];
    expected.extend_from_slice(&[9; 2043]);
    expected.push(7);
    match pump.step(&mut table, ReadOutcome::WouldBlock) {
        ReadStep::Emit(record) => assert_eq!(record, SerialReadEvent("a".to_string(), expected)),
        other => panic!("unexpected step {:?}", other),
    }
}

#[test]
fn no_data_gives_no_record() {
    let mut table = two_ports();
    let mut device = Device { pending: Vec::new(), chunk: 16, reads: 0 };
    assert_eq!(drain(&mut table, 0, &mut device), None);
    assert_eq!(device.reads, 1);
    assert!(matches!(ReadPump::new(1).step(&mut table, ReadOutcome::WouldBlock), ReadStep::Idle));
    assert!(table.get(0).is_connected() && table.get(1).is_connected());
}

#[test]
fn ports_that_are_not_readable_are_not_drained() {
    let table = two_ports();
    let events = vec![
        Readiness { token: 1, readable: false },
        Readiness { token: 0, readable: true },
        Readiness { token: 1, readable: false },
    ];
    assert_eq!(ports_to_drain(&table, &events), vec![0]);
    assert_eq!(ports_to_drain(&table, &Vec::new()), Vec::<usize>::new());
    let both = vec![Readiness { token: 1, readable: true }, Readiness { token: 0, readable: true }];
    assert_eq!(ports_to_drain(&table, &both), vec![1, 0]);
}

#[test]
fn a_port_named_by_several_events_is_drained_once() {
    let table = two_ports();
    let events = vec![
        Readiness { token: 1, readable: true },
        Readiness { token: 0, readable: false },
        Readiness { token: 1, readable: true },
        Readiness { token: 0, readable: true },
        Readiness { token: 1, readable: false },
        Readiness { token: 0, readable: true },
    ];
    assert_eq!(ports_to_drain(&table, &events), vec![1, 0]);
}

#[test]
fn an_idle_port_is_left_alone_whatever_the_other_does() {
    let mut table = two_ports();
    let events = vec![Readiness { token: 1, readable: true }, Readiness { token: 0, readable: false }];
    let mut devices = vec![
        Device { pending: b"never read".to_vec(), chunk: 3, reads: 0 },
        Device { pending: pattern(5000), chunk: 700, reads: 0 },
    ];
    let mut records: Vec<SerialReadEvent> = Vec::new();
    for token in ports_to_drain(&table, &events) {
        if let Some(record) = drain(&mut table, token, &mut devices[token]) {
            records.push(record);
        }
    }
    assert_eq!(records, vec![SerialReadEvent("b".to_string(), pattern(5000))]);
    assert_eq!(devices[0].reads, 0);
    assert_eq!(devices[0].pending, b"never read".to_vec());
    assert!(table.get(0).is_connected());
    assert_eq!(table.get(0).label(), "a");
    // the same when the busy port meets end-of-stream
    let closing = ReadPump::new(1).step(&mut table, ReadOutcome::Bytes(Vec::new()));
    assert!(matches!(closing, ReadStep::Closed));
    assert!(table.get(0).is_connected());
    assert_eq!(table.get(0).label(), "a");
}

#[test]
fn a_reactor_without_ports_never_polls() {
    assert!(!polls(&PortTable::open(&Vec::new()).unwrap()));
    assert!(polls(&two_ports()));
    assert_eq!(POLL_TIMEOUT_MICROS, 1);
}

#[test]
fn interruptions_and_failures_change_nothing() {
    let mut table = two_ports();
    let mut pump = ReadPump::new(0);
    let outcomes = vec![
        ReadOutcome::Interrupted,
        ReadOutcome::Bytes(b"ab".to_vec()),
        ReadOutcome::Failed,
        ReadOutcome::Interrupted,
        ReadOutcome::Bytes(b"c".to_vec()),
        ReadOutcome::Failed,
    ];
    for outcome in outcomes {
        pump = match pump.step(&mut table, outcome) {
            ReadStep::Continue(pump) => pump,
            other => panic!("unexpected step {:?}", other),
        };
        assert_eq!(pump.token(), 0);
    }
    match pump.step(&mut table, ReadOutcome::WouldBlock) {
        ReadStep::Emit(record) => assert_eq!(record, SerialReadEvent("a".to_string(), b"abc".to_vec())),
        other => panic!("unexpected step {:?}", other),
    }
    assert!(table.get(0).is_connected());
}

#[test]
fn end_of_stream_closes_the_port_without_a_record() {
    let mut table = two_ports();
    let pump = match ReadPump::new(0).step(&mut table, ReadOutcome::Bytes(b"lost".to_vec())) {
        ReadStep::Continue(pump) => pump,
        other => panic!("unexpected step {:?}", other),
    };
    assert!(matches!(pump.step(&mut table, ReadOutcome::Bytes(Vec::new())), ReadStep::Closed));
    assert!(!table.get(0).is_connected());
    assert!(table.get(1).is_connected());
}

#[test]
fn a_closed_port_is_left_alone_in_every_later_tick() {
    let mut table = two_ports();
    assert!(matches!(ReadPump::new(0).step(&mut table, ReadOutcome::Bytes(Vec::new())), ReadStep::Closed));
    for _ in 0..3 {
        let pump = ReadPump::new(0);
        assert_eq!(pump.next_read(&table), ReadAction::Skip);
        let mut device = Device { pending: b"late".to_vec(), chunk: 4, reads: 0 };
        assert_eq!(drain(&mut table, 0, &mut device), None);
        assert_eq!(device.reads, 0);
        assert_eq!(device.pending, b"late".to_vec());
        for outcome in [
            ReadOutcome::Bytes(b"x".to_vec()),
            ReadOutcome::Bytes(Vec::new()),
            ReadOutcome::WouldBlock,
            ReadOutcome::Interrupted,
            ReadOutcome::Failed,
        ] {
            assert!(matches!(ReadPump::new(0).step(&mut table, outcome), ReadStep::Skipped));
        }
        assert!(!table.get(0).is_connected());
    }
    // the other port still works
    let mut device = Device { pending: b"ok".to_vec(), chunk: 1, reads: 0 };
    assert_eq!(
        drain(&mut table, 1, &mut device),
        Some(SerialReadEvent("b".to_string(), b"ok".to_vec()))
    );
}
