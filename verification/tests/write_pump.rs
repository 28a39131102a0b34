use bevy_serial::events::SerialWriteEvent;
use bevy_serial::read_pump::{ReadOutcome, ReadPump, ReadStep};
use bevy_serial::settings::SerialSetting;
use bevy_serial::table::{PortTable, SerialError};
use bevy_serial::write_pump::{WriteAction, WriteOutcome, WriteProgress, WritePump};

fn two_ports() -> PortTable {
    let a = SerialSetting {
        label: Some("a".to_string()),
        port_name: "/dev/ttyUSB0".to_string(),
        ..Default::default()
    };
    let b = SerialSetting {
        label: Some("b".to_string()),
        port_name: "/dev/ttyUSB1".to_string(),
        ..Default::default()
    };
    PortTable::open(&vec![a, b]).unwrap()
}

fn request(label: &str, payload: &[u8]) -> SerialWriteEvent {
    SerialWriteEvent(label.to_string(), payload.to_vec())
}

/// A device that answers the writes offered to it from a script and, once the script is
/// used up, takes at most `capacity` bytes per write.
struct Device {
    script: Vec<WriteOutcome>,
    capacity: usize,
    received: Vec<u8>,
    writes: Vec<Vec<u8>>,
}

impl Device {
    fn taking(capacity: usize) -> Device {
        Device { script: Vec::new(), capacity, received: Vec::new(), writes: Vec::new() }
    }

    fn write(&mut self, offered: &[u8]) -> WriteOutcome {
        let outcome = if self.script.is_empty() {
            WriteOutcome::Accepted(self.capacity.min(offered.len()))
        } else {
            self.script.remove(0)
        };
        if let WriteOutcome::Accepted(n) = outcome {
            self.received.extend_from_slice(&offered[..n]);
            self.writes.push(offered[..n].to_vec());
        }
        outcome
    }
}

/// Serves one request against the device and says how the pump ended.
fn serve(table: &PortTable, request: SerialWriteEvent, device: &mut Device) -> WriteAction {
    let mut pump = WritePump::begin(table, request).unwrap();
    loop {
        match pump.next_write(table) {
            WriteAction::Attempt { token } => {
                assert_eq!(token, pump.token());
                let offered = pump.pending().to_vec();
                assert!(!offered.is_empty());
                let before: usize = pump.written();
                let outcome = device.write(&offered);
                let progress = pump.step(table, outcome);
                match outcome {
                    WriteOutcome::Accepted(n) if n == offered.len() => {
                        assert_eq!(progress, WriteProgress::Complete);
                        assert_eq!(pump.written(), before + n);
                    }
                    WriteOutcome::Accepted(n) => {
                        assert_eq!(progress, WriteProgress::Partial);
                        assert_eq!(pump.written(), before + n);
                    }
                    _ => {
                        assert_eq!(progress, WriteProgress::Retry);
                        assert_eq!(pump.written(), before);
                    }
                }
            }
            ended => return ended,
        }
    }
}

#[test]
fn hello_reaches_a_device_that_takes_two_bytes_per_write() {
    let table = two_ports();
    let mut device = Device::taking(2);
    assert_eq!(serve(&table, request("a", b"Hello"), &mut device), WriteAction::Done);
    assert_eq!(device.received, b"Hello".to_vec());
    assert_eq!(device.writes, vec![b"He".to_vec(), b"ll".to_vec(), b"o".to_vec()]);
}

#[test]
fn payload_arrives_whole_whatever_the_device_answers() {
    let payload: Vec<u8> = (0..1000usize).map(|i| (i % 251) as u8).collect();
    let table = two_ports();
    let mut device = Device::taking(333);
    device.script = vec![
        WriteOutcome::WouldBlock,
        WriteOutcome::Accepted(1),
        WriteOutcome::Interrupted,
        WriteOutcome::Accepted(0),
        WriteOutcome::Failed,
        WriteOutcome::WouldBlock,
        WriteOutcome::Accepted(10),
        WriteOutcome::Failed,
    ];
    assert_eq!(serve(&table, request("b", &payload), &mut device), WriteAction::Done);
    assert_eq!(device.received, payload);
    for capacity in [1usize, 7, 999, 1000, 1001, usize::MAX] {
        let mut device = Device::taking(capacity);
        assert_eq!(serve(&table, request("a", &payload), &mut device), WriteAction::Done);
        assert_eq!(device.received, payload);
    }
}

#[test]
fn a_single_full_write_completes_the_request() {
    let table = two_ports();
    let mut pump = WritePump::begin(&table, request("b", b"Hello, bevy!")).unwrap();
    assert_eq!(pump.token(), 1);
    assert_eq!(pump.written(), 0);
    assert_eq!(pump.pending(), b"Hello, bevy!");
    assert_eq!(pump.next_write(&table), WriteAction::Attempt { token: 1 });
    assert_eq!(pump.step(&table, WriteOutcome::Accepted(12)), WriteProgress::Complete);
    assert_eq!(pump.written(), 12);
    assert_eq!(pump.pending(), b"");
    assert_eq!(pump.next_write(&table), WriteAction::Done);
}

#[test]
fn a_partial_write_leaves_the_rest_pending() {
    let table = two_ports();
    let mut pump = WritePump::begin(&table, request("a", b"Hello")).unwrap();
    assert_eq!(pump.step(&table, WriteOutcome::Accepted(2)), WriteProgress::Partial);
    assert_eq!(pump.written(), 2);
    assert_eq!(pump.pending(), b"llo");
    assert_eq!(pump.step(&table, WriteOutcome::WouldBlock), WriteProgress::Retry);
    assert_eq!(pump.step(&table, WriteOutcome::Interrupted), WriteProgress::Retry);
    assert_eq!(pump.step(&table, WriteOutcome::Failed), WriteProgress::Retry);
    assert_eq!(pump.step(&table, WriteOutcome::Accepted(0)), WriteProgress::Partial);
    assert_eq!(pump.pending(), b"llo");
    assert_eq!(pump.next_write(&table), WriteAction::Attempt { token: 0 });
    assert_eq!(pump.step(&table, WriteOutcome::Accepted(3)), WriteProgress::Complete);
    assert_eq!(pump.next_write(&table), WriteAction::Done);
}

#[test]
fn an_empty_payload_needs_no_write() {
    let table = two_ports();
    let mut device = Device::taking(8);
    assert_eq!(serve(&table, request("a", b""), &mut device), WriteAction::Done);
    assert!(device.writes.is_empty());
}

#[test]
fn a_request_for_an_unknown_label_is_refused() {
    let table = two_ports();
    match WritePump::begin(&table, request("c", b"Hello")) {
        Err(error) => assert_eq!(error, SerialError::UnknownLabel("c".to_string())),
        Ok(pump) => panic!("unexpected pump for port {}", pump.token()),
    }
    let empty = PortTable::open(&Vec::new()).unwrap();
    assert!(matches!(
        WritePump::begin(&empty, request("a", b"Hello")),
        Err(SerialError::UnknownLabel(label)) if label == "a"
    ));
    // the other requests of the tick are served as usual
    let mut device = Device::taking(64);
    assert_eq!(serve(&table, request("a", b"Hello"), &mut device), WriteAction::Done);
    assert_eq!(device.received, b"Hello".to_vec());
}

#[test]
fn a_request_for_a_closed_port_is_dropped() {
    let mut table = two_ports();
    assert!(matches!(ReadPump::new(0).step(&mut table, ReadOutcome::Bytes(Vec::new())), ReadStep::Closed));
    for _ in 0..3 {
        let mut device = Device::taking(64);
        assert_eq!(serve(&table, request("a", b"Hello"), &mut device), WriteAction::Abandon);
        assert!(device.writes.is_empty());
        assert_eq!(serve(&table, request("a", b""), &mut device), WriteAction::Abandon);
    }
    let mut pump = WritePump::begin(&table, request("a", b"Hello")).unwrap();
    for outcome in [
        WriteOutcome::Accepted(5),
        WriteOutcome::Accepted(1),
        WriteOutcome::WouldBlock,
        WriteOutcome::Interrupted,
        WriteOutcome::Failed,
    ] {
        assert_eq!(pump.step(&table, outcome), WriteProgress::Skipped);
        assert_eq!(pump.written(), 0);
        assert_eq!(pump.pending(), b"Hello");
    }
}

#[test]
fn a_port_closed_under_way_ends_the_request() {
    let mut table = two_ports();
    let mut pump = WritePump::begin(&table, request("b", b"Hello")).unwrap();
    assert_eq!(pump.step(&table, WriteOutcome::Accepted(2)), WriteProgress::Partial);
    table.close(1);
    assert_eq!(pump.next_write(&table), WriteAction::Abandon);
    assert_eq!(pump.written(), 2);
}

#[test]
fn a_write_to_one_port_leaves_the_others_alone() {
    let table = two_ports();
    let mut device = Device::taking(1);
    let mut pump = WritePump::begin(&table, request("a", b"abc")).unwrap();
    loop {
        match pump.next_write(&table) {
            WriteAction::Attempt { token } => {
                assert_eq!(token, 0);
                let offered = pump.pending().to_vec();
                let outcome = device.write(&offered);
                pump.step(&table, outcome);
                assert_eq!(pump.token(), 0);
            }
            WriteAction::Done => break,
            WriteAction::Abandon => panic!("port a is open"),
        }
    }
    assert_eq!(device.received, b"abc".to_vec());
    assert!(table.get(0).is_connected() && table.get(1).is_connected());
    assert_eq!(table.get(1).label(), "b");
}
