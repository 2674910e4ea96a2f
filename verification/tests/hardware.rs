use net_spider::ch9120::{build_frame, Ch9120, ConfigStep, ControlLine, NetworkConfig, NetworkMode};
use net_spider::drive::DriveState;
use net_spider::expander::{
    ExpanderBank, ExpanderScan, ExpanderState, ScanStep, I2C_WRITE_FAILED, UNDETECTED_EXPANDER,
};
use net_spider::line::{ingest_byte, IngestEvent};
use net_spider::local::{LocalPins, SioRegister, SioWrite};
use net_spider::mcp23017::{I2cErrorKind, I2cWrite, Mcp23017, NoAcknowledgeSource};
use net_spider::pins::{CommandPins, PinWrites, INIT_FAILED, NOT_DETECTED};
use net_spider::{CONTROL_PINS, COMMAND_BUFFER_LEN, TOTAL_SLOT_CAPACITY};

fn sio(register: SioRegister, mask: u32) -> SioWrite {
    SioWrite { register, mask }
}

fn feed(line: &mut Vec<u8>, bytes: &[u8]) -> Vec<IngestEvent> {
    bytes.iter().map(|&b| ingest_byte(b, line)).collect()
}

#[test]
fn slot_capacity() {
    assert_eq!(TOTAL_SLOT_CAPACITY, 136);
    assert_eq!(CONTROL_PINS, [2, 3, 4, 5, 6, 7, 8, 9]);
}

#[test]
fn a_line_is_handed_over_at_its_end() {
    let mut line = Vec::new();
    let events = feed(&mut line, b"P1 HIGH\r");
    assert!(events[..7].iter().all(|e| matches!(e, IngestEvent::Nothing)));
    match &events[7] {
        IngestEvent::Line(bytes) => assert_eq!(bytes.as_slice(), b"P1 HIGH"),
        other => panic!("unexpected {other:?}"),
    }
    assert!(line.is_empty());
}

#[test]
fn empty_lines_and_control_bytes_are_ignored() {
    let mut line = Vec::new();
    assert!(matches!(ingest_byte(b'\n', &mut line), IngestEvent::Nothing));
    assert!(matches!(ingest_byte(b'\r', &mut line), IngestEvent::Nothing));
    assert!(matches!(ingest_byte(0x07, &mut line), IngestEvent::Nothing));
    assert!(matches!(ingest_byte(0x80, &mut line), IngestEvent::Nothing));
    assert!(matches!(ingest_byte(b'\t', &mut line), IngestEvent::Nothing));
    assert!(line.is_empty());
}

#[test]
fn backspace_and_delete_erase() {
    let mut line = Vec::new();
    feed(&mut line, b"P12");
    ingest_byte(0x08, &mut line);
    assert_eq!(line, b"P1".to_vec());
    ingest_byte(0x7F, &mut line);
    ingest_byte(0x7F, &mut line);
    ingest_byte(0x7F, &mut line);
    assert!(line.is_empty());
}

#[test]
fn an_overlong_line_is_dropped() {
    let mut line = Vec::new();
    for _ in 0..COMMAND_BUFFER_LEN {
        assert!(matches!(ingest_byte(b'A', &mut line), IngestEvent::Nothing));
    }
    assert_eq!(line.len(), 64);
    assert!(matches!(ingest_byte(b'B', &mut line), IngestEvent::TooLong));
    assert!(line.is_empty());
    assert!(matches!(ingest_byte(b'\n', &mut line), IngestEvent::Nothing));
}

#[test]
fn local_pins_start_released() {
    let (pins, writes) = LocalPins::new(CONTROL_PINS);
    assert_eq!(pins.mask(), 0x3FC);
    assert_eq!(writes, vec![sio(SioRegister::OeClr, 0x3FC)]);
    assert_eq!(pins.states(), &[DriveState::HiZ; 8]);
}

#[test]
fn local_pin_writes() {
    let (mut pins, _) = LocalPins::new(CONTROL_PINS);
    assert_eq!(
        pins.set(0, DriveState::High),
        vec![sio(SioRegister::OutSet, 1 << 2), sio(SioRegister::OeSet, 1 << 2)]
    );
    assert_eq!(
        pins.set(7, DriveState::Low),
        vec![sio(SioRegister::OutClr, 1 << 9), sio(SioRegister::OeSet, 1 << 9)]
    );
    assert_eq!(pins.set(3, DriveState::HiZ), vec![sio(SioRegister::OeClr, 1 << 5)]);
    assert_eq!(pins.states()[0], DriveState::High);
    assert_eq!(pins.states()[7], DriveState::Low);
    assert_eq!(pins.apply_state(20, DriveState::High)[0], sio(SioRegister::OutSet, 1 << 20));
    assert_eq!(pins.apply_mask_state(0b1010, DriveState::HiZ), vec![sio(SioRegister::OeClr, 0b1010)]);
}

#[test]
fn setting_every_local_pin() {
    let (mut pins, _) = LocalPins::new(CONTROL_PINS);
    let writes = pins.set_all(DriveState::Low);
    assert_eq!(writes.len(), 16);
    for (i, pin) in CONTROL_PINS.iter().enumerate() {
        assert_eq!(writes[2 * i], sio(SioRegister::OutClr, 1 << pin));
        assert_eq!(writes[2 * i + 1], sio(SioRegister::OeSet, 1 << pin));
    }
    assert_eq!(pins.states(), &[DriveState::Low; 8]);
}

/// Runs SIO writes against output and output-enable words.
fn run_sio(out: &mut u32, oe: &mut u32, writes: &[SioWrite]) {
    for w in writes {
        match w.register {
            SioRegister::OutSet => *out |= w.mask,
            SioRegister::OutClr => *out &= !w.mask,
            SioRegister::OeSet => *oe |= w.mask,
            SioRegister::OeClr => *oe &= !w.mask,
        }
    }
}

#[test]
fn writes_drive_the_line_as_asked() {
    let (mut pins, init) = LocalPins::new(CONTROL_PINS);
    let (mut out, mut oe) = (0xFFFF_FFFFu32, 0xFFFF_FFFFu32);
    run_sio(&mut out, &mut oe, &init);
    assert_eq!(oe & 0x3FC, 0);
    run_sio(&mut out, &mut oe, &pins.set(1, DriveState::High));
    assert_eq!((out >> 3) & 1, 1);
    assert_eq!((oe >> 3) & 1, 1);
    run_sio(&mut out, &mut oe, &pins.set(1, DriveState::Low));
    assert_eq!((out >> 3) & 1, 0);
    assert_eq!((oe >> 3) & 1, 1);
    assert_eq!(oe & !(1 << 3) & 0x3FC, 0);
}

fn register_bytes(w: &I2cWrite) -> (u8, [u8; 3]) {
    (w.address, w.bytes)
}

#[test]
fn expander_placeholder() {
    let device = Mcp23017::placeholder();
    assert_eq!(device.address(), 0);
    assert_eq!(device.states(), &[DriveState::HiZ; 16]);
    assert_eq!(device.encode(), (0xFFFF, 0x0000));
}

#[test]
fn expander_setup_writes() {
    let (device, writes) = Mcp23017::new(0x21);
    assert_eq!(device.address(), 0x21);
    let frames: Vec<_> = writes.iter().map(register_bytes).collect();
    assert_eq!(
        frames,
        vec![(0x21, [0x0C, 0x00, 0x00]), (0x21, [0x12, 0x00, 0x00]), (0x21, [0x00, 0xFF, 0xFF])]
    );
}

#[test]
fn expander_line_writes() {
    let (mut device, _) = Mcp23017::new(0x20);
    let writes = device.set_pin_state(0, DriveState::High);
    let frames: Vec<_> = writes.iter().map(register_bytes).collect();
    assert_eq!(frames, vec![(0x20, [0x12, 0x01, 0x00]), (0x20, [0x00, 0xFE, 0xFF])]);
    device.set_pin_state(9, DriveState::Low);
    device.set_pin_state(15, DriveState::High);
    assert_eq!(device.encode(), (0x7DFE, 0x8001));
    let writes = device.set_all_state(DriveState::Low);
    let frames: Vec<_> = writes.iter().map(register_bytes).collect();
    assert_eq!(frames, vec![(0x20, [0x12, 0x00, 0x00]), (0x20, [0x00, 0x00, 0x00])]);
    assert_eq!(device.sync().len(), 2);
    assert_eq!(register_bytes(&device.write_register16(0x0C, 0xABCD)), (0x20, [0x0C, 0xCD, 0xAB]));
}

#[test]
fn probe_outcomes() {
    assert_eq!(Mcp23017::probe(Ok(())), Ok(true));
    assert_eq!(
        Mcp23017::probe(Err(I2cErrorKind::NoAcknowledge(NoAcknowledgeSource::Address))),
        Ok(false)
    );
    assert_eq!(
        Mcp23017::probe(Err(I2cErrorKind::NoAcknowledge(NoAcknowledgeSource::Unknown))),
        Ok(false)
    );
    assert_eq!(Mcp23017::probe(Err(I2cErrorKind::Bus)), Err(I2cErrorKind::Bus));
    assert_eq!(
        Mcp23017::probe(Err(I2cErrorKind::ArbitrationLoss)),
        Err(I2cErrorKind::ArbitrationLoss)
    );
}

/// Runs a scan against a bus where `present` answer and `broken` fail setup.
fn scan(present: &[u8], broken: &[u8], bus_error_at: Option<u8>) -> ExpanderState {
    let mut scan = ExpanderScan::new();
    let mut probed = Vec::new();
    loop {
        match scan.step() {
            ScanStep::Probe { address, register, read_len } => {
                assert_eq!(register, 0x00);
                assert_eq!(read_len, 2);
                probed.push(address);
                let outcome = if Some(address) == bus_error_at {
                    Err(I2cErrorKind::Bus)
                } else if present.contains(&address) {
                    Ok(())
                } else {
                    Err(I2cErrorKind::NoAcknowledge(NoAcknowledgeSource::Address))
                };
                scan.probed(outcome);
            }
            ScanStep::Initialize(writes) => {
                assert_eq!(writes.len(), 3);
                scan.initialized(!broken.contains(&writes[0].address));
            }
            ScanStep::Finished => break,
        }
    }
    assert!(probed.windows(2).all(|w| w[1] == w[0] + 1));
    assert_eq!(probed[0], 0x20);
    scan.finish().expect("the scan is over")
}

#[test]
fn scan_finds_every_answering_expander() {
    match scan(&[0x20, 0x23, 0x27], &[], None) {
        ExpanderState::Ready(bank) => {
            assert_eq!(bank.count(), 3);
            assert_eq!(bank.total_slots(), 48);
            let addresses: Vec<u8> =
                (0..bank.count()).map(|i| bank.device(i).unwrap().address()).collect();
            assert_eq!(addresses, vec![0x20, 0x23, 0x27]);
            assert!(bank.device(3).is_none());
        }
        _ => panic!("expected expanders"),
    }
}

#[test]
fn scan_with_nothing_on_the_bus() {
    assert!(matches!(scan(&[], &[], None), ExpanderState::NotFound));
}

#[test]
fn scan_faults() {
    assert!(matches!(scan(&[0x20], &[], Some(0x22)), ExpanderState::Fault));
    assert!(matches!(scan(&[0x20, 0x21], &[0x21], None), ExpanderState::Fault));
}

#[test]
fn an_unfinished_scan_has_no_outcome() {
    assert!(ExpanderScan::new().finish().is_none());
}

fn bank_with(addresses: &[u8]) -> ExpanderBank {
    let mut bank = ExpanderBank::new();
    for &a in addresses {
        bank.push(Mcp23017::new(a).0);
    }
    bank
}

#[test]
fn bank_slot_addressing() {
    let mut bank = bank_with(&[0x20, 0x24]);
    let writes = bank.set(17, DriveState::High).unwrap();
    assert_eq!(writes[0].address, 0x24);
    assert_eq!(writes[0].bytes, [0x12, 0x02, 0x00]);
    assert_eq!(bank.device(1).unwrap().states()[1], DriveState::High);
    assert!(bank.set(32, DriveState::High).is_err());
    assert_eq!(bank.set(32, DriveState::High).unwrap_err(), UNDETECTED_EXPANDER);
    assert_eq!(UNDETECTED_EXPANDER, "target pin belongs to an undetected mcp23017");
    assert_eq!(I2C_WRITE_FAILED, "mcp23017 i2c write failed");
}

#[test]
fn bank_set_all_one_device_at_a_time() {
    let mut bank = bank_with(&[0x20, 0x21]);
    let first = bank.set_all(DriveState::Low, 0).unwrap();
    assert_eq!(first[0].address, 0x20);
    assert_eq!(bank.device(0).unwrap().states(), &[DriveState::Low; 16]);
    assert_eq!(bank.device(1).unwrap().states(), &[DriveState::HiZ; 16]);
    let second = bank.set_all(DriveState::Low, 1).unwrap();
    assert_eq!(second[1].bytes, [0x00, 0x00, 0x00]);
    assert!(bank.set_all(DriveState::Low, 2).is_none());
}

#[test]
fn command_pins_route_slots() {
    let (mut pins, _) = CommandPins::new(CONTROL_PINS, ExpanderState::Ready(bank_with(&[0x20])));
    assert_eq!(pins.total_slots_available(), 24);
    match pins.set(2, DriveState::High).unwrap() {
        PinWrites::Local(w) => assert_eq!(w[0], sio(SioRegister::OutSet, 1 << 4)),
        other => panic!("unexpected {other:?}"),
    }
    match pins.set(9, DriveState::Low).unwrap() {
        PinWrites::Expander(w) => assert_eq!(w[1].bytes, [0x00, 0xFD, 0xFF]),
        other => panic!("unexpected {other:?}"),
    }
    assert_eq!(pins.set(24, DriveState::Low).unwrap_err(), UNDETECTED_EXPANDER);
    let local = pins.set_all(DriveState::HiZ);
    assert_eq!(local.len(), 8);
    assert!(pins.set_all_expander(DriveState::HiZ, 0).is_some());
    assert!(pins.set_all_expander(DriveState::HiZ, 1).is_none());
}

#[test]
fn command_pins_without_expanders() {
    let (mut pins, _) = CommandPins::new(CONTROL_PINS, ExpanderState::NotFound);
    assert_eq!(pins.total_slots_available(), 8);
    assert_eq!(pins.set(8, DriveState::High).unwrap_err(), NOT_DETECTED);
    assert!(pins.set_all_expander(DriveState::High, 0).is_none());
    let (mut pins, _) = CommandPins::new(CONTROL_PINS, ExpanderState::Fault);
    assert_eq!(pins.set(100, DriveState::High).unwrap_err(), INIT_FAILED);
    assert_eq!(NOT_DETECTED, "mcp23017 not detected on GP26/GP27");
    assert_eq!(INIT_FAILED, "mcp23017 init failed; recheck wiring and power");
}

#[test]
fn network_modes() {
    assert_eq!(NetworkMode::TcpServer.as_u8(), 0);
    assert_eq!(NetworkMode::TcpClient.as_u8(), 1);
    assert_eq!(NetworkMode::UdpServer.as_u8(), 2);
    assert_eq!(NetworkMode::UdpClient.as_u8(), 3);
    assert!(!NetworkMode::TcpServer.uses_target_endpoint());
    assert!(NetworkMode::TcpClient.uses_target_endpoint());
    assert!(!NetworkMode::UdpServer.uses_target_endpoint());
    assert!(NetworkMode::UdpClient.uses_target_endpoint());
}

#[test]
fn frames() {
    assert_eq!(build_frame(0x0D, &[]), vec![0x57, 0xAB, 0x0D]);
    assert_eq!(build_frame(0x11, &[192, 168, 1, 200]), vec![0x57, 0xAB, 0x11, 192, 168, 1, 200]);
}

fn config(mode: NetworkMode) -> NetworkConfig {
    NetworkConfig {
        mode,
        local_ip: [192, 168, 1, 200],
        subnet_mask: [255, 255, 255, 0],
        gateway: [192, 168, 1, 1],
        local_port: 5_000,
        target_ip: [192, 168, 1, 10],
        target_port: 5_000,
        transport_baud: 115_200,
    }
}

fn sent(steps: &[ConfigStep]) -> Vec<Vec<u8>> {
    steps
        .iter()
        .filter_map(|s| match s {
            ConfigStep::Send(bytes) => Some(bytes.clone()),
            _ => None,
        })
        .collect()
}

#[test]
fn bridge_start_raises_both_lines() {
    let (_, steps) = Ch9120::new((), ());
    assert!(matches!(steps[0], ConfigStep::SetLine(ControlLine::Cfg, true)));
    assert!(matches!(steps[1], ConfigStep::SetLine(ControlLine::Reset, true)));
}

#[test]
fn server_configuration_sequence() {
    let (mut bridge, _) = Ch9120::new((), ());
    let steps = bridge.configure(config(NetworkMode::TcpServer));
    assert_eq!(steps.len(), 34);
    assert!(matches!(steps[0], ConfigStep::SetLine(ControlLine::Reset, true)));
    assert!(matches!(steps[1], ConfigStep::SetLine(ControlLine::Cfg, false)));
    assert!(matches!(steps[2], ConfigStep::DelayMs(500)));
    assert!(matches!(steps[3], ConfigStep::DelayMs(10)));
    assert!(matches!(steps[33], ConfigStep::SetLine(ControlLine::Cfg, true)));
    assert_eq!(
        sent(&steps),
        vec![
            vec![0x57, 0xAB, 0x10, 0],
            vec![0x57, 0xAB, 0x11, 192, 168, 1, 200],
            vec![0x57, 0xAB, 0x12, 255, 255, 255, 0],
            vec![0x57, 0xAB, 0x13, 192, 168, 1, 1],
            vec![0x57, 0xAB, 0x14, 0x88, 0x13],
            vec![0x57, 0xAB, 0x21, 0x00, 0xC2, 0x01, 0x00],
            vec![0x57, 0xAB, 0x0D],
            vec![0x57, 0xAB, 0x0E],
            vec![0x57, 0xAB, 0x5E],
        ]
    );
}

#[test]
fn client_configuration_includes_the_target() {
    let (mut bridge, _) = Ch9120::new((), ());
    let steps = bridge.configure(config(NetworkMode::UdpClient));
    assert_eq!(steps.len(), 40);
    let frames = sent(&steps);
    assert_eq!(frames[0], vec![0x57, 0xAB, 0x10, 3]);
    assert_eq!(frames[5], vec![0x57, 0xAB, 0x15, 192, 168, 1, 10]);
    assert_eq!(frames[6], vec![0x57, 0xAB, 0x16, 0x88, 0x13]);
}

#[test]
fn bridge_control_lines_are_reachable() {
    let (mut bridge, _) = Ch9120::new(1u8, 2u8);
    let (cfg, reset) = bridge.lines();
    assert_eq!((*cfg, *reset), (1, 2));
    *cfg = 5;
    assert_eq!(*bridge.lines().0, 5);
}
