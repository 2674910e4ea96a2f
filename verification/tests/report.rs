use net_spider::line::{ingest_byte, IngestEvent};
use net_spider::ch9120::{NetworkConfig, NetworkMode};
use net_spider::drive::DriveState;
use net_spider::expander::{ExpanderBank, ExpanderState};
use net_spider::local::{SioRegister, SioWrite};
use net_spider::mcp23017::Mcp23017;
use net_spider::pins::{CommandPins, PinWrites};
use net_spider::process::{after_drive, after_writes, process_line, AllStep, LineAction};
use net_spider::report::{
    write_error, write_help, write_pin_label, write_set_all, write_set_one, write_startup_banner,
    write_status, ASCII_ONLY, COMMAND_TOO_LONG, UART_READ_FAILURE,
};
use net_spider::text::{push_decimal, push_hex2};
use net_spider::CONTROL_PINS;

fn text(f: impl FnOnce(&mut Vec<u8>)) -> String {
    let mut out = Vec::new();
    f(&mut out);
    String::from_utf8(out).unwrap()
}

fn bank_with(addresses: &[u8]) -> ExpanderBank {
    let mut bank = ExpanderBank::new();
    for &a in addresses {
        bank.push(Mcp23017::new(a).0);
    }
    bank
}

fn config() -> NetworkConfig {
    NetworkConfig {
        mode: NetworkMode::TcpServer,
        local_ip: [192, 168, 1, 200],
        subnet_mask: [255, 255, 255, 0],
        gateway: [192, 168, 1, 1],
        local_port: 5_000,
        target_ip: [192, 168, 1, 10],
        target_port: 5_000,
        transport_baud: 115_200,
    }
}

#[test]
fn numbers() {
    assert_eq!(text(|o| push_decimal(o, 0)), "0");
    assert_eq!(text(|o| push_decimal(o, 7)), "7");
    assert_eq!(text(|o| push_decimal(o, 136)), "136");
    assert_eq!(text(|o| push_decimal(o, 1000)), "1000");
    assert_eq!(text(|o| push_hex2(o, 0x20)), "20");
    assert_eq!(text(|o| push_hex2(o, 0x0A)), "0A");
    assert_eq!(text(|o| push_hex2(o, 0xFF)), "FF");
}

#[test]
fn state_labels() {
    assert_eq!(DriveState::High.label(), "HIGH");
    assert_eq!(DriveState::Low.label(), "LOW");
    assert_eq!(DriveState::HiZ.label(), "HI-Z");
}

#[test]
fn pin_labels() {
    assert_eq!(text(|o| write_pin_label(0, o)), "GP2(P1)");
    assert_eq!(text(|o| write_pin_label(7, o)), "GP9(P8)");
    assert_eq!(text(|o| write_pin_label(8, o)), "E1.GPA0(P9/E1X1)");
    assert_eq!(text(|o| write_pin_label(16, o)), "E1.GPB0(P17/E1X9)");
    assert_eq!(text(|o| write_pin_label(26, o)), "E2.GPA2(P27/E2X3)");
    assert_eq!(text(|o| write_pin_label(135, o)), "E8.GPB7(P136/E8X16)");
}

#[test]
fn replies() {
    assert_eq!(text(|o| write_set_one(0, DriveState::High, o)), "OK GP2(P1) HIGH\r\n");
    assert_eq!(text(|o| write_set_one(26, DriveState::HiZ, o)), "OK E2.GPA2(P27/E2X3) HI-Z\r\n");
    assert_eq!(text(|o| write_set_all(DriveState::Low, o)), "OK ALL LOW\r\n");
    assert_eq!(text(|o| write_error("missing state", o)), "ERR missing state\r\n");
    assert_eq!(text(|o| write_error(ASCII_ONLY, o)), "ERR ASCII commands only\r\n");
    assert_eq!(text(|o| write_error(COMMAND_TOO_LONG, o)), "ERR command too long\r\n");
    assert_eq!(text(|o| write_error(UART_READ_FAILURE, o)), "ERR uart read failure\r\n");
}

#[test]
fn help_without_expanders() {
    let (pins, _) = CommandPins::new(CONTROL_PINS, ExpanderState::NotFound);
    assert_eq!(
        text(|o| write_help(&pins, o)),
        "OK commands: HELP, STATUS, P1..P8 HIGH|LOW|HI-Z, ALL HIGH|LOW|HI-Z; add up to 8 MCP23017 on GP26/GP27 for more pins\r\n"
    );
}

#[test]
fn help_with_expanders() {
    let (pins, _) =
        CommandPins::new(CONTROL_PINS, ExpanderState::Ready(bank_with(&[0x20, 0x21])));
    assert_eq!(
        text(|o| write_help(&pins, o)),
        "OK commands: HELP, STATUS, P1..P40 HIGH|LOW|HI-Z, X1..X16/GPA0..GPB7=E1 aliases, E1X1..E2X16, E1GPA0..E2GPB7, ALL HIGH|LOW|HI-Z; short H|L|Z\r\n"
    );
}

#[test]
fn status_without_expanders() {
    let (mut pins, _) = CommandPins::new(CONTROL_PINS, ExpanderState::NotFound);
    pins.set(0, DriveState::High).unwrap();
    pins.set(4, DriveState::Low).unwrap();
    assert_eq!(
        text(|o| write_status(&pins, o)),
        "STATUS LOCAL P1=HIGH P2=HI-Z P3=HI-Z P4=HI-Z P5=LOW P6=HI-Z P7=HI-Z P8=HI-Z\r\n\
STATUS MCP23017=not-detected SDA=GP26 SCL=GP27\r\n"
    );
    let (pins, _) = CommandPins::new(CONTROL_PINS, ExpanderState::Fault);
    assert!(text(|o| write_status(&pins, o)).ends_with("STATUS MCP23017=probe-failed\r\n"));
}

#[test]
fn status_with_an_expander() {
    let (mut pins, _) =
        CommandPins::new(CONTROL_PINS, ExpanderState::Ready(bank_with(&[0x2A])));
    pins.set(8, DriveState::High).unwrap();
    pins.set(23, DriveState::Low).unwrap();
    let expected = "STATUS LOCAL P1=HI-Z P2=HI-Z P3=HI-Z P4=HI-Z P5=HI-Z P6=HI-Z P7=HI-Z P8=HI-Z\r\n\
STATUS MCP23017 count=1 SDA=GP26 SCL=GP27\r\n\
STATUS E1 addr=0x2A slots=P9..P24\r\n\
STATUS E1A E1X1=HIGH E1X2=HI-Z E1X3=HI-Z E1X4=HI-Z E1X5=HI-Z E1X6=HI-Z E1X7=HI-Z E1X8=HI-Z\r\n\
STATUS E1B E1X9=HI-Z E1X10=HI-Z E1X11=HI-Z E1X12=HI-Z E1X13=HI-Z E1X14=HI-Z E1X15=HI-Z E1X16=LOW\r\n";
    assert_eq!(text(|o| write_status(&pins, o)), expected);
}

#[test]
fn banner_variants() {
    let head = "\r\nRP2040-ETH ready at 192.168.1.200:5000\r\n\
LOCAL P1=GP2 P2=GP3 P3=GP4 P4=GP5 P5=GP6 P6=GP7 P7=GP8 P8=GP9\r\n";
    let tail = "Try HELP, STATUS, P1 HIGH, E2X3 LOW, or ALL HI-Z\r\n";

    let (pins, _) = CommandPins::new(CONTROL_PINS, ExpanderState::NotFound);
    assert_eq!(
        text(|o| write_startup_banner(&pins, &config(), o)),
        format!("{head}No MCP23017 detected on GP26(SDA)/GP27(SCL); only P1..P8 available\r\n{tail}")
    );

    let (pins, _) = CommandPins::new(CONTROL_PINS, ExpanderState::Fault);
    assert_eq!(
        text(|o| write_startup_banner(&pins, &config(), o)),
        format!("{head}MCP23017 probe failed on GP26(SDA)/GP27(SCL); recheck wiring and supply voltage\r\n{tail}")
    );

    let (pins, _) =
        CommandPins::new(CONTROL_PINS, ExpanderState::Ready(bank_with(&[0x20, 0x27])));
    assert_eq!(
        text(|o| write_startup_banner(&pins, &config(), o)),
        format!("{head}MCP23017 count=2 on GP26(SDA)/GP27(SCL): P9..P40 available\r\n\
EXPANDERS E1=0x20[P9..P24] E2=0x27[P25..P40]\r\n{tail}")
    );
}

fn reply_of(action: &LineAction) -> String {
    match action {
        LineAction::Reply(t) => String::from_utf8(t.clone()).unwrap(),
        LineAction::Drive { reply, .. } => String::from_utf8(reply.clone()).unwrap(),
        LineAction::DriveAll { reply, .. } => String::from_utf8(reply.clone()).unwrap(),
    }
}

#[test]
fn processing_lines() {
    let (mut pins, _) = CommandPins::new(CONTROL_PINS, ExpanderState::NotFound);

    let action = process_line(b"P1 HIGH", &mut pins);
    assert_eq!(reply_of(&action), "OK GP2(P1) HIGH\r\n");
    match action {
        LineAction::Drive { writes: PinWrites::Local(w), .. } => assert_eq!(
            w,
            vec![
                SioWrite { register: SioRegister::OutSet, mask: 1 << 2 },
                SioWrite { register: SioRegister::OeSet, mask: 1 << 2 },
            ]
        ),
        other => panic!("unexpected {other:?}"),
    }

    let action = process_line(b"STATUS", &mut pins);
    assert!(reply_of(&action).starts_with("STATUS LOCAL P1=HIGH P2=HI-Z"));

    let action = process_line(b"HELP", &mut pins);
    assert!(reply_of(&action).starts_with("OK commands: HELP, STATUS, P1..P8"));

    let action = process_line(b"P9 HIGH", &mut pins);
    assert_eq!(reply_of(&action), "ERR mcp23017 not detected on GP26/GP27\r\n");

    let action = process_line(b"bogus", &mut pins);
    assert_eq!(reply_of(&action), "ERR missing state\r\n");

    let action = process_line(&[0xFF, 0x41], &mut pins);
    assert_eq!(reply_of(&action), "ERR ASCII commands only\r\n");

    let action = process_line(b"all low", &mut pins);
    assert_eq!(reply_of(&action), "OK ALL LOW\r\n");
    match action {
        LineAction::DriveAll { local_writes, state, .. } => {
            assert_eq!(local_writes.len(), 16);
            assert_eq!(state, DriveState::Low);
        }
        other => panic!("unexpected {other:?}"),
    }
    assert_eq!(pins.local().states(), &[DriveState::Low; 8]);
}

#[test]
fn status_reports_what_was_set() {
    let (mut pins, _) =
        CommandPins::new(CONTROL_PINS, ExpanderState::Ready(bank_with(&[0x20, 0x21])));
    process_line(b"E2X3 LOW", &mut pins);
    process_line(b"P3 HIGH", &mut pins);
    let status = reply_of(&process_line(b"STATUS", &mut pins));
    assert!(status.contains("P3=HIGH"));
    assert!(status.contains("E2X3=LOW"));
    assert!(status.contains("E1X3=HI-Z"));
}

#[test]
fn assembled_lines_pass_the_ascii_check() {
    let (mut pins, _) = CommandPins::new(CONTROL_PINS, ExpanderState::NotFound);
    let mut buffer = Vec::new();
    let mut replies = Vec::new();
    for &byte in b"p2 z\xff\x01\r".iter() {
        if let IngestEvent::Line(line) = ingest_byte(byte, &mut buffer) {
            replies.push(reply_of(&process_line(&line, &mut pins)));
        }
    }
    assert_eq!(replies, vec!["OK GP3(P2) HI-Z\r\n".to_string()]);
}

#[test]
fn a_failed_write_turns_the_reply_into_an_error() {
    assert_eq!(after_drive(true, b"OK GP2(P1) HIGH\r\n".to_vec()), b"OK GP2(P1) HIGH\r\n".to_vec());
    assert_eq!(
        String::from_utf8(after_drive(false, b"OK GP2(P1) HIGH\r\n".to_vec())).unwrap(),
        "ERR mcp23017 i2c write failed\r\n"
    );
}

fn expander_states(pins: &CommandPins) -> Vec<[DriveState; 16]> {
    match pins.expander() {
        ExpanderState::Ready(bank) => {
            (0..bank.count()).map(|i| *bank.device(i).unwrap().states()).collect()
        }
        _ => Vec::new(),
    }
}

#[test]
fn all_works_through_every_expander() {
    let (mut pins, _) =
        CommandPins::new(CONTROL_PINS, ExpanderState::Ready(bank_with(&[0x20, 0x21])));
    match after_writes(&mut pins, DriveState::Low, 0, true) {
        AllStep::Write(w) => assert_eq!(w[0].address, 0x20),
        other => panic!("unexpected {other:?}"),
    }
    match after_writes(&mut pins, DriveState::Low, 1, true) {
        AllStep::Write(w) => assert_eq!(w[0].address, 0x21),
        other => panic!("unexpected {other:?}"),
    }
    match after_writes(&mut pins, DriveState::Low, 2, true) {
        AllStep::Reply(t) => assert_eq!(String::from_utf8(t).unwrap(), "OK ALL LOW\r\n"),
        other => panic!("unexpected {other:?}"),
    }
    assert_eq!(expander_states(&pins), vec![[DriveState::Low; 16]; 2]);
}

#[test]
fn all_stops_at_the_first_failed_expander() {
    let (mut pins, _) =
        CommandPins::new(CONTROL_PINS, ExpanderState::Ready(bank_with(&[0x20, 0x21])));
    assert!(matches!(after_writes(&mut pins, DriveState::High, 0, true), AllStep::Write(_)));
    match after_writes(&mut pins, DriveState::High, 1, false) {
        AllStep::Reply(t) => {
            assert_eq!(String::from_utf8(t).unwrap(), "ERR mcp23017 i2c write failed\r\n")
        }
        other => panic!("unexpected {other:?}"),
    }
    assert_eq!(expander_states(&pins), vec![[DriveState::High; 16], [DriveState::HiZ; 16]]);
}

#[test]
fn all_without_expanders_answers_at_once() {
    let (mut pins, _) = CommandPins::new(CONTROL_PINS, ExpanderState::NotFound);
    match after_writes(&mut pins, DriveState::HiZ, 0, true) {
        AllStep::Reply(t) => assert_eq!(String::from_utf8(t).unwrap(), "OK ALL HI-Z\r\n"),
        other => panic!("unexpected {other:?}"),
    }
}
