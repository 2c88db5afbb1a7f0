use chat_relay::types::Action;
use chat_relay::types::Address;
use chat_relay::types::Client;
use chat_relay::types::Event;
use chat_relay::types::welcome_banner;
use chat_relay::registry::Registry;
use chat_relay::dispatch::step;
use chat_relay::handler::HandlerStep;
use chat_relay::handler::ReadOutcome;
use chat_relay::handler::on_read;
use chat_relay::handler::strip_control;
use chat_relay::utf8::check_utf8;

fn addr(n: u64) -> Address {
    Address { ip_hi: 0, ip_lo: n, port: 5050 }
}

#[test]
fn banner_is_the_fixed_greeting() {
    assert_eq!(welcome_banner(), b"Thanks for connecting\n".to_vec());
}

#[test]
fn connect_emits_one_banner_and_registers() {
    let mut reg = Registry::new();
    let c = Client::new(addr(1), 10);
    let actions = step(&mut reg, Event::Connected { client: c });
    assert_eq!(actions.len(), 1);
    assert!(matches!(&actions[0], Action::Banner { client } if *client == c));
    assert!(reg.contains_address(addr(1)));
    assert_eq!(reg.len(), 1);
}

#[test]
fn reconnect_overwrites_stale_entry() {
    let mut reg = Registry::new();
    step(&mut reg, Event::Connected { client: Client::new(addr(1), 10) });
    step(&mut reg, Event::Connected { client: Client::new(addr(1), 11) });
    assert_eq!(reg.len(), 1);
    let seen = reg.recipients(addr(9));
    assert_eq!(seen.len(), 1);
    assert_eq!(seen[0].handle, 11);
}

#[test]
fn disconnect_removes_the_client() {
    let mut reg = Registry::new();
    step(&mut reg, Event::Connected { client: Client::new(addr(1), 10) });
    step(&mut reg, Event::Connected { client: Client::new(addr(2), 20) });
    let actions = step(&mut reg, Event::Disconnected { address: addr(1) });
    assert!(actions.is_empty());
    assert_eq!(reg.len(), 1);
    assert!(!reg.contains_address(addr(1)));
    assert!(reg.contains_address(addr(2)));
}

#[test]
fn disconnect_of_unregistered_address_is_a_no_op() {
    let mut reg = Registry::new();
    step(&mut reg, Event::Connected { client: Client::new(addr(1), 10) });
    let actions = step(&mut reg, Event::Disconnected { address: addr(7) });
    assert!(actions.is_empty());
    assert_eq!(reg.len(), 1);
    assert!(reg.contains_address(addr(1)));
}

#[test]
fn message_reaches_every_other_client() {
    let mut reg = Registry::new();
    let a = Client::new(addr(1), 10);
    let b = Client::new(addr(2), 20);
    let c = Client::new(addr(3), 30);
    step(&mut reg, Event::Connected { client: a });
    step(&mut reg, Event::Connected { client: b });
    step(&mut reg, Event::Connected { client: c });
    let actions = step(&mut reg, Event::Message { address: addr(2), text: b"hey".to_vec() });
    assert_eq!(actions.len(), 2);
    assert!(matches!(&actions[0], Action::Relay { client, text }
        if *client == a && text == &b"hey".to_vec()));
    assert!(matches!(&actions[1], Action::Relay { client, text }
        if *client == c && text == &b"hey".to_vec()));
    assert_eq!(reg.len(), 3);
}

#[test]
fn message_with_no_other_clients_goes_nowhere() {
    let mut reg = Registry::new();
    step(&mut reg, Event::Connected { client: Client::new(addr(1), 10) });
    let actions = step(&mut reg, Event::Message { address: addr(1), text: b"hi".to_vec() });
    assert!(actions.is_empty());
}

#[test]
fn control_bytes_are_stripped_from_reads() {
    let raw = vec![0x00u8, b'h', 0x1F, b'i', 0x0A, 0x01, b'!'];
    let step_taken = on_read(addr(1), ReadOutcome::Data { bytes: raw });
    match step_taken {
        HandlerStep::Emit { event: Event::Message { address, text } } => {
            assert_eq!(address, addr(1));
            assert_eq!(text, b"hi!".to_vec());
        },
        _ => panic!("expected a message event"),
    }
}

#[test]
fn stripping_keeps_clean_text_unchanged() {
    let out = strip_control(&b"plain text".to_vec());
    assert_eq!(out, b"plain text".to_vec());
    let all_control: Vec<u8> = (0x00u8..0x20).collect();
    assert!(strip_control(&all_control).is_empty());
}

#[test]
fn only_control_bytes_yield_an_empty_message() {
    let raw = vec![0x07u8, 0x00, 0x1B];
    let step_taken = on_read(addr(1), ReadOutcome::Data { bytes: raw });
    match step_taken {
        HandlerStep::Emit { event: Event::Message { address, text } } => {
            assert_eq!(address, addr(1));
            assert!(text.is_empty());
        },
        _ => panic!("expected a message event"),
    }
}

#[test]
fn invalid_text_is_dropped_for_the_cycle() {
    let raw = vec![b'a', 0xFFu8, b'b'];
    let step_taken = on_read(addr(1), ReadOutcome::Data { bytes: raw });
    assert!(matches!(step_taken, HandlerStep::Skip));
}

#[test]
fn closed_read_emits_one_disconnect_and_stops() {
    let step_taken = on_read(addr(4), ReadOutcome::Closed);
    match step_taken {
        HandlerStep::Stop { event: Event::Disconnected { address } } => {
            assert_eq!(address, addr(4));
        },
        _ => panic!("expected a disconnect event"),
    }
}

#[test]
fn failed_read_emits_one_disconnect_and_stops() {
    let step_taken = on_read(addr(5), ReadOutcome::Failed);
    match step_taken {
        HandlerStep::Stop { event: Event::Disconnected { address } } => {
            assert_eq!(address, addr(5));
        },
        _ => panic!("expected a disconnect event"),
    }
}

#[test]
fn utf8_check_accepts_well_formed_sequences() {
    assert!(check_utf8(&b"".to_vec()));
    assert!(check_utf8(&b"ascii only".to_vec()));
    assert!(check_utf8(&vec![0xC3, 0xA9])); // U+00E9
    assert!(check_utf8(&vec![0xE2, 0x82, 0xAC])); // U+20AC
    assert!(check_utf8(&vec![0xF0, 0x9F, 0x98, 0x80])); // U+1F600
    assert!(check_utf8(&vec![0xF4, 0x8F, 0xBF, 0xBF])); // U+10FFFF
}

#[test]
fn utf8_check_rejects_malformed_sequences() {
    assert!(!check_utf8(&vec![0x80])); // lone continuation
    assert!(!check_utf8(&vec![0xC3])); // truncated two-byte form
    assert!(!check_utf8(&vec![0xC0, 0x80])); // overlong
    assert!(!check_utf8(&vec![0xE0, 0x80, 0x80])); // overlong
    assert!(!check_utf8(&vec![0xED, 0xA0, 0x80])); // surrogate
    assert!(!check_utf8(&vec![0xF4, 0x90, 0x80, 0x80])); // above U+10FFFF
    assert!(!check_utf8(&vec![0xF5, 0x80, 0x80, 0x80]));
    assert!(!check_utf8(&vec![0xFF]));
}

#[test]
fn utf8_check_agrees_with_the_standard_decoder() {
    let cases: Vec<Vec<u8>> = vec![
        b"hello".to_vec(),
        vec![0xC3, 0xA9, b'!'],
        vec![0xE2, 0x82],
        vec![0xE2, 0x82, 0xAC, 0x80],
        vec![0xC1, 0xBF],
        vec![0xED, 0x9F, 0xBF],
        vec![0xED, 0xA0, 0x80],
        vec![0xF0, 0x8F, 0xBF, 0xBF],
        vec![0xF0, 0x90, 0x80, 0x80],
        vec![0xF4, 0x8F, 0xBF, 0xBF],
        vec![0xF4, 0x90, 0x80, 0x80],
        vec![0x7F, 0x80],
        vec![0xC2, 0x20],
    ];
    for bytes in cases {
        assert_eq!(
            check_utf8(&bytes),
            String::from_utf8(bytes.clone()).is_ok(),
            "disagreement on {:?}",
            bytes
        );
    }
}

#[test]
fn end_to_end_two_clients() {
    let mut reg = Registry::new();
    let a = Client::new(addr(1), 10);
    let b = Client::new(addr(2), 20);

    // Client A connects and is greeted.
    let actions = step(&mut reg, Event::Connected { client: a });
    assert_eq!(actions.len(), 1);
    assert!(matches!(&actions[0], Action::Banner { client } if *client == a));
    assert_eq!(welcome_banner(), b"Thanks for connecting\n".to_vec());

    // Client B connects and is greeted the same way.
    let actions = step(&mut reg, Event::Connected { client: b });
    assert_eq!(actions.len(), 1);
    assert!(matches!(&actions[0], Action::Banner { client } if *client == b));

    // A sends "hello": exactly B receives it, A receives nothing.
    let read = on_read(addr(1), ReadOutcome::Data { bytes: b"hello".to_vec() });
    let event = match read {
        HandlerStep::Emit { event } => event,
        _ => panic!("expected a message event"),
    };
    let actions = step(&mut reg, event);
    assert_eq!(actions.len(), 1);
    assert!(matches!(&actions[0], Action::Relay { client, text }
        if *client == b && text == &b"hello".to_vec()));

    // B disconnects; a later "hi" from A reaches nobody.
    step(&mut reg, Event::Disconnected { address: addr(2) });
    let read = on_read(addr(1), ReadOutcome::Data { bytes: b"hi".to_vec() });
    let event = match read {
        HandlerStep::Emit { event } => event,
        _ => panic!("expected a message event"),
    };
    let actions = step(&mut reg, event);
    assert!(actions.is_empty());
}
