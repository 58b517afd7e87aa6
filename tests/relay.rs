use dikuchat::protocol::{
    error_reply, from_reply, line_of, names_reply, noname_reply, process_input, Method,
};
use dikuchat::registry::Registry;
use dikuchat::session::{dispatch, keeps_reading, read_chunk, ChatMessage, Event, Outcome, ReaderAction};

fn decoded(line: &[u8]) -> Option<Method> {
    process_input(line)
}

fn command(reg: &mut Registry, id: u128, line: &[u8]) -> Outcome {
    match read_chunk(line) {
        ReaderAction::Forward(m) => dispatch(reg, id, Event::Command(m)),
        ReaderAction::Reject(b) => panic!("rejected: {:?}", b),
    }
}

fn incoming(reg: &mut Registry, id: u128, sender: &[u8], body: &[u8]) -> Outcome {
    let msg = ChatMessage { sender: sender.to_vec(), body: body.to_vec() };
    dispatch(reg, id, Event::Incoming(msg))
}

#[test]
fn decodes_quit_and_who() {
    assert!(matches!(decoded(b"QUIT"), Some(Method::Quit)));
    assert!(matches!(decoded(b"WHO"), Some(Method::Who)));
    assert!(matches!(decoded(b"WHO extra"), Some(Method::Who)));
}

#[test]
fn decodes_name_with_rest_of_line() {
    match decoded(b"NAME alice smith") {
        Some(Method::Name(n)) => assert_eq!(n, b"alice smith".to_vec()),
        _ => panic!("expected a name"),
    }
}

#[test]
fn name_without_argument_is_malformed() {
    assert!(decoded(b"NAME").is_none());
    assert!(decoded(b"NAME ").is_none());
}

#[test]
fn broadcast_argument_may_be_empty() {
    match decoded(b"BROADCAST") {
        Some(Method::Broadcast(m)) => assert!(m.is_empty()),
        _ => panic!("expected a broadcast"),
    }
    match decoded(b"BROADCAST  two  spaces") {
        Some(Method::Broadcast(m)) => assert_eq!(m, b" two  spaces".to_vec()),
        _ => panic!("expected a broadcast"),
    }
}

#[test]
fn unknown_and_lowercase_keywords_are_malformed() {
    assert!(decoded(b"HELLO").is_none());
    assert!(decoded(b"quit").is_none());
    assert!(decoded(b"QUITX").is_none());
    assert!(decoded(b"").is_none());
}

#[test]
fn terminator_is_stripped() {
    assert_eq!(line_of(b"WHO\r\n"), b"WHO".to_vec());
    assert_eq!(line_of(b"WHO"), b"WHO".to_vec());
    assert_eq!(line_of(b"\n"), b"\n".to_vec());
}

#[test]
fn replies_have_the_wire_format() {
    assert_eq!(error_reply(b"bad\r\n"), b"ERROR bad\r\n".to_vec());
    assert_eq!(noname_reply(), b"NONAME\r\n".to_vec());
    assert_eq!(from_reply(b"bob", b"hello there"), b"FROM bob hello there\r\n".to_vec());
    let names = vec![b"a".to_vec(), Vec::new(), b"c".to_vec()];
    assert_eq!(names_reply(&names), b"NAMES a  c\r\n".to_vec());
    assert_eq!(names_reply(&Vec::new()), b"NAMES\r\n".to_vec());
}

#[test]
fn registry_insert_rename_remove() {
    let mut reg = Registry::new();
    assert!(reg.insert(7));
    assert!(!reg.insert(7));
    assert!(reg.insert(9));
    assert_eq!(reg.len(), 2);
    assert_eq!(reg.ids(), vec![9, 7]);
    assert!(reg.update_name(7, b"x".to_vec()));
    assert!(!reg.update_name(8, b"y".to_vec()));
    assert_eq!(reg.name(7), b"x".to_vec());
    assert_eq!(reg.name(9), Vec::<u8>::new());
    reg.remove(7);
    reg.remove(7);
    assert!(!reg.contains(7));
    assert!(reg.contains(9));
    assert_eq!(reg.names(), vec![Vec::<u8>::new()]);
}

#[test]
fn connect_registers_a_fresh_client() {
    let mut reg = Registry::new();
    let a = reg.connect().expect("fresh id");
    let b = reg.connect().expect("fresh id");
    assert_ne!(a, b);
    assert_eq!(reg.ids(), vec![b, a]);
}

#[test]
fn broadcast_reaches_every_client_once() {
    let mut reg = Registry::new();
    for id in [1u128, 2, 3] {
        assert!(reg.insert(id));
    }
    command(&mut reg, 2, b"NAME bob\r\n");
    let out = command(&mut reg, 2, b"BROADCAST hey you\r\n");
    assert!(out.reply.is_empty());
    assert!(!out.close);
    let mut to: Vec<u128> = out.deliveries.iter().map(|d| d.to).collect();
    to.sort();
    assert_eq!(to, vec![1, 2, 3]);
    for d in &out.deliveries {
        assert_eq!(d.message.sender, b"bob".to_vec());
        assert_eq!(d.message.body, b"hey you".to_vec());
    }
}

#[test]
fn broadcast_without_name_answers_noname() {
    let mut reg = Registry::new();
    reg.insert(1);
    reg.insert(2);
    let out = command(&mut reg, 1, b"BROADCAST hi\r\n");
    assert_eq!(out.reply, b"NONAME\r\n".to_vec());
    assert!(out.deliveries.is_empty());
}

#[test]
fn who_lists_each_client_once() {
    let mut reg = Registry::new();
    reg.insert(1);
    reg.insert(2);
    reg.insert(3);
    command(&mut reg, 1, b"NAME ann\r\n");
    command(&mut reg, 3, b"NAME cy\r\n");
    let out = command(&mut reg, 2, b"WHO\r\n");
    assert_eq!(out.reply, b"NAMES cy  ann\r\n".to_vec());
    assert!(out.deliveries.is_empty());
}

#[test]
fn quit_removes_client_and_closes() {
    let mut reg = Registry::new();
    reg.insert(1);
    reg.insert(2);
    command(&mut reg, 1, b"NAME ann\r\n");
    command(&mut reg, 2, b"NAME bo\r\n");
    let action = read_chunk(b"QUIT\r\n");
    assert!(!keeps_reading(&action));
    let out = match action {
        ReaderAction::Forward(m) => dispatch(&mut reg, 1, Event::Command(m)),
        ReaderAction::Reject(_) => panic!("QUIT was rejected"),
    };
    assert!(out.close);
    assert!(out.reply.is_empty());
    assert!(!reg.contains(1));
    assert_eq!(command(&mut reg, 2, b"WHO\r\n").reply, b"NAMES bo\r\n".to_vec());
    let out = command(&mut reg, 2, b"BROADCAST still here\r\n");
    assert_eq!(out.deliveries.len(), 1);
    assert_eq!(out.deliveries[0].to, 2);
}

#[test]
fn malformed_line_is_echoed_verbatim() {
    let action = read_chunk(b"HELLO world\r\n");
    assert!(keeps_reading(&action));
    match action {
        ReaderAction::Reject(b) => assert_eq!(b, b"ERROR HELLO world\r\n".to_vec()),
        ReaderAction::Forward(_) => panic!("should be rejected"),
    }
    match read_chunk(b"NAME \r\n") {
        ReaderAction::Reject(b) => assert_eq!(b, b"ERROR NAME \r\n".to_vec()),
        ReaderAction::Forward(_) => panic!("should be rejected"),
    }
}

#[test]
fn who_twice_gives_the_same_answer() {
    let mut reg = Registry::new();
    reg.insert(1);
    reg.insert(2);
    command(&mut reg, 2, b"NAME zed\r\n");
    let first = command(&mut reg, 1, b"WHO\r\n");
    let second = command(&mut reg, 1, b"WHO\r\n");
    assert_eq!(first.reply, second.reply);
}

#[test]
fn incoming_message_is_written_as_from() {
    let mut reg = Registry::new();
    reg.insert(1);
    let out = incoming(&mut reg, 1, b"alice", b"hi");
    assert_eq!(out.reply, b"FROM alice hi\r\n".to_vec());
    assert!(out.deliveries.is_empty());
    assert!(!out.close);
}

#[test]
fn alice_broadcast_reaches_unnamed_client() {
    let mut reg = Registry::new();
    let b: u128 = 11;
    let a: u128 = 22;
    assert!(reg.insert(b));
    assert!(reg.insert(a));
    command(&mut reg, a, b"NAME alice\r\n");
    let out = command(&mut reg, a, b"BROADCAST hi\r\n");
    let mut seen: Vec<u128> = Vec::new();
    for d in out.deliveries {
        let line = incoming(&mut reg, d.to, &d.message.sender, &d.message.body).reply;
        assert_eq!(line, b"FROM alice hi\r\n".to_vec());
        seen.push(d.to);
    }
    seen.sort();
    assert_eq!(seen, vec![b, a]);
    assert_eq!(command(&mut reg, b, b"WHO\r\n").reply, b"NAMES alice \r\n".to_vec());
}
