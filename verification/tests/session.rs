use cipher_chat::exchange::{HandshakeEvent, KeyExchange, Role};
use cipher_chat::keystream::Keystream;
use cipher_chat::session::{
    trim_line_ending, Awaited, Session, SessionAction, SessionEvent, SessionPhase, RECEIVE_LIMIT,
};
use cipher_chat::wire::encode_public_value;

fn transmit(client: &mut Session, line: &[u8]) -> Vec<u8> {
    match client.step(SessionEvent::Line(line.to_vec())) {
        SessionAction::Transmit(bytes) => bytes,
        other => panic!("client answered with {:?}", other),
    }
}

fn display(server: &mut Session, chunk: &[u8]) -> Vec<u8> {
    match server.step(SessionEvent::Received(chunk.to_vec())) {
        SessionAction::Display(bytes) => bytes,
        other => panic!("server answered with {:?}", other),
    }
}

#[test]
fn trim_cuts_only_the_line_ending() {
    assert_eq!(trim_line_ending(b"hello\n"), b"hello");
    assert_eq!(trim_line_ending(b"hello\r\n"), b"hello");
    assert_eq!(trim_line_ending(b"hello"), b"hello");
    assert_eq!(trim_line_ending(b"hello\r"), b"hello\r");
    assert_eq!(trim_line_ending(b"  hello  \n"), b"  hello  ");
    assert_eq!(trim_line_ending(b"hello\n\n"), b"hello\n");
    assert_eq!(trim_line_ending(b"\n"), b"");
    assert_eq!(trim_line_ending(b"\r\n"), b"");
    assert_eq!(trim_line_ending(b""), b"");
    assert_eq!(trim_line_ending(b"a\nb"), b"a\nb");
}

#[test]
fn a_new_session_is_open() {
    let server = Session::new(Role::Server, 9);
    assert_eq!(server.role(), Role::Server);
    assert_eq!(server.phase(), SessionPhase::Open);
    assert_eq!(server.position(), 0);
    assert_eq!(server.awaits(), Awaited::SocketData { limit: 1024 });
    assert_eq!(RECEIVE_LIMIT, 1024);
    let client = Session::new(Role::Client, 9);
    assert_eq!(client.awaits(), Awaited::InputLine);
}

#[test]
fn a_session_follows_an_established_exchange() {
    let mut server = KeyExchange::with_exponent(Role::Server, 5);
    assert!(Session::establish(&server).is_none());
    server.step(HandshakeEvent::Start);
    assert!(Session::establish(&server).is_none());
    server.step(HandshakeEvent::Sent);
    assert!(Session::establish(&server).is_none());
    server.step(HandshakeEvent::Received(encode_public_value(128).to_vec()));
    let mut session = Session::establish(&server).unwrap();
    assert_eq!(session.role(), Role::Server);
    assert_eq!(session.position(), 0);
    let mut sender = Keystream::new(34_359_738_368);
    let ciphertext = sender.apply(b"hello");
    assert_eq!(display(&mut session, &ciphertext), b"hello".to_vec());
}

#[test]
fn no_session_follows_a_failed_exchange() {
    let mut client = KeyExchange::with_exponent(Role::Client, 5);
    client.step(HandshakeEvent::Start);
    client.step(HandshakeEvent::Received(vec![1, 2, 3]));
    assert!(Session::establish(&client).is_none());
}

#[test]
fn the_client_encrypts_and_the_server_decrypts() {
    let secret = 34_359_738_368;
    let mut client = Session::new(Role::Client, secret);
    let mut server = Session::new(Role::Server, secret);
    let ciphertext = transmit(&mut client, b"hello\n");
    assert_eq!(ciphertext.len(), 5);
    assert_ne!(ciphertext, b"hello".to_vec());
    let mut reference = Keystream::new(secret);
    assert_eq!(ciphertext, reference.apply(b"hello"));
    assert_eq!(display(&mut server, &ciphertext), b"hello".to_vec());
    assert_eq!(client.position(), 5);
    assert_eq!(server.position(), 5);
    let second = transmit(&mut client, b"how are you?\r\n");
    assert_eq!(second.len(), 12);
    assert_eq!(display(&mut server, &second), b"how are you?".to_vec());
    assert_eq!(client.position(), 17);
    assert_eq!(server.position(), 17);
}

#[test]
fn inner_and_leading_whitespace_is_sent() {
    let mut client = Session::new(Role::Client, 3);
    let mut server = Session::new(Role::Server, 3);
    let ciphertext = transmit(&mut client, b"  two  words \n");
    assert_eq!(display(&mut server, &ciphertext), b"  two  words ".to_vec());
}

#[test]
fn message_boundaries_are_not_kept() {
    let mut client = Session::new(Role::Client, 123);
    let mut server = Session::new(Role::Server, 123);
    let mut wire = transmit(&mut client, b"first\n");
    wire.extend(transmit(&mut client, b"second\n"));
    let mut shown = display(&mut server, &wire[..3]);
    shown.extend(display(&mut server, &wire[3..4]));
    shown.extend(display(&mut server, &wire[4..]));
    assert_eq!(shown, b"firstsecond".to_vec());
    assert_eq!(server.position(), client.position());
}

#[test]
fn an_empty_line_transmits_nothing_and_moves_nothing() {
    let mut client = Session::new(Role::Client, 1);
    assert_eq!(client.step(SessionEvent::Line(b"\n".to_vec())), SessionAction::Transmit(vec![]));
    assert_eq!(client.position(), 0);
    assert_eq!(client.phase(), SessionPhase::Open);
}

#[test]
fn an_empty_read_closes_the_server() {
    let mut server = Session::new(Role::Server, 1);
    assert_eq!(server.step(SessionEvent::Received(vec![])), SessionAction::Close);
    assert_eq!(server.phase(), SessionPhase::Closed);
    assert_eq!(server.awaits(), Awaited::Nothing);
    assert_eq!(server.step(SessionEvent::Received(vec![1, 2, 3])), SessionAction::Close);
    assert_eq!(server.position(), 0);
}

#[test]
fn end_of_input_closes_the_client() {
    let mut client = Session::new(Role::Client, 1);
    transmit(&mut client, b"bye\n");
    assert_eq!(client.step(SessionEvent::EndOfInput), SessionAction::Close);
    assert_eq!(client.phase(), SessionPhase::Closed);
    assert_eq!(client.awaits(), Awaited::Nothing);
    assert_eq!(client.step(SessionEvent::Line(b"more\n".to_vec())), SessionAction::Close);
    assert_eq!(client.position(), 3);
}

#[test]
fn the_session_is_one_way() {
    let mut server = Session::new(Role::Server, 1);
    assert_eq!(server.step(SessionEvent::Line(b"hi\n".to_vec())), SessionAction::Ignore);
    assert_eq!(server.step(SessionEvent::EndOfInput), SessionAction::Ignore);
    assert_eq!(server.phase(), SessionPhase::Open);
    assert_eq!(server.position(), 0);
    let mut client = Session::new(Role::Client, 1);
    assert_eq!(client.step(SessionEvent::Received(vec![1, 2, 3])), SessionAction::Ignore);
    assert_eq!(client.step(SessionEvent::Received(vec![])), SessionAction::Ignore);
    assert_eq!(client.phase(), SessionPhase::Open);
    assert_eq!(client.position(), 0);
}

#[test]
fn a_transport_error_ends_the_session() {
    for role in [Role::Server, Role::Client] {
        let mut session = Session::new(role, 1);
        assert_eq!(session.step(SessionEvent::TransportError), SessionAction::Abort);
        assert_eq!(session.phase(), SessionPhase::Failed);
        assert_eq!(session.awaits(), Awaited::Nothing);
        assert_eq!(session.step(SessionEvent::EndOfInput), SessionAction::Abort);
        assert_eq!(session.step(SessionEvent::Received(vec![1])), SessionAction::Abort);
    }
}

#[test]
fn a_receiver_out_of_step_shows_garbage() {
    let mut client = Session::new(Role::Client, 55);
    let mut server = Session::new(Role::Server, 55);
    let lost = transmit(&mut client, b"lost in transit\n");
    assert_eq!(lost.len(), 15);
    let ciphertext = transmit(&mut client, b"hello\n");
    assert_ne!(display(&mut server, &ciphertext), b"hello".to_vec());
    assert_ne!(server.position(), client.position());
}

#[test]
fn from_handshake_to_first_message() {
    let mut server = KeyExchange::with_exponent(Role::Server, 5);
    let mut client = KeyExchange::with_exponent(Role::Client, 7);
    server.step(HandshakeEvent::Start);
    client.step(HandshakeEvent::Start);
    server.step(HandshakeEvent::Sent);
    client.step(HandshakeEvent::Received(encode_public_value(server.public_value()).to_vec()));
    client.step(HandshakeEvent::Sent);
    server.step(HandshakeEvent::Received(encode_public_value(client.public_value()).to_vec()));
    let mut receiving = Session::establish(&server).unwrap();
    let mut sending = Session::establish(&client).unwrap();
    assert_eq!(receiving.role(), Role::Server);
    assert_eq!(sending.role(), Role::Client);
    let ciphertext = transmit(&mut sending, b"hello\n");
    assert_eq!(display(&mut receiving, &ciphertext), b"hello".to_vec());
    let ciphertext = transmit(&mut sending, b"and again\n");
    assert_eq!(display(&mut receiving, &ciphertext), b"and again".to_vec());
    assert_eq!(sending.step(SessionEvent::EndOfInput), SessionAction::Close);
    assert_eq!(receiving.step(SessionEvent::Received(vec![])), SessionAction::Close);
}
