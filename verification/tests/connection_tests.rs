use orzatty::auth::{
    auth_frame_header, auth_header, client_verdict, server_verdict, AuthMessage, AuthReply,
    HandshakeError,
};
use orzatty::frame::{FrameFlags, FrameHeader, FrameType};
use orzatty::framer::{Framer, ReadEvent, ReadStep};
use orzatty::governor::{
    writer_step, OutboundMessage, Router, WriterAction, WriterEvent, QUEUE_CAPACITY,
};
use orzatty::varint::VARINT_MAX;

#[test]
fn auth_header_shape() {
    let header = auth_header(40);
    assert_eq!(
        header,
        FrameHeader {
            flags: FrameFlags::empty(),
            frame_type: FrameType::RkyvAligned,
            channel_id: 0,
            stream_id: 0,
            length: 40,
        }
    );
    assert_eq!(auth_frame_header(&[0u8; 40]), Ok(vec![0x01, 0x00, 0x00, 0x28]));
}

#[test]
fn client_verdict_of_each_reply() {
    assert_eq!(client_verdict(AuthReply::Message(AuthMessage::Accepted)), Ok(()));
    assert_eq!(
        client_verdict(AuthReply::Message(AuthMessage::Fail { reason: "bad token".to_string() })),
        Err(HandshakeError::Rejected { reason: "bad token".to_string() })
    );
    assert_eq!(
        client_verdict(AuthReply::Message(AuthMessage::Hello { token: "abc".to_string() })),
        Err(HandshakeError::UnexpectedMessage)
    );
    assert_eq!(client_verdict(AuthReply::Closed), Err(HandshakeError::ClosedBeforeResponse));
    assert_eq!(client_verdict(AuthReply::Malformed), Err(HandshakeError::MalformedResponse));
}

#[test]
fn server_verdict_of_each_request() {
    assert_eq!(
        server_verdict(AuthReply::Message(AuthMessage::Hello { token: "abc".to_string() })),
        Ok(AuthMessage::Accepted)
    );
    assert_eq!(
        server_verdict(AuthReply::Message(AuthMessage::Accepted)),
        Err(HandshakeError::UnexpectedMessage)
    );
    assert_eq!(
        server_verdict(AuthReply::Message(AuthMessage::Fail { reason: String::new() })),
        Err(HandshakeError::UnexpectedMessage)
    );
    assert_eq!(server_verdict(AuthReply::Closed), Err(HandshakeError::ClosedBeforeResponse));
    assert_eq!(server_verdict(AuthReply::Malformed), Err(HandshakeError::MalformedResponse));
}

#[test]
fn writer_frames_a_message() {
    let message = OutboundMessage { channel_id: 7, data: b"ping".to_vec() };
    assert_eq!(message.header(4).length, 4);
    assert_eq!(
        writer_step(4, WriterEvent::Message(message)),
        WriterAction::Write { header: vec![0x00, 0x07, 0x04, 0x04], payload: b"ping".to_vec() }
    );
}

#[test]
fn writer_drops_what_cannot_be_framed_and_stops_when_told() {
    let message = OutboundMessage { channel_id: 7, data: b"ping".to_vec() };
    assert_eq!(writer_step(VARINT_MAX + 1, WriterEvent::Message(message)), WriterAction::Skip);
    assert_eq!(writer_step(0, WriterEvent::QueueClosed), WriterAction::Finish);
    assert_eq!(writer_step(0, WriterEvent::WriteFailed), WriterAction::Finish);
    assert_eq!(QUEUE_CAPACITY, 64);
}

#[test]
fn router_prefers_the_channel_handler() {
    let mut router: Router<&'static str> = Router::new();
    assert_eq!(router.route(1), None);
    router.on(1, "one");
    router.on(2, "two");
    assert_eq!(router.route(1), Some(&"one"));
    assert_eq!(router.route(2), Some(&"two"));
    assert_eq!(router.route(3), None);
    router.on_any("any");
    assert_eq!(router.route(3), Some(&"any"));
    assert_eq!(router.route(1), Some(&"one"));
    router.on(1, "uno");
    assert_eq!(router.route(1), Some(&"uno"));
    router.on_any("other");
    assert_eq!(router.route(u32::MAX), Some(&"other"));
}

#[test]
fn wire_keeps_the_order_of_each_channel() {
    let sent: Vec<(u32, Vec<u8>)> = vec![
        (10, b"a1".to_vec()),
        (20, b"b1".to_vec()),
        (10, b"a2".to_vec()),
        (10, b"a3".to_vec()),
        (20, b"b2".to_vec()),
    ];
    let mut wire = Vec::new();
    for (channel_id, data) in sent.iter().cloned() {
        match writer_step(8, WriterEvent::Message(OutboundMessage { channel_id, data })) {
            WriterAction::Write { header, payload } => {
                wire.extend_from_slice(&header);
                wire.extend_from_slice(&payload);
            }
            _ => panic!("message was not written"),
        }
    }
    let mut router: Router<usize> = Router::new();
    router.on(10, 0);
    router.on(20, 1);
    let mut seen: [Vec<Vec<u8>>; 2] = [Vec::new(), Vec::new()];
    let mut framer = Framer::new();
    let mut event = ReadEvent::Data(wire);
    loop {
        match framer.read_frame(event).unwrap() {
            ReadStep::Frame(header, payload) => {
                let slot = *router.route(header.channel_id).unwrap();
                seen[slot].push(payload.to_vec());
                event = ReadEvent::Buffered;
            }
            ReadStep::NeedData => event = ReadEvent::End,
            ReadStep::Finished => break,
        }
    }
    assert_eq!(seen[0], vec![b"a1".to_vec(), b"a2".to_vec(), b"a3".to_vec()]);
    assert_eq!(seen[1], vec![b"b1".to_vec(), b"b2".to_vec()]);
}

#[test]
fn hello_then_ping_end_to_end() {
    let hello = AuthMessage::Hello { token: "abc".to_string() };
    let hello_payload = b"hello:abc".to_vec();
    let mut to_server = auth_frame_header(&hello_payload).unwrap();
    to_server.extend_from_slice(&hello_payload);

    let mut auth_framer = Framer::new();
    let request = match auth_framer.read_frame(ReadEvent::Data(to_server)).unwrap() {
        ReadStep::Frame(header, payload) => {
            assert_eq!(header.frame_type, FrameType::RkyvAligned);
            assert_eq!(header.channel_id, 0);
            assert_eq!(&payload[..], &hello_payload[..]);
            AuthReply::Message(hello)
        }
        _ => panic!("no hello frame"),
    };
    let answer = server_verdict(request).unwrap();
    assert_eq!(answer, AuthMessage::Accepted);
    assert_eq!(client_verdict(AuthReply::Message(answer)), Ok(()));

    let ping = OutboundMessage { channel_id: 7, data: b"ping".to_vec() };
    let mut wire = Vec::new();
    match writer_step(4, WriterEvent::Message(ping)) {
        WriterAction::Write { header, payload } => {
            wire.extend_from_slice(&header);
            wire.extend_from_slice(&payload);
        }
        _ => panic!("ping was not written"),
    }
    let mut framer = Framer::new();
    match framer.read_frame(ReadEvent::Data(wire)).unwrap() {
        ReadStep::Frame(header, payload) => {
            assert_eq!(header.channel_id, 7);
            assert_eq!(header.frame_type, FrameType::RawBinary);
            assert_eq!(header.length, 4);
            assert_eq!(&payload[..], b"ping");
        }
        _ => panic!("no ping frame"),
    }
}
