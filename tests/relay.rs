use multiplayer::capture::{CaptureEngine, CodecError, FrameAccumulator};
use multiplayer::client::{ClientInput, ClientPhase, ClientSession, Command, Event, BACKOFF_MS};
use multiplayer::format::{SampleError, SampleFormat, FRAME_BYTES, FRAME_SAMPLES, FLOAT_SAMPLE_BYTES};
use multiplayer::hub::BroadcastHub;
use multiplayer::playback::{fit_frame, PlaybackSink};
use multiplayer::registry::{PeerAddr, Registry};
use multiplayer::server::{AcceptError, HandshakeOutcome, Host, Phase};
use multiplayer::settings::{Entry, Mode, Settings};
use multiplayer::status::Message;
use multiplayer::wire::{
    decode_client, decode_host, read_framing, ClientMessage, Decoded, Framing, HostMessage,
    MAX_BODY_BYTES,
};

fn addr(last: u8, port: u16) -> PeerAddr {
    PeerAddr { ip: 0xc0a8_0000 | last as u128, v6: false, port }
}

fn request(name: &str) -> Vec<u8> {
    ClientMessage::AudioRequest(name.to_string()).encode().unwrap()
}

fn chunk(frame: &[u8]) -> Vec<u8> {
    HostMessage::Chunk(frame.to_vec()).encode().unwrap()
}

// ---- format ----

#[test]
fn bytes_per_sample_of_each_format() {
    assert_eq!(SampleFormat::Int16.bytes_per_sample(), 2);
    assert_eq!(SampleFormat::Float32.bytes_per_sample(), 4);
    assert_eq!(FRAME_SAMPLES * FLOAT_SAMPLE_BYTES, FRAME_BYTES);
}

#[test]
fn sample_count_accepts_whole_samples_only() {
    assert_eq!(SampleFormat::Float32.sample_count(7680), Ok(1920));
    assert_eq!(SampleFormat::Int16.sample_count(6), Ok(3));
    assert_eq!(SampleFormat::Float32.sample_count(10), Err(SampleError::InvalidLength(10)));
    assert_eq!(SampleFormat::Float32.sample_count(0), Ok(0));
}

// ---- wire ----

#[test]
fn audio_request_has_exact_bytes() {
    assert_eq!(request("alice"), vec![6, 0, 0, 0, 0, b'a', b'l', b'i', b'c', b'e']);
}

#[test]
fn can_stream_has_exact_bytes() {
    assert_eq!(HostMessage::CanStream(true).encode().unwrap(), vec![2, 0, 0, 0, 0, 1]);
    assert_eq!(HostMessage::CanStream(false).encode().unwrap(), vec![2, 0, 0, 0, 0, 0]);
    assert_eq!(chunk(&[9, 8]), vec![3, 0, 0, 0, 1, 9, 8]);
}

#[test]
fn client_envelope_round_trips_with_trailing_bytes() {
    let mut bytes = request("zoë");
    let len = bytes.len();
    bytes.extend_from_slice(&[1, 2, 3]);
    match decode_client(&bytes) {
        Decoded::Message(ClientMessage::AudioRequest(name), used) => {
            assert_eq!(name, "zoë");
            assert_eq!(used, len);
        }
        _ => panic!("expected a request"),
    }
}

#[test]
fn host_envelopes_round_trip() {
    let bytes = chunk(&[5, 6, 7]);
    match decode_host(&bytes) {
        Decoded::Message(HostMessage::Chunk(f), used) => {
            assert_eq!(f, vec![5, 6, 7]);
            assert_eq!(used, 8);
        }
        _ => panic!("expected a chunk"),
    }
    let bytes = HostMessage::CanStream(false).encode().unwrap();
    assert!(matches!(decode_host(&bytes), Decoded::Message(HostMessage::CanStream(false), 6)));
}

#[test]
fn partial_envelopes_are_incomplete() {
    let bytes = request("alice");
    for cut in 0..bytes.len() {
        assert!(matches!(decode_client(&bytes[..cut]), Decoded::Incomplete));
    }
    assert_eq!(read_framing(&[1, 0]), Framing::Incomplete);
}

#[test]
fn malformed_envelopes_are_rejected() {
    assert!(matches!(decode_client(&[1, 0, 0, 0, 7]), Decoded::Malformed));
    assert!(matches!(decode_client(&[0, 0, 0, 0]), Decoded::Malformed));
    assert!(matches!(decode_client(&[2, 0, 0, 0, 0, 0xff]), Decoded::Malformed));
    assert!(matches!(decode_host(&[2, 0, 0, 0, 0, 2]), Decoded::Malformed));
    assert!(matches!(decode_host(&[1, 0, 0, 0, 9]), Decoded::Malformed));
    let too_long = (MAX_BODY_BYTES as u32 + 1).to_le_bytes();
    assert_eq!(read_framing(&too_long), Framing::TooLong);
    assert!(matches!(decode_host(&too_long), Decoded::Malformed));
}

#[test]
fn oversized_bodies_are_not_encoded() {
    let big = vec![0u8; MAX_BODY_BYTES];
    assert!(HostMessage::Chunk(big).encode().is_none());
    let fits = vec![0u8; MAX_BODY_BYTES - 1];
    assert_eq!(HostMessage::Chunk(fits).encode().unwrap().len(), MAX_BODY_BYTES + 4);
}

// ---- registry ----

#[test]
fn registry_register_and_deregister() {
    let mut r = Registry::new();
    r.register(addr(1, 5000), "alice".to_string());
    r.register(addr(2, 5000), "bob".to_string());
    r.register(addr(1, 5000), "alice2".to_string());
    assert_eq!(r.len(), 2);
    assert_eq!(r.name_of(addr(1, 5000)), Some("alice2".to_string()));
    assert!(r.deregister(addr(1, 5000)));
    assert!(!r.deregister(addr(1, 5000)));
    assert!(!r.contains(addr(1, 5000)));
    let snap = r.snapshot();
    assert_eq!(snap.len(), 1);
    assert_eq!(snap[0].address, addr(2, 5000));
    assert_eq!(snap[0].display_name, "bob");
}

// ---- hub ----

#[test]
fn late_subscriber_sees_only_later_frames() {
    let mut hub = BroadcastHub::new(8);
    let early = hub.subscribe().unwrap();
    hub.publish(&vec![1]);
    hub.publish(&vec![2]);
    let late = hub.subscribe().unwrap();
    hub.publish(&vec![3]);
    assert_eq!(hub.receive(late), Some(vec![3]));
    assert_eq!(hub.receive(late), None);
    assert_eq!(hub.receive(early), Some(vec![1]));
    assert_eq!(hub.receive(early), Some(vec![2]));
    assert_eq!(hub.receive(early), Some(vec![3]));
}

#[test]
fn slow_subscriber_drops_oldest_without_affecting_fast_one() {
    let mut hub = BroadcastHub::new(2);
    let slow = hub.subscribe().unwrap();
    let fast = hub.subscribe().unwrap();
    for f in 1..=5u8 {
        hub.publish(&vec![f]);
        assert_eq!(hub.receive(fast), Some(vec![f]));
    }
    assert_eq!(hub.pending(slow), 2);
    assert_eq!(hub.receive(slow), Some(vec![4]));
    assert_eq!(hub.receive(slow), Some(vec![5]));
    assert_eq!(hub.receive(slow), None);
}

#[test]
fn publishing_without_subscribers_keeps_nothing() {
    let mut hub = BroadcastHub::new(16);
    for f in 0..50u8 {
        hub.publish(&vec![f; 40]);
    }
    assert_eq!(hub.subscriber_count(), 0);
    hub.publish(&vec![50; 40]);
    let id = hub.subscribe().unwrap();
    assert_eq!(hub.pending(id), 0);
    assert_eq!(hub.receive(id), None);
}

#[test]
fn unsubscribe_removes_queue() {
    let mut hub = BroadcastHub::new(4);
    let id = hub.subscribe().unwrap();
    hub.publish(&vec![1]);
    assert!(hub.unsubscribe(id));
    assert!(!hub.unsubscribe(id));
    assert_eq!(hub.receive(id), None);
    assert_eq!(hub.pending(id), 0);
}

// ---- host sessions ----

#[test]
fn handshake_registers_alice() {
    let mut host = Host::new(16);
    let peer = addr(31, 40000);
    let id = host.accept(peer).unwrap();
    assert_eq!(host.listener_count(), 0);
    match host.on_handshake(id, &request("alice")) {
        HandshakeOutcome::Accepted(reply) => {
            assert_eq!(reply, HostMessage::CanStream(true).encode().unwrap());
        }
        _ => panic!("handshake not accepted"),
    }
    let snap = host.snapshot();
    assert_eq!(snap.len(), 1);
    assert_eq!(snap[0].address, peer);
    assert_eq!(snap[0].display_name, "alice");
}

#[test]
fn handshake_in_pieces_waits_for_the_whole_envelope() {
    let mut host = Host::new(4);
    let id = host.accept(addr(2, 1)).unwrap();
    let bytes = request("bob");
    assert!(matches!(host.on_handshake(id, &bytes[..3]), HandshakeOutcome::Pending));
    assert!(matches!(host.on_handshake(id, &bytes[..7]), HandshakeOutcome::Pending));
    assert!(matches!(host.on_handshake(id, &bytes), HandshakeOutcome::Accepted(_)));
    assert!(matches!(host.on_handshake(id, &bytes), HandshakeOutcome::Ignored));
    assert_eq!(host.listener_count(), 1);
}

#[test]
fn malformed_handshake_closes_without_registering() {
    let mut host = Host::new(4);
    let id = host.accept(addr(3, 1)).unwrap();
    assert!(matches!(host.on_handshake(id, &[1, 0, 0, 0, 9]), HandshakeOutcome::Rejected));
    assert_eq!(host.listener_count(), 0);
    assert!(!host.close(id));
}

#[test]
fn handshake_timeout_closes_waiting_session() {
    let mut host = Host::new(4);
    let id = host.accept(addr(4, 1)).unwrap();
    assert!(host.on_handshake_timeout(id));
    assert!(!host.on_handshake_timeout(id));
    assert_eq!(host.listener_count(), 0);
    assert!(matches!(host.on_handshake(id, &request("x")), HandshakeOutcome::Ignored));
}

#[test]
fn closed_session_leaves_the_registry() {
    let mut host = Host::new(4);
    let a = host.accept(addr(5, 1)).unwrap();
    let b = host.accept(addr(6, 1)).unwrap();
    assert!(matches!(host.on_handshake(a, &request("a")), HandshakeOutcome::Accepted(_)));
    assert!(matches!(host.on_handshake(b, &request("b")), HandshakeOutcome::Accepted(_)));
    assert_eq!(host.listener_count(), 2);
    assert!(host.close(a));
    let snap = host.snapshot();
    assert_eq!(snap.len(), 1);
    assert_eq!(snap[0].display_name, "b");
    assert!(!host.on_handshake_timeout(b));
    assert_eq!(host.listener_count(), 1);
}

#[test]
fn same_address_cannot_have_two_sessions() {
    let mut host = Host::new(4);
    let id = host.accept(addr(7, 1)).unwrap();
    assert_eq!(host.accept(addr(7, 1)), Err(AcceptError::AddressInUse));
    assert!(host.close(id));
    assert!(host.accept(addr(7, 1)).is_ok());
}

#[test]
fn streaming_session_gets_chunks_published_after_handshake() {
    let mut host = Host::new(4);
    let id = host.accept(addr(8, 1)).unwrap();
    host.publish(&vec![1, 1]);
    assert_eq!(host.next_chunk(id), None);
    assert!(matches!(host.on_handshake(id, &request("c")), HandshakeOutcome::Accepted(_)));
    assert_eq!(host.next_chunk(id), None);
    host.publish(&vec![2, 2]);
    assert_eq!(host.next_chunk(id), Some(chunk(&[2, 2])));
    assert_eq!(host.next_chunk(id), None);
}

// ---- client sessions ----

fn connected_client() -> ClientSession {
    let mut c = ClientSession::new("alice".to_string()).unwrap();
    assert!(matches!(c.step(ClientInput::Start).command, Command::Connect));
    let r = c.step(ClientInput::ConnectSucceeded);
    assert!(matches!(r.events[0], Event::Connected(_)));
    match r.command {
        Command::Send(bytes) => assert_eq!(bytes, request("alice")),
        _ => panic!("expected the handshake"),
    }
    c
}

#[test]
fn peer_close_disconnects_and_retries_after_backoff() {
    let mut c = connected_client();
    assert_eq!(c.phase(), ClientPhase::Connected);
    let r = c.step(ClientInput::PeerClosed);
    assert_eq!(r.events.len(), 1);
    assert!(matches!(r.events[0], Event::Disconnected));
    assert!(matches!(r.command, Command::Backoff(BACKOFF_MS)));
    assert_eq!(BACKOFF_MS, 1000);
    assert_eq!(c.phase(), ClientPhase::Disconnected);
    assert!(matches!(c.step(ClientInput::BackoffElapsed).command, Command::Connect));
    assert_eq!(c.phase(), ClientPhase::Connecting);
}

#[test]
fn failed_connects_retry_until_host_listens() {
    let mut c = ClientSession::new("bob".to_string()).unwrap();
    assert!(matches!(c.step(ClientInput::Start).command, Command::Connect));
    for _ in 0..3 {
        let r = c.step(ClientInput::ConnectFailed);
        assert!(matches!(r.events[0], Event::Disconnected));
        assert!(matches!(r.command, Command::Backoff(1000)));
        assert!(matches!(c.step(ClientInput::BackoffElapsed).command, Command::Connect));
    }
    let r = c.step(ClientInput::ConnectSucceeded);
    match r.events[0] {
        Event::Connected(conn) => assert_eq!(conn.serial, 1),
        _ => panic!("expected connected"),
    }
    assert_eq!(c.phase(), ClientPhase::Connected);
}

#[test]
fn received_chunks_become_data_events() {
    let mut c = connected_client();
    let mut bytes = HostMessage::CanStream(true).encode().unwrap();
    bytes.extend(chunk(&[1, 2, 3]));
    let second = chunk(&[4]);
    bytes.extend_from_slice(&second[..3]);
    let r = c.step(ClientInput::BytesRead(bytes));
    assert_eq!(r.events.len(), 1);
    match &r.events[0] {
        Event::DataReceived(f) => assert_eq!(f, &vec![1, 2, 3]),
        _ => panic!("expected data"),
    }
    assert!(matches!(r.command, Command::Read));
    let r = c.step(ClientInput::BytesRead(second[3..].to_vec()));
    match &r.events[0] {
        Event::DataReceived(f) => assert_eq!(f, &vec![4]),
        _ => panic!("expected data"),
    }
}

#[test]
fn refused_or_garbled_stream_disconnects() {
    let mut c = connected_client();
    let r = c.step(ClientInput::BytesRead(HostMessage::CanStream(false).encode().unwrap()));
    assert!(matches!(r.events[0], Event::Disconnected));
    assert!(matches!(r.command, Command::Backoff(1000)));
    let mut c = connected_client();
    let r = c.step(ClientInput::BytesRead(vec![1, 0, 0, 0, 7]));
    assert!(matches!(r.events[0], Event::Disconnected));
    assert_eq!(c.phase(), ClientPhase::Disconnected);
}

#[test]
fn stop_request_ends_retries() {
    let mut c = connected_client();
    let r = c.step(ClientInput::StopRequested);
    assert!(matches!(r.events[0], Event::Disconnected));
    assert!(matches!(r.command, Command::Close));
    assert!(matches!(c.step(ClientInput::BackoffElapsed).command, Command::Idle));
    assert_eq!(c.phase(), ClientPhase::Disconnected);
    assert!(matches!(c.step(ClientInput::WouldBlock).command, Command::Idle));
}

// ---- capture ----

#[test]
fn accumulator_cuts_whole_frames() {
    let mut acc = FrameAccumulator::new();
    acc.push(&vec![7u8; FRAME_BYTES - 1]);
    assert_eq!(acc.pop_frame(), None);
    acc.push(&[8, 9]);
    let frame = acc.pop_frame().unwrap();
    assert_eq!(frame.len(), 7680);
    assert_eq!(frame[FRAME_BYTES - 1], 8);
    assert_eq!(acc.pending(), 1);
}

#[test]
fn capture_engine_emits_frames_in_order() {
    let mut eng = CaptureEngine::new();
    let mut bytes = vec![1u8; FRAME_BYTES];
    bytes.extend(vec![2u8; FRAME_BYTES]);
    bytes.extend(vec![3u8; 100]);
    let frames = eng.on_device_ready(&bytes);
    assert_eq!(frames.len(), 2);
    assert!(frames[0].iter().all(|b| *b == 1));
    assert!(frames[1].iter().all(|b| *b == 2));
    let frames = eng.on_device_ready(&vec![4u8; FRAME_BYTES - 100]);
    assert_eq!(frames.len(), 1);
    assert_eq!(frames[0][0], 3);
    assert_eq!(frames[0][100], 4);
}

#[test]
fn encoder_failure_drops_frame_and_timeout_stops() {
    let mut eng = CaptureEngine::new();
    assert_eq!(eng.on_encoded(Ok(vec![1, 2])), Some(vec![1, 2]));
    assert_eq!(eng.on_encoded(Err(CodecError::BufferTooSmall)), None);
    assert!(eng.is_running());
    eng.on_wait_timeout();
    assert!(!eng.is_running());
    assert_eq!(eng.on_device_ready(&vec![0u8; FRAME_BYTES]).len(), 0);
}

// ---- playback ----

#[test]
fn decoded_frames_always_hold_1920_samples() {
    let short = fit_frame(&[1, 2, 3]);
    assert_eq!(short.len(), FRAME_SAMPLES * 4);
    assert_eq!(&short[..4], &[1, 2, 3, 0]);
    let long = fit_frame(&vec![5u8; FRAME_BYTES + 10]);
    assert_eq!(long, vec![5u8; FRAME_BYTES]);
}

#[test]
fn corrupt_frame_is_skipped_and_playback_resumes() {
    let mut sink = PlaybackSink::new(4);
    sink.on_connected();
    assert!(sink.decoder_live());
    assert!(!sink.on_decoded(Err(CodecError::InvalidPacket)));
    assert_eq!(sink.fill(8), vec![0u8; 8]);
    assert!(sink.on_decoded(Ok(vec![9u8; FRAME_BYTES])));
    assert_eq!(sink.fill(4), vec![9u8; 4]);
}

#[test]
fn playback_buffer_is_bounded_and_fills_silence() {
    let mut sink = PlaybackSink::new(1);
    sink.on_connected();
    assert!(sink.on_decoded(Ok(vec![1u8; FRAME_BYTES])));
    assert!(sink.on_decoded(Ok(vec![2u8; FRAME_BYTES])));
    let out = sink.fill(FRAME_BYTES + 2);
    assert!(out[..FRAME_BYTES].iter().all(|b| *b == 2));
    assert_eq!(&out[FRAME_BYTES..], &[0, 0]);
}

#[test]
fn disconnect_drops_decoder_and_flushes() {
    let mut sink = PlaybackSink::new(2);
    assert!(!sink.on_decoded(Ok(vec![1u8; 16])));
    sink.on_connected();
    assert!(sink.on_decoded(Ok(vec![1u8; 16])));
    sink.on_disconnected();
    assert!(!sink.decoder_live());
    assert_eq!(sink.fill(4), vec![0u8; 4]);
}

// ---- settings ----

#[test]
fn default_settings() {
    let s = Settings::default();
    assert_eq!(s.fade_in_duration, 1000);
    assert_eq!(s.fade_out_duration, 1000);
    assert_eq!(s.mode, Mode::Host);
    let _ = Entry::new();
}

// ---- status lines ----

#[test]
fn status_lines() {
    assert!(Message::new("").is_none());
    assert_eq!(Message::new("hi").unwrap().as_str(), "hi");
    assert_eq!(Message::connected().as_str(), "Connected successfully!");
    assert_eq!(Message::disconnected().as_str(), "Connection lost... Retrying...");
    assert_eq!(Message::Data("ab".as_bytes().to_vec()).as_str(), "ab");
}

#[test]
fn closed_and_unknown_sessions_read_as_closed() {
    let mut host = Host::new(2);
    let id = host.accept(addr(9, 9)).unwrap();
    assert_eq!(host.phase_of(id), Phase::AwaitingHandshake);
    assert!(matches!(host.on_handshake(id, &request("d")), HandshakeOutcome::Accepted(_)));
    assert_eq!(host.phase_of(id), Phase::Streaming);
    assert!(host.close(id));
    assert_eq!(host.phase_of(id), Phase::Closed);
    assert_eq!(host.phase_of(12345), Phase::Closed);
}
