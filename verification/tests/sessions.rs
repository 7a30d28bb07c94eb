use file_backup_service::error::SessionError;
use file_backup_service::frame::{encode_frame, FrameReader};
use file_backup_service::request::format_request;
use file_backup_service::session::{
    Action, Event, InitiatorSession, InitiatorState, Outcome, ResponderSession, ResponderState,
};
use file_backup_service::transfer::split_into_chunks;

#[test]
fn initiator_happy_path() {
    let mut s = InitiatorSession::new(b"backup.tar.gz".to_vec());
    let a = s.step(Event::Start);
    match a {
        Action::WriteMessage(m) => assert_eq!(m, b"filename:backup.tar.gz:filename".to_vec()),
        _ => panic!("expected a message write"),
    }
    assert!(matches!(s.step(Event::Sent), Action::ReadMessage));
    assert!(matches!(s.step(Event::Received(b"OK".to_vec())), Action::SendArchive));
    assert!(matches!(s.step(Event::Streamed), Action::Shutdown));
    assert!(matches!(s.current_state(), InitiatorState::Closed(Outcome::Success)));
    // the session is over: no further action, no second shutdown
    assert!(matches!(s.step(Event::Sent), Action::Nothing));
    assert!(matches!(s.step(Event::Failed(SessionError::Transport)), Action::Nothing));
}

#[test]
fn acknowledgement_gate_blocks_the_transfer() {
    let mut s = InitiatorSession::new(b"backup.tar.gz".to_vec());
    s.step(Event::Start);
    s.step(Event::Sent);
    // anything other than the exact text `OK` is a rejection
    let a = s.step(Event::Received(b"server sent a bad response".to_vec()));
    assert!(matches!(a, Action::Shutdown), "abort without transferring");
    assert!(matches!(
        s.current_state(),
        InitiatorState::Closed(Outcome::Failure(SessionError::Protocol))
    ));
    // once rejected, nothing is ever streamed
    assert!(matches!(s.step(Event::Streamed), Action::Nothing));
}

#[test]
fn lowercase_ok_is_still_a_rejection() {
    let mut s = InitiatorSession::new(b"a".to_vec());
    s.step(Event::Start);
    s.step(Event::Sent);
    let a = s.step(Event::Received(b"ok".to_vec()));
    assert!(matches!(a, Action::Shutdown));
}

#[test]
fn transport_failure_closes_with_one_shutdown() {
    let mut s = InitiatorSession::new(b"backup.tar.gz".to_vec());
    s.step(Event::Start);
    s.step(Event::Sent);
    s.step(Event::Received(b"OK".to_vec()));
    let a = s.step(Event::Failed(SessionError::Transport));
    assert!(matches!(a, Action::Shutdown));
    assert!(matches!(
        s.current_state(),
        InitiatorState::Closed(Outcome::Failure(SessionError::Transport))
    ));
    assert!(matches!(s.step(Event::Streamed), Action::Nothing));
}

#[test]
fn unexpected_event_is_a_protocol_violation() {
    let mut s = InitiatorSession::new(b"backup.tar.gz".to_vec());
    let a = s.step(Event::Streamed);
    assert!(matches!(a, Action::Shutdown));
    assert!(matches!(
        s.current_state(),
        InitiatorState::Closed(Outcome::Failure(SessionError::Protocol))
    ));
}

#[test]
fn responder_happy_path() {
    let mut s = ResponderSession::new();
    let a = s.step(Event::Received(b"filename:report.tar.gz:filename".to_vec()));
    match a {
        Action::WriteMessage(m) => assert_eq!(m, b"OK".to_vec()),
        _ => panic!("expected the acknowledgement write"),
    }
    assert_eq!(s.requested_name(), &b"report.tar.gz".to_vec());
    assert!(matches!(s.step(Event::Sent), Action::ReceiveArchive));
    assert!(matches!(s.step(Event::Streamed), Action::Shutdown));
    assert!(matches!(s.current_state(), ResponderState::Closed(Outcome::Success)));
    assert!(matches!(s.step(Event::Sent), Action::Nothing));
}

#[test]
fn responder_rejects_a_malformed_request() {
    let mut s = ResponderSession::new();
    let a = s.step(Event::Received(b"hello there".to_vec()));
    assert!(matches!(a, Action::Shutdown));
    assert!(matches!(
        s.current_state(),
        ResponderState::Closed(Outcome::Failure(SessionError::Protocol))
    ));
}

// One whole session run over an in-memory loopback transport: two byte
// pipes, a frame reader on each receiving side, and the two state
// machines driving every move. `step` advances one protocol phase so two
// runs can be interleaved.
struct PairRun {
    init: InitiatorSession,
    resp: ResponderSession,
    to_responder: Vec<u8>,
    to_initiator: Vec<u8>,
    resp_reader: FrameReader,
    init_reader: FrameReader,
    archive: Vec<u8>,
    sink: Vec<u8>,
    shutdowns: u32,
    phase: u32,
}

impl PairRun {
    fn new(name: &[u8], archive: &[u8]) -> PairRun {
        PairRun {
            init: InitiatorSession::new(name.to_vec()),
            resp: ResponderSession::new(),
            to_responder: Vec::new(),
            to_initiator: Vec::new(),
            resp_reader: FrameReader::new(),
            init_reader: FrameReader::new(),
            archive: archive.to_vec(),
            sink: Vec::new(),
            shutdowns: 0,
            phase: 0,
        }
    }

    fn note(&mut self, a: &Action) {
        if matches!(a, Action::Shutdown) {
            self.shutdowns += 1;
        }
    }

    // Advance one phase; false once both sides are closed.
    fn step(&mut self) -> bool {
        match self.phase {
            0 => {
                let a = self.init.step(Event::Start);
                match a {
                    Action::WriteMessage(m) => self.to_responder.extend_from_slice(&encode_frame(&m)),
                    _ => panic!("expected the request write"),
                }
                let a = self.init.step(Event::Sent);
                self.note(&a);
                assert!(matches!(a, Action::ReadMessage));
            }
            1 => {
                // the responder's bytes arrive in small fragments
                let bytes = std::mem::take(&mut self.to_responder);
                for chunk in bytes.chunks(3) {
                    self.resp_reader.feed(chunk);
                }
                let payload = self.resp_reader.try_next().expect("the whole request arrived");
                let a = self.resp.step(Event::Received(payload));
                match a {
                    Action::WriteMessage(m) => self.to_initiator.extend_from_slice(&encode_frame(&m)),
                    _ => panic!("expected the acknowledgement write"),
                }
                let a = self.resp.step(Event::Sent);
                self.note(&a);
                assert!(matches!(a, Action::ReceiveArchive));
            }
            2 => {
                let bytes = std::mem::take(&mut self.to_initiator);
                self.init_reader.feed(&bytes);
                let payload = self.init_reader.try_next().expect("the whole reply arrived");
                let a = self.init.step(Event::Received(payload));
                self.note(&a);
                assert!(matches!(a, Action::SendArchive));
            }
            3 => {
                // stream the archive in bounded chunks, then close
                let chunks = split_into_chunks(&self.archive, 4);
                for c in &chunks {
                    self.to_responder.extend_from_slice(c);
                }
                let a = self.init.step(Event::Streamed);
                self.note(&a);
                assert!(matches!(a, Action::Shutdown));
            }
            4 => {
                // the peer closed: everything left on the pipe is archive
                let bytes = std::mem::take(&mut self.to_responder);
                self.sink.extend_from_slice(&bytes);
                let a = self.resp.step(Event::Streamed);
                self.note(&a);
                assert!(matches!(a, Action::Shutdown));
            }
            _ => return false,
        }
        self.phase += 1;
        true
    }
}

#[test]
fn end_to_end_session_over_loopback() {
    let archive: Vec<u8> = (0u32..100).map(|i| (i % 256) as u8).collect();
    let mut run = PairRun::new(b"nightly.tar.gz", &archive);
    while run.step() {}
    assert_eq!(run.sink, archive);
    assert_eq!(run.resp.requested_name(), &b"nightly.tar.gz".to_vec());
    assert!(matches!(run.init.current_state(), InitiatorState::Closed(Outcome::Success)));
    assert!(matches!(run.resp.current_state(), ResponderState::Closed(Outcome::Success)));
    // one shutdown per connection end: exactly once each
    assert_eq!(run.shutdowns, 2);
}

#[test]
fn concurrent_sessions_stay_separate() {
    let archive_a: Vec<u8> = (0u32..64).map(|i| (i % 256) as u8).collect();
    let archive_b: Vec<u8> = (0u32..77).map(|i| (200 - i % 150) as u8).collect();
    let mut a = PairRun::new(b"alpha.tar.gz", &archive_a);
    let mut b = PairRun::new(b"beta.tar.gz", &archive_b);
    // two sessions advance in lockstep; each owns its connection, so
    // neither sees the other's messages or archive bytes
    loop {
        let more_a = a.step();
        let more_b = b.step();
        if !more_a && !more_b {
            break;
        }
    }
    assert_eq!(a.sink, archive_a);
    assert_eq!(b.sink, archive_b);
    assert_eq!(a.resp.requested_name(), &b"alpha.tar.gz".to_vec());
    assert_eq!(b.resp.requested_name(), &b"beta.tar.gz".to_vec());
    assert_eq!(a.shutdowns, 2);
    assert_eq!(b.shutdowns, 2);
}
