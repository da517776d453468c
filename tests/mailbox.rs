use shared_mailbox::frame::{Command, DecodeError, EncodeError};
use shared_mailbox::mailbox::{
    take_turn, Claim, FlagState, MailboxEndpoint, PollOutcome, Received, Sent, Side,
};

const CAPACITY: usize = 4096;

fn region_with(flag: u8, payload: &[u8]) -> Vec<u8> {
    let mut region = vec![0u8; CAPACITY];
    region[0] = flag;
    region[1..1 + payload.len()].copy_from_slice(payload);
    region
}

fn compile(u: &str, t: &str, w: &str, f: &str) -> Command {
    Command::Compile {
        uniform_types: u.to_string(),
        texture_descs: t.to_string(),
        world_offset_expr: w.to_string(),
        frag_color_expr: f.to_string(),
    }
}

#[test]
fn raw_compile_bytes_dispatch_and_clear_flag() {
    let mut raw = vec![1u8];
    raw.extend_from_slice(b"compile##DELIM##U##DELIM##T##DELIM##X##DELIM##Y");
    let mut region = vec![0u8; CAPACITY];
    region[..raw.len()].copy_from_slice(&raw);
    let engine = MailboxEndpoint::new(Side::Engine);
    let outcome = engine.poll(&mut region, None);
    assert_eq!(
        outcome,
        PollOutcome::Handled {
            received: Received::Command(compile("U", "T", "X", "Y")),
            sent: Sent::Nothing,
        }
    );
    assert_eq!(region[0], 0);
    assert!(region[1..].iter().all(|b| *b == 0));
}

#[test]
fn compile_frame_dispatches_once_and_keeps_only_reply() {
    let frame = "compile##DELIM##U1=1##DELIM##T1=\"a\"##DELIM##x##DELIM##y";
    let mut region = region_with(1, frame.as_bytes());
    let engine = MailboxEndpoint::new(Side::Engine);
    let reply = Command::LoadTexture { path: "done.png".to_string() };
    let outcome = engine.poll(&mut region, Some(&reply));
    assert_eq!(
        outcome,
        PollOutcome::Handled {
            received: Received::Command(compile("U1=1", "T1=\"a\"", "x", "y")),
            sent: Sent::Written,
        }
    );
    assert_eq!(engine.flag_state(region[0]), FlagState::Idle);
    let expected = b"load_texture##DELIM##done.png";
    assert_eq!(&region[1..1 + expected.len()], &expected[..]);
    assert!(region[1 + expected.len()..].iter().all(|b| *b == 0));
}

#[test]
fn idle_flag_leaves_region_untouched() {
    let frame = b"load_texture##DELIM##a.png";
    let mut region = region_with(0, frame);
    let before = region.clone();
    let engine = MailboxEndpoint::new(Side::Engine);
    let reply = Command::Unknown("ping".to_string());
    assert_eq!(engine.poll(&mut region, Some(&reply)), PollOutcome::NotMyTurn);
    assert_eq!(region, before);

    let mut region = region_with(1, frame);
    let before = region.clone();
    let editor = MailboxEndpoint::new(Side::Editor);
    assert_eq!(editor.poll(&mut region, None), PollOutcome::NotMyTurn);
    assert_eq!(region, before);
}

#[test]
fn invalid_utf8_is_discarded_and_flag_flips() {
    let mut region = region_with(1, &[b'c', 0xff, 0xfe, b'x']);
    let engine = MailboxEndpoint::new(Side::Engine);
    let outcome = engine.poll(&mut region, None);
    assert_eq!(
        outcome,
        PollOutcome::Handled {
            received: Received::Rejected(DecodeError::InvalidEncoding),
            sent: Sent::Nothing,
        }
    );
    assert_eq!(region[0], 0);
    assert!(region[1..].iter().all(|b| *b == 0));
}

#[test]
fn invalid_utf8_after_the_nul_is_still_rejected() {
    let mut payload = b"compile".to_vec();
    payload.push(0);
    payload.push(0xc3);
    let mut region = region_with(1, &payload);
    let engine = MailboxEndpoint::new(Side::Engine);
    assert_eq!(
        engine.poll(&mut region, None),
        PollOutcome::Handled {
            received: Received::Rejected(DecodeError::InvalidEncoding),
            sent: Sent::Nothing,
        }
    );
}

#[test]
fn load_texture_without_path_is_ignored() {
    let mut region = region_with(1, b"load_texture");
    let engine = MailboxEndpoint::new(Side::Engine);
    let outcome = engine.poll(&mut region, None);
    assert_eq!(
        outcome,
        PollOutcome::Handled {
            received: Received::Rejected(DecodeError::MissingField),
            sent: Sent::Nothing,
        }
    );
    assert_eq!(region[0], 0);
    assert!(region[1..].iter().all(|b| *b == 0));
}

#[test]
fn second_poll_without_peer_reports_nothing() {
    let mut region = region_with(1, b"load_texture##DELIM##a.png");
    let engine = MailboxEndpoint::new(Side::Engine);
    let first = engine.poll(&mut region, None);
    assert_eq!(
        first,
        PollOutcome::Handled {
            received: Received::Command(Command::LoadTexture { path: "a.png".to_string() }),
            sent: Sent::Nothing,
        }
    );
    let after_first = region.clone();
    assert_eq!(engine.poll(&mut region, None), PollOutcome::NotMyTurn);
    assert_eq!(region, after_first);
}

#[test]
fn editor_and_engine_take_turns() {
    let mut region = vec![0u8; CAPACITY];
    let engine = MailboxEndpoint::new(Side::Engine);
    let editor = MailboxEndpoint::new(Side::Editor);
    let cmd = Command::UpdateUniform { name: "tint".to_string(), value: "1,0.5,0.25,1".to_string() };
    assert_eq!(engine.poll(&mut region, None), PollOutcome::NotMyTurn);
    assert_eq!(
        editor.poll(&mut region, Some(&cmd)),
        PollOutcome::Handled { received: Received::Nothing, sent: Sent::Written }
    );
    assert_eq!(region[0], 1);
    assert_eq!(editor.poll(&mut region, None), PollOutcome::NotMyTurn);
    assert_eq!(
        engine.poll(&mut region, None),
        PollOutcome::Handled { received: Received::Command(cmd), sent: Sent::Nothing }
    );
    assert_eq!(region[0], 0);
}

#[test]
fn empty_payload_reports_nothing_and_flips() {
    let mut region = vec![0u8; 16];
    let editor = MailboxEndpoint::new(Side::Editor);
    assert_eq!(
        editor.poll(&mut region, None),
        PollOutcome::Handled { received: Received::Nothing, sent: Sent::Nothing }
    );
    assert_eq!(region[0], 1);
}

#[test]
fn too_large_reply_is_dropped() {
    let mut region = vec![1u8, b'x', b'y', 0, 0, 0, 0, 0];
    let engine = MailboxEndpoint::new(Side::Engine);
    let reply = Command::LoadTexture { path: "p".to_string() };
    assert_eq!(
        engine.poll(&mut region, Some(&reply)),
        PollOutcome::Handled {
            received: Received::Command(Command::Unknown("xy".to_string())),
            sent: Sent::Dropped(EncodeError::TooLarge),
        }
    );
    assert_eq!(region, vec![0u8; 8]);
}

#[test]
fn take_turn_clears_and_writes() {
    let mut payload = b"compile##DELIM##a".to_vec();
    payload.resize(40, 0);
    let reply = Command::Unknown("ack".to_string());
    let (received, sent) = take_turn(&mut payload, Some(&reply));
    assert_eq!(received, Received::Rejected(DecodeError::MissingField));
    assert_eq!(sent, Sent::Written);
    assert_eq!(&payload[..3], b"ack");
    assert!(payload[3..].iter().all(|b| *b == 0));
    assert_eq!(payload.len(), 40);
}

#[test]
fn claim_is_three_way() {
    let engine = MailboxEndpoint::new(Side::Engine);
    let editor = MailboxEndpoint::new(Side::Editor);
    assert_eq!(engine.try_claim(false, 1), Claim::Busy);
    assert_eq!(engine.try_claim(true, 1), Claim::Claimed);
    assert_eq!(engine.try_claim(true, 0), Claim::NotMyTurn);
    assert_eq!(editor.try_claim(true, 0), Claim::Claimed);
    assert_eq!(editor.try_claim(true, 1), Claim::NotMyTurn);
    assert_eq!(editor.try_claim(false, 0), Claim::Busy);
    assert_eq!(engine.release_value(), 0);
    assert_eq!(editor.release_value(), 1);
    assert_eq!(engine.flag_state(7), FlagState::ReadyToConsume);
    assert_eq!(editor.flag_state(7), FlagState::Idle);
}
