//! The per-tick turn of one side of the mailbox: check the ownership flag,
//! take the waiting message, clear the payload, write a reply and hand the
//! turn to the peer.
use vstd::prelude::*;
use vstd::utf8::*;

use crate::frame::{
    decode, decode_spec, encode, encode_spec, lemma_encode_len, lemma_load_texture_without_path,
    load_texture_name, zeros, Command, CommandView, DecodeError, EncodeError,
};
use crate::text::{find_nul, is_utf8, nul_end};

verus! {

/// Which of the two processes an endpoint serves.
#[derive(Clone, Copy, Debug, PartialEq, Eq)]
pub enum Side {
    /// The running simulation: its turn is signalled by a nonzero flag byte.
    Engine,
    /// The authoring front-end: its turn is signalled by a zero flag byte.
    Editor,
}

/// The ownership flag as one side reads it.
#[derive(Clone, Copy, Debug, PartialEq, Eq)]
pub enum FlagState {
    /// The turn is this side's: a message may be waiting for it.
    ReadyToConsume,
    /// The turn is the peer's: the payload is not this side's to touch.
    Idle,
}

/// The result of trying to start a turn.
#[derive(Clone, Copy, Debug, PartialEq, Eq)]
pub enum Claim {
    /// The local handle is held and the turn is this side's.
    Claimed,
    /// The local handle is free but the turn is the peer's.
    NotMyTurn,
    /// Another local caller holds the handle to the region.
    Busy,
}

/// What a turn found in the payload.
#[derive(Clone, Debug, PartialEq, Eq)]
pub enum Received {
    /// The payload was empty.
    Nothing,
    /// A command arrived.
    Command(Command),
    /// The payload could not be decoded; it was discarded.
    Rejected(DecodeError),
}

/// What a turn found, with the command as its texts.
pub enum ReceivedView {
    Nothing,
    Command(CommandView),
    Rejected(DecodeError),
}

impl View for Received {
    type V = ReceivedView;

    open spec fn view(&self) -> ReceivedView {
        match self {
            Received::Nothing => ReceivedView::Nothing,
            Received::Command(c) => ReceivedView::Command(c@),
            Received::Rejected(e) => ReceivedView::Rejected(*e),
        }
    }
}

/// What a turn did with the outgoing command.
#[derive(Clone, Copy, Debug, PartialEq, Eq)]
pub enum Sent {
    /// There was no outgoing command.
    Nothing,
    /// The outgoing command was written into the payload.
    Written,
    /// The outgoing command could not be written and was dropped.
    Dropped(EncodeError),
}

/// The result of one poll.
#[derive(Clone, Debug, PartialEq, Eq)]
pub enum PollOutcome {
    /// The turn was the peer's; nothing was read or written.
    NotMyTurn,
    /// The turn was taken and handed to the peer.
    Handled { received: Received, sent: Sent },
}

/// The result of one poll, with any command as its texts.
pub enum PollOutcomeView {
    NotMyTurn,
    Handled { received: ReceivedView, sent: Sent },
}

impl View for PollOutcome {
    type V = PollOutcomeView;

    open spec fn view(&self) -> PollOutcomeView {
        match self {
            PollOutcome::NotMyTurn => PollOutcomeView::NotMyTurn,
            PollOutcome::Handled { received, sent } => PollOutcomeView::Handled {
                received: received@,
                sent: *sent,
            },
        }
    }
}

/// How `side` reads the flag byte `flag`.
pub open spec fn flag_state_spec(side: Side, flag: u8) -> FlagState {
    let mine = match side {
        Side::Engine => flag != 0,
        Side::Editor => flag == 0,
    };
    if mine {
        FlagState::ReadyToConsume
    } else {
        FlagState::Idle
    }
}

/// The flag byte with which `side` hands the turn to its peer.
pub open spec fn release_value_spec(side: Side) -> u8 {
    match side {
        Side::Engine => 0,
        Side::Editor => 1,
    }
}

/// What a turn makes of the payload it finds.
pub open spec fn receive_spec(payload: Seq<u8>) -> ReceivedView {
    if valid_utf8(payload) && nul_end(payload) == 0 {
        ReceivedView::Nothing
    } else {
        match decode_spec(payload) {
            Ok(c) => ReceivedView::Command(c),
            Err(e) => ReceivedView::Rejected(e),
        }
    }
}

/// The payload a turn leaves behind: the outgoing command's frame and padding
/// if it fits, zeros otherwise.
pub open spec fn reply_spec(outgoing: Option<CommandView>, len: nat) -> Seq<u8> {
    match outgoing {
        Some(c) => match encode_spec(c, len) {
            Ok(p) => p,
            Err(_) => zeros(len),
        },
        None => zeros(len),
    }
}

/// What a turn reports about the outgoing command.
pub open spec fn sent_spec(outgoing: Option<CommandView>, len: nat) -> Sent {
    match outgoing {
        Some(c) => match encode_spec(c, len) {
            Ok(_) => Sent::Written,
            Err(e) => Sent::Dropped(e),
        },
        None => Sent::Nothing,
    }
}

/// The outgoing command, as texts.
pub open spec fn outgoing_view(outgoing: Option<&Command>) -> Option<CommandView> {
    match outgoing {
        Some(c) => Some(c@),
        None => None,
    }
}

/// The region after `side` polls it: untouched on the peer's turn; otherwise the
/// flag handed over and the payload replaced by the reply.
pub open spec fn poll_region(side: Side, region: Seq<u8>, outgoing: Option<CommandView>) -> Seq<u8> {
    if flag_state_spec(side, region[0]) == FlagState::Idle {
        region
    } else {
        seq![release_value_spec(side)] + reply_spec(outgoing, (region.len() - 1) as nat)
    }
}

/// What `side` reports after polling the region.
pub open spec fn poll_outcome(
    side: Side,
    region: Seq<u8>,
    outgoing: Option<CommandView>,
) -> PollOutcomeView {
    if flag_state_spec(side, region[0]) == FlagState::Idle {
        PollOutcomeView::NotMyTurn
    } else {
        PollOutcomeView::Handled {
            received: receive_spec(region.subrange(1, region.len() as int)),
            sent: sent_spec(outgoing, (region.len() - 1) as nat),
        }
    }
}

/// One side's endpoint of the mailbox.
#[derive(Clone, Copy, Debug, PartialEq, Eq)]
pub struct MailboxEndpoint {
    pub side: Side,
}

impl MailboxEndpoint {
    /// An endpoint serving `side`.
    pub fn new(side: Side) -> (r: MailboxEndpoint)
        ensures
            r.side == side,
    {
        MailboxEndpoint { side }
    }

    /// How this side reads the flag byte.
    pub fn flag_state(&self, flag: u8) -> (r: FlagState)
        ensures
            r == flag_state_spec(self.side, flag),
    {
        let mine = match self.side {
            Side::Engine => flag != 0,
            Side::Editor => flag == 0,
        };
        if mine {
            FlagState::ReadyToConsume
        } else {
            FlagState::Idle
        }
    }

    /// The flag byte with which this side hands the turn to its peer.
    pub fn release_value(&self) -> (r: u8)
        ensures
            r == release_value_spec(self.side),
    {
        match self.side {
            Side::Engine => 0,
            Side::Editor => 1,
        }
    }

    /// Decides whether a turn can start, given whether the local handle to the
    /// region could be taken and the flag byte then read.
    pub fn try_claim(&self, handle_taken: bool, flag: u8) -> (r: Claim)
        ensures
            !handle_taken ==> r == Claim::Busy,
            handle_taken && flag_state_spec(self.side, flag) == FlagState::ReadyToConsume ==> r
                == Claim::Claimed,
            handle_taken && flag_state_spec(self.side, flag) == FlagState::Idle ==> r
                == Claim::NotMyTurn,
    {
        if !handle_taken {
            Claim::Busy
        } else {
            match self.flag_state(flag) {
                FlagState::ReadyToConsume => Claim::Claimed,
                FlagState::Idle => Claim::NotMyTurn,
            }
        }
    }
}

/// Takes the message waiting in `payload`, clears it, and writes the outgoing
/// command in its place when it fits. The caller holds the turn and hands it
/// over afterwards.
pub fn take_turn(payload: &mut [u8], outgoing: Option<&Command>) -> (r: (Received, Sent))
    ensures
        r.0@ == receive_spec(old(payload)@),
        r.1 == sent_spec(outgoing_view(outgoing), old(payload)@.len()),
        final(payload)@ == reply_spec(outgoing_view(outgoing), old(payload)@.len()),
{
    let len = payload.len();
    let received = if is_utf8(payload) && find_nul(payload) == 0 {
        Received::Nothing
    } else {
        match decode(payload) {
            Ok(c) => Received::Command(c),
            Err(e) => Received::Rejected(e),
        }
    };
    let mut i: usize = 0;
    while i < len
        invariant
            len == payload@.len(),
            i <= len,
            forall|j: int| 0 <= j < i ==> payload@[j] == 0u8,
        decreases len - i,
    {
        payload[i] = 0u8;
        i = i + 1;
    }
    assert(payload@ =~= zeros(len as nat));
    let sent = match outgoing {
        None => Sent::Nothing,
        Some(c) => match encode(c, len) {
            Ok(bytes) => {
                let mut k: usize = 0;
                while k < len
                    invariant
                        len == payload@.len(),
                        bytes@.len() == len,
                        k <= len,
                        forall|j: int| 0 <= j < k ==> payload@[j] == bytes@[j],
                    decreases len - k,
                {
                    payload[k] = bytes[k];
                    k = k + 1;
                }
                assert(payload@ =~= bytes@);
                Sent::Written
            },
            Err(e) => Sent::Dropped(e),
        },
    };
    (received, sent)
}

impl MailboxEndpoint {
    /// One poll of a region whose byte 0 is the ownership flag and whose other
    /// bytes are the payload. On the peer's turn nothing is touched; on this
    /// side's turn the waiting message is taken, the payload cleared, the
    /// outgoing command written, and the turn handed to the peer.
    pub fn poll(&self, region: &mut [u8], outgoing: Option<&Command>) -> (r: PollOutcome)
        requires
            old(region)@.len() >= 1,
        ensures
            final(region)@ == poll_region(self.side, old(region)@, outgoing_view(outgoing)),
            r@ == poll_outcome(self.side, old(region)@, outgoing_view(outgoing)),
            flag_state_spec(self.side, old(region)@[0]) == FlagState::Idle ==> final(region)@ == old(
                region,
            )@ && r@ == PollOutcomeView::NotMyTurn,
    {
        let flag = region[0];
        match self.flag_state(flag) {
            FlagState::Idle => PollOutcome::NotMyTurn,
            FlagState::ReadyToConsume => {
                let ghost before = region@;
                let (head, payload) = region.split_at_mut(1);
                let (received, sent) = take_turn(payload, outgoing);
                head[0] = self.release_value();
                assert(region@ =~= seq![release_value_spec(self.side)] + reply_spec(
                    outgoing_view(outgoing),
                    (before.len() - 1) as nat,
                ));
                PollOutcome::Handled { received, sent }
            },
        }
    }
}

/// The reply fills the payload area exactly.
proof fn lemma_reply_len(outgoing: Option<CommandView>, len: nat)
    ensures
        reply_spec(outgoing, len).len() == len,
{
    if let Some(c) = outgoing {
        lemma_encode_len(c, len);
    }
}

/// A poll on the peer's turn leaves the region as it was and reports no message.
pub proof fn lemma_idle_poll_untouched(side: Side, region: Seq<u8>, outgoing: Option<CommandView>)
    requires
        region.len() >= 1,
        flag_state_spec(side, region[0]) == FlagState::Idle,
    ensures
        poll_region(side, region, outgoing) == region,
        poll_outcome(side, region, outgoing) == PollOutcomeView::NotMyTurn,
{
}

/// Whatever a poll finds, afterwards the turn is the peer's: polling again
/// before the peer flips the flag reports no message and changes nothing, so
/// no message is delivered twice.
pub proof fn lemma_no_second_delivery(
    side: Side,
    region: Seq<u8>,
    first: Option<CommandView>,
    second: Option<CommandView>,
)
    requires
        region.len() >= 1,
    ensures
        poll_region(side, region, first).len() == region.len(),
        flag_state_spec(side, poll_region(side, region, first)[0]) == FlagState::Idle,
        poll_outcome(side, poll_region(side, region, first), second) == PollOutcomeView::NotMyTurn,
        poll_region(side, poll_region(side, region, first), second) == poll_region(
            side,
            region,
            first,
        ),
{
    lemma_reply_len(first, (region.len() - 1) as nat);
}

/// A payload that is not valid UTF-8 is rejected and cleared, the outgoing
/// command still goes out, and the turn passes to the peer.
pub proof fn lemma_invalid_payload_discarded(
    side: Side,
    region: Seq<u8>,
    outgoing: Option<CommandView>,
)
    requires
        region.len() >= 1,
        flag_state_spec(side, region[0]) == FlagState::ReadyToConsume,
        !valid_utf8(region.subrange(1, region.len() as int)),
    ensures
        poll_outcome(side, region, outgoing) == (PollOutcomeView::Handled {
            received: ReceivedView::Rejected(DecodeError::InvalidEncoding),
            sent: sent_spec(outgoing, (region.len() - 1) as nat),
        }),
        poll_region(side, region, outgoing) == seq![release_value_spec(side)] + reply_spec(
            outgoing,
            (region.len() - 1) as nat,
        ),
        outgoing is None ==> poll_region(side, region, outgoing) == seq![release_value_spec(side)]
            + zeros((region.len() - 1) as nat),
        flag_state_spec(side, poll_region(side, region, outgoing)[0]) == FlagState::Idle,
{
}

/// A `load_texture` frame without its path delivers no command, and the turn
/// still passes to the peer.
pub proof fn lemma_load_texture_without_path_ignored(
    side: Side,
    region: Seq<u8>,
    outgoing: Option<CommandView>,
)
    requires
        region.len() >= 1,
        flag_state_spec(side, region[0]) == FlagState::ReadyToConsume,
        region.len() - 1 >= encode_utf8(load_texture_name()).len(),
        region.subrange(1, region.len() as int) == encode_utf8(load_texture_name()) + zeros(
            (region.len() - 1 - encode_utf8(load_texture_name()).len()) as nat,
        ),
    ensures
        poll_outcome(side, region, outgoing) == (PollOutcomeView::Handled {
            received: ReceivedView::Rejected(DecodeError::MissingField),
            sent: sent_spec(outgoing, (region.len() - 1) as nat),
        }),
        flag_state_spec(side, poll_region(side, region, outgoing)[0]) == FlagState::Idle,
{
    lemma_load_texture_without_path(
        (region.len() - 1 - encode_utf8(load_texture_name()).len()) as nat,
    );
}

/// Whatever the flag byte holds, exactly one side has the turn, and the value
/// a side releases with gives the turn to the other.
pub proof fn lemma_one_turn_at_a_time(flag: u8)
    ensures
        (flag_state_spec(Side::Engine, flag) == FlagState::ReadyToConsume) != (flag_state_spec(
            Side::Editor,
            flag,
        ) == FlagState::ReadyToConsume),
        flag_state_spec(Side::Editor, release_value_spec(Side::Engine))
            == FlagState::ReadyToConsume,
        flag_state_spec(Side::Engine, release_value_spec(Side::Editor))
            == FlagState::ReadyToConsume,
{
}

} // verus!
