//! The client's decisions: which bells to play, what an inbound frame asks
//! of it, the local trigger's cooldown, and its connection state machine.

use crate::assets::{choose_one, is_audio_filename, is_audio_name, AssetHashMap};
use crate::protocol::{
    file_transfer_tag, is_legacy_ring, ring_bell_tag, same_text, trimmed, FileTransfer, Payload,
    WsMessage,
};
use crate::relay::{accepts, COOLDOWN_MS};
use vstd::prelude::*;

verus! {

/// The delay before a new connection attempt, in milliseconds.
pub const RECONNECT_DELAY_MS: u64 = 5000;

/// A bell is played by a client unless that client itself sent it.
pub open spec fn rings_for(sender_id: Option<String>, my_id: Seq<char>) -> bool {
    match sender_id {
        Some(s) => s@ != my_id,
        None => true,
    }
}

/// Whether the client `my_id` plays a bell sent by `sender_id`.
pub fn should_ring(sender_id: &Option<String>, my_id: &String) -> (r: bool)
    ensures
        r == rings_for(*sender_id, my_id@),
{
    match sender_id {
        Some(s) => *s != *my_id,
        None => true,
    }
}

/// What an inbound frame asks of the client.
#[derive(Debug)]
pub enum ClientAction {
    /// Play the local asset of this digest, or a random one where none has it.
    PlayHash(String),
    /// Play a random local asset.
    PlayRandom,
    /// Store a pushed asset.
    Save(FileTransfer),
    /// Nothing.
    Nothing,
}

/// What a frame asks of the client `my_id`, given the message it decodes to,
/// if any, and whether it is the bare legacy bell literal.
pub open spec fn reaction_of(parsed: Option<WsMessage>, legacy_ring: bool, my_id: Seq<char>) -> ClientAction {
    match parsed {
        Some(m) => if m.event@ == ring_bell_tag() {
            if rings_for(m.sender_id, my_id) {
                match m.data {
                    Some(Payload::Hash(h)) => ClientAction::PlayHash(h),
                    _ => ClientAction::PlayRandom,
                }
            } else {
                ClientAction::Nothing
            }
        } else if m.event@ == file_transfer_tag() {
            match m.data {
                Some(Payload::Transfer(t)) => ClientAction::Save(t),
                _ => ClientAction::Nothing,
            }
        } else {
            ClientAction::Nothing
        },
        None => if legacy_ring {
            ClientAction::PlayRandom
        } else {
            ClientAction::Nothing
        },
    }
}

/// What a frame asks of the client `my_id`, given the message it decodes to,
/// if any, and whether it is the bare legacy bell literal.
pub fn reaction(parsed: Option<WsMessage>, legacy_ring: bool, my_id: &String) -> (r: ClientAction)
    ensures
        r == reaction_of(parsed, legacy_ring, my_id@),
{
    match parsed {
        Some(m) => {
            if same_text(m.event.as_str(), "ring_bell") {
                if should_ring(&m.sender_id, my_id) {
                    match m.data {
                        Some(Payload::Hash(h)) => ClientAction::PlayHash(h),
                        _ => ClientAction::PlayRandom,
                    }
                } else {
                    ClientAction::Nothing
                }
            } else if same_text(m.event.as_str(), "file_transfer") {
                match m.data {
                    Some(Payload::Transfer(t)) => ClientAction::Save(t),
                    _ => ClientAction::Nothing,
                }
            } else {
                ClientAction::Nothing
            }
        },
        None => {
            if legacy_ring {
                ClientAction::PlayRandom
            } else {
                ClientAction::Nothing
            }
        },
    }
}

/// What a text frame asks of the client `my_id`, given the message it
/// decodes to, if any, and its raw text.
pub fn client_action(parsed: Option<WsMessage>, raw: &str, my_id: &String) -> (r: ClientAction)
    ensures
        r == reaction_of(parsed, parsed is None && trimmed(raw@) == ring_bell_tag(), my_id@),
{
    let legacy = match parsed {
        Some(_) => false,
        None => is_legacy_ring(raw),
    };
    reaction(parsed, legacy, my_id)
}

/// A bell that a client sent itself is not played by it; one from another
/// sender, or from none, is.
pub proof fn lemma_own_bell_ignored(m: WsMessage, my_id: Seq<char>)
    requires
        m.event@ == ring_bell_tag(),
    ensures
        (m.sender_id matches Some(s) && s@ == my_id) ==> reaction_of(Some(m), false, my_id)
            is Nothing,
        !(m.sender_id matches Some(s) && s@ == my_id) ==> (reaction_of(Some(m), false, my_id)
            is PlayHash || reaction_of(Some(m), false, my_id) is PlayRandom),
{
}

/// The name of a local asset whose digest is `digest`, if there is one.
pub fn sound_for(local: &AssetHashMap, digest: &String) -> (r: Option<String>)
    requires
        local.wf(),
    ensures
        r is None <==> forall|k: Seq<char>| local@.contains_key(k) ==> local@[k] != digest@,
        r matches Some(n) ==> local@.contains_key(n@) && local@[n@] == digest@,
{
    let n = local.len();
    let mut i: usize = 0;
    while i < n
        invariant
            n == local.spec_len(),
            local.wf(),
            i <= n,
            forall|j: int| 0 <= j < i ==> local.digest(j) != digest@,
        decreases n - i,
    {
        if *local.digest_at(i) == *digest {
            proof {
                local.lemma_entry(i as int);
            }
            return Some(local.name_at(i).clone());
        }
        i = i + 1;
    }
    proof {
        assert forall|k: Seq<char>| local@.contains_key(k) implies local@[k] != digest@ by {
            let j = choose|j: int| 0 <= j < local.spec_len() && local.name(j) == k;
            local.lemma_entry(j);
        }
    }
    None
}

/// One of the sound assets among `names`, chosen at random; none where no
/// name is that of a sound asset.
pub fn pick_random_sound(names: &Vec<String>) -> (r: Option<String>)
    ensures
        r is None <==> forall|i: int| 0 <= i < names.len() ==> !is_audio_name(#[trigger] names@[i]@),
        r matches Some(s) ==> is_audio_name(s@) && exists|i: int|
            0 <= i < names.len() && names@[i]@ == s@,
{
    let mut sounds: Vec<String> = Vec::new();
    let mut i: usize = 0;
    while i < names.len()
        invariant
            i <= names.len(),
            forall|j: int|
                0 <= j < sounds.len() ==> is_audio_name(#[trigger] sounds@[j]@) && exists|k: int|
                    0 <= k < i && names@[k]@ == sounds@[j]@,
            sounds.len() == 0 <==> forall|k: int| 0 <= k < i ==> !is_audio_name(#[trigger] names@[k]@),
        decreases names.len() - i,
    {
        if is_audio_filename(names[i].as_str()) {
            sounds.push(names[i].clone());
            assert(sounds@[sounds.len() - 1]@ == names@[i as int]@);
        }
        i = i + 1;
    }
    let r = choose_one(&sounds);
    proof {
        if r is Some {
            let j = choose|j: int| 0 <= j < sounds.len() && sounds@[j]@ == r->0@;
            assert(is_audio_name(sounds@[j]@));
        }
    }
    r
}

/// The client's own bell trigger, with the time of its last accepted press.
#[derive(Debug)]
pub struct TriggerGate {
    last: Option<u64>,
}

impl View for TriggerGate {
    type V = Option<u64>;

    closed spec fn view(&self) -> Option<u64> {
        self.last
    }
}

impl TriggerGate {
    /// A gate that has accepted nothing yet.
    pub fn new() -> (r: TriggerGate)
        ensures
            r@ is None,
    {
        TriggerGate { last: None }
    }

    /// Decides a press at `now`: accepted when the cooldown since the last
    /// accepted press has passed, and then recorded; a refused press changes
    /// nothing.
    pub fn try_fire(&mut self, now: u64) -> (r: bool)
        ensures
            r == accepts(old(self)@, now),
            r ==> final(self)@ == Some(now),
            !r ==> final(self)@ == old(self)@,
    {
        match self.last {
            Some(t) => {
                if now < t || now - t < COOLDOWN_MS {
                    return false;
                }
            },
            None => {},
        }
        self.last = Some(now);
        true
    }

    /// The bell to send for a press at `now` by the client `my_id`, if the
    /// press is accepted.
    pub fn press(&mut self, now: u64, my_id: String) -> (r: Option<WsMessage>)
        ensures
            r is Some == accepts(old(self)@, now),
            r is Some ==> final(self)@ == Some(now),
            r is None ==> final(self)@ == old(self)@,
            r matches Some(m) ==> m.event@ == ring_bell_tag() && m.sender_id == Some(my_id)
                && m.data is None,
    {
        if self.try_fire(now) {
            Some(WsMessage::ring_bell(Some(my_id)))
        } else {
            None
        }
    }
}

/// The state of the client's link to the relay.
#[derive(Debug, Clone, Copy, PartialEq, Eq, Structural)]
pub enum LinkState {
    Disconnected,
    Connecting,
    Connected,
}

/// What happened on the link, or was asked of it.
#[derive(Debug)]
pub enum LinkEvent {
    /// The delay before a new attempt is over, or the client has just started.
    Retry,
    /// The connection attempt succeeded.
    ConnectOk,
    /// The connection attempt failed.
    ConnectFailed,
    /// A text frame came in: the message it decodes to, if any, and its text.
    Frame(Option<WsMessage>, String),
    /// A frame that is not text came in.
    OtherFrame,
    /// The connection closed or failed, in either direction.
    Lost,
    /// A local event asks to send this message.
    Outgoing(WsMessage),
}

/// What the client is to do next.
#[derive(Debug)]
pub enum LinkAction {
    /// Attempt a connection to the relay.
    Connect,
    /// Scan the local assets afresh and send their digests.
    SendSyncHashes,
    /// Wait this many milliseconds.
    Wait(u64),
    /// Send this message.
    Send(WsMessage),
    /// Carry out what an inbound frame asks.
    React(ClientAction),
    /// Nothing.
    Idle,
}

/// The next state and action of the client `my_id` in state `s` on event `e`.
pub open spec fn transition(s: LinkState, e: LinkEvent, my_id: Seq<char>) -> (LinkState, LinkAction) {
    match (s, e) {
        (LinkState::Disconnected, LinkEvent::Retry) => (LinkState::Connecting, LinkAction::Connect),
        (LinkState::Connecting, LinkEvent::ConnectOk) => (
            LinkState::Connected,
            LinkAction::SendSyncHashes,
        ),
        (LinkState::Connecting, LinkEvent::ConnectFailed) => (
            LinkState::Disconnected,
            LinkAction::Wait(RECONNECT_DELAY_MS),
        ),
        (LinkState::Connected, LinkEvent::Frame(parsed, raw)) => (
            LinkState::Connected,
            LinkAction::React(
                reaction_of(parsed, parsed is None && trimmed(raw@) == ring_bell_tag(), my_id),
            ),
        ),
        (LinkState::Connected, LinkEvent::Lost) => (
            LinkState::Disconnected,
            LinkAction::Wait(RECONNECT_DELAY_MS),
        ),
        (LinkState::Connected, LinkEvent::Outgoing(m)) => (LinkState::Connected, LinkAction::Send(m)),
        (st, _) => (st, LinkAction::Idle),
    }
}

/// The client's link to the relay: its state and the client's identity.
#[derive(Debug)]
pub struct ClientDriver {
    pub state: LinkState,
    pub my_id: String,
}

impl ClientDriver {
    /// A client `my_id` that is not connected.
    pub fn new(my_id: String) -> (r: ClientDriver)
        ensures
            r.state == LinkState::Disconnected,
            r.my_id == my_id,
    {
        ClientDriver { state: LinkState::Disconnected, my_id }
    }

    /// Moves to the next state on `e` and says what to do.
    pub fn on_event(&mut self, e: LinkEvent) -> (r: LinkAction)
        ensures
            final(self).my_id == old(self).my_id,
            (final(self).state, r) == transition(old(self).state, e, old(self).my_id@),
    {
        let (next, action) = match (self.state, e) {
            (LinkState::Disconnected, LinkEvent::Retry) => (LinkState::Connecting, LinkAction::Connect),
            (LinkState::Connecting, LinkEvent::ConnectOk) => (
                LinkState::Connected,
                LinkAction::SendSyncHashes,
            ),
            (LinkState::Connecting, LinkEvent::ConnectFailed) => (
                LinkState::Disconnected,
                LinkAction::Wait(RECONNECT_DELAY_MS),
            ),
            (LinkState::Connected, LinkEvent::Frame(parsed, raw)) => (
                LinkState::Connected,
                LinkAction::React(client_action(parsed, raw.as_str(), &self.my_id)),
            ),
            (LinkState::Connected, LinkEvent::Lost) => (
                LinkState::Disconnected,
                LinkAction::Wait(RECONNECT_DELAY_MS),
            ),
            (LinkState::Connected, LinkEvent::Outgoing(m)) => (
                LinkState::Connected,
                LinkAction::Send(m),
            ),
            (st, _) => (st, LinkAction::Idle),
        };
        self.state = next;
        action
    }
}

} // verus!
