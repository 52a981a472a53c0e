//! The relay's decisions: what an inbound frame asks for, the per-sender
//! cooldown, and the bell announcement with its chosen asset.

use crate::assets::{choose_one, AssetHashMap};
use crate::protocol::{
    is_legacy_ring, ring_bell_tag, same_text, sync_hashes_tag, Payload, SyncRequest, WsMessage,
};
use vstd::prelude::*;

verus! {

/// The minimum time between two accepted bells of one sender, in milliseconds.
pub const COOLDOWN_MS: u64 = 10000;

/// A trigger at `now` is accepted after one accepted at `last`, if any: at
/// least the cooldown has passed (a clock that went back counts as no time).
pub open spec fn accepts(last: Option<u64>, now: u64) -> bool {
    match last {
        None => true,
        Some(t) => now >= t && now - t >= COOLDOWN_MS,
    }
}

/// The time of the last accepted trigger of `id`, if any.
pub open spec fn last_trigger(m: Map<Seq<char>, u64>, id: Seq<char>) -> Option<u64> {
    if m.contains_key(id) {
        Some(m[id])
    } else {
        None
    }
}

/// For each sender, the time of its last accepted bell, in milliseconds.
#[derive(Debug)]
pub struct CooldownTable {
    entries: Vec<(String, u64)>,
}

impl CooldownTable {
    /// The number of entries.
    pub closed spec fn spec_len(&self) -> nat {
        self.entries@.len()
    }

    /// The sender of entry `i`.
    pub closed spec fn sender(&self, i: int) -> Seq<char> {
        self.entries@[i].0@
    }

    /// The time of entry `i`.
    pub closed spec fn time(&self, i: int) -> u64 {
        self.entries@[i].1
    }

    /// No sender occurs twice.
    pub open spec fn wf(&self) -> bool {
        forall|i: int, j: int|
            0 <= i < self.spec_len() && 0 <= j < self.spec_len() && i != j ==> self.sender(i)
                != self.sender(j)
    }

    proof fn lemma_entry(&self, i: int)
        requires
            self.wf(),
            0 <= i < self.spec_len(),
        ensures
            self@.contains_key(self.sender(i)),
            self@[self.sender(i)] == self.time(i),
    {
        let k = self.sender(i);
        assert(exists|j: int| 0 <= j < self.spec_len() && self.sender(j) == k);
        let j = choose|j: int| 0 <= j < self.spec_len() && self.sender(j) == k;
        assert(j == i);
    }

    /// The empty table.
    pub fn new() -> (r: CooldownTable)
        ensures
            r.wf(),
            r@ == Map::<Seq<char>, u64>::empty(),
    {
        let r = CooldownTable { entries: Vec::new() };
        assert(r@ =~= Map::<Seq<char>, u64>::empty());
        r
    }

    /// Decides a bell of `sender` at `now`. A bell without a sender is always
    /// accepted and leaves the table as it is. One with a sender is accepted
    /// when the cooldown since that sender's last accepted bell has passed,
    /// and then records `now` for it; a refused one changes nothing.
    pub fn try_accept(&mut self, sender: &Option<String>, now: u64) -> (r: bool)
        requires
            old(self).wf(),
        ensures
            final(self).wf(),
            sender is None ==> r && final(self)@ == old(self)@,
            sender matches Some(id) ==> r == accepts(last_trigger(old(self)@, id@), now),
            sender matches Some(id) ==> (r ==> final(self)@ == old(self)@.insert(id@, now)),
            sender is Some && !r ==> final(self)@ == old(self)@,
    {
        match sender {
            None => true,
            Some(id) => {
                let ghost pre = *self;
                let mut i: usize = 0;
                while i < self.entries.len()
                    invariant
                        *self == pre,
                        pre == *old(self),
                        pre.wf(),
                        *sender == Some(*id),
                        i <= self.spec_len(),
                        forall|j: int| 0 <= j < i ==> self.sender(j) != id@,
                    decreases self.spec_len() - i,
                {
                    if self.entries[i].0 == *id {
                        let last = self.entries[i].1;
                        proof {
                            self.lemma_entry(i as int);
                        }
                        if now < last || now - last < COOLDOWN_MS {
                            return false;
                        }
                        self.entries.set(i, (id.clone(), now));
                        proof {
                            assert forall|j: int| 0 <= j < self.spec_len() implies #[trigger] self.sender(
                                j,
                            ) == pre.sender(j) by {
                                if j != i {
                                    assert(self.entries@[j] == pre.entries@[j]);
                                }
                            }
                            self.lemma_replaced(pre, i as int, id@, now);
                        }
                        return true;
                    }
                    i = i + 1;
                }
                proof {
                    assert(!pre@.contains_key(id@)) by {
                        if pre@.contains_key(id@) {
                            let j = choose|j: int| 0 <= j < pre.spec_len() && pre.sender(j) == id@;
                        }
                    }
                }
                self.entries.push((id.clone(), now));
                proof {
                    assert forall|j: int| 0 <= j < pre.spec_len() implies #[trigger] self.sender(j)
                        == pre.sender(j) by {
                        assert(self.entries@[j] == pre.entries@[j]);
                    }
                    self.lemma_pushed(pre, id@, now);
                }
                true
            },
        }
    }

    proof fn lemma_replaced(&self, pre: CooldownTable, i: int, k: Seq<char>, v: u64)
        requires
            pre.wf(),
            0 <= i < pre.spec_len(),
            self.spec_len() == pre.spec_len(),
            pre.sender(i) == k,
            self.sender(i) == k,
            self.time(i) == v,
            forall|j: int| 0 <= j < pre.spec_len() && j != i ==> self.entries@[j] == pre.entries@[j],
        ensures
            self.wf(),
            self@ == pre@.insert(k, v),
    {
        assert forall|j: int| 0 <= j < self.spec_len() implies #[trigger] self.sender(j)
            == pre.sender(j) by {
            if j != i {
                assert(self.entries@[j] == pre.entries@[j]);
            }
        }
        assert forall|key: Seq<char>| #[trigger] self@.contains_key(key) == pre@.insert(
            k,
            v,
        ).contains_key(key) && (self@.contains_key(key) ==> self@[key] == pre@.insert(k, v)[key]) by {
            if key == k {
                self.lemma_entry(i);
            } else if pre@.contains_key(key) {
                let j = choose|j: int| 0 <= j < pre.spec_len() && pre.sender(j) == key;
                self.lemma_entry(j);
                pre.lemma_entry(j);
            } else if self@.contains_key(key) {
                let j = choose|j: int| 0 <= j < self.spec_len() && self.sender(j) == key;
                assert(pre.sender(j) == key);
            }
        }
        assert(self@ =~= pre@.insert(k, v));
    }

    proof fn lemma_pushed(&self, pre: CooldownTable, k: Seq<char>, v: u64)
        requires
            pre.wf(),
            !pre@.contains_key(k),
            self.spec_len() == pre.spec_len() + 1,
            self.sender(pre.spec_len() as int) == k,
            self.time(pre.spec_len() as int) == v,
            forall|j: int| 0 <= j < pre.spec_len() ==> self.entries@[j] == pre.entries@[j],
        ensures
            self.wf(),
            self@ == pre@.insert(k, v),
    {
        let n = pre.spec_len() as int;
        assert forall|j: int| 0 <= j < n implies #[trigger] self.sender(j) == pre.sender(j) by {
            assert(self.entries@[j] == pre.entries@[j]);
        }
        assert forall|j: int| 0 <= j < n implies #[trigger] pre.sender(j) != k by {
            pre.lemma_entry(j);
        }
        assert(self.wf());
        assert forall|key: Seq<char>| #[trigger] self@.contains_key(key) == pre@.insert(
            k,
            v,
        ).contains_key(key) && (self@.contains_key(key) ==> self@[key] == pre@.insert(k, v)[key]) by {
            if key == k {
                self.lemma_entry(n);
            } else if pre@.contains_key(key) {
                let j = choose|j: int| 0 <= j < pre.spec_len() && pre.sender(j) == key;
                self.lemma_entry(j);
                pre.lemma_entry(j);
            } else if self@.contains_key(key) {
                let j = choose|j: int| 0 <= j < self.spec_len() && self.sender(j) == key;
                assert(pre.sender(j) == key);
            }
        }
        assert(self@ =~= pre@.insert(k, v));
    }
}

impl View for CooldownTable {
    type V = Map<Seq<char>, u64>;

    open spec fn view(&self) -> Map<Seq<char>, u64> {
        Map::new(
            |k: Seq<char>| exists|i: int| 0 <= i < self.spec_len() && self.sender(i) == k,
            |k: Seq<char>|
                self.time(choose|i: int| 0 <= i < self.spec_len() && self.sender(i) == k),
        )
    }
}

/// Of two bells from one sender, at `t1` and then at `t2`, the first of them
/// accepted: the second is accepted exactly when the cooldown has passed
/// between them, so two within the window give one announcement and two
/// further apart give two.
pub proof fn lemma_cooldown_window(table: CooldownTable, id: Seq<char>, t1: u64, t2: u64)
    requires
        table.wf(),
        accepts(last_trigger(table@, id), t1),
        t1 <= t2,
    ensures
        accepts(last_trigger(table@.insert(id, t1), id), t2) <==> t2 - t1 >= COOLDOWN_MS,
{
}

/// The bell announcement for `sender_id`, naming the asset digest `chosen`
/// if there is one.
pub fn ring_message(sender_id: Option<String>, chosen: Option<String>) -> (r: WsMessage)
    ensures
        r.event@ == ring_bell_tag(),
        r.sender_id == sender_id,
        match chosen {
            Some(h) => r.data == Some(Payload::Hash(h)),
            None => r.data is None,
        },
{
    let mut msg = WsMessage::ring_bell(sender_id);
    match chosen {
        Some(h) => {
            msg.data = Some(Payload::Hash(h));
        },
        None => {},
    }
    msg
}

/// The bell announcement for `sender_id`: it names the digest of one of the
/// relay's assets, chosen at random, or none where the relay has no asset.
pub fn announce(sender_id: Option<String>, hashes: &AssetHashMap) -> (r: WsMessage)
    requires
        hashes.wf(),
    ensures
        r.event@ == ring_bell_tag(),
        r.sender_id == sender_id,
        r.data is None <==> hashes@.len() == 0,
        r.data matches Some(p) ==> p matches Payload::Hash(h) && exists|k: Seq<char>|
            hashes@.contains_key(k) && hashes@[k] == h@,
{
    let n = hashes.len();
    let mut values: Vec<String> = Vec::new();
    let mut i: usize = 0;
    while i < n
        invariant
            n == hashes.spec_len(),
            hashes.wf(),
            i <= n,
            values.len() == i,
            forall|j: int| 0 <= j < i ==> (#[trigger] values@[j])@ == hashes.digest(j),
        decreases n - i,
    {
        values.push(hashes.digest_at(i).clone());
        i = i + 1;
    }
    let chosen = choose_one(&values);
    proof {
        if chosen is Some {
            let j = choose|j: int| 0 <= j < values.len() && values@[j]@ == chosen->0@;
            hashes.lemma_entry(j);
        }
    }
    ring_message(sender_id, chosen)
}

/// What a frame received by the relay asks for.
#[derive(Debug)]
pub enum ServerCommand {
    /// A bell, from the sender named if any.
    Ring(Option<String>),
    /// A reconciliation against the client's reported digests.
    Sync(SyncRequest),
    /// Nothing.
    Ignore,
}

/// What a frame asks for, given the message it decodes to, if any, and
/// whether it is the bare legacy bell literal. A sync report whose payload
/// is not a report of digests asks for nothing.
pub open spec fn command_of(parsed: Option<WsMessage>, legacy_ring: bool) -> ServerCommand {
    match parsed {
        Some(m) => if m.event@ == ring_bell_tag() {
            ServerCommand::Ring(m.sender_id)
        } else if m.event@ == sync_hashes_tag() {
            match m.data {
                Some(Payload::Sync(req)) => ServerCommand::Sync(req),
                _ => ServerCommand::Ignore,
            }
        } else {
            ServerCommand::Ignore
        },
        None => if legacy_ring {
            ServerCommand::Ring(None)
        } else {
            ServerCommand::Ignore
        },
    }
}

/// What a frame asks for, given the message it decodes to, if any, and
/// whether it is the bare legacy bell literal.
pub fn command_for(parsed: Option<WsMessage>, legacy_ring: bool) -> (r: ServerCommand)
    ensures
        r == command_of(parsed, legacy_ring),
{
    match parsed {
        Some(m) => {
            if same_text(m.event.as_str(), "ring_bell") {
                ServerCommand::Ring(m.sender_id)
            } else if same_text(m.event.as_str(), "sync_hashes") {
                match m.data {
                    Some(Payload::Sync(req)) => ServerCommand::Sync(req),
                    _ => ServerCommand::Ignore,
                }
            } else {
                ServerCommand::Ignore
            }
        },
        None => {
            if legacy_ring {
                ServerCommand::Ring(None)
            } else {
                ServerCommand::Ignore
            }
        },
    }
}

/// What a text frame asks for, given the message it decodes to, if any, and
/// its raw text.
pub fn command_from_frame(parsed: Option<WsMessage>, raw: &str) -> (r: ServerCommand)
    ensures
        r == command_of(parsed, parsed is None && crate::protocol::trimmed(raw@) == ring_bell_tag()),
{
    let legacy = match parsed {
        Some(_) => false,
        None => is_legacy_ring(raw),
    };
    command_for(parsed, legacy)
}

} // verus!
