//! The shared peer registry and the broadcast router. The registry is the
//! single source of truth for who is connected; it maps each connection
//! identity to that connection's outbox, the FIFO queue of payloads waiting
//! to be written to it. Broadcasting appends a message to every registered
//! outbox except the sender's own, and never fails toward the sender.
//!
//! Callers share one `ChatServer` value under mutual exclusion; every
//! operation here is a single critical section.
use vstd::prelude::*;

verus! {

/// One registered connection: its identity and its outbox, oldest payload
/// first.
pub struct Peer {
    pub id: u64,
    pub outbox: Vec<Vec<u8>>,
}

impl Peer {
    /// The outbox contents as a sequence of byte sequences, oldest first.
    pub open spec fn queue(self) -> Seq<Seq<u8>> {
        Seq::new(self.outbox@.len(), |i: int| self.outbox@[i]@)
    }
}

/// The registry order with every occurrence of `exclude` taken out; the
/// remaining identities keep their relative order.
pub open spec fn others(ids: Seq<u64>, exclude: u64) -> Seq<u64>
    decreases ids.len(),
{
    if ids.len() == 0 {
        Seq::empty()
    } else if ids[0] == exclude {
        others(ids.drop_first(), exclude)
    } else {
        seq![ids[0]] + others(ids.drop_first(), exclude)
    }
}

/// The peer registry together with every peer's outbox.
pub struct ChatServer {
    pub peers: Vec<Peer>,
}

impl ChatServer {
    /// The registered identities, in registration order.
    pub open spec fn ids(self) -> Seq<u64> {
        self.peers@.map_values(|p: Peer| p.id)
    }

    /// The identity is currently registered.
    pub open spec fn registered(self, id: u64) -> bool {
        exists|i: int| 0 <= i < self.peers@.len() && (#[trigger] self.peers@[i]).id == id
    }

    /// No identity is registered twice.
    pub open spec fn wf(self) -> bool {
        forall|i: int, j: int|
            0 <= i < j < self.peers@.len() ==> (#[trigger] self.peers@[i]).id != (
            #[trigger] self.peers@[j]).id
    }

    /// The position of a registered identity.
    pub open spec fn index_of(self, id: u64) -> int {
        choose|i: int| 0 <= i < self.peers@.len() && (#[trigger] self.peers@[i]).id == id
    }

    /// The outbox of a registered identity.
    pub open spec fn queue_of(self, id: u64) -> Seq<Seq<u8>>
        recommends
            self.registered(id),
    {
        self.peers@[self.index_of(id)].queue()
    }

    /// In a well-formed registry a registered identity sits at exactly one
    /// position, the one `index_of` names.
    pub proof fn lemma_index_of(self, id: u64)
        requires
            self.wf(),
            self.registered(id),
        ensures
            0 <= self.index_of(id) < self.peers@.len(),
            self.peers@[self.index_of(id)].id == id,
            forall|i: int|
                0 <= i < self.peers@.len() && (#[trigger] self.peers@[i]).id == id ==> i
                    == self.index_of(id),
    {
        let k = self.index_of(id);
        assert(0 <= k < self.peers@.len() && self.peers@[k].id == id);
        assert forall|i: int|
            0 <= i < self.peers@.len() && (#[trigger] self.peers@[i]).id == id implies i == k by {
            if i < k {
                assert(self.peers@[i].id != self.peers@[k].id);
            } else if k < i {
                assert(self.peers@[k].id != self.peers@[i].id);
            }
        }
    }

    /// An empty registry.
    pub fn new() -> (s: ChatServer)
        ensures
            s.wf(),
            s.ids() == Seq::<u64>::empty(),
            forall|id: u64| !s.registered(id),
    {
        let s = ChatServer { peers: Vec::new() };
        proof {
            assert(s.ids() =~= Seq::<u64>::empty());
        }
        s
    }

    /// Registers a fresh identity with an empty outbox, at the end of the
    /// registration order. Identity uniqueness is the caller's promise, as
    /// the registry does not defend against reuse.
    pub fn register(&mut self, id: u64)
        requires
            old(self).wf(),
            !old(self).registered(id),
        ensures
            final(self).wf(),
            final(self).ids() == old(self).ids().push(id),
            final(self).registered(id),
            final(self).queue_of(id) == Seq::<Seq<u8>>::empty(),
            forall|other: u64|
                old(self).registered(other) ==> #[trigger] final(self).registered(other),
            forall|other: u64|
                old(self).registered(other) ==> #[trigger] final(self).queue_of(other) == old(
                    self,
                ).queue_of(other),
            forall|other: u64|
                #[trigger] final(self).registered(other) ==> other == id || old(self).registered(
                    other,
                ),

    {
        let ghost pre = *self;
        self.peers.push(Peer { id, outbox: Vec::new() });
        proof {
            let n = pre.peers@.len() as int;
            assert(self.ids() =~= pre.ids().push(id));
            assert(self.peers@[n].id == id);
            assert(self.wf());
            self.lemma_index_of(id);
            assert(self.queue_of(id) =~= Seq::<Seq<u8>>::empty());
            assert forall|other: u64| pre.registered(other) implies #[trigger] self.registered(
                other,
            ) by {
                let i = choose|i: int|
                    0 <= i < pre.peers@.len() && (#[trigger] pre.peers@[i]).id == other;
                assert(self.peers@[i].id == other);
            }
            assert forall|other: u64| pre.registered(other) implies #[trigger] self.queue_of(other)
                == pre.queue_of(other) by {
                let i = choose|i: int|
                    0 <= i < pre.peers@.len() && (#[trigger] pre.peers@[i]).id == other;
                assert(self.peers@[i].id == other);
                assert(self.registered(other));
                self.lemma_index_of(other);
                pre.lemma_index_of(other);
                assert(self.index_of(other) == i && pre.index_of(other) == i);
                assert(self.peers@[i] == pre.peers@[i]);
            }
        }
    }

    /// Removes an identity if it is present; absent identities make this a
    /// no-op, so unregistering twice is harmless. Every other peer keeps its
    /// place and its outbox.
    pub fn unregister(&mut self, id: u64)
        requires
            old(self).wf(),
        ensures
            final(self).wf(),
            final(self).ids() == others(old(self).ids(), id),
            !final(self).registered(id),
            forall|other: u64|
                other != id ==> (#[trigger] final(self).registered(other) <==> old(self).registered(
                    other,
                )),
            forall|other: u64|
                other != id && old(self).registered(other) ==> #[trigger] final(self).queue_of(
                    other,
                ) == old(self).queue_of(other),
    {
        let ghost pre = *self;
        let mut found: bool = false;
        let mut k: usize = 0;
        let n = self.peers.len();
        while k < n && !found
            invariant
                *self == pre,
                n == pre.peers@.len(),
                0 <= k <= n,
                !found ==> forall|j: int| 0 <= j < k ==> (#[trigger] pre.peers@[j]).id != id,
                found ==> k < n && pre.peers@[k as int].id == id,
            decreases n - k + (if found { 0int } else { 1int }),
        {
            if self.peers[k].id == id {
                found = true;
            } else {
                k = k + 1;
            }
        }
        if found {
            self.peers.remove(k);
            proof {
                pre.lemma_index_of(id);
                assert(pre.index_of(id) == k as int);
                lemma_others_removes_at(pre.ids(), id, k as int);
                assert(self.ids() =~= others(pre.ids(), id));
                assert forall|i: int|
                    0 <= i < self.peers@.len() implies (#[trigger] self.peers@[i]).id != id by {
                    if i < k as int {
                        assert(self.peers@[i] == pre.peers@[i]);
                    } else {
                        assert(self.peers@[i] == pre.peers@[i + 1]);
                    }
                }
                assert forall|other: u64| other != id && pre.registered(other) implies
                    #[trigger] self.registered(other) by {
                    pre.lemma_index_of(other);
                    let i = pre.index_of(other);
                    if i < k as int {
                        assert(self.peers@[i] == pre.peers@[i]);
                        assert(self.peers@[i].id == other);
                    } else {
                        assert(i > k as int);
                        assert(self.peers@[i - 1] == pre.peers@[i]);
                        assert(self.peers@[i - 1].id == other);
                    }
                }
                assert forall|other: u64| other != id && pre.registered(other) implies
                    #[trigger] self.queue_of(other) == pre.queue_of(other) by {
                    pre.lemma_index_of(other);
                    let i = pre.index_of(other);
                    if i < k as int {
                        assert(self.peers@[i] == pre.peers@[i]);
                        assert(self.peers@[i].id == other);
                        self.lemma_index_of(other);
                        assert(self.index_of(other) == i);
                    } else {
                        assert(i > k as int);
                        assert(self.peers@[i - 1] == pre.peers@[i]);
                        assert(self.peers@[i - 1].id == other);
                        assert(self.registered(other));
                        self.lemma_index_of(other);
                        assert(self.index_of(other) == i - 1);
                    }
                }
                assert forall|other: u64| other != id && self.registered(other) implies
                    pre.registered(other) by {
                    let i = choose|i: int|
                        0 <= i < self.peers@.len() && (#[trigger] self.peers@[i]).id == other;
                    if i < k as int {
                        assert(pre.peers@[i].id == other);
                    } else {
                        assert(pre.peers@[i + 1].id == other);
                    }
                }
            }
        } else {
            proof {
                assert(!pre.registered(id));
                lemma_others_absent(pre.ids(), id);
                assert(self.ids() == others(pre.ids(), id));
            }
        }
    }

    /// Appends `message` to the outbox of every registered peer except
    /// `sender`; the registration order and the sender's own outbox are
    /// untouched. A sender that is itself no longer registered simply
    /// reaches everyone, which is exactly the teardown broadcast.
    pub fn broadcast(&mut self, sender: u64, message: &Vec<u8>)
        requires
            old(self).wf(),
        ensures
            final(self).wf(),
            broadcast_effect(*old(self), *final(self), sender, message@),
    {
        let ghost pre = *self;
        let n = self.peers.len();
        let mut i: usize = 0;
        while i < n
            invariant
                n == pre.peers@.len(),
                self.peers@.len() == n,
                0 <= i <= n,
                forall|j: int| i <= j < n ==> #[trigger] self.peers@[j] == pre.peers@[j],
                forall|j: int|
                    0 <= j < i && pre.peers@[j].id != sender ==> (#[trigger] self.peers@[j]).id
                        == pre.peers@[j].id && self.peers@[j].queue() == pre.peers@[j].queue().push(
                        message@,
                    ),
                forall|j: int|
                    0 <= j < i && pre.peers@[j].id == sender ==> #[trigger] self.peers@[j]
                        == pre.peers@[j],
            decreases n - i,
        {
            if self.peers[i].id != sender {
                let ghost before = self.peers@;
                let copy = duplicate_bytes(message);
                let mut peer = self.peers.remove(i);
                peer.outbox.push(copy);
                let ghost pushed = peer;
                self.peers.insert(i, peer);
                proof {
                    assert(pushed.queue() =~= before[i as int].queue().push(message@));
                    assert(self.peers@ =~= before.update(i as int, pushed));
                }
            }
            i = i + 1;
        }
        proof {
            assert forall|j: int|
                0 <= j < self.peers@.len() implies (#[trigger] self.peers@[j]).id
                == pre.peers@[j].id by {}
            assert(self.ids() =~= pre.ids());
            assert(self.wf());
            assert forall|id: u64| self.registered(id) && id != sender implies
                #[trigger] self.queue_of(id) == pre.queue_of(id).push(message@) by {
                self.lemma_index_of(id);
                pre.lemma_index_of(id);
                assert(pre.index_of(id) == self.index_of(id));
            }
            assert forall|id: u64| self.registered(id) && id == sender implies
                #[trigger] self.queue_of(id) == pre.queue_of(id) by {
                self.lemma_index_of(id);
                pre.lemma_index_of(id);
            }
            assert forall|id: u64| pre.registered(id) implies #[trigger] self.registered(id) by {
                let j = choose|j: int|
                    0 <= j < pre.peers@.len() && (#[trigger] pre.peers@[j]).id == id;
                assert(self.peers@[j].id == id);
            }
        }
    }

    /// Takes the oldest message out of `id`'s outbox: `Some` exactly when
    /// the identity is registered and its outbox is not empty, and then the
    /// head, in enqueue order; everything else is left untouched.
    pub fn pop_outbox(&mut self, id: u64) -> (r: Option<Vec<u8>>)
        requires
            old(self).wf(),
        ensures
            final(self).wf(),
            final(self).ids() == old(self).ids(),
            match r {
                Some(m) => {
                    &&& old(self).registered(id)
                    &&& old(self).queue_of(id).len() > 0
                    &&& m@ == old(self).queue_of(id)[0]
                    &&& final(self).queue_of(id) == old(self).queue_of(id).drop_first()
                    &&& forall|other: u64|
                        other != id && old(self).registered(other)
                            ==> #[trigger] final(self).queue_of(other) == old(self).queue_of(other)
                },
                None => {
                    &&& (!old(self).registered(id) || old(self).queue_of(id).len() == 0)
                    &&& *final(self) == *old(self)
                },
            },
            forall|other: u64|
                #[trigger] final(self).registered(other) <==> old(self).registered(other),
    {
        let ghost pre = *self;
        let mut found: bool = false;
        let mut k: usize = 0;
        let n = self.peers.len();
        while k < n && !found
            invariant
                *self == pre,
                n == pre.peers@.len(),
                0 <= k <= n,
                !found ==> forall|j: int| 0 <= j < k ==> (#[trigger] pre.peers@[j]).id != id,
                found ==> k < n && pre.peers@[k as int].id == id,
            decreases n - k + (if found { 0int } else { 1int }),
        {
            if self.peers[k].id == id {
                found = true;
            } else {
                k = k + 1;
            }
        }
        if !found {
            proof {
                assert(!pre.registered(id));
            }
            return None;
        }
        proof {
            pre.lemma_index_of(id);
            assert(pre.index_of(id) == k as int);
        }
        if self.peers[k].outbox.len() == 0 {
            return None;
        }
        let ghost before = self.peers@;
        let mut peer = self.peers.remove(k);
        let m = peer.outbox.remove(0);
        let ghost popped = peer;
        self.peers.insert(k, peer);
        proof {
            assert(popped.queue() =~= before[k as int].queue().drop_first());
            assert(self.peers@ =~= before.update(k as int, popped));
            assert(self.ids() =~= pre.ids());
            assert(m@ == pre.queue_of(id)[0]);
            assert(popped.id == id);
            assert(self.peers@[k as int].id == id);
            assert(self.registered(id));
            self.lemma_index_of(id);
            assert(self.queue_of(id) == pre.queue_of(id).drop_first());
            assert forall|other: u64| other != id && pre.registered(other) implies
                #[trigger] self.queue_of(other) == pre.queue_of(other) by {
                pre.lemma_index_of(other);
                assert(self.peers@[pre.index_of(other)].id == other);
                assert(self.registered(other));
                self.lemma_index_of(other);
            }
            assert forall|other: u64| #[trigger] self.registered(other) <==> pre.registered(
                other,
            ) by {
                if self.registered(other) {
                    let i = choose|i: int|
                        0 <= i < self.peers@.len() && (#[trigger] self.peers@[i]).id == other;
                    assert(pre.peers@[i].id == other);
                }
                if pre.registered(other) {
                    let i = choose|i: int|
                        0 <= i < pre.peers@.len() && (#[trigger] pre.peers@[i]).id == other;
                    assert(self.peers@[i].id == other);
                }
            }
        }
        Some(m)
    }

    /// Whether `id` is currently registered.
    pub fn is_registered(&self, id: u64) -> (r: bool)
        ensures
            r == self.registered(id),
    {
        let mut k: usize = 0;
        let n = self.peers.len();
        while k < n
            invariant
                n == self.peers@.len(),
                0 <= k <= n,
                forall|j: int| 0 <= j < k ==> (#[trigger] self.peers@[j]).id != id,
            decreases n - k,
        {
            if self.peers[k].id == id {
                return true;
            }
            k = k + 1;
        }
        false
    }

    /// The registry snapshot the router works from: every registered
    /// identity except `exclude`, in registration order.
    pub fn snapshot_except(&self, exclude: u64) -> (r: Vec<u64>)
        ensures
            r@ == others(self.ids(), exclude),
    {
        let n = self.peers.len();
        let mut r: Vec<u64> = Vec::new();
        let mut i: usize = 0;
        proof {
            assert(self.ids().take(0) =~= Seq::<u64>::empty());
        }
        while i < n
            invariant
                n == self.peers@.len(),
                0 <= i <= n,
                r@ == others(self.ids().take(i as int), exclude),
            decreases n - i,
        {
            proof {
                assert(self.ids().take(i + 1 as int) =~= self.ids().take(i as int).push(
                    self.peers@[i as int].id,
                ));
                lemma_others_snoc(self.ids().take(i as int), exclude, self.peers@[i as int].id);
            }
            if self.peers[i].id != exclude {
                r.push(self.peers[i].id);
            }
            i = i + 1;
        }
        proof {
            assert(self.ids().take(n as int) =~= self.ids());
        }
        r
    }
}

/// What one broadcast does: every registered peer but the sender has the
/// message appended to its outbox, the sender's own outbox is untouched, and
/// who is registered, in what order, does not change.
pub open spec fn broadcast_effect(
    pre: ChatServer,
    post: ChatServer,
    sender: u64,
    msg: Seq<u8>,
) -> bool {
    &&& post.ids() == pre.ids()
    &&& forall|id: u64| #[trigger] post.registered(id) <==> pre.registered(id)
    &&& forall|id: u64|
        post.registered(id) && id != sender ==> #[trigger] post.queue_of(id) == pre.queue_of(
            id,
        ).push(msg)
    &&& forall|id: u64|
        post.registered(id) && id == sender ==> #[trigger] post.queue_of(id) == pre.queue_of(id)
}

/// Law: one broadcast is delivered to every session registered at broadcast
/// time except the sender — it lands at the end of each such peer's outbox,
/// so deliveries happen in enqueue order — and it is never delivered to the
/// sender, whose outbox is untouched.
pub proof fn lemma_broadcast_delivery(
    pre: ChatServer,
    post: ChatServer,
    sender: u64,
    msg: Seq<u8>,
    id: u64,
)
    requires
        broadcast_effect(pre, post, sender, msg),
        pre.registered(id),
    ensures
        post.registered(id),
        id != sender ==> post.queue_of(id).len() == pre.queue_of(id).len() + 1 && post.queue_of(
            id,
        )[post.queue_of(id).len() - 1] == msg,
        id == sender ==> post.queue_of(id) == pre.queue_of(id),
{
}

/// Law: two broadcasts from one sender reach every other registered peer in
/// broadcast order, behind everything already queued, which stays in place.
pub proof fn lemma_broadcast_order(
    s0: ChatServer,
    s1: ChatServer,
    s2: ChatServer,
    sender: u64,
    m1: Seq<u8>,
    m2: Seq<u8>,
    id: u64,
)
    requires
        broadcast_effect(s0, s1, sender, m1),
        broadcast_effect(s1, s2, sender, m2),
        s0.registered(id),
        id != sender,
    ensures
        s2.queue_of(id).len() == s0.queue_of(id).len() + 2,
        s2.queue_of(id)[s0.queue_of(id).len() as int] == m1,
        s2.queue_of(id)[s0.queue_of(id).len() + 1int] == m2,
        s2.queue_of(id).subrange(0, s0.queue_of(id).len() as int) == s0.queue_of(id),
{
    assert(s1.registered(id));
    assert(s2.queue_of(id) == s0.queue_of(id).push(m1).push(m2));
    assert(s2.queue_of(id).subrange(0, s0.queue_of(id).len() as int) =~= s0.queue_of(id));
}

/// Law: a session removed from the registry never receives a broadcast
/// enqueued after its removal: broadcasting changes nobody's membership, so
/// the removed identity has no outbox for the message to land in, and
/// popping its outbox yields nothing, as `pop_outbox` promises for an
/// unregistered identity.
pub proof fn lemma_removed_receives_nothing(
    pre: ChatServer,
    post: ChatServer,
    sender: u64,
    msg: Seq<u8>,
    id: u64,
)
    requires
        broadcast_effect(pre, post, sender, msg),
        !pre.registered(id),
    ensures
        !post.registered(id),
{
}

/// Law: the router's snapshot names exactly the delivery targets — an
/// identity is in `snapshot_except(sender)`'s result precisely when it is
/// registered and is not the sender, and those are the outboxes one
/// broadcast appends to.
pub proof fn lemma_snapshot_names_the_targets(s: ChatServer, sender: u64, id: u64)
    ensures
        others(s.ids(), sender).contains(id) <==> s.ids().contains(id) && id != sender,
{
    lemma_others_membership(s.ids(), sender, id);
}

/// Membership in `others`: everything but the excluded identity survives.
proof fn lemma_others_membership(ids: Seq<u64>, exclude: u64, id: u64)
    ensures
        others(ids, exclude).contains(id) <==> ids.contains(id) && id != exclude,
    decreases ids.len(),
{
    if ids.len() == 0 {
    } else {
        lemma_others_membership(ids.drop_first(), exclude, id);
        assert(ids.contains(id) <==> ids[0] == id || ids.drop_first().contains(id)) by {
            if ids.contains(id) {
                let i = choose|i: int| 0 <= i < ids.len() && ids[i] == id;
                if i > 0 {
                    assert(ids.drop_first()[i - 1] == id);
                }
            }
            if ids.drop_first().contains(id) {
                let i = choose|i: int|
                    0 <= i < ids.drop_first().len() && ids.drop_first()[i] == id;
                assert(ids[i + 1] == id);
            }
        }
        if ids[0] == exclude {
            assert(others(ids, exclude) == others(ids.drop_first(), exclude));
        } else {
            let tail = others(ids.drop_first(), exclude);
            assert(others(ids, exclude) == seq![ids[0]] + tail);
            assert((seq![ids[0]] + tail).contains(id) <==> ids[0] == id || tail.contains(id)) by {
                if (seq![ids[0]] + tail).contains(id) {
                    let i = choose|i: int|
                        0 <= i < (seq![ids[0]] + tail).len() && (seq![ids[0]] + tail)[i] == id;
                    if i > 0 {
                        assert(tail[i - 1] == id);
                    }
                }
                if tail.contains(id) {
                    let i = choose|i: int| 0 <= i < tail.len() && tail[i] == id;
                    assert((seq![ids[0]] + tail)[i + 1] == id);
                }
                if ids[0] == id {
                    assert((seq![ids[0]] + tail)[0] == id);
                }
            }
        }
    }
}

/// Removing an absent identity changes nothing.
proof fn lemma_others_absent(ids: Seq<u64>, exclude: u64)
    requires
        !ids.contains(exclude),
    ensures
        others(ids, exclude) == ids,
    decreases ids.len(),
{
    if ids.len() == 0 {
        assert(others(ids, exclude) =~= ids);
    } else {
        assert(ids[0] != exclude);
        assert(!ids.drop_first().contains(exclude)) by {
            if ids.drop_first().contains(exclude) {
                let i = choose|i: int|
                    0 <= i < ids.drop_first().len() && ids.drop_first()[i] == exclude;
                assert(ids[i + 1] == exclude);
            }
        }
        lemma_others_absent(ids.drop_first(), exclude);
        assert(others(ids, exclude) =~= ids);
    }
}

/// When `exclude` sits only at position `k`, taking it out splices the
/// sequence around `k`.
proof fn lemma_others_removes_at(ids: Seq<u64>, exclude: u64, k: int)
    requires
        0 <= k < ids.len(),
        ids[k] == exclude,
        forall|i: int| 0 <= i < ids.len() && i != k ==> ids[i] != exclude,
    ensures
        others(ids, exclude) == ids.remove(k),
    decreases ids.len(),
{
    if k == 0 {
        assert(!ids.drop_first().contains(exclude)) by {
            if ids.drop_first().contains(exclude) {
                let i = choose|i: int|
                    0 <= i < ids.drop_first().len() && ids.drop_first()[i] == exclude;
                assert(ids[i + 1] == exclude);
            }
        }
        lemma_others_absent(ids.drop_first(), exclude);
        assert(others(ids, exclude) =~= ids.remove(0));
    } else {
        assert(ids[0] != exclude);
        lemma_others_removes_at(ids.drop_first(), exclude, k - 1);
        assert(others(ids, exclude) =~= ids.remove(k)) by {
            assert(others(ids, exclude) == seq![ids[0]] + others(ids.drop_first(), exclude));
            assert(others(ids.drop_first(), exclude) == ids.drop_first().remove(k - 1));
            assert(ids.drop_first().remove(k - 1) =~= ids.remove(k).drop_first());
        }
    }
}

/// Appending one identity to the scanned prefix extends the snapshot by that
/// identity exactly when it is not the excluded one.
proof fn lemma_others_snoc(ids: Seq<u64>, exclude: u64, x: u64)
    ensures
        others(ids.push(x), exclude) == if x == exclude {
            others(ids, exclude)
        } else {
            others(ids, exclude).push(x)
        },
    decreases ids.len(),
{
    let s = ids.push(x);
    if ids.len() == 0 {
        assert(s.len() == 1 && s[0] == x);
        assert(s.drop_first() =~= Seq::<u64>::empty());
        assert(others(Seq::<u64>::empty(), exclude) == Seq::<u64>::empty());
        assert(others(ids, exclude) == Seq::<u64>::empty());
        if x == exclude {
            assert(others(s, exclude) == others(s.drop_first(), exclude));
        } else {
            assert(others(s, exclude) == seq![x] + others(s.drop_first(), exclude));
            assert(others(s, exclude) =~= others(ids, exclude).push(x));
        }
    } else {
        assert(s[0] == ids[0]);
        assert(s.drop_first() =~= ids.drop_first().push(x));
        lemma_others_snoc(ids.drop_first(), exclude, x);
        if ids[0] == exclude {
            assert(others(s, exclude) == others(s.drop_first(), exclude));
            assert(others(ids, exclude) == others(ids.drop_first(), exclude));
        } else {
            assert(others(s, exclude) == seq![ids[0]] + others(s.drop_first(), exclude));
            assert(others(ids, exclude) == seq![ids[0]] + others(ids.drop_first(), exclude));
        }
        if x == exclude {
            assert(others(s, exclude) =~= others(ids, exclude));
        } else {
            assert(others(s, exclude) =~= others(ids, exclude).push(x));
        }
    }
}

/// Byte-for-byte copy of a payload, made for each recipient's outbox.
fn duplicate_bytes(v: &Vec<u8>) -> (r: Vec<u8>)
    ensures
        r@ == v@,
{
    let mut r: Vec<u8> = Vec::new();
    let mut i: usize = 0;
    while i < v.len()
        invariant
            0 <= i <= v@.len(),
            r@ == v@.take(i as int),
        decreases v@.len() - i,
    {
        r.push(v[i]);
        proof {
            assert(v@.take(i + 1 as int) =~= v@.take(i as int).push(v@[i as int]));
        }
        i = i + 1;
    }
    proof {
        assert(v@.take(v@.len() as int) =~= v@);
    }
    r
}

} // verus!
