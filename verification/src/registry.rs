//! Directory of connected client sessions and their subscribed
//! addresses, with the routing primitives of the fan-out path. A client
//! entry exists exactly while its connection is open; ids are unique and
//! an address is held at most once per client.
use crate::channel::chan_send;
use crate::message::{Address, WiMessage};
use vstd::prelude::*;

verus! {

/// One connected session: its id, the addresses it subscribed to, and
/// the outbound channel toward that connection.
pub struct Client {
    pub id: u128,
    pub addresses: Vec<Address>,
    pub sender: tokio::sync::mpsc::UnboundedSender<WiMessage>,
}

impl Client {
    /// A client never holds the same address twice.
    pub open spec fn wf(self) -> bool {
        self.addresses@.no_duplicates()
    }

    pub fn new(id: u128, sender: tokio::sync::mpsc::UnboundedSender<WiMessage>) -> (r: Client)
        ensures
            r.id == id,
            r.sender == sender,
            r.addresses@ == Seq::<Address>::empty(),
            r.wf(),
    {
        Client { id, addresses: Vec::new(), sender }
    }
}

/// The session directory: every open connection's client entry, keyed by
/// its unique id.
pub struct Registry {
    pub clients: Vec<Client>,
}

/// The ids of a row of clients, in registration order.
pub open spec fn ids_of(ss: Seq<Client>) -> Seq<u128>
    decreases ss.len(),
{
    if ss.len() == 0 {
        Seq::empty()
    } else {
        ids_of(ss.drop_last()).push(ss.last().id)
    }
}

/// The ids of the clients subscribed to `address`, in registration
/// order.
pub open spec fn route_ids(ss: Seq<Client>, address: Address) -> Seq<u128>
    decreases ss.len(),
{
    if ss.len() == 0 {
        Seq::empty()
    } else {
        let rest = route_ids(ss.drop_last(), address);
        if ss.last().addresses@.contains(address) {
            rest.push(ss.last().id)
        } else {
            rest
        }
    }
}

/// Every client other than `id` is registered and subscribed exactly as
/// before.
pub open spec fn others_unchanged(pre: Registry, post: Registry, id: u128) -> bool {
    &&& forall|k: u128| k != id ==> post.has_id(k) == pre.has_id(k)
    &&& forall|k: u128| k != id && pre.has_id(k) ==> post.addr_seq_of(k) == pre.addr_seq_of(k)
    &&& forall|k: u128| k != id && pre.has_id(k) ==> post.sender_of(k) == pre.sender_of(k)
}

/// What registering `id` does: the id is present with no subscriptions,
/// owning exactly the channel it was given, and nobody else moves.
pub open spec fn register_effect(
    pre: Registry,
    post: Registry,
    id: u128,
    sender: tokio::sync::mpsc::UnboundedSender<WiMessage>,
) -> bool {
    &&& post.has_id(id)
    &&& post.addr_seq_of(id) == Seq::<Address>::empty()
    &&& post.sender_of(id) == sender
    &&& others_unchanged(pre, post, id)
}

/// What unregistering `id` does: the id is gone, and nobody else moves.
pub open spec fn unregister_effect(pre: Registry, post: Registry, id: u128) -> bool {
    &&& !post.has_id(id)
    &&& others_unchanged(pre, post, id)
}

/// What subscribing `id` to `addr` does: a no-op for an unknown id or an
/// address already held, otherwise the address is appended; nobody else
/// moves.
pub open spec fn subscribe_effect(pre: Registry, post: Registry, id: u128, addr: Address) -> bool {
    &&& others_unchanged(pre, post, id)
    &&& !pre.has_id(id) ==> post == pre
    &&& pre.has_id(id) ==> {
        &&& post.has_id(id)
        &&& post.sender_of(id) == pre.sender_of(id)
        &&& post.addr_seq_of(id) == if pre.addr_seq_of(id).contains(addr) {
            pre.addr_seq_of(id)
        } else {
            pre.addr_seq_of(id).push(addr)
        }
    }
}

/// What unsubscribing `id` from `addr` does: exactly that address is no
/// longer held (the others keep their order); nobody else moves.
pub open spec fn unsubscribe_effect(pre: Registry, post: Registry, id: u128, addr: Address) -> bool {
    &&& others_unchanged(pre, post, id)
    &&& !pre.has_id(id) ==> post == pre
    &&& pre.has_id(id) ==> {
        &&& post.has_id(id)
        &&& post.sender_of(id) == pre.sender_of(id)
        &&& forall|a: Address| post.addr_seq_of(id).contains(a) == (pre.addr_seq_of(id).contains(
            a,
        ) && a != addr)
        &&& post.addr_seq_of(id).len() == if pre.addr_seq_of(id).contains(addr) {
            pre.addr_seq_of(id).len() - 1
        } else {
            pre.addr_seq_of(id).len() as int
        }
    }
}

impl Registry {
    /// Ids are unique and every entry is well-formed.
    pub open spec fn wf(self) -> bool {
        &&& forall|i: int, j: int|
            0 <= i < j < self.clients@.len() ==> (#[trigger] self.clients@[i]).id != (
            #[trigger] self.clients@[j]).id
        &&& forall|i: int| 0 <= i < self.clients@.len() ==> (#[trigger] self.clients@[i]).wf()
    }

    /// A client with this id is registered.
    pub open spec fn has_id(self, id: u128) -> bool {
        exists|i: int| 0 <= i < self.clients@.len() && (#[trigger] self.clients@[i]).id == id
    }

    /// Index of the client with this id (meaningful when `has_id`).
    pub open spec fn idx_of(self, id: u128) -> int {
        choose|i: int| 0 <= i < self.clients@.len() && (#[trigger] self.clients@[i]).id == id
    }

    /// The addresses held by the client with this id, in subscription
    /// order.
    pub open spec fn addr_seq_of(self, id: u128) -> Seq<Address> {
        self.clients@[self.idx_of(id)].addresses@
    }

    /// The outbound channel owned by the client with this id.
    pub open spec fn sender_of(self, id: u128) -> tokio::sync::mpsc::UnboundedSender<WiMessage> {
        self.clients@[self.idx_of(id)].sender
    }

    /// With unique ids, any index holding `id` is the index of `id`.
    proof fn lemma_idx_of_is(self, j: int, id: u128)
        requires
            self.wf(),
            0 <= j < self.clients@.len(),
            self.clients@[j].id == id,
        ensures
            self.has_id(id),
            self.idx_of(id) == j,
    {
        assert(self.has_id(id));
        let i = self.idx_of(id);
        assert(0 <= i < self.clients@.len() && self.clients@[i].id == id);
        if i < j {
            assert(self.clients@[i].id != self.clients@[j].id);
        } else if j < i {
            assert(self.clients@[j].id != self.clients@[i].id);
        }
    }

    pub fn new() -> (r: Registry)
        ensures
            r.wf(),
            r.clients@.len() == 0,
            forall|k: u128| !r.has_id(k),
    {
        Registry { clients: Vec::new() }
    }

    /// Index of the client with this id, if one is registered.
    fn find_idx(&self, id: u128) -> (r: Option<usize>)
        ensures
            match r {
                Some(j) => j < self.clients@.len() && self.clients@[j as int].id == id,
                None => !self.has_id(id),
            },
    {
        let mut i: usize = 0;
        while i < self.clients.len()
            invariant
                i <= self.clients@.len(),
                forall|k: int| 0 <= k < i ==> (#[trigger] self.clients@[k]).id != id,
            decreases self.clients@.len() - i,
        {
            if self.clients[i].id == id {
                return Some(i);
            }
            i = i + 1;
        }
        None
    }

    /// Creates (or resets) the entry for `id` with no subscriptions,
    /// owning the connection's outbound channel.
    pub fn register(&mut self, id: u128, sender: tokio::sync::mpsc::UnboundedSender<WiMessage>)
        requires
            old(self).wf(),
        ensures
            final(self).wf(),
            register_effect(*old(self), *final(self), id, sender),
    {
        let found = self.find_idx(id);
        match found {
            Some(j) => {
                let _departing = self.clients.remove(j);
                self.clients.insert(j, Client::new(id, sender));
                proof {
                    assert(self.clients@ =~= old(self).clients@.update(j as int, self.clients@[j as int]));
                    self.lemma_replace_at(*old(self), j as int, id);
                }
            }
            None => {
                self.clients.push(Client::new(id, sender));
                proof {
                    self.lemma_append_new(*old(self), id);
                }
            }
        }
    }

    /// After replacing index `j` (same id, still well-formed), the
    /// registry is well-formed, `id` is at `j` in both states, and
    /// everyone else is untouched.
    proof fn lemma_replace_at(self, pre: Registry, j: int, id: u128)
        requires
            pre.wf(),
            0 <= j < pre.clients@.len(),
            self.clients@.len() == pre.clients@.len(),
            pre.clients@[j].id == id,
            self.clients@[j].id == id,
            self.clients@[j].wf(),
            forall|i: int|
                0 <= i < pre.clients@.len() && i != j ==> self.clients@[i] == pre.clients@[i],
        ensures
            self.wf(),
            self.has_id(id),
            self.idx_of(id) == j,
            pre.idx_of(id) == j,
            self.addr_seq_of(id) == self.clients@[j].addresses@,
            self.sender_of(id) == self.clients@[j].sender,
            pre.sender_of(id) == pre.clients@[j].sender,
            others_unchanged(pre, self, id),
    {
        assert forall|a: int, b: int| 0 <= a < b < self.clients@.len() implies (
        #[trigger] self.clients@[a]).id != (#[trigger] self.clients@[b]).id by {
            assert(pre.clients@[a].id != pre.clients@[b].id);
        }
        assert forall|i: int| 0 <= i < self.clients@.len() implies (
        #[trigger] self.clients@[i]).wf() by {
            if i != j {
                assert(pre.clients@[i].wf());
            }
        }
        self.lemma_idx_of_is(j, id);
        pre.lemma_idx_of_is(j, id);
        assert forall|k: u128| k != id implies self.has_id(k) == pre.has_id(k) by {
            if pre.has_id(k) {
                let i = pre.idx_of(k);
                assert(self.clients@[i].id == k);
            }
            if self.has_id(k) {
                let i = self.idx_of(k);
                assert(pre.clients@[i].id == k);
            }
        }
        assert forall|k: u128|
            k != id && pre.has_id(k) implies self.addr_seq_of(k) == pre.addr_seq_of(k)
            && self.sender_of(k) == pre.sender_of(k) by {
            let i = pre.idx_of(k);
            assert(pre.clients@[i].id == k);
            assert(i != j);
            self.lemma_idx_of_is(i, k);
        }
    }

    /// After appending a fresh, well-formed entry for an id nobody held,
    /// the registry is well-formed, the id is at the last index, and
    /// everyone else is untouched.
    proof fn lemma_append_new(self, pre: Registry, id: u128)
        requires
            pre.wf(),
            !pre.has_id(id),
            self.clients@.len() == pre.clients@.len() + 1,
            self.clients@.last().id == id,
            self.clients@.last().wf(),
            forall|i: int| 0 <= i < pre.clients@.len() ==> self.clients@[i] == pre.clients@[i],
        ensures
            self.wf(),
            self.has_id(id),
            self.idx_of(id) == pre.clients@.len(),
            self.addr_seq_of(id) == self.clients@.last().addresses@,
            self.sender_of(id) == self.clients@.last().sender,
            others_unchanged(pre, self, id),
    {
        let n = pre.clients@.len() as int;
        assert forall|a: int, b: int| 0 <= a < b < self.clients@.len() implies (
        #[trigger] self.clients@[a]).id != (#[trigger] self.clients@[b]).id by {
            if b < n {
                assert(pre.clients@[a].id != pre.clients@[b].id);
            } else {
                assert(pre.clients@[a].id != id);
            }
        }
        assert forall|i: int| 0 <= i < self.clients@.len() implies (
        #[trigger] self.clients@[i]).wf() by {
            if i < n {
                assert(pre.clients@[i].wf());
            }
        }
        self.lemma_idx_of_is(n, id);
        assert forall|k: u128| k != id implies self.has_id(k) == pre.has_id(k) by {
            if pre.has_id(k) {
                let i = pre.idx_of(k);
                assert(self.clients@[i].id == k);
            }
            if self.has_id(k) {
                let i = self.idx_of(k);
                assert(i < n);
                assert(pre.clients@[i].id == k);
            }
        }
        assert forall|k: u128|
            k != id && pre.has_id(k) implies self.addr_seq_of(k) == pre.addr_seq_of(k)
            && self.sender_of(k) == pre.sender_of(k) by {
            let i = pre.idx_of(k);
            assert(pre.clients@[i].id == k);
            self.lemma_idx_of_is(i, k);
        }
    }

    /// Removes the entry for `id`, handing back the departing client
    /// with the addresses it still held.
    pub fn unregister(&mut self, id: u128) -> (r: Option<Client>)
        requires
            old(self).wf(),
        ensures
            final(self).wf(),
            unregister_effect(*old(self), *final(self), id),
            match r {
                Some(c) => {
                    &&& old(self).has_id(id)
                    &&& c.id == id
                    &&& c.wf()
                    &&& c.addresses@ == old(self).addr_seq_of(id)
                    &&& c.sender == old(self).sender_of(id)
                },
                None => {
                    &&& !old(self).has_id(id)
                    &&& *final(self) == *old(self)
                },
            },
    {
        let found = self.find_idx(id);
        match found {
            Some(j) => {
                let departing = self.clients.remove(j);
                proof {
                    old(self).lemma_idx_of_is(j as int, id);
                    self.lemma_drop_at(*old(self), j as int, id);
                }
                Some(departing)
            }
            None => None,
        }
    }

    /// After removing index `j`, the registry is well-formed, the id is
    /// gone, and everyone else is untouched.
    proof fn lemma_drop_at(self, pre: Registry, j: int, id: u128)
        requires
            pre.wf(),
            0 <= j < pre.clients@.len(),
            pre.clients@[j].id == id,
            self.clients@ == pre.clients@.remove(j),
        ensures
            self.wf(),
            unregister_effect(pre, self, id),
    {
        assert forall|a: int, b: int| 0 <= a < b < self.clients@.len() implies (
        #[trigger] self.clients@[a]).id != (#[trigger] self.clients@[b]).id by {
            let pa: int = if a < j { a } else { a + 1 };
            let pb: int = if b < j { b } else { b + 1 };
            assert(self.clients@[a] == pre.clients@[pa]);
            assert(self.clients@[b] == pre.clients@[pb]);
            assert(pre.clients@[pa].id != pre.clients@[pb].id);
        }
        assert forall|i: int| 0 <= i < self.clients@.len() implies (
        #[trigger] self.clients@[i]).wf() by {
            let pi: int = if i < j { i } else { i + 1 };
            assert(self.clients@[i] == pre.clients@[pi]);
            assert(pre.clients@[pi].wf());
        }
        assert(!self.has_id(id)) by {
            if self.has_id(id) {
                let i = self.idx_of(id);
                let pi: int = if i < j { i } else { i + 1 };
                assert(pre.clients@[pi].id == id);
                assert(pi != j ==> pre.clients@[pi].id != pre.clients@[j].id);
            }
        }
        assert forall|k: u128| k != id implies self.has_id(k) == pre.has_id(k) by {
            if pre.has_id(k) {
                let i = pre.idx_of(k);
                assert(pre.clients@[i].id == k);
                assert(i != j);
                let si: int = if i < j { i } else { i - 1 };
                assert(self.clients@[si] == pre.clients@[i]);
            }
            if self.has_id(k) {
                let i = self.idx_of(k);
                let pi: int = if i < j { i } else { i + 1 };
                assert(pre.clients@[pi].id == k);
            }
        }
        assert forall|k: u128|
            k != id && pre.has_id(k) implies self.addr_seq_of(k) == pre.addr_seq_of(k)
            && self.sender_of(k) == pre.sender_of(k) by {
            let i = pre.idx_of(k);
            assert(pre.clients@[i].id == k);
            assert(i != j);
            let si: int = if i < j { i } else { i - 1 };
            assert(self.clients@[si] == pre.clients@[i]);
            self.lemma_idx_of_is(si, k);
        }
    }

    /// Records `id`'s interest in `address`; holding an address twice is
    /// impossible, and an unknown id is ignored.
    pub fn subscribe(&mut self, id: u128, address: Address)
        requires
            old(self).wf(),
        ensures
            final(self).wf(),
            subscribe_effect(*old(self), *final(self), id, address),
    {
        let found = self.find_idx(id);
        match found {
            None => {}
            Some(j) => {
                proof {
                    old(self).lemma_idx_of_is(j as int, id);
                }
                let mut c = self.clients.remove(j);
                if !vec_contains_addr(&c.addresses, address) {
                    c.addresses.push(address);
                }
                self.clients.insert(j, c);
                proof {
                    assert(self.clients@ =~= old(self).clients@.update(
                        j as int,
                        self.clients@[j as int],
                    ));
                    self.lemma_replace_at(*old(self), j as int, id);
                }
            }
        }
    }

    /// Withdraws `id`'s interest in `address`; an unknown id or an
    /// address not held is ignored.
    pub fn unsubscribe(&mut self, id: u128, address: Address)
        requires
            old(self).wf(),
        ensures
            final(self).wf(),
            unsubscribe_effect(*old(self), *final(self), id, address),
    {
        let found = self.find_idx(id);
        match found {
            None => {}
            Some(j) => {
                proof {
                    old(self).lemma_idx_of_is(j as int, id);
                }
                let mut c = self.clients.remove(j);
                remove_addr(&mut c.addresses, address);
                self.clients.insert(j, c);
                proof {
                    assert(self.clients@ =~= old(self).clients@.update(
                        j as int,
                        self.clients@[j as int],
                    ));
                    self.lemma_replace_at(*old(self), j as int, id);
                }
            }
        }
    }

    /// Sends `m` to every registered client's outbound channel,
    /// returning the recipients' ids in registration order. A refused
    /// send (a closing session) skips nobody else.
    pub fn broadcast_all(&self, m: WiMessage) -> (sent: Vec<u128>)
        ensures
            sent@ == ids_of(self.clients@),
    {
        let mut sent: Vec<u128> = Vec::new();
        let mut i: usize = 0;
        while i < self.clients.len()
            invariant
                i <= self.clients@.len(),
                sent@ == ids_of(self.clients@.subrange(0, i as int)),
            decreases self.clients@.len() - i,
        {
            chan_send(&self.clients[i].sender, m);
            sent.push(self.clients[i].id);
            proof {
                assert(self.clients@.subrange(0, i + 1 as int).drop_last() =~= self.clients@.subrange(
                    0,
                    i as int,
                ));
                assert(self.clients@.subrange(0, i + 1 as int).last() == self.clients@[i as int]);
            }
            i = i + 1;
        }
        proof {
            assert(self.clients@.subrange(0, self.clients@.len() as int) =~= self.clients@);
        }
        sent
    }

    /// Sends `m` to exactly the clients subscribed to `address`,
    /// returning their ids in registration order. A refused send (a
    /// closing session) skips nobody else.
    pub fn route_by_address(&self, address: Address, m: WiMessage) -> (sent: Vec<u128>)
        ensures
            sent@ == route_ids(self.clients@, address),
    {
        let mut sent: Vec<u128> = Vec::new();
        let mut i: usize = 0;
        while i < self.clients.len()
            invariant
                i <= self.clients@.len(),
                sent@ == route_ids(self.clients@.subrange(0, i as int), address),
            decreases self.clients@.len() - i,
        {
            if vec_contains_addr(&self.clients[i].addresses, address) {
                chan_send(&self.clients[i].sender, m);
                sent.push(self.clients[i].id);
            }
            proof {
                assert(self.clients@.subrange(0, i + 1 as int).drop_last() =~= self.clients@.subrange(
                    0,
                    i as int,
                ));
                assert(self.clients@.subrange(0, i + 1 as int).last() == self.clients@[i as int]);
            }
            i = i + 1;
        }
        proof {
            assert(self.clients@.subrange(0, self.clients@.len() as int) =~= self.clients@);
        }
        sent
    }
}

/// A row's id list holds `k` exactly when some client of the row has
/// id `k`.
proof fn lemma_ids_of_contains(ss: Seq<Client>, k: u128)
    ensures
        ids_of(ss).contains(k) <==> exists|i: int|
            0 <= i < ss.len() && (#[trigger] ss[i]).id == k,
    decreases ss.len(),
{
    if ss.len() > 0 {
        lemma_ids_of_contains(ss.drop_last(), k);
        if ids_of(ss).contains(k) {
            let p = choose|p: int| 0 <= p < ids_of(ss).len() && ids_of(ss)[p] == k;
            if p < ids_of(ss.drop_last()).len() {
                assert(ids_of(ss.drop_last()).contains(k));
            } else {
                assert(ss.last() == ss[ss.len() - 1]);
            }
        }
        if exists|i: int| 0 <= i < ss.len() && (#[trigger] ss[i]).id == k {
            let i = choose|i: int| 0 <= i < ss.len() && (#[trigger] ss[i]).id == k;
            if i < ss.len() - 1 {
                assert(ss.drop_last()[i].id == k);
                assert(ids_of(ss.drop_last()).contains(k));
                let p = choose|p: int|
                    0 <= p < ids_of(ss.drop_last()).len() && ids_of(ss.drop_last())[p] == k;
                assert(ids_of(ss)[p] == k);
            } else {
                assert(ids_of(ss).last() == k);
            }
        }
    }
}

/// A row's route list for `address` holds `k` exactly when some client
/// of the row has id `k` and subscribes to `address`.
proof fn lemma_route_ids_contains(ss: Seq<Client>, address: Address, k: u128)
    ensures
        route_ids(ss, address).contains(k) <==> exists|i: int|
            0 <= i < ss.len() && (#[trigger] ss[i]).id == k && ss[i].addresses@.contains(address),
    decreases ss.len(),
{
    if ss.len() > 0 {
        lemma_route_ids_contains(ss.drop_last(), address, k);
        let rest = route_ids(ss.drop_last(), address);
        if route_ids(ss, address).contains(k) {
            let p = choose|p: int|
                0 <= p < route_ids(ss, address).len() && route_ids(ss, address)[p] == k;
            if p < rest.len() {
                assert(rest.contains(k));
            } else {
                assert(ss.last() == ss[ss.len() - 1]);
            }
        }
        if exists|i: int|
            0 <= i < ss.len() && (#[trigger] ss[i]).id == k && ss[i].addresses@.contains(address) {
            let i = choose|i: int|
                0 <= i < ss.len() && (#[trigger] ss[i]).id == k && ss[i].addresses@.contains(
                    address,
                );
            if i < ss.len() - 1 {
                assert(ss.drop_last()[i].id == k && ss.drop_last()[i].addresses@.contains(address));
                assert(rest.contains(k));
                let p = choose|p: int| 0 <= p < rest.len() && rest[p] == k;
                assert(route_ids(ss, address)[p] == k);
            } else {
                assert(route_ids(ss, address).last() == k);
            }
        }
    }
}

/// With unique ids, the id list repeats nobody and counts everybody.
proof fn lemma_ids_of_unique(ss: Seq<Client>)
    requires
        forall|i: int, j: int|
            0 <= i < j < ss.len() ==> (#[trigger] ss[i]).id != (#[trigger] ss[j]).id,
    ensures
        ids_of(ss).no_duplicates(),
        ids_of(ss).len() == ss.len(),
    decreases ss.len(),
{
    if ss.len() > 0 {
        let rest = ss.drop_last();
        lemma_ids_of_unique(rest);
        lemma_ids_of_contains(rest, ss.last().id);
        assert(!ids_of(rest).contains(ss.last().id)) by {
            if exists|i: int| 0 <= i < rest.len() && (#[trigger] rest[i]).id == ss.last().id {
                let i = choose|i: int| 0 <= i < rest.len() && (#[trigger] rest[i]).id == ss.last().id;
                assert(ss[i].id != ss[ss.len() - 1].id);
            }
        }
        let whole = ids_of(rest).push(ss.last().id);
        assert forall|p: int, q: int|
            0 <= p < whole.len() && 0 <= q < whole.len() && p != q implies whole[p] != whole[q] by {
            if p < whole.len() - 1 && q < whole.len() - 1 {
            } else if p == whole.len() - 1 {
                assert(ids_of(rest).contains(whole[q]));
            } else if q == whole.len() - 1 {
                assert(ids_of(rest).contains(whole[p]));
            }
        }
    }
}

/// With unique ids, the route list repeats nobody.
proof fn lemma_route_ids_unique(ss: Seq<Client>, address: Address)
    requires
        forall|i: int, j: int|
            0 <= i < j < ss.len() ==> (#[trigger] ss[i]).id != (#[trigger] ss[j]).id,
    ensures
        route_ids(ss, address).no_duplicates(),
    decreases ss.len(),
{
    if ss.len() > 0 {
        let rest = ss.drop_last();
        lemma_route_ids_unique(rest, address);
        if ss.last().addresses@.contains(address) {
            lemma_route_ids_contains(rest, address, ss.last().id);
            assert(!route_ids(rest, address).contains(ss.last().id)) by {
                if exists|i: int|
                    0 <= i < rest.len() && (#[trigger] rest[i]).id == ss.last().id
                        && rest[i].addresses@.contains(address) {
                    let i = choose|i: int|
                        0 <= i < rest.len() && (#[trigger] rest[i]).id == ss.last().id
                            && rest[i].addresses@.contains(address);
                    assert(ss[i].id != ss[ss.len() - 1].id);
                }
            }
            let whole = route_ids(rest, address).push(ss.last().id);
            assert forall|p: int, q: int|
                0 <= p < whole.len() && 0 <= q < whole.len() && p != q implies whole[p]
                != whole[q] by {
                if p < whole.len() - 1 && q < whole.len() - 1 {
                } else if p == whole.len() - 1 {
                    assert(route_ids(rest, address).contains(whole[q]));
                } else if q == whole.len() - 1 {
                    assert(route_ids(rest, address).contains(whole[p]));
                }
            }
        }
    }
}

impl Registry {
    /// Law: a broadcast reaches every registered session and nobody
    /// else — the recipients of `broadcast_all` are exactly the
    /// registered ids, irrespective of subscriptions.
    pub proof fn lemma_broadcast_targets(self, k: u128)
        ensures
            ids_of(self.clients@).contains(k) <==> self.has_id(k),
    {
        lemma_ids_of_contains(self.clients@, k);
    }

    /// Law: a broadcast reaches each registered session exactly once —
    /// one recipient entry per entry of the directory.
    pub proof fn lemma_broadcast_once(self)
        requires
            self.wf(),
        ensures
            ids_of(self.clients@).no_duplicates(),
            ids_of(self.clients@).len() == self.clients@.len(),
    {
        lemma_ids_of_unique(self.clients@);
    }

    /// Law: routing by address reaches each subscribed session at most
    /// once.
    pub proof fn lemma_route_once(self, address: Address)
        requires
            self.wf(),
        ensures
            route_ids(self.clients@, address).no_duplicates(),
    {
        lemma_route_ids_unique(self.clients@, address);
    }

    /// Law: routing by address reaches exactly the sessions subscribed
    /// to that address — a session without the subscription receives
    /// nothing from `route_by_address`.
    pub proof fn lemma_route_targets(self, address: Address, k: u128)
        requires
            self.wf(),
        ensures
            route_ids(self.clients@, address).contains(k) <==> (self.has_id(k)
                && self.addr_seq_of(k).contains(address)),
    {
        lemma_route_ids_contains(self.clients@, address, k);
        if route_ids(self.clients@, address).contains(k) {
            let i = choose|i: int|
                0 <= i < self.clients@.len() && (#[trigger] self.clients@[i]).id == k
                    && self.clients@[i].addresses@.contains(address);
            self.lemma_idx_of_is(i, k);
        }
        if self.has_id(k) && self.addr_seq_of(k).contains(address) {
            let i = self.idx_of(k);
            assert(0 <= i < self.clients@.len() && self.clients@[i].id == k
                && self.clients@[i].addresses@.contains(address));
        }
    }
}

/// Whether the address list holds `a`.
fn vec_contains_addr(v: &Vec<Address>, a: Address) -> (r: bool)
    ensures
        r == v@.contains(a),
{
    let mut i: usize = 0;
    while i < v.len()
        invariant
            i <= v@.len(),
            forall|k: int| 0 <= k < i ==> v@[k] != a,
        decreases v@.len() - i,
    {
        if v[i] == a {
            proof {
                assert(v@[i as int] == a);
            }
            return true;
        }
        i = i + 1;
    }
    false
}

/// Removes the (sole) occurrence of `a`, keeping the others in order.
fn remove_addr(v: &mut Vec<Address>, a: Address)
    requires
        old(v)@.no_duplicates(),
    ensures
        final(v)@.no_duplicates(),
        forall|x: Address| final(v)@.contains(x) == (old(v)@.contains(x) && x != a),
        final(v)@.len() == if old(v)@.contains(a) {
            old(v)@.len() - 1
        } else {
            old(v)@.len() as int
        },
{
    let mut i: usize = 0;
    while i < v.len()
        invariant
            i <= v@.len(),
            v@ == old(v)@,
            old(v)@.no_duplicates(),
            forall|k: int| 0 <= k < i ==> v@[k] != a,
        decreases v@.len() - i,
    {
        if v[i] == a {
            proof {
                assert(old(v)@[i as int] == a);
                assert(old(v)@.contains(a));
            }
            v.remove(i);
            proof {
                lemma_remove_unique(old(v)@, i as int, a);
            }
            return;
        }
        i = i + 1;
    }
    proof {
        assert(!v@.contains(a)) by {
            if v@.contains(a) {
                let k = choose|k: int| 0 <= k < v@.len() && v@[k] == a;
            }
        }
    }
}

/// Removing the sole occurrence of a value from a duplicate-free row
/// keeps it duplicate-free and drops exactly that value.
proof fn lemma_remove_unique(s: Seq<Address>, j: int, a: Address)
    requires
        s.no_duplicates(),
        0 <= j < s.len(),
        s[j] == a,
        forall|k: int| 0 <= k < j ==> s[k] != a,
    ensures
        s.remove(j).no_duplicates(),
        forall|x: Address| s.remove(j).contains(x) == (s.contains(x) && x != a),
        s.remove(j).len() == s.len() - 1,
{
    let r = s.remove(j);
    assert forall|x: Address| r.contains(x) == (s.contains(x) && x != a) by {
        if r.contains(x) {
            let i = choose|i: int| 0 <= i < r.len() && r[i] == x;
            let pi: int = if i < j { i } else { i + 1 };
            assert(s[pi] == x);
            assert(s.contains(x));
            if x == a {
                assert(pi != j);
                assert(s[pi] == s[j]);
            }
        }
        if s.contains(x) && x != a {
            let i = choose|i: int| 0 <= i < s.len() && s[i] == x;
            assert(i != j);
            let ri: int = if i < j { i } else { i - 1 };
            assert(r[ri] == x);
            assert(r.contains(x));
        }
    }
    assert forall|p: int, q: int| 0 <= p < q < r.len() implies r[p] != r[q] by {
        let pp: int = if p < j { p } else { p + 1 };
        let qq: int = if q < j { q } else { q + 1 };
        assert(r[p] == s[pp]);
        assert(r[q] == s[qq]);
    }
}

} // verus!
