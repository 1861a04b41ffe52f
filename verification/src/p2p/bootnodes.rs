//! The nodes that are dialed first, grouped by the peer that they stand for.
use vstd::prelude::*;

use crate::bytes::{bytes_equal, copy_bytes};

verus! {

/// A part of an address.
#[derive(Debug, PartialEq, Eq)]
pub enum Protocol {
    /// The identity of the peer.
    P2p(Vec<u8>),
    /// A relay through the peer.
    P2pCircuit,
    /// Any other part, in its own encoding.
    Other(Vec<u8>),
}

/// An address: how to get to a peer, part by part.
#[derive(Debug, PartialEq, Eq)]
pub struct Multiaddr {
    pub parts: Vec<Protocol>,
}

/// A part of an address, over byte sequences.
pub enum Part {
    P2p(Seq<u8>),
    P2pCircuit,
    Other(Seq<u8>),
}

impl View for Protocol {
    type V = Part;

    open spec fn view(&self) -> Part {
        match self {
            Protocol::P2p(id) => Part::P2p(id@),
            Protocol::P2pCircuit => Part::P2pCircuit,
            Protocol::Other(bytes) => Part::Other(bytes@),
        }
    }
}

impl View for Multiaddr {
    type V = Seq<Part>;

    open spec fn view(&self) -> Seq<Part> {
        self.parts@.map_values(|p: Protocol| p@)
    }
}

/// The identity of the peer that an address stands for: the first that it holds.
pub open spec fn peer_of(addr: Seq<Part>) -> Option<Seq<u8>>
    decreases addr.len(),
{
    if addr.len() == 0 {
        None
    } else {
        match peer_of(addr.drop_last()) {
            Some(id) => Some(id),
            None => match addr.last() {
                Part::P2p(id) => Some(id),
                _ => None,
            },
        }
    }
}

/// An address that does not say whom it leads to.
#[derive(Clone, Copy, Debug, PartialEq, Eq, Structural)]
pub struct MissingPeerId;

fn copy_protocol(p: &Protocol) -> (r: Protocol)
    ensures
        r@ == p@,
{
    match p {
        Protocol::P2p(id) => Protocol::P2p(copy_bytes(id.as_slice())),
        Protocol::P2pCircuit => Protocol::P2pCircuit,
        Protocol::Other(bytes) => Protocol::Other(copy_bytes(bytes.as_slice())),
    }
}

impl Multiaddr {
    pub fn copy(&self) -> (r: Self)
        ensures
            r@ == self@,
    {
        let mut parts: Vec<Protocol> = Vec::new();
        let mut i: usize = 0;
        while i < self.parts.len()
            invariant
                i <= self.parts@.len(),
                parts@.len() == i,
                forall|j: int| 0 <= j < i ==> (#[trigger] parts@[j])@ == self.parts@[j]@,
            decreases self.parts@.len() - i,
        {
            parts.push(copy_protocol(&self.parts[i]));
            i = i + 1;
        }
        let r = Multiaddr { parts };
        assert(r@ =~= self@);
        r
    }

    /// The address with a part more at its end.
    pub fn with(self, p: Protocol) -> (r: Self)
        ensures
            r@ == self@.push(p@),
    {
        let ghost before = self@;
        let ghost last = p@;
        let mut parts = self.parts;
        parts.push(p);
        let r = Multiaddr { parts };
        assert(r@ =~= before.push(last));
        r
    }

    /// The address on which to listen for connections that are relayed by the peer.
    pub fn relay_listener(&self) -> (r: Self)
        ensures
            r@ == self@.push(Part::P2pCircuit),
    {
        self.copy().with(Protocol::P2pCircuit)
    }
}

/// The identity of the peer that an address stands for.
pub fn ensure_peer_id_in_multiaddr(addr: &Multiaddr) -> (r: Result<Vec<u8>, MissingPeerId>)
    ensures
        match peer_of(addr@) {
            Some(id) => r matches Ok(peer) && peer@ == id,
            None => r == Err::<Vec<u8>, MissingPeerId>(MissingPeerId),
        },
{
    let mut i: usize = 0;
    assert(addr@.subrange(0, 0) =~= Seq::<Part>::empty());
    while i < addr.parts.len()
        invariant
            i <= addr.parts@.len(),
            peer_of(addr@.subrange(0, i as int)) is None,
        decreases addr.parts@.len() - i,
    {
        proof {
            let done = addr@.subrange(0, i + 1);
            assert(done.drop_last() =~= addr@.subrange(0, i as int));
            assert(done.last() == addr.parts@[i as int]@);
            if peer_of(done) is Some {
                lemma_peer_found(addr@, i + 1);
            }
        }
        match &addr.parts[i] {
            Protocol::P2p(id) => {
                return Ok(copy_bytes(id.as_slice()));
            },
            _ => {},
        }
        i = i + 1;
    }
    assert(addr@.subrange(0, i as int) =~= addr@);
    Err(MissingPeerId)
}

proof fn lemma_peer_found(addr: Seq<Part>, n: int)
    requires
        0 <= n <= addr.len(),
        peer_of(addr.subrange(0, n)) is Some,
    ensures
        peer_of(addr) == peer_of(addr.subrange(0, n)),
    decreases addr.len() - n,
{
    if n == addr.len() {
        assert(addr.subrange(0, n) =~= addr);
    } else {
        assert(addr.subrange(0, n + 1).drop_last() =~= addr.subrange(0, n));
        lemma_peer_found(addr, n + 1);
    }
}

/// A peer with its addresses.
#[derive(Debug)]
pub struct PeerAddresses {
    pub peer_id: Vec<u8>,
    pub addresses: Vec<Multiaddr>,
}

/// The addresses that stand for a peer, in order.
pub open spec fn addresses_of(addrs: Seq<Seq<Part>>, peer: Seq<u8>) -> Seq<Seq<Part>>
    decreases addrs.len(),
{
    if addrs.len() == 0 {
        Seq::empty()
    } else {
        let front = addresses_of(addrs.drop_last(), peer);
        if peer_of(addrs.last()) == Some(peer) {
            front.push(addrs.last())
        } else {
            front
        }
    }
}

/// The parts of addresses.
pub open spec fn address_views(addrs: Seq<Multiaddr>) -> Seq<Seq<Part>> {
    addrs.map_values(|a: Multiaddr| a@)
}

/// Each group holds the addresses of its peer, no peer has two groups, and every peer that an
/// address stands for has one.
pub open spec fn is_grouped(groups: Seq<PeerAddresses>, addrs: Seq<Seq<Part>>) -> bool {
    &&& forall|i: int|
        #![trigger groups[i]]
        0 <= i < groups.len() ==> address_views(groups[i].addresses@) == addresses_of(
            addrs,
            groups[i].peer_id@,
        ) && groups[i].addresses@.len() > 0
    &&& forall|i: int, j: int|
        #![trigger groups[i], groups[j]]
        0 <= i < j < groups.len() ==> groups[i].peer_id@ != groups[j].peer_id@
    &&& forall|k: int|
        #![trigger addrs[k]]
        0 <= k < addrs.len() && peer_of(addrs[k]) is Some ==> exists|i: int|
            0 <= i < groups.len() && (#[trigger] groups[i]).peer_id@ == peer_of(addrs[k])->0
}

/// A peer without a group has no addresses.
proof fn lemma_no_addresses(addrs: Seq<Seq<Part>>, peer: Seq<u8>)
    requires
        forall|k: int| 0 <= k < addrs.len() ==> peer_of(#[trigger] addrs[k]) != Some(peer),
    ensures
        addresses_of(addrs, peer).len() == 0,
    decreases addrs.len(),
{
    if addrs.len() > 0 {
        let front = addrs.drop_last();
        assert(forall|k: int| 0 <= k < front.len() ==> front[k] == addrs[k]);
        lemma_no_addresses(front, peer);
        assert(peer_of(addrs[addrs.len() - 1]) != Some(peer));
    }
}

/// The group of a peer, where it has one.
fn find_group(groups: &Vec<PeerAddresses>, peer: &Vec<u8>) -> (r: Option<usize>)
    ensures
        match r {
            Some(i) => i < groups@.len() && groups@[i as int].peer_id@ == peer@,
            None => forall|i: int|
                0 <= i < groups@.len() ==> (#[trigger] groups@[i]).peer_id@ != peer@,
        },
{
    let mut i: usize = 0;
    while i < groups.len()
        invariant
            i <= groups@.len(),
            forall|j: int| 0 <= j < i ==> (#[trigger] groups@[j]).peer_id@ != peer@,
        decreases groups@.len() - i,
    {
        if bytes_equal(groups[i].peer_id.as_slice(), peer.as_slice()) {
            return Some(i);
        }
        i = i + 1;
    }
    None
}

/// Groups addresses by their peers. An address that does not say whom it leads to is left out.
pub fn group_by_peer(addresses: &Vec<Multiaddr>) -> (r: Vec<PeerAddresses>)
    ensures
        is_grouped(r@, address_views(addresses@)),
{
    let ghost all = address_views(addresses@);
    let mut groups: Vec<PeerAddresses> = Vec::new();
    let mut k: usize = 0;
    while k < addresses.len()
        invariant
            k <= addresses@.len(),
            all == address_views(addresses@),
            is_grouped(groups@, all.subrange(0, k as int)),
        decreases addresses@.len() - k,
    {
        let ghost before = groups@;
        let ghost seen = all.subrange(0, k as int);
        let ghost more = all.subrange(0, k + 1);
        proof {
            assert(more.drop_last() =~= seen);
            assert(more.last() == addresses@[k as int]@);
            assert(more =~= seen.push(addresses@[k as int]@));
        }
        match ensure_peer_id_in_multiaddr(&addresses[k]) {
            Err(_) => {
                proof {
                    lemma_grouped_skip(groups@, seen, addresses@[k as int]@);
                }
            },
            Ok(peer) => {
                let address = addresses[k].copy();
                let ghost added = address@;
                match find_group(&groups, &peer) {
                    Some(i) => {
                        let group = groups.remove(i);
                        let mut list = group.addresses;
                        let ghost old_views = address_views(list@);
                        list.push(address);
                        assert(address_views(list@) =~= old_views.push(added));
                        let new_group = PeerAddresses { peer_id: group.peer_id, addresses: list };
                        groups.insert(i, new_group);
                        proof {
                            assert(groups@ =~= before.update(i as int, new_group));
                            lemma_grouped_add(before, seen, added, i as int, groups@[i as int]);
                        }
                    },
                    None => {
                        let mut list: Vec<Multiaddr> = Vec::new();
                        list.push(address);
                        assert(address_views(list@) =~= seq![added]);
                        let new_group = PeerAddresses { peer_id: peer, addresses: list };
                        groups.push(new_group);
                        proof {
                            lemma_grouped_new(before, seen, added, new_group);
                        }
                    },
                }
            },
        }
        k = k + 1;
    }
    assert(all.subrange(0, k as int) =~= all);
    groups
}

proof fn lemma_grouped_skip(groups: Seq<PeerAddresses>, seen: Seq<Seq<Part>>, addr: Seq<Part>)
    requires
        is_grouped(groups, seen),
        peer_of(addr) is None,
    ensures
        is_grouped(groups, seen.push(addr)),
{
    let more = seen.push(addr);
    assert(more.drop_last() =~= seen);
    assert forall|k: int|
        #![trigger more[k]]
        0 <= k < more.len() && peer_of(more[k]) is Some implies exists|i: int|
        0 <= i < groups.len() && (#[trigger] groups[i]).peer_id@ == peer_of(more[k])->0 by {
        assert(more[k] == seen[k]);
    }
}

proof fn lemma_grouped_add(
    groups: Seq<PeerAddresses>,
    seen: Seq<Seq<Part>>,
    addr: Seq<Part>,
    at: int,
    group: PeerAddresses,
)
    requires
        is_grouped(groups, seen),
        0 <= at < groups.len(),
        peer_of(addr) == Some(groups[at].peer_id@),
        group.peer_id@ == groups[at].peer_id@,
        address_views(group.addresses@) == address_views(groups[at].addresses@).push(addr),
    ensures
        is_grouped(groups.update(at, group), seen.push(addr)),
{
    let more = seen.push(addr);
    let after = groups.update(at, group);
    assert(more.drop_last() =~= seen);
    assert(address_views(group.addresses@).len() == group.addresses@.len());
    assert forall|i: int| #![trigger after[i]] 0 <= i < after.len() implies address_views(
        after[i].addresses@,
    ) == addresses_of(more, after[i].peer_id@) && after[i].addresses@.len() > 0 by {
        assert(groups[i].addresses@.len() > 0);
        if i != at {
            if i < at {
                assert(groups[i].peer_id@ != groups[at].peer_id@);
            } else {
                assert(groups[at].peer_id@ != groups[i].peer_id@);
            }
        }
    }
    assert forall|i: int, j: int|
        #![trigger after[i], after[j]]
        0 <= i < j < after.len() implies after[i].peer_id@ != after[j].peer_id@ by {
        assert(groups[i].peer_id@ != groups[j].peer_id@);
    }
    assert forall|k: int|
        #![trigger more[k]]
        0 <= k < more.len() && peer_of(more[k]) is Some implies exists|i: int|
        0 <= i < after.len() && (#[trigger] after[i]).peer_id@ == peer_of(more[k])->0 by {
        if k < seen.len() {
            assert(more[k] == seen[k]);
            let i = choose|i: int|
                0 <= i < groups.len() && (#[trigger] groups[i]).peer_id@ == peer_of(seen[k])->0;
            assert(after[i].peer_id@ == peer_of(more[k])->0);
        } else {
            assert(after[at].peer_id@ == peer_of(more[k])->0);
        }
    }
}

proof fn lemma_grouped_new(
    groups: Seq<PeerAddresses>,
    seen: Seq<Seq<Part>>,
    addr: Seq<Part>,
    group: PeerAddresses,
)
    requires
        is_grouped(groups, seen),
        peer_of(addr) == Some(group.peer_id@),
        forall|i: int| 0 <= i < groups.len() ==> (#[trigger] groups[i]).peer_id@ != group.peer_id@,
        address_views(group.addresses@) == seq![addr],
    ensures
        is_grouped(groups.push(group), seen.push(addr)),
{
    let more = seen.push(addr);
    let after = groups.push(group);
    let n = groups.len() as int;
    assert(more.drop_last() =~= seen);
    assert forall|k: int| 0 <= k < seen.len() implies peer_of(#[trigger] seen[k]) != Some(
        group.peer_id@,
    ) by {
        if peer_of(seen[k]) is Some {
            let i = choose|i: int|
                0 <= i < groups.len() && (#[trigger] groups[i]).peer_id@ == peer_of(seen[k])->0;
            assert(groups[i].peer_id@ != group.peer_id@);
        }
    }
    lemma_no_addresses(seen, group.peer_id@);
    assert(addresses_of(more, group.peer_id@) =~= seq![addr]);
    assert(address_views(group.addresses@).len() == group.addresses@.len());
    assert forall|i: int| #![trigger after[i]] 0 <= i < after.len() implies address_views(
        after[i].addresses@,
    ) == addresses_of(more, after[i].peer_id@) && after[i].addresses@.len() > 0 by {
        if i < n {
            assert(after[i] == groups[i]);
        }
    }
    assert forall|i: int, j: int|
        #![trigger after[i], after[j]]
        0 <= i < j < after.len() implies after[i].peer_id@ != after[j].peer_id@ by {
        assert(groups[i].peer_id@ != group.peer_id@);
    }
    assert forall|k: int|
        #![trigger more[k]]
        0 <= k < more.len() && peer_of(more[k]) is Some implies exists|i: int|
        0 <= i < after.len() && (#[trigger] after[i]).peer_id@ == peer_of(more[k])->0 by {
        if k < seen.len() {
            assert(more[k] == seen[k]);
            let i = choose|i: int|
                0 <= i < groups.len() && (#[trigger] groups[i]).peer_id@ == peer_of(seen[k])->0;
            assert(after[i].peer_id@ == peer_of(more[k])->0);
        } else {
            assert(after[n].peer_id@ == peer_of(more[k])->0);
        }
    }
}

/// Whether dialing was a success: where there is nothing to dial it is, and otherwise one peer that
/// was reached is enough.
pub fn dial_outcome(addresses: usize, dialed: &Vec<bool>) -> (r: bool)
    ensures
        r == (addresses == 0 || dialed@.contains(true)),
{
    if addresses == 0 {
        return true;
    }
    let mut i: usize = 0;
    while i < dialed.len()
        invariant
            i <= dialed@.len(),
            addresses > 0,
            forall|j: int| 0 <= j < i ==> !#[trigger] dialed@[j],
        decreases dialed@.len() - i,
    {
        if dialed[i] {
            assert(dialed@[i as int] == true);
            return true;
        }
        i = i + 1;
    }
    false
}

/// The peer of an address is the first that it names; an address that names none has none.
pub proof fn law_peer_is_the_first_named(addr: Seq<Part>)
    ensures
        match peer_of(addr) {
            Some(id) => exists|i: int|
                0 <= i < addr.len() && #[trigger] addr[i] == Part::P2p(id) && forall|j: int|
                    0 <= j < i ==> !(#[trigger] addr[j] is P2p),
            None => forall|j: int| 0 <= j < addr.len() ==> !(#[trigger] addr[j] is P2p),
        },
    decreases addr.len(),
{
    if addr.len() > 0 {
        let front = addr.drop_last();
        law_peer_is_the_first_named(front);
        assert(forall|j: int| 0 <= j < front.len() ==> front[j] == addr[j]);
        match peer_of(front) {
            Some(id) => {
                let i = choose|i: int|
                    0 <= i < front.len() && #[trigger] front[i] == Part::P2p(id) && forall|j: int|
                        0 <= j < i ==> !(#[trigger] front[j] is P2p);
                assert(addr[i] == Part::P2p(id));
            },
            None => {
                if let Part::P2p(id) = addr.last() {
                    assert(addr[addr.len() - 1] == Part::P2p(id));
                }
            },
        }
    }
}

/// Every address that names a peer is in the group of that peer, and in no other; and a group has
/// nothing but addresses of its peer that were given.
pub proof fn law_addresses_are_grouped_by_peer(
    groups: Seq<PeerAddresses>,
    addrs: Seq<Seq<Part>>,
    g: int,
    a: Seq<Part>,
)
    requires
        is_grouped(groups, addrs),
        0 <= g < groups.len(),
    ensures
        address_views(groups[g].addresses@).contains(a) <==> addrs.contains(a) && peer_of(a) == Some(
            groups[g].peer_id@,
        ),
{
    lemma_addresses_of(addrs, groups[g].peer_id@, a);
}

proof fn lemma_addresses_of(addrs: Seq<Seq<Part>>, peer: Seq<u8>, a: Seq<Part>)
    ensures
        addresses_of(addrs, peer).contains(a) <==> addrs.contains(a) && peer_of(a) == Some(peer),
    decreases addrs.len(),
{
    if addrs.len() > 0 {
        let rest = addrs.drop_last();
        lemma_addresses_of(rest, peer, a);
        let front = addresses_of(rest, peer);
        let all = addresses_of(addrs, peer);
        if addrs.contains(a) {
            let i = choose|i: int| 0 <= i < addrs.len() && addrs[i] == a;
            if i < rest.len() {
                assert(rest[i] == a);
            }
        }
        if rest.contains(a) {
            let i = choose|i: int| 0 <= i < rest.len() && rest[i] == a;
            assert(addrs[i] == a);
        }
        if front.contains(a) {
            let i = choose|i: int| 0 <= i < front.len() && front[i] == a;
            assert(all[i] == a);
        }
        if all.contains(a) {
            let i = choose|i: int| 0 <= i < all.len() && all[i] == a;
            if i < front.len() {
                assert(front[i] == a);
            } else {
                assert(addrs[addrs.len() - 1] == a);
            }
        }
        if addrs.last() == a && peer_of(a) == Some(peer) {
            assert(all[all.len() - 1] == a);
        }
    }
}

} // verus!
