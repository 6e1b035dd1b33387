//! The peer directory: live state of each peer id, held in memory over the
//! durable store that the caller runs.

use crate::addr::{IpAddress, SockAddr};
use crate::table::{find_key, index_of, keys_of, lemma_unique_push, unique_keys};
use vstd::prelude::*;

verus! {

/// How far in the past the "expired" instant lies, in milliseconds.
pub const EXPIRED_AGE_MS: u64 = 3_600_000;

/// The "expired" instant that starts the key-registration count of a new live
/// state: one hour before `now`, or `now` itself where the clock has not yet
/// run an hour (the count is 0 then, so no registration is held back).
pub open spec fn expired_time(now: u64) -> u64 {
    if now >= EXPIRED_AGE_MS {
        (now - EXPIRED_AGE_MS) as u64
    } else {
        now
    }
}

/// The "expired" instant that starts a key-registration count.
pub fn get_expired_time(now: u64) -> (r: u64)
    ensures
        r == expired_time(now),
{
    if now >= EXPIRED_AGE_MS {
        now - EXPIRED_AGE_MS
    } else {
        now
    }
}

/// The address a peer carries before it registers: 0.0.0.0:0.
pub open spec fn unset_addr() -> SockAddr {
    SockAddr { ip: IpAddress::V4(0), port: 0 }
}

/// Live state of one peer.
pub struct Peer {
    pub socket_addr: SockAddr,
    /// When the peer last registered; `None` while it has not since it came
    /// into memory, so that it counts as offline.
    pub last_reg_time: Option<u64>,
    pub guid: Vec<u8>,
    pub uuid: Vec<u8>,
    pub pk: Vec<u8>,
    /// The last source ip seen on a key registration, as text.
    pub ip: String,
    /// How many key registrations, and when the last one came.
    pub reg_pk: (u32, u64),
}

pub ghost struct PeerView {
    pub socket_addr: SockAddr,
    pub last_reg_time: Option<u64>,
    pub guid: Seq<u8>,
    pub uuid: Seq<u8>,
    pub pk: Seq<u8>,
    pub ip: Seq<char>,
    pub reg_pk: (u32, u64),
}

impl View for Peer {
    type V = PeerView;

    open spec fn view(&self) -> PeerView {
        PeerView {
            socket_addr: self.socket_addr,
            last_reg_time: self.last_reg_time,
            guid: self.guid@,
            uuid: self.uuid@,
            pk: self.pk@,
            ip: self.ip@,
            reg_pk: self.reg_pk,
        }
    }
}

/// A peer that nothing is known of yet.
pub open spec fn empty_peer(now: u64) -> PeerView {
    PeerView {
        socket_addr: unset_addr(),
        last_reg_time: None,
        guid: Seq::empty(),
        uuid: Seq::empty(),
        pk: Seq::empty(),
        ip: Seq::empty(),
        reg_pk: (0, expired_time(now)),
    }
}

/// A peer loaded from its durable row: offline until it registers again.
pub open spec fn loaded_peer(row: StoredPeer, now: u64) -> PeerView {
    PeerView {
        socket_addr: unset_addr(),
        last_reg_time: None,
        guid: row.guid@,
        uuid: row.uuid@,
        pk: row.pk@,
        ip: row.ip@,
        reg_pk: (0, expired_time(now)),
    }
}

/// The state of a peer after a key registration written through.
pub open spec fn updated_peer(
    p: PeerView,
    addr: SockAddr,
    uuid: Seq<u8>,
    pk: Seq<u8>,
    ip: Seq<char>,
    now: u64,
) -> PeerView {
    PeerView { socket_addr: addr, uuid: uuid, pk: pk, last_reg_time: Some(now), ip: ip, ..p }
}

impl Peer {
    pub fn new(now: u64) -> (r: Peer)
        ensures
            r@ == empty_peer(now),
    {
        let t = get_expired_time(now);
        let r = Peer {
            socket_addr: SockAddr { ip: IpAddress::V4(0), port: 0 },
            last_reg_time: None,
            guid: Vec::new(),
            uuid: Vec::new(),
            pk: Vec::new(),
            ip: String::new(),
            reg_pk: (0, t),
        };
        assert(r@ =~= empty_peer(now));
        r
    }

    /// A copy of this state.
    pub fn copy(&self) -> (r: Peer)
        ensures
            r@ == self@,
    {
        let r = Peer {
            socket_addr: self.socket_addr,
            last_reg_time: self.last_reg_time,
            guid: self.guid.clone(),
            uuid: self.uuid.clone(),
            pk: self.pk.clone(),
            ip: self.ip.clone(),
            reg_pk: self.reg_pk,
        };
        assert(r.guid@ =~= self.guid@);
        assert(r.uuid@ =~= self.uuid@);
        assert(r.pk@ =~= self.pk@);
        r
    }
}

/// What the durable store holds of a peer, with the `ip` of its `info` document.
pub struct StoredPeer {
    pub guid: Vec<u8>,
    pub uuid: Vec<u8>,
    pub pk: Vec<u8>,
    pub ip: String,
}

/// The write that a key registration asks of the durable store.
pub enum StoreWrite {
    /// A new row; the store mints its guid.
    Insert { id: String, uuid: Vec<u8>, pk: Vec<u8>, ip: String },
    /// An update of the row with this guid.
    Update { guid: Vec<u8>, id: String, pk: Vec<u8>, ip: String },
}

/// The live state of `id` in a directory.
pub open spec fn peer_of(v: Seq<(Seq<char>, PeerView)>, id: Seq<char>) -> Option<PeerView> {
    let i = index_of(v.map_values(|e: (Seq<char>, PeerView)| e.0), id);
    if i >= 0 {
        Some(v[i].1)
    } else {
        None
    }
}

/// The directory with the state of `id` replaced, or added where it is new.
pub open spec fn with_peer(v: Seq<(Seq<char>, PeerView)>, id: Seq<char>, p: PeerView) -> Seq<
    (Seq<char>, PeerView),
> {
    let i = index_of(v.map_values(|e: (Seq<char>, PeerView)| e.0), id);
    if i >= 0 {
        v.update(i, (id, p))
    } else {
        v.push((id, p))
    }
}

/// The keys of a directory view.
pub open spec fn view_keys(v: Seq<(Seq<char>, PeerView)>) -> Seq<Seq<char>> {
    v.map_values(|e: (Seq<char>, PeerView)| e.0)
}

/// After `with_peer`, `id` holds the new state and every other id its old one;
/// the keys stay distinct.
pub proof fn lemma_with_peer(v: Seq<(Seq<char>, PeerView)>, id: Seq<char>, p: PeerView)
    requires
        unique_keys(view_keys(v)),
    ensures
        unique_keys(view_keys(with_peer(v, id, p))),
        peer_of(with_peer(v, id, p), id) == Some(p),
        forall|other: Seq<char>| other != id ==> peer_of(with_peer(v, id, p), other) == peer_of(v, other),
{
    let ks = view_keys(v);
    let w = with_peer(v, id, p);
    let i = index_of(ks, id);
    if i >= 0 {
        assert(exists|j: int| 0 <= j < ks.len() && ks[j] == id);
        assert(view_keys(w) =~= ks);
        crate::table::lemma_index_of(view_keys(w), id, i);
    } else {
        lemma_unique_push(ks, id);
        assert(view_keys(w) =~= ks.push(id));
        crate::table::lemma_index_of(view_keys(w), id, ks.len() as int);
    }
    assert forall|other: Seq<char>| other != id implies peer_of(w, other) == peer_of(v, other) by {
        let j = index_of(ks, other);
        if j >= 0 {
            assert(exists|k: int| 0 <= k < ks.len() && ks[k] == other);
            crate::table::lemma_index_of(view_keys(w), other, j);
        } else {
            assert forall|k: int| 0 <= k < view_keys(w).len() implies view_keys(w)[k] != other by {
                if k < ks.len() {
                    if ks[k] == other {
                        assert(exists|k2: int| 0 <= k2 < ks.len() && ks[k2] == other);
                    }
                }
            }
            crate::table::lemma_index_of_absent(view_keys(w), other);
        }
    }
}

/// The directory after a lookup of `id`, and whether `id` was found: in
/// memory; else from `stored`, the store's row, which then comes into memory.
pub open spec fn lookup(
    v: Seq<(Seq<char>, PeerView)>,
    id: Seq<char>,
    stored: Option<StoredPeer>,
    now: u64,
) -> (Seq<(Seq<char>, PeerView)>, bool) {
    if peer_of(v, id) is Some {
        (v, true)
    } else {
        match stored {
            Some(row) => (with_peer(v, id, loaded_peer(row, now)), true),
            None => (v, false),
        }
    }
}

/// A peer whose key registration succeeded holds the new key in memory, so a
/// later lookup finds that key there and neither reads the store nor changes
/// the directory, whatever the store holds.
pub proof fn lemma_registered_key_lookup(
    v: Seq<(Seq<char>, PeerView)>,
    id: Seq<char>,
    pk: Seq<u8>,
    stored: Option<StoredPeer>,
    now: u64,
)
    requires
        peer_of(v, id) matches Some(q) && q.pk == pk,
    ensures
        lookup(v, id, stored, now) == (v, true),
        peer_of(lookup(v, id, stored, now).0, id).unwrap().pk == pk,
{
}

/// The in-memory peer directory.
pub struct PeerMap {
    pub map: Vec<(String, Peer)>,
}

impl View for PeerMap {
    type V = Seq<(Seq<char>, PeerView)>;

    open spec fn view(&self) -> Seq<(Seq<char>, PeerView)> {
        self.map@.map_values(|e: (String, Peer)| (e.0@, e.1@))
    }
}

impl PeerMap {
    pub open spec fn wf(&self) -> bool {
        unique_keys(keys_of(self.map@))
    }

    pub proof fn lemma_keys(&self)
        ensures
            self@.map_values(|e: (Seq<char>, PeerView)| e.0) == keys_of(self.map@),
            view_keys(self@) == keys_of(self.map@),
    {
        assert(self@.map_values(|e: (Seq<char>, PeerView)| e.0) =~= keys_of(self.map@));
    }

    pub fn new() -> (r: PeerMap)
        ensures
            r.wf(),
            r@ == Seq::<(Seq<char>, PeerView)>::empty(),
    {
        let r = PeerMap { map: Vec::new() };
        assert(r@ =~= Seq::<(Seq<char>, PeerView)>::empty());
        r
    }

    /// The live state of `id`, without touching the store.
    pub fn get_in_memory(&self, id: &String) -> (r: Option<&Peer>)
        requires
            self.wf(),
        ensures
            match r {
                Some(p) => peer_of(self@, id@) == Some(p@),
                None => peer_of(self@, id@) is None,
            },
    {
        proof {
            self.lemma_keys();
        }
        match find_key(&self.map, id) {
            Some(i) => Some(&self.map[i].1),
            None => None,
        }
    }

    /// Whether `id` has live state, without touching the store.
    pub fn is_in_memory(&self, id: &String) -> (r: bool)
        requires
            self.wf(),
        ensures
            r == (peer_of(self@, id@) is Some),
    {
        proof {
            self.lemma_keys();
        }
        find_key(&self.map, id).is_some()
    }

    /// Replaces or adds the live state of `id`.
    pub fn put(&mut self, id: &String, p: Peer)
        requires
            old(self).wf(),
        ensures
            final(self).wf(),
            final(self)@ == with_peer(old(self)@, id@, p@),
    {
        proof {
            self.lemma_keys();
        }
        match find_key(&self.map, id) {
            Some(i) => {
                let (k, _) = self.map.remove(i);
                self.map.insert(i, (k, p));
                assert(keys_of(self.map@) =~= keys_of(old(self).map@));
            },
            None => {
                proof {
                    lemma_unique_push(keys_of(self.map@), id@);
                }
                self.map.push((id.clone(), p));
                assert(keys_of(self.map@) =~= keys_of(old(self).map@).push(id@));
            },
        }
        assert(self@ =~= with_peer(old(self)@, id@, p@));
    }

    /// Brings `id` into memory. Where it is not there yet, `stored` is what the
    /// durable store holds of it (looked up by the caller); a row found there
    /// becomes live state that counts as offline. Says whether `id` is known.
    pub fn get(&mut self, id: &String, stored: Option<StoredPeer>, now: u64) -> (r: bool)
        requires
            old(self).wf(),
        ensures
            final(self).wf(),
            (final(self)@, r) == lookup(old(self)@, id@, stored, now),
    {
        if self.is_in_memory(id) {
            return true;
        }
        match stored {
            Some(row) => {
                let t = get_expired_time(now);
                let p = Peer {
                    socket_addr: SockAddr { ip: IpAddress::V4(0), port: 0 },
                    last_reg_time: None,
                    guid: row.guid,
                    uuid: row.uuid,
                    pk: row.pk,
                    ip: row.ip,
                    reg_pk: (0, t),
                };
                self.put(id, p);
                true
            },
            None => false,
        }
    }

    /// Makes sure `id` has live state, adding an empty one where it has none.
    pub fn get_or(&mut self, id: &String, now: u64)
        requires
            old(self).wf(),
        ensures
            final(self).wf(),
            peer_of(old(self)@, id@) is Some ==> final(self)@ == old(self)@,
            peer_of(old(self)@, id@) is None ==> final(self)@ == with_peer(
                old(self)@,
                id@,
                empty_peer(now),
            ),
    {
        if !self.is_in_memory(id) {
            let p = Peer::new(now);
            self.put(id, p);
        }
    }

    /// Records a key registration in the live state of `id`, and says what the
    /// durable store must write: a new row where the peer has no guid yet, else
    /// an update of its row.
    pub fn update_pk(
        &mut self,
        id: &String,
        addr: SockAddr,
        uuid: &Vec<u8>,
        pk: &Vec<u8>,
        ip: &String,
        now: u64,
    ) -> (r: StoreWrite)
        requires
            old(self).wf(),
            peer_of(old(self)@, id@) is Some,
        ensures
            final(self).wf(),
            ({
                let p = peer_of(old(self)@, id@).unwrap();
                &&& final(self)@ == with_peer(
                    old(self)@,
                    id@,
                    updated_peer(p, addr, uuid@, pk@, ip@, now),
                )
                &&& if p.guid.len() == 0 {
                    r matches StoreWrite::Insert { id: i, uuid: u, pk: k, ip: x } && i@ == id@
                        && u@ == uuid@ && k@ == pk@ && x@ == ip@
                } else {
                    r matches StoreWrite::Update { guid: g, id: i, pk: k, ip: x } && g@ == p.guid
                        && i@ == id@ && k@ == pk@ && x@ == ip@
                }
            }),
    {
        let old_peer = self.get_in_memory(id).unwrap();
        let mut p = old_peer.copy();
        p.socket_addr = addr;
        p.uuid = uuid.clone();
        p.pk = pk.clone();
        p.last_reg_time = Some(now);
        p.ip = ip.clone();
        assert(p.uuid@ =~= uuid@);
        assert(p.pk@ =~= pk@);
        let w = if p.guid.len() == 0 {
            let u = uuid.clone();
            let k = pk.clone();
            assert(u@ =~= uuid@);
            assert(k@ =~= pk@);
            StoreWrite::Insert { id: id.clone(), uuid: u, pk: k, ip: ip.clone() }
        } else {
            let g = p.guid.clone();
            let k = pk.clone();
            assert(g@ =~= p.guid@);
            assert(k@ =~= pk@);
            StoreWrite::Update { guid: g, id: id.clone(), pk: k, ip: ip.clone() }
        };
        self.put(id, p);
        w
    }

    /// Records the guid that the store minted for `id`.
    pub fn set_guid(&mut self, id: &String, guid: Vec<u8>)
        requires
            old(self).wf(),
        ensures
            final(self).wf(),
            match peer_of(old(self)@, id@) {
                Some(p) => final(self)@ == with_peer(old(self)@, id@, PeerView { guid: guid@, ..p }),
                None => final(self)@ == old(self)@,
            },
    {
        match self.get_in_memory(id) {
            Some(old_peer) => {
                let mut p = old_peer.copy();
                p.guid = guid;
                self.put(id, p);
            },
            None => {},
        }
    }
}

} // verus!
