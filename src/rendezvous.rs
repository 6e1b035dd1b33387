//! The rendezvous engine: registration, key registration, punch-hole
//! orchestration and presence queries, as steps from state and message to new
//! state and reply. The caller owns the sockets, the clock and the durable store.

use crate::addr::{is_loopback, same_ip, spec_is_loopback, try_into_v4, normalized, SockAddr};
use crate::identity::{id_pk_bytes, sign_id_pk, signed_message, SECRET_KEY_BYTES};
use crate::lan::{is_lan, spec_is_lan, LanMask};
use crate::peer::{
    lookup, lemma_with_peer, view_keys, peer_of, updated_peer, with_peer, PeerMap, PeerView, StoreWrite, StoredPeer, loaded_peer,
    empty_peer,
};
use crate::throttle::{
    blocker_after, changes_after, counter_of, elapsed_secs, permits, secs_since, IpBlocker,
    IpChanges,
};
use crate::text::{bytes_eq, copy_strings, has_prefix, is_word, split, split_spec, starts_with};
use crate::table::unique_keys;
use vstd::prelude::*;
use vstd::string::*;

verus! {

/// How long a registration keeps a peer online, in milliseconds.
pub const REG_TIMEOUT: u64 = 30_000;

/// Shortest peer id accepted for key registration, in characters.
pub const MIN_ID_LEN: usize = 6;

/// Key registrations a peer may make within the window below.
pub const MAX_REG_PK: u32 = 2;

/// Window of the key-registration count, in seconds.
pub const REG_PK_WINDOW: u64 = 6;

/// The NAT type a client reports.
#[derive(Clone, Copy, Debug, PartialEq, Eq, Structural)]
pub enum NatType {
    UnknownNat,
    Asymmetric,
    Symmetric,
}

/// Why a punch-hole request fails.
#[derive(Clone, Copy, Debug, PartialEq, Eq, Structural)]
pub enum PunchFailure {
    IdNotExist,
    Offline,
    LicenseMismatch,
}

/// The result of a key registration.
#[derive(Clone, Copy, Debug, PartialEq, Eq, Structural)]
pub enum RegisterPkResult {
    Success,
    UuidMismatch,
    TooFrequent,
    NotSupport,
    ServerError,
}

/// What a punch-hole request leads to.
pub enum PunchOutcome {
    /// A `PunchHoleResponse` with this failure, to the requester.
    Failure(PunchFailure),
    /// A `FetchLocalAddr` to the target at `to`.
    FetchLocalAddr { to: SockAddr, socket_addr: SockAddr, relay_server: String },
    /// A `PunchHole` to the target at `to`.
    PunchHole { to: SockAddr, socket_addr: SockAddr, nat_type: NatType, relay_server: String },
}

/// The reply to a `RegisterPeer`.
pub struct RegisterPeerReply {
    pub request_pk: bool,
    /// Whether a `ConfigUpdate` with the current list follows.
    pub config_update: bool,
}

/// The reply to a `RegisterPk`, and the write it asks of the durable store.
pub struct RegisterPkReply {
    pub result: RegisterPkResult,
    pub write: Option<StoreWrite>,
}

/// The rendezvous server's state.
pub struct RendezvousServer {
    pub pm: PeerMap,
    pub ip_blocker: IpBlocker,
    pub ip_changes: IpChanges,
    pub serial: i32,
    pub rendezvous_servers: Vec<String>,
    /// The relay servers in rotation (the healthy part of the configured list).
    pub relay_servers: Vec<String>,
    /// The configured relay servers.
    pub relay_servers0: Vec<String>,
    pub rotation: usize,
    pub always_use_relay: bool,
    /// The shared key clients must present; empty where none is asked.
    pub key: String,
    /// The 64-byte secret key, where the server can sign.
    pub sk: Option<Vec<u8>>,
    pub mask: Option<LanMask>,
    pub local_ip: String,
    pub version: String,
    pub software_url: String,
}

/// The relay server that the rotation picks.
pub open spec fn relay_pick(list: Seq<String>, rotation: usize) -> Seq<char> {
    if list.len() == 0 {
        Seq::empty()
    } else if list.len() == 1 {
        list[0]@
    } else {
        list[(rotation as int) % (list.len() as int)]@
    }
}

/// The rotation cursor after a pick (it wraps as an atomic counter does).
pub open spec fn rotation_after(len: nat, rotation: usize) -> usize {
    if len > 1 {
        if rotation == usize::MAX {
            0
        } else {
            (rotation + 1) as usize
        }
    } else {
        rotation
    }
}

/// Milliseconds from `t` to `now` (0 where the clock reads earlier).
pub open spec fn elapsed_ms(t: u64, now: u64) -> int {
    if now >= t {
        now - t
    } else {
        0
    }
}

/// Whether a peer counts as online at `now`.
pub open spec fn is_online(p: PeerView, now: u64) -> bool {
    match p.last_reg_time {
        Some(t) => elapsed_ms(t, now) < REG_TIMEOUT,
        None => false,
    }
}

/// Whether an ip, written as text, is a loopback address: `127.*`, `::1`, or
/// the IPv4-mapped form `::ffff:127.*`.
pub open spec fn text_is_loopback(ip: Seq<char>) -> bool {
    has_prefix(ip, "127."@) || ip == "::1"@ || has_prefix(ip, "::ffff:127."@)
}

/// The peer's previous ip (its registered address, or the ip of its last key
/// registration while it has none) is a loopback address.
pub open spec fn prev_is_loopback(p: PeerView) -> bool {
    if p.socket_addr.port != 0 {
        spec_is_loopback(p.socket_addr.ip)
    } else {
        text_is_loopback(p.ip)
    }
}

/// Whether a registration from `addr` (its ip written `ip`) shows a changed ip,
/// the previous one not being a loopback address.
pub open spec fn ip_changed(p: PeerView, addr: SockAddr, ip: Seq<char>) -> bool {
    (if p.socket_addr.port != 0 {
        addr.ip != p.socket_addr.ip
    } else {
        ip != p.ip
    }) && !prev_is_loopback(p)
}

/// Whether a registration asks the peer for its key.
pub open spec fn requests_pk(p: Option<PeerView>, addr: SockAddr, ip: Seq<char>) -> bool {
    match p {
        None => true,
        Some(p) => p.pk.len() == 0 || (ip_changed(p, addr, ip) && p.reg_pk.0 <= MAX_REG_PK),
    }
}

/// Whether two endpoints count as one intranet.
pub open spec fn same_intranet(mask: Option<LanMask>, a: SockAddr, b: SockAddr, ws: bool) -> bool {
    !ws && ((spec_is_lan(mask, a) && spec_is_lan(mask, b)) || a.ip == b.ip)
}

/// Whether a punch-hole request must go through a relay.
pub open spec fn relay_forced(always: bool, mask: Option<LanMask>, a: SockAddr, peer: SockAddr) -> bool {
    always || (spec_is_lan(mask, a) != spec_is_lan(mask, peer))
}

/// The live state that a key registration works on: the one in memory, else
/// the stored row, else an empty one.
pub open spec fn peer_or_new(
    pm: Seq<(Seq<char>, PeerView)>,
    id: Seq<char>,
    stored: Option<StoredPeer>,
    now: u64,
) -> PeerView {
    match peer_of(pm, id) {
        Some(p) => p,
        None => match stored {
            Some(row) => loaded_peer(row, now),
            None => empty_peer(now),
        },
    }
}

/// A key registration that contradicts the peer's record: another uuid, or the
/// same uuid from another ip with another key.
pub open spec fn pk_conflict(p: PeerView, uuid: Seq<u8>, pk: Seq<u8>, ip: Seq<char>) -> bool {
    p.uuid.len() != 0 && (p.uuid != uuid || (p.ip != ip && p.pk != pk))
}

/// The peer has made too many key registrations within the window.
pub open spec fn reg_pk_throttled(p: PeerView, now: u64) -> bool {
    elapsed_secs(p.reg_pk.1, now) <= REG_PK_WINDOW && p.reg_pk.0 > MAX_REG_PK
}

/// The key-registration count after one more registration.
pub open spec fn reg_pk_after(p: PeerView, now: u64) -> (u32, u64) {
    if elapsed_secs(p.reg_pk.1, now) > REG_PK_WINDOW {
        (1u32, now)
    } else {
        ((p.reg_pk.0 + 1) as u32, now)
    }
}

/// The message is refused as malformed: no uuid, no key, or an id shorter
/// than six characters.
pub open spec fn pk_message_malformed(id: Seq<char>, uuid: Seq<u8>, pk: Seq<u8>) -> bool {
    uuid.len() == 0 || pk.len() == 0 || id.len() < MIN_ID_LEN
}

/// The result of a key registration of `id` from `ip`.
pub open spec fn register_pk_result(
    pm: Seq<(Seq<char>, PeerView)>,
    blocker: Seq<(Seq<char>, crate::throttle::CounterView)>,
    id: Seq<char>,
    uuid: Seq<u8>,
    pk: Seq<u8>,
    ip: Seq<char>,
    stored: Option<StoredPeer>,
    now: u64,
) -> RegisterPkResult {
    if pk_message_malformed(id, uuid, pk) {
        RegisterPkResult::UuidMismatch
    } else if !permits(counter_of(blocker, ip), id, now) {
        RegisterPkResult::TooFrequent
    } else {
        let p = peer_or_new(pm, id, stored, now);
        if pk_conflict(p, uuid, pk, ip) {
            RegisterPkResult::UuidMismatch
        } else if reg_pk_throttled(p, now) {
            RegisterPkResult::TooFrequent
        } else {
            RegisterPkResult::Success
        }
    }
}

/// Bit `i` of a bitmap, most significant bit first within each byte.
pub open spec fn bit_at(states: Seq<u8>, i: int) -> bool {
    (states[i / 8] >> ((7 - i % 8) as u8)) & 1u8 == 1u8
}

/// Whether `id` is in memory and registered within the last 30 s.
pub open spec fn peer_online(pm: Seq<(Seq<char>, PeerView)>, id: Seq<char>, now: u64) -> bool {
    peer_of(pm, id) matches Some(p) && is_online(p, now)
}

proof fn lemma_set_bit(b: u8, k: u8, m: u8)
    requires
        k < 8,
        m < 8,
    ensures
        ((b | (1u8 << k)) >> m) & 1u8 == (if m == k {
            1u8
        } else {
            (b >> m) & 1u8
        }),
{
    assert(((b | (1u8 << k)) >> m) & 1u8 == (if m == k {
        1u8
    } else {
        (b >> m) & 1u8
    })) by (bit_vector)
        requires
            k < 8,
            m < 8,
    ;
}

proof fn lemma_zero_bits(m: u8)
    requires
        m < 8,
    ensures
        (0u8 >> m) & 1u8 == 0u8,
{
    assert((0u8 >> m) & 1u8 == 0u8) by (bit_vector);
}

/// A peer in memory that registered at `t` is, for a punch-hole request at any `now` less than 30 s later, in memory, online and
/// at the address it registered from: the request then yields exactly one
/// message to that address, a `PunchHole` or a `FetchLocalAddr`.
pub proof fn lemma_registered_peer_online(
    pm: Seq<(Seq<char>, PeerView)>,
    id: Seq<char>,
    addr: SockAddr,
    t: u64,
    now: u64,
)
    requires
        unique_keys(view_keys(pm)),
        peer_of(pm, id) is Some,
        t <= now,
        now - t < REG_TIMEOUT,
    ensures
        ({
            let pm2 = with_peer(
                pm,
                id,
                PeerView { socket_addr: addr, last_reg_time: Some(t), ..peer_of(pm, id).unwrap() },
            );
            peer_of(pm2, id) matches Some(q) && q.socket_addr == addr && is_online(q, now)
        }),
{
    lemma_with_peer(
        pm,
        id,
        PeerView { socket_addr: addr, last_reg_time: Some(t), ..peer_of(pm, id).unwrap() },
    );
}

/// Unless both endpoints are on the operator's LAN, a punch-hole request is
/// answered with `FetchLocalAddr` exactly when the two share their source ip
/// and the request did not come over WebSocket.
pub proof fn lemma_same_intranet(mask: Option<LanMask>, a: SockAddr, b: SockAddr, ws: bool)
    requires
        !(spec_is_lan(mask, a) && spec_is_lan(mask, b)),
    ensures
        same_intranet(mask, a, b, ws) == (!ws && a.ip == b.ip),
{
}

/// The pieces of a comma-separated server list that are not empty.
pub open spec fn server_pieces(s: Seq<char>) -> Seq<Seq<char>> {
    split_spec(s, ',').filter(|x: Seq<char>| x.len() > 0)
}

/// A `PunchHoleResponse` for the requester.
pub struct PunchHoleResponse {
    /// The address to connect to, in its wire (mangled) form.
    pub socket_addr: Vec<u8>,
    /// The signed `IdPk` of the peer, empty where none can be given.
    pub pk: Vec<u8>,
    pub relay_server: String,
    pub nat_type: Option<NatType>,
    pub is_local: bool,
}

/// The entries of `v` that are not empty.
pub fn non_empty(v: &Vec<String>) -> (r: Vec<String>)
    ensures
        r@.map_values(|x: String| x@) == v@.map_values(|x: String| x@).filter(
            |x: Seq<char>| x.len() > 0,
        ),
{
    let ghost sv = v@.map_values(|x: String| x@);
    let mut r: Vec<String> = Vec::new();
    let mut i: usize = 0;
    while i < v.len()
        invariant
            i <= v@.len(),
            sv == v@.map_values(|x: String| x@),
            r@.map_values(|x: String| x@) == sv.subrange(0, i as int).filter(
                |x: Seq<char>| x.len() > 0,
            ),
        decreases v@.len() - i,
    {
        let ghost before = r@.map_values(|x: String| x@);
        proof {
            assert(sv.subrange(0, i + 1) =~= sv.subrange(0, i as int).push(sv[i as int]));
            sv.subrange(0, i as int).lemma_filter_push(sv[i as int], |x: Seq<char>| x.len() > 0);
        }
        if v[i].as_str().unicode_len() > 0 {
            r.push(v[i].clone());
            assert(r@.map_values(|x: String| x@) =~= before.push(v@[i as int]@));
        }
        i = i + 1;
    }
    assert(sv.subrange(0, v@.len() as int) =~= sv);
    r
}

/// Whether an ip written as text is a loopback address.
pub fn text_loopback(ip: &str) -> (r: bool)
    ensures
        r == text_is_loopback(ip@),
{
    starts_with(ip, "127.") || is_word(ip, "::1") || starts_with(ip, "::ffff:127.")
}

/// The non-empty pieces of a comma-separated server list.
pub fn get_servers(s: &str) -> (r: Vec<String>)
    ensures
        r@.map_values(|x: String| x@) == server_pieces(s@),
{
    let pieces = split(s, ',');
    non_empty(&pieces)
}

impl RendezvousServer {
    pub open spec fn wf(&self) -> bool {
        &&& self.pm.wf()
        &&& self.ip_blocker.wf()
        &&& self.ip_changes.wf()
        &&& (self.mask matches Some(m) ==> m.wf())
        &&& (self.sk matches Some(k) ==> k@.len() == SECRET_KEY_BYTES)
    }

    /// A server with an empty directory and the given settings.
    pub fn new(
        serial: i32,
        key: String,
        sk: Option<Vec<u8>>,
        mask: Option<LanMask>,
        local_ip: String,
        version: String,
        software_url: String,
        rendezvous_servers: Vec<String>,
        relay_servers: Vec<String>,
        always_use_relay: bool,
    ) -> (r: RendezvousServer)
        requires
            mask matches Some(m) ==> m.wf(),
            sk matches Some(k) ==> k@.len() == SECRET_KEY_BYTES,
        ensures
            r.wf(),
            r.pm@.len() == 0,
            r.serial == serial,
            r.key == key,
            r.sk == sk,
            r.mask == mask,
            r.local_ip == local_ip,
            r.version == version,
            r.software_url == software_url,
            r.rendezvous_servers == rendezvous_servers,
            r.relay_servers@ == relay_servers@,
            r.relay_servers0 == relay_servers,
            r.rotation == 0,
            r.always_use_relay == always_use_relay,
    {
        let rs = copy_strings(&relay_servers);
        RendezvousServer {
            pm: PeerMap::new(),
            ip_blocker: IpBlocker::new(),
            ip_changes: IpChanges::new(),
            serial,
            rendezvous_servers,
            relay_servers: rs,
            relay_servers0: relay_servers,
            rotation: 0,
            always_use_relay,
            key,
            sk,
            mask,
            local_ip,
            version,
            software_url,
        }
    }

    /// Picks a relay server by round robin over the ones in rotation; the two
    /// ips are for a geo-aware choice and do not matter yet.
    pub fn get_relay_server(&mut self) -> (r: String)
        ensures
            r@ == relay_pick(old(self).relay_servers@, old(self).rotation),
            final(self).rotation == rotation_after(
                old(self).relay_servers@.len(),
                old(self).rotation,
            ),
            final(self).pm == old(self).pm,
            final(self).ip_blocker == old(self).ip_blocker,
            final(self).ip_changes == old(self).ip_changes,
            final(self).relay_servers == old(self).relay_servers,
            final(self).mask == old(self).mask,
            final(self).sk == old(self).sk,
            final(self).key == old(self).key,
            final(self).local_ip == old(self).local_ip,
            final(self).always_use_relay == old(self).always_use_relay,
            final(self).serial == old(self).serial,
    {
        let n = self.relay_servers.len();
        if n == 0 {
            String::new()
        } else if n == 1 {
            self.relay_servers[0].clone()
        } else {
            let i = self.rotation % n;
            self.rotation = if self.rotation == usize::MAX {
                0
            } else {
                self.rotation + 1
            };
            self.relay_servers[i].clone()
        }
    }

    /// Handles `RegisterPeer { id, serial }` from `addr` (whose ip is written
    /// `ip`): refreshes the address and registration time of a peer in memory,
    /// and says whether its key is asked for. A message without an id is
    /// dropped (`None`).
    pub fn update_addr(
        &mut self,
        id: &String,
        serial: i32,
        addr: SockAddr,
        ip: &String,
        now: u64,
    ) -> (res: Option<RegisterPeerReply>)
        requires
            old(self).wf(),
        ensures
            final(self).wf(),
            final(self).ip_blocker == old(self).ip_blocker,
            final(self).ip_changes == old(self).ip_changes,
            final(self).serial == old(self).serial,
            id@.len() == 0 ==> res is None && final(self).pm@ == old(self).pm@,
            id@.len() != 0 ==> (res matches Some(r) && r.request_pk == requests_pk(peer_of(old(self).pm@, id@), addr, ip@)
            && r.config_update == (old(self).serial > serial)
            && match peer_of(old(self).pm@, id@) {
                Some(p) => final(self).pm@ == with_peer(
                    old(self).pm@,
                    id@,
                    PeerView { socket_addr: addr, last_reg_time: Some(now), ..p },
                ),
                None => final(self).pm@ == old(self).pm@,
            }),
    {
        if id.as_str().unicode_len() == 0 {
            return None;
        }
        let config_update = self.serial > serial;
        match self.pm.get_in_memory(id) {
            None => Some(RegisterPeerReply { request_pk: true, config_update }),
            Some(old_peer) => {
                let changed = if old_peer.socket_addr.port != 0 {
                    !same_ip(addr, old_peer.socket_addr)
                } else {
                    !(*ip == old_peer.ip)
                };
                let prev_loopback = if old_peer.socket_addr.port != 0 {
                    is_loopback(old_peer.socket_addr.ip)
                } else {
                    text_loopback(old_peer.ip.as_str())
                };
                let ip_change = changed && !prev_loopback;
                let request_pk = old_peer.pk.len() == 0 || (ip_change && old_peer.reg_pk.0
                    <= MAX_REG_PK);
                let mut p = old_peer.copy();
                p.socket_addr = addr;
                p.last_reg_time = Some(now);
                self.pm.put(id, p);
                Some(RegisterPeerReply { request_pk, config_update })
            },
        }
    }

    /// Handles `PunchHoleRequest { id, licence_key, nat_type }` from `addr`; `ws`
    /// says it came over WebSocket. Where `id` is not in memory, `stored` is what
    /// the durable store holds of it.
    pub fn handle_punch_hole_request(
        &mut self,
        addr: SockAddr,
        id: &String,
        licence_key: &String,
        nat_type: NatType,
        ws: bool,
        stored: Option<StoredPeer>,
        now: u64,
    ) -> (r: PunchOutcome)
        requires
            old(self).wf(),
        ensures
            final(self).wf(),
            final(self).ip_blocker == old(self).ip_blocker,
            final(self).ip_changes == old(self).ip_changes,
            old(self).key@.len() != 0 && licence_key@ != old(self).key@ ==> (r matches PunchOutcome::Failure(
                PunchFailure::LicenseMismatch,
            )) && final(self).pm@ == old(self).pm@,
            !(old(self).key@.len() != 0 && licence_key@ != old(self).key@) ==> {
                let known = peer_of(old(self).pm@, id@) is Some || stored is Some;
                &&& peer_of(old(self).pm@, id@) is Some ==> final(self).pm@ == old(self).pm@
                &&& peer_of(old(self).pm@, id@) is None ==> match stored {
                    Some(row) => final(self).pm@ == with_peer(
                        old(self).pm@,
                        id@,
                        loaded_peer(row, now),
                    ),
                    None => final(self).pm@ == old(self).pm@,
                }
                &&& !known ==> (r matches PunchOutcome::Failure(PunchFailure::IdNotExist))
                &&& known ==> {
                    let p = peer_of(final(self).pm@, id@).unwrap();
                    if !is_online(p, now) {
                        (r matches PunchOutcome::Failure(PunchFailure::Offline))
                    } else {
                        let forced = relay_forced(
                            old(self).always_use_relay,
                            old(self).mask,
                            addr,
                            p.socket_addr,
                        );
                        let relay = if forced && spec_is_lan(old(self).mask, p.socket_addr) {
                            old(self).local_ip@
                        } else {
                            relay_pick(old(self).relay_servers@, old(self).rotation)
                        };
                        &&& final(self).rotation == rotation_after(
                            old(self).relay_servers@.len(),
                            old(self).rotation,
                        )
                        &&& if same_intranet(old(self).mask, p.socket_addr, addr, ws) {
                            r matches PunchOutcome::FetchLocalAddr { to, socket_addr, relay_server }
                                && to == p.socket_addr && socket_addr == addr && relay_server@
                                == relay
                        } else {
                            r matches PunchOutcome::PunchHole {
                                to,
                                socket_addr,
                                nat_type: nt,
                                relay_server,
                            } && to == p.socket_addr && socket_addr == addr && relay_server@
                                == relay && nt == (if forced {
                                NatType::Symmetric
                            } else {
                                nat_type
                            })
                        }
                    }
                }
            },
    {
        if self.key.as_str().unicode_len() != 0 && !(*licence_key == self.key) {
            return PunchOutcome::Failure(PunchFailure::LicenseMismatch);
        }
        proof {
            self.pm.lemma_keys();
        }
        let ghost stored_row = stored;
        if !self.pm.get(id, stored, now) {
            return PunchOutcome::Failure(PunchFailure::IdNotExist);
        }
        proof {
            if let Some(row) = stored_row {
                if peer_of(old(self).pm@, id@) is None {
                    crate::peer::lemma_with_peer(old(self).pm@, id@, loaded_peer(row, now));
                }
            }
        }
        let (last_reg_time, peer_addr) = match self.pm.get_in_memory(id) {
            Some(p) => (p.last_reg_time, p.socket_addr),
            None => {
                return PunchOutcome::Failure(PunchFailure::IdNotExist);
            },
        };
        let online = match last_reg_time {
            Some(t) => (if now >= t {
                now - t
            } else {
                0
            }) < REG_TIMEOUT,
            None => false,
        };
        if !online {
            return PunchOutcome::Failure(PunchFailure::Offline);
        }
        let peer_is_lan = is_lan(self.mask, peer_addr);
        let is_lan_a = is_lan(self.mask, addr);
        let mut relay_server = self.get_relay_server();
        let mut nt = nat_type;
        if self.always_use_relay || (peer_is_lan != is_lan_a) {
            if peer_is_lan {
                relay_server = self.local_ip.clone();
            }
            nt = NatType::Symmetric;
        }
        let intranet = !ws && ((peer_is_lan && is_lan_a) || same_ip(peer_addr, addr));
        if intranet {
            PunchOutcome::FetchLocalAddr { to: peer_addr, socket_addr: addr, relay_server }
        } else {
            PunchOutcome::PunchHole { to: peer_addr, socket_addr: addr, nat_type: nt, relay_server }
        }
    }

    /// Handles `RegisterPk { id, uuid, pk }` from `addr` (its ip written `ip`).
    /// Where `id` is not in memory, `stored` is what the durable store holds of
    /// it. On success the live state holds the new key at once; `write` says
    /// what the durable store must record.
    pub fn handle_register_pk(
        &mut self,
        id: &String,
        uuid: &Vec<u8>,
        pk: &Vec<u8>,
        addr: SockAddr,
        ip: &String,
        stored: Option<StoredPeer>,
        now: u64,
    ) -> (r: RegisterPkReply)
        requires
            old(self).wf(),
        ensures
            final(self).wf(),
            r.result == register_pk_result(
                old(self).pm@,
                old(self).ip_blocker@,
                id@,
                uuid@,
                pk@,
                ip@,
                stored,
                now,
            ),
            final(self).ip_blocker@ == if pk_message_malformed(id@, uuid@, pk@) {
                old(self).ip_blocker@
            } else {
                blocker_after(old(self).ip_blocker@, ip@, id@, now)
            },
            r.result == RegisterPkResult::Success ==> {
                let p = peer_or_new(old(self).pm@, id@, stored, now);
                let changed = p.uuid.len() == 0 || p.pk != pk@ || p.ip != ip@;
                &&& peer_of(final(self).pm@, id@) matches Some(q) && q.pk == pk@ && q.uuid == uuid@
                    && q.ip == ip@ && q.reg_pk == reg_pk_after(p, now) && q.guid == p.guid && if changed {
                    q.socket_addr == addr && q.last_reg_time == Some(now)
                } else {
                    q.socket_addr == p.socket_addr && q.last_reg_time == p.last_reg_time
                }
                &&& !changed ==> r.write is None
                &&& changed ==> if p.guid.len() == 0 {
                    r.write matches Some(StoreWrite::Insert { id: i, uuid: u, pk: k, ip: x }) && i@
                        == id@ && u@ == uuid@ && k@ == pk@ && x@ == ip@
                } else {
                    r.write matches Some(StoreWrite::Update { guid: g, id: i, pk: k, ip: x }) && g@
                        == p.guid && i@ == id@ && k@ == pk@ && x@ == ip@
                }
                &&& final(self).ip_changes@ == if p.uuid.len() != 0 && p.ip != ip@ {
                    changes_after(old(self).ip_changes@, id@, ip@, now)
                } else {
                    old(self).ip_changes@
                }
            },
            r.result != RegisterPkResult::Success ==> r.write is None
                && final(self).ip_changes@ == old(self).ip_changes@,
            pk_message_malformed(id@, uuid@, pk@) ==> final(self).pm@ == old(self).pm@,
            !pk_message_malformed(id@, uuid@, pk@) && !permits(
                counter_of(old(self).ip_blocker@, ip@),
                id@,
                now,
            ) ==> final(self).pm@ == old(self).pm@,
            !pk_message_malformed(id@, uuid@, pk@) && permits(
                counter_of(old(self).ip_blocker@, ip@),
                id@,
                now,
            ) && r.result != RegisterPkResult::Success ==> final(self).pm@ == with_peer(
                old(self).pm@,
                id@,
                peer_or_new(old(self).pm@, id@, stored, now),
            ),
    {
        if uuid.len() == 0 || pk.len() == 0 || id.as_str().unicode_len() < MIN_ID_LEN {
            return RegisterPkReply { result: RegisterPkResult::UuidMismatch, write: None };
        }
        if !self.ip_blocker.check_ip_blocker(ip, id, now) {
            return RegisterPkReply { result: RegisterPkResult::TooFrequent, write: None };
        }
        proof {
            self.pm.lemma_keys();
            let first_state = peer_or_new(old(self).pm@, id@, stored, now);
            if peer_of(old(self).pm@, id@) is None {
                crate::peer::lemma_with_peer(old(self).pm@, id@, first_state);
            }
        }
        let ghost stored_row = stored;
        let known = self.pm.get(id, stored, now);
        if !known {
            self.pm.get_or(id, now);
        }
        let ghost pm1 = self.pm@;
        assert(peer_of(pm1, id@) == Some(peer_or_new(old(self).pm@, id@, stored_row, now)));
        let cur = self.pm.get_in_memory(id).unwrap();
        let mut p = cur.copy();
        if p.uuid.len() != 0 {
            if !bytes_eq(&p.uuid, uuid) || (!(p.ip == *ip) && !bytes_eq(&p.pk, pk)) {
                return RegisterPkReply { result: RegisterPkResult::UuidMismatch, write: None };
            }
        }
        let ip_changed = p.uuid.len() != 0 && !(p.ip == *ip);
        let changed = p.uuid.len() == 0 || !bytes_eq(&p.pk, pk) || ip_changed;
        let mut count = p.reg_pk.0;
        if secs_since(p.reg_pk.1, now) > REG_PK_WINDOW {
            count = 0;
        } else if count > MAX_REG_PK {
            return RegisterPkReply { result: RegisterPkResult::TooFrequent, write: None };
        }
        p.reg_pk = (count + 1, now);
        let ghost counted = p@;
        self.pm.put(id, p);
        proof {
            self.pm.lemma_keys();
            crate::peer::lemma_with_peer(pm1, id@, counted);
        }
        if ip_changed {
            self.ip_changes.record(id, ip, now);
        }
        let write = if changed {
            Some(self.pm.update_pk(id, addr, uuid, pk, ip, now))
        } else {
            None
        };
        proof {
            if changed {
                crate::peer::lemma_with_peer(
                    with_peer(pm1, id@, counted),
                    id@,
                    updated_peer(counted, addr, uuid@, pk@, ip@, now),
                );
            }
        }
        RegisterPkReply { result: RegisterPkResult::Success, write }
    }

    /// Answers `OnlineRequest { peers }`: a bitmap of `ceil(n/8)` bytes whose bit
    /// `i` (most significant first within each byte) says whether peer `i` is in
    /// memory and registered within the last 30 s; the bits past `n` are 0.
    pub fn online_states(&self, peers: &Vec<String>, now: u64) -> (r: Vec<u8>)
        requires
            self.wf(),
        ensures
            r@.len() == (peers@.len() + 7) / 8,
            forall|i: int| 0 <= i < peers@.len() ==> #[trigger] bit_at(r@, i) == peer_online(self.pm@, peers@[i]@, now),
            forall|i: int| peers@.len() <= i < 8 * r@.len() ==> !#[trigger] bit_at(r@, i),
    {
        let n = peers.len();
        let nbytes = n / 8 + if n % 8 == 0 { 0 } else { 1 };
        assert(nbytes == (n + 7) / 8);
        let mut states: Vec<u8> = Vec::with_capacity(nbytes);
        let mut k: usize = 0;
        while k < nbytes
            invariant
                k <= nbytes,
                states@.len() == k,
                forall|j: int| 0 <= j < k ==> states@[j] == 0u8,
            decreases nbytes - k,
        {
            states.push(0u8);
            k = k + 1;
        }
        proof {
            assert forall|j: int| 0 <= j < 8 * nbytes implies !#[trigger] bit_at(states@, j) by {
                lemma_zero_bits((7 - j % 8) as u8);
            }
        }
        let mut i: usize = 0;
        while i < n
            invariant
                n == peers@.len(),
                nbytes == (n + 7) / 8,
                states@.len() == nbytes,
                i <= n,
                self.wf(),
                forall|j: int| 0 <= j < i ==> #[trigger] bit_at(states@, j) == peer_online(self.pm@, peers@[j]@, now),
                forall|j: int| i <= j < 8 * nbytes ==> !#[trigger] bit_at(states@, j),
            decreases n - i,
        {
            let online = match self.pm.get_in_memory(&peers[i]) {
                Some(p) => {
                    match p.last_reg_time {
                        Some(t) => (if now >= t {
                            now - t
                        } else {
                            0
                        }) < REG_TIMEOUT,
                        None => false,
                    }
                },
                None => false,
            };
            if online {
                let idx = i / 8;
                let bit = (7 - i % 8) as u8;
                let ghost before = states@;
                let b = states[idx];
                states.set(idx, b | (1u8 << bit));
                proof {
                    assert forall|j: int| 0 <= j < 8 * nbytes && j != i implies #[trigger] bit_at(
                        states@,
                        j,
                    ) == bit_at(before, j) by {
                        if j / 8 == idx {
                            lemma_set_bit(b, bit, (7 - j % 8) as u8);
                        }
                    }
                    lemma_set_bit(b, bit, bit);
                }
            }
            i = i + 1;
        }
        states
    }

    /// The signed `IdPk` of peer `id` for a requester whose client reports
    /// `version`: empty where the version is empty, the server cannot sign, or the
    /// peer is unknown. Where `id` is not in memory, `stored` is what the durable
    /// store holds of it.
    pub fn get_pk(&mut self, version: &String, id: &String, stored: Option<StoredPeer>, now: u64) -> (r: Vec<u8>)
        requires
            old(self).wf(),
        ensures
            final(self).wf(),
            final(self).ip_blocker == old(self).ip_blocker,
            final(self).ip_changes == old(self).ip_changes,
            final(self).sk == old(self).sk,
            final(self).rotation == old(self).rotation,
            version@.len() == 0 || old(self).sk is None ==> r@.len() == 0 && final(self).pm@ == old(self).pm@,
            version@.len() != 0 && old(self).sk is Some ==> final(self).pm@ == lookup(
                old(self).pm@,
                id@,
                stored,
                now,
            ).0 && match peer_of(final(self).pm@, id@) {
                Some(p) => r@ == signed_message(id_pk_bytes(id@, p.pk), old(self).sk.unwrap()@)
                    && r@.len() == id_pk_bytes(id@, p.pk).len() + 64,
                None => r@.len() == 0,
            },
    {
        if version.as_str().unicode_len() == 0 || self.sk.is_none() {
            return Vec::new();
        }
        proof {
            self.pm.lemma_keys();
        }
        let ghost stored_row = stored;
        if self.pm.get(id, stored, now) {
            proof {
                if let Some(row) = stored_row {
                    if peer_of(old(self).pm@, id@) is None {
                        lemma_with_peer(old(self).pm@, id@, loaded_peer(row, now));
                    }
                }
            }
            let p = self.pm.get_in_memory(id).unwrap();
            let sk = self.sk.as_ref().unwrap();
            sign_id_pk(id.as_str(), p.pk.as_slice(), sk.as_slice())
        } else {
            Vec::new()
        }
    }

    /// Turns `PunchHoleSent` from the target into the `PunchHoleResponse` for the
    /// requester: the target's own address (`sender`, in wire form), its signed
    /// key, the relay server and NAT type it reported.
    pub fn handle_hole_sent(
        &mut self,
        sender: Vec<u8>,
        id: &String,
        version: &String,
        nat_type: Option<NatType>,
        relay_server: String,
        stored: Option<StoredPeer>,
        now: u64,
    ) -> (r: PunchHoleResponse)
        requires
            old(self).wf(),
        ensures
            final(self).wf(),
            r.socket_addr == sender,
            r.relay_server == relay_server,
            r.nat_type == nat_type,
            !r.is_local,
            version@.len() == 0 || old(self).sk is None ==> r.pk@.len() == 0 && final(self).pm@
                == old(self).pm@,
            version@.len() != 0 && old(self).sk is Some ==> final(self).pm@ == lookup(
                old(self).pm@,
                id@,
                stored,
                now,
            ).0 && match peer_of(final(self).pm@, id@) {
                Some(p) => r.pk@ == signed_message(id_pk_bytes(id@, p.pk), old(self).sk.unwrap()@)
                    && r.pk@.len() == id_pk_bytes(id@, p.pk).len() + 64,
                None => r.pk@.len() == 0,
            },
    {
        let pk = self.get_pk(version, id, stored, now);
        PunchHoleResponse { socket_addr: sender, pk, relay_server, nat_type, is_local: false }
    }

    /// Turns `LocalAddr` from the target into the `PunchHoleResponse` for the
    /// requester: the target's local address (in wire form), marked local.
    pub fn handle_local_addr(
        &mut self,
        local_addr: Vec<u8>,
        id: &String,
        version: &String,
        relay_server: String,
        stored: Option<StoredPeer>,
        now: u64,
    ) -> (r: PunchHoleResponse)
        requires
            old(self).wf(),
        ensures
            final(self).wf(),
            r.socket_addr == local_addr,
            r.relay_server == relay_server,
            r.nat_type is None,
            r.is_local,
            version@.len() == 0 || old(self).sk is None ==> r.pk@.len() == 0 && final(self).pm@
                == old(self).pm@,
            version@.len() != 0 && old(self).sk is Some ==> final(self).pm@ == lookup(
                old(self).pm@,
                id@,
                stored,
                now,
            ).0 && match peer_of(final(self).pm@, id@) {
                Some(p) => r.pk@ == signed_message(id_pk_bytes(id@, p.pk), old(self).sk.unwrap()@)
                    && r.pk@.len() == id_pk_bytes(id@, p.pk).len() + 64,
                None => r.pk@.len() == 0,
            },
    {
        let pk = self.get_pk(version, id, stored, now);
        PunchHoleResponse { socket_addr: local_addr, pk, relay_server, nat_type: None, is_local: true }
    }

    /// The relay server written into a `RelayResponse` on its way back to the
    /// requester at `addr_b`: the server's LAN address for a requester on the
    /// LAN; a rotation pick where the target named that LAN address; else as
    /// given. An empty one stays empty.
    pub fn relay_response_server(&mut self, relay_server: &String, addr_b: SockAddr) -> (r: String)
        requires
            old(self).wf(),
        ensures
            final(self).wf(),
            final(self).pm == old(self).pm,
            r@ == if relay_server@.len() == 0 {
                relay_server@
            } else if spec_is_lan(old(self).mask, addr_b) {
                old(self).local_ip@
            } else if relay_server@ == old(self).local_ip@ {
                relay_pick(old(self).relay_servers@, old(self).rotation)
            } else {
                relay_server@
            },
    {
        if relay_server.as_str().unicode_len() == 0 {
            relay_server.clone()
        } else if is_lan(self.mask, addr_b) {
            self.local_ip.clone()
        } else if *relay_server == self.local_ip {
            self.get_relay_server()
        } else {
            relay_server.clone()
        }
    }

    /// Handles `ConfigureUpdate { serial, rendezvous_servers }` from `addr`: taken
    /// only from a loopback address and with a newer serial; the non-empty
    /// entries of the list (checked for resolution by the caller) replace it.
    pub fn configure_update(&mut self, addr: SockAddr, serial: i32, servers: &Vec<String>) -> (r: bool)
        ensures
            r == (spec_is_loopback(normalized(addr).ip) && serial > old(self).serial),
            r ==> final(self).serial == serial && final(self).rendezvous_servers@.map_values(
                |x: String| x@,
            ) == servers@.map_values(|x: String| x@).filter(|x: Seq<char>| x.len() > 0),
            !r ==> final(self).serial == old(self).serial && final(self).rendezvous_servers
                == old(self).rendezvous_servers,
            final(self).pm == old(self).pm,
            final(self).ip_blocker == old(self).ip_blocker,
            final(self).ip_changes == old(self).ip_changes,
            final(self).mask == old(self).mask,
            final(self).sk == old(self).sk,
    {
        let a = try_into_v4(addr);
        if is_loopback(a.ip) && serial > self.serial {
            self.serial = serial;
            self.rendezvous_servers = non_empty(servers);
            true
        } else {
            false
        }
    }

    /// Answers `SoftwareUpdate { url }`: the server's download url where the
    /// client's version differs from a configured one.
    pub fn software_update(&self, url: &String) -> (r: Option<String>)
        ensures
            match r {
                Some(u) => self.version@.len() != 0 && url@ != self.version@ && u@ == self.software_url@,
                None => self.version@.len() == 0 || url@ == self.version@,
            },
    {
        if self.version.as_str().unicode_len() != 0 && !(*url == self.version) {
            Some(self.software_url.clone())
        } else {
            None
        }
    }

    /// Answers `TestNatRequest { serial }` from port `port`: the observed port,
    /// and whether a `ConfigUpdate` goes with it.
    pub fn test_nat(&self, port: u16, serial: i32) -> (r: (u16, bool))
        ensures
            r == (port, self.serial > serial),
    {
        (port, self.serial > serial)
    }

    /// Replaces the configured relay list (and the rotation) with the non-empty
    /// entries of a comma-separated text.
    pub fn parse_relay_servers(&mut self, relay_servers: &str)
        ensures
            final(self).relay_servers0@.map_values(|x: String| x@) == server_pieces(relay_servers@),
            final(self).relay_servers@ == final(self).relay_servers0@,
            final(self).rotation == old(self).rotation,
            final(self).rendezvous_servers == old(self).rendezvous_servers,
            final(self).local_ip == old(self).local_ip,
            final(self).version == old(self).version,
            final(self).software_url == old(self).software_url,
            final(self).pm == old(self).pm,
            final(self).key == old(self).key,
            final(self).serial == old(self).serial,
            final(self).always_use_relay == old(self).always_use_relay,
            final(self).ip_blocker == old(self).ip_blocker,
            final(self).ip_changes == old(self).ip_changes,
            final(self).mask == old(self).mask,
            final(self).sk == old(self).sk,
    {
        let rs = get_servers(relay_servers);
        self.relay_servers = copy_strings(&rs);
        self.relay_servers0 = rs;
    }

    /// Puts the relay servers that answered a health check into rotation; an
    /// empty answer leaves the rotation as it is.
    pub fn set_healthy_relay_servers(&mut self, healthy: Vec<String>)
        ensures
            healthy@.len() != 0 ==> final(self).relay_servers == healthy,
            healthy@.len() == 0 ==> final(self).relay_servers == old(self).relay_servers,
            final(self).relay_servers0 == old(self).relay_servers0,
            final(self).pm == old(self).pm,
            final(self).ip_blocker == old(self).ip_blocker,
            final(self).ip_changes == old(self).ip_changes,
            final(self).mask == old(self).mask,
            final(self).sk == old(self).sk,
    {
        if healthy.len() != 0 {
            self.relay_servers = healthy;
        }
    }

    /// Where a `RequestRelay` for `id` is forwarded: the address the peer last
    /// registered from, where it is in memory; else nowhere.
    pub fn relay_request_target(&self, id: &String) -> (r: Option<SockAddr>)
        requires
            self.wf(),
        ensures
            r == match peer_of(self.pm@, id@) {
                Some(p) => Some(p.socket_addr),
                None => None::<SockAddr>,
            },
    {
        match self.pm.get_in_memory(id) {
            Some(p) => Some(p.socket_addr),
            None => None,
        }
    }
}

} // verus!
