//! The relay server: pairing of the two halves of a session by their token, and
//! the per-session accounting that drives usage figures and downgrades.

use crate::table::{find_key, index_of, keys_of, lemma_index_of, lemma_unique_push, unique_keys};
use crate::strset::{has, lines, list_contains, list_insert, list_remove, write_lines};
use crate::text::{
    cmd_arg, cmd_tokens, decimal, decimal_value, is_word, parse_u64, split, split_spec,
    tokens, u64_text,
};
use crate::throttle::{elapsed_secs, secs_since};
use vstd::prelude::*;
use vstd::string::*;

verus! {

/// How long a half waits for its partner, in milliseconds.
pub const PENDING_TTL_MS: u64 = 30_000;

/// Idle time after which a paired session is torn down, in seconds.
pub const IDLE_TIMEOUT_SECS: u64 = 30;

/// What a relay request leads to.
#[derive(Clone, Copy, Debug, PartialEq, Eq, Structural)]
pub enum RelayDecision {
    /// Closed: wrong shared key, or no token.
    Reject,
    /// Stored under its token until its partner comes or 30 s pass.
    Wait,
    /// Paired with the waiting half that has this handle.
    Pair(u64),
}

/// Halves waiting for their partner: token, the half's handle, and when it came.
pub struct PendingHalves {
    pub entries: Vec<(String, (u64, u64))>,
}

impl View for PendingHalves {
    type V = Seq<(Seq<char>, (u64, u64))>;

    open spec fn view(&self) -> Seq<(Seq<char>, (u64, u64))> {
        self.entries@.map_values(|e: (String, (u64, u64))| (e.0@, e.1))
    }
}

/// The keys of a pending-table view.
pub open spec fn pending_keys(v: Seq<(Seq<char>, (u64, u64))>) -> Seq<Seq<char>> {
    v.map_values(|e: (Seq<char>, (u64, u64))| e.0)
}

/// The half waiting under `token`, where there is one.
pub open spec fn pending_of(v: Seq<(Seq<char>, (u64, u64))>, token: Seq<char>) -> Option<(u64, u64)> {
    let i = index_of(pending_keys(v), token);
    if i >= 0 {
        Some(v[i].1)
    } else {
        None
    }
}

/// Whether a half that came at `t` still waits at `now`.
pub open spec fn still_waiting(t: u64, now: u64) -> bool {
    now < t || now - t < PENDING_TTL_MS
}

/// The outcome of a relay request.
pub open spec fn relay_decision(
    v: Seq<(Seq<char>, (u64, u64))>,
    key: Seq<char>,
    licence_key: Seq<char>,
    token: Seq<char>,
    now: u64,
) -> RelayDecision {
    if (key.len() != 0 && licence_key != key) || token.len() == 0 {
        RelayDecision::Reject
    } else {
        match pending_of(v, token) {
            Some((h, t)) => if still_waiting(t, now) {
                RelayDecision::Pair(h)
            } else {
                RelayDecision::Wait
            },
            None => RelayDecision::Wait,
        }
    }
}

/// The table with `token` removed.
pub open spec fn without(v: Seq<(Seq<char>, (u64, u64))>, token: Seq<char>) -> Seq<(Seq<char>, (u64, u64))> {
    let i = index_of(pending_keys(v), token);
    if i >= 0 {
        v.remove(i)
    } else {
        v
    }
}

/// The table after a relay request.
pub open spec fn pending_after(
    v: Seq<(Seq<char>, (u64, u64))>,
    key: Seq<char>,
    licence_key: Seq<char>,
    token: Seq<char>,
    handle: u64,
    now: u64,
) -> Seq<(Seq<char>, (u64, u64))> {
    match relay_decision(v, key, licence_key, token, now) {
        RelayDecision::Reject => v,
        RelayDecision::Pair(_) => without(v, token),
        RelayDecision::Wait => without(v, token).push((token, (handle, now))),
    }
}

/// The table after the wait of half `handle` under `token` ran out.
pub open spec fn expired_after(v: Seq<(Seq<char>, (u64, u64))>, token: Seq<char>, handle: u64) -> Seq<
    (Seq<char>, (u64, u64)),
> {
    match pending_of(v, token) {
        Some((h, _)) => if h == handle {
            without(v, token)
        } else {
            v
        },
        None => v,
    }
}

proof fn lemma_remove_keeps_unique(v: Seq<(Seq<char>, (u64, u64))>, i: int)
    requires
        unique_keys(pending_keys(v)),
        0 <= i < v.len(),
    ensures
        unique_keys(pending_keys(v.remove(i))),
        index_of(pending_keys(v.remove(i)), v[i].0) == -1,
        forall|k: Seq<char>| k != v[i].0 ==> pending_of(v.remove(i), k) == pending_of(v, k),
{
    let ks = pending_keys(v);
    let rs = pending_keys(v.remove(i));
    assert(rs =~= ks.remove(i));
    assert forall|a: int, b: int|
        0 <= a < rs.len() && 0 <= b < rs.len() && #[trigger] rs[a] == #[trigger] rs[b] implies a
        == b by {
        let a2 = if a < i { a } else { a + 1 };
        let b2 = if b < i { b } else { b + 1 };
        assert(ks[a2] == ks[b2]);
    }
    assert forall|j: int| 0 <= j < rs.len() implies rs[j] != v[i].0 by {
        let j2 = if j < i { j } else { j + 1 };
        assert(ks[j2] != ks[i]);
    }
    assert forall|k: Seq<char>| k != v[i].0 implies pending_of(v.remove(i), k) == pending_of(v, k) by {
        let j = index_of(ks, k);
        if j >= 0 {
            assert(exists|x: int| 0 <= x < ks.len() && ks[x] == k);
            let j2 = if j < i { j } else { j - 1 };
            assert(rs[j2] == k);
            lemma_index_of(rs, k, j2);
        } else {
            assert forall|x: int| 0 <= x < rs.len() implies rs[x] != k by {
                let x2 = if x < i { x } else { x + 1 };
                if ks[x2] == k {
                    assert(exists|y: int| 0 <= y < ks.len() && ks[y] == k);
                }
            }
        }
    }
}

impl PendingHalves {
    pub open spec fn wf(&self) -> bool {
        unique_keys(keys_of(self.entries@))
    }

    proof fn lemma_keys(&self)
        ensures
            pending_keys(self@) == keys_of(self.entries@),
    {
        assert(pending_keys(self@) =~= keys_of(self.entries@));
    }

    pub fn new() -> (r: PendingHalves)
        ensures
            r.wf(),
            r@.len() == 0,
    {
        PendingHalves { entries: Vec::new() }
    }

    /// Removes the half under `token`; returns its handle and arrival time.
    fn remove_token(&mut self, token: &String) -> (r: Option<(u64, u64)>)
        requires
            old(self).wf(),
        ensures
            final(self).wf(),
            r == pending_of(old(self)@, token@),
            final(self)@ == without(old(self)@, token@),
    {
        proof {
            self.lemma_keys();
        }
        match find_key(&self.entries, token) {
            Some(i) => {
                let (_, h) = self.entries.remove(i);
                proof {
                    lemma_remove_keeps_unique(old(self)@, i as int);
                    assert(self@ =~= old(self)@.remove(i as int));
                    assert(keys_of(self.entries@) =~= pending_keys(self@));
                }
                Some(h)
            },
            None => None,
        }
    }

    /// Handles `RequestRelay { uuid: token, licence_key }` from the half with
    /// `handle`: refused on a wrong shared key or an empty token; paired with a
    /// half that waits under the token; else stored to wait for 30 s.
    pub fn request(
        &mut self,
        key: &String,
        licence_key: &String,
        token: &String,
        handle: u64,
        now: u64,
    ) -> (r: RelayDecision)
        requires
            old(self).wf(),
        ensures
            final(self).wf(),
            r == relay_decision(old(self)@, key@, licence_key@, token@, now),
            final(self)@ == pending_after(old(self)@, key@, licence_key@, token@, handle, now),
    {
        if (key.as_str().unicode_len() != 0 && !(*licence_key == *key)) || token.as_str().unicode_len() == 0 {
            return RelayDecision::Reject;
        }
        match self.remove_token(token) {
            Some((h, t)) => {
                if now < t || now - t < PENDING_TTL_MS {
                    return RelayDecision::Pair(h);
                }
            },
            None => {},
        }
        proof {
            self.lemma_keys();
            assert(pending_keys(old(self)@) =~= keys_of(old(self).entries@));
            lemma_remove_keeps_unique_absent(old(self)@, token@);
            lemma_unique_push(keys_of(self.entries@), token@);
        }
        let ghost ks = keys_of(self.entries@);
        self.entries.push((token.clone(), (handle, now)));
        proof {
            assert(keys_of(self.entries@) =~= ks.push(token@));
            assert(keys_of(self.entries@) =~= pending_keys(self@));
            assert(self@ =~= without(old(self)@, token@).push((token@, (handle, now))));
        }
        RelayDecision::Wait
    }

    /// The wait of half `handle` under `token` ran out: it leaves the table,
    /// unless it was paired (or replaced) meanwhile. Says whether it left.
    pub fn expire(&mut self, token: &String, handle: u64) -> (r: bool)
        requires
            old(self).wf(),
        ensures
            final(self).wf(),
            r == (pending_of(old(self)@, token@) matches Some((h, _)) && h == handle),
            final(self)@ == expired_after(old(self)@, token@, handle),
    {
        proof {
            self.lemma_keys();
        }
        match find_key(&self.entries, token) {
            Some(i) => {
                if self.entries[i].1.0 == handle {
                    self.remove_token(token);
                    true
                } else {
                    false
                }
            },
            None => false,
        }
    }
}

/// After a removal the token is absent.
proof fn lemma_remove_keeps_unique_absent(v: Seq<(Seq<char>, (u64, u64))>, token: Seq<char>)
    requires
        unique_keys(pending_keys(v)),
    ensures
        unique_keys(pending_keys(without(v, token))),
        index_of(pending_keys(without(v, token)), token) == -1,
{
    let i = index_of(pending_keys(v), token);
    if i >= 0 {
        assert(exists|j: int| 0 <= j < pending_keys(v).len() && pending_keys(v)[j] == token);
        lemma_remove_keeps_unique(v, i);
    } else {
        if exists|j: int| 0 <= j < pending_keys(v).len() && pending_keys(v)[j] == token {
        }
    }
}

/// A half that waits is resolved once: a partner's request with its token
/// pairs with it and takes it out, after which its expiry finds nothing to
/// remove; its expiry takes it out, after which a request with its token waits
/// instead of pairing.
pub proof fn lemma_half_resolved_once(
    v: Seq<(Seq<char>, (u64, u64))>,
    key: Seq<char>,
    licence_key: Seq<char>,
    token: Seq<char>,
    handle: u64,
    t: u64,
    partner: u64,
    now: u64,
)
    requires
        unique_keys(pending_keys(v)),
        pending_of(v, token) == Some((handle, t)),
        key.len() == 0 || licence_key == key,
        token.len() != 0,
        still_waiting(t, now),
    ensures
        relay_decision(v, key, licence_key, token, now) == RelayDecision::Pair(handle),
        pending_of(pending_after(v, key, licence_key, token, partner, now), token) is None,
        expired_after(pending_after(v, key, licence_key, token, partner, now), token, handle)
            == pending_after(v, key, licence_key, token, partner, now),
        pending_of(expired_after(v, token, handle), token) is None,
        relay_decision(expired_after(v, token, handle), key, licence_key, token, now)
            == RelayDecision::Wait,
{
    lemma_remove_keeps_unique_absent(v, token);
}

/// A tunable whose value is a fraction or a rate in Mb/s.
#[derive(Clone, Copy, Debug, PartialEq, Eq, Structural)]
pub enum Tunable {
    DowngradeThreshold,
    LimitSpeed,
    TotalBandwidth,
    SingleBandwidth,
}

/// The answer to an operator command.
pub enum RelayCmdReply {
    /// Reply text.
    Text(String),
    /// A command on a fractional tunable, with its argument where given; the
    /// caller reads or writes the fraction.
    Tunable { which: Tunable, arg: Option<String> },
    /// The usage table was asked for.
    Usage,
}

/// The relay's operator-tunable state.
pub struct RelayControl {
    /// Ips whose sessions run under the strict limiter.
    pub blacklist: Vec<String>,
    /// Ips whose connections are dropped.
    pub blocklist: Vec<String>,
    /// The downgrade threshold in hundredths.
    pub downgrade_threshold_100: u64,
    /// The grace period before downgrade checks, in milliseconds.
    pub downgrade_start_check: u64,
    /// The strict limiter's rate, in bit/s.
    pub limit_speed: u64,
    /// The global limiter's rate, in bit/s.
    pub total_bandwidth: u64,
    /// The per-session limiter's rate, in bit/s.
    pub single_bandwidth: u64,
}

/// The operator commands of the relay.
pub ghost enum RelayCmd {
    Help,
    /// `blacklist-add`/`ba` (true) or `blocklist-add`/`Ba` (false).
    ListAdd(bool),
    ListRemove(bool),
    ListShow(bool),
    StartCheck,
    Fraction(Tunable),
    Usage,
    Unknown,
}

/// The command that a command word names; the first match in this order wins.
pub open spec fn relay_cmd_kind(t0: Seq<char>) -> RelayCmd {
    if t0 == "h"@ {
        RelayCmd::Help
    } else if is_cmd(t0, "blacklist-add"@, "ba"@) {
        RelayCmd::ListAdd(true)
    } else if is_cmd(t0, "blacklist-remove"@, "br"@) {
        RelayCmd::ListRemove(true)
    } else if is_cmd(t0, "blacklist"@, "b"@) {
        RelayCmd::ListShow(true)
    } else if is_cmd(t0, "blocklist-add"@, "Ba"@) {
        RelayCmd::ListAdd(false)
    } else if is_cmd(t0, "blocklist-remove"@, "Br"@) {
        RelayCmd::ListRemove(false)
    } else if is_cmd(t0, "blocklist"@, "B"@) {
        RelayCmd::ListShow(false)
    } else if is_cmd(t0, "downgrade-start-check"@, "t"@) {
        RelayCmd::StartCheck
    } else if is_cmd(t0, "downgrade-threshold"@, "dt"@) {
        RelayCmd::Fraction(Tunable::DowngradeThreshold)
    } else if is_cmd(t0, "limit-speed"@, "ls"@) {
        RelayCmd::Fraction(Tunable::LimitSpeed)
    } else if is_cmd(t0, "total-bandwidth"@, "tb"@) {
        RelayCmd::Fraction(Tunable::TotalBandwidth)
    } else if is_cmd(t0, "single-bandwidth"@, "sb"@) {
        RelayCmd::Fraction(Tunable::SingleBandwidth)
    } else if is_cmd(t0, "usage"@, "u"@) {
        RelayCmd::Usage
    } else {
        RelayCmd::Unknown
    }
}

/// The text of an optional string.
pub open spec fn opt_view(x: Option<String>) -> Option<Seq<char>> {
    match x {
        Some(s) => Some(s@),
        None => None,
    }
}

/// The operator help text.
pub open spec fn relay_help() -> Seq<char> {
    "blacklist-add(ba) <ip>\nblacklist-remove(br) <ip>\nblacklist(b) <ip>\nblocklist-add(Ba) <ip>\nblocklist-remove(Br) <ip>\nblocklist(B) <ip>\ndowngrade-threshold(dt) [value]\ndowngrade-start-check(t) [value(second)]\nlimit-speed(ls) [value(Mb/s)]\ntotal-bandwidth(tb) [value(Mb/s)]\nsingle-bandwidth(sb) [value(Mb/s)]\nusage(u)\n"@
}

/// Whether the command word is the long or the short form.
pub open spec fn is_cmd(t0: Seq<char>, long: Seq<char>, short: Seq<char>) -> bool {
    t0 == long || t0 == short
}

/// The text that answers a membership query.
pub open spec fn bool_line(b: bool) -> Seq<char> {
    if b {
        "true\n"@
    } else {
        "false\n"@
    }
}

/// A list after `ba`/`Ba` with argument `a` (entries separated by `|`).
pub open spec fn added(old: Seq<String>, new: Seq<String>, a: Seq<char>) -> bool {
    forall|y: Seq<char>| has(new, y) <==> (has(old, y) || split_spec(a, '|').contains(y))
}

/// A list after `br`/`Br` with argument `a`: `all` empties it.
pub open spec fn removed(old: Seq<String>, new: Seq<String>, a: Seq<char>) -> bool {
    if a == "all"@ {
        new.len() == 0
    } else {
        forall|y: Seq<char>| has(new, y) <==> (has(old, y) && !split_spec(a, '|').contains(y))
    }
}

/// Adds each `|`-separated entry of `a`.
fn add_all(v: &mut Vec<String>, a: &String)
    ensures
        added(old(v)@, final(v)@, a@),
{
    let parts = split(a.as_str(), '|');
    let ghost ps = parts@.map_values(|x: String| x@);
    let mut i: usize = 0;
    while i < parts.len()
        invariant
            i <= parts@.len(),
            ps == parts@.map_values(|x: String| x@),
            ps == split_spec(a@, '|'),
            forall|y: Seq<char>| has(v@, y) <==> (has(old(v)@, y) || ps.subrange(0, i as int).contains(y)),
        decreases parts@.len() - i,
    {
        list_insert(v, &parts[i]);
        proof {
            assert forall|y: Seq<char>| ps.subrange(0, i + 1).contains(y) <==> (ps.subrange(
                0,
                i as int,
            ).contains(y) || y == parts@[i as int]@) by {
                if ps.subrange(0, i + 1).contains(y) {
                    let k = choose|k: int| 0 <= k < i + 1 && #[trigger] ps.subrange(0, i + 1)[k] == y;
                    if k < i {
                        assert(ps.subrange(0, i as int)[k] == y);
                    }
                }
                if ps.subrange(0, i as int).contains(y) {
                    let k = choose|k: int| 0 <= k < i && #[trigger] ps.subrange(0, i as int)[k] == y;
                    assert(ps.subrange(0, i + 1)[k] == y);
                }
                if y == parts@[i as int]@ {
                    assert(ps.subrange(0, i + 1)[i as int] == y);
                }
            }
        }
        i = i + 1;
    }
    assert(ps.subrange(0, parts@.len() as int) =~= ps);
}

/// Removes each `|`-separated entry of `a`, or everything for `all`.
fn remove_all(v: &mut Vec<String>, a: &String)
    ensures
        removed(old(v)@, final(v)@, a@),
{
    if is_word(a.as_str(), "all") {
        *v = Vec::new();
        return;
    }
    let parts = split(a.as_str(), '|');
    let ghost ps = parts@.map_values(|x: String| x@);
    let mut i: usize = 0;
    while i < parts.len()
        invariant
            i <= parts@.len(),
            ps == parts@.map_values(|x: String| x@),
            ps == split_spec(a@, '|'),
            forall|y: Seq<char>| has(v@, y) <==> (has(old(v)@, y) && !ps.subrange(0, i as int).contains(y)),
        decreases parts@.len() - i,
    {
        list_remove(v, &parts[i]);
        proof {
            assert forall|y: Seq<char>| ps.subrange(0, i + 1).contains(y) <==> (ps.subrange(
                0,
                i as int,
            ).contains(y) || y == parts@[i as int]@) by {
                if ps.subrange(0, i + 1).contains(y) {
                    let k = choose|k: int| 0 <= k < i + 1 && #[trigger] ps.subrange(0, i + 1)[k] == y;
                    if k < i {
                        assert(ps.subrange(0, i as int)[k] == y);
                    }
                }
                if ps.subrange(0, i as int).contains(y) {
                    let k = choose|k: int| 0 <= k < i && #[trigger] ps.subrange(0, i as int)[k] == y;
                    assert(ps.subrange(0, i + 1)[k] == y);
                }
                if y == parts@[i as int]@ {
                    assert(ps.subrange(0, i + 1)[i as int] == y);
                }
            }
        }
        i = i + 1;
    }
    assert(ps.subrange(0, parts@.len() as int) =~= ps);
}

impl RelayControl {
    /// The defaults: 66% threshold, 30 min grace, 4 Mb/s strict, 1 Gb/s global,
    /// 16 Mb/s per session.
    pub fn new() -> (r: RelayControl)
        ensures
            r.blacklist@.len() == 0,
            r.blocklist@.len() == 0,
            r.downgrade_threshold_100 == 66,
            r.downgrade_start_check == 1_800_000,
            r.limit_speed == 4 * 1024 * 1024,
            r.total_bandwidth == 1024 * 1024 * 1024,
            r.single_bandwidth == 16 * 1024 * 1024,
    {
        RelayControl {
            blacklist: Vec::new(),
            blocklist: Vec::new(),
            downgrade_threshold_100: 66,
            downgrade_start_check: 1_800_000,
            limit_speed: 4 * 1024 * 1024,
            total_bandwidth: 1024 * 1024 * 1024,
            single_bandwidth: 16 * 1024 * 1024,
        }
    }

    /// Runs one operator command (a line such as `ba 1.2.3.4|5.6.7.8`).
    pub fn check_cmd(&mut self, cmd: &str) -> (r: RelayCmdReply)
        ensures
            ({
                let t = cmd_tokens(cmd@);
                let arg = cmd_arg(t, 1);
                let unchanged_lists = final(self).blacklist == old(self).blacklist
                    && final(self).blocklist == old(self).blocklist;
                &&& final(self).downgrade_threshold_100 == old(self).downgrade_threshold_100
                &&& final(self).limit_speed == old(self).limit_speed
                &&& final(self).total_bandwidth == old(self).total_bandwidth
                &&& final(self).single_bandwidth == old(self).single_bandwidth
                &&& relay_cmd_kind(t[0]) != RelayCmd::StartCheck ==> final(self).downgrade_start_check
                    == old(self).downgrade_start_check
                &&& match relay_cmd_kind(t[0]) {
                    RelayCmd::Help => unchanged_lists && (r matches RelayCmdReply::Text(x) && x@
                        == relay_help()),
                    RelayCmd::ListAdd(black) => (r matches RelayCmdReply::Text(x) && x@.len() == 0)
                        && match arg {
                        Some(a) => if black {
                            added(old(self).blacklist@, final(self).blacklist@, a)
                                && final(self).blocklist == old(self).blocklist
                        } else {
                            added(old(self).blocklist@, final(self).blocklist@, a)
                                && final(self).blacklist == old(self).blacklist
                        },
                        None => unchanged_lists,
                    },
                    RelayCmd::ListRemove(black) => (r matches RelayCmdReply::Text(x) && x@.len()
                        == 0) && match arg {
                        Some(a) => if black {
                            removed(old(self).blacklist@, final(self).blacklist@, a)
                                && final(self).blocklist == old(self).blocklist
                        } else {
                            removed(old(self).blocklist@, final(self).blocklist@, a)
                                && final(self).blacklist == old(self).blacklist
                        },
                        None => unchanged_lists,
                    },
                    RelayCmd::ListShow(black) => {
                        let l = if black {
                            old(self).blacklist@
                        } else {
                            old(self).blocklist@
                        };
                        unchanged_lists && (r matches RelayCmdReply::Text(x) && x@ == match arg {
                            Some(a) => bool_line(has(l, a)),
                            None => lines(l.map_values(|s: String| s@)),
                        })
                    },
                    RelayCmd::StartCheck => unchanged_lists && match arg {
                        Some(a) => (r matches RelayCmdReply::Text(x) && x@.len() == 0)
                            && final(self).downgrade_start_check == match decimal_value(a) {
                            Some(v) if v > 0 && v <= u64::MAX / 1000 => (v * 1000) as u64,
                            _ => old(self).downgrade_start_check,
                        },
                        None => (r matches RelayCmdReply::Text(x) && x@ == decimal(
                            (old(self).downgrade_start_check / 1000) as nat,
                        ) + "s\n"@),
                    },
                    RelayCmd::Fraction(w) => unchanged_lists && (r matches RelayCmdReply::Tunable {
                        which,
                        arg: x,
                    } && which == w && opt_view(x) == arg),
                    RelayCmd::Usage => unchanged_lists && (r matches RelayCmdReply::Usage),
                    RelayCmd::Unknown => unchanged_lists && (r matches RelayCmdReply::Text(x) && x@.len()
                        == 0),
                }
            }),
    {
        let t = tokens(cmd);
        let ghost tv = t@.map_values(|x: String| x@);
        assert(tv[0] == t@[0]@);
        let t0 = t[0].as_str();
        let has_arg = t.len() > 1;
        proof {
            if has_arg {
                assert(tv[1] == t@[1]@);
            }
        }
        if is_word(t0, "h") {
            return RelayCmdReply::Text(String::from_str("blacklist-add(ba) <ip>\nblacklist-remove(br) <ip>\nblacklist(b) <ip>\nblocklist-add(Ba) <ip>\nblocklist-remove(Br) <ip>\nblocklist(B) <ip>\ndowngrade-threshold(dt) [value]\ndowngrade-start-check(t) [value(second)]\nlimit-speed(ls) [value(Mb/s)]\ntotal-bandwidth(tb) [value(Mb/s)]\nsingle-bandwidth(sb) [value(Mb/s)]\nusage(u)\n"));
        }
        if is_word(t0, "blacklist-add") || is_word(t0, "ba") {
            if has_arg {
                add_all(&mut self.blacklist, &t[1]);
            }
            return RelayCmdReply::Text(String::new());
        }
        if is_word(t0, "blacklist-remove") || is_word(t0, "br") {
            if has_arg {
                remove_all(&mut self.blacklist, &t[1]);
            }
            return RelayCmdReply::Text(String::new());
        }
        if is_word(t0, "blacklist") || is_word(t0, "b") {
            if has_arg {
                let found = list_contains(&self.blacklist, &t[1]);
                return RelayCmdReply::Text(String::from_str(if found { "true\n" } else { "false\n" }));
            }
            return RelayCmdReply::Text(write_lines(&self.blacklist));
        }
        if is_word(t0, "blocklist-add") || is_word(t0, "Ba") {
            if has_arg {
                add_all(&mut self.blocklist, &t[1]);
            }
            return RelayCmdReply::Text(String::new());
        }
        if is_word(t0, "blocklist-remove") || is_word(t0, "Br") {
            if has_arg {
                remove_all(&mut self.blocklist, &t[1]);
            }
            return RelayCmdReply::Text(String::new());
        }
        if is_word(t0, "blocklist") || is_word(t0, "B") {
            if has_arg {
                let found = list_contains(&self.blocklist, &t[1]);
                return RelayCmdReply::Text(String::from_str(if found { "true\n" } else { "false\n" }));
            }
            return RelayCmdReply::Text(write_lines(&self.blocklist));
        }
        if is_word(t0, "downgrade-start-check") || is_word(t0, "t") {
            if has_arg {
                match parse_u64(t[1].as_str()) {
                    Some(v) => {
                        if v > 0 && v <= u64::MAX / 1000 {
                            self.downgrade_start_check = v * 1000;
                        }
                    },
                    None => {},
                }
                return RelayCmdReply::Text(String::new());
            }
            let mut x = u64_text(self.downgrade_start_check / 1000);
            x.append("s\n");
            return RelayCmdReply::Text(x);
        }
        let arg = if has_arg {
            Some(t[1].clone())
        } else {
            None
        };
        if is_word(t0, "downgrade-threshold") || is_word(t0, "dt") {
            return RelayCmdReply::Tunable { which: Tunable::DowngradeThreshold, arg };
        }
        if is_word(t0, "limit-speed") || is_word(t0, "ls") {
            return RelayCmdReply::Tunable { which: Tunable::LimitSpeed, arg };
        }
        if is_word(t0, "total-bandwidth") || is_word(t0, "tb") {
            return RelayCmdReply::Tunable { which: Tunable::TotalBandwidth, arg };
        }
        if is_word(t0, "single-bandwidth") || is_word(t0, "sb") {
            return RelayCmdReply::Tunable { which: Tunable::SingleBandwidth, arg };
        }
        if is_word(t0, "usage") || is_word(t0, "u") {
            return RelayCmdReply::Usage;
        }
        RelayCmdReply::Text(String::new())
    }
}

/// `a + b`, or the largest `u64` where that does not fit.
pub open spec fn sat_add(a: u64, b: u64) -> u64 {
    if a as int + b as int <= u64::MAX {
        (a + b) as u64
    } else {
        u64::MAX
    }
}

fn mul_wide(a: u64, b: u64) -> (r: u128)
    ensures
        r == a as int * b as int,
{
    assert(a as int * b as int <= u128::MAX) by (nonlinear_arith)
        requires
            a <= u64::MAX,
            b <= u64::MAX,
    ;
    a as u128 * b as u128
}

fn add_sat(a: u64, b: u64) -> (r: u64)
    ensures
        r == sat_add(a, b),
{
    if a <= u64::MAX - b {
        a + b
    } else {
        u64::MAX
    }
}

/// The downgrade threshold in bit/ms: the per-session rate (bit/s) times the
/// threshold fraction (in hundredths), per millisecond.
pub open spec fn threshold_bit_per_ms(single_bandwidth: u64, threshold_100: u64) -> u64 {
    let v = single_bandwidth as int * threshold_100 as int / 100_000;
    if v <= u64::MAX {
        v as u64
    } else {
        u64::MAX
    }
}

/// Usage figures of a session: elapsed ms, total bits, highest and current
/// rate in bit/ms.
pub type Usage = (u64, u64, u64, u64);

/// What a session does after a read.
#[derive(Clone, Copy, Debug)]
pub enum SessionStep {
    /// Less than a second since the last evaluation.
    Continue,
    /// A second or more: the usage figures to publish.
    Report(Usage),
    /// The ip is on the blocklist: end the session.
    Blocked,
}

/// The accounting of one paired session.
pub struct RelaySession {
    pub elapsed: u64,
    pub total: u64,
    pub total_s: u64,
    pub highest_s: u64,
    pub downgrade: bool,
    pub blacked: bool,
    /// When the current second began (ms).
    pub tm: u64,
    pub last_recv_time: u64,
    /// Bit/ms above which a session past the grace period is downgraded.
    pub downgrade_threshold: u64,
    /// The grace period (ms).
    pub start_check: u64,
}

impl RelaySession {
    /// A session that starts at `now` under the current tunables.
    pub fn new(control: &RelayControl, now: u64) -> (r: RelaySession)
        ensures
            r.elapsed == 0 && r.total == 0 && r.total_s == 0 && r.highest_s == 0,
            !r.downgrade && !r.blacked,
            r.tm == now && r.last_recv_time == now,
            r.downgrade_threshold == threshold_bit_per_ms(
                control.single_bandwidth,
                control.downgrade_threshold_100,
            ),
            r.start_check == control.downgrade_start_check,
    {
        let v: u128 = mul_wide(control.single_bandwidth, control.downgrade_threshold_100) / 100_000;
        let t = if v <= u64::MAX as u128 {
            v as u64
        } else {
            u64::MAX
        };
        RelaySession {
            elapsed: 0,
            total: 0,
            total_s: 0,
            highest_s: 0,
            downgrade: false,
            blacked: false,
            tm: now,
            last_recv_time: now,
            downgrade_threshold: t,
            start_check: control.downgrade_start_check,
        }
    }

    /// Accounts `nbytes` read at `now`; says whether they pass the strict
    /// limiter (blacklisted or downgraded session) rather than the normal one,
    /// and how many bits they count.
    pub fn on_bytes(&mut self, nbytes: u64, now: u64) -> (r: (bool, u64))
        ensures
            r.0 == (old(self).blacked || old(self).downgrade),
            r.1 == (if nbytes <= u64::MAX / 8 {
                (nbytes * 8) as u64
            } else {
                u64::MAX
            }),
            final(self).total == sat_add(old(self).total, r.1),
            final(self).total_s == sat_add(old(self).total_s, r.1),
            final(self).last_recv_time == now,
            final(self).elapsed == old(self).elapsed,
            final(self).highest_s == old(self).highest_s,
            final(self).downgrade == old(self).downgrade,
            final(self).blacked == old(self).blacked,
            final(self).tm == old(self).tm,
            final(self).downgrade_threshold == old(self).downgrade_threshold,
            final(self).start_check == old(self).start_check,
    {
        let nb = if nbytes <= u64::MAX / 8 {
            nbytes * 8
        } else {
            u64::MAX
        };
        self.last_recv_time = now;
        self.total = add_sat(self.total, nb);
        self.total_s = add_sat(self.total_s, nb);
        (self.blacked || self.downgrade, nb)
    }

    /// Whether the session has been idle for more than 30 s.
    pub fn idle(&self, now: u64) -> (r: bool)
        ensures
            r == (elapsed_secs(self.last_recv_time, now) > IDLE_TIMEOUT_SECS),
    {
        secs_since(self.last_recv_time, now) > IDLE_TIMEOUT_SECS
    }

    /// Re-evaluates the session after a read at `now`, once a second: ends it
    /// where `ip` is on the blocklist; else takes the blacklist into account,
    /// publishes the usage figures, and downgrades a session past the grace
    /// period whose average rate exceeds the threshold.
    pub fn evaluate(&mut self, control: &RelayControl, ip: &String, now: u64) -> (r: SessionStep)
        ensures
            ({
                let n = if now >= old(self).tm {
                    now - old(self).tm
                } else {
                    0
                };
                if n < 1000 {
                    r == SessionStep::Continue && *final(self) == *old(self)
                } else if has(control.blocklist@, ip@) {
                    r == SessionStep::Blocked
                } else {
                    let speed = (old(self).total_s / n as u64) as u64;
                    let highest = if speed > old(self).highest_s {
                        speed
                    } else {
                        old(self).highest_s
                    };
                    let elapsed = sat_add(old(self).elapsed, n as u64);
                    &&& final(self).blacked == has(control.blacklist@, ip@)
                    &&& final(self).tm == now
                    &&& final(self).total_s == 0
                    &&& final(self).highest_s == highest
                    &&& final(self).elapsed == elapsed
                    &&& final(self).total == old(self).total
                    &&& final(self).downgrade == (old(self).downgrade || (elapsed
                        > old(self).start_check && old(self).total as int > elapsed as int
                        * old(self).downgrade_threshold as int))
                    &&& r == SessionStep::Report((elapsed, old(self).total, highest, speed))
                }
            }),
    {
        let n = if now >= self.tm {
            now - self.tm
        } else {
            0
        };
        if n < 1000 {
            return SessionStep::Continue;
        }
        if list_contains(&control.blocklist, ip) {
            return SessionStep::Blocked;
        }
        self.blacked = list_contains(&control.blacklist, ip);
        self.tm = now;
        let speed = self.total_s / n;
        if speed > self.highest_s {
            self.highest_s = speed;
        }
        self.elapsed = add_sat(self.elapsed, n);
        self.total_s = 0;
        if self.elapsed > self.start_check && !self.downgrade && (self.total as u128)
            > mul_wide(self.elapsed, self.downgrade_threshold) {
            self.downgrade = true;
        }
        SessionStep::Report((self.elapsed, self.total, self.highest_s, speed))
    }
}

/// Whether usage rows are in descending order of total.
pub open spec fn sorted_by_total(v: Seq<(String, Usage)>) -> bool {
    forall|i: int, j: int| 0 <= i < j < v.len() ==> (#[trigger] v[i]).1.1 >= (#[trigger] v[j]).1.1
}

/// The usage rows that have run for some time.
pub open spec fn active_rows(v: Seq<(String, Usage)>) -> Seq<(String, Usage)> {
    v.filter(|x: (String, Usage)| x.1.0 != 0)
}

/// The usage table as the `usage` command shows it: the rows of sessions that
/// have run for some time, by total, descending.
pub fn usage_rows(rows: &Vec<(String, Usage)>) -> (r: Vec<(String, Usage)>)
    ensures
        sorted_by_total(r@),
        r@.to_multiset() == active_rows(rows@).to_multiset(),
{
    broadcast use vstd::seq_lib::group_to_multiset_ensures;

    let mut out: Vec<(String, Usage)> = Vec::new();
    let mut i: usize = 0;
    while i < rows.len()
        invariant
            i <= rows@.len(),
            sorted_by_total(out@),
            out@.to_multiset() == active_rows(rows@.subrange(0, i as int)).to_multiset(),
        decreases rows@.len() - i,
    {
        let u = rows[i].1;
        let row = (rows[i].0.clone(), u);
        assert(row == rows@[i as int]);
        proof {
            assert(rows@.subrange(0, i + 1) =~= rows@.subrange(0, i as int).push(row));
            rows@.subrange(0, i as int).lemma_filter_push(row, |x: (String, Usage)| x.1.0 != 0);
        }
        if u.0 != 0 {
            let mut p: usize = 0;
            while p < out.len() && out[p].1.1 >= u.1
                invariant
                    p <= out@.len(),
                    forall|j: int| 0 <= j < p ==> (#[trigger] out@[j]).1.1 >= u.1,
                decreases out@.len() - p,
            {
                p = p + 1;
            }
            let ghost before = out@;
            out.insert(p, row);
            proof {
                vstd::seq_lib::to_multiset_insert(before, p as int, row);
                vstd::seq_lib::to_multiset_build(active_rows(rows@.subrange(0, i as int)), row);
                assert forall|x: int, y: int| 0 <= x < y < out@.len() implies (#[trigger] out@[x]).1.1
                    >= (#[trigger] out@[y]).1.1 by {
                    if p < before.len() {
                        assert(before[p as int].1.1 < u.1);
                    }
                    if x < p && y == p {
                    } else if x == p && y > p {
                        assert(out@[y] == before[y - 1]);
                        if y - 1 > p {
                            assert(before[p as int].1.1 >= before[y - 1].1.1);
                        }
                    } else {
                        let x2 = if x < p { x } else { x - 1 };
                        let y2 = if y < p { y } else { y - 1 };
                        assert(out@[x] == before[x2]);
                        assert(out@[y] == before[y2]);
                    }
                }
            }
        }
        i = i + 1;
    }
    assert(rows@.subrange(0, rows@.len() as int) =~= rows@);
    out
}

/// What the relay does with an accepted connection.
#[derive(Clone, Copy, Debug, PartialEq, Eq, Structural)]
pub enum Admission {
    /// A plain TCP connection from loopback: one operator command.
    Control,
    /// The source ip is on the blocklist: close at once.
    Drop,
    /// Read its relay request and pair it.
    Pair,
}

impl RelayControl {
    /// Sorts an accepted connection from `addr` (its ip written `ip`); `ws`
    /// says it came on the WebSocket port.
    pub fn accept_kind(&self, addr: crate::addr::SockAddr, ip: &String, ws: bool) -> (r: Admission)
        ensures
            r == if !ws && crate::addr::spec_is_loopback(crate::addr::normalized(addr).ip) {
                Admission::Control
            } else if has(self.blocklist@, ip@) {
                Admission::Drop
            } else {
                Admission::Pair
            },
    {
        let a = crate::addr::try_into_v4(addr);
        if !ws && crate::addr::is_loopback(a.ip) {
            Admission::Control
        } else if list_contains(&self.blocklist, ip) {
            Admission::Drop
        } else {
            Admission::Pair
        }
    }
}

/// Whether a paired session forwards raw bytes: only when neither half is a
/// WebSocket, whose envelope keeps the framing.
pub fn both_raw(a_is_ws: bool, b_is_ws: bool) -> (r: bool)
    ensures
        r == (!a_is_ws && !b_is_ws),
{
    !a_is_ws && !b_is_ws
}

/// The ip that a line of a list file names: its first space-separated word.
pub open spec fn list_line_ip(line: Seq<char>) -> Seq<char> {
    split_spec(crate::text::trim_spec(line), ' ')[0]
}

/// The ips that a list file names, one per line.
pub open spec fn list_file_ips(contents: Seq<char>) -> Seq<Seq<char>> {
    split_spec(contents, '\n').map_values(|l: Seq<char>| list_line_ip(l))
}

/// Adds the ips that a list file names to `v`.
fn load_into(v: &mut Vec<String>, contents: &str)
    ensures
        forall|y: Seq<char>| has(final(v)@, y) <==> (has(old(v)@, y) || list_file_ips(contents@).contains(y)),
{
    let ls = split(contents, '\n');
    let ghost ips = list_file_ips(contents@);
    let ghost lv = ls@.map_values(|x: String| x@);
    let mut i: usize = 0;
    while i < ls.len()
        invariant
            i <= ls@.len(),
            lv == ls@.map_values(|x: String| x@),
            lv == split_spec(contents@, '\n'),
            ips == list_file_ips(contents@),
            forall|y: Seq<char>| has(v@, y) <==> (has(old(v)@, y) || ips.subrange(0, i as int).contains(y)),
        decreases ls@.len() - i,
    {
        let words = tokens(ls[i].as_str());
        let ip = &words[0];
        proof {
            assert(lv[i as int] == ls@[i as int]@);
            assert(ips[i as int] == list_line_ip(lv[i as int]));
            assert(ip@ == ips[i as int]);
        }
        list_insert(v, ip);
        proof {
            assert forall|y: Seq<char>| ips.subrange(0, i + 1).contains(y) <==> (ips.subrange(
                0,
                i as int,
            ).contains(y) || y == ip@) by {
                if ips.subrange(0, i + 1).contains(y) {
                    let k = choose|k: int| 0 <= k < i + 1 && #[trigger] ips.subrange(0, i + 1)[k] == y;
                    if k < i {
                        assert(ips.subrange(0, i as int)[k] == y);
                    }
                }
                if ips.subrange(0, i as int).contains(y) {
                    let k = choose|k: int| 0 <= k < i && #[trigger] ips.subrange(0, i as int)[k] == y;
                    assert(ips.subrange(0, i + 1)[k] == y);
                }
                if y == ip@ {
                    assert(ips.subrange(0, i + 1)[i as int] == y);
                }
            }
        }
        i = i + 1;
    }
    assert(ips.subrange(0, ls@.len() as int) =~= ips);
}

impl RelayControl {
    /// Adds the ips that a list file names (first word of each line) to the
    /// blacklist (`black`) or the blocklist.
    pub fn load_list(&mut self, contents: &str, black: bool)
        ensures
            black ==> final(self).blocklist == old(self).blocklist && forall|y: Seq<char>|
                has(final(self).blacklist@, y) <==> (has(old(self).blacklist@, y) || list_file_ips(
                    contents@,
                ).contains(y)),
            !black ==> final(self).blacklist == old(self).blacklist && forall|y: Seq<char>|
                has(final(self).blocklist@, y) <==> (has(old(self).blocklist@, y) || list_file_ips(
                    contents@,
                ).contains(y)),
            final(self).downgrade_threshold_100 == old(self).downgrade_threshold_100,
            final(self).downgrade_start_check == old(self).downgrade_start_check,
            final(self).limit_speed == old(self).limit_speed,
            final(self).total_bandwidth == old(self).total_bandwidth,
            final(self).single_bandwidth == old(self).single_bandwidth,
    {
        if black {
            load_into(&mut self.blacklist, contents);
        } else {
            load_into(&mut self.blocklist, contents);
        }
    }
}

} // verus!
