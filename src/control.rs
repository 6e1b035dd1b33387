//! The rendezvous server's operator commands, answered on a loopback socket.

use crate::rendezvous::RendezvousServer;
use crate::strset::{lines, write_lines};
use crate::table::{find_key, index_of, keys_of, remove_key, retain_flagged, select};
use crate::text::{
    cmd_arg, cmd_tokens, decimal, decimal_value, is_word, parse_u64, tokens, u64_text,
};
use crate::throttle::{
    elapsed_secs, secs_since, BlockCounter, IpChange, DAY_SECONDS, IP_BLOCK_DUR, IP_CHANGE_DUR_X2,
};
use vstd::prelude::*;
use vstd::string::*;

verus! {

/// Rows a listing shows from its start.
pub const PAGE_ROWS: usize = 10;

/// The answer to an operator command.
pub enum RendezvousCmdReply {
    /// Reply text.
    Text(String),
    /// `test-geo`: the caller checks that the arguments are ip addresses, then
    /// shows the relay server that would be picked.
    TestGeo { a: String, b: Option<String> },
}

/// The operator commands of the rendezvous server.
pub ghost enum RendezvousCmd {
    Help,
    RelayServers,
    IpBlocker,
    IpChanges,
    AlwaysUseRelay,
    TestGeo,
    Unknown,
}

/// The command that a command word names.
pub open spec fn rendezvous_cmd_kind(t0: Seq<char>) -> RendezvousCmd {
    if t0 == "h"@ {
        RendezvousCmd::Help
    } else if t0 == "relay-servers"@ || t0 == "rs"@ {
        RendezvousCmd::RelayServers
    } else if t0 == "ip-blocker"@ || t0 == "ib"@ {
        RendezvousCmd::IpBlocker
    } else if t0 == "ip-changes"@ || t0 == "ic"@ {
        RendezvousCmd::IpChanges
    } else if t0 == "always-use-relay"@ || t0 == "aur"@ {
        RendezvousCmd::AlwaysUseRelay
    } else if t0 == "test-geo"@ || t0 == "tg"@ {
        RendezvousCmd::TestGeo
    } else {
        RendezvousCmd::Unknown
    }
}

/// The operator help text.
pub open spec fn rendezvous_help() -> Seq<char> {
    "relay-servers(rs) <separated by ,>\nreload-geo(rg)\nip-blocker(ib) [<ip>|<number>] [-]\nip-changes(ic) [<id>|<number>] [-]\nalways-use-relay(aur)\ntest-geo(tg) <ip1> <ip2>\n"@
}

/// Whether an abuse entry is still of interest: one of its windows runs.
pub open spec fn blocker_keep(c: BlockCounter, now: u64) -> bool {
    elapsed_secs(c.hit_time, now) <= IP_BLOCK_DUR || elapsed_secs(c.ids_time, now) <= DAY_SECONDS
}

/// Whether an ip-change entry is still of interest: young, with several ips.
pub open spec fn change_keep(c: IpChange, now: u64) -> bool {
    elapsed_secs(c.start, now) < IP_CHANGE_DUR_X2 && c.ips@.len() > 1
}

/// `count/ages` of an abuse entry: attempts, seconds since the last, distinct
/// ids, seconds since the id set changed.
pub open spec fn counter_line(c: BlockCounter, now: u64) -> Seq<char> {
    decimal(c.hits as nat) + "/"@ + decimal(elapsed_secs(c.hit_time, now) as nat) + "s "@ + decimal(
        c.ids@.len(),
    ) + "/"@ + decimal(elapsed_secs(c.ids_time, now) as nat) + "s\n"@
}

/// One `"ip": count` item.
pub open spec fn ip_item(e: (String, u32)) -> Seq<char> {
    "\""@ + e.0@ + "\": "@ + decimal(e.1 as nat)
}

/// The items of an ip-count list, separated by `, `.
pub open spec fn ip_items(v: Seq<(String, u32)>) -> Seq<char>
    decreases v.len(),
{
    if v.len() == 0 {
        Seq::empty()
    } else if v.len() == 1 {
        ip_item(v[0])
    } else {
        ip_items(v.drop_last()) + ", "@ + ip_item(v.last())
    }
}

/// `age ips` of an ip-change entry.
pub open spec fn change_line(c: IpChange, now: u64) -> Seq<char> {
    decimal(elapsed_secs(c.start, now) as nat) + "s {"@ + ip_items(c.ips@) + "}\n"@
}

/// Rows `lo..hi` of the abuse table, each `ip: count/ages`.
pub open spec fn blocker_rows(v: Seq<(String, BlockCounter)>, lo: int, hi: int, now: u64) -> Seq<char>
    decreases hi - lo,
{
    if hi <= lo {
        Seq::empty()
    } else {
        blocker_rows(v, lo, hi - 1, now) + v[hi - 1].0@ + ": "@ + counter_line(v[hi - 1].1, now)
    }
}

/// Rows `lo..hi` of the ip-change table, each `id: age ips`.
pub open spec fn change_rows(v: Seq<(String, IpChange)>, lo: int, hi: int, now: u64) -> Seq<char>
    decreases hi - lo,
{
    if hi <= lo {
        Seq::empty()
    } else {
        change_rows(v, lo, hi - 1, now) + v[hi - 1].0@ + ": "@ + change_line(v[hi - 1].1, now)
    }
}

/// Where a listing starts: a number argument of at most `max`, 0 without an
/// argument, or `None` where the argument names an entry.
pub open spec fn list_start(arg: Option<Seq<char>>, max: u64) -> Option<int> {
    match arg {
        None => Some(0),
        Some(a) => match decimal_value(a) {
            Some(v) if v <= max => Some(v as int),
            _ => None,
        },
    }
}

/// The end of a page of rows that starts at `start` in a table of `len`.
pub open spec fn page_end(start: int, len: int) -> int {
    if start + PAGE_ROWS < len {
        start + PAGE_ROWS
    } else {
        len
    }
}

/// The flags of the abuse entries that are kept.
pub open spec fn blocker_flags(v: Seq<(String, BlockCounter)>, now: u64) -> Seq<bool> {
    Seq::new(v.len(), |i: int| blocker_keep(v[i].1, now))
}

/// The flags of the ip-change entries that are kept.
pub open spec fn change_flags(v: Seq<(String, IpChange)>, now: u64) -> Seq<bool> {
    Seq::new(v.len(), |i: int| change_keep(v[i].1, now))
}

/// The entry of `k` in a table, where there is one.
pub open spec fn entry_of<V>(v: Seq<(String, V)>, k: Seq<char>) -> Option<V> {
    let i = index_of(keys_of(v), k);
    if i >= 0 {
        Some(v[i].1)
    } else {
        None
    }
}

/// Appends `b` to `a`.
fn push_str(a: &mut String, b: &str)
    ensures
        final(a)@ == old(a)@ + b@,
{
    a.append(b);
}

fn counter_text(c: &BlockCounter, now: u64) -> (r: String)
    ensures
        r@ == counter_line(*c, now),
{
    let mut r = u64_text(c.hits as u64);
    push_str(&mut r, "/");
    push_str(&mut r, u64_text(secs_since(c.hit_time, now)).as_str());
    push_str(&mut r, "s ");
    push_str(&mut r, u64_text(c.ids.len() as u64).as_str());
    push_str(&mut r, "/");
    push_str(&mut r, u64_text(secs_since(c.ids_time, now)).as_str());
    push_str(&mut r, "s\n");
    r
}

fn change_text(c: &IpChange, now: u64) -> (r: String)
    ensures
        r@ == change_line(*c, now),
{
    let mut r = u64_text(secs_since(c.start, now));
    push_str(&mut r, "s {");
    let ghost pre = r@;
    let mut i: usize = 0;
    while i < c.ips.len()
        invariant
            i <= c.ips@.len(),
            r@ == pre + ip_items(c.ips@.subrange(0, i as int)),
        decreases c.ips@.len() - i,
    {
        let ghost before = r@;
        if i > 0 {
            push_str(&mut r, ", ");
        }
        push_str(&mut r, "\"");
        push_str(&mut r, c.ips[i].0.as_str());
        push_str(&mut r, "\": ");
        push_str(&mut r, u64_text(c.ips[i].1 as u64).as_str());
        proof {
            let s1 = c.ips@.subrange(0, i + 1);
            assert(s1.drop_last() =~= c.ips@.subrange(0, i as int));
            assert(s1.last() == c.ips@[i as int]);
            if i == 0 {
                assert(c.ips@.subrange(0, 0) =~= Seq::<(String, u32)>::empty());
            }
        }
        i = i + 1;
    }
    assert(c.ips@.subrange(0, c.ips@.len() as int) =~= c.ips@);
    push_str(&mut r, "}\n");
    r
}

impl RendezvousServer {
    /// Runs one operator command (a line such as `ib 1.2.3.4 -`) at `now`.
    pub fn check_cmd(&mut self, cmd: &str, now: u64) -> (r: RendezvousCmdReply)
        requires
            old(self).wf(),
        ensures
            final(self).wf(),
            final(self).pm == old(self).pm,
            final(self).sk == old(self).sk,
            final(self).mask == old(self).mask,
            final(self).key == old(self).key,
            final(self).serial == old(self).serial,
            final(self).rotation == old(self).rotation,
            final(self).rendezvous_servers == old(self).rendezvous_servers,
            final(self).local_ip == old(self).local_ip,
            final(self).version == old(self).version,
            final(self).software_url == old(self).software_url,
            ({
                let t = cmd_tokens(cmd@);
                let arg = cmd_arg(t, 1);
                let kind = rendezvous_cmd_kind(t[0]);
                &&& (kind != RendezvousCmd::RelayServers || arg is None) ==> final(self).relay_servers
                    == old(self).relay_servers && final(self).relay_servers0 == old(self).relay_servers0
                &&& (kind != RendezvousCmd::AlwaysUseRelay || arg is None) ==> final(self).always_use_relay
                    == old(self).always_use_relay
                &&& kind != RendezvousCmd::IpBlocker ==> final(self).ip_blocker == old(self).ip_blocker
                &&& kind != RendezvousCmd::IpChanges ==> final(self).ip_changes == old(self).ip_changes
                &&& match kind {
                    RendezvousCmd::Help => (r matches RendezvousCmdReply::Text(x) && x@
                        == rendezvous_help()),
                    RendezvousCmd::RelayServers => match arg {
                        Some(a) => (r matches RendezvousCmdReply::Text(x) && x@.len() == 0)
                            && final(self).relay_servers0@.map_values(|x: String| x@)
                            == crate::rendezvous::server_pieces(a),
                        None => (r matches RendezvousCmdReply::Text(x) && x@ == lines(
                            old(self).relay_servers@.map_values(|s: String| s@),
                        )),
                    },
                    RendezvousCmd::IpBlocker => {
                        let v = select(
                            old(self).ip_blocker.entries@,
                            blocker_flags(old(self).ip_blocker.entries@, now),
                            old(self).ip_blocker.entries@.len() as int,
                        );
                        let head = decimal(v.len()) + "\n"@;
                        match list_start(arg, i32::MAX as u64) {
                            Some(s) => final(self).ip_blocker.entries@ == v && (r matches RendezvousCmdReply::Text(x)
                                && x@ == head + blocker_rows(v, s, page_end(s, v.len() as int), now)),
                            None => {
                                let k = arg.unwrap();
                                let i = index_of(keys_of(v), k);
                                &&& r matches RendezvousCmdReply::Text(x) && x@ == head + match entry_of(v, k) {
                                    Some(c) => counter_line(c, now),
                                    None => Seq::empty(),
                                }
                                &&& final(self).ip_blocker.entries@ == if cmd_arg(t, 2) == Some("-"@) && i >= 0 {
                                    v.remove(i)
                                } else {
                                    v
                                }
                            },
                        }
                    },
                    RendezvousCmd::IpChanges => {
                        let v = select(
                            old(self).ip_changes.entries@,
                            change_flags(old(self).ip_changes.entries@, now),
                            old(self).ip_changes.entries@.len() as int,
                        );
                        let head = decimal(v.len()) + "\n"@;
                        match list_start(arg, 10_000_000) {
                            Some(s) => final(self).ip_changes.entries@ == v && (r matches RendezvousCmdReply::Text(x)
                                && x@ == head + change_rows(v, s, page_end(s, v.len() as int), now)),
                            None => {
                                let k = arg.unwrap();
                                let i = index_of(keys_of(v), k);
                                &&& r matches RendezvousCmdReply::Text(x) && x@ == head + match entry_of(v, k) {
                                    Some(c) => change_line(c, now),
                                    None => Seq::empty(),
                                }
                                &&& final(self).ip_changes.entries@ == if cmd_arg(t, 2) == Some("-"@) && i >= 0 {
                                    v.remove(i)
                                } else {
                                    v
                                }
                            },
                        }
                    },
                    RendezvousCmd::AlwaysUseRelay => match arg {
                        Some(a) => (r matches RendezvousCmdReply::Text(x) && x@.len() == 0)
                            && final(self).always_use_relay == (a == "Y"@ || a == "y"@),
                        None => (r matches RendezvousCmdReply::Text(x) && x@ == "ALWAYS_USE_RELAY: "@
                            + (if old(self).always_use_relay { "true"@ } else { "false"@ }) + "\n"@),
                    },
                    RendezvousCmd::TestGeo => match arg {
                        Some(a) => (r matches RendezvousCmdReply::TestGeo { a: x, b: y } && x@ == a
                            && crate::relay::opt_view(y) == cmd_arg(t, 2)),
                        None => (r matches RendezvousCmdReply::Text(x) && x@.len() == 0),
                    },
                    RendezvousCmd::Unknown => (r matches RendezvousCmdReply::Text(x) && x@.len() == 0),
                }
            }),
    {
        let t = tokens(cmd);
        let ghost tv = t@.map_values(|x: String| x@);
        assert(tv[0] == t@[0]@);
        let t0 = t[0].as_str();
        let has_arg = t.len() > 1;
        proof {
            if has_arg {
                assert(tv[1] == t@[1]@);
            }
            if t.len() > 2 {
                assert(tv[2] == t@[2]@);
            }
        }
        if is_word(t0, "h") {
            return RendezvousCmdReply::Text(String::from_str("relay-servers(rs) <separated by ,>\nreload-geo(rg)\nip-blocker(ib) [<ip>|<number>] [-]\nip-changes(ic) [<id>|<number>] [-]\nalways-use-relay(aur)\ntest-geo(tg) <ip1> <ip2>\n"));
        }
        if is_word(t0, "relay-servers") || is_word(t0, "rs") {
            if has_arg {
                self.parse_relay_servers(t[1].as_str());
                return RendezvousCmdReply::Text(String::new());
            }
            return RendezvousCmdReply::Text(write_lines(&self.relay_servers));
        }
        if is_word(t0, "ip-blocker") || is_word(t0, "ib") {
            let ghost old_entries = self.ip_blocker.entries@;
            let mut flags: Vec<bool> = Vec::new();
            let mut i: usize = 0;
            while i < self.ip_blocker.entries.len()
                invariant
                    i <= self.ip_blocker.entries@.len(),
                    self.ip_blocker.entries@ == old_entries,
                    flags@ == blocker_flags(old_entries, now).subrange(0, i as int),
                decreases self.ip_blocker.entries@.len() - i,
            {
                let c = &self.ip_blocker.entries[i].1;
                flags.push(secs_since(c.hit_time, now) <= IP_BLOCK_DUR || secs_since(c.ids_time, now) <= DAY_SECONDS);
                i = i + 1;
                assert(flags@ =~= blocker_flags(old_entries, now).subrange(0, i as int));
            }
            assert(flags@ =~= blocker_flags(old_entries, now));
            retain_flagged(&mut self.ip_blocker.entries, &flags);
            let ghost v = self.ip_blocker.entries@;
            let mut res = u64_text(self.ip_blocker.entries.len() as u64);
            push_str(&mut res, "\n");
            let start: Option<usize> = if has_arg {
                match parse_u64(t[1].as_str()) {
                    Some(n) => if n <= i32::MAX as u64 { Some(n as usize) } else { None },
                    None => None,
                }
            } else {
                Some(0)
            };
            match start {
                Some(s) => {
                    let len = self.ip_blocker.entries.len();
                    let end = if s + PAGE_ROWS < len { s + PAGE_ROWS } else { len };
                    let ghost head = res@;
                    let mut k: usize = s;
                    while k < end
                        invariant
                            s <= k,
                            k <= end || k == s,
                            end <= len,
                            len == v.len(),
                            self.ip_blocker.entries@ == v,
                            res@ == head + blocker_rows(v, s as int, k as int, now),
                        decreases end - k,
                    {
                        let e = &self.ip_blocker.entries[k];
                        push_str(&mut res, e.0.as_str());
                        push_str(&mut res, ": ");
                        push_str(&mut res, counter_text(&e.1, now).as_str());
                        assert(v[k as int] == *e);
                        assert(blocker_rows(v, s as int, k + 1, now) == blocker_rows(v, s as int, k as int, now) + v[k as int].0@ + ": "@ + counter_line(v[k as int].1, now));
                        assert(res@ =~= head + blocker_rows(v, s as int, k + 1, now));
                        k = k + 1;
                    }
                    proof {
                        if end <= s {
                            assert(blocker_rows(v, s as int, end as int, now) == Seq::<char>::empty());
                            assert(res@ =~= head + blocker_rows(v, s as int, end as int, now));
                        }
                    }
                },
                None => {
                    let key = &t[1];
                    match find_key(&self.ip_blocker.entries, key) {
                        Some(i) => {
                            push_str(&mut res, counter_text(&self.ip_blocker.entries[i].1, now).as_str());
                        },
                        None => {
                            assert(res@ =~= res@ + Seq::<char>::empty());
                        },
                    }
                    if t.len() > 2 && is_word(t[2].as_str(), "-") {
                        remove_key(&mut self.ip_blocker.entries, key);
                    }
                },
            }
            return RendezvousCmdReply::Text(res);
        }
        if is_word(t0, "ip-changes") || is_word(t0, "ic") {
            let ghost old_entries = self.ip_changes.entries@;
            let mut flags: Vec<bool> = Vec::new();
            let mut i: usize = 0;
            while i < self.ip_changes.entries.len()
                invariant
                    i <= self.ip_changes.entries@.len(),
                    self.ip_changes.entries@ == old_entries,
                    flags@ == change_flags(old_entries, now).subrange(0, i as int),
                decreases self.ip_changes.entries@.len() - i,
            {
                let c = &self.ip_changes.entries[i].1;
                flags.push(secs_since(c.start, now) < IP_CHANGE_DUR_X2 && c.ips.len() > 1);
                i = i + 1;
                assert(flags@ =~= change_flags(old_entries, now).subrange(0, i as int));
            }
            assert(flags@ =~= change_flags(old_entries, now));
            proof {
                let pr = |e: (String, IpChange)| crate::table::unique_keys(keys_of(e.1.ips@));
                assert forall|j: int| 0 <= j < old_entries.len() implies pr(#[trigger] old_entries[j]) by {
                    assert(old(self).ip_changes.entries@[j] == old_entries[j]);
                }
                crate::table::lemma_select_all(old_entries, flags@, old_entries.len() as int, pr);
            }
            retain_flagged(&mut self.ip_changes.entries, &flags);
            let ghost v = self.ip_changes.entries@;
            let mut res = u64_text(self.ip_changes.entries.len() as u64);
            push_str(&mut res, "\n");
            let start: Option<usize> = if has_arg {
                match parse_u64(t[1].as_str()) {
                    Some(n) => if n <= 10_000_000 { Some(n as usize) } else { None },
                    None => None,
                }
            } else {
                Some(0)
            };
            match start {
                Some(s) => {
                    let len = self.ip_changes.entries.len();
                    let end = if s + PAGE_ROWS < len { s + PAGE_ROWS } else { len };
                    let ghost head = res@;
                    let mut k: usize = s;
                    while k < end
                        invariant
                            s <= k,
                            k <= end || k == s,
                            end <= len,
                            len == v.len(),
                            self.ip_changes.entries@ == v,
                            res@ == head + change_rows(v, s as int, k as int, now),
                        decreases end - k,
                    {
                        let e = &self.ip_changes.entries[k];
                        push_str(&mut res, e.0.as_str());
                        push_str(&mut res, ": ");
                        push_str(&mut res, change_text(&e.1, now).as_str());
                        assert(v[k as int] == *e);
                        assert(change_rows(v, s as int, k + 1, now) == change_rows(v, s as int, k as int, now) + v[k as int].0@ + ": "@ + change_line(v[k as int].1, now));
                        assert(res@ =~= head + change_rows(v, s as int, k + 1, now));
                        k = k + 1;
                    }
                    proof {
                        if end <= s {
                            assert(change_rows(v, s as int, end as int, now) == Seq::<char>::empty());
                            assert(res@ =~= head + change_rows(v, s as int, end as int, now));
                        }
                    }
                },
                None => {
                    let key = &t[1];
                    match find_key(&self.ip_changes.entries, key) {
                        Some(i) => {
                            push_str(&mut res, change_text(&self.ip_changes.entries[i].1, now).as_str());
                        },
                        None => {
                            assert(res@ =~= res@ + Seq::<char>::empty());
                        },
                    }
                    if t.len() > 2 && is_word(t[2].as_str(), "-") {
                        let ghost before = self.ip_changes.entries@;
                        remove_key(&mut self.ip_changes.entries, key);
                        proof {
                            assert forall|j: int| 0 <= j < self.ip_changes.entries@.len() implies crate::table::unique_keys(keys_of(#[trigger] self.ip_changes.entries@[j].1.ips@)) by {
                                let i = index_of(keys_of(before), key@);
                                if i >= 0 {
                                    let j2 = if j < i { j } else { j + 1 };
                                    assert(self.ip_changes.entries@[j] == before[j2]);
                                }
                            }
                        }
                    }
                },
            }
            return RendezvousCmdReply::Text(res);
        }
        if is_word(t0, "always-use-relay") || is_word(t0, "aur") {
            if has_arg {
                self.always_use_relay = is_word(t[1].as_str(), "Y") || is_word(t[1].as_str(), "y");
                return RendezvousCmdReply::Text(String::new());
            }
            let mut res = String::from_str("ALWAYS_USE_RELAY: ");
            push_str(&mut res, if self.always_use_relay { "true" } else { "false" });
            push_str(&mut res, "\n");
            return RendezvousCmdReply::Text(res);
        }
        if is_word(t0, "test-geo") || is_word(t0, "tg") {
            if has_arg {
                let b = if t.len() > 2 {
                    Some(t[2].clone())
                } else {
                    None
                };
                return RendezvousCmdReply::TestGeo { a: t[1].clone(), b };
            }
            return RendezvousCmdReply::Text(String::new());
        }
        RendezvousCmdReply::Text(String::new())
    }
}

} // verus!
