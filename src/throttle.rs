//! Abuse throttling per source ip, and the history of ip changes per peer.
//!
//! Times are milliseconds on a monotonic clock; windows are whole seconds, as
//! the elapsed time is counted in whole seconds.

use crate::table::{find_key, index_of, keys_of, lemma_unique_push, unique_keys};
use vstd::prelude::*;

verus! {

/// Window of the per-ip attempt counter, in seconds.
pub const IP_BLOCK_DUR: u64 = 60;

/// Window of the per-ip set of distinct ids, in seconds.
pub const DAY_SECONDS: u64 = 86400;

/// An attempt is refused while the counter of its window shows more than this,
/// that is from the 32nd attempt within 60 s on.
pub const MAX_HITS: u32 = 30;

/// Distinct ids that an ip may show before new ones are refused.
pub const MAX_IDS: usize = 300;

/// Window of the ip-change history, in seconds.
pub const IP_CHANGE_DUR: u64 = 180;

/// Age in seconds after which an ip-change entry is dropped.
pub const IP_CHANGE_DUR_X2: u64 = 360;

/// Whole seconds from `t` to `now` (0 where the clock reads earlier).
pub open spec fn elapsed_secs(t: u64, now: u64) -> int {
    if now >= t {
        (now - t) as int / 1000
    } else {
        0
    }
}

/// Whole seconds from `t` to `now`.
pub fn secs_since(t: u64, now: u64) -> (r: u64)
    ensures
        r == elapsed_secs(t, now),
{
    if now >= t {
        (now - t) / 1000
    } else {
        0
    }
}

/// The two counters kept for one source ip.
pub struct BlockCounter {
    pub hits: u32,
    pub hit_time: u64,
    pub ids: Vec<String>,
    pub ids_time: u64,
}

pub ghost struct CounterView {
    pub hits: u32,
    pub hit_time: u64,
    pub ids: Seq<Seq<char>>,
    pub ids_time: u64,
}

impl View for BlockCounter {
    type V = CounterView;

    open spec fn view(&self) -> CounterView {
        CounterView {
            hits: self.hits,
            hit_time: self.hit_time,
            ids: self.ids@.map_values(|s: String| s@),
            ids_time: self.ids_time,
        }
    }
}

/// The attempt counter is full and its window still runs.
pub open spec fn rate_blocked(c: CounterView, now: u64) -> bool {
    elapsed_secs(c.hit_time, now) <= IP_BLOCK_DUR && c.hits > MAX_HITS
}

/// The id set is full and its window still runs.
pub open spec fn ids_full(c: CounterView, now: u64) -> bool {
    elapsed_secs(c.ids_time, now) <= DAY_SECONDS && c.ids.len() > MAX_IDS
}

/// Whether an attempt of `id` passes, given the counters of its ip.
pub open spec fn permits(c: Option<CounterView>, id: Seq<char>, now: u64) -> bool {
    match c {
        None => true,
        Some(c) => !rate_blocked(c, now) && (!ids_full(c, now) || c.ids.contains(id)),
    }
}

/// The counters of an ip after an attempt of `id`.
pub open spec fn counter_after(c: Option<CounterView>, id: Seq<char>, now: u64) -> CounterView {
    match c {
        None => CounterView { hits: 1, hit_time: now, ids: seq![id], ids_time: now },
        Some(c) => if rate_blocked(c, now) {
            c
        } else {
            let hits: u32 = if elapsed_secs(c.hit_time, now) > IP_BLOCK_DUR {
                1
            } else {
                (c.hits + 1) as u32
            };
            if ids_full(c, now) {
                CounterView { hits: hits, hit_time: now, ids: c.ids, ids_time: c.ids_time }
            } else {
                let kept = if elapsed_secs(c.ids_time, now) > DAY_SECONDS {
                    Seq::empty()
                } else {
                    c.ids
                };
                CounterView {
                    hits: hits,
                    hit_time: now,
                    ids: if c.ids.contains(id) {
                        kept
                    } else {
                        kept.push(id)
                    },
                    ids_time: now,
                }
            }
        },
    }
}

/// Within 60 s of the last counted attempt, a counter past 30 refuses every
/// attempt and stays as it is; once more than 60 s have gone by, the count starts
/// again at one and the attempt passes, unless it brings a new id to a full id set.
pub proof fn lemma_rate_window(c: CounterView, id: Seq<char>, now: u64)
    ensures
        c.hits > MAX_HITS && elapsed_secs(c.hit_time, now) <= IP_BLOCK_DUR ==> !permits(
            Some(c),
            id,
            now,
        ) && counter_after(Some(c), id, now) == c,
        elapsed_secs(c.hit_time, now) > IP_BLOCK_DUR ==> counter_after(Some(c), id, now).hits == 1
            && (permits(Some(c), id, now) <==> (!ids_full(c, now) || c.ids.contains(id))),
{
}

/// The counters of `ip` in a table.
pub open spec fn counter_of(v: Seq<(Seq<char>, CounterView)>, ip: Seq<char>) -> Option<
    CounterView,
> {
    let i = index_of(v.map_values(|e: (Seq<char>, CounterView)| e.0), ip);
    if i >= 0 {
        Some(v[i].1)
    } else {
        None
    }
}

/// The table after an attempt of `id` from `ip`.
pub open spec fn blocker_after(
    v: Seq<(Seq<char>, CounterView)>,
    ip: Seq<char>,
    id: Seq<char>,
    now: u64,
) -> Seq<(Seq<char>, CounterView)> {
    let i = index_of(v.map_values(|e: (Seq<char>, CounterView)| e.0), ip);
    if i >= 0 {
        v.update(i, (ip, counter_after(Some(v[i].1), id, now)))
    } else {
        v.push((ip, counter_after(None, id, now)))
    }
}

/// The keys of an abuse table view.
pub open spec fn blocker_keys(v: Seq<(Seq<char>, CounterView)>) -> Seq<Seq<char>> {
    v.map_values(|e: (Seq<char>, CounterView)| e.0)
}

/// After an attempt from `ip`, the table holds for `ip` the counters that
/// `counter_after` gives, and its keys stay distinct.
pub proof fn lemma_blocker_after(v: Seq<(Seq<char>, CounterView)>, ip: Seq<char>, id: Seq<char>, now: u64)
    requires
        unique_keys(blocker_keys(v)),
    ensures
        unique_keys(blocker_keys(blocker_after(v, ip, id, now))),
        counter_of(blocker_after(v, ip, id, now), ip) == Some(
            counter_after(counter_of(v, ip), id, now),
        ),
{
    let ks = blocker_keys(v);
    let w = blocker_after(v, ip, id, now);
    let i = index_of(ks, ip);
    if i >= 0 {
        assert(exists|j: int| 0 <= j < ks.len() && ks[j] == ip);
        assert(blocker_keys(w) =~= ks);
        crate::table::lemma_index_of(blocker_keys(w), ip, i);
    } else {
        lemma_unique_push(ks, ip);
        assert(blocker_keys(w) =~= ks.push(ip));
        crate::table::lemma_index_of(blocker_keys(w), ip, ks.len() as int);
    }
}

/// The table after `k` attempts of `id` from `ip`, all at `now`.
pub open spec fn attempts(
    v: Seq<(Seq<char>, CounterView)>,
    ip: Seq<char>,
    id: Seq<char>,
    now: u64,
    k: nat,
) -> Seq<(Seq<char>, CounterView)>
    decreases k,
{
    if k == 0 {
        v
    } else {
        blocker_after(attempts(v, ip, id, now, (k - 1) as nat), ip, id, now)
    }
}

proof fn lemma_attempts(v: Seq<(Seq<char>, CounterView)>, ip: Seq<char>, id: Seq<char>, now: u64, k: nat)
    requires
        unique_keys(blocker_keys(v)),
        counter_of(v, ip) is None,
        1 <= k <= 31,
    ensures
        unique_keys(blocker_keys(attempts(v, ip, id, now, k))),
        counter_of(attempts(v, ip, id, now, k), ip) == Some(
            CounterView { hits: k as u32, hit_time: now, ids: seq![id], ids_time: now },
        ),
    decreases k,
{
    if k == 1 {
        lemma_blocker_after(v, ip, id, now);
    } else {
        lemma_attempts(v, ip, id, now, (k - 1) as nat);
        let prev = attempts(v, ip, id, now, (k - 1) as nat);
        lemma_blocker_after(prev, ip, id, now);
        let c = counter_of(prev, ip).unwrap();
        assert(c.ids[0] == id);
        assert(c.ids.contains(id));
    }
}

/// Attempts from one ip at one instant, starting with no record of it: the
/// first 31 pass, the 32nd is refused, and that attempt passes once more than
/// 60 s have gone by.
pub proof fn lemma_attempt_limit(
    v: Seq<(Seq<char>, CounterView)>,
    ip: Seq<char>,
    id: Seq<char>,
    now: u64,
    later: u64,
)
    requires
        unique_keys(blocker_keys(v)),
        counter_of(v, ip) is None,
        elapsed_secs(now, later) > IP_BLOCK_DUR,
    ensures
        forall|k: nat| k < 31 ==> permits(counter_of(#[trigger] attempts(v, ip, id, now, k), ip), id, now),
        !permits(counter_of(attempts(v, ip, id, now, 31), ip), id, now),
        permits(counter_of(attempts(v, ip, id, now, 31), ip), id, later),
{
    assert forall|k: nat| k < 31 implies permits(counter_of(#[trigger] attempts(v, ip, id, now, k), ip), id, now) by {
        if k >= 1 {
            lemma_attempts(v, ip, id, now, k);
        }
    }
    lemma_attempts(v, ip, id, now, 31);
}

/// Per-ip abuse counters.
pub struct IpBlocker {
    pub entries: Vec<(String, BlockCounter)>,
}

impl View for IpBlocker {
    type V = Seq<(Seq<char>, CounterView)>;

    open spec fn view(&self) -> Seq<(Seq<char>, CounterView)> {
        self.entries@.map_values(|e: (String, BlockCounter)| (e.0@, e.1@))
    }
}

/// Whether `id` occurs in `ids`.
fn contains_id(ids: &Vec<String>, id: &String) -> (r: bool)
    ensures
        r == ids@.map_values(|s: String| s@).contains(id@),
{
    let mut i: usize = 0;
    while i < ids.len()
        invariant
            i <= ids@.len(),
            forall|j: int| 0 <= j < i ==> ids@[j]@ != id@,
        decreases ids@.len() - i,
    {
        if ids[i] == *id {
            assert(ids@.map_values(|s: String| s@)[i as int] == id@);
            return true;
        }
        i = i + 1;
    }
    let ghost vs = ids@.map_values(|s: String| s@);
    assert forall|j: int| 0 <= j < vs.len() implies #[trigger] vs[j] != id@ by {}
    false
}

impl IpBlocker {
    pub open spec fn wf(&self) -> bool {
        unique_keys(keys_of(self.entries@))
    }

    pub fn new() -> (r: IpBlocker)
        ensures
            r.wf(),
            r@ == Seq::<(Seq<char>, CounterView)>::empty(),
    {
        let r = IpBlocker { entries: Vec::new() };
        assert(r@ =~= Seq::<(Seq<char>, CounterView)>::empty());
        r
    }

    /// Records an attempt of `id` from `ip` and says whether it passes: the
    /// 32nd attempt within 60 s of the previous ones is refused, and so is a new
    /// id beyond 300 distinct ids within a day. The first attempt counts as one.
    pub fn check_ip_blocker(&mut self, ip: &String, id: &String, now: u64) -> (r: bool)
        requires
            old(self).wf(),
        ensures
            final(self).wf(),
            r == permits(counter_of(old(self)@, ip@), id@, now),
            final(self)@ == blocker_after(old(self)@, ip@, id@, now),
    {
        let ghost keys = self@.map_values(|e: (Seq<char>, CounterView)| e.0);
        assert(keys =~= keys_of(self.entries@));
        match find_key(&self.entries, ip) {
            None => {
                let mut ids: Vec<String> = Vec::new();
                ids.push(id.clone());
                let c = BlockCounter { hits: 1, hit_time: now, ids, ids_time: now };
                proof {
                    lemma_unique_push(keys_of(self.entries@), ip@);
                }
                assert(c@.ids =~= seq![id@]);
                assert(c@ == counter_after(None, id@, now));
                self.entries.push((ip.clone(), c));
                assert(self@ =~= old(self)@.push((ip@, counter_after(None, id@, now))));
                assert(keys_of(self.entries@) =~= keys_of(old(self).entries@).push(ip@));
                assert(self@ =~= blocker_after(old(self)@, ip@, id@, now));
                true
            },
            Some(i) => {
                let (key, mut c) = self.entries.remove(i);
                let ghost c0 = c@;
                assert(c0 == old(self)@[i as int].1);
                let mut pass = true;
                if secs_since(c.hit_time, now) > IP_BLOCK_DUR {
                    c.hits = 0;
                } else if c.hits > MAX_HITS {
                    pass = false;
                }
                if pass {
                    c.hits = c.hits + 1;
                    c.hit_time = now;
                    let is_new = !contains_id(&c.ids, id);
                    let ids_expired = secs_since(c.ids_time, now) > DAY_SECONDS;
                    let full = !ids_expired && c.ids.len() > MAX_IDS;
                    if ids_expired {
                        c.ids = Vec::new();
                    }
                    if full {
                        pass = !is_new;
                    } else {
                        if is_new {
                            let ghost before = c.ids@;
                            c.ids.push(id.clone());
                            assert(c.ids@.map_values(|s: String| s@) =~= before.map_values(
                                |s: String| s@,
                            ).push(id@));
                        }
                        c.ids_time = now;
                    }
                    assert(c@.ids =~= counter_after(Some(c0), id@, now).ids);
                }
                self.entries.insert(i, (key, c));
                assert(keys_of(self.entries@) =~= keys_of(old(self).entries@));
                assert(self@ =~= blocker_after(old(self)@, ip@, id@, now));
                pass
            },
        }
    }
}

/// The ip history of one peer: when its window started, and how often each ip
/// was seen in it.
pub struct IpChange {
    pub start: u64,
    pub ips: Vec<(String, u32)>,
}

pub ghost struct ChangeView {
    pub start: u64,
    pub ips: Seq<(Seq<char>, u32)>,
}

impl View for IpChange {
    type V = ChangeView;

    open spec fn view(&self) -> ChangeView {
        ChangeView { start: self.start, ips: self.ips@.map_values(|e: (String, u32)| (e.0@, e.1)) }
    }
}

/// One more sighting, saturating at the largest count.
pub open spec fn bump(n: u32) -> u32 {
    if n < u32::MAX {
        (n + 1) as u32
    } else {
        n
    }
}

/// The history of a peer after it was seen at `ip`.
pub open spec fn change_after(c: Option<ChangeView>, ip: Seq<char>, now: u64) -> ChangeView {
    match c {
        None => ChangeView { start: now, ips: seq![(ip, 1u32)] },
        Some(c) => if elapsed_secs(c.start, now) > IP_CHANGE_DUR {
            ChangeView { start: now, ips: seq![(ip, 1u32)] }
        } else {
            let i = index_of(c.ips.map_values(|e: (Seq<char>, u32)| e.0), ip);
            if i >= 0 {
                ChangeView { start: c.start, ips: c.ips.update(i, (ip, bump(c.ips[i].1))) }
            } else {
                ChangeView { start: c.start, ips: c.ips.push((ip, 1u32)) }
            }
        },
    }
}

/// The history of `id` in a table.
pub open spec fn change_of(v: Seq<(Seq<char>, ChangeView)>, id: Seq<char>) -> Option<ChangeView> {
    let i = index_of(v.map_values(|e: (Seq<char>, ChangeView)| e.0), id);
    if i >= 0 {
        Some(v[i].1)
    } else {
        None
    }
}

/// The table after `id` was seen at `ip`.
pub open spec fn changes_after(
    v: Seq<(Seq<char>, ChangeView)>,
    id: Seq<char>,
    ip: Seq<char>,
    now: u64,
) -> Seq<(Seq<char>, ChangeView)> {
    let i = index_of(v.map_values(|e: (Seq<char>, ChangeView)| e.0), id);
    if i >= 0 {
        v.update(i, (id, change_after(Some(v[i].1), ip, now)))
    } else {
        v.push((id, change_after(None, ip, now)))
    }
}

/// Per-peer history of source ips.
pub struct IpChanges {
    pub entries: Vec<(String, IpChange)>,
}

impl View for IpChanges {
    type V = Seq<(Seq<char>, ChangeView)>;

    open spec fn view(&self) -> Seq<(Seq<char>, ChangeView)> {
        self.entries@.map_values(|e: (String, IpChange)| (e.0@, e.1@))
    }
}

/// A history that starts now with one sighting of `ip`.
fn fresh_change(ip: &String, now: u64) -> (r: IpChange)
    ensures
        r@ == (ChangeView { start: now, ips: seq![(ip@, 1u32)] }),
        unique_keys(keys_of(r.ips@)),
{
    let mut ips: Vec<(String, u32)> = Vec::new();
    ips.push((ip.clone(), 1));
    let r = IpChange { start: now, ips };
    assert(r@.ips =~= seq![(ip@, 1u32)]);
    assert(keys_of(r.ips@) =~= seq![ip@]);
    r
}

impl IpChanges {
    pub open spec fn wf(&self) -> bool {
        &&& unique_keys(keys_of(self.entries@))
        &&& forall|i: int|
            0 <= i < self.entries@.len() ==> unique_keys(keys_of(#[trigger] self.entries@[i].1.ips@))
    }

    pub fn new() -> (r: IpChanges)
        ensures
            r.wf(),
            r@ == Seq::<(Seq<char>, ChangeView)>::empty(),
    {
        let r = IpChanges { entries: Vec::new() };
        assert(r@ =~= Seq::<(Seq<char>, ChangeView)>::empty());
        r
    }

    /// Records that peer `id` was seen at `ip`: the window restarts after 180 s.
    pub fn record(&mut self, id: &String, ip: &String, now: u64)
        requires
            old(self).wf(),
        ensures
            final(self).wf(),
            final(self)@ == changes_after(old(self)@, id@, ip@, now),
    {
        assert(self@.map_values(|e: (Seq<char>, ChangeView)| e.0) =~= keys_of(self.entries@));
        match find_key(&self.entries, id) {
            None => {
                let c = fresh_change(ip, now);
                proof {
                    lemma_unique_push(keys_of(self.entries@), id@);
                }
                self.entries.push((id.clone(), c));
                assert(keys_of(self.entries@) =~= keys_of(old(self).entries@).push(id@));
                assert(self@ =~= old(self)@.push((id@, change_after(None, ip@, now))));
            },
            Some(i) => {
                let (key, mut c) = self.entries.remove(i);
                let ghost c0 = c@;
                assert(c0 == old(self)@[i as int].1);
                assert(unique_keys(keys_of(old(self).entries@[i as int].1.ips@)));
                if secs_since(c.start, now) > IP_CHANGE_DUR {
                    c = fresh_change(ip, now);
                } else {
                    assert(c0.ips.map_values(|e: (Seq<char>, u32)| e.0) =~= keys_of(c.ips@));
                    match find_key(&c.ips, ip) {
                        Some(j) => {
                            let (k2, n) = c.ips.remove(j);
                            let n2 = if n < u32::MAX {
                                n + 1
                            } else {
                                n
                            };
                            c.ips.insert(j, (k2, n2));
                            assert(keys_of(c.ips@) =~= c0.ips.map_values(
                                |e: (Seq<char>, u32)| e.0,
                            ));
                            assert(c@.ips =~= c0.ips.update(j as int, (ip@, bump(c0.ips[j as int].1))));
                        },
                        None => {
                            proof {
                                lemma_unique_push(keys_of(c.ips@), ip@);
                            }
                            c.ips.push((ip.clone(), 1));
                            assert(keys_of(c.ips@) =~= c0.ips.map_values(
                                |e: (Seq<char>, u32)| e.0,
                            ).push(ip@));
                            assert(c@.ips =~= c0.ips.push((ip@, 1u32)));
                        },
                    }
                }
                assert(c@ == change_after(Some(c0), ip@, now));
                self.entries.insert(i, (key, c));
                assert(keys_of(self.entries@) =~= keys_of(old(self).entries@));
                assert(self@ =~= changes_after(old(self)@, id@, ip@, now));
            },
        }
    }
}

} // verus!
