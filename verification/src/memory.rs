//! The cache that the dispatch engine relies on, as a model and in memory.
//!
//! An entry lives until its expiry; an entry that has expired is invisible. The
//! first request obtains an entry, which then holds a lock of one zero byte, and
//! later stores the response in it. All times are handed in, in milliseconds since
//! the epoch, so that every operation is a function of the cache and its arguments.

use vstd::prelude::*;
use crate::dispatch::{CacheError, CacheErrorView};
use crate::text::{copy_bytes, str_eq};

verus! {

/// The contents of a cache: for each key its expiry and its payload.
pub type CacheModel = Map<Seq<char>, (u64, Seq<u8>)>;

/// The payload of an entry that has been obtained and not yet stored to.
pub open spec fn lock_payload() -> Seq<u8> {
    seq![0u8]
}

/// The expiry of an entry made at `now` to live for `ttl`.
pub open spec fn expiry(now: u64, ttl: u64) -> u64 {
    if now + ttl > u64::MAX {
        u64::MAX
    } else {
        (now + ttl) as u64
    }
}

/// Whether the cache shows an entry for `key` at time `now`.
pub open spec fn visible(m: CacheModel, key: Seq<char>, now: u64) -> bool {
    m.contains_key(key) && m[key].0 > now
}

/// `obtain`: where no entry is visible the entry is made with the lock as its
/// payload and the caller wins; else nothing changes and the caller loses.
pub open spec fn obtained(m: CacheModel, key: Seq<char>, ttl: u64, now: u64) -> (CacheModel, bool) {
    if visible(m, key, now) {
        (m, false)
    } else {
        (m.insert(key, (expiry(now, ttl), lock_payload())), true)
    }
}

/// `set`: where an entry is visible it takes the value and a new expiry; else
/// nothing is stored, and what was left of the entry is removed.
pub open spec fn stored(m: CacheModel, key: Seq<char>, value: Seq<u8>, ttl: u64, now: u64) -> (
    CacheModel,
    bool,
) {
    if visible(m, key, now) {
        (m.insert(key, (expiry(now, ttl), value)), true)
    } else {
        (m.remove(key), false)
    }
}

/// One look at an entry: its payload where it is visible.
pub open spec fn looked_up(m: CacheModel, key: Seq<char>, now: u64) -> Option<Seq<u8>> {
    if visible(m, key, now) {
        Some(m[key].1)
    } else {
        None
    }
}

/// `delete`: the cache without the entry.
pub open spec fn deleted(m: CacheModel, key: Seq<char>) -> CacheModel {
    m.remove(key)
}

/// The cache without the entries that have expired at `now`.
pub open spec fn swept(m: CacheModel, now: u64) -> CacheModel {
    Map::new(|k: Seq<char>| m.contains_key(k) && m[k].0 > now, |k: Seq<char>| m[k])
}

/// What one look at an awaited entry leads to.
#[derive(Debug)]
pub enum PollStep {
    /// The entry holds a response.
    Ready(Vec<u8>),
    /// There is no entry.
    NotObtained,
    /// The entry still holds the lock; look again after the interval.
    Wait { remaining: u64 },
    /// No look is left.
    Timeout,
}

/// The mathematical value of a [`PollStep`].
pub enum PollStepView {
    Ready(Seq<u8>),
    NotObtained,
    Wait { remaining: u64 },
    Timeout,
}

impl View for PollStep {
    type V = PollStepView;

    open spec fn view(&self) -> PollStepView {
        match self {
            PollStep::Ready(v) => PollStepView::Ready(v@),
            PollStep::NotObtained => PollStepView::NotObtained,
            PollStep::Wait { remaining } => PollStepView::Wait { remaining: *remaining },
            PollStep::Timeout => PollStepView::Timeout,
        }
    }
}

/// What a look leads to when `remaining` looks are left, this one included: with
/// none left the wait has timed out; a missing entry is not obtained; a payload of
/// more than one byte is the response; anything shorter is the lock.
pub open spec fn poll_decision(observed: Option<Seq<u8>>, remaining: u64) -> PollStepView {
    if remaining == 0 {
        PollStepView::Timeout
    } else {
        match observed {
            None => PollStepView::NotObtained,
            Some(payload) => if payload.len() > 1 {
                PollStepView::Ready(payload)
            } else {
                PollStepView::Wait { remaining: (remaining - 1) as u64 }
            },
        }
    }
}

/// The result of `poll_get` over the payloads seen at successive looks, where
/// they decide it: `None` while more looks are needed.
pub open spec fn polled(observations: Seq<Option<Seq<u8>>>, max_polls: u64) -> Option<
    Result<Seq<u8>, CacheErrorView>,
>
    decreases observations.len(),
{
    if max_polls == 0 {
        Some(Err(CacheErrorView::Timeout))
    } else if observations.len() == 0 {
        None
    } else {
        match poll_decision(observations.first(), max_polls) {
            PollStepView::Ready(payload) => Some(Ok(payload)),
            PollStepView::NotObtained => Some(Err(CacheErrorView::NotObtained)),
            PollStepView::Timeout => Some(Err(CacheErrorView::Timeout)),
            PollStepView::Wait { remaining } => polled(observations.drop_first(), remaining),
        }
    }
}

/// One look at an awaited entry; see [`poll_decision`].
pub fn poll_step(observed: Option<Vec<u8>>, remaining: u64) -> (step: PollStep)
    ensures
        step@ == poll_decision(
            match observed {
                Some(v) => Some(v@),
                None => None,
            },
            remaining,
        ),
{
    if remaining == 0 {
        return PollStep::Timeout;
    }
    match observed {
        None => PollStep::NotObtained,
        Some(payload) => {
            if payload.len() > 1 {
                PollStep::Ready(payload)
            } else {
                PollStep::Wait { remaining: remaining - 1 }
            }
        },
    }
}

/// The lock is never taken for a response: whatever is handed out as the response
/// is longer than one byte, so it is not the lock.
pub proof fn lemma_lock_is_never_ready(observations: Seq<Option<Seq<u8>>>, max_polls: u64)
    ensures
        polled(observations, max_polls) matches Some(Ok(payload)) ==> payload.len() > 1 && payload
            != lock_payload(),
        poll_decision(Some(lock_payload()), max_polls) !is Ready,
    decreases observations.len(),
{
    if max_polls != 0 && observations.len() != 0 {
        match poll_decision(observations.first(), max_polls) {
            PollStepView::Wait { remaining } => {
                lemma_lock_is_never_ready(observations.drop_first(), remaining);
            },
            _ => {},
        }
    }
}

/// The results of calls of `obtain` for one key at successive times.
pub open spec fn obtain_results(m: CacheModel, key: Seq<char>, ttl: u64, times: Seq<u64>) -> Seq<
    bool,
>
    decreases times.len(),
{
    if times.len() == 0 {
        Seq::empty()
    } else {
        let (after, won) = obtained(m, key, ttl, times.first());
        seq![won] + obtain_results(after, key, ttl, times.drop_first())
    }
}

/// While an entry is visible every `obtain` loses.
proof fn lemma_obtain_loses_while_visible(
    m: CacheModel,
    key: Seq<char>,
    ttl: u64,
    times: Seq<u64>,
)
    requires
        m.contains_key(key),
        forall|i: int| 0 <= i < times.len() ==> #[trigger] times[i] < m[key].0,
    ensures
        obtain_results(m, key, ttl, times).len() == times.len(),
        forall|i: int| 0 <= i < times.len() ==> !(#[trigger] obtain_results(m, key, ttl, times)[i]),
    decreases times.len(),
{
    if times.len() > 0 {
        assert(times[0] < m[key].0);
        let rest = times.drop_first();
        assert forall|i: int| 0 <= i < rest.len() implies #[trigger] rest[i] < m[key].0 by {
            assert(rest[i] == times[i + 1]);
        }
        lemma_obtain_loses_while_visible(m, key, ttl, rest);
        let all = obtain_results(m, key, ttl, times);
        assert forall|i: int| 0 <= i < times.len() implies !(#[trigger] all[i]) by {
            if i > 0 {
                assert(all[i] == obtain_results(m, key, ttl, rest)[i - 1]);
            }
        }
    }
}

/// Exactly one of several requests wins: of calls of `obtain` for a key that is
/// not visible at the first of them, all made before the entry of the first
/// expires, the first returns `true` and every other returns `false`.
pub proof fn lemma_single_winner(m: CacheModel, key: Seq<char>, ttl: u64, times: Seq<u64>)
    requires
        times.len() >= 1,
        !visible(m, key, times[0]),
        forall|i: int| 0 <= i < times.len() ==> #[trigger] times[i] < expiry(times[0], ttl),
    ensures
        obtain_results(m, key, ttl, times).len() == times.len(),
        obtain_results(m, key, ttl, times)[0],
        forall|i: int| 1 <= i < times.len() ==> !(#[trigger] obtain_results(m, key, ttl, times)[i]),
{
    let (after, won) = obtained(m, key, ttl, times[0]);
    let rest = times.drop_first();
    assert forall|i: int| 0 <= i < rest.len() implies #[trigger] rest[i] < after[key].0 by {
        assert(rest[i] == times[i + 1]);
    }
    lemma_obtain_loses_while_visible(after, key, ttl, rest);
    let all = obtain_results(m, key, ttl, times);
    assert forall|i: int| 1 <= i < times.len() implies !(#[trigger] all[i]) by {
        assert(all[i] == obtain_results(after, key, ttl, rest)[i - 1]);
    }
}

/// What was stored is what is seen: after `set` has stored a value, every look at
/// the entry before it expires gives that value, and where the value is longer
/// than one byte, polling hands it out at the first look.
pub proof fn lemma_stored_value_is_seen(
    m: CacheModel,
    key: Seq<char>,
    value: Seq<u8>,
    ttl: u64,
    now: u64,
    later: u64,
    max_polls: u64,
)
    requires
        stored(m, key, value, ttl, now).1,
        later < expiry(now, ttl),
    ensures
        looked_up(stored(m, key, value, ttl, now).0, key, later) == Some(value),
        value.len() > 1 && max_polls > 0 ==> polled(
            seq![looked_up(stored(m, key, value, ttl, now).0, key, later)],
            max_polls,
        ) == Some(Ok::<Seq<u8>, CacheErrorView>(value)),
{
}

/// After `delete`, and likewise once the entry has expired, the next request wins.
pub proof fn lemma_next_request_wins(m: CacheModel, key: Seq<char>, ttl: u64, now: u64)
    ensures
        obtained(deleted(m, key), key, ttl, now).1,
        m.contains_key(key) && m[key].0 <= now ==> obtained(m, key, ttl, now).1,
        !stored(deleted(m, key), key, lock_payload(), ttl, now).1,
{
}

/// An entry of the cache in memory.
#[derive(Debug)]
pub struct CacheEntry {
    pub key: String,
    pub expire_at: u64,
    pub value: Vec<u8>,
}

/// A cache in memory. Whoever shares it between requests guards it with a lock, so
/// that each operation happens at once.
#[derive(Debug)]
pub struct MemoryCacher {
    entries: Vec<CacheEntry>,
}

/// Whether one of the entries has this key.
pub open spec fn has_key(entries: Seq<CacheEntry>, key: Seq<char>) -> bool {
    exists|i: int| 0 <= i < entries.len() && (#[trigger] entries[i]).key@ == key
}

/// The position of the entry with this key.
pub open spec fn position(entries: Seq<CacheEntry>, key: Seq<char>) -> int {
    choose|i: int| 0 <= i < entries.len() && (#[trigger] entries[i]).key@ == key
}

/// No two entries have the same key.
pub open spec fn distinct_keys(entries: Seq<CacheEntry>) -> bool {
    forall|i: int, j: int|
        0 <= i < j < entries.len() ==> (#[trigger] entries[i]).key@ != (#[trigger] entries[j]).key@
}

/// The contents that a list of entries stands for.
pub open spec fn model_of(entries: Seq<CacheEntry>) -> CacheModel {
    Map::new(
        |k: Seq<char>| has_key(entries, k),
        |k: Seq<char>| (entries[position(entries, k)].expire_at, entries[position(entries, k)].value@),
    )
}

/// In a list without repeated keys, each entry is the entry of its key.
proof fn lemma_position(entries: Seq<CacheEntry>, i: int)
    requires
        distinct_keys(entries),
        0 <= i < entries.len(),
    ensures
        has_key(entries, entries[i].key@),
        position(entries, entries[i].key@) == i,
        model_of(entries)[entries[i].key@] == (entries[i].expire_at, entries[i].value@),
{
    let p = position(entries, entries[i].key@);
    if p < i {
        assert(entries[p].key@ != entries[i].key@);
    } else if i < p {
        assert(entries[i].key@ != entries[p].key@);
    }
}

impl View for MemoryCacher {
    type V = CacheModel;

    closed spec fn view(&self) -> CacheModel {
        model_of(self.entries@)
    }
}

impl MemoryCacher {
    /// No key has two entries.
    pub closed spec fn wf(&self) -> bool {
        distinct_keys(self.entries@)
    }

    /// An empty cache.
    pub fn new() -> (r: Self)
        ensures
            r.wf(),
            r@ == Map::<Seq<char>, (u64, Seq<u8>)>::empty(),
    {
        let r = MemoryCacher { entries: Vec::new() };
        assert(r@ =~= Map::<Seq<char>, (u64, Seq<u8>)>::empty());
        r
    }

    /// The number of entries, expired ones included.
    pub fn len(&self) -> (n: usize)
        requires
            self.wf(),
        ensures
            n == self@.dom().len(),
            self@.dom().finite(),
    {
        proof {
            lemma_model_size(self.entries@);
        }
        self.entries.len()
    }

    /// Whether there is no entry at all.
    pub fn is_empty(&self) -> (r: bool)
        requires
            self.wf(),
        ensures
            r == (self@ == Map::<Seq<char>, (u64, Seq<u8>)>::empty()),
    {
        proof {
            if self.entries.len() > 0 {
                lemma_position(self.entries@, 0);
                assert(self@.contains_key(self.entries@[0].key@));
            } else {
                assert(self@ =~= Map::<Seq<char>, (u64, Seq<u8>)>::empty());
            }
        }
        self.entries.len() == 0
    }

    /// The position of the entry with this key.
    fn find(&self, key: &str) -> (r: Option<usize>)
        requires
            self.wf(),
        ensures
            match r {
                Some(i) => i < self.entries.len() && self.entries[i as int].key@ == key@
                    && self@.contains_key(key@) && self@[key@] == (
                    self.entries[i as int].expire_at,
                    self.entries[i as int].value@,
                ),
                None => !self@.contains_key(key@) && !has_key(self.entries@, key@),
            },
    {
        let mut i: usize = 0;
        while i < self.entries.len()
            invariant
                i <= self.entries.len(),
                self.wf(),
                forall|j: int| 0 <= j < i ==> (#[trigger] self.entries@[j]).key@ != key@,
            decreases self.entries.len() - i,
        {
            if str_eq(self.entries[i].key.as_str(), key) {
                proof {
                    lemma_position(self.entries@, i as int);
                }
                return Some(i);
            }
            i += 1;
        }
        None
    }

    /// `obtain` at time `now`: makes the entry with the lock as its payload and
    /// returns `true` where no entry is visible; else changes nothing and returns
    /// `false`.
    pub fn obtain_at(&mut self, key: &str, ttl: u64, now: u64) -> (won: bool)
        requires
            old(self).wf(),
        ensures
            final(self).wf(),
            final(self)@ == obtained(old(self)@, key@, ttl, now).0,
            won == obtained(old(self)@, key@, ttl, now).1,
    {
        let expire_at = now.saturating_add(ttl);
        let mut value: Vec<u8> = Vec::new();
        value.push(0u8);
        assert(value@ =~= lock_payload());
        match self.find(key) {
            Some(i) => {
                if self.entries[i].expire_at > now {
                    return false;
                }
                let ghost before = self.entries@;
                self.entries.set(i, CacheEntry { key: key.to_string(), expire_at, value });
                proof {
                    lemma_model_update(before, self.entries@, i as int);
                }
                true
            },
            None => {
                let ghost before = self.entries@;
                self.entries.push(CacheEntry { key: key.to_string(), expire_at, value });
                proof {
                    lemma_model_push(before, self.entries@);
                }
                true
            },
        }
    }

    /// One look at the entry at time `now`: its payload where it is visible.
    pub fn get_at(&self, key: &str, now: u64) -> (r: Option<Vec<u8>>)
        requires
            self.wf(),
        ensures
            match looked_up(self@, key@, now) {
                Some(payload) => r matches Some(v) && v@ == payload,
                None => r is None,
            },
    {
        match self.find(key) {
            Some(i) => {
                if self.entries[i].expire_at > now {
                    Some(copy_bytes(self.entries[i].value.as_slice()))
                } else {
                    None
                }
            },
            None => None,
        }
    }

    /// `set` at time `now`: stores the value with a new expiry where an entry is
    /// visible. Where none is, nothing is stored, what was left of the entry is
    /// removed, and the error says that the entry is not obtained.
    pub fn set_at(&mut self, key: &str, val: Vec<u8>, ttl: u64, now: u64) -> (r: Result<
        bool,
        CacheError,
    >)
        requires
            old(self).wf(),
        ensures
            final(self).wf(),
            final(self)@ == stored(old(self)@, key@, val@, ttl, now).0,
            stored(old(self)@, key@, val@, ttl, now).1 ==> r == Ok::<bool, CacheError>(true),
            !stored(old(self)@, key@, val@, ttl, now).1 ==> r matches Err(CacheError::NotObtained),
    {
        match self.find(key) {
            Some(i) => {
                let ghost before = self.entries@;
                if self.entries[i].expire_at > now {
                    let expire_at = now.saturating_add(ttl);
                    self.entries.set(i, CacheEntry { key: key.to_string(), expire_at, value: val });
                    proof {
                        lemma_model_update(before, self.entries@, i as int);
                    }
                    Ok(true)
                } else {
                    self.entries.remove(i);
                    proof {
                        lemma_model_remove(before, self.entries@, i as int);
                    }
                    Err(CacheError::NotObtained)
                }
            },
            None => {
                assert(self@.remove(key@) =~= self@);
                Err(CacheError::NotObtained)
            },
        }
    }

    /// `delete`: removes the entry, if there is one.
    pub fn del(&mut self, key: &str)
        requires
            old(self).wf(),
        ensures
            final(self).wf(),
            final(self)@ == deleted(old(self)@, key@),
    {
        match self.find(key) {
            Some(i) => {
                let ghost before = self.entries@;
                self.entries.remove(i);
                proof {
                    lemma_model_remove(before, self.entries@, i as int);
                }
            },
            None => {
                assert(self@.remove(key@) =~= self@);
            },
        }
    }

    /// Removes every entry that has expired at `now`.
    pub fn clean_expired_values(&mut self, now: u64)
        requires
            old(self).wf(),
        ensures
            final(self).wf(),
            final(self)@ == swept(old(self)@, now),
    {
        let mut i: usize = 0;
        while i < self.entries.len()
            invariant
                i <= self.entries.len(),
                self.wf(),
                swept(self@, now) == swept(old(self)@, now),
                forall|j: int| 0 <= j < i ==> (#[trigger] self.entries@[j]).expire_at > now,
            decreases self.entries.len() - i,
        {
            if self.entries[i].expire_at > now {
                i += 1;
            } else {
                let ghost before = self.entries@;
                let ghost model = self@;
                self.entries.remove(i);
                proof {
                    lemma_position(before, i as int);
                    lemma_model_remove(before, self.entries@, i as int);
                    assert(swept(self@, now) =~= swept(model, now));
                }
            }
        }
        proof {
            assert forall|k: Seq<char>| self@.contains_key(k) implies (#[trigger] self@[k]).0
                > now by {
                let p = position(self.entries@, k);
                lemma_position(self.entries@, p);
            }
            assert(swept(self@, now) =~= self@);
        }
    }
}

/// The keys of a list of entries.
spec fn keys_of(entries: Seq<CacheEntry>) -> Seq<Seq<char>> {
    entries.map_values(|e: CacheEntry| e.key@)
}

/// A list without repeated keys stands for as many entries as it has.
proof fn lemma_model_size(entries: Seq<CacheEntry>)
    requires
        distinct_keys(entries),
    ensures
        model_of(entries).dom().finite(),
        model_of(entries).dom().len() == entries.len(),
{
    let keys = keys_of(entries);
    assert(keys.no_duplicates());
    keys.unique_seq_to_set();
    assert(model_of(entries).dom() =~= keys.to_set()) by {
        assert forall|k: Seq<char>| model_of(entries).dom().contains(k) implies keys.to_set().contains(
            k,
        ) by {
            let p = position(entries, k);
            assert(keys[p] == k);
        }
        assert forall|k: Seq<char>| keys.to_set().contains(k) implies model_of(
            entries,
        ).dom().contains(k) by {
            let p = choose|p: int| 0 <= p < keys.len() && keys[p] == k;
            assert(entries[p].key@ == k);
        }
    }
}

/// Replacing an entry by one with the same key stores its expiry and payload.
proof fn lemma_model_update(before: Seq<CacheEntry>, after: Seq<CacheEntry>, i: int)
    requires
        distinct_keys(before),
        0 <= i < before.len(),
        after.len() == before.len(),
        after[i].key@ == before[i].key@,
        forall|j: int| 0 <= j < before.len() && j != i ==> after[j] == before[j],
    ensures
        distinct_keys(after),
        model_of(after) == model_of(before).insert(
            before[i].key@,
            (after[i].expire_at, after[i].value@),
        ),
{
    assert forall|a: int, b: int| 0 <= a < b < after.len() implies (#[trigger] after[a]).key@ != (
    #[trigger] after[b]).key@ by {
        assert(after[a].key@ == before[a].key@);
        assert(after[b].key@ == before[b].key@);
    }
    let target = model_of(before).insert(before[i].key@, (after[i].expire_at, after[i].value@));
    assert forall|k: Seq<char>| model_of(after).contains_key(k) <==> target.contains_key(k) by {
        if has_key(after, k) {
            let p = position(after, k);
            assert(before[p].key@ == k);
        }
        if has_key(before, k) {
            let p = position(before, k);
            assert(after[p].key@ == k);
        }
        assert(after[i].key@ == before[i].key@);
    }
    assert forall|k: Seq<char>| model_of(after).contains_key(k) implies model_of(after)[k]
        == target[k] by {
        let p = position(after, k);
        lemma_position(after, p);
        if p != i {
            assert(before[p].key@ == k);
            lemma_position(before, p);
            assert(before[p].key@ != before[i].key@) by {
                if p < i {
                } else {
                }
            }
        }
    }
    assert(model_of(after) =~= target);
}

/// Appending an entry with a new key stores its expiry and payload.
proof fn lemma_model_push(before: Seq<CacheEntry>, after: Seq<CacheEntry>)
    requires
        distinct_keys(before),
        after.len() == before.len() + 1,
        forall|j: int| 0 <= j < before.len() ==> after[j] == before[j],
        !has_key(before, after[before.len() as int].key@),
    ensures
        distinct_keys(after),
        model_of(after) == model_of(before).insert(
            after[before.len() as int].key@,
            (after[before.len() as int].expire_at, after[before.len() as int].value@),
        ),
{
    let n = before.len() as int;
    assert forall|a: int, b: int| 0 <= a < b < after.len() implies (#[trigger] after[a]).key@ != (
    #[trigger] after[b]).key@ by {
        if b == n {
            assert(before[a].key@ == after[a].key@);
        } else {
            assert(before[a].key@ != before[b].key@);
        }
    }
    let target = model_of(before).insert(after[n].key@, (after[n].expire_at, after[n].value@));
    assert forall|k: Seq<char>| model_of(after).contains_key(k) <==> target.contains_key(k) by {
        if has_key(after, k) {
            let p = position(after, k);
            if p < n {
                assert(before[p].key@ == k);
            }
        }
        if has_key(before, k) {
            let p = position(before, k);
            assert(after[p].key@ == k);
        }
        assert(after[n].key@ == after[n].key@);
    }
    assert forall|k: Seq<char>| model_of(after).contains_key(k) implies model_of(after)[k]
        == target[k] by {
        let p = position(after, k);
        lemma_position(after, p);
        if p < n {
            assert(before[p].key@ == k);
            lemma_position(before, p);
        }
    }
    assert(model_of(after) =~= target);
}

/// Removing an entry removes its key.
proof fn lemma_model_remove(before: Seq<CacheEntry>, after: Seq<CacheEntry>, i: int)
    requires
        distinct_keys(before),
        0 <= i < before.len(),
        after == before.remove(i),
    ensures
        distinct_keys(after),
        model_of(after) == model_of(before).remove(before[i].key@),
{
    assert forall|a: int, b: int| 0 <= a < b < after.len() implies (#[trigger] after[a]).key@ != (
    #[trigger] after[b]).key@ by {
        let a0 = if a < i {
            a
        } else {
            a + 1
        };
        let b0 = if b < i {
            b
        } else {
            b + 1
        };
        assert(after[a] == before[a0]);
        assert(after[b] == before[b0]);
        assert(before[a0].key@ != before[b0].key@);
    }
    let target = model_of(before).remove(before[i].key@);
    assert forall|k: Seq<char>| model_of(after).contains_key(k) <==> target.contains_key(k) by {
        if has_key(after, k) {
            let p = position(after, k);
            let p0 = if p < i {
                p
            } else {
                p + 1
            };
            assert(after[p] == before[p0]);
            assert(before[p0].key@ == k);
            if p0 < i {
                assert(before[p0].key@ != before[i].key@);
            } else {
                assert(before[i].key@ != before[p0].key@);
            }
        }
        if has_key(before, k) && k != before[i].key@ {
            let p = position(before, k);
            let q = if p < i {
                p
            } else {
                p - 1
            };
            assert(after[q] == before[p]);
        }
    }
    assert forall|k: Seq<char>| model_of(after).contains_key(k) implies model_of(after)[k]
        == target[k] by {
        let p = position(after, k);
        lemma_position(after, p);
        let p0 = if p < i {
            p
        } else {
            p + 1
        };
        assert(after[p] == before[p0]);
        lemma_position(before, p0);
    }
    assert(model_of(after) =~= target);
}

} // verus!
