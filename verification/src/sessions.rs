//! Tables of UDP sessions, each with the moment of its last use.

use crate::net::{SocketAddress, SocketAddressView};
use std::collections::HashMap;
use vstd::prelude::*;
use vstd::std_specs::iter::IteratorSpec;

verus! {

broadcast use vstd::std_specs::hash::group_hash_axioms;

/// A session that was not used for longer than this, in seconds, is removed.
pub const IDLE_LIMIT: u64 = 60;

/// Idle sessions are looked for when the last search is longer ago than this, in nanoseconds.
pub const SWEEP_INTERVAL: u64 = 10_000_000_000;

/// A session and the second of its last use.
#[derive(Debug)]
pub struct Session<S> {
    pub link: S,
    pub last_active: u64,
}

/// Whether a session has been idle for too long.
pub open spec fn is_idle(last_active: u64, now: u64) -> bool {
    now - last_active > IDLE_LIMIT
}

/// Whether it is time to look for idle sessions again.
pub fn sweep_due(last: u64, now: u64) -> (r: bool)
    ensures
        r == (now - last > SWEEP_INTERVAL),
{
    now > last && now - last > SWEEP_INTERVAL
}

/// Whether a session has been idle for too long.
pub fn idle(last_active: u64, now: u64) -> (r: bool)
    ensures
        r == is_idle(last_active, now),
{
    now > last_active && now - last_active > IDLE_LIMIT
}

/// Sessions with one of them used now.
pub open spec fn touched<K, S>(m: Map<K, Session<S>>, k: K, now: u64) -> Map<K, Session<S>> {
    if m.contains_key(k) {
        m.insert(k, Session { link: m[k].link, last_active: now })
    } else {
        m
    }
}

/// Sessions with a further one, used now.
pub open spec fn opened<K, S>(m: Map<K, Session<S>>, k: K, link: S, now: u64) -> Map<
    K,
    Session<S>,
> {
    m.insert(k, Session { link, last_active: now })
}

/// Sessions without those that have been idle for too long.
pub open spec fn swept<K, S>(m: Map<K, Session<S>>, now: u64) -> Map<K, Session<S>> {
    Map::new(
        |k: K| m.contains_key(k) && !is_idle(m[k].last_active, now),
        |k: K| m[k],
    )
}

/// Whether the links are those of the sessions of `m` that are not in `rest`, each once.
pub open spec fn removed_links<K, S>(
    m: Map<K, Session<S>>,
    rest: Map<K, Session<S>>,
    links: Seq<S>,
) -> bool {
    exists|keys: Seq<K>| #[trigger] links_of(m, rest, links, keys)
}

/// Whether the links are those of the sessions of `m` under `keys`, and `rest` has the others.
pub open spec fn links_of<K, S>(
    m: Map<K, Session<S>>,
    rest: Map<K, Session<S>>,
    links: Seq<S>,
    keys: Seq<K>,
) -> bool {
    &&& keys.no_duplicates()
    &&& forall|k: K| keys.contains(k) <==> #[trigger] m.contains_key(k) && !rest.contains_key(k)
    &&& links.len() == keys.len()
    &&& forall|i: int| 0 <= i < keys.len() ==> #[trigger] links[i] == m[keys[i]].link
}

/// A session that was used now is not removed before the limit has passed, and it is removed
/// once it has.
pub proof fn law_touch_keeps_session<K, S>(
    m: Map<K, Session<S>>,
    k: K,
    now: u64,
    later: u64,
)
    requires
        m.contains_key(k),
    ensures
        swept(touched(m, k, now), later).contains_key(k) <==> later - now <= IDLE_LIMIT,
{
}

/// Looking for idle sessions twice at the same moment removes no more than looking once.
pub proof fn law_sweep_is_idempotent<K, S>(m: Map<K, Session<S>>, now: u64)
    ensures
        swept(swept(m, now), now) == swept(m, now),
{
    assert(swept(swept(m, now), now) =~= swept(m, now));
}

/// A map from addresses.
pub struct AddressMap<V> {
    entries: Vec<(SocketAddress, V)>,
}

/// The map that entries make.
spec fn entry_map<V>(entries: Seq<(SocketAddress, V)>) -> Map<SocketAddressView, V>
    decreases entries.len(),
{
    if entries.len() == 0 {
        Map::empty()
    } else {
        entry_map(entries.drop_last()).insert(entries.last().0@, entries.last().1)
    }
}

/// Whether no address occurs twice.
spec fn distinct<V>(entries: Seq<(SocketAddress, V)>) -> bool {
    forall|i: int, j: int|
        0 <= i < j < entries.len() ==> (#[trigger] entries[i]).0@ != (#[trigger] entries[j]).0@
}

/// The map has the addresses of its entries, and their values.
proof fn lemma_entry_map<V>(entries: Seq<(SocketAddress, V)>)
    requires
        distinct(entries),
    ensures
        forall|i: int|
            0 <= i < entries.len() ==> entry_map(entries).contains_key((#[trigger] entries[i]).0@)
                && entry_map(entries)[entries[i].0@] == entries[i].1,
        forall|k: SocketAddressView| #[trigger]
            entry_map(entries).contains_key(k) ==> exists|i: int|
                0 <= i < entries.len() && (#[trigger] entries[i]).0@ == k,
    decreases entries.len(),
{
    if entries.len() > 0 {
        let front = entries.drop_last();
        lemma_entry_map(front);
        assert forall|i: int| 0 <= i < entries.len() implies entry_map(entries).contains_key(
            (#[trigger] entries[i]).0@,
        ) && entry_map(entries)[entries[i].0@] == entries[i].1 by {
            if i < front.len() {
                assert(front[i] == entries[i]);
            }
        }
        assert forall|k: SocketAddressView| #[trigger]
            entry_map(entries).contains_key(k) implies exists|i: int|
            0 <= i < entries.len() && (#[trigger] entries[i]).0@ == k by {
            if k == entries.last().0@ {
                assert(entries[entries.len() - 1].0@ == k);
            } else {
                assert(entry_map(front).contains_key(k));
                let i = choose|i: int| 0 <= i < front.len() && (#[trigger] front[i]).0@ == k;
                assert(entries[i].0@ == k);
            }
        }
    }
}

impl<V> View for AddressMap<V> {
    type V = Map<SocketAddressView, V>;

    closed spec fn view(&self) -> Map<SocketAddressView, V> {
        entry_map(self.entries@)
    }
}

impl<V> AddressMap<V> {
    /// Whether no address occurs twice.
    pub closed spec fn wf(&self) -> bool {
        distinct(self.entries@)
    }

    /// A map without entries.
    pub fn new() -> (r: AddressMap<V>)
        ensures
            r.wf(),
            r@ == Map::<SocketAddressView, V>::empty(),
    {
        AddressMap { entries: Vec::new() }
    }

    /// Where the entry of an address stands.
    fn position(&self, key: &SocketAddress) -> (r: Option<usize>)
        requires
            self.wf(),
        ensures
            match r {
                Some(i) => i < self.entries@.len() && self.entries@[i as int].0@ == key@
                    && self@.contains_key(key@) && self@[key@] == self.entries@[i as int].1,
                None => !self@.contains_key(key@),
            },
    {
        proof {
            lemma_entry_map(self.entries@);
        }
        let mut i: usize = 0;
        while i < self.entries.len()
            invariant
                i <= self.entries@.len(),
                forall|j: int| 0 <= j < i ==> (#[trigger] self.entries@[j]).0@ != key@,
                distinct(self.entries@),
            decreases self.entries@.len() - i,
        {
            if self.entries[i].0.same(key) {
                proof {
                    lemma_entry_map(self.entries@);
                }
                return Some(i);
            }
            i = i + 1;
        }
        None
    }

    /// The value of an address.
    pub fn get(&self, key: &SocketAddress) -> (r: Option<&V>)
        requires
            self.wf(),
        ensures
            match r {
                Some(v) => self@.contains_key(key@) && *v == self@[key@],
                None => !self@.contains_key(key@),
            },
    {
        match self.position(key) {
            Some(i) => Some(&self.entries[i].1),
            None => None,
        }
    }

    /// Sets the value of an address.
    pub fn insert(&mut self, key: SocketAddress, value: V)
        requires
            old(self).wf(),
        ensures
            final(self).wf(),
            final(self)@ == old(self)@.insert(key@, value),
    {
        self.remove(&key);
        let ghost before = self.entries@;
        proof {
            lemma_entry_map(before);
            assert forall|i: int| 0 <= i < before.len() implies (#[trigger] before[i]).0@
                != key@ by {
                assert(entry_map(before).contains_key(before[i].0@));
            }
        }
        self.entries.push((key, value));
        assert(self.entries@.drop_last() =~= before);
        assert(self@ =~= old(self)@.insert(key@, value));
    }

    /// Removes an address, and hands out its value.
    pub fn remove(&mut self, key: &SocketAddress) -> (r: Option<V>)
        requires
            old(self).wf(),
        ensures
            final(self).wf(),
            final(self)@ == old(self)@.remove(key@),
            r == if old(self)@.contains_key(key@) {
                Some(old(self)@[key@])
            } else {
                None
            },
    {
        match self.position(key) {
            Some(i) => {
                let ghost before = self.entries@;
                let (_, value) = self.entries.remove(i);
                proof {
                    lemma_removed_entry(before, i as int);
                }
                Some(value)
            },
            None => {
                assert(old(self)@.remove(key@) =~= old(self)@);
                None
            },
        }
    }

    /// Empties the map, and hands out the values.
    fn take_entries(&mut self) -> (r: Vec<(SocketAddress, V)>)
        ensures
            final(self)@ == Map::<SocketAddressView, V>::empty(),
            final(self).entries@.len() == 0,
            r@ == old(self).entries@,
    {
        let mut out: Vec<(SocketAddress, V)> = Vec::new();
        std::mem::swap(&mut out, &mut self.entries);
        out
    }
}

/// An entry that is removed leaves the others.
proof fn lemma_removed_entry<V>(entries: Seq<(SocketAddress, V)>, i: int)
    requires
        distinct(entries),
        0 <= i < entries.len(),
    ensures
        distinct(entries.remove(i)),
        entry_map(entries.remove(i)) == entry_map(entries).remove(entries[i].0@),
{
    let rest = entries.remove(i);
    assert(distinct(rest)) by {
        assert forall|a: int, b: int| 0 <= a < b < rest.len() implies (#[trigger] rest[a]).0@
            != (#[trigger] rest[b]).0@ by {
            let x = if a < i {
                a
            } else {
                a + 1
            };
            let y = if b < i {
                b
            } else {
                b + 1
            };
            assert(entries[x].0@ != entries[y].0@);
        }
    }
    lemma_entry_map(entries);
    lemma_entry_map(rest);
    let gone = entries[i].0@;
    assert forall|k: SocketAddressView| entry_map(rest).contains_key(k) <==> entry_map(
        entries,
    ).contains_key(k) && k != gone by {
        if entry_map(rest).contains_key(k) {
            let j = choose|j: int| 0 <= j < rest.len() && (#[trigger] rest[j]).0@ == k;
            let x = if j < i {
                j
            } else {
                j + 1
            };
            assert(entries[x] == rest[j]);
            assert(entries[x].0@ != entries[i].0@);
        }
        if entry_map(entries).contains_key(k) && k != gone {
            let x = choose|x: int| 0 <= x < entries.len() && (#[trigger] entries[x]).0@ == k;
            let j = if x < i {
                x
            } else {
                x - 1
            };
            assert(rest[j] == entries[x]);
        }
    }
    assert forall|k: SocketAddressView| entry_map(rest).contains_key(k) implies entry_map(rest)[k]
        == entry_map(entries)[k] by {
        let j = choose|j: int| 0 <= j < rest.len() && (#[trigger] rest[j]).0@ == k;
        let x = if j < i {
            j
        } else {
            j + 1
        };
        assert(entries[x] == rest[j]);
    }
    assert(entry_map(rest) =~= entry_map(entries).remove(gone));
}

/// Sessions by address.
impl<S> AddressMap<Session<S>> {
    /// Takes note that a session is used now. Says whether there is such a session.
    pub fn touch(&mut self, key: &SocketAddress, now: u64) -> (r: bool)
        requires
            old(self).wf(),
        ensures
            final(self).wf(),
            r == old(self)@.contains_key(key@),
            final(self)@ == touched(old(self)@, key@, now),
    {
        match self.remove(key) {
            Some(session) => {
                self.insert(*key, Session { link: session.link, last_active: now });
                assert(self@ =~= touched(old(self)@, key@, now));
                true
            },
            None => {
                assert(self@ =~= old(self)@);
                false
            },
        }
    }

    /// Opens a session that is used now.
    pub fn open(&mut self, key: SocketAddress, link: S, now: u64)
        requires
            old(self).wf(),
        ensures
            final(self).wf(),
            final(self)@ == opened(old(self)@, key@, link, now),
    {
        self.insert(key, Session { link, last_active: now });
    }

    /// Removes the sessions that have been idle for too long, and hands out their links.
    pub fn sweep(&mut self, now: u64) -> (r: Vec<S>)
        requires
            old(self).wf(),
        ensures
            final(self).wf(),
            final(self)@ == swept(old(self)@, now),
            removed_links(old(self)@, final(self)@, r@),
    {
        let ghost m = self@;
        let ghost all = self.entries@;
        let ghost mut keys: Seq<SocketAddressView> = Seq::empty();
        let mut entries = self.take_entries();
        let mut kept: AddressMap<Session<S>> = AddressMap::new();
        let mut links: Vec<S> = Vec::new();
        proof {
            lemma_entry_map(all);
            assert(entries@ == all);
        }
        while entries.len() > 0
            invariant
                kept.wf(),
                distinct(all),
                entry_map(all) == m,
                entries@ == all.take(entries@.len() as int),
                entries@.len() <= all.len(),
                keys.no_duplicates(),
                links@.len() == keys.len(),
                forall|i: int|
                    0 <= i < all.len() ==> m.contains_key((#[trigger] all[i]).0@) && m[all[i].0@]
                        == all[i].1,
                forall|i: int|
                    0 <= i < keys.len() ==> m.contains_key(#[trigger] keys[i]) && is_idle(
                        m[keys[i]].last_active,
                        now,
                    ),
                forall|i: int| 0 <= i < keys.len() ==> #[trigger] links@[i] == m[keys[i]].link,
                forall|i: int|
                    entries@.len() <= i < all.len() ==> {
                        let k = (#[trigger] all[i]).0@;
                        if is_idle(m[k].last_active, now) {
                            keys.contains(k)
                        } else {
                            kept@.contains_key(k)
                        }
                    },
                forall|k: SocketAddressView| #[trigger]
                    kept@.contains_key(k) ==> m.contains_key(k) && !is_idle(m[k].last_active, now)
                        && kept@[k] == m[k],
                forall|i: int| 0 <= i < entries@.len() ==> !keys.contains((#[trigger] all[i]).0@),
            decreases entries@.len(),
        {
            let ghost n = entries@.len() as int;
            if let Some((key, session)) = entries.pop() {
                assert(entries@ =~= all.take(n - 1));
                assert(all[n - 1].0@ == key@);
                if idle(session.last_active, now) {
                    let ghost keys_before = keys;
                    links.push(session.link);
                    proof {
                        keys = keys.push(key@);
                        assert forall|k: SocketAddressView| #[trigger] keys.contains(k)
                            <==> keys_before.contains(k) || k == key@ by {
                            if keys_before.contains(k) {
                                let i = choose|i: int|
                                    0 <= i < keys_before.len() && keys_before[i] == k;
                                assert(keys[i] == k);
                            }
                            if k == key@ {
                                assert(keys[keys_before.len() as int] == k);
                            }
                        }
                        assert forall|i: int| 0 <= i < n - 1 implies !keys.contains(
                            (#[trigger] all[i]).0@,
                        ) by {
                            assert(all[i].0@ != all[n - 1].0@);
                        }
                    }
                } else {
                    kept.insert(key, session);
                }
            }
        }
        *self = kept;
        proof {
            assert forall|k: SocketAddressView| m.contains_key(k) implies (if is_idle(
                m[k].last_active,
                now,
            ) {
                keys.contains(k)
            } else {
                self@.contains_key(k)
            }) by {
                lemma_entry_map(all);
                let i = choose|i: int| 0 <= i < all.len() && (#[trigger] all[i]).0@ == k;
                assert(all[i].0@ == k);
            }
            assert(self@ =~= swept(m, now));
            assert(links_of(m, self@, links@, keys));
        }
        links
    }

    /// Removes all sessions, and hands out their links.
    pub fn drain(&mut self) -> (r: Vec<S>)
        requires
            old(self).wf(),
        ensures
            final(self).wf(),
            final(self)@ == Map::<SocketAddressView, Session<S>>::empty(),
            removed_links(old(self)@, final(self)@, r@),
    {
        let ghost m = self@;
        let ghost all = self.entries@;
        let ghost mut keys: Seq<SocketAddressView> = Seq::empty();
        let mut entries = self.take_entries();
        let mut links: Vec<S> = Vec::new();
        proof {
            lemma_entry_map(all);
            assert(entries@ == all);
        }
        while entries.len() > 0
            invariant
                distinct(all),
                entry_map(all) == m,
                entries@ == all.take(entries@.len() as int),
                entries@.len() <= all.len(),
                keys.len() == all.len() - entries@.len(),
                forall|i: int|
                    0 <= i < keys.len() ==> #[trigger] keys[i] == all[all.len() - 1 - i].0@,
                links@.len() == keys.len(),
                forall|i: int|
                    0 <= i < keys.len() ==> #[trigger] links@[i] == all[all.len() - 1 - i].1.link,
            decreases entries@.len(),
        {
            let ghost n = entries@.len() as int;
            if let Some((key, session)) = entries.pop() {
                assert(entries@ =~= all.take(n - 1));
                links.push(session.link);
                proof {
                    keys = keys.push(key@);
                }
            }
        }
        proof {
            let last = all.len() - 1;
            assert forall|i: int, j: int|
                0 <= i < keys.len() && 0 <= j < keys.len() && i != j implies keys[i]
                != keys[j] by {
                if i < j {
                    assert(all[last - j].0@ != all[last - i].0@);
                } else {
                    assert(all[last - i].0@ != all[last - j].0@);
                }
            }
            assert forall|k: SocketAddressView| keys.contains(k) <==> #[trigger] m.contains_key(k)
                && !self@.contains_key(k) by {
                if keys.contains(k) {
                    let i = choose|i: int| 0 <= i < keys.len() && keys[i] == k;
                    assert(all[last - i].0@ == k);
                }
                if m.contains_key(k) {
                    let i = choose|i: int| 0 <= i < all.len() && (#[trigger] all[i]).0@ == k;
                    assert(keys[last - i] == k);
                }
            }
            assert forall|i: int| 0 <= i < keys.len() implies #[trigger] links@[i]
                == m[keys[i]].link by {
                assert(keys[i] == all[last - i].0@);
            }
            assert(links_of(m, self@, links@, keys));
        }
        links
    }
}

/// Sessions by number.
pub struct IdSessions<S> {
    entries: HashMap<u16, Session<S>>,
}

impl<S> View for IdSessions<S> {
    type V = Map<u16, Session<S>>;

    closed spec fn view(&self) -> Map<u16, Session<S>> {
        self.entries@
    }
}

impl<S> IdSessions<S> {
    /// A table without sessions.
    pub fn new() -> (r: IdSessions<S>)
        ensures
            r@ == Map::<u16, Session<S>>::empty(),
    {
        IdSessions { entries: HashMap::new() }
    }

    /// The session with a number.
    pub fn get(&self, id: u16) -> (r: Option<&Session<S>>)
        ensures
            match r {
                Some(s) => self@.contains_key(id) && *s == self@[id],
                None => !self@.contains_key(id),
            },
    {
        self.entries.get(&id)
    }

    /// Takes note that a session is used now. Says whether there is such a session.
    pub fn touch(&mut self, id: u16, now: u64) -> (r: bool)
        ensures
            r == old(self)@.contains_key(id),
            final(self)@ == touched(old(self)@, id, now),
    {
        match self.entries.remove(&id) {
            Some(session) => {
                self.entries.insert(id, Session { link: session.link, last_active: now });
                assert(self@ =~= touched(old(self)@, id, now));
                true
            },
            None => {
                assert(self@ =~= old(self)@);
                false
            },
        }
    }

    /// Opens a session that is used now.
    pub fn open(&mut self, id: u16, link: S, now: u64)
        ensures
            final(self)@ == opened(old(self)@, id, link, now),
    {
        self.entries.insert(id, Session { link, last_active: now });
    }

    /// The numbers of the sessions that have been idle for too long, or of all of them.
    fn listed(&self, now: Option<u64>) -> (r: Vec<u16>)
        ensures
            r@.no_duplicates(),
            forall|k: u16| #[trigger] r@.contains(k) <==> self@.contains_key(k) && (match now {
                Some(t) => is_idle(self@[k].last_active, t),
                None => true,
            }),
    {
        let ghost ids: Seq<u16> = self.entries.keys().remaining().unref();
        let mut out: Vec<u16> = Vec::new();
        for id in it: self.entries.keys()
            invariant
                it.seq() == self.entries.keys().remaining(),
                it.seq().no_duplicates(),
                ids == self.entries.keys().remaining().unref(),
                ids.to_set() == self@.dom(),
                out@.no_duplicates(),
                forall|k: u16| #[trigger]
                    out@.contains(k) ==> ids.take(it.index() as int).contains(k),
                forall|k: u16| #[trigger] out@.contains(k) ==> self@.contains_key(k) && (match now {
                    Some(t) => is_idle(self@[k].last_active, t),
                    None => true,
                }),
                forall|j: int|
                    0 <= j < it.index() ==> {
                        let k = #[trigger] ids[j];
                        (match now {
                            Some(t) => is_idle(self@[k].last_active, t),
                            None => true,
                        }) ==> out@.contains(k)
                    },
        {
            let ghost n = it.index() as int;
            let ghost before = out@;
            assert(ids[n] == *id);
            assert(ids.to_set().contains(*id));
            let listed: bool = match (self.entries.get(id), now) {
                (Some(session), Some(t)) => idle(session.last_active, t),
                (Some(_), None) => true,
                (None, _) => false,
            };
            proof {
                assert(!ids.take(n).contains(*id)) by {
                    if ids.take(n).contains(*id) {
                        let j = choose|j: int| 0 <= j < n && ids.take(n)[j] == *id;
                        assert(*it.seq()[j] == *it.seq()[n]);
                    }
                }
                assert(!out@.contains(*id));
            }
            if listed {
                out.push(*id);
            }
            proof {
                assert forall|k: u16| #[trigger] out@.contains(k) <==> before.contains(k) || (listed
                    && k == *id) by {
                    if before.contains(k) {
                        let j = choose|j: int| 0 <= j < before.len() && before[j] == k;
                        assert(out@[j] == k);
                    }
                    if listed && k == *id {
                        assert(out@[before.len() as int] == k);
                    }
                }
                assert forall|k: u16| #[trigger] out@.contains(k) implies ids.take(
                    n + 1,
                ).contains(k) by {
                    if before.contains(k) {
                        let j = choose|j: int| 0 <= j < n && ids.take(n)[j] == k;
                        assert(ids.take(n + 1)[j] == k);
                    } else {
                        assert(ids.take(n + 1)[n] == k);
                    }
                }
            }
        }
        proof {
            assert forall|k: u16| self@.contains_key(k) && (match now {
                Some(t) => is_idle(self@[k].last_active, t),
                None => true,
            }) implies #[trigger] out@.contains(k) by {
                assert(ids.to_set().contains(k));
                let j = choose|j: int| 0 <= j < ids.len() && ids[j] == k;
                assert(ids[j] == k);
            }
        }
        out
    }

    /// Removes the sessions under some numbers, and hands out their links.
    fn remove_all(&mut self, ids: &Vec<u16>) -> (r: Vec<S>)
        requires
            ids@.no_duplicates(),
            forall|i: int| 0 <= i < ids@.len() ==> old(self)@.contains_key(#[trigger] ids@[i]),
        ensures
            forall|k: u16| #[trigger]
                final(self)@.contains_key(k) <==> old(self)@.contains_key(k) && !ids@.contains(k),
            forall|k: u16| #[trigger]
                final(self)@.contains_key(k) ==> final(self)@[k] == old(self)@[k],
            links_of(old(self)@, final(self)@, r@, ids@),
    {
        let ghost m = self@;
        let mut links: Vec<S> = Vec::new();
        let mut i: usize = 0;
        while i < ids.len()
            invariant
                i <= ids@.len(),
                ids@.no_duplicates(),
                forall|j: int| 0 <= j < ids@.len() ==> m.contains_key(#[trigger] ids@[j]),
                forall|k: u16| #[trigger]
                    self@.contains_key(k) <==> m.contains_key(k) && !ids@.take(
                        i as int,
                    ).contains(k),
                forall|k: u16| #[trigger] self@.contains_key(k) ==> self@[k] == m[k],
                links@.len() == i,
                forall|j: int| 0 <= j < i ==> #[trigger] links@[j] == m[ids@[j]].link,
            decreases ids@.len() - i,
        {
            let ghost n = i as int;
            let ghost before = self@;
            let id: u16 = ids[i];
            proof {
                if ids@.take(n).contains(id) {
                    let j = choose|j: int| 0 <= j < n && ids@.take(n)[j] == id;
                    assert(ids@[j] == ids@[n]);
                }
                assert(m.contains_key(ids@[n]));
                assert(before.contains_key(id));
            }
            match self.entries.remove(&id) {
                Some(session) => {
                    links.push(session.link);
                },
                None => {},
            }
            proof {
                assert forall|k: u16| #[trigger] ids@.take(n + 1).contains(k) <==> ids@.take(
                    n,
                ).contains(k) || k == id by {
                    if ids@.take(n).contains(k) {
                        let j = choose|j: int| 0 <= j < n && ids@.take(n)[j] == k;
                        assert(ids@.take(n + 1)[j] == k);
                    }
                    if k == id {
                        assert(ids@.take(n + 1)[n] == k);
                    }
                    if ids@.take(n + 1).contains(k) {
                        let upto = ids@.take(n + 1);
                        let j = choose|j: int| 0 <= j < upto.len() && upto[j] == k;
                        if j < n {
                            assert(ids@.take(n)[j] == k);
                        }
                    }
                }
            }
            i = i + 1;
        }
        assert(ids@.take(i as int) =~= ids@);
        assert forall|k: u16| ids@.contains(k) <==> #[trigger] m.contains_key(k)
            && !self@.contains_key(k) by {
            if ids@.contains(k) {
                let j = choose|j: int| 0 <= j < ids@.len() && ids@[j] == k;
                assert(m.contains_key(ids@[j]));
                assert(!self@.contains_key(k));
            }
            if m.contains_key(k) && !ids@.contains(k) {
                assert(self@.contains_key(k));
            }
        }
        links
    }

    /// Removes the sessions that have been idle for too long, and hands out their links.
    pub fn sweep(&mut self, now: u64) -> (r: Vec<S>)
        ensures
            final(self)@ == swept(old(self)@, now),
            removed_links(old(self)@, final(self)@, r@),
    {
        let ghost m = self@;
        let ids: Vec<u16> = self.listed(Some(now));
        proof {
            assert forall|i: int| 0 <= i < ids@.len() implies m.contains_key(
                #[trigger] ids@[i],
            ) by {
                assert(ids@.contains(ids@[i]));
            }
        }
        let links: Vec<S> = self.remove_all(&ids);
        assert(self@ =~= swept(m, now));
        assert(links_of(m, self@, links@, ids@));
        links
    }

    /// Removes all sessions, and hands out their links.
    pub fn drain(&mut self) -> (r: Vec<S>)
        ensures
            final(self)@ == Map::<u16, Session<S>>::empty(),
            removed_links(old(self)@, final(self)@, r@),
    {
        let ghost m = self@;
        let ids: Vec<u16> = self.listed(None);
        proof {
            assert forall|i: int| 0 <= i < ids@.len() implies m.contains_key(
                #[trigger] ids@[i],
            ) by {
                assert(ids@.contains(ids@[i]));
            }
        }
        let links: Vec<S> = self.remove_all(&ids);
        assert(self@ =~= Map::<u16, Session<S>>::empty());
        assert(links_of(m, self@, links@, ids@));
        links
    }
}

/// Looking for idle sessions removes exactly those that were last used more than a minute ago;
/// the others stay as they are.
pub proof fn law_sweep_removes_the_idle<K, S>(m: Map<K, Session<S>>, k: K, now: u64)
    ensures
        swept(m, now).contains_key(k) <==> m.contains_key(k) && now - m[k].last_active <= 60,
        swept(m, now).contains_key(k) ==> swept(m, now)[k] == m[k],
{
}

/// Using a session marks that one as used now, and changes nothing else of it or of the others.
/// Opening one adds it, used now.
pub proof fn law_use_marks_one_session<K, S>(
    m: Map<K, Session<S>>,
    k: K,
    other: K,
    link: S,
    now: u64,
)
    ensures
        touched(m, k, now).dom() == m.dom(),
        m.contains_key(k) ==> touched(m, k, now)[k].last_active == now && touched(m, k, now)[k].link
            == m[k].link,
        m.contains_key(other) && other != k ==> touched(m, k, now)[other] == m[other]
            && opened(m, k, link, now).contains_key(other) && opened(m, k, link, now)[other]
            == m[other],
        opened(m, k, link, now).contains_key(k),
        opened(m, k, link, now)[k].link == link && opened(m, k, link, now)[k].last_active == now,
        opened(m, k, link, now).contains_key(other) ==> other == k || m.contains_key(other),
{
    assert(touched(m, k, now).dom() =~= m.dom());
}

/// The links that are handed out are those of the sessions that are gone, each of them once.
pub proof fn law_removed_links_are_handed_out<K, S>(
    m: Map<K, Session<S>>,
    rest: Map<K, Session<S>>,
    links: Seq<S>,
)
    requires
        removed_links(m, rest, links),
    ensures
        forall|k: K| #[trigger]
            m.contains_key(k) && !rest.contains_key(k) ==> links.contains(m[k].link),
        forall|x: S| #[trigger]
            links.contains(x) ==> exists|k: K| #[trigger]
                m.contains_key(k) && !rest.contains_key(k) && m[k].link == x,
        links.len() == m.dom().difference(rest.dom()).len(),
{
    let keys = choose|keys: Seq<K>| #[trigger] links_of(m, rest, links, keys);
    assert forall|k: K| #[trigger] m.contains_key(k) && !rest.contains_key(k) implies links.contains(
        m[k].link,
    ) by {
        assert(keys.contains(k));
        let i = choose|i: int| 0 <= i < keys.len() && keys[i] == k;
        assert(links[i] == m[keys[i]].link);
    }
    assert forall|x: S| #[trigger] links.contains(x) implies exists|k: K| #[trigger]
        m.contains_key(k) && !rest.contains_key(k) && m[k].link == x by {
        let i = choose|i: int| 0 <= i < links.len() && links[i] == x;
        assert(keys.contains(keys[i]));
        assert(m.contains_key(keys[i]));
        assert(links[i] == m[keys[i]].link);
    }
    let gone = m.dom().difference(rest.dom());
    assert forall|k: K| keys.to_set().contains(k) <==> gone.contains(k) by {
        assert(keys.to_set().contains(k) == keys.contains(k));
        assert(keys.contains(k) <==> m.contains_key(k) && !rest.contains_key(k));
    }
    assert(keys.to_set() =~= gone);
    keys.unique_seq_to_set();
}

} // verus!
