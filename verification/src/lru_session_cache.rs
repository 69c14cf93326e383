use vstd::prelude::*;
use vstd::string::*;
use std::collections::VecDeque;
use std::sync::Arc;
use dashmap::DashMap;
use crate::paths::same_text;
use crate::session::Session;
use crate::sync::texts;

verus! {

/// The sessions that a map holds, by the root of their project.
pub uninterp spec fn sessions_held(map: DashMap<String, Arc<Session>>) -> Map<
    Seq<char>,
    Arc<Session>,
>;

/// `DashMap::new`: the new map holds nothing.
#[verifier::external_body]
fn sessions_new() -> (made: DashMap<String, Arc<Session>>)
    ensures
        (sessions_held(made) == Map::<Seq<char>, Arc<Session>>::empty()),
{
    DashMap::new()
}

/// `DashMap::get`: the session held under the key, if there is one.
#[verifier::external_body]
fn sessions_get(map: &DashMap<String, Arc<Session>>, key: &str) -> (found: Option<Arc<Session>>)
    ensures
        found == if sessions_held(*map).contains_key(key@) {
            Some(sessions_held(*map)[key@])
        } else {
            None
        },
{
    map.get(key).map(|entry| entry.value().clone())
}

/// `DashMap::insert`: the map then holds the session under the key.
#[verifier::external_body]
fn sessions_insert(map: &mut DashMap<String, Arc<Session>>, key: String, session: Arc<Session>)
    ensures
        sessions_held(*final(map)) == sessions_held(*old(map)).insert(key@, session),
{
    let _ = map.insert(key, session);
}

/// `DashMap::remove`: the map no longer holds the key.
#[verifier::external_body]
fn sessions_remove(map: &mut DashMap<String, Arc<Session>>, key: &str)
    ensures
        sessions_held(*final(map)) == sessions_held(*old(map)).remove(key@),
{
    let _ = map.remove(key);
}

/// What a cache is, apart from how it is stored: the sessions by key, the
/// keys from the most to the least recently touched, and the number of
/// sessions it is meant to hold.
pub struct CacheModel {
    pub entries: Map<Seq<char>, Arc<Session>>,
    pub recency: Seq<Seq<char>>,
    pub capacity: nat,
}

/// The keys other than `key`.
pub open spec fn differs(key: Seq<char>) -> spec_fn(Seq<char>) -> bool {
    |other: Seq<char>| other != key
}

/// The keys whose session is held and still in use.
pub open spec fn is_live(entries: Map<Seq<char>, Arc<Session>>) -> spec_fn(Seq<char>) -> bool {
    |key: Seq<char>| entries.contains_key(key) && entries[key]@.active
}

/// `order` with `key` moved to the front, or put there.
pub open spec fn promoted(order: Seq<Seq<char>>, key: Seq<char>) -> Seq<Seq<char>> {
    seq![key] + order.filter(differs(key))
}

impl CacheModel {
    /// Every key is held exactly once in the order, the order holds the keys
    /// of the sessions and no others, and there are no more of them than
    /// the capacity allows, or than one where it allows none.
    pub open spec fn wf(self) -> bool {
        &&& self.recency.no_duplicates()
        &&& forall|key: Seq<char>| #[trigger]
            self.entries.contains_key(key) <==> self.recency.contains(key)
        &&& (self.recency.len() <= self.capacity || self.recency.len() <= 1)
    }

    /// The cache after a lookup of `key`: a key that is held moves to the
    /// front.
    pub open spec fn touched(self, key: Seq<char>) -> CacheModel {
        if self.entries.contains_key(key) {
            CacheModel { recency: promoted(self.recency, key), ..self }
        } else {
            self
        }
    }

    /// The cache with room for one more: where it is full, the key touched
    /// least recently is gone.
    pub open spec fn with_room(self) -> CacheModel {
        if self.recency.len() >= self.capacity && self.recency.len() > 0 {
            CacheModel {
                entries: self.entries.remove(self.recency.last()),
                recency: self.recency.drop_last(),
                ..self
            }
        } else {
            self
        }
    }

    /// The cache after `session` is put in under `key`.
    pub open spec fn inserted(self, key: Seq<char>, session: Arc<Session>) -> CacheModel {
        if self.entries.contains_key(key) {
            CacheModel {
                entries: self.entries.insert(key, session),
                recency: promoted(self.recency, key),
                ..self
            }
        } else {
            CacheModel {
                entries: self.with_room().entries.insert(key, session),
                recency: seq![key] + self.with_room().recency,
                ..self
            }
        }
    }

    /// The cache after a sweep: only the sessions still in use are left, in
    /// the order they had.
    pub open spec fn swept(self) -> CacheModel {
        CacheModel {
            entries: self.entries.restrict(Set::new(is_live(self.entries))),
            recency: self.recency.filter(is_live(self.entries)),
            ..self
        }
    }
}

/// What is left of a duplicate-free order when only some keys are kept: it
/// has no duplicates, holds the kept keys of the order and no others, and is
/// no longer than the order.
pub proof fn lemma_filter_order(order: Seq<Seq<char>>, keep: spec_fn(Seq<char>) -> bool)
    requires
        order.no_duplicates(),
    ensures
        order.filter(keep).no_duplicates(),
        forall|key: Seq<char>| #[trigger]
            order.filter(keep).contains(key) <==> order.contains(key) && keep(key),
        order.filter(keep).len() <= order.len(),
        (forall|i: int| 0 <= i < order.len() ==> keep(#[trigger] order[i])) ==> order.filter(keep)
            == order,
        (exists|i: int| 0 <= i < order.len() && !keep(#[trigger] order[i])) ==> order.filter(
            keep,
        ).len() < order.len(),
    decreases order.len(),
{
    reveal(Seq::filter);
    if order.len() > 0 {
        let rest = order.drop_last();
        let last = order.last();
        lemma_filter_order(rest, keep);
        assert forall|key: Seq<char>| #[trigger]
            order.filter(keep).contains(key) <==> order.contains(key) && keep(key) by {
            if order.contains(key) {
                let i = choose|i: int| 0 <= i < order.len() && order[i] == key;
                if i < order.len() - 1 {
                    assert(rest[i] == key);
                }
            }
            if rest.contains(key) {
                let i = choose|i: int| 0 <= i < rest.len() && rest[i] == key;
                assert(order[i] == key);
            }
            if rest.filter(keep).contains(key) {
                let i = choose|i: int|
                    0 <= i < rest.filter(keep).len() && rest.filter(keep)[i] == key;
                if keep(last) {
                    assert(order.filter(keep)[i] == key);
                }
            }
            if keep(last) && key == last {
                assert(order.filter(keep)[rest.filter(keep).len() as int] == key);
            }
            if order.filter(keep).contains(key) {
                let i = choose|i: int|
                    0 <= i < order.filter(keep).len() && order.filter(keep)[i] == key;
                if keep(last) && i < rest.filter(keep).len() {
                    assert(rest.filter(keep)[i] == key);
                }
            }
        }
        if keep(last) {
            assert(!rest.contains(last)) by {
                if rest.contains(last) {
                    let i = choose|i: int| 0 <= i < rest.len() && rest[i] == last;
                    assert(order[i] == order[order.len() - 1]);
                }
            }
            assert(!rest.filter(keep).contains(last));
        }
        if forall|i: int| 0 <= i < order.len() ==> keep(#[trigger] order[i]) {
            assert forall|i: int| 0 <= i < rest.len() implies keep(#[trigger] rest[i]) by {
                assert(rest[i] == order[i]);
            }
            assert(order.filter(keep) =~= order);
        }
        if exists|i: int| 0 <= i < order.len() && !keep(#[trigger] order[i]) {
            let i = choose|i: int| 0 <= i < order.len() && !keep(#[trigger] order[i]);
            if keep(last) {
                assert(rest[i] == order[i]);
            }
        }
    }
}

/// Taking one key out of a duplicate-free order that holds it makes the
/// order one shorter.
pub proof fn lemma_without_key(order: Seq<Seq<char>>, key: Seq<char>)
    requires
        order.no_duplicates(),
    ensures
        order.filter(differs(key)).len() == if order.contains(key) {
            order.len() - 1
        } else {
            order.len() as int
        },
    decreases order.len(),
{
    reveal(Seq::filter);
    if order.len() > 0 {
        let rest = order.drop_last();
        lemma_without_key(rest, key);
        if order.last() == key {
            assert(!rest.contains(key)) by {
                if rest.contains(key) {
                    let i = choose|i: int| 0 <= i < rest.len() && rest[i] == key;
                    assert(order[i] == order[order.len() - 1]);
                }
            }
            assert(order[order.len() - 1] == key);
        } else {
            if rest.contains(key) {
                let i = choose|i: int| 0 <= i < rest.len() && rest[i] == key;
                assert(order[i] == key);
            }
            if order.contains(key) {
                let i = choose|i: int| 0 <= i < order.len() && order[i] == key;
                assert(rest[i] == key);
            }
        }
    }
}

/// A key put in front of an order that does not hold it leaves the order
/// free of duplicates.
pub proof fn lemma_front(order: Seq<Seq<char>>, key: Seq<char>)
    requires
        order.no_duplicates(),
        !order.contains(key),
    ensures
        (seq![key] + order).no_duplicates(),
        forall|other: Seq<char>| #[trigger]
            (seq![key] + order).contains(other) <==> other == key || order.contains(other),
{
    let whole = seq![key] + order;
    assert forall|i: int, j: int| 0 <= i < whole.len() && 0 <= j < whole.len() && i != j implies whole[i]
        != whole[j] by {
        if i > 0 {
            assert(order[i - 1] == whole[i]);
        }
        if j > 0 {
            assert(order[j - 1] == whole[j]);
        }
    }
    assert forall|other: Seq<char>| #[trigger]
        whole.contains(other) <==> other == key || order.contains(other) by {
        if whole.contains(other) {
            let i = choose|i: int| 0 <= i < whole.len() && whole[i] == other;
            if i > 0 {
                assert(order[i - 1] == other);
            }
        }
        if order.contains(other) {
            let i = choose|i: int| 0 <= i < order.len() && order[i] == other;
            assert(whole[i + 1] == other);
        }
        assert(whole[0] == key);
    }
}

/// Every operation keeps a well-formed cache well formed.
pub proof fn lemma_wf_kept(cache: CacheModel, key: Seq<char>, session: Arc<Session>)
    requires
        cache.wf(),
    ensures
        cache.touched(key).wf(),
        cache.with_room().wf(),
        cache.inserted(key, session).wf(),
        cache.swept().wf(),
        !cache.entries.contains_key(key) ==> cache.with_room().recency.len() < cache.capacity
            || cache.with_room().recency.len() == 0,
{
    let without = cache.recency.filter(differs(key));
    lemma_filter_order(cache.recency, differs(key));
    lemma_without_key(cache.recency, key);
    assert(!without.contains(key));
    lemma_front(without, key);
    // room
    let room = cache.with_room();
    if cache.recency.len() >= cache.capacity && cache.recency.len() > 0 {
        let last = cache.recency.last();
        assert forall|other: Seq<char>| #[trigger]
            room.entries.contains_key(other) <==> room.recency.contains(other) by {
            if room.recency.contains(other) {
                let i = choose|i: int| 0 <= i < room.recency.len() && room.recency[i] == other;
                assert(cache.recency[i] == other);
                assert(cache.recency[i] != cache.recency[cache.recency.len() - 1]);
            }
            if cache.recency.contains(other) && other != last {
                let i = choose|i: int| 0 <= i < cache.recency.len() && cache.recency[i] == other;
                assert(room.recency[i] == other);
            }
        }
        assert(room.recency.no_duplicates()) by {
            assert forall|i: int, j: int|
                0 <= i < room.recency.len() && 0 <= j < room.recency.len() && i != j implies room.recency[i]
                != room.recency[j] by {
                assert(room.recency[i] == cache.recency[i]);
                assert(room.recency[j] == cache.recency[j]);
            }
        }
    }
    if !cache.entries.contains_key(key) {
        assert(!room.recency.contains(key)) by {
            if room.recency.contains(key) {
                assert(room.entries.contains_key(key));
            }
        }
        lemma_front(room.recency, key);
    }
    // sweep
    lemma_filter_order(cache.recency, is_live(cache.entries));
}

/// A bounded store of sessions by the root of their project. It remembers
/// the order in which the keys were touched; when it is full, a new key
/// takes the place of the one touched least recently.
pub struct LRUSessionCache {
    sessions: DashMap<String, Arc<Session>>,
    usage_order: VecDeque<String>,
    capacity: usize,
}

impl View for LRUSessionCache {
    type V = CacheModel;

    closed spec fn view(&self) -> CacheModel {
        CacheModel {
            entries: sessions_held(self.sessions),
            recency: texts(self.usage_order@),
            capacity: self.capacity as nat,
        }
    }
}

/// Taking out an entry that is not kept does not change what is kept.
proof fn lemma_filter_remove(order: Seq<Seq<char>>, at: int, keep: spec_fn(Seq<char>) -> bool)
    requires
        0 <= at < order.len(),
        !keep(order[at]),
    ensures
        order.remove(at).filter(keep) == order.filter(keep),
{
    let head = order.take(at);
    let tail = order.skip(at + 1);
    assert(order =~= head + seq![order[at]] + tail);
    assert(order.remove(at) =~= head + tail);
    Seq::filter_distributes_over_add(head + seq![order[at]], tail, keep);
    Seq::filter_distributes_over_add(head, seq![order[at]], keep);
    Seq::filter_distributes_over_add(head, tail, keep);
    reveal_with_fuel(Seq::filter, 2);
    assert(seq![order[at]].drop_last() =~= Seq::<Seq<char>>::empty());
    assert(seq![order[at]].filter(keep) =~= Seq::<Seq<char>>::empty());
    assert(head.filter(keep) + Seq::<Seq<char>>::empty() =~= head.filter(keep));
}

/// Takes every entry equal to `key` out of `order`.
fn remove_key(order: &mut VecDeque<String>, key: &str)
    ensures
        texts(final(order)@) == texts(old(order)@).filter(differs(key@)),
{
    let ghost keep = differs(key@);
    let mut i: usize = 0;
    while i < order.len()
        invariant
            i <= order@.len(),
            keep == differs(key@),
            texts(order@).filter(keep) == texts(old(order)@).filter(keep),
            forall|j: int| 0 <= j < i ==> keep(#[trigger] texts(order@)[j]),
        decreases order@.len() - i,
    {
        if same_text(order[i].as_str(), key) {
            let ghost before = order@;
            proof {
                lemma_filter_remove(texts(before), i as int, keep);
                assert(texts(before.remove(i as int)) =~= texts(before).remove(i as int));
            }
            let _ = order.remove(i);
        } else {
            i += 1;
        }
    }
    proof {
        lemma_filter_all(texts(order@), keep);
    }
}

/// Where every entry is kept, the order stays as it is.
proof fn lemma_filter_all(order: Seq<Seq<char>>, keep: spec_fn(Seq<char>) -> bool)
    requires
        forall|j: int| 0 <= j < order.len() ==> keep(#[trigger] order[j]),
    ensures
        order.filter(keep) == order,
    decreases order.len(),
{
    reveal(Seq::filter);
    if order.len() > 0 {
        assert forall|j: int| 0 <= j < order.drop_last().len() implies keep(
            #[trigger] order.drop_last()[j],
        ) by {
            assert(order.drop_last()[j] == order[j]);
        }
        lemma_filter_all(order.drop_last(), keep);
        assert(order.drop_last().push(order.last()) =~= order);
    }
}

impl LRUSessionCache {
    /// The cache is well formed.
    pub open spec fn wf(&self) -> bool {
        self@.wf()
    }

    /// An empty cache that is meant to hold `capacity` sessions.
    pub fn new(capacity: usize) -> (cache: Self)
        ensures
            cache.wf(),
            cache@ == (CacheModel {
                entries: Map::empty(),
                recency: Seq::empty(),
                capacity: capacity as nat,
            }),
    {
        let cache = LRUSessionCache {
            sessions: sessions_new(),
            usage_order: VecDeque::new(),
            capacity,
        };
        assert(texts(cache.usage_order@) =~= Seq::<Seq<char>>::empty());
        cache
    }

    /// The number of sessions that the cache is meant to hold.
    pub fn capacity(&self) -> (capacity: usize)
        ensures
            capacity == self@.capacity,
    {
        self.capacity
    }

    /// The number of sessions held.
    pub fn len(&self) -> (len: usize)
        ensures
            len == self@.recency.len(),
    {
        self.usage_order.len()
    }

    /// The session held under `path`. A key that is found becomes the most
    /// recently touched; a miss changes nothing.
    pub fn get(&mut self, path: &str) -> (found: Option<Arc<Session>>)
        requires
            old(self).wf(),
        ensures
            final(self).wf(),
            final(self)@ == old(self)@.touched(path@),
            found == if old(self)@.entries.contains_key(path@) {
                Some(old(self)@.entries[path@])
            } else {
                None
            },
    {
        proof {
            lemma_wf_kept(self@, path@, arbitrary());
        }
        let found = sessions_get(&self.sessions, path);
        if found.is_some() {
            self.move_to_front(path);
        }
        found
    }

    /// Puts `session` in under `path` as the most recently touched. A key
    /// that is held keeps its place in the count and gets the new session;
    /// for a new key in a full cache the key touched least recently makes
    /// room first.
    pub fn insert(&mut self, path: String, session: Arc<Session>)
        requires
            old(self).wf(),
        ensures
            final(self).wf(),
            final(self)@ == old(self)@.inserted(path@, session),
    {
        proof {
            lemma_wf_kept(self@, path@, session);
        }
        if sessions_get(&self.sessions, path.as_str()).is_some() {
            sessions_insert(&mut self.sessions, path.clone(), session);
            remove_key(&mut self.usage_order, path.as_str());
        } else {
            if self.usage_order.len() >= self.capacity {
                self.evict_least_recently_used();
            }
            sessions_insert(&mut self.sessions, path.clone(), session);
        }
        let ghost before = self.usage_order@;
        self.usage_order.push_front(path);
        assert(texts(self.usage_order@) =~= seq![path@] + texts(before));
    }

    /// Marks the session held under `path` as no longer in use. The cache
    /// then holds a session of its own with the mark; whoever was handed the
    /// session before keeps it as it was.
    pub fn mark_session_inactived(&mut self, path: &str)
        requires
            old(self).wf(),
        ensures
            final(self).wf(),
            final(self)@.recency == old(self)@.recency,
            final(self)@.capacity == old(self)@.capacity,
            final(self)@.entries.dom() == old(self)@.entries.dom(),
            forall|other: Seq<char>|
                other != path@ && old(self)@.entries.contains_key(other) ==> final(self)@.entries[other] == old(self)@.entries[other],
            old(self)@.entries.contains_key(path@) ==> final(self)@.entries[path@]@ == (
            crate::session::SessionModel { active: false, ..old(self)@.entries[path@]@ }),
    {
        match sessions_get(&self.sessions, path) {
            Some(held) => {
                let mut session: Session = (*held).clone();
                session.mark_inactived();
                sessions_insert(&mut self.sessions, path.to_owned(), Arc::new(session));
                assert(self@.entries.dom() =~= old(self)@.entries.dom());
            },
            None => {},
        }
    }

    /// Takes out every session that is no longer in use, whatever its place
    /// in the order; the others stay as they are.
    pub fn cleanup_sessions(&mut self)
        requires
            old(self).wf(),
        ensures
            final(self).wf(),
            final(self)@ == old(self)@.swept(),
    {
        let ghost live = is_live(old(self)@.entries);
        let ghost first = old(self)@;
        proof {
            lemma_wf_kept(first, Seq::empty(), arbitrary());
            assert(first.recency.skip(0) =~= first.recency);
        }
        let mut i: usize = 0;
        while i < self.usage_order.len()
            invariant
                i <= self.usage_order@.len(),
                live == is_live(first.entries),
                first == old(self)@,
                first.wf(),
                self.capacity == first.capacity,
                texts(self.usage_order@).filter(live) == first.recency.filter(live),
                forall|j: int| 0 <= j < i ==> live(#[trigger] texts(self.usage_order@)[j]),
                forall|key: Seq<char>| #[trigger]
                    self@.entries.contains_key(key) ==> first.entries.contains_key(key)
                        && self@.entries[key] == first.entries[key],
                forall|key: Seq<char>|
                    first.entries.contains_key(key) && live(key) ==> #[trigger] self@.entries.contains_key(
                        key,
                    ),
                forall|key: Seq<char>| #[trigger]
                    self@.entries.contains_key(key) && !live(key) ==> texts(
                        self.usage_order@,
                    ).skip(i as int).contains(key),
            decreases self.usage_order@.len() - i,
        {
            let ghost order = texts(self.usage_order@);
            let ghost key = order[i as int];
            let keep = match sessions_get(&self.sessions, self.usage_order[i].as_str()) {
                Some(session) => session.is_active(),
                None => false,
            };
            proof {
                assert(self.usage_order@[i as int]@ == key);
                if self@.entries.contains_key(key) {
                    assert(first.entries.contains_key(key));
                }
            }
            if keep {
                proof {
                    assert(live(key));
                    assert forall|other: Seq<char>| #[trigger]
                        self@.entries.contains_key(other) && !live(other) implies order.skip(
                        i + 1,
                    ).contains(other) by {
                        let j = choose|j: int|
                            0 <= j < order.skip(i as int).len() && order.skip(i as int)[j]
                                == other;
                        assert(j > 0);
                        assert(order.skip(i + 1)[j - 1] == other);
                    }
                }
                i += 1;
            } else {
                let ghost held = self@.entries;
                proof {
                    assert(!live(key));
                    lemma_filter_remove(order, i as int, live);
                    assert(texts(self.usage_order@.remove(i as int)) =~= order.remove(i as int));
                }
                sessions_remove(&mut self.sessions, self.usage_order[i].as_str());
                let _ = self.usage_order.remove(i);
                proof {
                    let after = texts(self.usage_order@);
                    assert forall|j: int| 0 <= j < i implies live(#[trigger] after[j]) by {
                        assert(after[j] == order[j]);
                    }
                    assert forall|other: Seq<char>| #[trigger]
                        self@.entries.contains_key(other) && !live(other) implies after.skip(
                        i as int,
                    ).contains(other) by {
                        assert(held.contains_key(other) && other != key);
                        let j = choose|j: int|
                            0 <= j < order.skip(i as int).len() && order.skip(i as int)[j]
                                == other;
                        assert(j > 0);
                        assert(after.skip(i as int)[j - 1] == other);
                    }
                }
            }
        }
        proof {
            let order = texts(self.usage_order@);
            lemma_filter_all(order, live);
            assert(order.skip(order.len() as int) =~= Seq::<Seq<char>>::empty());
            assert(self@.entries =~= first.entries.restrict(Set::new(live)));
        }
    }

    /// Makes `path` the most recently touched key.
    fn move_to_front(&mut self, path: &str)
        ensures
            final(self)@ == (CacheModel {
                recency: promoted(old(self)@.recency, path@),
                ..old(self)@
            }),
    {
        remove_key(&mut self.usage_order, path);
        let ghost before = self.usage_order@;
        self.usage_order.push_front(path.to_owned());
        assert(texts(self.usage_order@) =~= seq![path@] + texts(before));
    }

    /// Takes out the key touched least recently, with its session.
    fn evict_least_recently_used(&mut self)
        ensures
            final(self)@ == if old(self)@.recency.len() > 0 {
                CacheModel {
                    entries: old(self)@.entries.remove(old(self)@.recency.last()),
                    recency: old(self)@.recency.drop_last(),
                    ..old(self)@
                }
            } else {
                old(self)@
            },
    {
        let ghost before = self.usage_order@;
        if let Some(old_path) = self.usage_order.pop_back() {
            sessions_remove(&mut self.sessions, old_path.as_str());
            assert(texts(self.usage_order@) =~= texts(before).drop_last());
        }
    }
}

/// An empty cache that is meant to hold `capacity` sessions.
pub open spec fn empty_cache(capacity: nat) -> CacheModel {
    CacheModel { entries: Map::empty(), recency: Seq::empty(), capacity }
}

/// The cache after the sessions are put in under the keys, one after the
/// other.
pub open spec fn inserted_all(
    cache: CacheModel,
    keys: Seq<Seq<char>>,
    sessions: Seq<Arc<Session>>,
) -> CacheModel
    decreases keys.len(),
{
    if keys.len() == 0 {
        cache
    } else {
        inserted_all(cache, keys.drop_last(), sessions.drop_last()).inserted(
            keys.last(),
            sessions.last(),
        )
    }
}

/// A sweep takes out exactly the sessions that are no longer in use: a
/// session is left if and only if it was held and in use, and then it is
/// the one that was held.
pub proof fn lemma_sweep(cache: CacheModel, key: Seq<char>)
    requires
        cache.wf(),
    ensures
        cache.swept().entries.contains_key(key) <==> cache.entries.contains_key(key)
            && cache.entries[key]@.active,
        cache.swept().recency.contains(key) <==> cache.entries.contains_key(key)
            && cache.entries[key]@.active,
        cache.swept().entries.contains_key(key) ==> cache.swept().entries[key]
            == cache.entries[key],
{
    lemma_filter_order(cache.recency, is_live(cache.entries));
    assert(is_live(cache.entries)(key) == (cache.entries.contains_key(key)
        && cache.entries[key]@.active));
}

/// A new key put into a full cache takes the place of the key touched least
/// recently, and of no other.
pub proof fn lemma_insert_evicts_least_recent(
    cache: CacheModel,
    key: Seq<char>,
    session: Arc<Session>,
)
    requires
        cache.wf(),
        cache.capacity >= 1,
        cache.recency.len() == cache.capacity,
        !cache.entries.contains_key(key),
    ensures
        cache.inserted(key, session).recency == seq![key] + cache.recency.drop_last(),
        forall|other: Seq<char>| #[trigger]
            cache.inserted(key, session).entries.contains_key(other) <==> other == key || (
            cache.entries.contains_key(other) && other != cache.recency.last()),
        forall|other: Seq<char>|
            cache.entries.contains_key(other) && other != cache.recency.last() ==> cache.inserted(
                key,
                session,
            ).entries[other] == cache.entries[other],
        cache.inserted(key, session).entries[key] == session,
{
}

/// Distinct keys put into an empty cache that has room for all of them are
/// all held, the last one put in being the most recently touched.
pub proof fn lemma_fill(capacity: nat, keys: Seq<Seq<char>>, sessions: Seq<Arc<Session>>)
    requires
        keys.no_duplicates(),
        keys.len() == sessions.len(),
        keys.len() <= capacity,
    ensures
        inserted_all(empty_cache(capacity), keys, sessions).wf(),
        inserted_all(empty_cache(capacity), keys, sessions).capacity == capacity,
        inserted_all(empty_cache(capacity), keys, sessions).recency.len() == keys.len(),
        forall|i: int|
            0 <= i < keys.len() ==> #[trigger] inserted_all(
                empty_cache(capacity),
                keys,
                sessions,
            ).recency[i] == keys[keys.len() - 1 - i],
        forall|i: int|
            0 <= i < keys.len() ==> inserted_all(
                empty_cache(capacity),
                keys,
                sessions,
            ).entries.contains_key(#[trigger] keys[i]) && inserted_all(
                empty_cache(capacity),
                keys,
                sessions,
            ).entries[keys[i]] == sessions[i],
    decreases keys.len(),
{
    let filled = inserted_all(empty_cache(capacity), keys, sessions);
    if keys.len() == 0 {
    } else {
        let before = inserted_all(empty_cache(capacity), keys.drop_last(), sessions.drop_last());
        lemma_fill(capacity, keys.drop_last(), sessions.drop_last());
        lemma_wf_kept(before, keys.last(), sessions.last());
        assert(!before.entries.contains_key(keys.last())) by {
            if before.recency.contains(keys.last()) {
                let i = choose|i: int|
                    0 <= i < before.recency.len() && before.recency[i] == keys.last();
                assert(keys.drop_last()[keys.len() - 2 - i] == keys[keys.len() - 2 - i]);
            }
        }
        assert(before.with_room() == before);
        assert forall|i: int| 0 <= i < keys.len() implies #[trigger] filled.recency[i]
            == keys[keys.len() - 1 - i] by {
            if i > 0 {
                assert(filled.recency[i] == before.recency[i - 1]);
                assert(keys.drop_last()[keys.len() - 1 - i] == keys[keys.len() - 1 - i]);
            }
        }
        assert forall|i: int| 0 <= i < keys.len() implies filled.entries.contains_key(
            #[trigger] keys[i],
        ) && filled.entries[keys[i]] == sessions[i] by {
            if i < keys.len() - 1 {
                assert(keys.drop_last()[i] == keys[i]);
                assert(sessions.drop_last()[i] == sessions[i]);
                assert(before.entries.contains_key(keys.drop_last()[i]));
            }
        }
    }
}

/// One key more than the cache has room for, all distinct and put into an
/// empty cache: the first key put in is gone, and all the others are held.
pub proof fn lemma_overfill(capacity: nat, keys: Seq<Seq<char>>, sessions: Seq<Arc<Session>>)
    requires
        capacity >= 1,
        keys.no_duplicates(),
        keys.len() == sessions.len(),
        keys.len() == capacity + 1,
    ensures
        !inserted_all(empty_cache(capacity), keys, sessions).entries.contains_key(keys[0]),
        forall|i: int|
            1 <= i < keys.len() ==> inserted_all(
                empty_cache(capacity),
                keys,
                sessions,
            ).entries.contains_key(#[trigger] keys[i]) && inserted_all(
                empty_cache(capacity),
                keys,
                sessions,
            ).entries[keys[i]] == sessions[i],
        inserted_all(empty_cache(capacity), keys, sessions).recency.len() == capacity,
{
    let full = inserted_all(empty_cache(capacity), keys.drop_last(), sessions.drop_last());
    let over = inserted_all(empty_cache(capacity), keys, sessions);
    lemma_fill(capacity, keys.drop_last(), sessions.drop_last());
    assert(!full.entries.contains_key(keys.last())) by {
        if full.recency.contains(keys.last()) {
            let i = choose|i: int| 0 <= i < full.recency.len() && full.recency[i] == keys.last();
            assert(keys.drop_last()[keys.len() - 2 - i] == keys[keys.len() - 2 - i]);
        }
    }
    assert(full.recency.last() == keys[0]) by {
        assert(full.recency[capacity - 1] == keys.drop_last()[0]);
    }
    lemma_insert_evicts_least_recent(full, keys.last(), sessions.last());
    assert forall|i: int| 1 <= i < keys.len() implies over.entries.contains_key(
        #[trigger] keys[i],
    ) && over.entries[keys[i]] == sessions[i] by {
        if i < keys.len() - 1 {
            assert(keys.drop_last()[i] == keys[i]);
            assert(sessions.drop_last()[i] == sessions[i]);
            assert(full.entries.contains_key(keys.drop_last()[i]));
        }
    }
}

/// A lookup saves a key from the next eviction: where the key touched least
/// recently in a full cache is looked up, a new key then takes the place of
/// the key that came before it in the order, and the key looked up stays.
pub proof fn lemma_lookup_saves(
    cache: CacheModel,
    key: Seq<char>,
    new_key: Seq<char>,
    session: Arc<Session>,
)
    requires
        cache.wf(),
        cache.capacity >= 2,
        cache.recency.len() == cache.capacity,
        key == cache.recency.last(),
        !cache.entries.contains_key(new_key),
    ensures
        !cache.inserted(new_key, session).entries.contains_key(key),
        cache.touched(key).inserted(new_key, session).entries.contains_key(key),
        !cache.touched(key).inserted(new_key, session).entries.contains_key(
            cache.recency[cache.recency.len() - 2],
        ),
{
    let n = cache.recency.len() as int;
    let next = cache.recency[n - 2];
    assert(cache.recency.contains(key));
    assert(cache.recency.contains(next));
    assert(next != key);
    let touched = cache.touched(key);
    lemma_wf_kept(cache, key, session);
    lemma_filter_order(cache.recency, differs(key));
    lemma_without_key(cache.recency, key);
    let without = cache.recency.filter(differs(key));
    // what is left without the last key is the order without its last entry
    assert forall|j: int| 0 <= j < n - 1 implies differs(key)(
        #[trigger] cache.recency.drop_last()[j],
    ) by {
        assert(cache.recency.drop_last()[j] == cache.recency[j]);
    }
    lemma_filter_all(cache.recency.drop_last(), differs(key));
    reveal(Seq::filter);
    assert(without == cache.recency.drop_last());
    assert(touched.recency.last() == next) by {
        assert(touched.recency[n - 1] == without[n - 2]);
    }
}

} // verus!
