//! The last position broadcast to each client, per tracked entity.
use vstd::prelude::*;
use crate::command::str_eq;
use crate::geometry::Position;
use crate::table::{keys_unique, table_view, has_key, lemma_view_at, lemma_view_empty, lemma_view_push, lemma_view_update, lemma_view_remove};

verus! {

/// What a cached position is about, from the receiving client's side.
#[derive(Clone, Debug)]
pub enum TrackKey {
    /// The ball.
    Ball,
    /// The client's own avatar.
    Player,
    /// Another client's avatar, by that client's address.
    Enemy(String),
}

/// The mathematical form of a `TrackKey`.
pub enum Entity {
    Ball,
    Player,
    Enemy(Seq<char>),
}

impl View for TrackKey {
    type V = Entity;

    open spec fn view(&self) -> Entity {
        match self {
            TrackKey::Ball => Entity::Ball,
            TrackKey::Player => Entity::Player,
            TrackKey::Enemy(e) => Entity::Enemy(e@),
        }
    }
}

/// Whether two keys are the same.
pub fn same_key(a: &TrackKey, b: &TrackKey) -> (r: bool)
    ensures
        r == (a@ == b@),
{
    match (a, b) {
        (TrackKey::Ball, TrackKey::Ball) => true,
        (TrackKey::Player, TrackKey::Player) => true,
        (TrackKey::Enemy(x), TrackKey::Enemy(y)) => str_eq(x.as_str(), y.as_str()),
        _ => false,
    }
}

/// A copy of a key.
pub fn copy_key(k: &TrackKey) -> (r: TrackKey)
    ensures
        r@ == k@,
{
    match k {
        TrackKey::Ball => TrackKey::Ball,
        TrackKey::Player => TrackKey::Player,
        TrackKey::Enemy(e) => TrackKey::Enemy(e.clone()),
    }
}

/// A receiving client's address and what the position is about.
pub type CacheKey = (Seq<char>, Entity);

/// One cached position.
#[derive(Clone, Debug)]
pub struct CacheEntry {
    pub client: String,
    pub key: TrackKey,
    pub position: Position,
}

pub open spec fn cache_entries(s: Seq<CacheEntry>) -> Seq<(CacheKey, Position)> {
    s.map_values(|e: CacheEntry| ((e.client@, e.key@), e.position))
}

/// `m` without any entry for the client `c`.
pub open spec fn without_client(m: Map<CacheKey, Position>, c: Seq<char>) -> Map<CacheKey, Position> {
    Map::new(|k: CacheKey| m.contains_key(k) && k.0 != c, |k: CacheKey| m[k])
}

/// The last position broadcast to each client about each tracked entity.
pub struct PositionCache {
    entries: Vec<CacheEntry>,
}

impl PositionCache {
    /// The cached position of each (client, entity) pair.
    pub closed spec fn positions(&self) -> Map<CacheKey, Position> {
        table_view(cache_entries(self.entries@))
    }

    /// No pair is cached twice.
    pub closed spec fn wf(&self) -> bool {
        keys_unique(cache_entries(self.entries@))
    }

    /// An empty cache.
    pub fn new() -> (r: PositionCache)
        ensures
            r.wf(),
            r.positions() == Map::<CacheKey, Position>::empty(),
    {
        let r = PositionCache { entries: Vec::new() };
        proof {
            lemma_view_empty(cache_entries(r.entries@));
        }
        r
    }

    fn find(&self, client: &str, key: &TrackKey) -> (r: Option<usize>)
        requires
            self.wf(),
        ensures
            r matches Some(i) ==> i < self.entries@.len() && cache_entries(self.entries@)[i as int].0 == (client@, key@),
            r is None ==> !self.positions().contains_key((client@, key@)),
    {
        let mut i: usize = 0;
        while i < self.entries.len()
            invariant
                i <= self.entries@.len(),
                forall|j: int| 0 <= j < i ==> cache_entries(self.entries@)[j].0 != (client@, key@),
            decreases self.entries.len() - i,
        {
            if str_eq(self.entries[i].client.as_str(), client) && same_key(&self.entries[i].key, key) {
                return Some(i);
            }
            i += 1;
        }
        proof {
            let s = cache_entries(self.entries@);
            if has_key(s, (client@, key@)) {
                let j = choose|j: int| 0 <= j < s.len() && #[trigger] s[j].0 == (client@, key@);
                assert(s[j].0 != (client@, key@));
            }
        }
        None
    }

    /// The position last broadcast to `client` about `key`.
    pub fn get(&self, client: &str, key: &TrackKey) -> (r: Option<Position>)
        requires
            self.wf(),
        ensures
            r == (if self.positions().contains_key((client@, key@)) {
                Some(self.positions()[(client@, key@)])
            } else {
                None
            }),
    {
        match self.find(client, key) {
            Some(i) => {
                proof {
                    lemma_view_at(cache_entries(self.entries@), i as int);
                }
                Some(self.entries[i].position)
            },
            None => None,
        }
    }

    /// Offers a fresh position for `client` about `key`. Returns whether it
    /// must be broadcast: when nothing, or something else, was cached. The
    /// cache then holds the fresh position.
    pub fn offer(&mut self, client: &String, key: &TrackKey, position: Position) -> (r: bool)
        requires
            old(self).wf(),
        ensures
            final(self).wf(),
            final(self).positions() == old(self).positions().insert((client@, key@), position),
            r == !(old(self).positions().contains_key((client@, key@))
                && old(self).positions()[(client@, key@)] == position),
    {
        let ghost before = self.entries@;
        match self.find(client.as_str(), key) {
            Some(i) => {
                proof {
                    lemma_view_at(cache_entries(before), i as int);
                    lemma_view_update(cache_entries(before), i as int, position);
                }
                let cached = self.entries[i].position;
                if cached == position {
                    proof {
                        assert(old(self).positions().insert((client@, key@), position) =~= old(self).positions());
                    }
                    false
                } else {
                    let entry = CacheEntry { client: self.entries[i].client.clone(), key: copy_key(&self.entries[i].key), position };
                    proof {
                        assert(entry.key@ == before[i as int].key@);
                    }
                    self.entries.set(i, entry);
                    proof {
                        assert(cache_entries(self.entries@) =~= cache_entries(before).update(i as int, (cache_entries(before)[i as int].0, position)));
                    }
                    true
                }
            },
            None => {
                let k = copy_key(key);
                proof {
                    assert(k@ == key@);
                    lemma_view_push(cache_entries(before), (client@, key@), position);
                }
                self.entries.push(CacheEntry { client: client.clone(), key: k, position });
                proof {
                    assert(cache_entries(self.entries@) =~= cache_entries(before).push(((client@, key@), position)));
                }
                true
            },
        }
    }

    /// Forgets every position cached for `client`.
    pub fn remove_client(&mut self, client: &str)
        requires
            old(self).wf(),
        ensures
            final(self).wf(),
            final(self).positions() == without_client(old(self).positions(), client@),
    {
        let mut i: usize = 0;
        while i < self.entries.len()
            invariant
                self.wf(),
                i <= self.entries@.len(),
                forall|j: int| 0 <= j < i ==> (#[trigger] self.entries@[j]).client@ != client@,
                forall|k: CacheKey| k.0 != client@ ==>
                    (#[trigger] self.positions().contains_key(k)) == old(self).positions().contains_key(k),
                forall|k: CacheKey| k.0 != client@ && self.positions().contains_key(k) ==>
                    #[trigger] self.positions()[k] == old(self).positions()[k],
                forall|k: CacheKey| #[trigger] self.positions().contains_key(k) ==> old(self).positions().contains_key(k),
            decreases self.entries.len() - i,
        {
            if str_eq(self.entries[i].client.as_str(), client) {
                let ghost before = self.entries@;
                let ghost pb = self.positions();
                proof {
                    lemma_view_remove(cache_entries(before), i as int);
                    assert(cache_entries(before)[i as int].0.0 == client@);
                }
                self.entries.remove(i);
                proof {
                    assert(cache_entries(self.entries@) =~= cache_entries(before).remove(i as int));
                    let gone = cache_entries(before)[i as int].0;
                    assert(self.positions() == pb.remove(gone));
                    assert forall|k: CacheKey| k.0 != client@ implies
                        (#[trigger] self.positions().contains_key(k)) == old(self).positions().contains_key(k) by {
                        assert(k != gone);
                        assert(pb.contains_key(k) == old(self).positions().contains_key(k));
                    }
                    assert forall|k: CacheKey| k.0 != client@ && self.positions().contains_key(k) implies
                        #[trigger] self.positions()[k] == old(self).positions()[k] by {
                        assert(k != gone);
                        assert(pb.contains_key(k));
                        assert(pb[k] == old(self).positions()[k]);
                    }
                    assert forall|j: int| 0 <= j < i implies (#[trigger] self.entries@[j]).client@ != client@ by {
                        assert(self.entries@[j] == before[j]);
                    }
                }
            } else {
                i += 1;
            }
        }
        proof {
            let s = cache_entries(self.entries@);
            assert forall|k: CacheKey| #[trigger] self.positions().contains_key(k) implies k.0 != client@ by {
                let j = choose|j: int| 0 <= j < s.len() && #[trigger] s[j].0 == k;
                assert(self.entries@[j].client@ != client@);
            }
            assert(self.positions() =~= without_client(old(self).positions(), client@));
        }
    }
}

} // verus!
