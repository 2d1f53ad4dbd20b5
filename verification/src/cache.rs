//! The search cache: what is known of the positions that a search has visited.

use crate::game::{Game, GameModel};
use std::collections::HashMap;
use vstd::prelude::*;

verus! {

/// Number of entries at which the cache is emptied before the next one goes in.
pub const AB_CACHE_MAX_ENTRIES: usize = 200_000;

/// How a cached value bounds the value of its position.
#[derive(Clone, Copy, Debug, PartialEq, Eq, Structural)]
pub enum AbCacheBound {
    Exact,
    Lower,
    Upper,
}

/// A cached value.
#[derive(Clone, Copy, Debug, PartialEq, Eq, Structural)]
pub struct AbCacheEntry {
    pub value: i64,
    pub bound: AbCacheBound,
}

/// What the search sees of a position: the board, the next tile, the bonus forecast, and how
/// deep and in which way it is searched.
#[derive(Clone, Copy, Debug)]
pub struct AbCacheKey {
    pub board: [u16; 16],
    pub next: [u16; 3],
    pub next_len: u8,
    pub bonus: [u8; 3],
    pub depth: u8,
    pub dfs: bool,
}

/// What a key says.
#[verifier::ext_equal]
pub struct KeyModel {
    pub board: Seq<u16>,
    pub next: Seq<u16>,
    pub next_len: int,
    pub bonus: Seq<u8>,
    pub depth: u8,
    pub dfs: bool,
}

impl View for AbCacheKey {
    type V = KeyModel;

    open spec fn view(&self) -> KeyModel {
        KeyModel {
            board: self.board@,
            next: self.next@,
            next_len: self.next_len as int,
            bonus: self.bonus@,
            depth: self.depth,
            dfs: self.dfs,
        }
    }
}

/// The first three ranks of a next tile, filled up with 0.
pub open spec fn first_three(ranks: Seq<u16>) -> Seq<u16> {
    Seq::new(
        3,
        |i: int|
            if i < ranks.len() {
                ranks[i]
            } else {
                0
            },
    )
}

/// The key of a position.
pub open spec fn key_of(game: GameModel, depth: u8, dfs: bool) -> KeyModel {
    KeyModel {
        board: game.board,
        next: first_three(game.next.ranks()),
        next_len: if game.next.ranks().len() < 3 {
            game.next.ranks().len() as int
        } else {
            3
        },
        bonus: game.tracker.digest(),
        depth,
        dfs,
    }
}

/// Two numbers mixed into one.
pub open spec fn mixed(hash: u64, word: u64) -> u64 {
    ((hash ^ word) * 0x0000_0100_0000_01b3 % 0x1_0000_0000_0000_0000) as u64
}

/// The hash of the first few ranks of a board.
pub open spec fn board_hash(board: Seq<u16>, cells: int) -> u64
    decreases cells,
{
    if cells <= 0 {
        0xcbf2_9ce4_8422_2325
    } else {
        mixed(board_hash(board, cells - 1), board[cells - 1] as u64)
    }
}

/// The hash of a key. Keys that differ in the bonus forecast alone share it.
pub open spec fn key_hash(key: KeyModel) -> u64 {
    let board = board_hash(key.board, 16);
    let next = mixed(
        mixed(mixed(board, key.next[0] as u64), key.next[1] as u64),
        key.next[2] as u64,
    );
    mixed(next, key.depth as u64)
}

fn mix(hash: u64, word: u64) -> (out: u64)
    ensures
        out == mixed(hash, word),
{
    (hash ^ word).wrapping_mul(0x0000_0100_0000_01b3)
}

impl AbCacheKey {
    /// The key of a position.
    pub fn new(game: &Game, depth: u8, dfs: bool) -> (key: Self)
        ensures
            key@ == key_of(game@, depth, dfs),
    {
        let signature: Vec<u16> = game.next_tile().rank_signature();
        let next_len: usize = if signature.len() < 3 {
            signature.len()
        } else {
            3
        };
        let mut next: [u16; 3] = [0; 3];
        let mut i: usize = 0;
        while i < next_len
            invariant
                i <= next_len <= 3,
                next_len <= signature@.len(),
                forall|j: int|
                    0 <= j < 3 ==> next@[j] == if j < i {
                        signature@[j]
                    } else {
                        0
                    },
            decreases next_len - i,
        {
            next[i] = signature[i];
            i = i + 1;
        }
        let key = AbCacheKey {
            board: game.board().ranks(),
            next,
            next_len: next_len as u8,
            bonus: game.bonus_forecast_signature(),
            depth,
            dfs,
        };
        assert(key@.next =~= first_three(signature@));
        key
    }

    fn hash(&self) -> (hash: u64)
        ensures
            hash == key_hash(self@),
    {
        let mut hash: u64 = 0xcbf2_9ce4_8422_2325;
        let mut i: usize = 0;
        while i < 16
            invariant
                i <= 16,
                hash == board_hash(self.board@, i as int),
            decreases 16 - i,
        {
            hash = mix(hash, self.board[i] as u64);
            i = i + 1;
        }
        let next: u64 = mix(
            mix(mix(hash, self.next[0] as u64), self.next[1] as u64),
            self.next[2] as u64,
        );
        mix(next, self.depth as u64)
    }

    fn same(&self, other: &AbCacheKey) -> (same: bool)
        ensures
            same == (self@ == other@),
    {
        let mut i: usize = 0;
        while i < 16
            invariant
                i <= 16,
                forall|j: int| 0 <= j < i ==> self.board@[j] == other.board@[j],
            decreases 16 - i,
        {
            if self.board[i] != other.board[i] {
                return false;
            }
            i = i + 1;
        }
        assert(self@.board =~= other@.board);
        let same = self.next[0] == other.next[0] && self.next[1] == other.next[1] && self.next[2]
            == other.next[2] && self.next_len == other.next_len && self.bonus[0] == other.bonus[0]
            && self.bonus[1] == other.bonus[1] && self.bonus[2] == other.bonus[2] && self.depth
            == other.depth && self.dfs == other.dfs;
        proof {
            if same {
                assert(self@.next =~= other@.next);
                assert(self@.bonus =~= other@.bonus);
            }
        }
        same
    }
}

/// One place of the cache.
#[derive(Clone, Copy)]
pub struct CacheSlot {
    pub key: AbCacheKey,
    pub entry: AbCacheEntry,
}

/// A map from keys to entries that never grows beyond its limit.
pub struct AbCache {
    buckets: HashMap<u64, Vec<CacheSlot>>,
    len: usize,
    entries: Ghost<Map<KeyModel, AbCacheEntry>>,
}

/// The entries after one more was stored: a full cache is emptied first.
pub open spec fn stored(
    entries: Map<KeyModel, AbCacheEntry>,
    key: KeyModel,
    entry: AbCacheEntry,
) -> Map<KeyModel, AbCacheEntry> {
    if entries.len() >= AB_CACHE_MAX_ENTRIES {
        Map::empty().insert(key, entry)
    } else {
        entries.insert(key, entry)
    }
}

/// The entry of a key, if there is one.
pub open spec fn looked_up(entries: Map<KeyModel, AbCacheEntry>, key: KeyModel) -> Option<
    AbCacheEntry,
> {
    if entries.contains_key(key) {
        Some(entries[key])
    } else {
        None
    }
}

/// An entry that was stored is found again under its key. The other entries stay unless the
/// cache was full.
pub proof fn a_stored_entry_is_found_again(
    entries: Map<KeyModel, AbCacheEntry>,
    key: KeyModel,
    entry: AbCacheEntry,
    other: KeyModel,
)
    ensures
        looked_up(stored(entries, key, entry), key) == Some(entry),
        other != key && entries.len() < AB_CACHE_MAX_ENTRIES ==> looked_up(
            stored(entries, key, entry),
            other,
        ) == looked_up(entries, other),
{
}

spec fn slot_at(slots: Seq<CacheSlot>, key: KeyModel) -> bool {
    exists|i: int| 0 <= i < slots.len() && (#[trigger] slots[i]).key@ == key
}

spec fn bucket_is_sound(
    hash: u64,
    slots: Seq<CacheSlot>,
    entries: Map<KeyModel, AbCacheEntry>,
) -> bool {
    &&& forall|i: int|
        0 <= i < slots.len() ==> key_hash((#[trigger] slots[i]).key@) == hash
            && entries.contains_key(slots[i].key@) && entries[slots[i].key@] == slots[i].entry
    &&& forall|i: int, j: int|
        0 <= i < j < slots.len() ==> (#[trigger] slots[i]).key@ != (#[trigger] slots[j]).key@
}

impl AbCache {
    /// The entries of the cache.
    pub closed spec fn view(&self) -> Map<KeyModel, AbCacheEntry> {
        self.entries@
    }

    /// What holds of every cache.
    pub closed spec fn is_sound(&self) -> bool {
        &&& self.entries@.dom().finite()
        &&& self.len == self.entries@.len()
        &&& self.len <= AB_CACHE_MAX_ENTRIES
        &&& forall|hash: u64| #[trigger]
            self.buckets@.contains_key(hash) ==> bucket_is_sound(
                hash,
                self.buckets@[hash]@,
                self.entries@,
            )
        &&& forall|key: KeyModel| #[trigger]
            self.entries@.contains_key(key) ==> self.buckets@.contains_key(key_hash(key))
                && slot_at(self.buckets@[key_hash(key)]@, key)
    }

    /// The cache never holds more entries than its limit.
    pub proof fn never_overfull(&self)
        requires
            self.is_sound(),
        ensures
            self@.len() <= AB_CACHE_MAX_ENTRIES,
            self@.dom().finite(),
    {
    }

    /// The empty cache.
    pub fn new() -> (cache: Self)
        ensures
            cache.is_sound(),
            cache@ == Map::<KeyModel, AbCacheEntry>::empty(),
    {
        broadcast use vstd::std_specs::hash::group_hash_axioms;

        AbCache { buckets: HashMap::new(), len: 0, entries: Ghost(Map::empty()) }
    }

    /// Number of entries.
    pub fn len(&self) -> (count: usize)
        requires
            self.is_sound(),
        ensures
            count == self@.len(),
    {
        self.len
    }

    /// The entry of a key, if there is one.
    pub fn get(&self, key: &AbCacheKey) -> (found: Option<AbCacheEntry>)
        requires
            self.is_sound(),
        ensures
            found == looked_up(self@, key@),
    {
        broadcast use vstd::std_specs::hash::group_hash_axioms;

        let hash: u64 = key.hash();
        if let Some(slots) = self.buckets.get(&hash) {
            let mut i: usize = 0;
            while i < slots.len()
                invariant
                    i <= slots@.len(),
                    hash == key_hash(key@),
                    self.is_sound(),
                    self.buckets@.contains_key(hash),
                    slots@ == self.buckets@[hash]@,
                    forall|j: int| 0 <= j < i ==> (#[trigger] slots@[j]).key@ != key@,
                decreases slots@.len() - i,
            {
                if slots[i].key.same(key) {
                    return Some(slots[i].entry);
                }
                i = i + 1;
            }
            None
        } else {
            None
        }
    }

    /// Stores an entry; a full cache is emptied first.
    pub fn store(&mut self, key: AbCacheKey, entry: AbCacheEntry)
        requires
            old(self).is_sound(),
        ensures
            final(self).is_sound(),
            final(self)@ == stored(old(self)@, key@, entry),
    {
        broadcast use vstd::std_specs::hash::group_hash_axioms;

        if self.len >= AB_CACHE_MAX_ENTRIES {
            self.buckets = HashMap::new();
            self.len = 0;
            self.entries = Ghost(Map::empty());
        }
        self.put(key, entry);
    }

    fn put(&mut self, key: AbCacheKey, entry: AbCacheEntry)
        requires
            old(self).is_sound(),
            old(self)@.len() < AB_CACHE_MAX_ENTRIES,
        ensures
            final(self).is_sound(),
            final(self)@ == old(self)@.insert(key@, entry),
    {
        broadcast use vstd::std_specs::hash::group_hash_axioms;

        let ghost before = self.entries@;
        let ghost old_buckets = self.buckets@;
        let hash: u64 = key.hash();
        let mut slots: Vec<CacheSlot> = match self.buckets.remove(&hash) {
            Some(found) => found,
            None => Vec::new(),
        };
        let ghost old_slots = slots@;
        assert(bucket_is_sound(hash, slots@, before));
        let mut i: usize = 0;
        while i < slots.len() && !slots[i].key.same(&key)
            invariant
                i <= slots@.len(),
                slots@ == old_slots,
                forall|j: int| 0 <= j < i ==> (#[trigger] slots@[j]).key@ != key@,
            decreases slots@.len() - i,
        {
            i = i + 1;
        }
        if i < slots.len() {
            slots[i] = CacheSlot { key, entry };
        } else {
            slots.push(CacheSlot { key, entry });
            self.len = self.len + 1;
        }
        let ghost new_slots = slots@;
        self.buckets.insert(hash, slots);
        self.entries = Ghost(before.insert(key@, entry));
        proof {
            let after = self.entries@;
            assert(self.buckets@ =~= old_buckets.insert(hash, slots));
            if i < old_slots.len() {
                assert(new_slots == old_slots.update(i as int, CacheSlot { key, entry }));
                assert(new_slots[i as int].key@ == key@);
            } else {
                assert(new_slots == old_slots.push(CacheSlot { key, entry }));
                assert(new_slots[old_slots.len() as int].key@ == key@);
            }
            assert(slot_at(new_slots, key@));
            assert(before.contains_key(key@) <==> i < old_slots.len());
            assert forall|h: u64| #[trigger] self.buckets@.contains_key(h) implies bucket_is_sound(
                h,
                self.buckets@[h]@,
                after,
            ) by {
                if h != hash {
                    assert(old_buckets.contains_key(h));
                    assert(bucket_is_sound(h, old_buckets[h]@, before));
                }
            }
            assert forall|other: KeyModel| #[trigger] after.contains_key(other) implies {
                &&& self.buckets@.contains_key(key_hash(other))
                &&& slot_at(self.buckets@[key_hash(other)]@, other)
            } by {
                if other != key@ {
                    assert(before.contains_key(other));
                    let slots = old_buckets[key_hash(other)]@;
                    let j = choose|j: int|
                        0 <= j < slots.len() && (#[trigger] slots[j]).key@ == other;
                    if key_hash(other) == hash {
                        assert(new_slots[j].key@ == other);
                    }
                }
            }
        }
    }
}

/// Positions share a key only where they look alike: the same board, the same next tile as far as
/// its first three ranks go, the same place in the bonus cycle; and only where they are searched
/// equally deep and in the same way. The rest of a game, such as its dice, makes no difference.
pub proof fn positions_with_one_key_look_alike(
    a: GameModel,
    b: GameModel,
    depth_a: u8,
    depth_b: u8,
    dfs_a: bool,
    dfs_b: bool,
)
    requires
        a.next.ranks().len() <= 3,
        b.next.ranks().len() <= 3,
    ensures
        key_of(a, depth_a, dfs_a) == key_of(b, depth_b, dfs_b) <==> {
            &&& a.board == b.board
            &&& a.next.ranks() == b.next.ranks()
            &&& a.tracker.digest() == b.tracker.digest()
            &&& depth_a == depth_b
            &&& dfs_a == dfs_b
        },
{
    let one = key_of(a, depth_a, dfs_a);
    let other = key_of(b, depth_b, dfs_b);
    if one == other {
        assert(a.next.ranks().len() == b.next.ranks().len());
        assert forall|i: int| 0 <= i < a.next.ranks().len() implies a.next.ranks()[i]
            == b.next.ranks()[i] by {
            assert(one.next[i] == other.next[i]);
        }
        assert(a.next.ranks() =~= b.next.ranks());
    }
}

/// A cache that holds 200000 entries is emptied before another one goes in; below that number all
/// of them stay.
pub proof fn a_full_cache_starts_anew(
    entries: Map<KeyModel, AbCacheEntry>,
    key: KeyModel,
    entry: AbCacheEntry,
)
    ensures
        stored(entries, key, entry).contains_key(key),
        stored(entries, key, entry)[key] == entry,
        entries.len() >= 200_000 ==> forall|other: KeyModel| #[trigger]
            stored(entries, key, entry).contains_key(other) ==> other == key,
        entries.len() < 200_000 ==> forall|other: KeyModel| #[trigger]
            entries.contains_key(other) ==> stored(entries, key, entry).contains_key(other),
        looked_up(Map::<KeyModel, AbCacheEntry>::empty(), key) is None,
{
}

} // verus!
