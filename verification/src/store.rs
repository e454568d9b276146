//! The blob store: the process-wide registry of harvested artifacts, a map
//! from opaque token to byte payload.  Entries are only ever added, never
//! mutated or removed; a token is issued exactly once.
//!
//! A token is the decimal position of the entry, a hyphen, and a random
//! identifier.  The position makes freshness provable (positions only grow and
//! a digit run followed by the first hyphen determines the position); the
//! random part keeps tokens unguessable.

use crate::text::{dec_of, lemma_stamped_injective, u64_to_dec};
use vstd::prelude::*;

verus! {

broadcast use vstd::set::group_set_axioms;

/// Relies on `uuid::Uuid::new_v4` (and its `Display` rendering through
/// `to_string`): a freshly drawn random identifier.  Nothing can be promised
/// of a random value, so nothing is; freshness is proved from the position
/// stamp alone.
#[verifier::external_body]
fn fresh_suffix() -> (s: String) {
    uuid::Uuid::new_v4().to_string()
}

struct StoreEntry {
    token: String,
    data: Vec<u8>,
}

/// A token issued for the entry at position `n` starts with the decimal
/// rendering of `n` and a hyphen.
spec fn stamped(t: Seq<char>, n: nat) -> bool {
    exists|sfx: Seq<char>| t == dec_of(n) + seq!['-'] + sfx
}

proof fn lemma_stamped_distinct(t1: Seq<char>, n1: nat, t2: Seq<char>, n2: nat)
    requires
        stamped(t1, n1),
        stamped(t2, n2),
        n1 != n2,
    ensures
        t1 != t2,
{
    if t1 == t2 {
        let s1 = choose|sfx: Seq<char>| t1 == dec_of(n1) + seq!['-'] + sfx;
        let s2 = choose|sfx: Seq<char>| t2 == dec_of(n2) + seq!['-'] + sfx;
        lemma_stamped_injective(n1, n2, s1, s2);
    }
}

/// The map that a sequence of store entries denotes, later entries winning.
spec fn map_of(entries: Seq<StoreEntry>) -> Map<Seq<char>, Seq<u8>>
    decreases entries.len(),
{
    if entries.len() == 0 {
        Map::empty()
    } else {
        map_of(entries.drop_last()).insert(entries.last().token@, entries.last().data@)
    }
}

proof fn lemma_map_of_contains(entries: Seq<StoreEntry>, k: Seq<char>)
    ensures
        map_of(entries).contains_key(k) <==> exists|i: int|
            0 <= i < entries.len() && #[trigger] entries[i].token@ == k,
    decreases entries.len(),
{
    if entries.len() > 0 {
        let prev = entries.drop_last();
        lemma_map_of_contains(prev, k);
        assert(forall|i: int| 0 <= i < prev.len() ==> #[trigger] prev[i] == entries[i]);
        if map_of(entries).contains_key(k) {
            if k == entries.last().token@ {
                assert(entries[entries.len() - 1].token@ == k);
            } else {
                let i = choose|i: int| 0 <= i < prev.len() && #[trigger] prev[i].token@ == k;
                assert(entries[i].token@ == k);
            }
        }
        if exists|i: int| 0 <= i < entries.len() && #[trigger] entries[i].token@ == k {
            let i = choose|i: int| 0 <= i < entries.len() && #[trigger] entries[i].token@ == k;
            if i < entries.len() - 1 {
                assert(prev[i].token@ == k);
            }
        }
    }
}

proof fn lemma_map_of_index(entries: Seq<StoreEntry>, i: int)
    requires
        0 <= i < entries.len(),
        forall|p: int, q: int|
            0 <= p < q < entries.len() ==> entries[p].token@ != entries[q].token@,
    ensures
        map_of(entries).contains_key(entries[i].token@),
        map_of(entries)[entries[i].token@] == entries[i].data@,
    decreases entries.len(),
{
    let prev = entries.drop_last();
    assert(forall|j: int| 0 <= j < prev.len() ==> #[trigger] prev[j] == entries[j]);
    if i == entries.len() - 1 {
    } else {
        lemma_map_of_index(prev, i);
        assert(entries[i].token@ != entries.last().token@);
    }
}

proof fn lemma_map_of_len(entries: Seq<StoreEntry>)
    requires
        forall|p: int, q: int|
            0 <= p < q < entries.len() ==> entries[p].token@ != entries[q].token@,
    ensures
        map_of(entries).dom().finite(),
        map_of(entries).dom().len() == entries.len(),
    decreases entries.len(),
{
    if entries.len() > 0 {
        let prev = entries.drop_last();
        assert(forall|j: int| 0 <= j < prev.len() ==> #[trigger] prev[j] == entries[j]);
        lemma_map_of_len(prev);
        lemma_map_of_contains(prev, entries.last().token@);
        assert(!map_of(prev).contains_key(entries.last().token@));
    }
}

proof fn lemma_map_of_finite(entries: Seq<StoreEntry>)
    ensures
        map_of(entries).dom().finite(),
    decreases entries.len(),
{
    if entries.len() > 0 {
        lemma_map_of_finite(entries.drop_last());
    }
}

/// The token-to-payload registry.  `put` issues a fresh token for a payload;
/// `get` hands the exact payload back; nothing is ever evicted, so a token
/// stays valid until the process exits (a documented retention property of
/// the design, not an oversight).
pub struct BlobStore {
    entries: Vec<StoreEntry>,
}

impl View for BlobStore {
    type V = Map<Seq<char>, Seq<u8>>;

    closed spec fn view(&self) -> Map<Seq<char>, Seq<u8>> {
        map_of(self.entries@)
    }
}

impl BlobStore {
    /// Every entry's token is stamped with its position; positions are
    /// distinct, so tokens are.
    pub closed spec fn wf(&self) -> bool {
        forall|i: int|
            0 <= i < self.entries@.len() ==> stamped(#[trigger] self.entries@[i].token@, i as nat)
    }

    proof fn tokens_distinct(&self)
        requires
            self.wf(),
        ensures
            forall|p: int, q: int|
                0 <= p < q < self.entries@.len() ==> self.entries@[p].token@
                    != self.entries@[q].token@,
    {
        assert forall|p: int, q: int| 0 <= p < q < self.entries@.len() implies self.entries@[p].token@
            != self.entries@[q].token@ by {
            lemma_stamped_distinct(
                self.entries@[p].token@,
                p as nat,
                self.entries@[q].token@,
                q as nat,
            );
        }
    }

    /// The store always holds finitely many artifacts.
    pub proof fn dom_finite(&self)
        ensures
            self@.dom().finite(),
    {
        lemma_map_of_finite(self.entries@);
    }

    /// An empty store.
    pub fn new() -> (s: BlobStore)
        ensures
            s.wf(),
            s@ == Map::<Seq<char>, Seq<u8>>::empty(),
    {
        BlobStore { entries: Vec::new() }
    }

    /// Stores a payload under a freshly issued token.  The token was never
    /// issued before, and the store afterwards holds exactly the old entries
    /// plus the new one.
    pub fn put(&mut self, data: Vec<u8>) -> (token: String)
        requires
            old(self).wf(),
        ensures
            final(self).wf(),
            !old(self)@.contains_key(token@),
            final(self)@ == old(self)@.insert(token@, data@),
    {
        let n = self.entries.len();
        let mut token = u64_to_dec(n as u64);
        token.append("-");
        let suffix = fresh_suffix();
        token.append(suffix.as_str());
        proof {
            reveal_strlit("-");
            assert("-"@ =~= seq!['-']);
            assert(token@ == dec_of(n as nat) + seq!['-'] + suffix@);
            assert(stamped(token@, n as nat));
            self.tokens_distinct();
            assert forall|i: int| 0 <= i < self.entries@.len() implies self.entries@[i].token@
                != token@ by {
                lemma_stamped_distinct(self.entries@[i].token@, i as nat, token@, n as nat);
            }
            lemma_map_of_contains(self.entries@, token@);
        }
        let ghost prev = self.entries@;
        let entry_token = token.clone();
        self.entries.push(StoreEntry { token: entry_token, data });
        proof {
            assert(self.entries@.drop_last() =~= prev);
            assert(self.entries@.last().token@ == token@);
        }
        token
    }

    /// Resolves a token: the exact bytes stored under it, or absence for a
    /// token that was never issued.  No side effects; a hit can be repeated
    /// any number of times.
    pub fn get(&self, token: &String) -> (r: Option<Vec<u8>>)
        requires
            self.wf(),
        ensures
            match r {
                Some(d) => self@.contains_key(token@) && d@ == self@[token@],
                None => !self@.contains_key(token@),
            },
    {
        proof {
            self.tokens_distinct();
            lemma_map_of_contains(self.entries@, token@);
        }
        let n = self.entries.len();
        let mut i: usize = 0;
        while i < n
            invariant
                n == self.entries@.len(),
                0 <= i <= n,
                self.wf(),
                forall|j: int| 0 <= j < i ==> #[trigger] self.entries@[j].token@ != token@,
            decreases n - i,
        {
            if self.entries[i].token.eq(token) {
                proof {
                    self.tokens_distinct();
                    lemma_map_of_index(self.entries@, i as int);
                }
                let d = copy_bytes(&self.entries[i].data);
                return Some(d);
            }
            i = i + 1;
        }
        None
    }

    /// How many artifacts the store holds.
    pub fn len(&self) -> (n: usize)
        requires
            self.wf(),
        ensures
            n == self@.dom().len(),
    {
        proof {
            self.tokens_distinct();
            lemma_map_of_len(self.entries@);
        }
        self.entries.len()
    }
}

/// An owned copy of a byte vector, element for element.
pub fn copy_bytes(v: &Vec<u8>) -> (r: Vec<u8>)
    ensures
        r@ == v@,
{
    let mut r: Vec<u8> = Vec::new();
    let mut i: usize = 0;
    while i < v.len()
        invariant
            0 <= i <= v@.len(),
            r@ == v@.subrange(0, i as int),
        decreases v@.len() - i,
    {
        r.push(v[i]);
        i = i + 1;
        proof {
            assert(r@ =~= v@.subrange(0, i as int));
        }
    }
    proof {
        assert(r@ =~= v@);
    }
    r
}

/// Round trip: the payload stored by a `put` is exactly what the matching
/// `get` resolves, byte for byte.
pub proof fn law_round_trip(m0: Map<Seq<char>, Seq<u8>>, t: Seq<char>, d: Seq<u8>)
    ensures
        m0.insert(t, d).contains_key(t),
        m0.insert(t, d)[t] == d,
{
}

/// Token uniqueness: a `put` into the store a previous `put` produced never
/// hands out the previous token again, payloads equal or not.
pub proof fn law_token_uniqueness(
    m0: Map<Seq<char>, Seq<u8>>,
    t1: Seq<char>,
    d1: Seq<u8>,
    t2: Seq<char>,
)
    requires
        !m0.insert(t1, d1).contains_key(t2),
    ensures
        t1 != t2,
{
}

/// No cross-contamination: two `put`s, in either serialization the store's
/// lock admits, issue distinct tokens, and each token afterwards resolves to
/// its own payload.
pub proof fn law_disjoint_payloads(
    m0: Map<Seq<char>, Seq<u8>>,
    t1: Seq<char>,
    d1: Seq<u8>,
    t2: Seq<char>,
    d2: Seq<u8>,
)
    requires
        !m0.contains_key(t1),
        !m0.insert(t1, d1).contains_key(t2),
    ensures
        t1 != t2,
        m0.insert(t1, d1).insert(t2, d2)[t1] == d1,
        m0.insert(t1, d1).insert(t2, d2)[t2] == d2,
{
}

} // verus!
