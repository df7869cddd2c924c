//! The Tidebound overworld contract: players register, and each registered
//! player holds a world, named by the player and seeded from randomness.

use crate::account::AccountId;
use crate::digest::{sha2_256, sha2_256_digest};
use crate::store::{column_map, lemma_column_map_at, lemma_column_map_push, lemma_column_map_update};
use vstd::prelude::*;

verus! {

/// Data of any length.
pub type OpaqueData = Vec<u8>;

/// A player's world: its name and the random seed it was created with.
#[derive(Debug)]
pub struct WorldConfig {
    /// The world name.
    pub name: OpaqueData,
    /// The random seed used to create the world.
    pub seed: OpaqueData,
}

/// A world as values: its name and its seed.
pub open spec fn world_view(c: WorldConfig) -> (Seq<u8>, Seq<u8>) {
    (c.name@, c.seed@)
}

/// The errors a Tidebound message can report.
#[derive(PartialEq, Eq, Debug, Clone, Copy)]
pub enum Error {
    /// The player is already registered.
    PlayerAlreadyRegistered,
}

/// The randomness a world seed is mixed with: the beacon's output, or 32 zero
/// bytes when the beacon gave none.
pub open spec fn randomness_or_zero(randomness: Option<[u8; 32]>) -> Seq<u8> {
    match randomness {
        Some(r) => r@,
        None => Seq::new(32, |i: int| 0u8),
    }
}

/// The bytes hashed for a world seed: the account's bytes followed by the world name.
pub open spec fn seed_preimage(account: AccountId, name: Seq<u8>) -> Seq<u8> {
    account.0@ + name
}

/// Byte-wise exclusive or of two 32-byte strings.
pub open spec fn xor_bytes(a: Seq<u8>, b: Seq<u8>) -> Seq<u8> {
    Seq::new(32, |i: int| a[i] ^ b[i])
}

/// The seed of the world named `name` of `account`:
/// `Sha256(account || name) XOR randomness`.
pub open spec fn world_seed(account: AccountId, name: Seq<u8>, randomness: Option<[u8; 32]>) -> Seq<u8> {
    xor_bytes(sha2_256_digest(seed_preimage(account, name)), randomness_or_zero(randomness))
}

/// A world seed from the digest of the account and the world name: the digest
/// XOR the beacon's randomness, byte by byte (the digest itself when there is none).
pub fn seed_from_digest(digest: &[u8; 32], randomness: Option<[u8; 32]>) -> (seed: [u8; 32])
    ensures
        seed@ == xor_bytes(digest@, randomness_or_zero(randomness)),
{
    let rand: [u8; 32] = randomness.unwrap_or([0u8; 32]);
    assert(rand@ =~= randomness_or_zero(randomness));
    let mut seed: [u8; 32] = [0u8; 32];
    let mut k: usize = 0;
    while k < 32
        invariant
            k <= 32,
            forall|q: int| 0 <= q < k ==> seed[q] == digest[q] ^ rand[q],
        decreases 32 - k,
    {
        seed[k] = digest[k] ^ rand[k];
        k = k + 1;
    }
    assert(seed@ =~= xor_bytes(digest@, randomness_or_zero(randomness)));
    seed
}

/// The seed of the world named `name` of the account whose bytes are `ctx`,
/// mixed with the randomness the beacon returned for it (zero bytes when none).
pub fn get_seed(ctx: &[u8; 32], name: &[u8], randomness: Option<[u8; 32]>) -> (seed: [u8; 32])
    ensures
        seed@ == world_seed(AccountId(*ctx), name@, randomness),
{
    let mut input: Vec<u8> = Vec::new();
    let mut i: usize = 0;
    while i < 32
        invariant
            i <= 32,
            input@ == ctx@.take(i as int),
        decreases 32 - i,
    {
        input.push(ctx[i]);
        i = i + 1;
        assert(input@ =~= ctx@.take(i as int));
    }
    let mut j: usize = 0;
    while j < name.len()
        invariant
            j <= name@.len(),
            input@ == ctx@ + name@.take(j as int),
        decreases name@.len() - j,
    {
        input.push(name[j]);
        j = j + 1;
        assert(input@ =~= ctx@ + name@.take(j as int));
    }
    assert(name@.take(name@.len() as int) =~= name@);
    assert(input@ == seed_preimage(AccountId(*ctx), name@));
    let hash = sha2_256(input.as_slice());
    seed_from_digest(&hash, randomness)
}

/// The registered players after `caller` rolls: `caller` joins at the end unless
/// already registered.
pub open spec fn rolled_players(players: Seq<AccountId>, caller: AccountId) -> Seq<AccountId> {
    if players.contains(caller) {
        players
    } else {
        players.push(caller)
    }
}

/// The worlds after `caller` rolls a world named `name` with the beacon's
/// `randomness`: the caller's world is replaced, every other one kept.
pub open spec fn rolled_worlds(
    worlds: Map<AccountId, (Seq<u8>, Seq<u8>)>,
    caller: AccountId,
    name: Seq<u8>,
    randomness: Option<[u8; 32]>,
) -> Map<AccountId, (Seq<u8>, Seq<u8>)> {
    worlds.insert(caller, (name, world_seed(caller, name, randomness)))
}

/// The 32 bytes of a seed as a vector.
fn seed_to_vec(seed: &[u8; 32]) -> (v: Vec<u8>)
    ensures
        v@ == seed@,
{
    let mut v: Vec<u8> = Vec::new();
    let mut i: usize = 0;
    while i < 32
        invariant
            i <= 32,
            v@ == seed@.take(i as int),
        decreases 32 - i,
    {
        v.push(seed[i]);
        i = i + 1;
        assert(v@ =~= seed@.take(i as int));
    }
    assert(seed@.take(32) =~= seed@);
    v
}

/// The registry: a column of distinct registered players, in the order they
/// registered, and a column of their worlds.
struct Registry {
    players: Vec<AccountId>,
    worlds: Vec<WorldConfig>,
}

impl Registry {
    spec fn wf(&self) -> bool {
        &&& self.players@.no_duplicates()
        &&& self.players@.len() == self.worlds@.len()
    }

    spec fn world_views(&self) -> Seq<(Seq<u8>, Seq<u8>)> {
        self.worlds@.map_values(|c: WorldConfig| world_view(c))
    }

    spec fn map(&self) -> Map<AccountId, (Seq<u8>, Seq<u8>)> {
        column_map(self.players@, self.world_views())
    }

    fn new() -> (r: Registry)
        ensures
            r.wf(),
            r.players@ == Seq::<AccountId>::empty(),
            r.map() =~= Map::empty(),
    {
        Registry { players: Vec::new(), worlds: Vec::new() }
    }

    fn find(&self, who: &AccountId) -> (r: Option<usize>)
        ensures
            match r {
                Some(i) => i < self.players@.len() && self.players@[i as int] == *who,
                None => !self.players@.contains(*who),
            },
    {
        let mut i: usize = 0;
        while i < self.players.len()
            invariant
                i <= self.players@.len(),
                forall|k: int| 0 <= k < i ==> self.players@[k] != *who,
            decreases self.players@.len() - i,
        {
            if self.players[i].same_as(who) {
                return Some(i);
            }
            i = i + 1;
        }
        None
    }

    fn insert(&mut self, who: AccountId, world: WorldConfig)
        requires
            old(self).wf(),
        ensures
            final(self).wf(),
            final(self).map() =~= old(self).map().insert(who, world_view(world)),
            final(self).players@ == (if old(self).players@.contains(who) {
                old(self).players@
            } else {
                old(self).players@.push(who)
            }),
    {
        let ghost wv = world_view(world);
        match self.find(&who) {
            Some(i) => {
                proof {
                    lemma_column_map_update(self.players@, self.world_views(), i as int, wv);
                }
                self.worlds.set(i, world);
                assert(self.world_views() =~= old(self).world_views().update(i as int, wv));
            },
            None => {
                proof {
                    lemma_column_map_push(self.players@, self.world_views(), who, wv);
                }
                self.players.push(who);
                self.worlds.push(world);
                assert(self.world_views() =~= old(self).world_views().push(wv));
            },
        }
    }
}

/// The overworld contract: the registered players and the world of each.
pub struct Tidebound {
    registry: Registry,
}

impl Tidebound {
    #[verifier::type_invariant]
    spec fn registry_wf(self) -> bool {
        self.registry.wf()
    }

    /// The registered players, in the order they first registered.
    pub closed spec fn players(self) -> Seq<AccountId> {
        self.registry.players@
    }

    /// The world of each registered player, as its name and seed.
    pub closed spec fn worlds(self) -> Map<AccountId, (Seq<u8>, Seq<u8>)> {
        self.registry.map()
    }

    /// A new overworld with no players.
    pub fn new() -> (t: Tidebound)
        ensures
            t.players() == Seq::<AccountId>::empty(),
            t.worlds() == Map::<AccountId, (Seq<u8>, Seq<u8>)>::empty(),
    {
        Tidebound { registry: Registry::new() }
    }

    /// A new overworld with no players, as `new` makes it.
    pub fn default() -> (t: Tidebound)
        ensures
            t.players() == Seq::<AccountId>::empty(),
            t.worlds() == Map::<AccountId, (Seq<u8>, Seq<u8>)>::empty(),
    {
        Self::new()
    }

    /// Registers `caller` in the overworld, if not registered yet, and gives it a
    /// world named `name` whose seed is `Sha256(caller || name) XOR randomness`,
    /// where `randomness` is what the randomness beacon returned for the caller
    /// (32 zero bytes when it returned none). A world rolled before is replaced.
    /// Always succeeds.
    pub fn roll(&mut self, caller: AccountId, name: Vec<u8>, randomness: Option<[u8; 32]>) -> (r:
        Result<(), Error>)
        ensures
            r == Ok::<(), Error>(()),
            final(self).players() == rolled_players(old(self).players(), caller),
            final(self).worlds() == rolled_worlds(old(self).worlds(), caller, name@, randomness),
            final(self).players().no_duplicates(),
            final(self).worlds().dom() == final(self).players().to_set(),
    {
        proof {
            use_type_invariant(&*self);
        }
        let seed = get_seed(caller.as_bytes(), name.as_slice(), randomness);
        let world = WorldConfig { name, seed: seed_to_vec(&seed) };
        let mut registry = Registry::new();
        std::mem::swap(&mut registry, &mut self.registry);
        registry.insert(caller, world);
        self.registry = registry;
        proof {
            use_type_invariant(&*self);
            self.lemma_domain();
        }
        Ok(())
    }

    /// The registry's keys are exactly the registered players.
    proof fn lemma_domain(&self)
        requires
            self.registry.wf(),
        ensures
            self.worlds().dom() == self.players().to_set(),
    {
        assert(self.worlds().dom() =~= self.players().to_set());
    }

    /// The registered players, in the order they first registered.
    pub fn get_players(&self) -> (v: Vec<AccountId>)
        ensures
            v@ == self.players(),
    {
        let mut v: Vec<AccountId> = Vec::new();
        let mut i: usize = 0;
        while i < self.registry.players.len()
            invariant
                i <= self.registry.players@.len(),
                v@ == self.registry.players@.take(i as int),
            decreases self.registry.players@.len() - i,
        {
            v.push(self.registry.players[i]);
            i = i + 1;
            assert(v@ =~= self.registry.players@.take(i as int));
        }
        assert(self.registry.players@.take(i as int) =~= self.registry.players@);
        v
    }

    /// The world of `who`, if `who` is registered.
    pub fn registry_lookup(&self, who: AccountId) -> (r: Option<WorldConfig>)
        ensures
            r.is_some() == self.worlds().contains_key(who),
            r.is_some() ==> world_view(r.unwrap()) == self.worlds()[who],
    {
        proof {
            use_type_invariant(self);
        }
        match self.registry.find(&who) {
            Some(i) => {
                proof {
                    lemma_column_map_at(self.registry.players@, self.registry.world_views(), i as int);
                }
                let w = &self.registry.worlds[i];
                Some(WorldConfig { name: w.name.clone(), seed: w.seed.clone() })
            },
            None => None,
        }
    }
}

} // verus!
