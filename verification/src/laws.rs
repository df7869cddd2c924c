//! Properties of the library as a whole, stated over the same spec functions
//! the operations' contracts use.

use crate::account::AccountId;
use crate::digest::sha2_256_digest;
use crate::perlin::{precomputed_noise, stored_height, with_height};
use crate::arith::trunc_div;
use crate::terrain::{
    abs_diff, axis_falloff, byte_sum, cell_corners, corner_weight, gradient_of_digest, octave_sum,
    perlin_height, single_scale_noise,
};
use crate::tidebound::{
    randomness_or_zero, rolled_players, rolled_worlds, seed_preimage, world_seed, xor_bytes,
};
use vstd::prelude::*;

verus! {

/// XOR-ing a world's seed with the digest of the account and the world name gives
/// back the randomness the seed was mixed with: the seed hides the randomness
/// behind the digest and nothing else.
pub proof fn law_seed_unmasks_randomness(
    account: AccountId,
    name: Seq<u8>,
    randomness: Option<[u8; 32]>,
)
    ensures
        xor_bytes(world_seed(account, name, randomness), sha2_256_digest(seed_preimage(account, name)))
            == randomness_or_zero(randomness),
{
    let h = sha2_256_digest(seed_preimage(account, name));
    let r = randomness_or_zero(randomness);
    let s = world_seed(account, name, randomness);
    assert forall|i: int| 0 <= i < 32 implies #[trigger] xor_bytes(s, h)[i] == r[i] by {
        let a = h[i];
        let b = r[i];
        assert((a ^ b) ^ a == b) by (bit_vector);
    }
    assert(xor_bytes(s, h) =~= r);
}

/// Without randomness from the beacon, a world's seed is the digest of the
/// account and the world name itself.
pub proof fn law_seed_without_randomness(account: AccountId, name: Seq<u8>)
    ensures
        forall|i: int|
            0 <= i < 32 ==> #[trigger] world_seed(account, name, None)[i] == sha2_256_digest(
                seed_preimage(account, name),
            )[i],
{
    assert forall|i: int| 0 <= i < 32 implies #[trigger] world_seed(account, name, None)[i]
        == sha2_256_digest(seed_preimage(account, name))[i] by {
        let a = sha2_256_digest(seed_preimage(account, name))[i];
        assert(a ^ 0u8 == a) by (bit_vector);
    }
}

/// After a roll the caller is registered, the players stay distinct, and no
/// player who was registered before is dropped or moved.
pub proof fn law_roll_registers(players: Seq<AccountId>, caller: AccountId)
    requires
        players.no_duplicates(),
    ensures
        rolled_players(players, caller).contains(caller),
        rolled_players(players, caller).no_duplicates(),
        players.is_prefix_of(rolled_players(players, caller)),
{
    if !players.contains(caller) {
        let p = players.push(caller);
        assert(p[players.len() as int] == caller);
        assert forall|a: int, b: int| 0 <= a < p.len() && 0 <= b < p.len() && a != b implies p[a]
            != p[b] by {
            if a == players.len() {
                assert(p[b] == players[b]);
            } else if b == players.len() {
                assert(p[a] == players[a]);
            }
        }
        assert(players =~= p.subrange(0, players.len() as int));
    } else {
        assert(players =~= players.subrange(0, players.len() as int));
    }
}

/// Reading a player's world after the player rolls gives the world just rolled:
/// the name given and the seed mixed from it.
pub proof fn law_roll_then_lookup(
    worlds: Map<AccountId, (Seq<u8>, Seq<u8>)>,
    caller: AccountId,
    name: Seq<u8>,
    randomness: Option<[u8; 32]>,
)
    ensures
        rolled_worlds(worlds, caller, name, randomness).contains_key(caller),
        rolled_worlds(worlds, caller, name, randomness)[caller] == (
            name,
            world_seed(caller, name, randomness),
        ),
{
}

/// A roll leaves the world of every other player as it was.
pub proof fn law_roll_keeps_other_worlds(
    worlds: Map<AccountId, (Seq<u8>, Seq<u8>)>,
    caller: AccountId,
    name: Seq<u8>,
    randomness: Option<[u8; 32]>,
    other: AccountId,
)
    requires
        other != caller,
    ensures
        rolled_worlds(worlds, caller, name, randomness).contains_key(other) == worlds.contains_key(
            other,
        ),
        worlds.contains_key(other) ==> rolled_worlds(worlds, caller, name, randomness)[other]
            == worlds[other],
{
}

/// Rolling twice with the same name and randomness leaves the overworld as
/// rolling once does.
pub proof fn law_roll_idempotent(
    players: Seq<AccountId>,
    worlds: Map<AccountId, (Seq<u8>, Seq<u8>)>,
    caller: AccountId,
    name: Seq<u8>,
    randomness: Option<[u8; 32]>,
)
    ensures
        rolled_players(rolled_players(players, caller), caller) == rolled_players(players, caller),
        rolled_worlds(rolled_worlds(worlds, caller, name, randomness), caller, name, randomness)
            == rolled_worlds(worlds, caller, name, randomness),
{
    if !players.contains(caller) {
        let p = players.push(caller);
        assert(p[players.len() as int] == caller);
        assert(p.contains(caller));
    }
    assert(rolled_worlds(rolled_worlds(worlds, caller, name, randomness), caller, name, randomness)
        =~= rolled_worlds(worlds, caller, name, randomness));
}

/// Computing the height of a point twice stores the same heights as computing it once.
pub proof fn law_compute_perlin_idempotent(
    noise: Map<(u32, u32), u128>,
    x: u32,
    y: u32,
    seed: u32,
    scale: u32,
)
    ensures
        with_height(with_height(noise, x, y, seed, scale), x, y, seed, scale) == with_height(
            noise,
            x,
            y,
            seed,
            scale,
        ),
{
    assert(with_height(with_height(noise, x, y, seed, scale), x, y, seed, scale) =~= with_height(
        noise,
        x,
        y,
        seed,
        scale,
    ));
}

/// Computing the heights of two points gives the same store in either order.
pub proof fn law_compute_perlin_commutes(
    noise: Map<(u32, u32), u128>,
    x1: u32,
    y1: u32,
    x2: u32,
    y2: u32,
    seed: u32,
    scale: u32,
)
    ensures
        with_height(with_height(noise, x1, y1, seed, scale), x2, y2, seed, scale) == with_height(
            with_height(noise, x2, y2, seed, scale),
            x1,
            y1,
            seed,
            scale,
        ),
{
    assert(with_height(with_height(noise, x1, y1, seed, scale), x2, y2, seed, scale) =~= with_height(
        with_height(noise, x2, y2, seed, scale),
        x1,
        y1,
        seed,
        scale,
    ));
}

/// Computing the height of one point leaves every other stored height as it was.
pub proof fn law_compute_perlin_keeps_other_points(
    noise: Map<(u32, u32), u128>,
    x: u32,
    y: u32,
    seed: u32,
    scale: u32,
    p: (u32, u32),
)
    requires
        p != (x, y),
    ensures
        with_height(noise, x, y, seed, scale).contains_key(p) == noise.contains_key(p),
        noise.contains_key(p) ==> with_height(noise, x, y, seed, scale)[p] == noise[p],
        with_height(noise, x, y, seed, scale)[(x, y)] == stored_height(x, y, seed, scale),
{
}

/// Every terrain height is 32 more than a multiple of 32.
pub proof fn law_height_grid(x: u32, y: u32, seed: u32, scale: u32)
    ensures
        (perlin_height(x, y, seed, scale) - 32) % 32 == 0,
{
    let total = octave_sum(x, y, scale, seed, 3) + single_scale_noise(x, y, scale, seed);
    vstd::arithmetic::div_mod::lemma_mod_multiples_basic(trunc_div(total, 4), 32);
}

/// A corner's weight lies between zero and `scale^2`, and a corner that is the
/// point itself has the full weight `scale^2`.
pub proof fn law_weight_bounds(cx: u32, cy: u32, x: u32, y: u32, scale: u32)
    ensures
        0 <= corner_weight(cx as int, cy as int, x as int, y as int, scale as int) <= scale * scale,
        (cx == x && cy == y) ==> corner_weight(cx as int, cy as int, x as int, y as int, scale as int)
            == scale * scale,
{
    let fx = axis_falloff(scale as int, abs_diff(cx as int, x as int));
    let fy = axis_falloff(scale as int, abs_diff(cy as int, y as int));
    assert(0 <= fx * fy <= scale * scale) by (nonlinear_arith)
        requires
            0 <= fx <= scale,
            0 <= fy <= scale,
    ;
}


/// The registered players after rolls by `callers`, in that order, starting from
/// an overworld with no players.
pub open spec fn players_after(callers: Seq<AccountId>) -> Seq<AccountId>
    decreases callers.len(),
{
    if callers.len() == 0 {
        Seq::empty()
    } else {
        rolled_players(players_after(callers.drop_last()), callers.last())
    }
}

/// The worlds after the given rolls (each a caller, a world name and the beacon's
/// randomness), in that order, starting from an overworld with no worlds.
pub open spec fn worlds_after(rolls: Seq<(AccountId, Seq<u8>, Option<[u8; 32]>)>) -> Map<
    AccountId,
    (Seq<u8>, Seq<u8>),
>
    decreases rolls.len(),
{
    if rolls.len() == 0 {
        Map::empty()
    } else {
        rolled_worlds(
            worlds_after(rolls.drop_last()),
            rolls.last().0,
            rolls.last().1,
            rolls.last().2,
        )
    }
}

/// Whether `a` is among the first `m` callers.
pub open spec fn rolled_before(callers: Seq<AccountId>, a: AccountId, m: int) -> bool {
    exists|l: int| 0 <= l < m && callers[l] == a
}

/// After any sequence of rolls, the players are the distinct callers, each once,
/// in the order of their first roll: every roll by a later player comes after
/// some roll by each earlier one.
pub proof fn law_players_in_order_of_first_roll(callers: Seq<AccountId>)
    ensures
        players_after(callers).no_duplicates(),
        forall|a: AccountId| #[trigger] players_after(callers).contains(a) <==> callers.contains(a),
        forall|i: int, j: int, m: int|
            #![trigger players_after(callers)[i], players_after(callers)[j], callers[m]]
            0 <= i < j < players_after(callers).len() && 0 <= m < callers.len() && callers[m]
                == players_after(callers)[j] ==> rolled_before(callers, players_after(callers)[i], m),
    decreases callers.len(),
{
    if callers.len() > 0 {
        let prev = callers.drop_last();
        let c = callers.last();
        law_players_in_order_of_first_roll(prev);
        let p = players_after(prev);
        let q = players_after(callers);
        law_roll_registers(p, c);
        let n = prev.len() as int;
        assert(callers =~= prev.push(c));
        assert forall|a: AccountId| callers.contains(a) implies #[trigger] q.contains(a) by {
            {
                let k = choose|k: int| 0 <= k < callers.len() && callers[k] == a;
                if k < n {
                    assert(prev[k] == a);
                    assert(prev.contains(a));
                    assert(p.contains(a));
                    let t = choose|t: int| 0 <= t < p.len() && p[t] == a;
                    assert(q[t] == a);
                }
            }
        }
        assert forall|a: AccountId| #[trigger] q.contains(a) implies callers.contains(a) by {
            let t = choose|t: int| 0 <= t < q.len() && q[t] == a;
            if t < p.len() {
                assert(p[t] == a);
                assert(p.contains(a));
                let k = choose|k: int| 0 <= k < prev.len() && prev[k] == a;
                assert(callers[k] == a);
            } else {
                assert(callers[n] == c);
            }
        }
        assert forall|i: int, j: int, m: int|
            #![trigger q[i], q[j], callers[m]]
            0 <= i < j < q.len() && 0 <= m < callers.len() && callers[m] == q[j] implies rolled_before(
            callers,
            q[i],
            m,
        ) by {
            assert(q[i] == p[i]);
            if m == n {
                assert(p.contains(p[i]));
                assert(prev.contains(p[i]));
                let l = choose|l: int| 0 <= l < prev.len() && prev[l] == p[i];
                assert(callers[l] == q[i]);
                assert(rolled_before(callers, q[i], m));
            } else {
                assert(callers[m] == prev[m]);
                if j < p.len() {
                    assert(q[j] == p[j]);
                    assert(prev[m] == p[j]);
                    assert(rolled_before(prev, p[i], m));
                    let l = choose|l: int| 0 <= l < m && #[trigger] prev[l] == p[i];
                    assert(callers[l] == q[i]);
                    assert(rolled_before(callers, q[i], m));
                } else {
                    assert(!p.contains(c));
                    assert(q[j] == c);
                    assert(prev.contains(c));
                }
            }
        }
    } else {
        assert(players_after(callers) =~= Seq::<AccountId>::empty());
    }
}

/// After any sequence of rolls, an account that never rolled has no world, and an
/// account that rolled has the world of its latest roll: that roll's name and the
/// 32-byte seed mixed from it.
pub proof fn law_world_of_latest_roll(rolls: Seq<(AccountId, Seq<u8>, Option<[u8; 32]>)>)
    ensures
        forall|who: AccountId|
            (forall|i: int| 0 <= i < rolls.len() ==> #[trigger] rolls[i].0 != who)
                ==> !#[trigger] worlds_after(rolls).contains_key(who),
        forall|i: int|
            0 <= i < rolls.len() && (forall|j: int|
                i < j < rolls.len() ==> #[trigger] rolls[j].0 != rolls[i].0) ==> {
                &&& #[trigger] worlds_after(rolls).contains_key(rolls[i].0)
                &&& worlds_after(rolls)[rolls[i].0] == (
                    rolls[i].1,
                    world_seed(rolls[i].0, rolls[i].1, rolls[i].2),
                )
                &&& worlds_after(rolls)[rolls[i].0].1.len() == 32
            },
    decreases rolls.len(),
{
    if rolls.len() > 0 {
        let prev = rolls.drop_last();
        let n = prev.len() as int;
        law_world_of_latest_roll(prev);
        let last = rolls.last();
        assert forall|who: AccountId|
            (forall|i: int| 0 <= i < rolls.len() ==> #[trigger] rolls[i].0 != who) implies
            !#[trigger] worlds_after(rolls).contains_key(who) by {
            assert(rolls[n].0 != who);
            assert forall|i: int| 0 <= i < prev.len() implies #[trigger] prev[i].0 != who by {
                assert(prev[i] == rolls[i]);
                assert(rolls[i].0 != who);
            }
            assert(!worlds_after(prev).contains_key(who));
            assert(worlds_after(rolls) == rolled_worlds(worlds_after(prev), last.0, last.1, last.2));
        }
        assert forall|i: int|
            0 <= i < rolls.len() && (forall|j: int|
                i < j < rolls.len() ==> #[trigger] rolls[j].0 != rolls[i].0) implies {
                &&& #[trigger] worlds_after(rolls).contains_key(rolls[i].0)
                &&& worlds_after(rolls)[rolls[i].0] == (
                    rolls[i].1,
                    world_seed(rolls[i].0, rolls[i].1, rolls[i].2),
                )
                &&& worlds_after(rolls)[rolls[i].0].1.len() == 32
            } by {
            let who = rolls[i].0;
            assert(worlds_after(rolls) == rolled_worlds(worlds_after(prev), last.0, last.1, last.2));
            if i == n {
                assert(last == rolls[i]);
            } else {
                assert(rolls[n].0 != who);
                assert(prev[i] == rolls[i]);
                assert forall|j: int| i < j < prev.len() implies #[trigger] prev[j].0 != prev[i].0 by {
                    assert(prev[j] == rolls[j]);
                    assert(rolls[j].0 != who);
                }
                assert(worlds_after(prev).contains_key(who));
            }
        }
    }
}


/// The byte sum that picks a gradient adds up the bytes: it is zero for no bytes,
/// the byte itself for one byte, and adds over concatenation.
pub proof fn law_byte_sum_adds(a: Seq<u8>, b: Seq<u8>, x: u8)
    ensures
        byte_sum(Seq::<u8>::empty()) == 0,
        byte_sum(seq![x]) == x,
        byte_sum(a + b) == byte_sum(a) + byte_sum(b),
    decreases b.len(),
{
    assert(seq![x].drop_last() =~= Seq::<u8>::empty());
    if b.len() > 0 {
        law_byte_sum_adds(a, b.drop_last(), x);
        assert((a + b).drop_last() =~= a + b.drop_last());
    } else {
        assert(a + b =~= a);
    }
}

/// A digest whose bytes sum to `k` mod 16 picks the `k`-th of sixteen directions
/// spaced 22.5 degrees apart, starting from the positive x axis, each of length
/// about 1000.
pub proof fn law_gradient_directions(d: Seq<u8>)
    ensures
        byte_sum(d) % 16 == 0 ==> gradient_of_digest(d) == (1000int, 0int),
        byte_sum(d) % 16 == 1 ==> gradient_of_digest(d) == (923int, 382int),
        byte_sum(d) % 16 == 2 ==> gradient_of_digest(d) == (707int, 707int),
        byte_sum(d) % 16 == 3 ==> gradient_of_digest(d) == (382int, 923int),
        byte_sum(d) % 16 == 4 ==> gradient_of_digest(d) == (0int, 1000int),
        byte_sum(d) % 16 == 5 ==> gradient_of_digest(d) == (-383int, 923int),
        byte_sum(d) % 16 == 6 ==> gradient_of_digest(d) == (-708int, 707int),
        byte_sum(d) % 16 == 7 ==> gradient_of_digest(d) == (-924int, 382int),
        byte_sum(d) % 16 == 8 ==> gradient_of_digest(d) == (-1000int, 0int),
        byte_sum(d) % 16 == 9 ==> gradient_of_digest(d) == (-924int, -383int),
        byte_sum(d) % 16 == 10 ==> gradient_of_digest(d) == (-708int, -708int),
        byte_sum(d) % 16 == 11 ==> gradient_of_digest(d) == (-383int, -924int),
        byte_sum(d) % 16 == 12 ==> gradient_of_digest(d) == (-1int, -1000int),
        byte_sum(d) % 16 == 13 ==> gradient_of_digest(d) == (382int, -924int),
        byte_sum(d) % 16 == 14 ==> gradient_of_digest(d) == (707int, -708int),
        byte_sum(d) % 16 == 15 ==> gradient_of_digest(d) == (923int, -383int),
        gradient_of_digest(d).1 < 0 <==> 9 <= byte_sum(d) % 16 <= 15,
        gradient_of_digest(d).0 < 0 <==> 5 <= byte_sum(d) % 16 <= 12,
        997000 <= gradient_of_digest(d).0 * gradient_of_digest(d).0 + gradient_of_digest(d).1
            * gradient_of_digest(d).1 <= 1002528,
{
    let k = byte_sum(d) % 16;
    let g = gradient_of_digest(d);
    assert(0 <= k < 16);
    if k == 0 {
        assert(g.0 * g.0 + g.1 * g.1 == 1000000) by (nonlinear_arith)
            requires
                g.0 == 1000,
                g.1 == 0,
        ;
    } else if k == 1 {
        assert(g.0 * g.0 + g.1 * g.1 == 997853) by (nonlinear_arith)
            requires
                g.0 == 923,
                g.1 == 382,
        ;
    } else if k == 2 {
        assert(g.0 * g.0 + g.1 * g.1 == 999698) by (nonlinear_arith)
            requires
                g.0 == 707,
                g.1 == 707,
        ;
    } else if k == 3 {
        assert(g.0 * g.0 + g.1 * g.1 == 997853) by (nonlinear_arith)
            requires
                g.0 == 382,
                g.1 == 923,
        ;
    } else if k == 4 {
        assert(g.0 * g.0 + g.1 * g.1 == 1000000) by (nonlinear_arith)
            requires
                g.0 == 0,
                g.1 == 1000,
        ;
    } else if k == 5 {
        assert(g.0 * g.0 + g.1 * g.1 == 998618) by (nonlinear_arith)
            requires
                g.0 == -383,
                g.1 == 923,
        ;
    } else if k == 6 {
        assert(g.0 * g.0 + g.1 * g.1 == 1001113) by (nonlinear_arith)
            requires
                g.0 == -708,
                g.1 == 707,
        ;
    } else if k == 7 {
        assert(g.0 * g.0 + g.1 * g.1 == 999700) by (nonlinear_arith)
            requires
                g.0 == -924,
                g.1 == 382,
        ;
    } else if k == 8 {
        assert(g.0 * g.0 + g.1 * g.1 == 1000000) by (nonlinear_arith)
            requires
                g.0 == -1000,
                g.1 == 0,
        ;
    } else if k == 9 {
        assert(g.0 * g.0 + g.1 * g.1 == 1000465) by (nonlinear_arith)
            requires
                g.0 == -924,
                g.1 == -383,
        ;
    } else if k == 10 {
        assert(g.0 * g.0 + g.1 * g.1 == 1002528) by (nonlinear_arith)
            requires
                g.0 == -708,
                g.1 == -708,
        ;
    } else if k == 11 {
        assert(g.0 * g.0 + g.1 * g.1 == 1000465) by (nonlinear_arith)
            requires
                g.0 == -383,
                g.1 == -924,
        ;
    } else if k == 12 {
        assert(g.0 * g.0 + g.1 * g.1 == 1000001) by (nonlinear_arith)
            requires
                g.0 == -1,
                g.1 == -1000,
        ;
    } else if k == 13 {
        assert(g.0 * g.0 + g.1 * g.1 == 999700) by (nonlinear_arith)
            requires
                g.0 == 382,
                g.1 == -924,
        ;
    } else if k == 14 {
        assert(g.0 * g.0 + g.1 * g.1 == 1001113) by (nonlinear_arith)
            requires
                g.0 == 707,
                g.1 == -708,
        ;
    } else {
        assert(k == 15);
        assert(g.0 * g.0 + g.1 * g.1 == 998618) by (nonlinear_arith)
            requires
                g.0 == 923,
                g.1 == -383,
        ;
    }
}

/// Distinct sums mod 16 pick distinct directions: no direction is picked for two
/// different sums.
pub proof fn law_gradient_directions_distinct(d1: Seq<u8>, d2: Seq<u8>)
    requires
        byte_sum(d1) % 16 != byte_sum(d2) % 16,
    ensures
        gradient_of_digest(d1) != gradient_of_digest(d2),
{
    law_gradient_directions(d1);
    law_gradient_directions(d2);
}

/// The cell around a point encloses it on both axes: the lower corner lies on the
/// grid at or below the point, less than a cell away, and the upper corner lies one
/// cell above the lower one, stopping at `u32::MAX`, so never below the point.
/// With a zero cell size every corner is the origin.
pub proof fn law_cell_encloses_point(x: u32, y: u32, scale: u32)
    ensures
        scale > 0 ==> {
            let c = cell_corners(x as int, y as int, scale as int);
            &&& c[0].0 <= x < c[0].0 + scale
            &&& c[0].1 <= y < c[0].1 + scale
            &&& c[0].0 % (scale as int) == 0
            &&& c[0].1 % (scale as int) == 0
            &&& c[3].0 == c[0].0
            &&& c[1].1 == c[0].1
            &&& c[1].0 == c[2].0
            &&& c[2].1 == c[3].1
            &&& c[1].0 == (if c[0].0 + scale > 0xffff_ffff {
                0xffff_ffffint
            } else {
                c[0].0 + scale
            })
            &&& c[3].1 == (if c[0].1 + scale > 0xffff_ffff {
                0xffff_ffffint
            } else {
                c[0].1 + scale
            })
            &&& x <= c[1].0
            &&& y <= c[3].1
        },
        scale == 0 ==> {
            let c = cell_corners(x as int, y as int, scale as int);
            c[0] == (0int, 0int) && c[1] == (0int, 0int) && c[2] == (0int, 0int) && c[3] == (
                0int,
                0int,
            )
        },
{
    crate::terrain::lemma_cell_floor(x as int, scale as int);
    crate::terrain::lemma_cell_floor(y as int, scale as int);
}

/// The bytes hashed for a world seed are the account's 32 bytes in their own order
/// followed by every byte of the world name, and nothing else.
pub proof fn law_seed_preimage_layout(account: AccountId, name: Seq<u8>)
    ensures
        seed_preimage(account, name).len() == 32 + name.len(),
        forall|k: int| 0 <= k < 32 ==> #[trigger] seed_preimage(account, name)[k] == account.0[k],
        forall|j: int|
            0 <= j < name.len() ==> #[trigger] seed_preimage(account, name)[32 + j] == name[j],
{
    assert forall|k: int| 0 <= k < 32 implies #[trigger] seed_preimage(account, name)[k]
        == account.0[k] by {
        assert(account.0@[k] == account.0[k]);
    }
}

/// The seed of a world is, byte by byte, the SHA2-256 digest of the account's bytes
/// followed by the name's bytes, XOR the beacon's randomness (XOR nothing when the
/// beacon gave none); it has 32 bytes.
pub proof fn law_world_seed_hashes_account_then_name(
    account: AccountId,
    name: Seq<u8>,
    randomness: Option<[u8; 32]>,
    preimage: Seq<u8>,
)
    requires
        preimage.len() == 32 + name.len(),
        forall|k: int| 0 <= k < 32 ==> #[trigger] preimage[k] == account.0[k],
        forall|j: int| 0 <= j < name.len() ==> #[trigger] preimage[32 + j] == name[j],
    ensures
        world_seed(account, name, randomness).len() == 32,
        forall|i: int|
            0 <= i < 32 ==> #[trigger] world_seed(account, name, randomness)[i] == (match randomness {
                Some(r) => sha2_256_digest(preimage)[i] ^ r[i],
                None => sha2_256_digest(preimage)[i],
            }),
{
    law_seed_preimage_layout(account, name);
    assert(preimage =~= seed_preimage(account, name)) by {
        assert forall|k: int| 0 <= k < preimage.len() implies preimage[k] == seed_preimage(
            account,
            name,
        )[k] by {
            if k < 32 {
                assert(preimage[k] == account.0[k]);
            } else {
                assert(preimage[32 + (k - 32)] == name[k - 32]);
                assert(seed_preimage(account, name)[32 + (k - 32)] == name[k - 32]);
            }
        }
    }
    assert forall|i: int| 0 <= i < 32 implies #[trigger] world_seed(account, name, randomness)[i]
        == (match randomness {
        Some(r) => sha2_256_digest(preimage)[i] ^ r[i],
        None => sha2_256_digest(preimage)[i],
    }) by {
        let a = sha2_256_digest(preimage)[i];
        assert(a ^ 0u8 == a) by (bit_vector);
        match randomness {
            Some(r) => {
                assert(r@[i] == r[i]);
            },
            None => {},
        }
    }
}

/// The world a roll stores for its caller has the name given and the seed
/// SHA2-256(caller's bytes, then the name's bytes) XOR the beacon's randomness.
pub proof fn law_rolled_world_of_caller(
    worlds: Map<AccountId, (Seq<u8>, Seq<u8>)>,
    caller: AccountId,
    name: Seq<u8>,
    randomness: Option<[u8; 32]>,
    preimage: Seq<u8>,
)
    requires
        preimage.len() == 32 + name.len(),
        forall|k: int| 0 <= k < 32 ==> #[trigger] preimage[k] == caller.0[k],
        forall|j: int| 0 <= j < name.len() ==> #[trigger] preimage[32 + j] == name[j],
    ensures
        rolled_worlds(worlds, caller, name, randomness)[caller].0 == name,
        rolled_worlds(worlds, caller, name, randomness)[caller].1.len() == 32,
        forall|i: int|
            0 <= i < 32 ==> #[trigger] rolled_worlds(worlds, caller, name, randomness)[caller].1[i]
                == (match randomness {
                Some(r) => sha2_256_digest(preimage)[i] ^ r[i],
                None => sha2_256_digest(preimage)[i],
            }),
{
    law_world_seed_hashes_account_then_name(caller, name, randomness, preimage);
}

/// `new` computes ahead exactly the nine points whose coordinates are each -1
/// (`u32::MAX`), 0 or 1, and stores each one's height.
pub proof fn law_precomputed_points(seed: u32, scale: u32, x: u32, y: u32)
    ensures
        precomputed_noise(seed, scale).contains_key((x, y)) <==> ((x == 0xffff_ffffu32 || x == 0u32
            || x == 1u32) && (y == 0xffff_ffffu32 || y == 0u32 || y == 1u32)),
        precomputed_noise(seed, scale).contains_key((x, y)) ==> precomputed_noise(seed, scale)[(x, y)]
            == stored_height(x, y, seed, scale),
        precomputed_noise(seed, scale).dom() =~= set![
            (0xffff_ffffu32, 0xffff_ffffu32),
            (0xffff_ffffu32, 0u32),
            (0xffff_ffffu32, 1u32),
            (0u32, 0xffff_ffffu32),
            (0u32, 0u32),
            (0u32, 1u32),
            (1u32, 0xffff_ffffu32),
            (1u32, 0u32),
            (1u32, 1u32),
        ],
        precomputed_noise(seed, scale).dom().len() == 9,
        !precomputed_noise(seed, scale).contains_key((0xffff_fffeu32, 0u32)),
{
    let d = precomputed_noise(seed, scale).dom();
    let s = set![
        (0xffff_ffffu32, 0xffff_ffffu32),
        (0xffff_ffffu32, 0u32),
        (0xffff_ffffu32, 1u32),
        (0u32, 0xffff_ffffu32),
        (0u32, 0u32),
        (0u32, 1u32),
        (1u32, 0xffff_ffffu32),
        (1u32, 0u32),
        (1u32, 1u32),
    ];
    assert(d =~= s);
    assert(s.len() == 9) by {
        broadcast use vstd::set::group_set_axioms;
    }
}

} // verus!
