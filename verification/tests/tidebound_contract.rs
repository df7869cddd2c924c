use tidebound::tidebound::{get_seed, seed_from_digest};
use tidebound::{AccountId, Error, Tidebound};

const ATLANTIS_DIGEST: [u8; 32] = [
    237, 110, 120, 228, 196, 55, 175, 244, 46, 197, 54, 206, 206, 131, 216, 216, 190, 21, 144, 77,
    140, 45, 178, 146, 27, 207, 90, 139, 1, 63, 245, 199,
];

#[test]
fn new_overworld_is_empty() {
    let t = Tidebound::new();
    assert!(t.get_players().is_empty());
    assert!(t.registry_lookup(AccountId([1u8; 32])).is_none());
    let d = Tidebound::default();
    assert!(d.get_players().is_empty());
}

#[test]
fn seed_is_digest_xor_randomness() {
    let seed = get_seed(&[1u8; 32], b"atlantis", Some([7u8; 32]));
    let expected: Vec<u8> = ATLANTIS_DIGEST.iter().map(|b| b ^ 7).collect();
    assert_eq!(seed.to_vec(), expected);
}

#[test]
fn seed_without_randomness_is_digest() {
    assert_eq!(get_seed(&[1u8; 32], b"atlantis", None), ATLANTIS_DIGEST);
}

#[test]
fn seed_unmasks_randomness() {
    let rand = [0x5au8; 32];
    let seed = get_seed(&[1u8; 32], b"atlantis", Some(rand));
    let unmasked: Vec<u8> = seed.iter().zip(ATLANTIS_DIGEST.iter()).map(|(s, d)| s ^ d).collect();
    assert_eq!(unmasked, rand.to_vec());
}

#[test]
fn seed_of_empty_name_hashes_account_alone() {
    let expected: [u8; 32] = [
        117, 135, 123, 180, 29, 57, 59, 95, 184, 69, 92, 230, 14, 205, 141, 218, 0, 29, 6, 49, 100,
        150, 177, 77, 250, 127, 137, 86, 86, 238, 202, 74,
    ];
    assert_eq!(get_seed(&[2u8; 32], b"", None), expected);
}

#[test]
fn roll_registers_and_stores_world() {
    let mut t = Tidebound::new();
    let alice = AccountId([1u8; 32]);
    assert_eq!(t.roll(alice, b"atlantis".to_vec(), Some([7u8; 32])), Ok(()));
    assert_eq!(t.get_players(), vec![alice]);
    let w = t.registry_lookup(alice).unwrap();
    assert_eq!(w.name, b"atlantis".to_vec());
    let expected: Vec<u8> = ATLANTIS_DIGEST.iter().map(|b| b ^ 7).collect();
    assert_eq!(w.seed, expected);
}

#[test]
fn roll_again_replaces_world_and_keeps_one_registration() {
    let mut t = Tidebound::new();
    let alice = AccountId([1u8; 32]);
    t.roll(alice, b"first".to_vec(), Some([1u8; 32])).unwrap();
    t.roll(alice, b"atlantis".to_vec(), None).unwrap();
    assert_eq!(t.get_players(), vec![alice]);
    let w = t.registry_lookup(alice).unwrap();
    assert_eq!(w.name, b"atlantis".to_vec());
    assert_eq!(w.seed, ATLANTIS_DIGEST.to_vec());
}

#[test]
fn roll_twice_same_as_once() {
    let alice = AccountId([1u8; 32]);
    let mut once = Tidebound::new();
    once.roll(alice, b"atlantis".to_vec(), Some([3u8; 32])).unwrap();
    let mut twice = Tidebound::new();
    twice.roll(alice, b"atlantis".to_vec(), Some([3u8; 32])).unwrap();
    twice.roll(alice, b"atlantis".to_vec(), Some([3u8; 32])).unwrap();
    assert_eq!(once.get_players(), twice.get_players());
    let a = once.registry_lookup(alice).unwrap();
    let b = twice.registry_lookup(alice).unwrap();
    assert_eq!(a.name, b.name);
    assert_eq!(a.seed, b.seed);
}

#[test]
fn players_listed_in_registration_order() {
    let mut t = Tidebound::new();
    let a = AccountId([1u8; 32]);
    let b = AccountId([2u8; 32]);
    let c = AccountId([3u8; 32]);
    t.roll(b, b"b".to_vec(), None).unwrap();
    t.roll(a, b"a".to_vec(), None).unwrap();
    t.roll(b, b"b2".to_vec(), None).unwrap();
    t.roll(c, b"c".to_vec(), None).unwrap();
    assert_eq!(t.get_players(), vec![b, a, c]);
}

#[test]
fn roll_keeps_other_worlds() {
    let mut t = Tidebound::new();
    let a = AccountId([1u8; 32]);
    let b = AccountId([2u8; 32]);
    t.roll(a, b"atlantis".to_vec(), None).unwrap();
    t.roll(b, b"lemuria".to_vec(), Some([9u8; 32])).unwrap();
    let w = t.registry_lookup(a).unwrap();
    assert_eq!(w.name, b"atlantis".to_vec());
    assert_eq!(w.seed, ATLANTIS_DIGEST.to_vec());
    assert_eq!(t.registry_lookup(b).unwrap().name, b"lemuria".to_vec());
    assert!(t.registry_lookup(AccountId([3u8; 32])).is_none());
}

#[test]
fn error_variant_exists() {
    assert_eq!(Error::PlayerAlreadyRegistered, Error::PlayerAlreadyRegistered);
}

#[test]
fn seed_from_digest_xors_bytes() {
    let mut d = [0u8; 32];
    d[0] = 0b1010_1010;
    d[31] = 0xff;
    let mut r = [0u8; 32];
    r[0] = 0b0110_0110;
    r[31] = 0x0f;
    let s = seed_from_digest(&d, Some(r));
    assert_eq!(s[0], 0b1100_1100);
    assert_eq!(s[31], 0xf0);
    assert_eq!(s[1], 0);
    assert_eq!(seed_from_digest(&d, None), d);
    assert_eq!(seed_from_digest(&ATLANTIS_DIGEST, Some([7u8; 32])), get_seed(&[1u8; 32], b"atlantis", Some([7u8; 32])));
}
