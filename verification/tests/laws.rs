use ark_ff::field_hashers::{DefaultFieldHasher, HashToField};
use ark_ff::{BigInteger, PrimeField};
use ark_std::rand::rngs::mock::StepRng;
use sha2::{Digest, Sha256};
use ziffle::transcript::Transcript;
use ziffle::{
    AggregatePublicKey, AggregateRevealToken, MaskedDeck, OwnershipProof, Point, PublicKey,
    RevealToken, RevealTokenProof, Scalar, SecretKey, SerializationError, Shuffle, ShuffleProof,
    Verified,
};

fn encode(p: &Point) -> [u8; 33] {
    let mut out = [0u8; 33];
    PublicKey(*p).serialize_compressed(&mut out).unwrap();
    out
}

fn scalar_bytes(s: &Scalar) -> [u8; 32] {
    let proof = OwnershipProof { a: Point::identity(), z: *s };
    let mut out = [0u8; 65];
    proof.serialize_compressed(&mut out).unwrap();
    let mut res = [0u8; 32];
    res.copy_from_slice(&out[33..65]);
    res
}

fn keys(
    rng: &mut impl ark_std::rand::RngCore,
    shuffle: &Shuffle<10>,
    ctx: &[u8],
    count: usize,
) -> Vec<(SecretKey, PublicKey, Verified<PublicKey>)> {
    (0..count)
        .map(|_| {
            let (sk, pk, proof) = shuffle.keygen(rng, ctx);
            let vpk = proof.verify(pk, ctx).unwrap();
            (sk, pk, vpk)
        })
        .collect()
}

fn reveal_all(
    rng: &mut impl ark_std::rand::RngCore,
    shuffle: &Shuffle<10>,
    players: &[(SecretKey, PublicKey, Verified<PublicKey>)],
    deck: &Verified<MaskedDeck<10>>,
    ctx: &[u8],
) -> Vec<usize> {
    (0..10)
        .map(|i| {
            let card = deck.get(i).unwrap();
            let tokens: Vec<_> = players
                .iter()
                .map(|(sk, pk, vpk)| {
                    let (t, p) = card.reveal_token(rng, sk, *pk, ctx);
                    p.verify(*vpk, t, card, ctx).unwrap()
                })
                .collect();
            let art = AggregateRevealToken::new(&tokens);
            shuffle.reveal_card(art, card).unwrap()
        })
        .collect()
}

#[test]
fn scalar_arithmetic_is_modular() {
    let two = Scalar::from_u64(2);
    let three = Scalar::from_u64(3);
    assert!(two.add(&three).equals(&Scalar::from_u64(5)));
    assert!(two.mul(&three).equals(&Scalar::from_u64(6)));
    assert!(three.sub(&two).equals(&Scalar::one()));
    assert!(two.pow(10).equals(&Scalar::from_u64(1024)));
    assert!(two.pow(0).equals(&Scalar::one()));
    // wrapping around the order
    let minus_one = Scalar::zero().sub(&Scalar::one());
    assert!(minus_one.add(&Scalar::one()).equals(&Scalar::zero()));
    assert!(minus_one.equals(&Scalar::one().neg()));
    assert!(three.add(&three.neg()).equals(&Scalar::zero()));
    assert!(!two.equals(&three));
}

#[test]
fn scalar_encoding_is_little_endian() {
    let b = scalar_bytes(&Scalar::from_u64(258));
    assert_eq!(b[0], 2);
    assert_eq!(b[1], 1);
    assert!(b[2..].iter().all(|&x| x == 0));
    // the largest scalar, order - 1
    let top = scalar_bytes(&Scalar::zero().sub(&Scalar::one()));
    let expected = (-ark_secp256k1::Fr::from(1u64)).into_bigint().to_bytes_le();
    assert_eq!(&top[..], &expected[..]);
}

#[test]
fn group_operations_follow_discrete_logs() {
    let g = Point::generator();
    let two = Scalar::from_u64(2);
    let three = Scalar::from_u64(3);
    let g2 = g.add(&g);
    assert!(g2.equals(&Point::mul_base(&two)));
    assert!(g.mul(&three).equals(&g2.add(&g)));
    assert!(g2.sub(&g).equals(&g));
    assert!(g.sub(&g).equals(&Point::identity()));
    assert!(g.add(&Point::identity()).equals(&g));
    assert!(Point::mul_base(&Scalar::zero()).equals(&Point::identity()));
    assert!(!g.equals(&g2));
}

#[test]
fn generator_encoding_is_its_x_coordinate() {
    // x of the secp256k1 generator, big-endian
    let gx: [u8; 32] = [
        0x79, 0xBE, 0x66, 0x7E, 0xF9, 0xDC, 0xBB, 0xAC, 0x55, 0xA0, 0x62, 0x95, 0xCE, 0x87, 0x0B,
        0x07, 0x02, 0x9B, 0xFC, 0xDB, 0x2D, 0xCE, 0x28, 0xD9, 0x59, 0xF2, 0x81, 0x5B, 0x16, 0xF8,
        0x17, 0x98,
    ];
    let enc = encode(&Point::generator());
    for i in 0..32 {
        assert_eq!(enc[i], gx[31 - i]);
    }
    assert_eq!(enc[32] & 0x3F, 0);
}

#[test]
fn transcript_follows_its_framing() {
    let t = Transcript::init(b"abc");
    assert_eq!(t.state, <[u8; 32]>::from(Sha256::digest(b"abc")));
    let t2 = t.absorb(b"lbl", b"data");
    let mut m = Vec::new();
    m.extend_from_slice(&t.state);
    m.extend_from_slice(&3usize.to_be_bytes());
    m.extend_from_slice(b"lbl");
    m.extend_from_slice(&4usize.to_be_bytes());
    m.extend_from_slice(b"data");
    assert_eq!(t2.state, <[u8; 32]>::from(Sha256::digest(&m)));
    // a point is absorbed as its compressed encoding
    let g = Point::generator();
    let t3 = t.append_point(b"g", &g);
    assert_eq!(t3.state, t.absorb(b"g", &encode(&g)).state);
}

#[test]
fn challenges_are_hashed_to_the_field() {
    let t = Transcript::init(b"ctx");
    let e = t.challenge(b"tag");
    let hasher = <DefaultFieldHasher<Sha256> as HashToField<ark_secp256k1::Fr>>::new(b"tag");
    let [f]: [ark_secp256k1::Fr; 1] = hasher.hash_to_field(&t.state);
    assert_eq!(&scalar_bytes(&e)[..], &f.into_bigint().to_bytes_le()[..]);
    let (y, z) = t.challenge_pair(b"tag2");
    let hasher = <DefaultFieldHasher<Sha256> as HashToField<ark_secp256k1::Fr>>::new(b"tag2");
    let [fy, fz]: [ark_secp256k1::Fr; 2] = hasher.hash_to_field(&t.state);
    assert_eq!(&scalar_bytes(&y)[..], &fy.into_bigint().to_bytes_le()[..]);
    assert_eq!(&scalar_bytes(&z)[..], &fz.into_bigint().to_bytes_le()[..]);
    assert!(!y.equals(&z));
}

#[test]
fn aggregate_key_is_the_sum_of_keys() {
    let mut rng = ark_std::test_rng();
    let shuffle = Shuffle::<10>::default();
    let ctx = b"aggregate";
    let players = keys(&mut rng, &shuffle, ctx, 3);
    let apk = AggregatePublicKey::new(&[players[0].2, players[1].2, players[2].2]);
    let sum = players[0].1 .0.add(&players[1].1 .0).add(&players[2].1 .0);
    let mut a = [0u8; 33];
    apk.serialize_compressed(&mut a).unwrap();
    assert_eq!(a, encode(&sum));
    // the empty aggregate is the neutral element
    let empty = AggregatePublicKey::new(&[]);
    let mut e = [0u8; 33];
    empty.serialize_compressed(&mut e).unwrap();
    assert_eq!(e, encode(&Point::identity()));
}

#[test]
fn every_party_derives_the_same_deck() {
    let mut rng = ark_std::test_rng();
    let dealer = Shuffle::<10>::default();
    let other = Shuffle::<10>::default();
    let ctx = b"same deck";
    let players = keys(&mut rng, &dealer, ctx, 2);
    let apk = AggregatePublicKey::new(&[players[0].2, players[1].2]);
    let (deck, proof) = dealer.shuffle_initial_deck(&mut rng, apk, ctx);
    // another party's instance accepts the proof and reveals the same cards
    let vdeck = other.verify_initial_shuffle(apk, deck, proof, ctx).unwrap();
    let a = reveal_all(&mut rng, &dealer, &players, &vdeck, ctx);
    let b = reveal_all(&mut rng, &other, &players, &vdeck, ctx);
    assert_eq!(a, b);
}

#[test]
fn shuffles_keep_every_card() {
    let mut rng = ark_std::test_rng();
    let shuffle = Shuffle::<10>::default();
    let ctx = b"keep every card";
    let players = keys(&mut rng, &shuffle, ctx, 3);
    let apk = AggregatePublicKey::new(&[players[0].2, players[1].2, players[2].2]);
    let (deck, proof) = shuffle.shuffle_initial_deck(&mut rng, apk, ctx);
    let mut vdeck = shuffle.verify_initial_shuffle(apk, deck, proof, ctx).unwrap();
    for _ in 0..2 {
        let (deck, proof) = shuffle.shuffle_deck(&mut rng, apk, &vdeck, ctx);
        vdeck = shuffle.verify_shuffle(apk, &vdeck, deck, proof, ctx).unwrap();
    }
    let mut revealed = reveal_all(&mut rng, &shuffle, &players, &vdeck, ctx);
    assert!(revealed.iter().all(|&i| i < 10));
    revealed.sort();
    assert_eq!(revealed, (0..10).collect::<Vec<_>>());
}

#[test]
fn proof_for_one_deck_rejects_another() {
    let mut rng = ark_std::test_rng();
    let shuffle = Shuffle::<10>::default();
    let ctx = b"other deck";
    let players = keys(&mut rng, &shuffle, ctx, 1);
    let apk = AggregatePublicKey::new(&[players[0].2]);
    let (deck_a, proof_a) = shuffle.shuffle_initial_deck(&mut rng, apk, ctx);
    let (deck_b, proof_b) = shuffle.shuffle_initial_deck(&mut rng, apk, ctx);
    assert!(shuffle.verify_initial_shuffle(apk, deck_a, proof_a, ctx).is_some());
    assert!(shuffle.verify_initial_shuffle(apk, deck_b, proof_b, ctx).is_some());
    assert!(shuffle.verify_initial_shuffle(apk, deck_a, proof_b, ctx).is_none());
    // a shuffle of the initial deck is not a shuffle of another verified deck
    let vdeck_b = shuffle.verify_initial_shuffle(apk, deck_b, proof_b, ctx).unwrap();
    assert!(shuffle.verify_shuffle(apk, &vdeck_b, deck_a, proof_a, ctx).is_none());
}

#[test]
fn partial_tokens_do_not_reveal() {
    let mut rng = ark_std::test_rng();
    let shuffle = Shuffle::<10>::default();
    let ctx = b"partial";
    let players = keys(&mut rng, &shuffle, ctx, 2);
    let apk = AggregatePublicKey::new(&[players[0].2, players[1].2]);
    let (deck, proof) = shuffle.shuffle_initial_deck(&mut rng, apk, ctx);
    let vdeck = shuffle.verify_initial_shuffle(apk, deck, proof, ctx).unwrap();
    let card = vdeck.get(3).unwrap();
    let (sk, pk, vpk) = &players[0];
    let (t, p) = card.reveal_token(&mut rng, sk, *pk, ctx);
    let only_one = AggregateRevealToken::new(&[p.verify(*vpk, t, card, ctx).unwrap()]);
    assert!(shuffle.reveal_card(only_one, card).is_none());
    assert!(shuffle.reveal_card(AggregateRevealToken::new(&[]), card).is_none());
}

#[test]
fn ownership_proof_is_bound_to_its_context() {
    let mut rng = ark_std::test_rng();
    let shuffle = Shuffle::<10>::default();
    let (_, pk, proof) = shuffle.keygen(&mut rng, b"one");
    assert!(proof.verify(pk, b"one").is_some());
    assert!(proof.verify(pk, b"two").is_none());
    let mut tampered = proof;
    tampered.z = tampered.z.add(&Scalar::one());
    assert!(tampered.verify(pk, b"one").is_none());
}

#[test]
fn compressed_sizes() {
    let mut rng = ark_std::test_rng();
    let shuffle = Shuffle::<10>::default();
    let ctx = b"sizes";
    let (sk, pk, proof) = shuffle.keygen(&mut rng, ctx);
    let apk = AggregatePublicKey::new(&[proof.verify(pk, ctx).unwrap()]);
    let (deck, sproof) = shuffle.shuffle_initial_deck(&mut rng, apk, ctx);
    let vdeck = shuffle.verify_initial_shuffle(apk, deck, sproof, ctx).unwrap();
    let (t, tp) = vdeck.get(0).unwrap().reveal_token(&mut rng, &sk, pk, ctx);
    assert_eq!(pk.compressed_size(), 33);
    assert_eq!(sk.compressed_size(), 32);
    assert_eq!(proof.compressed_size(), 65);
    assert_eq!(apk.compressed_size(), 33);
    assert_eq!(deck.compressed_size(), 660);
    assert_eq!(sproof.compressed_size(), 1515);
    assert_eq!(t.compressed_size(), 33);
    assert_eq!(tp.compressed_size(), 98);
    // and the sizes of a 52-card game
    let big = MaskedDeck::<52>([(Point::identity(), Point::identity()); 52]);
    assert_eq!(big.compressed_size(), 3432);
    let mut buf = vec![0u8; 5547];
    let zero_proof = ShuffleProof::<52>::deserialize_compressed(&buf);
    assert_eq!(zero_proof, Err(SerializationError::InvalidData));
    // a proof of identities and zeros: flag byte 0x40 marks the point at infinity
    for i in 0..8 {
        buf[33 * i + 32] = 0x40;
    }
    let off = 392 + 32 * 52;
    for i in 0..3 {
        buf[off + 33 * i + 32] = 0x40;
    }
    let zero_proof = ShuffleProof::<52>::deserialize_compressed(&buf).unwrap();
    assert_eq!(zero_proof.compressed_size(), 5547);
    let mut out = vec![0u8; 5547];
    zero_proof.serialize_compressed(&mut out).unwrap();
    assert_eq!(out, buf);
}

#[test]
fn short_output_buffer_is_not_enough_space() {
    let mut rng = ark_std::test_rng();
    let shuffle = Shuffle::<10>::default();
    let (_, pk, proof) = shuffle.keygen(&mut rng, b"short");
    let mut full = [0u8; 65];
    proof.serialize_compressed(&mut full).unwrap();
    let mut short = [7u8; 40];
    assert_eq!(proof.serialize_compressed(&mut short), Err(SerializationError::NotEnoughSpace));
    // as much as fits is written
    assert_eq!(&short[..], &full[..40]);
    let mut tiny = [0u8; 32];
    assert_eq!(pk.serialize_compressed(&mut tiny), Err(SerializationError::NotEnoughSpace));
    // a longer buffer keeps its tail
    let mut long = [9u8; 70];
    proof.serialize_compressed(&mut long).unwrap();
    assert_eq!(&long[..65], &full[..]);
    assert_eq!(&long[65..], &[9u8; 5]);
}

#[test]
fn short_input_is_unexpected_end() {
    let g = encode(&Point::generator());
    let mut id = [0u8; 33];
    id[32] = 0x40;
    // a valid first point, then too few bytes
    let mut bytes = [0u8; 64];
    bytes[..33].copy_from_slice(&g);
    assert_eq!(OwnershipProof::deserialize_compressed(&bytes), Err(SerializationError::UnexpectedEnd));
    assert_eq!(PublicKey::deserialize_compressed(&bytes[..32]), Err(SerializationError::UnexpectedEnd));
    assert!(SecretKey::deserialize_compressed(&bytes[..31]) == Err(SerializationError::UnexpectedEnd));
    assert_eq!(RevealToken::deserialize_compressed(&[]), Err(SerializationError::UnexpectedEnd));
    let mut two = [0u8; 66];
    two[..33].copy_from_slice(&g);
    two[33..].copy_from_slice(&g);
    assert_eq!(RevealTokenProof::deserialize_compressed(&two), Err(SerializationError::UnexpectedEnd));
    let mut ids = [0u8; 64];
    ids[..33].copy_from_slice(&id);
    assert_eq!(MaskedDeck::<10>::deserialize_compressed(&ids), Err(SerializationError::UnexpectedEnd));
    assert_eq!(ShuffleProof::<10>::deserialize_compressed(&ids), Err(SerializationError::UnexpectedEnd));
}

#[test]
fn fields_are_read_in_order() {
    // an invalid first point is refused before the input is found to be short
    let zeros = [0u8; 40];
    assert_eq!(OwnershipProof::deserialize_compressed(&zeros), Err(SerializationError::InvalidData));
    assert_eq!(MaskedDeck::<10>::deserialize_compressed(&zeros), Err(SerializationError::InvalidData));
    // a flag byte with both the infinity and the sign bit set
    let mut flags = [0u8; 33];
    flags[32] = 0xC0;
    assert_eq!(PublicKey::deserialize_compressed(&flags), Err(SerializationError::UnexpectedFlags));
    let mut proof_bytes = [0u8; 98];
    proof_bytes[..33].copy_from_slice(&encode(&Point::generator()));
    proof_bytes[65] = 0xC0;
    assert_eq!(RevealTokenProof::deserialize_compressed(&proof_bytes), Err(SerializationError::UnexpectedFlags));
}

#[test]
fn invalid_bytes_are_invalid_data() {
    // x = 0 is not on secp256k1 (0 + 7 is not a square)
    let bytes = [0u8; 33];
    assert_eq!(PublicKey::deserialize_compressed(&bytes), Err(SerializationError::InvalidData));
    // a scalar of all ones is at least the group order
    let ones = [0xFFu8; 32];
    assert!(SecretKey::deserialize_compressed(&ones) == Err(SerializationError::InvalidData));
    let mut proof_bytes = [0u8; 65];
    proof_bytes[..33].copy_from_slice(&encode(&Point::generator()));
    proof_bytes[33..].copy_from_slice(&ones);
    assert_eq!(OwnershipProof::deserialize_compressed(&proof_bytes), Err(SerializationError::InvalidData));
    // the group order minus one is the largest scalar that reads back
    let top = scalar_bytes(&Scalar::zero().sub(&Scalar::one()));
    proof_bytes[33..].copy_from_slice(&top);
    let proof = OwnershipProof::deserialize_compressed(&proof_bytes).unwrap();
    assert!(proof.z.equals(&Scalar::one().neg()));
    assert!(proof.a.equals(&Point::generator()));
}

#[test]
fn serialized_deck_reads_back() {
    let mut rng = ark_std::test_rng();
    let shuffle = Shuffle::<10>::default();
    let ctx = b"deck bytes";
    let players = keys(&mut rng, &shuffle, ctx, 1);
    let apk = AggregatePublicKey::new(&[players[0].2]);
    let (deck, proof) = shuffle.shuffle_initial_deck(&mut rng, apk, ctx);
    let mut bytes = vec![0u8; 700];
    deck.serialize_compressed(&mut bytes).unwrap();
    for i in 0..10 {
        assert_eq!(&bytes[66 * i..66 * i + 33], &encode(&deck.0[i].0)[..]);
        assert_eq!(&bytes[66 * i + 33..66 * i + 66], &encode(&deck.0[i].1)[..]);
    }
    let back = MaskedDeck::<10>::deserialize_compressed(&bytes).unwrap();
    assert!(shuffle.verify_initial_shuffle(apk, back, proof, ctx).is_some());
}

#[test]
fn three_player_poker_game() {
    // Create a standard 52-card deck
    let shuffle = Shuffle::<52>::default();
    let mut rng = ark_std::test_rng();
    let ctx = b"poker_game_session_123";

    // Three players generate their keys and prove ownership
    let (alice_sk, alice_pk, alice_proof) = shuffle.keygen(&mut rng, ctx);
    let (bob_sk, bob_pk, bob_proof) = shuffle.keygen(&mut rng, ctx);
    let (carol_sk, carol_pk, carol_proof) = shuffle.keygen(&mut rng, ctx);

    // Each player verifies others' key ownership proofs
    let alice_vpk = alice_proof.verify(alice_pk, ctx).unwrap();
    let bob_vpk = bob_proof.verify(bob_pk, ctx).unwrap();
    let carol_vpk = carol_proof.verify(carol_pk, ctx).unwrap();

    let apk = AggregatePublicKey::new(&[alice_vpk, bob_vpk, carol_vpk]);

    let (alice_deck, alice_proof) = shuffle.shuffle_initial_deck(&mut rng, apk, ctx);
    let alice_vdeck = shuffle
        .verify_initial_shuffle(apk, alice_deck, alice_proof, ctx)
        .expect("Alice's shuffle should be valid");

    let (bob_deck, bob_proof) = shuffle.shuffle_deck(&mut rng, apk, &alice_vdeck, ctx);
    let bob_vdeck = shuffle
        .verify_shuffle(apk, &alice_vdeck, bob_deck, bob_proof, ctx)
        .expect("Bob's shuffle should be valid");

    let (final_deck, carol_proof) = shuffle.shuffle_deck(&mut rng, apk, &bob_vdeck, ctx);
    let final_vdeck = shuffle
        .verify_shuffle(apk, &bob_vdeck, final_deck, carol_proof, ctx)
        .expect("Carol's shuffle should be valid");

    let first_card = final_vdeck.get(0).unwrap();

    let (alice_token, alice_token_proof) = first_card.reveal_token(&mut rng, &alice_sk, alice_pk, ctx);
    let (bob_token, bob_token_proof) = first_card.reveal_token(&mut rng, &bob_sk, bob_pk, ctx);
    let (carol_token, carol_token_proof) = first_card.reveal_token(&mut rng, &carol_sk, carol_pk, ctx);

    let alice_vtoken = alice_token_proof.verify(alice_vpk, alice_token, first_card, ctx).unwrap();
    let bob_vtoken = bob_token_proof.verify(bob_vpk, bob_token, first_card, ctx).unwrap();
    let carol_vtoken = carol_token_proof.verify(carol_vpk, carol_token, first_card, ctx).unwrap();

    let aggregate_token = AggregateRevealToken::new(&[alice_vtoken, bob_vtoken, carol_vtoken]);

    let card_index = shuffle
        .reveal_card(aggregate_token, first_card)
        .expect("Card should be revealed successfully");
    assert!(card_index < 52);

    // the serialized sizes of the messages of a 52-card game
    let mut deck_bytes = vec![0u8; 3432];
    final_deck.serialize_compressed(&mut deck_bytes).unwrap();
    let mut proof_bytes = vec![0u8; 5547];
    carol_proof.serialize_compressed(&mut proof_bytes).unwrap();
    assert_eq!(ShuffleProof::<52>::deserialize_compressed(&proof_bytes), Ok(carol_proof));
}

#[test]
fn encoding_flags_mark_the_sign_of_y() {
    let g = Point::generator();
    let minus_g = Point::identity().sub(&g);
    let a = encode(&g);
    let b = encode(&minus_g);
    // same x coordinate, opposite signs of y
    assert_eq!(&a[..32], &b[..32]);
    assert_eq!(a[32] ^ b[32], 0x80);
    // the point at infinity is written as x = 0 with the infinity flag
    let id = encode(&Point::identity());
    assert!(id[..32].iter().all(|&x| x == 0));
    assert_eq!(id[32], 0x40);
}

#[test]
fn draws_return_for_a_generator_of_all_ones() {
    let mut rng = StepRng::new(u64::MAX, 0);
    let shuffle = Shuffle::<10>::default();
    let ctx = b"all ones";
    let (sk, pk, proof) = shuffle.keygen(&mut rng, ctx);
    // the secret key is the 64 drawn bytes read as a little-endian number modulo the order
    let expected = <ark_secp256k1::Fr as PrimeField>::from_le_bytes_mod_order(&[0xFF; 64]);
    let mut sk_bytes = [0u8; 32];
    sk.serialize_compressed(&mut sk_bytes).unwrap();
    assert_eq!(&sk_bytes[..], &expected.into_bigint().to_bytes_le()[..]);
    let vpk = proof.verify(pk, ctx).unwrap();
    let apk = AggregatePublicKey::new(&[vpk]);
    let (deck, sproof) = shuffle.shuffle_initial_deck(&mut rng, apk, ctx);
    let vdeck = shuffle.verify_initial_shuffle(apk, deck, sproof, ctx).unwrap();
    let mut revealed = reveal_all(&mut rng, &shuffle, &[(sk, pk, vpk)], &vdeck, ctx);
    revealed.sort();
    assert_eq!(revealed, (0..10).collect::<Vec<_>>());
}
