use fedimint_amm::common::{module_consensus_version, AmmCommonInit, ModuleConsensusVersion, KIND};
use fedimint_amm::crypto::{Keypair, PublicKey};
use fedimint_amm::encoding::{append_text, append_u64s, Reader};
use fedimint_amm::pool_id::{PoolId, PoolIdError};
use fedimint_amm::pop::{deposit_pop_message, sign_pop, swap_pop_message, verify_pop};
use fedimint_amm::text::{append_decimal, append_decimal_padded, parse_u64};
use fedimint_amm::types::{
    AmmConsensusItem, AmmInput, AmmInputError, AmmOutput, AmmOutputError, AmmOutputOutcome,
};
use fedimint_amm::units::{Amount, AmountUnit, Amounts};

fn unit(n: u64) -> AmountUnit {
    AmountUnit::new_custom(n)
}

fn msats(n: u64) -> Amount {
    Amount::from_msats(n)
}

fn pool(lo: u64, hi: u64) -> PoolId {
    PoolId::new(unit(lo), unit(hi)).expect("distinct units")
}

fn keypair(seed: u8) -> Keypair {
    Keypair::from_secret([seed; 32]).expect("a repeated non-zero byte is a valid secret key")
}

fn kp() -> Keypair {
    keypair(1)
}

fn pk() -> PublicKey {
    kp().public_key()
}

fn pool_bytes(id: PoolId) -> Vec<u8> {
    let mut bytes = Vec::new();
    id.encode(&mut bytes);
    bytes
}

fn pool_from_bytes(bytes: &[u8]) -> Option<PoolId> {
    let mut reader = Reader::new(bytes);
    let id = PoolId::decode(&mut reader)?;
    if reader.is_done() {
        Some(id)
    } else {
        None
    }
}

#[test]
fn new_sorts_the_pair() {
    let a = AmountUnit::new_custom(1);
    let b = AmountUnit::new_custom(7);
    assert_eq!(PoolId::new(a, b), PoolId::new(b, a));
    let id = PoolId::new(b, a).unwrap();
    assert_eq!(id.lo(), a);
    assert_eq!(id.hi(), b);
}

#[test]
fn new_rejects_identical_units() {
    let a = AmountUnit::new_custom(3);
    assert_eq!(PoolId::new(a, a), None);
}

#[test]
fn a_pool_knows_its_two_units() {
    let id = pool(1, 7);
    assert!(id.contains(unit(1)) && id.contains(unit(7)) && !id.contains(unit(2)));
    assert_eq!(id.other(unit(1)), Some(unit(7)));
    assert_eq!(id.other(unit(7)), Some(unit(1)));
    assert_eq!(id.other(unit(2)), None);
}

#[test]
fn round_trips_through_encoding() {
    let id = PoolId::new(AmountUnit::new_custom(2), AmountUnit::new_custom(9)).unwrap();
    let bytes = pool_bytes(id);
    assert_eq!(pool_from_bytes(&bytes), Some(id));
}

#[test]
fn rejects_non_canonical_encoding() {
    let mut bytes = Vec::new();
    append_u64s(&mut bytes, &[9, 2]);
    assert!(pool_from_bytes(&bytes).is_none());
}

#[test]
fn rejects_equal_units_in_encoding() {
    let mut bytes = Vec::new();
    append_u64s(&mut bytes, &[4, 4]);
    assert!(pool_from_bytes(&bytes).is_none());
}

/// The bytes of two pools sort as the pools do.
#[test]
fn pool_bytes_keep_the_order_of_pools() {
    let ids = [pool(0, 1), pool(0, 252), pool(0, 253), pool(1, 2), pool(252, 70_000), pool(253, 254)];
    for pair in ids.windows(2) {
        assert!(pair[0] < pair[1]);
        assert!(pool_bytes(pair[0]) < pool_bytes(pair[1]));
    }
}

/// A pool in JSON is the string of its text.
fn pool_from_json(json: &str) -> Option<PoolId> {
    let text: String = serde_json::from_str(json).ok()?;
    PoolId::from_text(&text).ok()
}

#[test]
fn serde_round_trips_through_json_as_lo_hi_string() {
    let id = PoolId::new(AmountUnit::new_custom(0), AmountUnit::new_custom(7)).unwrap();
    let json = serde_json::to_string(&id.to_text()).unwrap();
    assert_eq!(json, "\"0:7\"");
    assert_eq!(pool_from_json(&json), Some(id));
}

#[test]
fn deserialize_rejects_non_canonical_string() {
    assert!(pool_from_json("\"7:0\"").is_none());
    assert_eq!(PoolId::from_text("7:0"), Err(PoolIdError::NotCanonical));
}

#[test]
fn deserialize_rejects_equal_units_in_string() {
    assert!(pool_from_json("\"4:4\"").is_none());
    assert_eq!(PoolId::from_text("4:4"), Err(PoolIdError::NotCanonical));
}

#[test]
fn deserialize_rejects_malformed_strings() {
    for bad in ["abc", "1", "1:2:3", ""] {
        let json = format!("{bad:?}");
        assert!(pool_from_json(&json).is_none(), "expected {bad:?} to be rejected");
    }
}

#[test]
fn pool_id_must_be_canonical() {
    assert!(PoolId::from_text("0:1").is_ok());
    assert!(PoolId::from_text("1:0").is_err());
    assert!(PoolId::from_text("1:1").is_err());
    assert!(PoolId::from_text("0").is_err());
}

#[test]
fn pool_texts_are_two_numbers() {
    let big = pool(18, u64::MAX);
    assert_eq!(big.to_text(), "18:18446744073709551615");
    assert_eq!(PoolId::from_text(&big.to_text()), Ok(big));
    for bad in ["abc", "1", "1:2:3", "", ":", "1:", ":2", " 1:2", "-1:2", "1:18446744073709551616"] {
        assert!(PoolId::from_text(bad).is_err(), "expected {bad:?} to be rejected");
    }
    // A leading plus sign is part of a number.
    assert_eq!(PoolId::from_text("+1:2"), Ok(pool(1, 2)));
}

fn swap_msg(pk: PublicKey, tweak: [u8; 16]) -> [u8; 32] {
    swap_pop_message(
        AmountUnit::bitcoin(),
        AmountUnit::new_custom(1),
        Amount::from_msats(100),
        Amount::from_msats(1),
        pk,
        tweak,
    )
}

#[test]
fn a_valid_pop_verifies() {
    let kp = keypair(21);
    let msg = swap_msg(kp.public_key(), [1u8; 16]);

    assert!(verify_pop(&sign_pop(&kp, &msg), &msg, &kp.public_key()));
}

/// No proof for a key can be made without its secret.
#[test]
fn another_key_cannot_forge_a_pop() {
    let victim = keypair(22);
    let attacker = keypair(23);
    let msg = swap_msg(victim.public_key(), [1u8; 16]);

    assert!(!verify_pop(&sign_pop(&attacker, &msg), &msg, &victim.public_key()));
}

/// A proof does not survive being paired with another tweak.
#[test]
fn a_pop_does_not_transplant_to_a_different_tweak() {
    let kp = keypair(24);
    let honest = swap_msg(kp.public_key(), [1u8; 16]);
    let garbage = swap_msg(kp.public_key(), [0xffu8; 16]);
    let signature = sign_pop(&kp, &honest);

    assert!(verify_pop(&signature, &honest, &kp.public_key()));
    assert!(!verify_pop(&signature, &garbage, &kp.public_key()));
}

#[test]
fn every_covered_field_changes_the_message() {
    let kp = keypair(25);
    let pk = kp.public_key();
    let base = swap_msg(pk, [1u8; 16]);

    let variants = [
        swap_pop_message(
            AmountUnit::new_custom(7),
            AmountUnit::new_custom(1),
            Amount::from_msats(100),
            Amount::from_msats(1),
            pk,
            [1u8; 16],
        ),
        swap_pop_message(
            AmountUnit::bitcoin(),
            AmountUnit::new_custom(7),
            Amount::from_msats(100),
            Amount::from_msats(1),
            pk,
            [1u8; 16],
        ),
        swap_pop_message(
            AmountUnit::bitcoin(),
            AmountUnit::new_custom(1),
            Amount::from_msats(101),
            Amount::from_msats(1),
            pk,
            [1u8; 16],
        ),
        swap_pop_message(
            AmountUnit::bitcoin(),
            AmountUnit::new_custom(1),
            Amount::from_msats(100),
            Amount::from_msats(2),
            pk,
            [1u8; 16],
        ),
        swap_pop_message(
            AmountUnit::bitcoin(),
            AmountUnit::new_custom(1),
            Amount::from_msats(100),
            Amount::from_msats(1),
            keypair(26).public_key(),
            [1u8; 16],
        ),
    ];

    for (i, variant) in variants.iter().enumerate() {
        assert_ne!(&base, variant, "field {i} is not covered by the signed message");
    }
}

#[test]
fn every_field_of_a_deposit_is_covered() {
    let pk = keypair(25).public_key();
    let message = |p, lo, hi, least, key, tweak| {
        deposit_pop_message(p, msats(lo), msats(hi), least, key, tweak)
    };
    let base = message(pool(0, 1), 100, 200, 3, pk, [1; 16]);
    let variants = [
        message(pool(0, 2), 100, 200, 3, pk, [1; 16]),
        message(pool(0, 1), 101, 200, 3, pk, [1; 16]),
        message(pool(0, 1), 100, 201, 3, pk, [1; 16]),
        message(pool(0, 1), 100, 200, 4, pk, [1; 16]),
        message(pool(0, 1), 100, 200, 3, keypair(26).public_key(), [1; 16]),
        message(pool(0, 1), 100, 200, 3, pk, [2; 16]),
    ];
    for variant in &variants {
        assert_ne!(&base, variant);
    }
}

/// A proof for a swap is none for a deposit.
#[test]
fn swap_and_deposit_domains_are_separated() {
    let kp = keypair(27);
    let pk = kp.public_key();
    let tweak = [1u8; 16];

    let swap = swap_pop_message(
        AmountUnit::bitcoin(),
        AmountUnit::new_custom(1),
        Amount::from_msats(100),
        Amount::from_msats(1),
        pk,
        tweak,
    );
    let deposit = deposit_pop_message(
        PoolId::new(AmountUnit::bitcoin(), AmountUnit::new_custom(1)).expect("distinct units"),
        Amount::from_msats(100),
        Amount::from_msats(1),
        0,
        pk,
        tweak,
    );

    assert_ne!(swap, deposit);
    assert!(!verify_pop(&sign_pop(&kp, &swap), &deposit, &pk));
}

#[test]
fn an_output_carries_a_proof_of_its_own_fields() {
    let swap = AmmOutput::new_swap_v0(&kp(), unit(0), unit(1), msats(5), msats(4), [7; 16]);
    assert!(swap.verify_pop());
    let AmmOutput::SwapV0 { unit_in, unit_out, min_out, recipient_pk, tweak, pop, .. } = swap else {
        panic!("not a swap")
    };
    let other = AmmOutput::SwapV0 {
        unit_in,
        unit_out,
        amount_in: msats(6),
        min_out,
        recipient_pk,
        tweak,
        pop,
    };
    assert!(!other.verify_pop());
}

/// The signature scheme is the one without random input: one message, one
/// signature.
#[test]
fn signing_is_deterministic() {
    let msg = swap_msg(pk(), [1; 16]);
    assert_eq!(sign_pop(&kp(), &msg), sign_pop(&kp(), &msg));
    assert_ne!(sign_pop(&kp(), &msg), sign_pop(&keypair(2), &msg));
}

#[test]
fn keys_are_points_of_the_curve() {
    // The generator belongs to the secret one.
    let mut one = [0u8; 32];
    one[31] = 1;
    let generator = Keypair::from_secret(one).expect("one is a secret key").public_key();
    let hex: String = generator.bytes.iter().map(|b| format!("{b:02x}")).collect();
    assert_eq!(hex, "0279be667ef9dcbbac55a06295ce870b07029bfcdb2dce28d959f2815b16f81798");
    assert_eq!(PublicKey::from_bytes(generator.bytes), Some(generator));
    assert_eq!(PublicKey::from_bytes([0; 33]), None);
    assert_eq!(Keypair::from_secret([0; 32]), None);
    assert_eq!(Keypair::from_secret([0xff; 32]), None);
}

#[test]
fn swap_output_round_trips() {
    let out = AmmOutput::new_swap_v0(
        &kp(),
        AmountUnit::new_custom(0),
        AmountUnit::new_custom(1),
        Amount::from_msats(10_000),
        Amount::from_msats(9_000),
        [7u8; 16],
    );
    let bytes = out.encode();
    assert_eq!(AmmOutput::decode(&bytes), Some(out));
}

#[test]
fn deposit_output_round_trips() {
    let out = AmmOutput::new_deposit_v0(
        &kp(),
        PoolId::new(AmountUnit::new_custom(0), AmountUnit::new_custom(1)).unwrap(),
        Amount::from_msats(1_000),
        Amount::from_msats(2_000),
        1,
        [9u8; 16],
    );
    let bytes = out.encode();
    assert_eq!(AmmOutput::decode(&bytes), Some(out));
}

#[test]
fn claim_balance_input_round_trips() {
    let inp = AmmInput::ClaimBalanceV0 { pubkey: pk(), unit: AmountUnit::new_custom(1) };
    let bytes = inp.encode();
    assert_eq!(AmmInput::decode(&bytes), Some(inp));
}

#[test]
fn withdraw_input_round_trips() {
    let inp = AmmInput::WithdrawV0 {
        pool: PoolId::new(AmountUnit::new_custom(0), AmountUnit::new_custom(1)).unwrap(),
        owner_pk: pk(),
        shares: 500,
        min_lo: Amount::from_msats(1),
        min_hi: Amount::from_msats(1),
        max_lo: Amount::from_msats(2),
        max_hi: Amount::from_msats(2),
    };
    let bytes = inp.encode();
    assert_eq!(AmmInput::decode(&bytes), Some(inp));
}

/// What a newer peer sends survives an older decoder.
#[test]
fn unknown_input_variant_round_trips_through_default() {
    let unknown = AmmInput::Default { variant: 42, bytes: vec![1, 2, 3] };
    let bytes = unknown.encode();
    assert_eq!(AmmInput::decode(&bytes), Some(unknown));
}

#[test]
fn unknown_output_variant_round_trips_through_default() {
    let unknown = AmmOutput::Default { variant: 7, bytes: vec![4, 5, 6] };
    let bytes = unknown.encode();
    assert_eq!(AmmOutput::decode(&bytes), Some(unknown));
}

#[test]
fn consensus_item_default_round_trips() {
    let unknown = AmmConsensusItem::Default { variant: 1, bytes: vec![0xAB] };
    let bytes = unknown.encode();
    assert_eq!(AmmConsensusItem::decode(&bytes), Some(unknown));
}

#[test]
fn a_fee_vote_round_trips() {
    let vote = AmmConsensusItem::FeeVoteV0 { pool: pool(0, 300), fee_per_mille: 12 };
    let bytes = vote.encode();
    assert_eq!(bytes, vec![0, 5, 0, 0xfd, 1, 44, 12]);
    assert_eq!(AmmConsensusItem::decode(&bytes), Some(vote));
    // A fee that no `u16` holds is not a vote.
    assert_eq!(AmmConsensusItem::decode(&[0, 7, 0, 1, 0xfe, 0, 1, 0, 0]), None);
}

#[test]
fn output_outcome_round_trips() {
    let bytes = AmmOutputOutcome.encode();
    assert_eq!(AmmOutputOutcome::decode(&bytes), Some(AmmOutputOutcome));
}

/// A decoder takes what an encoder writes, and nothing that is shorter, longer,
/// or names no point of the curve.
#[test]
fn damaged_bytes_are_refused() {
    let inp = AmmInput::ClaimBalanceV0 { pubkey: pk(), unit: unit(1) };
    let mut expected = vec![0, 34];
    expected.extend_from_slice(&pk().bytes);
    expected.push(1);
    assert_eq!(inp.encode(), expected);
    let bytes = expected;
    for cut in 0..bytes.len() {
        assert_eq!(AmmInput::decode(&bytes[..cut]), None);
    }
    let mut long = bytes.clone();
    long.push(0);
    assert_eq!(AmmInput::decode(&long), None);
    let mut off_curve = bytes;
    off_curve[2] = 9;
    assert_eq!(AmmInput::decode(&off_curve), None);
}

#[test]
fn numbers_take_one_three_five_or_nine_bytes() {
    let mut out = Vec::new();
    append_u64s(&mut out, &[0, 252, 253, 65_535, 65_536, u32::MAX as u64 + 1]);
    assert_eq!(
        out,
        vec![
            0, 252, 0xfd, 0, 253, 0xfd, 0xff, 0xff, 0xfe, 0, 1, 0, 0, 0xff, 0, 0, 0, 1, 0, 0, 0, 0
        ]
    );
    let mut reader = Reader::new(&out);
    assert_eq!(
        reader.read_u64s(6),
        Some(vec![0, 252, 253, 65_535, 65_536, u32::MAX as u64 + 1])
    );
    assert!(reader.is_done());
    // A number has one spelling.
    assert_eq!(Reader::new(&[0xfd, 0, 252]).read_u64(), None);
}

#[test]
fn texts_round_trip_and_have_to_be_utf8() {
    let mut out = Vec::new();
    append_text(&mut out, "b\u{e9}");
    assert_eq!(out, vec![3, 98, 0xc3, 0xa9]);
    assert_eq!(Reader::new(&out).read_text(), Some("b\u{e9}".to_string()));
    assert_eq!(Reader::new(&[1, 0xff]).read_text(), None);
}

#[test]
fn numbers_read_as_std_reads_them() {
    for text in ["0", "7", "+7", "007", "18446744073709551615", "18446744073709551616", "", "+", "-1", "1 ", "x"] {
        assert_eq!(parse_u64(text), text.parse::<u64>().ok(), "{text:?}");
    }
    let mut s = String::new();
    append_decimal(&mut s, u128::MAX);
    append_decimal(&mut s, 0);
    append_decimal_padded(&mut s, 42, 6);
    assert_eq!(s, format!("{}0000042", u128::MAX));
}

#[test]
fn items_describe_themselves() {
    let swap = AmmOutput::new_swap_v0(&kp(), unit(0), unit(1), msats(5), msats(4), [7; 16]);
    assert_eq!(
        swap.describe(),
        "AmmOutput::SwapV0 5 msat AmountUnit(0) -> AmountUnit(1)"
    );
    let unknown = AmmInput::Default { variant: 42, bytes: vec![1, 2, 3] };
    assert_eq!(unknown.describe(), "AmmInput::Default variant=42 bytes_len=3");
    let withdraw = AmmInput::WithdrawV0 {
        pool: pool(0, 1),
        owner_pk: pk(),
        shares: 5,
        min_lo: msats(0),
        min_hi: msats(0),
        max_lo: msats(0),
        max_hi: msats(0),
    };
    assert_eq!(
        withdraw.describe(),
        "AmmInput::WithdrawV0 PoolId { lo: AmountUnit(0), hi: AmountUnit(1) } shares=5"
    );
    assert_eq!(AmmOutputOutcome.describe(), "AmmOutputOutcome");
}

#[test]
fn errors_have_their_texts() {
    assert_eq!(AmmInputError::NoSuchPool.message(), "no such pool");
    assert_eq!(
        AmmInputError::Curve("empty pool".to_string()).message(),
        "arithmetic error: empty pool"
    );
    assert_eq!(
        AmmOutputError::InvalidProofOfPossession.message(),
        "invalid proof of possession for the named key"
    );
    assert_eq!(AmmOutputError::UnknownVariant.message(), "unknown output variant");
}

#[test]
fn amounts_add_up_by_unit() {
    let one = Amounts::new_custom(unit(1), msats(5));
    let two = one.clone().checked_add_unit(msats(7), unit(0)).expect("fits");
    assert_eq!(two.get(unit(0)), Some(msats(7)));
    assert_eq!(two.get(unit(1)), Some(msats(5)));
    assert_eq!(two.get(unit(2)), None);
    assert_eq!(two.count(), 2);
    let three = two.checked_add_unit(msats(1), unit(1)).expect("fits");
    assert_eq!(three.get(unit(1)), Some(msats(6)));
    assert_eq!(one.checked_add_unit(msats(u64::MAX), unit(1)), None);
    assert_eq!(Amounts::zero().count(), 0);
}

#[test]
fn client_and_server_agree_on_the_kind() {
    assert_eq!(AmmCommonInit::kind(), KIND);
    assert_eq!(module_consensus_version(), ModuleConsensusVersion { major: 0, minor: 0 });
}
