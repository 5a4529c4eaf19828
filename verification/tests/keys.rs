use bitcoin::secp256k1::{PublicKey, Secp256k1, SecretKey};
use std::str::FromStr;
use wallet_core::error::WalletError;
use wallet_core::keys::{AddressDeriver, DrawStep, KeyGenerator, KeyPair, PrivateKey, MAX_DRAWS};

const ORDER: &str = "fffffffffffffffffffffffffffffffebaaedce6af48a03bbfd25e8cd0364141";
const ORDER_LESS_ONE: &str = "fffffffffffffffffffffffffffffffebaaedce6af48a03bbfd25e8cd0364140";
const ONE: &str = "0000000000000000000000000000000000000000000000000000000000000001";

#[test]
fn one_is_a_valid_key() {
    let mut bytes = [0u8; 32];
    bytes[31] = 1;
    let key = PrivateKey::from_bytes(&bytes).expect("one is a scalar");
    assert_eq!(key.to_hex(), ONE);
    assert_eq!(key.to_bytes(), bytes.to_vec());
}

#[test]
fn key_one_has_the_generator_as_public_key() {
    let key = PrivateKey::from_hex(ONE).expect("one is a scalar");
    let (public_key, address) = AddressDeriver::derive(&key);
    assert_eq!(
        public_key,
        "0279be667ef9dcbbac55a06295ce870b07029bfcdb2dce28d959f2815b16f81798"
    );
    assert_eq!(address, "1BgGZ9tcN4rm9KBzDn7KprQz87SZ26SAMH");
}

#[test]
fn key_two_has_its_known_address() {
    let key = PrivateKey::from_hex(
        "0000000000000000000000000000000000000000000000000000000000000002",
    )
    .expect("two is a scalar");
    let (public_key, address) = AddressDeriver::derive(&key);
    assert_eq!(
        public_key,
        "02c6047f9441ed7d6d3045406e95c07cd85c778e4b8cef3ca7abac09b95c709ee5"
    );
    assert_eq!(address, "1cMh228HTCiwS8ZsaakH8A8wze1JR5ZsP");
}

#[test]
fn zero_is_rejected() {
    let bytes = [0u8; 32];
    assert_eq!(PrivateKey::from_bytes(&bytes).err(), Some(WalletError::InvalidPrivateKey));
}

#[test]
fn the_curve_order_is_rejected_and_its_predecessor_accepted() {
    assert_eq!(PrivateKey::from_hex(ORDER).err(), Some(WalletError::InvalidPrivateKey));
    let largest = PrivateKey::from_hex(ORDER_LESS_ONE).expect("the largest scalar");
    assert_eq!(largest.to_hex(), ORDER_LESS_ONE);
    let all_ones = [0xffu8; 32];
    assert_eq!(PrivateKey::from_bytes(&all_ones).err(), Some(WalletError::InvalidPrivateKey));
}

#[test]
fn other_lengths_are_rejected() {
    assert_eq!(PrivateKey::from_bytes(&[1u8; 31]).err(), Some(WalletError::InvalidPrivateKey));
    assert_eq!(PrivateKey::from_bytes(&[1u8; 33]).err(), Some(WalletError::InvalidPrivateKey));
    assert_eq!(PrivateKey::from_bytes(&[]).err(), Some(WalletError::InvalidPrivateKey));
    assert!(PrivateKey::from_bytes(&[1u8; 32]).is_ok());
}

#[test]
fn malformed_key_text_is_rejected() {
    assert_eq!(PrivateKey::from_hex("").err(), Some(WalletError::InvalidPrivateKey));
    assert_eq!(PrivateKey::from_hex("01").err(), Some(WalletError::InvalidPrivateKey));
    assert_eq!(PrivateKey::from_hex("garbage").err(), Some(WalletError::InvalidPrivateKey));
    assert_eq!(PrivateKey::from_hex(&ONE[1..]).err(), Some(WalletError::InvalidPrivateKey));
    assert_eq!(
        PrivateKey::from_hex(&format!("{}00", ONE)).err(),
        Some(WalletError::InvalidPrivateKey)
    );
    assert_eq!(
        PrivateKey::from_hex(&format!("0x{}", &ONE[2..])).err(),
        Some(WalletError::InvalidPrivateKey)
    );
}

#[test]
fn key_text_is_read_in_either_case_and_written_in_lower_case() {
    let upper = "00000000000000000000000000000000000000000000000000000000DEADBEEF";
    let key = PrivateKey::from_hex(upper).expect("a scalar");
    assert_eq!(
        key.to_hex(),
        "00000000000000000000000000000000000000000000000000000000deadbeef"
    );
    assert_eq!(key.to_hex().len(), 64);
}

#[test]
fn key_text_is_accepted_exactly_when_the_curve_library_accepts_it() {
    let samples = [
        ONE,
        ORDER,
        ORDER_LESS_ONE,
        "",
        "00",
        "0000000000000000000000000000000000000000000000000000000000000000",
        "ffffffffffffffffffffffffffffffffffffffffffffffffffffffffffffffff",
        "FFFFFFFFFFFFFFFFFFFFFFFFFFFFFFFEBAAEDCE6AF48A03BBFD25E8CD0364140",
        "fffffffffffffffffffffffffffffffebaaedce6af48a03bbfd25e8cd0364142",
        "8000000000000000000000000000000000000000000000000000000000000000",
        "xyz",
        "000000000000000000000000000000000000000000000000000000000000001",
    ];
    for text in samples {
        assert_eq!(PrivateKey::from_hex(text).is_ok(), SecretKey::from_str(text).is_ok());
    }
}

#[test]
fn derived_values_are_those_of_the_curve_library() {
    let text = "18e14a7b6a307f426a94f8114701e7c8e774e7f9a47e2c2035db29a206321725";
    let key = PrivateKey::from_hex(text).expect("a scalar");
    let (public_key, address) = AddressDeriver::derive(&key);
    let secret = SecretKey::from_str(text).expect("a scalar");
    let point = PublicKey::from_secret_key(&Secp256k1::new(), &secret);
    assert_eq!(public_key, point.to_string());
    assert_eq!(secret.to_string(), key.to_hex());
    let expected =
        bitcoin::Address::p2pkh(&bitcoin::PublicKey::new(point), bitcoin::Network::Bitcoin);
    assert_eq!(address, expected.to_string());
    assert_eq!(
        public_key,
        "0250863ad64a87ae8a2fe83c1af1a8403cb53f53e486d8511dad8a04887e5b2352"
    );
    assert_eq!(address, "1PMycacnJaSqwwJqjawXBErnLsZ7RkXUAs");
}

#[test]
fn deriving_twice_gives_the_same_pair() {
    let key = KeyGenerator::generate().expect("entropy");
    let first = AddressDeriver::derive(&key);
    let second = AddressDeriver::derive(&key.clone());
    assert_eq!(first, second);
    assert_eq!(first.0.len(), 66);
    assert_ne!(first.0, key.to_hex());
}

#[test]
fn generated_keys_differ() {
    let a = KeyGenerator::generate().expect("entropy");
    let b = KeyGenerator::generate().expect("entropy");
    assert!(!a.same_as(&b));
    assert_ne!(a.to_hex(), b.to_hex());
    assert!(a.same_as(&a.clone()));
}

#[test]
fn a_generated_pair_holds_what_is_derived_from_its_key() {
    let pair = KeyPair::generate().expect("entropy");
    let (public_key, address) = AddressDeriver::derive(pair.private_key());
    assert_eq!(pair.public_key(), &public_key);
    assert_eq!(pair.address(), &address);
    let copy = pair.clone();
    assert!(copy.private_key().same_as(pair.private_key()));
    assert_eq!(copy.address(), pair.address());
}

#[test]
fn a_pair_from_a_key_holds_that_key() {
    let key = PrivateKey::from_hex(ONE).expect("one is a scalar");
    let pair = KeyPair::from_private_key(key);
    assert_eq!(pair.private_key().to_hex(), ONE);
    assert_eq!(pair.address(), "1BgGZ9tcN4rm9KBzDn7KprQz87SZ26SAMH");
}

fn scalar(last_byte: u8) -> Vec<u8> {
    let mut bytes = vec![0u8; 32];
    bytes[31] = last_byte;
    bytes
}

#[test]
fn a_valid_draw_is_accepted_as_it_is() {
    for left in [1u32, 2, MAX_DRAWS] {
        match KeyGenerator::judge_draw(Some(scalar(5)), left) {
            DrawStep::Accept(key) => assert_eq!(key.to_bytes(), scalar(5)),
            _ => panic!("a valid scalar was not accepted"),
        }
    }
}

#[test]
fn a_refused_draw_is_drawn_again_while_draws_are_left() {
    let order = PrivateKey::from_hex(ORDER_LESS_ONE).expect("a scalar").to_bytes();
    let mut at_order = order.clone();
    at_order[31] += 1;
    for refused in [scalar(0), at_order, vec![0xffu8; 32], vec![1u8; 31]] {
        assert!(matches!(KeyGenerator::judge_draw(Some(refused.clone()), MAX_DRAWS), DrawStep::DrawAgain));
        assert!(matches!(KeyGenerator::judge_draw(Some(refused.clone()), 2), DrawStep::DrawAgain));
        assert!(matches!(KeyGenerator::judge_draw(Some(refused.clone()), 1), DrawStep::GiveUp));
        assert!(matches!(KeyGenerator::judge_draw(Some(refused), 0), DrawStep::GiveUp));
    }
}

#[test]
fn a_source_that_cannot_be_read_is_given_up_on() {
    assert!(matches!(KeyGenerator::judge_draw(None, MAX_DRAWS), DrawStep::GiveUp));
    assert!(matches!(KeyGenerator::judge_draw(None, 1), DrawStep::GiveUp));
}

#[test]
fn refused_draws_are_passed_over_until_a_valid_one() {
    let draws = [scalar(0), vec![0xffu8; 32], scalar(9), scalar(3)];
    let mut left = MAX_DRAWS;
    let mut key = None;
    for drawn in draws {
        match KeyGenerator::judge_draw(Some(drawn), left) {
            DrawStep::Accept(accepted) => {
                key = Some(accepted);
                break;
            }
            DrawStep::DrawAgain => left -= 1,
            DrawStep::GiveUp => break,
        }
    }
    assert_eq!(key.expect("the third draw is valid").to_bytes(), scalar(9));
    assert_eq!(left, MAX_DRAWS - 2);
}

#[test]
fn a_public_key_has_sixty_six_digits() {
    for last in [1u8, 2, 3, 200] {
        let key = PrivateKey::from_bytes(&scalar(last)).expect("a scalar");
        assert_eq!(AddressDeriver::derive(&key).0.len(), 66);
    }
}
