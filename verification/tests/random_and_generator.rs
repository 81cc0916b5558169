use tsupasswd::entropy::{rand_index, sample_index, u64_from_le, MAX_DRAWS};
use tsupasswd::generator::{
    alphabet_byte, check_picks, fisher_yates_shuffle, generate_password, shuffle_with,
    ALPHABET_LEN,
};
use tsupasswd::ident::{draw_seed, fresh_id, id_from_bytes};

#[test]
fn little_endian_bytes_spell_the_number() {
    assert_eq!(u64_from_le(&[1, 0, 0, 0, 0, 0, 0, 0]), 1);
    assert_eq!(u64_from_le(&[0, 1, 0, 0, 0, 0, 0, 0]), 256);
    assert_eq!(u64_from_le(&[0xef, 0xcd, 0xab, 0x89, 0x67, 0x45, 0x23, 0x01]), 0x0123_4567_89ab_cdef);
    assert_eq!(u64_from_le(&[0xff; 8]), u64::MAX);
}

#[test]
fn sample_is_the_draw_modulo_the_bound() {
    assert_eq!(sample_index(0, 62), Some(0));
    assert_eq!(sample_index(61, 62), Some(61));
    assert_eq!(sample_index(62, 62), Some(0));
    assert_eq!(sample_index(1_000_003, 10), Some(3));
    assert_eq!(sample_index(12345, 1), Some(0));
}

#[test]
fn sample_rejects_draws_outside_the_zone() {
    // u64::MAX = 18446744073709551615; the zone for 10 ends at 18446744073709551610.
    assert_eq!(sample_index(18446744073709551609, 10), Some(9));
    assert_eq!(sample_index(18446744073709551610, 10), None);
    assert_eq!(sample_index(u64::MAX, 10), None);
    assert_eq!(sample_index(u64::MAX, 1), None);
    assert_eq!(sample_index(5, 0), None);
}

#[test]
fn random_index_stays_below_the_bound() {
    assert_eq!(rand_index(0), Ok(0));
    assert_eq!(rand_index(1), Ok(0));
    assert_eq!(MAX_DRAWS, 128);
    let mut seen = [false; 5];
    for _ in 0..400 {
        let i = rand_index(5).unwrap();
        assert!(i < 5);
        seen[i] = true;
    }
    assert!(seen.iter().all(|s| *s));
}

#[test]
fn alphabet_has_capitals_small_letters_and_digits() {
    assert_eq!(alphabet_byte(0), Some(b'A'));
    assert_eq!(alphabet_byte(25), Some(b'Z'));
    assert_eq!(alphabet_byte(26), Some(b'a'));
    assert_eq!(alphabet_byte(51), Some(b'z'));
    assert_eq!(alphabet_byte(52), Some(b'0'));
    assert_eq!(alphabet_byte(61), Some(b'9'));
    assert_eq!(alphabet_byte(62), None);
    assert_eq!(ALPHABET_LEN, 62);
}

#[test]
fn shuffle_with_given_picks_is_exact() {
    let mut data = b"abcd".to_vec();
    // Position 3 with 0, then position 2 with 2, then position 1 with 0.
    assert!(shuffle_with(&mut data, &vec![0, 2, 0]));
    assert_eq!(data, b"bdca".to_vec());

    let mut same = b"abcd".to_vec();
    assert!(shuffle_with(&mut same, &vec![3, 2, 1]));
    assert_eq!(same, b"abcd".to_vec());
}

#[test]
fn shuffle_with_picks_that_do_not_fit_changes_nothing() {
    let mut data = b"abcd".to_vec();
    assert!(!shuffle_with(&mut data, &vec![0, 2]));
    assert!(!shuffle_with(&mut data, &vec![4, 0, 0]));
    assert!(!shuffle_with(&mut data, &vec![0, 3, 0]));
    assert!(!shuffle_with(&mut data, &vec![0, 0, 2]));
    assert_eq!(data, b"abcd".to_vec());
    assert!(check_picks(4, &vec![3, 2, 1]));
    assert!(check_picks(0, &vec![]));
    assert!(check_picks(1, &vec![]));
    assert!(!check_picks(1, &vec![0]));
}

#[test]
fn shuffle_keeps_the_items() {
    let original: Vec<u8> = (0..=255u8).collect();
    let mut data = original.clone();
    assert_eq!(fisher_yates_shuffle(&mut data), Ok(()));
    assert_ne!(data, original);
    let mut sorted = data.clone();
    sorted.sort();
    assert_eq!(sorted, original);

    let mut empty: Vec<u8> = Vec::new();
    assert_eq!(fisher_yates_shuffle(&mut empty), Ok(()));
    let mut one = vec![7u8];
    assert_eq!(fisher_yates_shuffle(&mut one), Ok(()));
    assert_eq!(one, vec![7u8]);
}

#[test]
fn generated_password_has_the_length_and_the_classes() {
    for len in [3usize, 4, 8, 16, 24, 100] {
        for _ in 0..20 {
            let password = generate_password(len).unwrap();
            assert_eq!(password.len(), len);
            assert!(password.bytes().all(|b| b.is_ascii_alphanumeric()));
            assert!(password.bytes().any(|b| b.is_ascii_uppercase()));
            assert!(password.bytes().any(|b| b.is_ascii_lowercase()));
            assert!(password.bytes().any(|b| b.is_ascii_digit()));
        }
    }
}

#[test]
fn short_generated_passwords_take_the_classes_in_turn() {
    assert_eq!(generate_password(0), Ok(String::new()));
    for _ in 0..20 {
        let one = generate_password(1).unwrap();
        assert_eq!(one.len(), 1);
        assert!(one.bytes().all(|b| b.is_ascii_uppercase()));
        let two = generate_password(2).unwrap();
        assert_eq!(two.len(), 2);
        assert!(two.bytes().any(|b| b.is_ascii_uppercase()));
        assert!(two.bytes().any(|b| b.is_ascii_lowercase()));
    }
}

#[test]
fn generated_passwords_differ() {
    assert_ne!(generate_password(16).unwrap(), generate_password(16).unwrap());
}

#[test]
fn id_is_a_version_4_uuid_of_the_bytes() {
    assert_eq!(id_from_bytes(&[0u8; 16]), "00000000-0000-4000-8000-000000000000");
    assert_eq!(id_from_bytes(&[0xffu8; 16]), "ffffffff-ffff-4fff-bfff-ffffffffffff");
    let bytes: [u8; 16] = [
        0x12, 0x34, 0x56, 0x78, 0x9a, 0xbc, 0xde, 0xf0, 0x0f, 0xed, 0xcb, 0xa9, 0x87, 0x65, 0x43,
        0x21,
    ];
    assert_eq!(id_from_bytes(&bytes), "12345678-9abc-4ef0-8fed-cba987654321");
}

#[test]
fn fresh_ids_and_seeds_differ() {
    let a = fresh_id().unwrap();
    let b = fresh_id().unwrap();
    assert_eq!(a.len(), 36);
    assert_ne!(a, b);
    let first = draw_seed().unwrap();
    let second = draw_seed().unwrap();
    assert_ne!(first.id, second.id);
    assert_ne!(first.nonce, second.nonce);
    assert!(first.created_at.contains('T'));
}
