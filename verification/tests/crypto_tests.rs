use aic8800::crypto::{aes_key_unwrap, compute_mic, derive_ptk, pbkdf2_sha1, prf_sha1, slice_lt, Ptk};
use aic8800::selftest::{run_crypto_self_test, run_ptk_test};
use aic8800::wpa2::{generate_snonce, WpaError};

fn hex(s: &str) -> Vec<u8> {
    (0..s.len()).step_by(2).map(|i| u8::from_str_radix(&s[i..i + 2], 16).unwrap()).collect()
}

#[test]
fn pbkdf2_rfc6070_one_iteration() {
    let dk = pbkdf2_sha1(b"password", b"salt", 1, 20);
    assert_eq!(dk, hex("0c60c80f961f0e71f3a9b524af6012062fe037a6"));
}

#[test]
fn pbkdf2_rfc6070_two_iterations() {
    let dk = pbkdf2_sha1(b"password", b"salt", 2, 20);
    assert_eq!(dk, hex("ea6c014dc72d6f8ccd1ed92ace1d41f0d8de8957"));
}

#[test]
fn pbkdf2_rfc6070_4096_iterations() {
    let dk = pbkdf2_sha1(b"password", b"salt", 4096, 20);
    assert_eq!(dk, hex("4b007901b765489abead49d926f721d065a429c1"));
}

#[test]
fn pbkdf2_rfc6070_long_output() {
    let dk = pbkdf2_sha1(b"passwordPASSWORDpassword", b"saltSALTsaltSALTsaltSALTsaltSALTsalt", 4096, 25);
    assert_eq!(dk, hex("3d2eec4fe41c849b80c8d83662c0e44a8b291a964cf2f07038"));
}

#[test]
fn pbkdf2_wpa2_pmk_ieee_vector() {
    let pmk = pbkdf2_sha1(b"password", b"IEEE", 4096, 32);
    assert_eq!(pmk, hex("f42c6fc52df0ebef9ebb4b90b38a5f902e83fe1b135a70e23aed762e9710a12e"));
}

#[test]
fn pbkdf2_zero_length_output() {
    assert!(pbkdf2_sha1(b"password", b"salt", 1, 0).is_empty());
}

#[test]
fn prf512_ieee_vector() {
    let out = prf_sha1(&[0x0b; 20], b"prefix", b"Hi There", 64);
    assert_eq!(
        out,
        hex("bcd4c650b30b9684951829e0d75f9d54b862175ed9f00606e17d8da35402ffee\
             75df78c3d31e0f889f012120c0862beb67753e7439ae242edb8373698356cf5a")
    );
}

#[test]
fn prf_prefix_property() {
    let long = prf_sha1(&[0x0b; 20], b"prefix", b"Hi There", 64);
    let short = prf_sha1(&[0x0b; 20], b"prefix", b"Hi There", 20);
    assert_eq!(short.len(), 20);
    assert_eq!(&long[..20], &short[..]);
}

#[test]
fn slice_lt_orders_lexicographically() {
    assert!(slice_lt(&[0x38, 0x7a], &[0x8c, 0x83]));
    assert!(!slice_lt(&[0x8c, 0x83], &[0x38, 0x7a]));
    assert!(slice_lt(&[1, 2], &[1, 2, 0]));
    assert!(!slice_lt(&[1, 2], &[1, 2]));
}

#[test]
fn ptk_is_symmetric_in_the_two_sides() {
    let pmk = [7u8; 32];
    let aa = [0xa0, 0xa1, 0xa2, 0xa3, 0xa4, 0xa5];
    let spa = [0xb0, 0xb1, 0xb2, 0xb3, 0xb4, 0xb5];
    let an = [0xc0; 32];
    let sn = [0xd0; 32];
    let p1 = derive_ptk(&pmk, &aa, &spa, &an, &sn);
    let p2 = derive_ptk(&pmk, &spa, &aa, &sn, &an);
    assert_eq!(p1.kck, p2.kck);
    assert_eq!(p1.kek, p2.kek);
    assert_eq!(p1.tk, p2.tk);
}

#[test]
fn ptk_matches_prf_over_sorted_inputs() {
    let pmk = hex("f42c6fc52df0ebef9ebb4b90b38a5f902e83fe1b135a70e23aed762e9710a12e");
    let mut pmk_a = [0u8; 32];
    pmk_a.copy_from_slice(&pmk);
    let aa = [0xa0, 0xa1, 0xa2, 0xa3, 0xa4, 0xa5];
    let spa = [0xb0, 0xb1, 0xb2, 0xb3, 0xb4, 0xb5];
    let an = [0xe0; 32];
    let sn = [0xc0; 32];
    let p = derive_ptk(&pmk_a, &aa, &spa, &an, &sn);
    let mut data = Vec::new();
    data.extend_from_slice(&aa);
    data.extend_from_slice(&spa);
    data.extend_from_slice(&sn);
    data.extend_from_slice(&an);
    let out = prf_sha1(&pmk_a, b"Pairwise key expansion", &data, 48);
    assert_eq!(&out[0..16], &p.kck);
    assert_eq!(&out[16..32], &p.kek);
    assert_eq!(&out[32..48], &p.tk);
}

#[test]
fn ptk_from_bytes_splits_in_three() {
    let mut b = [0u8; 48];
    for (i, x) in b.iter_mut().enumerate() {
        *x = i as u8;
    }
    let p = Ptk::from_bytes(&b);
    assert_eq!(p.kck[0], 0);
    assert_eq!(p.kek[0], 16);
    assert_eq!(p.tk[15], 47);
}

#[test]
fn mic_is_hmac_sha1_truncated_rfc2202() {
    // RFC 2202 test case 2: key "Jefe", data "what do ya want for nothing?".
    let mic = compute_mic(b"Jefe", b"what do ya want for nothing?");
    assert_eq!(mic.to_vec(), hex("effcdf6ae5eb2fa2d27416d5f184df9c"));
}

#[test]
fn aes_unwrap_rfc3394_vector() {
    let kek = hex("000102030405060708090A0B0C0D0E0F");
    let wrapped = hex("1FA68B0A8112B447AEF34BD8FB5A7B829D3E862371D2CFE5");
    let plain = aes_key_unwrap(&kek, &wrapped).unwrap();
    assert_eq!(plain, hex("00112233445566778899AABBCCDDEEFF"));
}

#[test]
fn aes_unwrap_rejects_corrupted_data() {
    let kek = hex("000102030405060708090A0B0C0D0E0F");
    let mut wrapped = hex("1FA68B0A8112B447AEF34BD8FB5A7B829D3E862371D2CFE5");
    wrapped[5] ^= 1;
    assert_eq!(aes_key_unwrap(&kek, &wrapped), Err(WpaError::AesUnwrapFailed));
}

#[test]
fn aes_unwrap_rejects_bad_lengths() {
    let kek = [0u8; 16];
    assert_eq!(aes_key_unwrap(&kek, &[0u8; 8]), Err(WpaError::AesUnwrapFailed));
    assert_eq!(aes_key_unwrap(&kek, &[0u8; 20]), Err(WpaError::AesUnwrapFailed));
}

#[test]
fn snonce_depends_on_timestamp() {
    let a = generate_snonce(1);
    let b = generate_snonce(2);
    assert_ne!(a, b);
    assert_eq!(generate_snonce(1), a);
}

#[test]
fn crypto_self_test_passes_with_distinct_timestamps() {
    assert!(run_crypto_self_test(1_000, 2_000));
}

#[test]
fn crypto_self_test_fails_with_equal_timestamps() {
    assert!(!run_crypto_self_test(5, 5));
}

#[test]
fn ptk_self_test_reports_prf_table_mismatch() {
    // The built-in PRF-512 table disagrees with the computed PRF in its last
    // twelve bytes, so the self-test reports a failure.
    assert!(!run_ptk_test());
}

#[test]
fn prf_output_is_prefix_of_longer_output() {
    let long = prf_sha1(b"key", b"label", b"data", 100);
    for m in [0usize, 1, 19, 20, 21, 48, 64, 99] {
        assert_eq!(prf_sha1(b"key", b"label", b"data", m), long[..m].to_vec());
    }
}
