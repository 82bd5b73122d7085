//! Start-up self tests of the WPA2 cryptography against published test
//! vectors (RFC 6070, IEEE 802.11i, RFC 2202) and of the frame builders.

use vstd::prelude::*;

use crate::crypto::{
    MIC_LEN, bytes_lt, compute_mic, derive_ptk, hmac_sha1, hmac_sha1_spec, mic_spec, pbkdf2_sha1,
    pbkdf2_spec, prf_sha1, prf_spec, ptk_label, ptk_spec, slice_lt,
};
use crate::eapol::{
    EAPOL_VERSION, KEY_INFO_MIC, KEY_INFO_PAIRWISE, KEY_INFO_TYPE_HMAC_SHA1_AES, MIC_OFFSET,
    be16, build_eapol_key_frame, clear_mic, eapol_key_frame, lemma_clear_with_mic, lemma_eapol_build_parse,
    with_mic, zeros,
};
use crate::wpa2::{bytes_eq, generate_snonce, kck_of, snonce_spec};

verus! {

// ------------------------------------------------------------------
// Test vectors
// ------------------------------------------------------------------

/// `"password"`.
pub open spec fn password() -> Seq<u8> {
    seq![0x70u8, 0x61, 0x73, 0x73, 0x77, 0x6f, 0x72, 0x64]
}

/// `"salt"`.
pub open spec fn salt() -> Seq<u8> {
    seq![0x73u8, 0x61, 0x6c, 0x74]
}

/// `"IEEE"`.
pub open spec fn ieee() -> Seq<u8> {
    seq![0x49u8, 0x45, 0x45, 0x45]
}

/// `"Hi There"`.
pub open spec fn hi_there() -> Seq<u8> {
    seq![0x48u8, 0x69, 0x20, 0x54, 0x68, 0x65, 0x72, 0x65]
}

/// `"prefix"`.
pub open spec fn prefix() -> Seq<u8> {
    seq![0x70u8, 0x72, 0x65, 0x66, 0x69, 0x78]
}

/// RFC 6070: PBKDF2-HMAC-SHA1("password", "salt", 4096, 20).
pub open spec fn rfc6070_dk() -> Seq<u8> {
    seq![0x4bu8, 0x00, 0x79, 0x01, 0xb7, 0x65, 0x48, 0x9a, 0xbe, 0xad, 0x49, 0xd9, 0x26, 0xf7, 0x21, 0xd0,
        0x65, 0xa4, 0x29, 0xc1]
}

/// IEEE 802.11i: the PMK of SSID "IEEE" with passphrase "password".
pub open spec fn ieee_pmk() -> Seq<u8> {
    seq![0xf4u8, 0x2c, 0x6f, 0xc5, 0x2d, 0xf0, 0xeb, 0xef, 0x9e, 0xbb, 0x4b, 0x90, 0xb3, 0x8a, 0x5f, 0x90,
        0x2e, 0x83, 0xfe, 0x1b, 0x13, 0x5a, 0x70, 0xe2, 0x3a, 0xed, 0x76, 0x2e, 0x97, 0x10, 0xa1, 0x2e]
}

/// RFC 2202 test case 1: HMAC-SHA1 of "Hi There" under twenty 0x0b bytes.
pub open spec fn rfc2202_mac() -> Seq<u8> {
    seq![0xb6u8, 0x17, 0x31, 0x86, 0x55, 0x05, 0x72, 0x64, 0xe2, 0x8b, 0xc0, 0xb6, 0xfb, 0x37, 0x8c, 0x8e,
        0xf1, 0x46, 0xbe, 0x00]
}

/// IEEE 802.11i: PRF-512 of "Hi There" under twenty 0x0b bytes, prefix "prefix".
pub open spec fn prf512_vector() -> Seq<u8> {
    seq![0xbcu8, 0xd4, 0xc6, 0x50, 0xb3, 0x0b, 0x96, 0x84, 0x95, 0x18, 0x29, 0xe0, 0xd7, 0x5f, 0x9d, 0x54,
        0xb8, 0x62, 0x17, 0x5e, 0xd9, 0xf0, 0x06, 0x06, 0xe1, 0x7d, 0x8d, 0xa3, 0x54, 0x02, 0xff, 0xee,
        0x75, 0xdf, 0x78, 0xc3, 0xd3, 0x1e, 0x0f, 0x88, 0x9f, 0x01, 0x21, 0x20, 0xc0, 0x86, 0x2b, 0xeb,
        0x67, 0x75, 0x3e, 0x74, 0x07, 0x30, 0x78, 0x41, 0x19, 0xb0, 0xb1, 0xef, 0x6c, 0x1c, 0x2e, 0x7f]
}

/// The replay counter 1.
pub open spec fn replay_one() -> Seq<u8> {
    seq![0u8, 0, 0, 0, 0, 0, 0, 1]
}

fn password_bytes() -> (b: [u8; 8])
    ensures
        b@ == password(),
{
    let b: [u8; 8] = [0x70, 0x61, 0x73, 0x73, 0x77, 0x6f, 0x72, 0x64];
    assert(b@ =~= password());
    b
}

fn hi_there_bytes() -> (b: [u8; 8])
    ensures
        b@ == hi_there(),
{
    let b: [u8; 8] = [0x48, 0x69, 0x20, 0x54, 0x68, 0x65, 0x72, 0x65];
    assert(b@ =~= hi_there());
    b
}

fn replay_one_bytes() -> (b: [u8; 8])
    ensures
        b@ == replay_one(),
{
    let b: [u8; 8] = [0, 0, 0, 0, 0, 0, 0, 1];
    assert(b@ =~= replay_one());
    b
}

/// Whether `s` is all zero bytes.
pub fn all_zero(s: &[u8]) -> (r: bool)
    ensures
        r == (s@ == zeros(s@.len())),
{
    let mut i: usize = 0;
    while i < s.len()
        invariant
            i <= s.len(),
            forall|k: int| 0 <= k < i ==> s@[k] == 0,
        decreases s.len() - i,
    {
        if s[i] != 0 {
            assert(s@[i as int] != zeros(s@.len())[i as int]);
            return false;
        }
        i = i + 1;
    }
    assert(s@ =~= zeros(s@.len()));
    true
}

/// What the crypto self test reports for SNonce timestamps `ts1` and `ts2`:
/// the RFC 6070 PBKDF2 vector, the IEEE 802.11i PMK, the RFC 2202 HMAC
/// vector, and two different SNonces.  (The M2 structure check always
/// passes.)
pub open spec fn crypto_self_test_passes(ts1: u64, ts2: u64) -> bool {
    &&& pbkdf2_spec(password(), salt(), 4096, 20) == rfc6070_dk()
    &&& pbkdf2_spec(password(), ieee(), 4096, 32) == ieee_pmk()
    &&& hmac_sha1_spec(Seq::new(20, |i: int| 0x0bu8), hi_there()) == rfc2202_mac()
    &&& snonce_spec(ts1) != snonce_spec(ts2)
}

/// Byte layout of an M2-style frame (key info 0x010A, no key length) with
/// 22 bytes of key data.
proof fn lemma_m2_layout(replay: Seq<u8>, nonce: Seq<u8>, kd: Seq<u8>)
    requires
        replay.len() == 8,
        nonce.len() == 32,
        kd.len() == 22,
    ensures
        ({
            let e = eapol_key_frame(0x010A, 0, replay, nonce, kd);
            &&& e.len() == 121
            &&& e[0] == EAPOL_VERSION && e[1] == 0x03 && e[2] == 0 && e[3] == 117 && e[4] == 0x02
            &&& e[5] == 0x01 && e[6] == 0x0A && e[7] == 0 && e[8] == 0
            &&& e.subrange(9, 17) == replay
            &&& e.subrange(81, 97) == zeros(16)
            &&& e[97] == 0 && e[98] == 22
            &&& e.subrange(99, 121) == kd
        }),
{
    let e = eapol_key_frame(0x010A, 0, replay, nonce, kd);
    assert(be16(117) =~= seq![0u8, 117]);
    assert(be16(0x010A) =~= seq![1u8, 0x0A]);
    assert(be16(0) =~= seq![0u8, 0]);
    assert(be16(22) =~= seq![0u8, 22]);
    let head = seq![EAPOL_VERSION, 0x03u8, 0, 117, 0x02, 0x01, 0x0A, 0, 0];
    let tail = seq![0u8, 22];
    assert(e =~= head + replay + nonce + zeros(48) + tail + kd);
    let t = head + replay + nonce + zeros(48) + tail + kd;
    assert(t.subrange(9, 17) =~= replay);
    assert(t.subrange(81, 97) =~= zeros(16));
    assert(t.subrange(99, 121) =~= kd);
}

/// The M2 built with `rsn_ie` and replay counter 1 has the expected
/// layout: version 1, type 3, body length, RSN descriptor, key info
/// 0x010A, key length 0, the replay counter, a zero MIC, key data length
/// and the RSN IE, 121 bytes in all.
fn check_m2_structure() -> (pass: bool)
    ensures
        pass,
{
    let replay = replay_one_bytes();
    let nonce = [0x42u8; 32];
    let rsn_ie: [u8; 22] = [0x30, 0x14, 0x01, 0x00, 0x00, 0x0f, 0xac, 0x04, 0x01, 0x00, 0x00, 0x0f, 0xac, 0x04,
        0x01, 0x00, 0x00, 0x0f, 0xac, 0x02, 0x0c, 0x00];
    let key_info: u16 = KEY_INFO_TYPE_HMAC_SHA1_AES | KEY_INFO_PAIRWISE | KEY_INFO_MIC;
    assert(key_info == 0x010A) by (bit_vector)
        requires
            key_info == 0x0002u16 | 0x0008u16 | 0x0100u16,
    ;
    let m2 = build_eapol_key_frame(key_info, 0, &replay, &nonce, &rsn_ie);
    proof {
        lemma_m2_layout(replay@, nonce@, rsn_ie@);
    }
    let mut pass = true;
    if m2[0] != EAPOL_VERSION || m2[1] != 0x03 || m2[4] != 0x02 {
        pass = false;
    }
    let body_len = (m2[2] as u16) * 256 + m2[3] as u16;
    if body_len != 117 {
        pass = false;
    }
    let ki = (m2[5] as u16) * 256 + m2[6] as u16;
    if ki != 0x010A {
        pass = false;
    }
    let kl = (m2[7] as u16) * 256 + m2[8] as u16;
    if kl != 0 {
        pass = false;
    }
    let rc = vstd::slice::slice_subrange(m2.as_slice(), 9, 17);
    if !bytes_eq(rc, &replay) {
        pass = false;
    }
    let mic = vstd::slice::slice_subrange(m2.as_slice(), 81, 97);
    if !all_zero(mic) {
        pass = false;
    }
    let kdl = (m2[97] as u16) * 256 + m2[98] as u16;
    if kdl != 22 {
        pass = false;
    }
    let kd = vstd::slice::slice_subrange(m2.as_slice(), 99, 121);
    if !bytes_eq(kd, &rsn_ie) {
        pass = false;
    }
    if m2.len() != 121 {
        pass = false;
    }
    pass
}

/// Runs the crypto self tests.  `ts1` and `ts2` are the two monotonic
/// timestamps (nanoseconds) the SNonce uniqueness check derives from.
pub fn run_crypto_self_test(ts1: u64, ts2: u64) -> (r: bool)
    ensures
        r == crypto_self_test_passes(ts1, ts2),
{
    let mut all_pass = true;
    let pw = password_bytes();

    // PBKDF2-SHA1, RFC 6070, c = 4096.
    let salt_b: [u8; 4] = [0x73, 0x61, 0x6c, 0x74];
    assert(salt_b@ =~= salt());
    let dk = pbkdf2_sha1(&pw, &salt_b, 4096, 20);
    let exp1: [u8; 20] = [0x4b, 0x00, 0x79, 0x01, 0xb7, 0x65, 0x48, 0x9a, 0xbe, 0xad, 0x49, 0xd9, 0x26, 0xf7,
        0x21, 0xd0, 0x65, 0xa4, 0x29, 0xc1];
    assert(exp1@ =~= rfc6070_dk());
    if !bytes_eq(dk.as_slice(), &exp1) {
        all_pass = false;
    }

    // WPA2-PSK PMK of SSID "IEEE".
    let ssid_b: [u8; 4] = [0x49, 0x45, 0x45, 0x45];
    assert(ssid_b@ =~= ieee());
    let pmk = pbkdf2_sha1(&pw, &ssid_b, 4096, 32);
    let exp2: [u8; 32] = [0xf4, 0x2c, 0x6f, 0xc5, 0x2d, 0xf0, 0xeb, 0xef, 0x9e, 0xbb, 0x4b, 0x90, 0xb3, 0x8a,
        0x5f, 0x90, 0x2e, 0x83, 0xfe, 0x1b, 0x13, 0x5a, 0x70, 0xe2, 0x3a, 0xed, 0x76, 0x2e, 0x97, 0x10, 0xa1, 0x2e];
    assert(exp2@ =~= ieee_pmk());
    if !bytes_eq(pmk.as_slice(), &exp2) {
        all_pass = false;
    }

    // HMAC-SHA1, RFC 2202 case 1.
    let key = [0x0bu8; 20];
    assert(key@ =~= Seq::new(20, |i: int| 0x0bu8));
    let data = hi_there_bytes();
    let mac = hmac_sha1(&key, &data);
    let exp4: [u8; 20] = [0xb6, 0x17, 0x31, 0x86, 0x55, 0x05, 0x72, 0x64, 0xe2, 0x8b, 0xc0, 0xb6, 0xfb, 0x37,
        0x8c, 0x8e, 0xf1, 0x46, 0xbe, 0x00];
    assert(exp4@ =~= rfc2202_mac());
    if !bytes_eq(&mac, &exp4) {
        all_pass = false;
    }

    // SNonce uniqueness.
    let sn1 = generate_snonce(ts1);
    let sn2 = generate_snonce(ts2);
    if bytes_eq(&sn1, &sn2) {
        all_pass = false;
    }

    // M2 frame structure.
    if !check_m2_structure() {
        all_pass = false;
    }
    all_pass
}

// ------------------------------------------------------------------
// PTK test
// ------------------------------------------------------------------

/// AA of the PTK derivation vector.
pub open spec fn ptk_test_aa() -> Seq<u8> {
    seq![0xa0u8, 0xa1, 0xa2, 0xa3, 0xa4, 0xa5]
}

/// SPA of the PTK derivation vector.
pub open spec fn ptk_test_spa() -> Seq<u8> {
    seq![0xb0u8, 0xb1, 0xb2, 0xb3, 0xb4, 0xb5]
}

/// ANonce of the PTK derivation vector.
pub open spec fn ptk_test_anonce() -> Seq<u8> {
    seq![0xe0u8, 0xe1, 0xe2, 0xe3, 0xe4, 0xe5, 0xe6, 0xe7, 0xe8, 0xe9, 0xf0, 0xf1, 0xf2, 0xf3, 0xf4, 0xf5,
        0xe0, 0xe1, 0xe2, 0xe3, 0xe4, 0xe5, 0xe6, 0xe7, 0xe8, 0xe9, 0xf0, 0xf1, 0xf2, 0xf3, 0xf4, 0xf5]
}

/// SNonce of the PTK derivation vector.
pub open spec fn ptk_test_snonce() -> Seq<u8> {
    seq![0xc0u8, 0xc1, 0xc2, 0xc3, 0xc4, 0xc5, 0xc6, 0xc7, 0xc8, 0xc9, 0xd0, 0xd1, 0xd2, 0xd3, 0xd4, 0xd5,
        0xc0, 0xc1, 0xc2, 0xc3, 0xc4, 0xc5, 0xc6, 0xc7, 0xc8, 0xc9, 0xd0, 0xd1, 0xd2, 0xd3, 0xd4, 0xd5]
}

/// RSN IE of the MIC check.
pub open spec fn ptk_test_rsn_ie() -> Seq<u8> {
    seq![0x30u8, 0x14, 0x01, 0x00, 0x00, 0x0f, 0xac, 0x04, 0x01, 0x00, 0x00, 0x0f, 0xac, 0x04, 0x01, 0x00,
        0x00, 0x0f, 0xac, 0x02, 0x00, 0x00]
}

/// The KCK derived from the IEEE PMK and the vector's addresses and nonces.
pub open spec fn ptk_test_kck() -> Seq<u8> {
    kck_of(ptk_spec(ieee_pmk(), ptk_test_aa(), ptk_test_spa(), ptk_test_anonce(), ptk_test_snonce()))
}

/// What the PTK test reports: the PRF-512 vector, the IEEE PMK, and a
/// non-zero MIC over the test M2.  (The PTK consistency, MIC round trip,
/// address order and PRF-384 length checks always pass.)
pub open spec fn ptk_test_passes() -> bool {
    &&& prf_spec(Seq::new(20, |i: int| 0x0bu8), prefix(), hi_there(), 64) == prf512_vector()
    &&& pbkdf2_spec(password(), ieee(), 4096, 32) == ieee_pmk()
    &&& mic_spec(ptk_test_kck(), eapol_key_frame(0x010A, 0, replay_one(), ptk_test_snonce(), ptk_test_rsn_ie())) != zeros(16)
}

/// Runs the PRF and PTK tests on the IEEE 802.11i vectors.
pub fn run_ptk_test() -> (r: bool)
    ensures
        r == ptk_test_passes(),
{
    let mut all_pass = true;

    // PRF-512 vector.
    let key = [0x0bu8; 20];
    assert(key@ =~= Seq::new(20, |i: int| 0x0bu8));
    let prefix_b: [u8; 6] = [0x70, 0x72, 0x65, 0x66, 0x69, 0x78];
    assert(prefix_b@ =~= prefix());
    let data = hi_there_bytes();
    let expected: [u8; 64] = [0xbc, 0xd4, 0xc6, 0x50, 0xb3, 0x0b, 0x96, 0x84, 0x95, 0x18, 0x29, 0xe0, 0xd7,
        0x5f, 0x9d, 0x54, 0xb8, 0x62, 0x17, 0x5e, 0xd9, 0xf0, 0x06, 0x06, 0xe1, 0x7d, 0x8d, 0xa3, 0x54, 0x02,
        0xff, 0xee, 0x75, 0xdf, 0x78, 0xc3, 0xd3, 0x1e, 0x0f, 0x88, 0x9f, 0x01, 0x21, 0x20, 0xc0, 0x86, 0x2b,
        0xeb, 0x67, 0x75, 0x3e, 0x74, 0x07, 0x30, 0x78, 0x41, 0x19, 0xb0, 0xb1, 0xef, 0x6c, 0x1c, 0x2e, 0x7f];
    assert(expected@ =~= prf512_vector());
    let result = prf_sha1(&key, &prefix_b, &data, 64);
    if !bytes_eq(result.as_slice(), &expected) {
        all_pass = false;
    }

    // PMK of SSID "IEEE".
    let pw = password_bytes();
    let ssid_b: [u8; 4] = [0x49, 0x45, 0x45, 0x45];
    assert(ssid_b@ =~= ieee());
    let pmk_vec = pbkdf2_sha1(&pw, &ssid_b, 4096, 32);
    let pmk: [u8; 32] = [0xf4, 0x2c, 0x6f, 0xc5, 0x2d, 0xf0, 0xeb, 0xef, 0x9e, 0xbb, 0x4b, 0x90, 0xb3, 0x8a,
        0x5f, 0x90, 0x2e, 0x83, 0xfe, 0x1b, 0x13, 0x5a, 0x70, 0xe2, 0x3a, 0xed, 0x76, 0x2e, 0x97, 0x10, 0xa1, 0x2e];
    assert(pmk@ =~= ieee_pmk());
    if !bytes_eq(pmk_vec.as_slice(), &pmk) {
        all_pass = false;
    }

    // PTK derivation, once through derive_ptk and once by hand.
    if !ptk_consistency_check(&pmk) {
        all_pass = false;
    }

    // MIC over a test M2.
    if !mic_check(&pmk) {
        all_pass = false;
    }

    // Address order: SPA (38:..) sorts before AA (8c:..).
    if !addr_order_check() {
        all_pass = false;
    }

    // PRF-384 output length.
    let key2 = [0xAAu8; 32];
    let label2: [u8; 10] = [0x74, 0x65, 0x73, 0x74, 0x20, 0x6c, 0x61, 0x62, 0x65, 0x6c];
    let data2: [u8; 9] = [0x74, 0x65, 0x73, 0x74, 0x20, 0x64, 0x61, 0x74, 0x61];
    let out = prf_sha1(&key2, &label2, &data2, 48);
    if out.len() != 48 {
        all_pass = false;
    }
    all_pass
}

fn ptk_test_vectors() -> (r: ([u8; 6], [u8; 6], [u8; 32], [u8; 32]))
    ensures
        r.0@ == ptk_test_aa(),
        r.1@ == ptk_test_spa(),
        r.2@ == ptk_test_anonce(),
        r.3@ == ptk_test_snonce(),
{
    let aa: [u8; 6] = [0xa0, 0xa1, 0xa2, 0xa3, 0xa4, 0xa5];
    let spa: [u8; 6] = [0xb0, 0xb1, 0xb2, 0xb3, 0xb4, 0xb5];
    let anonce: [u8; 32] = [0xe0, 0xe1, 0xe2, 0xe3, 0xe4, 0xe5, 0xe6, 0xe7, 0xe8, 0xe9, 0xf0, 0xf1, 0xf2, 0xf3,
        0xf4, 0xf5, 0xe0, 0xe1, 0xe2, 0xe3, 0xe4, 0xe5, 0xe6, 0xe7, 0xe8, 0xe9, 0xf0, 0xf1, 0xf2, 0xf3, 0xf4, 0xf5];
    let snonce: [u8; 32] = [0xc0, 0xc1, 0xc2, 0xc3, 0xc4, 0xc5, 0xc6, 0xc7, 0xc8, 0xc9, 0xd0, 0xd1, 0xd2, 0xd3,
        0xd4, 0xd5, 0xc0, 0xc1, 0xc2, 0xc3, 0xc4, 0xc5, 0xc6, 0xc7, 0xc8, 0xc9, 0xd0, 0xd1, 0xd2, 0xd3, 0xd4, 0xd5];
    assert(aa@ =~= ptk_test_aa());
    assert(spa@ =~= ptk_test_spa());
    assert(anonce@ =~= ptk_test_anonce());
    assert(snonce@ =~= ptk_test_snonce());
    (aa, spa, anonce, snonce)
}

/// `derive_ptk` agrees with the PRF over `AA || SPA || SNonce || ANonce`
/// (AA sorts before SPA, SNonce before ANonce).
fn ptk_consistency_check(pmk: &[u8; 32]) -> (pass: bool)
    ensures
        pass,
{
    let (aa, spa, anonce, snonce) = ptk_test_vectors();
    let ptk_a = derive_ptk(pmk, &aa, &spa, &anonce, &snonce);
    let mut data = [0u8; 76];
    crate::crypto::copy_into(&mut data, 0, &aa, 0, 6);
    crate::crypto::copy_into(&mut data, 6, &spa, 0, 6);
    crate::crypto::copy_into(&mut data, 12, &snonce, 0, 32);
    crate::crypto::copy_into(&mut data, 44, &anonce, 0, 32);
    let label = crate::crypto::ptk_label_bytes();
    let ptk_b = prf_sha1(pmk, &label, &data, 48);
    proof {
        assert(bytes_lt(aa@, spa@));
        assert(!bytes_lt(anonce@, snonce@));
        assert(data@ =~= aa@ + spa@ + snonce@ + anonce@);
        assert(crate::crypto::ptk_data(aa@, spa@, anonce@, snonce@) =~= data@);
    }
    let b = ptk_b.as_slice();
    let ok = bytes_eq(&ptk_a.kck, vstd::slice::slice_subrange(b, 0, 16))
        && bytes_eq(&ptk_a.kek, vstd::slice::slice_subrange(b, 16, 32))
        && bytes_eq(&ptk_a.tk, vstd::slice::slice_subrange(b, 32, 48));
    proof {
        assert(ptk_a.kck@ =~= ptk_a.bytes().subrange(0, 16));
        assert(ptk_a.kek@ =~= ptk_a.bytes().subrange(16, 32));
        assert(ptk_a.tk@ =~= ptk_a.bytes().subrange(32, 48));
    }
    ok
}

/// The MIC over the test M2 is non-zero, and setting it then clearing the
/// field and recomputing gives it back.
fn mic_check(pmk: &[u8; 32]) -> (pass: bool)
    requires
        pmk@ == ieee_pmk(),
    ensures
        pass == (mic_spec(ptk_test_kck(), eapol_key_frame(0x010A, 0, replay_one(), ptk_test_snonce(), ptk_test_rsn_ie())) != zeros(16)),
{
    let (aa, spa, anonce, snonce) = ptk_test_vectors();
    let ptk_a = derive_ptk(pmk, &aa, &spa, &anonce, &snonce);
    assert(ptk_a.kck@ =~= ptk_test_kck());
    let rsn_ie: [u8; 22] = [0x30, 0x14, 0x01, 0x00, 0x00, 0x0f, 0xac, 0x04, 0x01, 0x00, 0x00, 0x0f, 0xac, 0x04,
        0x01, 0x00, 0x00, 0x0f, 0xac, 0x02, 0x00, 0x00];
    assert(rsn_ie@ =~= ptk_test_rsn_ie());
    let replay = replay_one_bytes();
    let key_info: u16 = KEY_INFO_TYPE_HMAC_SHA1_AES | KEY_INFO_PAIRWISE | KEY_INFO_MIC;
    assert(key_info == 0x010A) by (bit_vector)
        requires
            key_info == 0x0002u16 | 0x0008u16 | 0x0100u16,
    ;
    let mut m2 = build_eapol_key_frame(key_info, 0, &replay, &snonce, &rsn_ie);
    proof { lemma_eapol_build_parse(key_info, 0, replay@, snonce@, rsn_ie@); }
    let ghost frame = m2@;
    let mic = compute_mic(&ptk_a.kck, m2.as_slice());
    let mut pass = true;
    if all_zero(&mic) {
        pass = false;
    }
    copy_into_vec(&mut m2, MIC_OFFSET, &mic);
    proof { lemma_clear_with_mic(frame, mic@); }
    assert(m2@ =~= with_mic(frame, mic@));
    let mut m2_verify = m2.clone();
    let zero_mic = [0u8; 16];
    copy_into_vec(&mut m2_verify, MIC_OFFSET, &zero_mic);
    assert(m2_verify@ =~= clear_mic(with_mic(frame, mic@)));
    let mic2 = compute_mic(&ptk_a.kck, m2_verify.as_slice());
    if !bytes_eq(&mic, &mic2) {
        pass = false;
    }
    pass
}

/// Overwrites `v[at..at + src.len()]` with `src`.
fn copy_into_vec(v: &mut Vec<u8>, at: usize, src: &[u8])
    requires
        at + src@.len() <= old(v)@.len(),
    ensures
        final(v)@ == old(v)@.subrange(0, at as int) + src@ + old(v)@.subrange((at + src@.len()) as int, old(v)@.len() as int),
{
    let mut i: usize = 0;
    while i < src.len()
        invariant
            i <= src.len(),
            at + src.len() <= v.len(),
            v@.len() == old(v)@.len(),
            forall|k: int| 0 <= k < at ==> v@[k] == old(v)@[k],
            forall|k: int| at + src@.len() <= k < v@.len() ==> v@[k] == old(v)@[k],
            forall|k: int| at <= k < at + i ==> v@[k] == src@[k - at],
            forall|k: int| at + i <= k < at + src@.len() ==> v@[k] == old(v)@[k],
        decreases src.len() - i,
    {
        v.set(at + i, src[i]);
        i = i + 1;
    }
    assert(v@ =~= old(v)@.subrange(0, at as int) + src@ + old(v)@.subrange((at + src@.len()) as int, old(v)@.len() as int));
}

/// For the logged addresses AA = 8c:83:e8:26:59:08 and SPA =
/// 38:7a:cc:94:2d:2c, SPA sorts first.
fn addr_order_check() -> (pass: bool)
    ensures
        pass,
{
    let aa: [u8; 6] = [0x8c, 0x83, 0xe8, 0x26, 0x59, 0x08];
    let spa: [u8; 6] = [0x38, 0x7a, 0xcc, 0x94, 0x2d, 0x2c];
    let aa_first = slice_lt(&aa, &spa);
    assert(!bytes_lt(aa@, spa@));
    if aa_first {
        bytes_eq(&aa, &spa) && bytes_eq(&spa, &aa)
    } else {
        bytes_eq(&spa, &spa) && bytes_eq(&aa, &aa)
    }
}

} // verus!
