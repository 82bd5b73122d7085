use aes::cipher::{generic_array::GenericArray, BlockEncrypt, KeyInit};
use aes::Aes128;

use aic8800::crypto::{compute_mic, derive_ptk, pbkdf2_sha1};
use aic8800::eapol::{build_eapol_key_frame, parse_eapol_key_header, parse_gtk_kde, MIC_OFFSET};
use aic8800::wpa2::{HandshakeAction, HandshakeState, Wpa2Handshake, WpaError};

const AA: [u8; 6] = [0x8c, 0x83, 0xe8, 0x26, 0x59, 0x08];
const SPA: [u8; 6] = [0x38, 0x7a, 0xcc, 0x94, 0x2d, 0x2c];
const RSN_IE: [u8; 22] = [
    0x30, 0x14, 0x01, 0x00, 0x00, 0x0f, 0xac, 0x04, 0x01, 0x00, 0x00, 0x0f, 0xac, 0x04, 0x01, 0x00, 0x00, 0x0f,
    0xac, 0x02, 0x0c, 0x00,
];

fn wrap(kek: &[u8], plain: &[u8]) -> Vec<u8> {
    let cipher = Aes128::new(GenericArray::from_slice(kek));
    let n = plain.len() / 8;
    let mut a = [0xA6u8; 8];
    let mut r: Vec<[u8; 8]> = plain.chunks(8).map(|c| c.try_into().unwrap()).collect();
    for j in 0..6 {
        for i in 0..n {
            let mut b = [0u8; 16];
            b[..8].copy_from_slice(&a);
            b[8..].copy_from_slice(&r[i]);
            let mut blk = GenericArray::clone_from_slice(&b);
            cipher.encrypt_block(&mut blk);
            let t = (n * j + i + 1) as u64;
            a.copy_from_slice(&blk[..8]);
            for (k, x) in t.to_be_bytes().iter().enumerate() {
                a[k] ^= x;
            }
            r[i].copy_from_slice(&blk[8..]);
        }
    }
    let mut out = a.to_vec();
    for c in r {
        out.extend_from_slice(&c);
    }
    out
}

fn pmk() -> [u8; 32] {
    let v = pbkdf2_sha1(b"uuux5cfj", b"CU_Q2aa", 4096, 32);
    let mut p = [0u8; 32];
    p.copy_from_slice(&v);
    p
}

fn new_handshake() -> Wpa2Handshake {
    Wpa2Handshake::new(b"uuux5cfj", b"CU_Q2aa", &AA, &SPA, &RSN_IE, 123_456_789)
}

fn m1(anonce: &[u8; 32], replay: u8) -> Vec<u8> {
    let mut rc = [0u8; 8];
    rc[7] = replay;
    build_eapol_key_frame(0x008A, 16, &rc, anonce, &[])
}

fn sign(kck: &[u8], frame: &mut Vec<u8>) {
    let mic = compute_mic(kck, frame);
    frame[MIC_OFFSET..MIC_OFFSET + 16].copy_from_slice(&mic);
}

fn mic_ok(kck: &[u8], frame: &[u8]) -> bool {
    let mut z = frame.to_vec();
    z[MIC_OFFSET..MIC_OFFSET + 16].fill(0);
    compute_mic(kck, &z)[..] == frame[MIC_OFFSET..MIC_OFFSET + 16]
}

#[test]
fn full_four_way_handshake() {
    let anonce = [0x5au8; 32];
    let mut h = new_handshake();
    assert_eq!(h.state, HandshakeState::Idle);

    // M1 -> M2
    let m2 = match h.process_eapol(&m1(&anonce, 1)) {
        Ok(HandshakeAction::SendM2(m2)) => m2,
        _ => panic!("expected M2"),
    };
    assert_eq!(h.state, HandshakeState::M2Sent);
    assert_eq!(h.current_state(), HandshakeState::M2Sent);
    let hdr = parse_eapol_key_header(&m2).unwrap();
    assert_eq!(hdr.key_info, 0x010A);
    assert_eq!(hdr.replay_counter, [0, 0, 0, 0, 0, 0, 0, 1]);
    assert_eq!(hdr.key_data, RSN_IE.to_vec());
    let mut snonce = [0u8; 32];
    snonce.copy_from_slice(&m2[17..49]);
    let ptk = derive_ptk(&pmk(), &AA, &SPA, &anonce, &snonce);
    assert!(mic_ok(&ptk.kck, &m2));

    // M3 with a wrapped GTK KDE -> completed
    let gtk = [0x11u8; 16];
    let mut kde = vec![0xDD, 22, 0x00, 0x0F, 0xAC, 0x01, 0x02, 0x00];
    kde.extend_from_slice(&gtk);
    let wrapped = wrap(&ptk.kek, &kde);
    let rc = [0, 0, 0, 0, 0, 0, 0, 2];
    let mut m3 = build_eapol_key_frame(0x13CA, 16, &rc, &anonce, &wrapped);
    sign(&ptk.kck, &mut m3);
    let result = match h.process_eapol(&m3) {
        Ok(HandshakeAction::Completed(r)) => r,
        other => panic!("expected completion, got {:?}", other.err()),
    };
    assert_eq!(h.state, HandshakeState::Completed);
    assert_eq!(result.gtk, gtk.to_vec());
    assert_eq!(result.gtk_key_idx, 2);
    assert_eq!(result.tk, ptk.tk);
    let m4 = parse_eapol_key_header(&result.m4_frame).unwrap();
    assert_eq!(m4.key_info, 0x030A);
    assert_eq!(m4.replay_counter, rc);
    assert_eq!(m4.key_data_len, 0);
    assert!(mic_ok(&ptk.kck, &result.m4_frame));
}

#[test]
fn m3_before_m1_is_invalid_state() {
    let mut h = new_handshake();
    let rc = [0, 0, 0, 0, 0, 0, 0, 2];
    let m3 = build_eapol_key_frame(0x13CA, 16, &rc, &[1; 32], &[0u8; 24]);
    assert_eq!(h.process_eapol(&m3).err(), Some(WpaError::InvalidState));
    assert_eq!(h.state, HandshakeState::Idle);
}

#[test]
fn m3_with_bad_mic_is_rejected() {
    let anonce = [0x5au8; 32];
    let mut h = new_handshake();
    assert!(h.process_eapol(&m1(&anonce, 1)).is_ok());
    let rc = [0, 0, 0, 0, 0, 0, 0, 2];
    let mut m3 = build_eapol_key_frame(0x13CA, 16, &rc, &anonce, &[0u8; 24]);
    m3[MIC_OFFSET] = 0xAB;
    assert_eq!(h.process_eapol(&m3).err(), Some(WpaError::MicMismatch));
    assert_eq!(h.state, HandshakeState::M2Sent);
}

#[test]
fn m3_with_old_replay_counter_is_rejected() {
    let anonce = [0x5au8; 32];
    let mut h = new_handshake();
    assert!(h.process_eapol(&m1(&anonce, 5)).is_ok());
    let rc = [0, 0, 0, 0, 0, 0, 0, 4];
    let m3 = build_eapol_key_frame(0x13CA, 16, &rc, &anonce, &[0u8; 24]);
    assert_eq!(h.process_eapol(&m3).err(), Some(WpaError::ReplayCounterMismatch));
}

#[test]
fn m3_with_undecryptable_key_data_is_rejected() {
    let anonce = [0x5au8; 32];
    let mut h = new_handshake();
    let m2 = match h.process_eapol(&m1(&anonce, 1)) {
        Ok(HandshakeAction::SendM2(m2)) => m2,
        _ => panic!(),
    };
    let mut snonce = [0u8; 32];
    snonce.copy_from_slice(&m2[17..49]);
    let ptk = derive_ptk(&pmk(), &AA, &SPA, &anonce, &snonce);
    let rc = [0, 0, 0, 0, 0, 0, 0, 2];
    let mut m3 = build_eapol_key_frame(0x13CA, 16, &rc, &anonce, &[0x33u8; 24]);
    sign(&ptk.kck, &mut m3);
    assert_eq!(h.process_eapol(&m3).err(), Some(WpaError::AesUnwrapFailed));
}

#[test]
fn m3_with_empty_key_data_is_rejected() {
    let anonce = [0x5au8; 32];
    let mut h = new_handshake();
    let m2 = match h.process_eapol(&m1(&anonce, 1)) {
        Ok(HandshakeAction::SendM2(m2)) => m2,
        _ => panic!(),
    };
    let mut snonce = [0u8; 32];
    snonce.copy_from_slice(&m2[17..49]);
    let ptk = derive_ptk(&pmk(), &AA, &SPA, &anonce, &snonce);
    let rc = [0, 0, 0, 0, 0, 0, 0, 2];
    let mut m3 = build_eapol_key_frame(0x13CA, 16, &rc, &anonce, &[]);
    sign(&ptk.kck, &mut m3);
    assert_eq!(h.process_eapol(&m3).err(), Some(WpaError::InvalidKeyData));
}

#[test]
fn m3_without_gtk_kde_reports_gtk_not_found() {
    let anonce = [0x5au8; 32];
    let mut h = new_handshake();
    let m2 = match h.process_eapol(&m1(&anonce, 1)) {
        Ok(HandshakeAction::SendM2(m2)) => m2,
        _ => panic!(),
    };
    let mut snonce = [0u8; 32];
    snonce.copy_from_slice(&m2[17..49]);
    let ptk = derive_ptk(&pmk(), &AA, &SPA, &anonce, &snonce);
    let plain = [0u8; 16];
    let wrapped = wrap(&ptk.kek, &plain);
    let rc = [0, 0, 0, 0, 0, 0, 0, 2];
    let mut m3 = build_eapol_key_frame(0x13CA, 16, &rc, &anonce, &wrapped);
    sign(&ptk.kck, &mut m3);
    assert_eq!(h.process_eapol(&m3).err(), Some(WpaError::GtkNotFound));
}

#[test]
fn unexpected_key_info_is_rejected() {
    let mut h = new_handshake();
    let rc = [0u8; 8];
    let f = build_eapol_key_frame(0x0008, 0, &rc, &[0; 32], &[]);
    assert_eq!(h.process_eapol(&f).err(), Some(WpaError::UnexpectedMessage));
}

#[test]
fn parse_errors() {
    assert_eq!(parse_eapol_key_header(&[0u8; 10]).err(), Some(WpaError::FrameTooShort));
    let rc = [0u8; 8];
    let mut f = build_eapol_key_frame(0x008A, 16, &rc, &[0; 32], &[]);
    f[1] = 0x00;
    assert_eq!(parse_eapol_key_header(&f).err(), Some(WpaError::InvalidEapolType));
    let mut g = build_eapol_key_frame(0x008A, 16, &rc, &[0; 32], &[]);
    g[4] = 0xFE;
    assert_eq!(parse_eapol_key_header(&g).err(), Some(WpaError::InvalidDescriptorType));
    let mut k = build_eapol_key_frame(0x008A, 16, &rc, &[0; 32], &[1, 2, 3]);
    k.truncate(100);
    assert_eq!(parse_eapol_key_header(&k).err(), Some(WpaError::FrameTooShort));
}

#[test]
fn build_then_parse_gives_back_the_fields() {
    let rc = [1, 2, 3, 4, 5, 6, 7, 8];
    let nonce = [9u8; 32];
    let f = build_eapol_key_frame(0x1234, 0x0010, &rc, &nonce, &[0xAA, 0xBB]);
    assert_eq!(f.len(), 101);
    assert_eq!(&f[2..4], &[0, 97]);
    let h = parse_eapol_key_header(&f).unwrap();
    assert_eq!(h.key_info, 0x1234);
    assert_eq!(h.key_length, 0x0010);
    assert_eq!(h.replay_counter, rc);
    assert_eq!(h.key_nonce, nonce);
    assert_eq!(h.key_mic, [0u8; 16]);
    assert_eq!(h.key_data, vec![0xAA, 0xBB]);
}

#[test]
fn gtk_kde_search() {
    let mut d = vec![0x30, 2, 0xAA, 0xBB];
    d.extend_from_slice(&[0xDD, 10, 0x00, 0x0F, 0xAC, 0x01, 0x01, 0x00, 1, 2, 3, 4]);
    assert_eq!(parse_gtk_kde(&d), Ok((vec![1, 2, 3, 4], 1)));
    assert_eq!(parse_gtk_kde(&[0x30, 1, 0]), Err(WpaError::GtkNotFound));
    assert_eq!(parse_gtk_kde(&[0xDD, 9, 0]), Err(WpaError::InvalidKeyData));
}

#[test]
fn error_messages() {
    assert_eq!(WpaError::MicMismatch.message(), "MIC verification failed");
    assert_eq!(WpaError::GtkNotFound.message(), "GTK not found in key data");
}
