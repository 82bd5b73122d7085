//! WPA2-PSK four-way handshake (supplicant side).
//!
//! The AIC8800 is a FullMAC chip: the firmware handles 802.11
//! authentication and association, but the four-way handshake is run by the
//! host.  The AP's M1 and M3 arrive as EAPOL frames; this module answers
//! with M2 and M4 and hands back the keys to install.

use vstd::prelude::*;

use crate::crypto::{
    aes_key_unwrap, aes_unwrap_spec, bytes_lt, bytes_to_vec, compute_mic, derive_ptk, hmac_sha1,
    hmac_sha1_spec, mic_spec, pbkdf2_sha1, pbkdf2_spec, ptk_spec, slice_lt, Ptk, PMK_LEN,
};
use crate::eapol::{
    build_eapol_key_frame, clear_mic, eapol_key_frame, eapol_parse_error, frame_key_data_len,
    frame_key_info, gtk_kde_search, lemma_clear_with_mic, lemma_gtk_kde_errors, lemma_eapol_build_parse,
    parse_eapol_key_header, parse_gtk_kde, with_mic, zeros,
    EapolKeyHeader, EAPOL_KEY_HDR_LEN, KEY_INFO_ACK, KEY_INFO_ENC_KEY_DATA, KEY_INFO_INSTALL,
    KEY_INFO_MIC, MIC_OFFSET,
};

verus! {

/// Errors of the WPA2 handshake.
#[derive(Debug, Clone, Copy, PartialEq, Eq, Structural)]
pub enum WpaError {
    FrameTooShort,
    InvalidEapolType,
    InvalidDescriptorType,
    UnexpectedMessage,
    InvalidState,
    ReplayCounterMismatch,
    MicMismatch,
    InvalidKeyData,
    AesUnwrapFailed,
    GtkNotFound,
}

impl WpaError {
    /// Human-readable description of the error.
    pub fn message(&self) -> (s: &'static str)
        ensures
            *self == WpaError::FrameTooShort ==> s@ == "frame too short"@,
            *self == WpaError::InvalidEapolType ==> s@ == "not an EAPOL-Key frame"@,
            *self == WpaError::InvalidDescriptorType ==> s@ == "invalid key descriptor type"@,
            *self == WpaError::UnexpectedMessage ==> s@ == "unexpected message"@,
            *self == WpaError::InvalidState ==> s@ == "invalid handshake state"@,
            *self == WpaError::ReplayCounterMismatch ==> s@ == "replay counter mismatch"@,
            *self == WpaError::MicMismatch ==> s@ == "MIC verification failed"@,
            *self == WpaError::InvalidKeyData ==> s@ == "invalid key data"@,
            *self == WpaError::AesUnwrapFailed ==> s@ == "AES key unwrap failed"@,
            *self == WpaError::GtkNotFound ==> s@ == "GTK not found in key data"@,
    {
        match self {
            WpaError::FrameTooShort => "frame too short",
            WpaError::InvalidEapolType => "not an EAPOL-Key frame",
            WpaError::InvalidDescriptorType => "invalid key descriptor type",
            WpaError::UnexpectedMessage => "unexpected message",
            WpaError::InvalidState => "invalid handshake state",
            WpaError::ReplayCounterMismatch => "replay counter mismatch",
            WpaError::MicMismatch => "MIC verification failed",
            WpaError::InvalidKeyData => "invalid key data",
            WpaError::AesUnwrapFailed => "AES key unwrap failed",
            WpaError::GtkNotFound => "GTK not found in key data",
        }
    }
}

/// Handshake progress.
#[derive(Debug, Clone, Copy, PartialEq, Eq, Structural)]
pub enum HandshakeState {
    /// Waiting for M1.
    Idle,
    /// M2 sent, waiting for M3.
    M2Sent,
    /// Handshake finished.
    Completed,
}

/// Keys and final frame of a completed handshake.
#[derive(Debug, Clone)]
pub struct HandshakeResult {
    /// M4 EAPOL frame to send to the AP.
    pub m4_frame: Vec<u8>,
    /// Temporal key (CCMP pairwise data key).
    pub tk: [u8; 16],
    /// Group temporal key.
    pub gtk: Vec<u8>,
    /// Key index of the GTK.
    pub gtk_key_idx: u8,
}

/// What the caller has to do after an EAPOL frame was processed.
pub enum HandshakeAction {
    /// Send this M2 frame to the AP.
    SendM2(Vec<u8>),
    /// Send the M4 frame and install the keys.
    Completed(HandshakeResult),
}

/// Mathematical model of a handshake action.
pub enum ActionModel {
    SendM2(Seq<u8>),
    Completed { m4: Seq<u8>, tk: Seq<u8>, gtk: Seq<u8>, gtk_key_idx: u8 },
}

impl View for HandshakeAction {
    type V = ActionModel;

    open spec fn view(&self) -> ActionModel {
        match self {
            HandshakeAction::SendM2(v) => ActionModel::SendM2(v@),
            HandshakeAction::Completed(r) => ActionModel::Completed {
                m4: r.m4_frame@,
                tk: r.tk@,
                gtk: r.gtk@,
                gtk_key_idx: r.gtk_key_idx,
            },
        }
    }
}

/// The model of a handshake result: the action's model or the error.
pub open spec fn result_view(r: Result<HandshakeAction, WpaError>) -> Result<ActionModel, WpaError> {
    match r {
        Ok(a) => Ok(a@),
        Err(e) => Err(e),
    }
}

/// Mathematical model of the handshake context.
pub struct HandshakeModel {
    pub state: HandshakeState,
    pub pmk: Seq<u8>,
    /// The 48 PTK bytes `KCK || KEK || TK`, once derived.
    pub ptk: Option<Seq<u8>>,
    pub anonce: Seq<u8>,
    pub snonce: Seq<u8>,
    pub aa: Seq<u8>,
    pub spa: Seq<u8>,
    pub rsn_ie: Seq<u8>,
    pub replay_counter: Seq<u8>,
    pub gtk: Seq<u8>,
    pub gtk_key_idx: u8,
}

/// Key information of M2: descriptor version 2, pairwise, MIC.
pub const M2_KEY_INFO: u16 = 0x010A;
/// Key information of M4: descriptor version 2, pairwise, MIC, secure.
pub const M4_KEY_INFO: u16 = 0x030A;

pub open spec fn kck_of(ptk: Seq<u8>) -> Seq<u8> {
    ptk.subrange(0, 16)
}

pub open spec fn kek_of(ptk: Seq<u8>) -> Seq<u8> {
    ptk.subrange(16, 32)
}

pub open spec fn tk_of(ptk: Seq<u8>) -> Seq<u8> {
    ptk.subrange(32, 48)
}

/// A frame whose MIC field holds the MIC of the frame with that field zero.
pub open spec fn signed(kck: Seq<u8>, frame: Seq<u8>) -> Seq<u8> {
    with_mic(frame, mic_spec(kck, frame))
}

/// The M2 frame: SNonce, RSN IE as key data, MIC under the KCK.
pub open spec fn m2_frame(kck: Seq<u8>, replay: Seq<u8>, snonce: Seq<u8>, rsn_ie: Seq<u8>) -> Seq<u8> {
    signed(kck, eapol_key_frame(M2_KEY_INFO, 0, replay, snonce, rsn_ie))
}

/// The M4 frame: zero nonce, no key data, MIC under the KCK.
pub open spec fn m4_frame(kck: Seq<u8>, replay: Seq<u8>) -> Seq<u8> {
    signed(kck, eapol_key_frame(M4_KEY_INFO, 0, replay, zeros(32), Seq::empty()))
}

/// Key information of M1: ACK set, MIC clear.
pub open spec fn is_m1(ki: u16) -> bool {
    ki & KEY_INFO_ACK != 0 && ki & KEY_INFO_MIC == 0
}

/// Key information of M3: ACK, MIC, Install and encrypted key data set.
pub open spec fn is_m3(ki: u16) -> bool {
    ki & KEY_INFO_ACK != 0 && ki & KEY_INFO_MIC != 0 && ki & KEY_INFO_INSTALL != 0 && ki & KEY_INFO_ENC_KEY_DATA != 0
}

/// The transition on an accepted M1 frame `e`.
pub open spec fn m1_next(m: HandshakeModel, e: Seq<u8>) -> (HandshakeModel, Result<ActionModel, WpaError>) {
    let anonce = e.subrange(17, 49);
    let replay = e.subrange(9, 17);
    let ptk = ptk_spec(m.pmk, m.aa, m.spa, anonce, m.snonce);
    (
        HandshakeModel { state: HandshakeState::M2Sent, ptk: Some(ptk), anonce, replay_counter: replay, ..m },
        Ok(ActionModel::SendM2(m2_frame(kck_of(ptk), replay, m.snonce, m.rsn_ie))),
    )
}

/// The transition on an accepted M3 frame `e`.
pub open spec fn m3_next(m: HandshakeModel, e: Seq<u8>) -> (HandshakeModel, Result<ActionModel, WpaError>) {
    if m.state != HandshakeState::M2Sent || m.ptk is None {
        (m, Err(WpaError::InvalidState))
    } else {
        let ptk = m.ptk.unwrap();
        let replay = e.subrange(9, 17);
        if bytes_lt(replay, m.replay_counter) {
            (m, Err(WpaError::ReplayCounterMismatch))
        } else {
            let m1 = HandshakeModel { replay_counter: replay, ..m };
            if mic_spec(kck_of(ptk), clear_mic(e)) != e.subrange(81, 97) {
                (m1, Err(WpaError::MicMismatch))
            } else {
                let m2 = HandshakeModel { anonce: e.subrange(17, 49), ..m1 };
                let kd = e.subrange(99, 99 + frame_key_data_len(e));
                if kd.len() == 0 {
                    (m2, Err(WpaError::InvalidKeyData))
                } else {
                    match aes_unwrap_spec(kek_of(ptk), kd) {
                        None => (m2, Err(WpaError::AesUnwrapFailed)),
                        Some(plain) => match gtk_kde_search(plain, 0) {
                            Err(err) => (m2, Err(err)),
                            Ok((gtk, idx)) => (
                                HandshakeModel { state: HandshakeState::Completed, gtk, gtk_key_idx: idx, ..m2 },
                                Ok(ActionModel::Completed {
                                    m4: m4_frame(kck_of(ptk), replay),
                                    tk: tk_of(ptk),
                                    gtk,
                                    gtk_key_idx: idx,
                                }),
                            ),
                        },
                    }
                }
            }
        }
    }
}

/// The new model and the result of processing the EAPOL frame `e`.
pub open spec fn process_next(m: HandshakeModel, e: Seq<u8>) -> (HandshakeModel, Result<ActionModel, WpaError>) {
    match eapol_parse_error(e) {
        Some(err) => (m, Err(err)),
        None => {
            let ki = frame_key_info(e);
            if is_m1(ki) {
                m1_next(m, e)
            } else if is_m3(ki) {
                m3_next(m, e)
            } else {
                (m, Err(WpaError::UnexpectedMessage))
            }
        },
    }
}

/// The eight little-endian bytes of `ts`.
pub open spec fn le64_bytes(ts: u64) -> Seq<u8> {
    seq![ts as u8, (ts >> 8u64) as u8, (ts >> 16u64) as u8, (ts >> 24u64) as u8,
        (ts >> 32u64) as u8, (ts >> 40u64) as u8, (ts >> 48u64) as u8, (ts >> 56u64) as u8]
}

/// `"snonce-gen-1"`.
pub open spec fn snonce_label1() -> Seq<u8> {
    seq![0x73u8, 0x6e, 0x6f, 0x6e, 0x63, 0x65, 0x2d, 0x67, 0x65, 0x6e, 0x2d, 0x31]
}

/// `"snonce-gen-2"`.
pub open spec fn snonce_label2() -> Seq<u8> {
    seq![0x73u8, 0x6e, 0x6f, 0x6e, 0x63, 0x65, 0x2d, 0x67, 0x65, 0x6e, 0x2d, 0x32]
}

/// The SNonce derived from the timestamp `ts` (nanoseconds).
pub open spec fn snonce_spec(ts: u64) -> Seq<u8> {
    hmac_sha1_spec(le64_bytes(ts), snonce_label1()).take(20) + hmac_sha1_spec(le64_bytes(ts), snonce_label2()).take(12)
}

/// Derives a 32-byte SNonce from a monotonic timestamp in nanoseconds.
pub fn generate_snonce(ts: u64) -> (snonce: [u8; 32])
    ensures
        snonce@ == snonce_spec(ts),
{
    let ts_bytes: [u8; 8] = [ts as u8, (ts >> 8u64) as u8, (ts >> 16u64) as u8, (ts >> 24u64) as u8,
        (ts >> 32u64) as u8, (ts >> 40u64) as u8, (ts >> 48u64) as u8, (ts >> 56u64) as u8];
    assert(ts_bytes@ == le64_bytes(ts));
    let l1: [u8; 12] = [0x73, 0x6e, 0x6f, 0x6e, 0x63, 0x65, 0x2d, 0x67, 0x65, 0x6e, 0x2d, 0x31];
    let l2: [u8; 12] = [0x73, 0x6e, 0x6f, 0x6e, 0x63, 0x65, 0x2d, 0x67, 0x65, 0x6e, 0x2d, 0x32];
    assert(l1@ == snonce_label1());
    assert(l2@ == snonce_label2());
    let hash1 = hmac_sha1(&ts_bytes, &l1);
    let hash2 = hmac_sha1(&ts_bytes, &l2);
    let mut snonce = [0u8; 32];
    let mut i: usize = 0;
    while i < 32
        invariant
            i <= 32,
            forall|k: int| 0 <= k < i ==> snonce@[k] == if k < 20 { hash1@[k] } else { hash2@[k - 20] },
        decreases 32 - i,
    {
        if i < 20 {
            snonce[i] = hash1[i];
        } else {
            snonce[i] = hash2[i - 20];
        }
        i = i + 1;
    }
    assert(snonce@ == hash1@.take(20) + hash2@.take(12));
    snonce
}

/// Byte-wise equality of two slices.
pub fn bytes_eq(a: &[u8], b: &[u8]) -> (r: bool)
    ensures
        r == (a@ == b@),
{
    if a.len() != b.len() {
        return false;
    }
    let mut i: usize = 0;
    while i < a.len()
        invariant
            i <= a.len(),
            a.len() == b.len(),
            forall|k: int| 0 <= k < i ==> a@[k] == b@[k],
        decreases a.len() - i,
    {
        if a[i] != b[i] {
            return false;
        }
        i = i + 1;
    }
    assert(a@ == b@);
    true
}

/// Writes `mic` into the MIC field of `frame`.
fn set_mic(frame: &mut Vec<u8>, mic: &[u8; 16])
    requires
        old(frame)@.len() >= 97,
    ensures
        final(frame)@ == with_mic(old(frame)@, mic@),
{
    let mut i: usize = 0;
    while i < 16
        invariant
            i <= 16,
            old(frame)@.len() >= 97,
            frame@.len() == old(frame)@.len(),
            forall|k: int| 0 <= k < frame@.len() ==> frame@[k] == if 81 <= k < 81 + i {
                mic@[k - 81]
            } else {
                old(frame)@[k]
            },
        decreases 16 - i,
    {
        frame.set(MIC_OFFSET + i, mic[i]);
        i = i + 1;
    }
    assert(frame@ == with_mic(old(frame)@, mic@));
}

/// Builds an EAPOL-Key frame and signs it with `kck`.
fn build_signed_frame(kck: &[u8; 16], key_info: u16, replay: &[u8; 8], nonce: &[u8; 32], key_data: &[u8]) -> (f: Vec<u8>)
    requires
        key_data@.len() <= usize::MAX - EAPOL_KEY_HDR_LEN,
    ensures
        f@ == signed(kck@, eapol_key_frame(key_info, 0, replay@, nonce@, key_data@)),
{
    let mut f = build_eapol_key_frame(key_info, 0, replay, nonce, key_data);
    let mic = compute_mic(kck, f.as_slice());
    set_mic(&mut f, &mic);
    f
}

/// WPA2 handshake context of the supplicant.
pub struct Wpa2Handshake {
    pub state: HandshakeState,
    pmk: [u8; 32],
    ptk: Option<Ptk>,
    anonce: [u8; 32],
    snonce: [u8; 32],
    aa: [u8; 6],
    spa: [u8; 6],
    rsn_ie: Vec<u8>,
    replay_counter: [u8; 8],
    gtk: Vec<u8>,
    gtk_key_idx: u8,
}

impl View for Wpa2Handshake {
    type V = HandshakeModel;

    closed spec fn view(&self) -> HandshakeModel {
        HandshakeModel {
            state: self.state,
            pmk: self.pmk@,
            ptk: match self.ptk {
                Some(p) => Some(p.bytes()),
                None => None,
            },
            anonce: self.anonce@,
            snonce: self.snonce@,
            aa: self.aa@,
            spa: self.spa@,
            rsn_ie: self.rsn_ie@,
            replay_counter: self.replay_counter@,
            gtk: self.gtk@,
            gtk_key_idx: self.gtk_key_idx,
        }
    }
}

impl Wpa2Handshake {
    /// The handshake's state, as its view has it.
    pub fn current_state(&self) -> (s: HandshakeState)
        ensures
            s == self@.state,
    {
        self.state
    }

    /// The RSN IE fits in an EAPOL frame's length arithmetic.
    pub closed spec fn wf(&self) -> bool {
        self.rsn_ie@.len() <= usize::MAX - EAPOL_KEY_HDR_LEN
    }

    /// Starts a handshake: derives the PMK from passphrase and SSID
    /// (PBKDF2-HMAC-SHA1, 4096 rounds) and the SNonce from `now_nanos`, the
    /// current monotonic time in nanoseconds.
    pub fn new(passphrase: &[u8], ssid: &[u8], aa: &[u8; 6], spa: &[u8; 6], rsn_ie: &[u8], now_nanos: u64) -> (h: Self)
        requires
            ssid@.len() <= usize::MAX - 4,
            rsn_ie@.len() <= usize::MAX - EAPOL_KEY_HDR_LEN,
        ensures
            h.wf(),
            h@ == (HandshakeModel {
                state: HandshakeState::Idle,
                pmk: pbkdf2_spec(passphrase@, ssid@, 4096, 32),
                ptk: None,
                anonce: zeros(32),
                snonce: snonce_spec(now_nanos),
                aa: aa@,
                spa: spa@,
                rsn_ie: rsn_ie@,
                replay_counter: zeros(8),
                gtk: Seq::empty(),
                gtk_key_idx: 0,
            }),
    {
        let pmk_vec = pbkdf2_sha1(passphrase, ssid, 4096, PMK_LEN);
        let mut pmk = [0u8; 32];
        let mut i: usize = 0;
        while i < 32
            invariant
                i <= 32,
                pmk_vec@.len() == 32,
                forall|k: int| 0 <= k < i ==> pmk@[k] == pmk_vec@[k],
            decreases 32 - i,
        {
            pmk[i] = pmk_vec[i];
            i = i + 1;
        }
        assert(pmk@ == pmk_vec@);
        let snonce = generate_snonce(now_nanos);
        let h = Wpa2Handshake {
            state: HandshakeState::Idle,
            pmk,
            ptk: None,
            snonce,
            anonce: [0u8; 32],
            aa: *aa,
            spa: *spa,
            rsn_ie: bytes_to_vec(rsn_ie),
            replay_counter: [0u8; 8],
            gtk: Vec::new(),
            gtk_key_idx: 0,
        };
        assert(h.anonce@ == zeros(32));
        assert(h.replay_counter@ == zeros(8));
        h
    }

    /// Processes an EAPOL frame (from the 802.1X version byte on, without
    /// Ethernet header) received from the AP and says what to do next.
    pub fn process_eapol(&mut self, eapol: &[u8]) -> (r: Result<HandshakeAction, WpaError>)
        requires
            old(self).wf(),
        ensures
            final(self).wf(),
            final(self)@ == process_next(old(self)@, eapol@).0,
            result_view(r) == process_next(old(self)@, eapol@).1,
    {
        let hdr = match parse_eapol_key_header(eapol) {
            Ok(h) => h,
            Err(e) => {
                return Err(e);
            },
        };
        let has_ack = (hdr.key_info & KEY_INFO_ACK) != 0;
        let has_mic = (hdr.key_info & KEY_INFO_MIC) != 0;
        let has_install = (hdr.key_info & KEY_INFO_INSTALL) != 0;
        let has_enc = (hdr.key_info & KEY_INFO_ENC_KEY_DATA) != 0;
        if has_ack && !has_mic {
            self.process_m1(&hdr, eapol)
        } else if has_ack && has_mic && has_install && has_enc {
            self.process_m3(&hdr, eapol)
        } else {
            Err(WpaError::UnexpectedMessage)
        }
    }

    /// Handles M1: stores ANonce and replay counter, derives the PTK and
    /// answers with a signed M2.
    fn process_m1(&mut self, hdr: &EapolKeyHeader, eapol: &[u8]) -> (r: Result<HandshakeAction, WpaError>)
        requires
            old(self).wf(),
            eapol_parse_error(eapol@) is None,
            hdr.parsed_from(eapol@),
        ensures
            final(self).wf(),
            final(self)@ == m1_next(old(self)@, eapol@).0,
            result_view(r) == m1_next(old(self)@, eapol@).1,
    {
        self.anonce = hdr.key_nonce;
        self.replay_counter = hdr.replay_counter;
        let ptk = derive_ptk(&self.pmk, &self.aa, &self.spa, &self.anonce, &self.snonce);
        self.ptk = Some(ptk);
        let m2 = build_signed_frame(&ptk.kck, M2_KEY_INFO, &self.replay_counter, &self.snonce, self.rsn_ie.as_slice());
        self.state = HandshakeState::M2Sent;
        proof {
            assert(ptk.kck@ == kck_of(ptk.bytes()));
        }
        Ok(HandshakeAction::SendM2(m2))
    }

    /// Handles M3: checks state, replay counter and MIC, unwraps the key
    /// data, extracts the GTK and answers with a signed M4.
    fn process_m3(&mut self, hdr: &EapolKeyHeader, eapol: &[u8]) -> (r: Result<HandshakeAction, WpaError>)
        requires
            old(self).wf(),
            eapol_parse_error(eapol@) is None,
            hdr.parsed_from(eapol@),
        ensures
            final(self).wf(),
            final(self)@ == m3_next(old(self)@, eapol@).0,
            result_view(r) == m3_next(old(self)@, eapol@).1,
    {
        if self.state != HandshakeState::M2Sent {
            return Err(WpaError::InvalidState);
        }
        let ptk = match self.ptk {
            Some(p) => p,
            None => {
                return Err(WpaError::InvalidState);
            },
        };
        proof {
            assert(ptk.kck@ == kck_of(ptk.bytes()));
            assert(ptk.kek@ == kek_of(ptk.bytes()));
            assert(ptk.tk@ == tk_of(ptk.bytes()));
        }
        if slice_lt(&hdr.replay_counter, &self.replay_counter) {
            return Err(WpaError::ReplayCounterMismatch);
        }
        self.replay_counter = hdr.replay_counter;
        let mut eapol_copy = bytes_to_vec(eapol);
        let zero_mic = [0u8; 16];
        assert(zero_mic@ == zeros(16));
        set_mic(&mut eapol_copy, &zero_mic);
        let computed_mic = compute_mic(&ptk.kck, eapol_copy.as_slice());
        if !bytes_eq(&computed_mic, &hdr.key_mic) {
            return Err(WpaError::MicMismatch);
        }
        self.anonce = hdr.key_nonce;
        if hdr.key_data.len() == 0 {
            return Err(WpaError::InvalidKeyData);
        }
        let decrypted = match aes_key_unwrap(&ptk.kek, hdr.key_data.as_slice()) {
            Ok(d) => d,
            Err(e) => {
                return Err(e);
            },
        };
        let (gtk, gtk_key_idx) = match parse_gtk_kde(decrypted.as_slice()) {
            Ok(g) => g,
            Err(e) => {
                return Err(e);
            },
        };
        self.gtk = gtk;
        self.gtk_key_idx = gtk_key_idx;
        let zero_nonce = [0u8; 32];
        assert(zero_nonce@ == zeros(32));
        let no_data: [u8; 0] = [];
        assert(no_data@ == Seq::<u8>::empty());
        let m4 = build_signed_frame(&ptk.kck, M4_KEY_INFO, &self.replay_counter, &zero_nonce, &no_data);
        self.state = HandshakeState::Completed;
        let gtk_copy = bytes_to_vec(self.gtk.as_slice());
        Ok(HandshakeAction::Completed(HandshakeResult {
            m4_frame: m4,
            tk: ptk.tk,
            gtk: gtk_copy,
            gtk_key_idx: self.gtk_key_idx,
        }))
    }
}

/// Every M2 the supplicant sends carries a MIC that verifies under the KCK
/// it derived, and reading it back gives the SNonce, the RSN IE and the
/// replay counter of the M1 it answers.
pub proof fn lemma_m2_verifies(m: HandshakeModel, e: Seq<u8>)
    requires
        eapol_parse_error(e) is None,
        is_m1(frame_key_info(e)),
        m.snonce.len() == 32,
        m.rsn_ie.len() <= 0xFFFF,
    ensures
        ({
            let (next, r) = process_next(m, e);
            &&& next.state == HandshakeState::M2Sent
            &&& next.ptk == Some(ptk_spec(m.pmk, m.aa, m.spa, e.subrange(17, 49), m.snonce))
            &&& r matches Ok(ActionModel::SendM2(f)) && {
                let kck = kck_of(next.ptk.unwrap());
                &&& f.subrange(81, 97) == mic_spec(kck, clear_mic(f))
                &&& eapol_parse_error(f) is None
                &&& frame_key_info(f) == M2_KEY_INFO
                &&& f.subrange(9, 17) == e.subrange(9, 17)
                &&& f.subrange(17, 49) == m.snonce
                &&& f.subrange(99, 99 + frame_key_data_len(f)) == m.rsn_ie
            }
        }),
{
    let (next, r) = process_next(m, e);
    let ptk = ptk_spec(m.pmk, m.aa, m.spa, e.subrange(17, 49), m.snonce);
    let kck = kck_of(ptk);
    let rc = e.subrange(9, 17);
    let frame = eapol_key_frame(M2_KEY_INFO, 0, rc, m.snonce, m.rsn_ie);
    lemma_eapol_build_parse(M2_KEY_INFO, 0, rc, m.snonce, m.rsn_ie);
    lemma_clear_with_mic(frame, mic_spec(kck, frame));
    let f = with_mic(frame, mic_spec(kck, frame));
    assert(f.subrange(0, 81) == frame.subrange(0, 81));
    assert(f.subrange(97, f.len() as int) == frame.subrange(97, frame.len() as int));
    assert(f[1] == frame[1]);
    assert(f[4] == frame[4]);
    assert(f[5] == frame[5]);
    assert(f[6] == frame[6]);
    assert(f[97] == frame[97]);
    assert(f[98] == frame[98]);
    assert(f.subrange(9, 17) == frame.subrange(9, 17));
    assert(f.subrange(17, 49) == frame.subrange(17, 49));
    assert(f.subrange(99, 99 + frame_key_data_len(f)) == frame.subrange(99, 99 + frame_key_data_len(frame)));
}

/// M3 is refused unless an M2 was sent: outside that state the handshake
/// answers `InvalidState` and keeps its state.
pub proof fn lemma_m3_needs_m2(m: HandshakeModel, e: Seq<u8>)
    requires
        eapol_parse_error(e) is None,
        is_m3(frame_key_info(e)),
        m.state != HandshakeState::M2Sent,
    ensures
        process_next(m, e) == (m, Err::<ActionModel, WpaError>(WpaError::InvalidState)),
{
    let ki = frame_key_info(e);
    assert(ki & KEY_INFO_MIC != 0 ==> !is_m1(ki));
}

/// What a reader finds in a signed EAPOL-Key frame: the fields it was built
/// from and a MIC that verifies under the signing KCK.
pub proof fn lemma_signed_frame(kck: Seq<u8>, ki: u16, key_length: u16, replay: Seq<u8>, nonce: Seq<u8>, key_data: Seq<u8>)
    requires
        replay.len() == 8,
        nonce.len() == 32,
        key_data.len() <= 0xFFFF,
    ensures
        ({
            let e = signed(kck, eapol_key_frame(ki, key_length, replay, nonce, key_data));
            &&& eapol_parse_error(e) is None
            &&& frame_key_info(e) == ki
            &&& e.subrange(9, 17) == replay
            &&& e.subrange(17, 49) == nonce
            &&& frame_key_data_len(e) == key_data.len()
            &&& e.subrange(99, 99 + frame_key_data_len(e)) == key_data
            &&& e.subrange(81, 97) == mic_spec(kck, clear_mic(e))
        }),
{
    let frame = eapol_key_frame(ki, key_length, replay, nonce, key_data);
    lemma_eapol_build_parse(ki, key_length, replay, nonce, key_data);
    lemma_clear_with_mic(frame, mic_spec(kck, frame));
    let e = with_mic(frame, mic_spec(kck, frame));
    assert(e[1] == frame[1]);
    assert(e[4] == frame[4]);
    assert(e[5] == frame[5]);
    assert(e[6] == frame[6]);
    assert(e[97] == frame[97]);
    assert(e[98] == frame[98]);
    assert(e.subrange(9, 17) == frame.subrange(9, 17));
    assert(e.subrange(17, 49) == frame.subrange(17, 49));
    assert(e.subrange(99, 99 + key_data.len() as int) == frame.subrange(99, 99 + key_data.len() as int));
}

/// An M3 that the AP signed with the KCK of the PTK the supplicant holds,
/// whose replay counter is not older than the stored one, passes the state,
/// replay and MIC checks: whatever comes back is decided by the key data.
pub proof fn lemma_signed_m3_passes_mic(m: HandshakeModel, ptk: Seq<u8>, ki: u16, key_length: u16,
    replay: Seq<u8>, anonce: Seq<u8>, key_data: Seq<u8>)
    requires
        m.state == HandshakeState::M2Sent,
        m.ptk == Some(ptk),
        is_m3(ki),
        replay.len() == 8,
        anonce.len() == 32,
        key_data.len() <= 0xFFFF,
        !bytes_lt(replay, m.replay_counter),
    ensures
        ({
            let e = signed(kck_of(ptk), eapol_key_frame(ki, key_length, replay, anonce, key_data));
            let (next, r) = process_next(m, e);
            &&& next.replay_counter == replay
            &&& next.anonce == anonce
            &&& r != Err::<ActionModel, WpaError>(WpaError::InvalidState)
            &&& r != Err::<ActionModel, WpaError>(WpaError::ReplayCounterMismatch)
            &&& r != Err::<ActionModel, WpaError>(WpaError::MicMismatch)
        }),
{
    let e = signed(kck_of(ptk), eapol_key_frame(ki, key_length, replay, anonce, key_data));
    lemma_signed_frame(kck_of(ptk), ki, key_length, replay, anonce, key_data);
    assert(ki & KEY_INFO_MIC != 0 ==> !is_m1(ki));
    assert(process_next(m, e) == m3_next(m, e));
    let kd = e.subrange(99, 99 + frame_key_data_len(e));
    match aes_unwrap_spec(kek_of(ptk), kd) {
        Some(plain) => lemma_gtk_kde_errors(plain, 0),
        None => {},
    }
}

/// A completed handshake hands out the TK of the PTK derived from M1 and an
/// M4 whose MIC verifies under its KCK and which carries the M3 replay
/// counter; the state becomes `Completed`.
pub proof fn lemma_m4_verifies(m: HandshakeModel, e: Seq<u8>)
    requires
        eapol_parse_error(e) is None,
    ensures
        ({
            let (next, r) = process_next(m, e);
            r matches Ok(ActionModel::Completed { m4, tk, gtk, gtk_key_idx }) ==> {
                &&& next.state == HandshakeState::Completed
                &&& m.ptk is Some
                &&& tk == tk_of(m.ptk.unwrap())
                &&& next.gtk == gtk
                &&& m4.subrange(81, 97) == mic_spec(kck_of(m.ptk.unwrap()), clear_mic(m4))
                &&& eapol_parse_error(m4) is None
                &&& frame_key_info(m4) == M4_KEY_INFO
                &&& m4.subrange(9, 17) == e.subrange(9, 17)
            }
        }),
{
    let (next, r) = process_next(m, e);
    if r matches Ok(ActionModel::Completed { m4, tk, gtk, gtk_key_idx }) {
        let ki = frame_key_info(e);
        if is_m1(ki) {
            assert(false);
        }
        let ptk = m.ptk.unwrap();
        let kck = kck_of(ptk);
        let rc = e.subrange(9, 17);
        let frame = eapol_key_frame(M4_KEY_INFO, 0, rc, zeros(32), Seq::empty());
        lemma_eapol_build_parse(M4_KEY_INFO, 0, rc, zeros(32), Seq::empty());
        lemma_clear_with_mic(frame, mic_spec(kck, frame));
        let f = with_mic(frame, mic_spec(kck, frame));
        assert(f[1] == frame[1]);
        assert(f[4] == frame[4]);
        assert(f[5] == frame[5]);
        assert(f[6] == frame[6]);
        assert(f[97] == frame[97]);
        assert(f[98] == frame[98]);
        assert(f.subrange(9, 17) == frame.subrange(9, 17));
    }
}

} // verus!
