//! EAPOL-Key frames (IEEE 802.11i): construction, parsing and the GTK KDE.

use vstd::prelude::*;

use crate::crypto::{append_bytes, bytes_to_vec};
use crate::wpa2::WpaError;

verus! {

/// EAPOL ethertype.
pub const ETH_P_PAE: u16 = 0x888E;
/// EAPOL protocol version (802.1X-2004).
pub const EAPOL_VERSION: u8 = 0x01;
/// EAPOL packet type of a key frame.
pub const EAPOL_TYPE_KEY: u8 = 0x03;
/// RSN key descriptor type.
pub const KEY_DESC_TYPE_RSN: u8 = 0x02;

/// Key information bits.
pub const KEY_INFO_TYPE_HMAC_SHA1_AES: u16 = 0x0002;
pub const KEY_INFO_PAIRWISE: u16 = 0x0008;
pub const KEY_INFO_INSTALL: u16 = 0x0040;
pub const KEY_INFO_ACK: u16 = 0x0080;
pub const KEY_INFO_MIC: u16 = 0x0100;
pub const KEY_INFO_SECURE: u16 = 0x0200;
pub const KEY_INFO_ENC_KEY_DATA: u16 = 0x1000;

/// 802.1X header: version, type, body length.
pub const EAPOL_HDR_LEN: usize = 4;
/// Fixed part of the EAPOL-Key body (everything before the key data).
pub const EAPOL_KEY_HDR_LEN: usize = 95;
/// Offset of the MIC field in a whole EAPOL frame.
pub const MIC_OFFSET: usize = 81;
/// Offset of the key data in a whole EAPOL frame.
pub const KEY_DATA_OFFSET: usize = 99;

/// Two big-endian bytes of `x`.
pub open spec fn be16(x: u16) -> Seq<u8> {
    seq![(x / 256) as u8, (x % 256) as u8]
}

/// The big-endian value of the bytes `hi`, `lo`.
pub open spec fn be16_val(hi: u8, lo: u8) -> u16 {
    (hi as int * 256 + lo as int) as u16
}

/// `n` zero bytes.
pub open spec fn zeros(n: nat) -> Seq<u8> {
    Seq::new(n, |i: int| 0u8)
}

/// An EAPOL-Key frame (from the 802.1X version byte on) with the given
/// fields, zero IV, RSC and reserved bytes, and a zero MIC.
pub open spec fn eapol_key_frame(key_info: u16, key_length: u16, replay: Seq<u8>, nonce: Seq<u8>, key_data: Seq<u8>) -> Seq<u8> {
    seq![EAPOL_VERSION, EAPOL_TYPE_KEY] + be16((95 + key_data.len()) as u16) + seq![KEY_DESC_TYPE_RSN]
        + be16(key_info) + be16(key_length) + replay + nonce + zeros(48)
        + be16(key_data.len() as u16) + key_data
}

/// `frame` with its MIC field replaced by `mic`.
pub open spec fn with_mic(frame: Seq<u8>, mic: Seq<u8>) -> Seq<u8> {
    frame.subrange(0, 81) + mic + frame.subrange(97, frame.len() as int)
}

/// `frame` with its MIC field cleared to zero.
pub open spec fn clear_mic(frame: Seq<u8>) -> Seq<u8> {
    with_mic(frame, zeros(16))
}

/// Key information field of a frame.
pub open spec fn frame_key_info(e: Seq<u8>) -> u16 {
    be16_val(e[5], e[6])
}

/// Key length field of a frame.
pub open spec fn frame_key_length(e: Seq<u8>) -> u16 {
    be16_val(e[7], e[8])
}

/// Key data length field of a frame.
pub open spec fn frame_key_data_len(e: Seq<u8>) -> u16 {
    be16_val(e[97], e[98])
}

/// The error `parse_eapol_key_header` reports for `e`, or `None` when it
/// accepts the frame.
pub open spec fn eapol_parse_error(e: Seq<u8>) -> Option<WpaError> {
    if e.len() < 99 {
        Some(WpaError::FrameTooShort)
    } else if e[1] != EAPOL_TYPE_KEY {
        Some(WpaError::InvalidEapolType)
    } else if e[4] != KEY_DESC_TYPE_RSN {
        Some(WpaError::InvalidDescriptorType)
    } else if e.len() < 99 + frame_key_data_len(e) {
        Some(WpaError::FrameTooShort)
    } else {
        None
    }
}

/// Parsed fixed fields and key data of an EAPOL-Key frame.
#[derive(Debug)]
pub struct EapolKeyHeader {
    pub key_info: u16,
    pub key_length: u16,
    pub replay_counter: [u8; 8],
    pub key_nonce: [u8; 32],
    pub key_iv: [u8; 16],
    pub key_rsc: [u8; 8],
    pub key_mic: [u8; 16],
    pub key_data_len: u16,
    pub key_data: Vec<u8>,
}

impl EapolKeyHeader {
    /// The header holds exactly the fields found in the accepted frame `e`.
    pub open spec fn parsed_from(&self, e: Seq<u8>) -> bool {
        &&& self.key_info == frame_key_info(e)
        &&& self.key_length == frame_key_length(e)
        &&& self.replay_counter@ == e.subrange(9, 17)
        &&& self.key_nonce@ == e.subrange(17, 49)
        &&& self.key_iv@ == e.subrange(49, 65)
        &&& self.key_rsc@ == e.subrange(65, 73)
        &&& self.key_mic@ == e.subrange(81, 97)
        &&& self.key_data_len == frame_key_data_len(e)
        &&& self.key_data@ == e.subrange(99, 99 + frame_key_data_len(e))
    }
}

/// Pushes the two big-endian bytes of `x`.
fn push_be16(v: &mut Vec<u8>, x: u16)
    ensures
        final(v)@ == old(v)@ + be16(x),
{
    v.push((x / 256) as u8);
    v.push((x % 256) as u8);
}

/// Builds an EAPOL-Key frame (from the version byte on) with a zero MIC.
pub fn build_eapol_key_frame(key_info: u16, key_length: u16, replay_counter: &[u8; 8], key_nonce: &[u8; 32], key_data: &[u8]) -> (frame: Vec<u8>)
    requires
        key_data@.len() <= usize::MAX - EAPOL_KEY_HDR_LEN,
    ensures
        frame@ == eapol_key_frame(key_info, key_length, replay_counter@, key_nonce@, key_data@),
        frame@.len() == 99 + key_data@.len(),
{
    let key_data_len = key_data.len() as u16;
    let body_len = (EAPOL_KEY_HDR_LEN + key_data.len()) as u16;
    let mut frame: Vec<u8> = Vec::new();
    frame.push(EAPOL_VERSION);
    frame.push(EAPOL_TYPE_KEY);
    push_be16(&mut frame, body_len);
    frame.push(KEY_DESC_TYPE_RSN);
    push_be16(&mut frame, key_info);
    push_be16(&mut frame, key_length);
    append_bytes(&mut frame, replay_counter);
    append_bytes(&mut frame, key_nonce);
    let z = [0u8; 48];
    assert(z@ == zeros(48));
    append_bytes(&mut frame, &z);
    push_be16(&mut frame, key_data_len);
    append_bytes(&mut frame, key_data);
    frame
}

/// Copies `src[off..off + N]` into a fresh array.
fn take_array8(src: &[u8], off: usize) -> (a: [u8; 8])
    requires
        off + 8 <= src@.len(),
    ensures
        a@ == src@.subrange(off as int, off + 8),
{
    let mut a = [0u8; 8];
    let mut i: usize = 0;
    while i < 8
        invariant
            i <= 8,
            off + 8 <= src.len(),
            forall|k: int| 0 <= k < i ==> a@[k] == src@[off + k],
        decreases 8 - i,
    {
        a[i] = src[off + i];
        i = i + 1;
    }
    assert(a@ == src@.subrange(off as int, off + 8));
    a
}

fn take_array16(src: &[u8], off: usize) -> (a: [u8; 16])
    requires
        off + 16 <= src@.len(),
    ensures
        a@ == src@.subrange(off as int, off + 16),
{
    let mut a = [0u8; 16];
    let mut i: usize = 0;
    while i < 16
        invariant
            i <= 16,
            off + 16 <= src.len(),
            forall|k: int| 0 <= k < i ==> a@[k] == src@[off + k],
        decreases 16 - i,
    {
        a[i] = src[off + i];
        i = i + 1;
    }
    assert(a@ == src@.subrange(off as int, off + 16));
    a
}

fn take_array32(src: &[u8], off: usize) -> (a: [u8; 32])
    requires
        off + 32 <= src@.len(),
    ensures
        a@ == src@.subrange(off as int, off + 32),
{
    let mut a = [0u8; 32];
    let mut i: usize = 0;
    while i < 32
        invariant
            i <= 32,
            off + 32 <= src.len(),
            forall|k: int| 0 <= k < i ==> a@[k] == src@[off + k],
        decreases 32 - i,
    {
        a[i] = src[off + i];
        i = i + 1;
    }
    assert(a@ == src@.subrange(off as int, off + 32));
    a
}

/// Copies `src[start..end]` into a fresh vector.
pub fn slice_to_vec(src: &[u8], start: usize, end: usize) -> (v: Vec<u8>)
    requires
        start <= end <= src@.len(),
    ensures
        v@ == src@.subrange(start as int, end as int),
{
    let mut v: Vec<u8> = Vec::new();
    let mut i = start;
    while i < end
        invariant
            start <= i <= end,
            end <= src.len(),
            v@ == src@.subrange(start as int, i as int),
        decreases end - i,
    {
        v.push(src[i]);
        i = i + 1;
    }
    v
}

/// Parses an EAPOL-Key frame given from its 802.1X version byte on.
pub fn parse_eapol_key_header(eapol: &[u8]) -> (r: Result<EapolKeyHeader, WpaError>)
    ensures
        match eapol_parse_error(eapol@) {
            Some(e) => r matches Err(e2) && e2 == e,
            None => r matches Ok(h) && h.parsed_from(eapol@),
        },
{
    if eapol.len() < EAPOL_HDR_LEN + EAPOL_KEY_HDR_LEN {
        return Err(WpaError::FrameTooShort);
    }
    if eapol[1] != EAPOL_TYPE_KEY {
        return Err(WpaError::InvalidEapolType);
    }
    let off = EAPOL_HDR_LEN;
    if eapol[off] != KEY_DESC_TYPE_RSN {
        return Err(WpaError::InvalidDescriptorType);
    }
    let key_info = (eapol[off + 1] as u16) * 256 + eapol[off + 2] as u16;
    let key_length = (eapol[off + 3] as u16) * 256 + eapol[off + 4] as u16;
    let replay_counter = take_array8(eapol, off + 5);
    let key_nonce = take_array32(eapol, off + 13);
    let key_iv = take_array16(eapol, off + 45);
    let key_rsc = take_array8(eapol, off + 61);
    let key_mic = take_array16(eapol, off + 77);
    let key_data_len = (eapol[off + 93] as u16) * 256 + eapol[off + 94] as u16;
    let key_data_start = EAPOL_HDR_LEN + EAPOL_KEY_HDR_LEN;
    let key_data_end = key_data_start + key_data_len as usize;
    if eapol.len() < key_data_end {
        return Err(WpaError::FrameTooShort);
    }
    let key_data = slice_to_vec(eapol, key_data_start, key_data_end);
    Ok(EapolKeyHeader {
        key_info,
        key_length,
        replay_counter,
        key_nonce,
        key_iv,
        key_rsc,
        key_mic,
        key_data_len,
        key_data,
    })
}

/// What `parse_gtk_kde` finds when it scans the key data `d` from `off` on:
/// the GTK and its key index, or the error it reports.
pub open spec fn gtk_kde_search(d: Seq<u8>, off: nat) -> Result<(Seq<u8>, u8), WpaError>
    decreases d.len() - off,
{
    if off + 2 > d.len() {
        Err(WpaError::GtkNotFound)
    } else {
        let o = off as int;
        let t = d[o];
        let l = d[o + 1] as int;
        if o + 2 + l > d.len() {
            Err(WpaError::InvalidKeyData)
        } else if t == 0xDD && l >= 6 && d.subrange(o + 2, o + 6) == seq![0x00u8, 0x0F, 0xAC, 0x01] {
            Ok((d.subrange(o + 8, o + 2 + l), d[o + 6] & 0x03))
        } else if t == 0 {
            gtk_kde_search(d, off + 1)
        } else {
            gtk_kde_search(d, (o + 2 + l) as nat)
        }
    }
}

/// The GTK search only ever fails with `GtkNotFound` or `InvalidKeyData`.
pub proof fn lemma_gtk_kde_errors(d: Seq<u8>, off: nat)
    ensures
        gtk_kde_search(d, off) matches Err(e) ==> e == WpaError::GtkNotFound || e == WpaError::InvalidKeyData,
    decreases d.len() - off,
{
    if off + 2 <= d.len() {
        let o = off as int;
        let l = d[o + 1] as int;
        if o + 2 + l <= d.len() {
            if d[o] == 0 {
                lemma_gtk_kde_errors(d, off + 1);
            } else {
                lemma_gtk_kde_errors(d, (o + 2 + l) as nat);
            }
        }
    }
}

/// Finds the GTK KDE (type 0xDD, OUI 00-0F-AC, data type 1) in decrypted
/// key data and returns the GTK and its key index.
pub fn parse_gtk_kde(data: &[u8]) -> (r: Result<(Vec<u8>, u8), WpaError>)
    ensures
        match gtk_kde_search(data@, 0) {
            Ok((gtk, idx)) => r matches Ok((g, i)) && g@ == gtk && i == idx,
            Err(e) => r matches Err(e2) && e2 == e,
        },
{
    let mut offset: usize = 0;
    while data.len() >= 2 && offset <= data.len() - 2
        invariant
            offset <= data.len(),
            gtk_kde_search(data@, 0) == gtk_kde_search(data@, offset as nat),
        decreases data.len() - offset,
    {
        let element_type = data[offset];
        let element_len = data[offset + 1] as usize;
        if element_len > data.len() - offset - 2 {
            return Err(WpaError::InvalidKeyData);
        }
        if element_type == 0xDD && element_len >= 6 && data[offset + 2] == 0x00 && data[offset + 3] == 0x0F
            && data[offset + 4] == 0xAC && data[offset + 5] == 0x01 {
            assert(data@.subrange(offset + 2, offset + 6) == seq![0x00u8, 0x0F, 0xAC, 0x01]);
            let key_id = data[offset + 6] & 0x03;
            let gtk = slice_to_vec(data, offset + 8, offset + 2 + element_len);
            return Ok((gtk, key_id));
        }
        proof {
            if element_type == 0xDD && element_len >= 6 {
                if data@.subrange(offset + 2, offset + 6) == seq![0x00u8, 0x0F, 0xAC, 0x01] {
                    assert(data@.subrange(offset + 2, offset + 6)[0] == data@[offset + 2]);
                    assert(data@.subrange(offset + 2, offset + 6)[1] == data@[offset + 3]);
                    assert(data@.subrange(offset + 2, offset + 6)[2] == data@[offset + 4]);
                    assert(data@.subrange(offset + 2, offset + 6)[3] == data@[offset + 5]);
                }
            }
        }
        if element_type == 0x00 {
            offset = offset + 1;
            continue;
        }
        offset = offset + 2 + element_len;
    }
    Err(WpaError::GtkNotFound)
}

/// Parsing a frame built by `build_eapol_key_frame` gives back every field
/// it was built from, with a zero MIC.
pub proof fn lemma_eapol_build_parse(key_info: u16, key_length: u16, replay: Seq<u8>, nonce: Seq<u8>, key_data: Seq<u8>)
    requires
        replay.len() == 8,
        nonce.len() == 32,
        key_data.len() <= 0xFFFF,
    ensures
        ({
            let e = eapol_key_frame(key_info, key_length, replay, nonce, key_data);
            &&& eapol_parse_error(e) is None
            &&& frame_key_info(e) == key_info
            &&& frame_key_length(e) == key_length
            &&& e.subrange(9, 17) == replay
            &&& e.subrange(17, 49) == nonce
            &&& e.subrange(81, 97) == zeros(16)
            &&& frame_key_data_len(e) == key_data.len()
            &&& e.subrange(99, 99 + frame_key_data_len(e)) == key_data
        }),
{
    let e = eapol_key_frame(key_info, key_length, replay, nonce, key_data);
    assert(e.len() == 99 + key_data.len());
    assert(e[5] == (key_info / 256) as u8);
    assert(e[6] == (key_info % 256) as u8);
    assert(e[7] == (key_length / 256) as u8);
    assert(e[8] == (key_length % 256) as u8);
    assert(e[97] == ((key_data.len() as u16) / 256) as u8);
    assert(e[98] == ((key_data.len() as u16) % 256) as u8);
    assert(e.subrange(9, 17) == replay);
    assert(e.subrange(17, 49) == nonce);
    assert(e.subrange(81, 97) == zeros(16));
    assert(e.subrange(99, 99 + key_data.len() as int) == key_data);
}

/// Setting the MIC of a frame and clearing it again gives back the frame
/// with a zero MIC: the MIC that a sender computes over the zero-MIC frame is
/// the one a receiver recomputes after clearing the field.
pub proof fn lemma_clear_with_mic(frame: Seq<u8>, mic: Seq<u8>)
    requires
        frame.len() >= 97,
        mic.len() == 16,
        frame.subrange(81, 97) == zeros(16),
    ensures
        clear_mic(with_mic(frame, mic)) == frame,
        with_mic(frame, mic).subrange(81, 97) == mic,
        with_mic(frame, mic).len() == frame.len(),
{
    let f2 = with_mic(frame, mic);
    assert(f2.subrange(81, 97) == mic);
    assert(clear_mic(f2) =~= frame);
}

} // verus!
