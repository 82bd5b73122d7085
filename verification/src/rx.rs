//! Receive path: splitting an aggregated SDIO read into frames and deciding
//! where each goes (EAPOL, Ethernet data, command confirmation, indication,
//! TX confirmation, firmware print).

use vstd::prelude::*;

pub use crate::chip_id::{SDIO_TYPE_CFG, SDIO_TYPE_CFG_CMD_RSP, SDIO_TYPE_CFG_DATA_CFM};

use crate::eapol::ETH_P_PAE;
use crate::ipc::{le16_at, le32_at};

verus! {

/// Largest frame length an SDIO header may announce.
pub const MAX_PKT_LEN: u16 = 1600;
/// Hardware receive header in front of a data frame's MPDU.
pub const RX_HWHDR_LEN: usize = 60;
/// Alignment of frames in an aggregated read.
pub const RX_ALIGNMENT: usize = 4;
/// Offset of the receive-vector status word (decryption status in bits 2..5).
pub const HWVECT_STATUS_OFFSET: usize = 36;
/// Offset of the receive flags word (bit 1: 802.11 MPDU).
pub const RX_FLAGS_OFFSET: usize = 48;
/// Frames the data receive queue holds before the oldest is dropped.
pub const DATA_RX_QUEUE_MAX: usize = 64;
/// Block-count register bit reporting another interrupt.
pub const SDIO_OTHER_INTERRUPT: u8 = 0x80;
pub const SDIO_TYPE_CFG_PRINT: u8 = 0x13;

// Decryption status of a received frame.
pub const DECR_UNENC: u8 = 0;
pub const DECR_WEP: u8 = 1;
pub const DECR_TKIP: u8 = 2;
pub const DECR_CCMP128: u8 = 3;
pub const DECR_CCMP256: u8 = 4;
pub const DECR_GCMP128: u8 = 5;
pub const DECR_GCMP256: u8 = 6;
pub const DECR_WAPI: u8 = 7;

/// Where a received frame goes.
pub enum RxEvent {
    /// EAPOL payload for the supplicant.
    Eapol(Vec<u8>),
    /// Ethernet frame (DA, SA, ethertype, payload) for the network stack.
    Data(Vec<u8>),
    /// The confirmation a command waits for (lmac message).
    CmdRsp(Vec<u8>),
    /// Any other firmware message (lmac message).
    Indication(Vec<u8>),
    /// Transmit confirmation: status word and used index.
    DataCfm { status: u32, used_idx: u32 },
    /// Firmware debug output.
    Print(Vec<u8>),
    /// Configuration frame of an unknown type.
    Unknown { pkt_type: u8, pkt_len: u16 },
}

/// Model of an `RxEvent`.
pub enum RxEventModel {
    Eapol(Seq<u8>),
    Data(Seq<u8>),
    CmdRsp(Seq<u8>),
    Indication(Seq<u8>),
    DataCfm { status: u32, used_idx: u32 },
    Print(Seq<u8>),
    Unknown { pkt_type: u8, pkt_len: u16 },
}

impl View for RxEvent {
    type V = RxEventModel;

    open spec fn view(&self) -> RxEventModel {
        match self {
            RxEvent::Eapol(v) => RxEventModel::Eapol(v@),
            RxEvent::Data(v) => RxEventModel::Data(v@),
            RxEvent::CmdRsp(v) => RxEventModel::CmdRsp(v@),
            RxEvent::Indication(v) => RxEventModel::Indication(v@),
            RxEvent::DataCfm { status, used_idx } => RxEventModel::DataCfm { status: *status, used_idx: *used_idx },
            RxEvent::Print(v) => RxEventModel::Print(v@),
            RxEvent::Unknown { pkt_type, pkt_len } => RxEventModel::Unknown { pkt_type: *pkt_type, pkt_len: *pkt_len },
        }
    }
}

/// The models of a list of events.
pub open spec fn events_view(evs: Seq<RxEvent>) -> Seq<RxEventModel> {
    evs.map_values(|e: RxEvent| e@)
}

/// `n` rounded up to a multiple of 4.
pub open spec fn align4(n: int) -> int {
    (n + 3) / 4 * 4
}

/// Rounding up to a multiple of 4 never goes down.
pub proof fn lemma_align4(n: int)
    requires
        n >= 0,
    ensures
        n <= align4(n) <= n + 3,
        align4(n) % 4 == 0,
{
}

/// The one-element or empty sequence of an optional event.
pub open spec fn opt_seq(e: Option<RxEventModel>) -> Seq<RxEventModel> {
    match e {
        Some(x) => seq![x],
        None => Seq::empty(),
    }
}

// ------------------------------------------------------------------
// Data frames
// ------------------------------------------------------------------

/// Length of the security header the firmware leaves in front of the
/// LLC/SNAP header, by decryption status.
pub open spec fn crypto_hdr_len(decr: u8) -> int {
    if decr == DECR_CCMP128 || decr == DECR_CCMP256 || decr == DECR_GCMP128 || decr == DECR_GCMP256 || decr == DECR_TKIP {
        8
    } else if decr == DECR_WEP {
        4
    } else if decr == DECR_WAPI {
        18
    } else {
        0
    }
}

/// Length of the 802.11 header: 24, 26 for QoS data, plus 4 with an HT
/// control field.
pub open spec fn mac_hdr_len(fc0: u8, fc1: u8) -> int {
    (if fc0 & 0x80 != 0 { 26int } else { 24int }) + (if fc1 & 0x80 != 0 { 4int } else { 0int })
}

/// Destination and source addresses by the To-DS/From-DS bits; `None` for
/// a four-address frame too short to carry the fourth address.
pub open spec fn addresses(mpdu: Seq<u8>, fc1: u8) -> Option<(Seq<u8>, Seq<u8>)> {
    let to_ds = fc1 % 2;
    let from_ds = (fc1 / 2) % 2;
    if to_ds == 0 && from_ds == 0 {
        Some((mpdu.subrange(4, 10), mpdu.subrange(10, 16)))
    } else if to_ds == 1 && from_ds == 0 {
        Some((mpdu.subrange(16, 22), mpdu.subrange(10, 16)))
    } else if to_ds == 0 && from_ds == 1 {
        Some((mpdu.subrange(4, 10), mpdu.subrange(16, 22)))
    } else if mpdu.len() < 30 {
        None
    } else {
        Some((mpdu.subrange(16, 22), mpdu.subrange(24, 30)))
    }
}

/// What a data frame `d` (hardware header and MPDU, `pkt_len` bytes of MPDU)
/// turns into: nothing for 802.11 management frames, short or non-data
/// frames; EAPOL payload for ethertype 0x888E; otherwise an Ethernet frame
/// built from DA, SA, the ethertype and the payload after LLC/SNAP.
pub open spec fn data_event(d: Seq<u8>, pkt_len: int) -> Option<RxEventModel> {
    let decr = ((d[36] / 4) % 8) as u8;
    let is_mpdu = (d[48] / 2) % 2 == 1;
    if is_mpdu || pkt_len < 24 {
        None
    } else {
        let mpdu = d.subrange(60, 60 + pkt_len);
        let fc0 = mpdu[0];
        let fc1 = mpdu[1];
        if fc0 & 0x0C != 0x08 {
            None
        } else {
            match addresses(mpdu, fc1) {
                None => None,
                Some((da, sa)) => {
                    let llc = mac_hdr_len(fc0, fc1) + crypto_hdr_len(decr);
                    let et = llc + 6;
                    let payload_start = llc + 8;
                    if pkt_len < et + 2 || pkt_len <= payload_start {
                        None
                    } else if mpdu[et] as int * 256 + mpdu[et + 1] as int == ETH_P_PAE as int {
                        Some(RxEventModel::Eapol(mpdu.subrange(payload_start, pkt_len)))
                    } else {
                        Some(RxEventModel::Data(da + sa + mpdu.subrange(et, et + 2) + mpdu.subrange(payload_start, pkt_len)))
                    }
                },
            }
        }
    }
}

/// A received QoS data frame (QoS bit 0x80 of the frame control set, no HT
/// control, unencrypted) from the AP (From-DS only): its 802.11 header is 26
/// bytes, so the LLC/SNAP header starts at byte 26 of the MPDU and the
/// ethertype sits at bytes 32..34.  An EAPOL ethertype gives the payload
/// from byte 34 for the supplicant; any other gives the Ethernet frame of
/// DA (address 1), SA (address 3), the ethertype and that payload.
pub proof fn law_qos_data_frame(d: Seq<u8>, pkt_len: int)
    requires
        35 <= pkt_len,
        d.len() == 60 + pkt_len,
        (d[48] / 2) % 2 == 0,
        (d[36] / 4) % 8 == 0,
        d[60] & 0x0C == 0x08,
        d[60] & 0x80 != 0,
        d[61] & 0x80 == 0,
        d[61] % 4 == 2,
    ensures
        ({
            let mpdu = d.subrange(60, 60 + pkt_len);
            data_event(d, pkt_len) == if mpdu[32] as int * 256 + mpdu[33] as int == 0x888E {
                Some(RxEventModel::Eapol(mpdu.subrange(34, pkt_len)))
            } else {
                Some(RxEventModel::Data(mpdu.subrange(4, 10) + mpdu.subrange(16, 22) + mpdu.subrange(32, 34)
                    + mpdu.subrange(34, pkt_len)))
            }
        }),
{
    let mpdu = d.subrange(60, 60 + pkt_len);
    let fc1 = mpdu[1];
    assert(fc1 % 2 == 0 && (fc1 / 2) % 2 == 1);
    assert(mac_hdr_len(mpdu[0], fc1) == 26);
    assert(crypto_hdr_len(((d[36] / 4) % 8) as u8) == 0);
}

/// A received data frame without the QoS bit (no HT control, unencrypted,
/// From-DS only) has the 24-byte 802.11 header: the ethertype sits at bytes
/// 30..32 and the payload starts at byte 32.
pub proof fn law_plain_data_frame(d: Seq<u8>, pkt_len: int)
    requires
        33 <= pkt_len,
        d.len() == 60 + pkt_len,
        (d[48] / 2) % 2 == 0,
        (d[36] / 4) % 8 == 0,
        d[60] & 0x0C == 0x08,
        d[60] & 0x80 == 0,
        d[61] & 0x80 == 0,
        d[61] % 4 == 2,
    ensures
        ({
            let mpdu = d.subrange(60, 60 + pkt_len);
            data_event(d, pkt_len) == if mpdu[30] as int * 256 + mpdu[31] as int == 0x888E {
                Some(RxEventModel::Eapol(mpdu.subrange(32, pkt_len)))
            } else {
                Some(RxEventModel::Data(mpdu.subrange(4, 10) + mpdu.subrange(16, 22) + mpdu.subrange(30, 32)
                    + mpdu.subrange(32, pkt_len)))
            }
        }),
{
    let mpdu = d.subrange(60, 60 + pkt_len);
    let fc1 = mpdu[1];
    assert(fc1 % 2 == 0 && (fc1 / 2) % 2 == 1);
    assert(mac_hdr_len(mpdu[0], fc1) == 24);
    assert(crypto_hdr_len(((d[36] / 4) % 8) as u8) == 0);
}

/// How a received 802.11 data frame is laid out, for every combination of
/// frame-control bits and decryption status: the header is 24 bytes, two
/// more with the QoS bit (0x80 of the first frame-control byte), four more
/// with the HT-control bit (0x80 of the second); the security header left in
/// front of the LLC/SNAP header is 4 bytes for WEP, 18 for WAPI, 8 for TKIP,
/// CCMP and GCMP, none when unencrypted; the ethertype follows the 6 bytes
/// of LLC/SNAP and the payload follows it.  DA and SA are addresses 1 and 2
/// without DS bits, 3 and 2 to the DS, 1 and 3 from the DS, 3 and 4 with
/// both.  A frame whose payload would be empty gives nothing.
pub proof fn law_data_frame_layout(d: Seq<u8>, pkt_len: int)
    requires
        24 <= pkt_len,
        d.len() == 60 + pkt_len,
        (d[48] / 2) % 2 == 0,
        d[60] & 0x0C == 0x08,
        d[61] % 4 != 3 || pkt_len >= 30,
    ensures
        ({
            let mpdu = d.subrange(60, 60 + pkt_len);
            let decr = (d[36] / 4) % 8;
            let sec: int = if decr == 0 { 0 } else if decr == 1 { 4 } else if decr == 7 { 18 } else { 8 };
            let et: int = 30 + (if d[60] & 0x80 != 0 { 2int } else { 0int }) + (if d[61] & 0x80 != 0 { 4int } else { 0int }) + sec;
            let ds = d[61] % 4;
            let da = if ds == 0 || ds == 2 { mpdu.subrange(4, 10) } else { mpdu.subrange(16, 22) };
            let sa = if ds == 0 || ds == 1 { mpdu.subrange(10, 16) } else if ds == 2 { mpdu.subrange(16, 22) } else { mpdu.subrange(24, 30) };
            data_event(d, pkt_len) == if pkt_len <= et + 2 {
                None
            } else if mpdu[et] as int * 256 + mpdu[et + 1] as int == 0x888E {
                Some(RxEventModel::Eapol(mpdu.subrange(et + 2, pkt_len)))
            } else {
                Some(RxEventModel::Data(da + sa + mpdu.subrange(et, et + 2) + mpdu.subrange(et + 2, pkt_len)))
            }
        }),
{
    let mpdu = d.subrange(60, 60 + pkt_len);
    let fc1 = mpdu[1];
    assert(fc1 % 4 == 0 ==> fc1 % 2 == 0 && (fc1 / 2) % 2 == 0);
    assert(fc1 % 4 == 1 ==> fc1 % 2 == 1 && (fc1 / 2) % 2 == 0);
    assert(fc1 % 4 == 2 ==> fc1 % 2 == 0 && (fc1 / 2) % 2 == 1);
    assert(fc1 % 4 == 3 ==> fc1 % 2 == 1 && (fc1 / 2) % 2 == 1);
}

/// Frames that are not plain data frames give nothing: an 802.11 MPDU the
/// firmware flags as such (receive flags bit 1), a frame shorter than the
/// 24-byte header, and a frame whose type is not data.
pub proof fn law_non_data_frames(d: Seq<u8>, pkt_len: int)
    requires
        0 <= pkt_len,
        d.len() == 60 + pkt_len,
        (d[48] / 2) % 2 == 1 || pkt_len < 24 || d[60] & 0x0C != 0x08,
    ensures
        data_event(d, pkt_len) is None,
{
}

/// Copies `s[start..end]` into a new vector.
pub fn sub_vec(s: &[u8], start: usize, end: usize) -> (v: Vec<u8>)
    requires
        start <= end <= s@.len(),
    ensures
        v@ == s@.subrange(start as int, end as int),
{
    let mut v: Vec<u8> = Vec::new();
    let mut i = start;
    while i < end
        invariant
            start <= i <= end,
            end <= s@.len(),
            v@ == s@.subrange(start as int, i as int),
        decreases end - i,
    {
        v.push(s[i]);
        i = i + 1;
        assert(v@ =~= s@.subrange(start as int, i as int));
    }
    v
}

/// Decodes the data frame at `buf[off..off + pkt_len + 60]`.
#[verifier::rlimit(40)]
fn decode_data_frame(buf: &[u8], off: usize, pkt_len: usize) -> (e: Option<RxEvent>)
    requires
        pkt_len <= MAX_PKT_LEN,
        off + pkt_len + 60 <= buf.len(),
    ensures
        match e {
            Some(x) => data_event(buf@.subrange(off as int, off + pkt_len + 60), pkt_len as int) == Some(x@),
            None => data_event(buf@.subrange(off as int, off + pkt_len + 60), pkt_len as int) is None,
        },
{
    let ghost d = buf@.subrange(off as int, off + pkt_len + 60);
    let decr: u8 = (buf[off + HWVECT_STATUS_OFFSET] / 4) % 8;
    let is_mpdu = (buf[off + RX_FLAGS_OFFSET] / 2) % 2 == 1;
    if is_mpdu || pkt_len < 24 {
        return None;
    }
    let m = off + 60;
    let ghost mpdu = d.subrange(60, 60 + pkt_len);
    assert(mpdu =~= buf@.subrange(m as int, m + pkt_len));
    let fc0 = buf[m];
    let fc1 = buf[m + 1];
    if fc0 & 0x0C != 0x08 {
        return None;
    }
    let to_ds = fc1 % 2;
    let from_ds = (fc1 / 2) % 2;
    let (da_off, sa_off): (usize, usize) = if to_ds == 0 && from_ds == 0 {
        (4, 10)
    } else if to_ds == 1 && from_ds == 0 {
        (16, 10)
    } else if to_ds == 0 && from_ds == 1 {
        (4, 16)
    } else {
        if pkt_len < 30 {
            return None;
        }
        (16, 24)
    };
    assert(addresses(mpdu, fc1) == Some((mpdu.subrange(da_off as int, da_off + 6), mpdu.subrange(sa_off as int, sa_off + 6))));
    let hdr_len: usize = (if fc0 & 0x80 != 0 { 26 } else { 24 }) + (if fc1 & 0x80 != 0 { 4 } else { 0 });
    let crypto: usize = if decr == DECR_CCMP128 || decr == DECR_CCMP256 || decr == DECR_GCMP128
        || decr == DECR_GCMP256 || decr == DECR_TKIP {
        8
    } else if decr == DECR_WEP {
        4
    } else if decr == DECR_WAPI {
        18
    } else {
        0
    };
    let llc = hdr_len + crypto;
    let et = llc + 6;
    let payload_start = llc + 8;
    if pkt_len < et + 2 || pkt_len <= payload_start {
        return None;
    }
    let ethertype: u16 = (buf[m + et] as u16) * 256 + buf[m + et + 1] as u16;
    if ethertype == ETH_P_PAE {
        let v = sub_vec(buf, m + payload_start, m + pkt_len);
        assert(v@ =~= mpdu.subrange(payload_start as int, pkt_len as int));
        Some(RxEvent::Eapol(v))
    } else {
        Some(RxEvent::Data(eth_frame(buf, m, pkt_len, da_off, sa_off, et, payload_start)))
    }
}

/// The Ethernet frame `DA || SA || ethertype || payload` of the MPDU at
/// `buf[m..m + pkt_len]`.
fn eth_frame(buf: &[u8], m: usize, pkt_len: usize, da_off: usize, sa_off: usize, et: usize, payload_start: usize) -> (v: Vec<u8>)
    requires
        m + pkt_len <= buf.len(),
        da_off + 6 <= pkt_len,
        sa_off + 6 <= pkt_len,
        et + 2 <= pkt_len,
        payload_start <= pkt_len,
    ensures
        ({
            let mpdu = buf@.subrange(m as int, m + pkt_len);
            v@ == mpdu.subrange(da_off as int, da_off + 6) + mpdu.subrange(sa_off as int, sa_off + 6)
                + mpdu.subrange(et as int, et + 2) + mpdu.subrange(payload_start as int, pkt_len as int)
        }),
{
    let mut v = sub_vec(buf, m + da_off, m + da_off + 6);
    let sa = sub_vec(buf, m + sa_off, m + sa_off + 6);
    let et_bytes = sub_vec(buf, m + et, m + et + 2);
    let payload = sub_vec(buf, m + payload_start, m + pkt_len);
    crate::crypto::append_bytes(&mut v, sa.as_slice());
    crate::crypto::append_bytes(&mut v, et_bytes.as_slice());
    crate::crypto::append_bytes(&mut v, payload.as_slice());
    let ghost mpdu = buf@.subrange(m as int, m + pkt_len);
    assert(v@ =~= mpdu.subrange(da_off as int, da_off + 6) + mpdu.subrange(sa_off as int, sa_off + 6)
        + mpdu.subrange(et as int, et + 2) + mpdu.subrange(payload_start as int, pkt_len as int));
    v
}

// ------------------------------------------------------------------
// Configuration frames
// ------------------------------------------------------------------

/// What a configuration frame of type `pkt_type` carrying `msg` turns into:
/// command responses go to the command waiter when their ID is the
/// confirmation it expects (a non-zero `expected`), to the indications
/// otherwise; TX confirmations give their two words; prints their text.
pub open spec fn cfg_event(pkt_type: u8, msg: Seq<u8>, pkt_len: u16, expected: u16) -> Option<RxEventModel> {
    if pkt_type == SDIO_TYPE_CFG_CMD_RSP {
        if msg.len() < 8 {
            None
        } else if expected != 0 && le16_at(msg, 0) == expected {
            Some(RxEventModel::CmdRsp(msg))
        } else {
            Some(RxEventModel::Indication(msg))
        }
    } else if pkt_type == SDIO_TYPE_CFG_DATA_CFM {
        if msg.len() < 8 {
            None
        } else {
            Some(RxEventModel::DataCfm { status: le32_at(msg, 0), used_idx: le32_at(msg, 4) })
        }
    } else if pkt_type == SDIO_TYPE_CFG_PRINT {
        Some(RxEventModel::Print(msg))
    } else {
        Some(RxEventModel::Unknown { pkt_type, pkt_len })
    }
}

// ------------------------------------------------------------------
// Aggregated reads
// ------------------------------------------------------------------

/// The events of the frames of `buf` from offset `off` on.  Each frame
/// starts with a 4-byte SDIO header (little-endian length, type).  A zero
/// or oversized length, or a frame running past the buffer, ends the walk.
/// Data frames occupy `align4(len + 60)` bytes; configuration frames carry
/// `len` message bytes after the header and occupy `align4(len) + 4`.
pub open spec fn rx_events(buf: Seq<u8>, expected: u16, off: nat) -> Seq<RxEventModel>
    decreases buf.len() + 3 - off,
{
    if off + 4 > buf.len() {
        Seq::empty()
    } else {
        let pkt_len = le16_at(buf, off as int);
        let pkt_type = buf[off as int + 2] & 0x7F;
        if pkt_len == 0 || pkt_len > MAX_PKT_LEN {
            Seq::empty()
        } else if pkt_type & SDIO_TYPE_CFG != SDIO_TYPE_CFG {
            if off + pkt_len + 60 > buf.len() {
                Seq::empty()
            } else {
                proof { lemma_align4(pkt_len + 60); }
                opt_seq(data_event(buf.subrange(off as int, off + pkt_len + 60), pkt_len as int))
                    + rx_events(buf, expected, (off + align4(pkt_len + 60)) as nat)
            }
        } else {
            if off + 4 + pkt_len > buf.len() {
                Seq::empty()
            } else {
                proof { lemma_align4(pkt_len as int); }
                opt_seq(cfg_event(pkt_type, buf.subrange(off as int + 4, off as int + 4 + pkt_len), pkt_len, expected))
                    + rx_events(buf, expected, (off + align4(pkt_len as int) + 4) as nat)
            }
        }
    }
}

proof fn lemma_rx_events_shift(p: Seq<u8>, b: Seq<u8>, expected: u16, off: nat)
    ensures
        rx_events(p + b, expected, p.len() + off) == rx_events(b, expected, off),
    decreases b.len() + 3 - off,
{
    let buf = p + b;
    let o = p.len() + off;
    if off + 4 <= b.len() {
        assert(buf[o as int] == b[off as int]);
        assert(buf[o as int + 1] == b[off as int + 1]);
        assert(buf[o as int + 2] == b[off as int + 2]);
        let pkt_len = le16_at(b, off as int);
        assert(le16_at(buf, o as int) == pkt_len);
        let pkt_type = b[off as int + 2] & 0x7F;
        if pkt_len == 0 || pkt_len > MAX_PKT_LEN {
        } else if pkt_type & SDIO_TYPE_CFG != SDIO_TYPE_CFG {
            if off + pkt_len + 60 <= b.len() {
                lemma_align4(pkt_len + 60);
                assert(buf.subrange(o as int, o + pkt_len + 60) =~= b.subrange(off as int, off + pkt_len + 60));
                lemma_rx_events_shift(p, b, expected, (off + align4(pkt_len + 60)) as nat);
                assert(p.len() + (off + align4(pkt_len + 60)) == o + align4(pkt_len + 60));
            }
        } else {
            if off + 4 + pkt_len <= b.len() {
                lemma_align4(pkt_len as int);
                assert(buf.subrange(o as int + 4, o as int + 4 + pkt_len) =~= b.subrange(off as int + 4, off as int + 4 + pkt_len));
                lemma_rx_events_shift(p, b, expected, (off + align4(pkt_len as int) + 4) as nat);
                assert(p.len() + (off + align4(pkt_len as int) + 4) == o + align4(pkt_len as int) + 4);
            }
        }
    }
}

/// Frames of an aggregated read are taken one after the other at 4-byte
/// aligned offsets: a read that starts with a whole data frame of `len`
/// MPDU bytes (SDIO header with that length and a data type, padded to
/// `align4(len + 60)` bytes) gives that frame's event, then exactly the
/// events the rest of the read gives on its own.
pub proof fn law_rx_frame_then_rest(frame: Seq<u8>, rest: Seq<u8>, expected: u16)
    requires
        frame.len() >= 4,
        1 <= le16_at(frame, 0) <= MAX_PKT_LEN,
        (frame[2] & 0x7F) & SDIO_TYPE_CFG != SDIO_TYPE_CFG,
        frame.len() == align4(le16_at(frame, 0) + 60),
    ensures
        rx_events(frame + rest, expected, 0)
            == opt_seq(data_event(frame.subrange(0, le16_at(frame, 0) + 60), le16_at(frame, 0) as int))
                + rx_events(rest, expected, 0),
{
    let buf = frame + rest;
    let len = le16_at(frame, 0);
    lemma_align4(len + 60);
    assert(buf[0] == frame[0] && buf[1] == frame[1] && buf[2] == frame[2]);
    assert(le16_at(buf, 0) == len);
    assert(buf.subrange(0, len + 60) =~= frame.subrange(0, len + 60));
    lemma_rx_events_shift(frame, rest, expected, 0);
    assert(frame.len() + 0 == align4(len + 60));
}

/// The same for a whole configuration frame (`len` message bytes after the
/// 4-byte SDIO header, padded to `align4(len) + 4` bytes).
pub proof fn law_rx_cfg_then_rest(frame: Seq<u8>, rest: Seq<u8>, expected: u16)
    requires
        frame.len() >= 4,
        1 <= le16_at(frame, 0) <= MAX_PKT_LEN,
        (frame[2] & 0x7F) & SDIO_TYPE_CFG == SDIO_TYPE_CFG,
        frame.len() == align4(le16_at(frame, 0) as int) + 4,
    ensures
        rx_events(frame + rest, expected, 0)
            == opt_seq(cfg_event(frame[2] & 0x7F, frame.subrange(4, 4 + le16_at(frame, 0)), le16_at(frame, 0), expected))
                + rx_events(rest, expected, 0),
{
    let buf = frame + rest;
    let len = le16_at(frame, 0);
    lemma_align4(len as int);
    assert(buf[0] == frame[0] && buf[1] == frame[1] && buf[2] == frame[2]);
    assert(le16_at(buf, 0) == len);
    assert(buf.subrange(4, 4 + len) =~= frame.subrange(4, 4 + len));
    lemma_rx_events_shift(frame, rest, expected, 0);
}

/// Configuration frames by type: a command response of at least 8 bytes is
/// the awaited confirmation exactly when a confirmation is awaited
/// (`expected` non-zero) and its first two bytes (little-endian) are that
/// ID, an indication otherwise; a TX confirmation of at least 8 bytes gives
/// its two little-endian words; a firmware print gives its text.
pub proof fn law_cfg_frames(pkt_type: u8, msg: Seq<u8>, pkt_len: u16, expected: u16)
    ensures
        pkt_type == SDIO_TYPE_CFG_CMD_RSP && msg.len() >= 8 ==> cfg_event(pkt_type, msg, pkt_len, expected)
            == if expected != 0 && msg[0] as int + 256 * msg[1] as int == expected as int {
                Some(RxEventModel::CmdRsp(msg))
            } else {
                Some(RxEventModel::Indication(msg))
            },
        pkt_type == SDIO_TYPE_CFG_DATA_CFM && msg.len() >= 8 ==> cfg_event(pkt_type, msg, pkt_len, expected)
            == Some(RxEventModel::DataCfm {
                status: (msg[0] as int + 256 * msg[1] as int + 65536 * msg[2] as int + 16777216 * msg[3] as int) as u32,
                used_idx: (msg[4] as int + 256 * msg[5] as int + 65536 * msg[6] as int + 16777216 * msg[7] as int) as u32,
            }),
        (pkt_type == SDIO_TYPE_CFG_CMD_RSP || pkt_type == SDIO_TYPE_CFG_DATA_CFM) && msg.len() < 8
            ==> cfg_event(pkt_type, msg, pkt_len, expected) is None,
        pkt_type == SDIO_TYPE_CFG_PRINT ==> cfg_event(pkt_type, msg, pkt_len, expected) == Some(RxEventModel::Print(msg)),
{
    if pkt_type == SDIO_TYPE_CFG_CMD_RSP && msg.len() >= 8 {
        assert((msg[0] as int + 256 * msg[1] as int) < 65536);
    }
}

/// Splits an aggregated FIFO read into events, in order.  `expected` is the
/// confirmation ID a command is waiting for (0 when none).
pub fn dispatch_frames(buf: &[u8], expected: u16) -> (evs: Vec<RxEvent>)
    ensures
        events_view(evs@) == rx_events(buf@, expected, 0),
{
    let mut evs: Vec<RxEvent> = Vec::new();
    let mut offset: usize = 0;
    loop
        invariant
            offset <= buf@.len(),
            events_view(evs@) + rx_events(buf@, expected, offset as nat) == rx_events(buf@, expected, 0),
        ensures
            events_view(evs@) == rx_events(buf@, expected, 0),
        decreases buf.len() - offset,
    {
        if offset >= buf.len() || buf.len() - offset < 4 {
            assert(rx_events(buf@, expected, offset as nat) =~= Seq::<RxEventModel>::empty());
            break;
        }
        let ghost before = evs@;
        let pkt_len: u16 = crate::ipc::u16_from_le(buf, offset);
        if pkt_len == 0 || pkt_len > MAX_PKT_LEN {
            assert(rx_events(buf@, expected, offset as nat) =~= Seq::<RxEventModel>::empty());
            break;
        }
        let pkt_type = buf[offset + 2] & 0x7F;
        let len = pkt_len as usize;
        if pkt_type & SDIO_TYPE_CFG != SDIO_TYPE_CFG {
            if buf.len() - offset < len + RX_HWHDR_LEN {
                assert(rx_events(buf@, expected, offset as nat) =~= Seq::<RxEventModel>::empty());
                break;
            }
            let ev = decode_data_frame(buf, offset, len);
            let advance = (len + RX_HWHDR_LEN + 3) / 4 * 4;
            match ev {
                Some(e) => {
                    evs.push(e);
                },
                None => {},
            }
            proof {
                assert(events_view(evs@) =~= events_view(before)
                    + opt_seq(data_event(buf@.subrange(offset as int, offset + len + 60), len as int)));
                lemma_align4(len + 60);
            }
            if advance > buf.len() - offset {
                assert(rx_events(buf@, expected, (offset + advance) as nat) =~= Seq::<RxEventModel>::empty());
                assert(rx_events(buf@, expected, buf.len() as nat) =~= Seq::<RxEventModel>::empty());
                offset = buf.len();
            } else {
                offset = offset + advance;
            }
        } else {
            if buf.len() - offset - 4 < len {
                assert(rx_events(buf@, expected, offset as nat) =~= Seq::<RxEventModel>::empty());
                break;
            }
            let msg_start = offset + 4;
            let msg_end = msg_start + len;
            let ghost msg = buf@.subrange(msg_start as int, msg_end as int);
            let advance = (len + 3) / 4 * 4 + 4;
            if pkt_type == SDIO_TYPE_CFG_CMD_RSP {
                if len >= 8 {
                    let msg_id = crate::ipc::u16_from_le(buf, msg_start);
                    assert(le16_at(msg, 0) == msg_id);
                    let v = sub_vec(buf, msg_start, msg_end);
                    if expected != 0 && msg_id == expected {
                        evs.push(RxEvent::CmdRsp(v));
                    } else {
                        evs.push(RxEvent::Indication(v));
                    }
                }
            } else if pkt_type == SDIO_TYPE_CFG_DATA_CFM {
                if len >= 8 {
                    let status = crate::ipc::u32_from_le(buf, msg_start);
                    let used_idx = crate::ipc::u32_from_le(buf, msg_start + 4);
                    assert(le32_at(msg, 0) == status && le32_at(msg, 4) == used_idx);
                    evs.push(RxEvent::DataCfm { status, used_idx });
                }
            } else if pkt_type == SDIO_TYPE_CFG_PRINT {
                let v = sub_vec(buf, msg_start, msg_end);
                evs.push(RxEvent::Print(v));
            } else {
                evs.push(RxEvent::Unknown { pkt_type, pkt_len });
            }
            proof {
                assert(events_view(evs@) =~= events_view(before) + opt_seq(cfg_event(pkt_type, msg, pkt_len, expected)));
                lemma_align4(len as int);
            }
            if advance > buf.len() - offset {
                assert(rx_events(buf@, expected, (offset + advance) as nat) =~= Seq::<RxEventModel>::empty());
                assert(rx_events(buf@, expected, buf.len() as nat) =~= Seq::<RxEventModel>::empty());
                offset = buf.len();
            } else {
                offset = offset + advance;
            }
        }
    }
    evs
}

/// Adds a received Ethernet frame to the data queue, dropping the oldest
/// frame when 64 are already waiting.
pub fn push_rx_data(queue: &mut std::collections::VecDeque<Vec<u8>>, frame: Vec<u8>)
    ensures
        final(queue)@ == (if old(queue)@.len() >= DATA_RX_QUEUE_MAX { old(queue)@.drop_first() } else { old(queue)@ }).push(frame),
{
    if queue.len() >= DATA_RX_QUEUE_MAX {
        let _ = queue.pop_front();
    }
    queue.push_back(frame);
}

/// What the receive loop does with a block-count register value.
#[derive(Debug, Clone, Copy, PartialEq, Eq, Structural)]
pub enum RxPoll {
    /// The other-interrupt flag is set: read the register again.
    Retry { retries: u32 },
    /// Nothing more to read, or the flag persisted: stop.
    Stop,
    /// Read this many bytes from the FIFO.
    Read { len: usize },
}

/// The receive loop's decision for block count `block_cnt` after
/// `other_int_retries` consecutive other-interrupt reads: the flag is
/// tolerated three times, a zero count ends the loop, otherwise whole
/// 512-byte blocks are read.
pub fn rx_poll_step(block_cnt: u8, other_int_retries: u32) -> (r: RxPoll)
    requires
        other_int_retries <= 3,
    ensures
        block_cnt & SDIO_OTHER_INTERRUPT != 0 ==> r == (if other_int_retries + 1 > 3 { RxPoll::Stop } else {
            RxPoll::Retry { retries: (other_int_retries + 1) as u32 } }),
        block_cnt & SDIO_OTHER_INTERRUPT == 0 && block_cnt == 0 ==> r == RxPoll::Stop,
        block_cnt & SDIO_OTHER_INTERRUPT == 0 && block_cnt != 0 ==> r == (RxPoll::Read { len: (block_cnt * 512) as usize }),
{
    if block_cnt & SDIO_OTHER_INTERRUPT != 0 {
        let retries = other_int_retries + 1;
        if retries > 3 {
            return RxPoll::Stop;
        }
        return RxPoll::Retry { retries };
    }
    if block_cnt == 0 {
        return RxPoll::Stop;
    }
    RxPoll::Read { len: block_cnt as usize * 512 }
}

} // verus!
