//! Command manager logic: the parameter blocks of each LMAC request, the
//! confirmation parsers, confirmation matching while a command waits, and
//! the indication queue (scan results, awaited indications).

use vstd::prelude::*;

use std::collections::VecDeque;

use crate::eapol::{ETH_P_PAE, be16, zeros};
use crate::ipc::{le16, le16_at, le32, push2, push4, push_zeros, u16_from_le, u16_to_le, u32_to_le};
use crate::lmac_msg::{
    CMD_TX_TIMEOUT_DEFAULT_MS, CmdError, LMAC_MSG_SIZE, MAC_SEC_KEY_LEN, MAC_SSID_LEN, SCANU_RESULT_IND,
    chan_2g4_freq_table, chan_2g4_freqs,
};

verus! {

// ------------------------------------------------------------------
// Waiting for a confirmation
// ------------------------------------------------------------------

/// The timeout a command uses: the given one, or 5000 ms for 0.
pub fn effective_timeout(timeout_ms: u64) -> (t: u64)
    ensures
        t == (if timeout_ms == 0 { CMD_TX_TIMEOUT_DEFAULT_MS } else { timeout_ms }),
{
    if timeout_ms == 0 { CMD_TX_TIMEOUT_DEFAULT_MS } else { timeout_ms }
}

/// The error a waiting command gives up with: `BusDown` once the bus is
/// down or responses failed, `Timeout` once more than `timeout_ns` passed;
/// `None` while it keeps waiting.
pub fn cmd_wait_check(rsp_error: bool, bus_down: bool, elapsed_ns: u64, timeout_ns: u64) -> (r: Option<CmdError>)
    ensures
        r == (if rsp_error || bus_down { Some(CmdError::BusDown) } else if elapsed_ns > timeout_ns {
            Some(CmdError::Timeout) } else { None::<CmdError> }),
{
    if rsp_error || bus_down {
        Some(CmdError::BusDown)
    } else if elapsed_ns > timeout_ns {
        Some(CmdError::Timeout)
    } else {
        None
    }
}

/// What happens to a response taken from the command queue.
pub enum CfmDisposition {
    /// The awaited confirmation: its parameters.
    Matched(Vec<u8>),
    /// Another message: it goes to the indication queue.
    Indication(Vec<u8>),
    /// Too short to hold a message header: dropped.
    Dropped,
}

/// Model of a `CfmDisposition`.
pub enum CfmModel {
    Matched(Seq<u8>),
    Indication(Seq<u8>),
    Dropped,
}

impl View for CfmDisposition {
    type V = CfmModel;

    open spec fn view(&self) -> CfmModel {
        match self {
            CfmDisposition::Matched(v) => CfmModel::Matched(v@),
            CfmDisposition::Indication(v) => CfmModel::Indication(v@),
            CfmDisposition::Dropped => CfmModel::Dropped,
        }
    }
}

/// The parameters of a confirmation `rsp`: `param_len` bytes after the
/// 12-byte header, or all that is there when it is shorter.
pub open spec fn cfm_params(rsp: Seq<u8>) -> Seq<u8> {
    let end = 12 + le16_at(rsp, 6);
    if rsp.len() >= end { rsp.subrange(12, end) } else { rsp.subrange(12, rsp.len() as int) }
}

/// The disposition of response `rsp` for a command waiting for `expected`.
pub open spec fn cfm_disposition(rsp: Seq<u8>, expected: u16) -> CfmModel {
    if rsp.len() < 12 {
        CfmModel::Dropped
    } else if le16_at(rsp, 0) == expected {
        CfmModel::Matched(cfm_params(rsp))
    } else {
        CfmModel::Indication(rsp)
    }
}

/// Decides what to do with a response taken from the command queue.
pub fn classify_cfm(rsp: Vec<u8>, expected_cfm_id: u16) -> (d: CfmDisposition)
    ensures
        d@ == cfm_disposition(rsp@, expected_cfm_id),
{
    if rsp.len() < LMAC_MSG_SIZE {
        return CfmDisposition::Dropped;
    }
    let id = u16_from_le(rsp.as_slice(), 0);
    if id != expected_cfm_id {
        return CfmDisposition::Indication(rsp);
    }
    let param_len = u16_from_le(rsp.as_slice(), 6) as usize;
    let end = LMAC_MSG_SIZE + param_len;
    let stop = if rsp.len() >= end { end } else { rsp.len() };
    CfmDisposition::Matched(crate::rx::sub_vec(rsp.as_slice(), LMAC_MSG_SIZE, stop))
}

// ------------------------------------------------------------------
// Indication queue
// ------------------------------------------------------------------

/// The message views of a queue.
pub open spec fn msgs(q: Seq<Vec<u8>>) -> Seq<Seq<u8>> {
    q.map_values(|v: Vec<u8>| v@)
}

/// Message `m` is indication `id`.
pub open spec fn is_msg(m: Seq<u8>, id: u16) -> bool {
    m.len() >= 12 && le16_at(m, 0) == id
}

/// Takes the first indication `target_msg_id` out of `queue` and returns
/// its parameters (the bytes after the 12-byte header); `None`, queue
/// untouched, when there is none.
pub fn take_indication(queue: &mut VecDeque<Vec<u8>>, target_msg_id: u16) -> (r: Option<Vec<u8>>)
    ensures
        match r {
            Some(p) => exists|i: int| {
                &&& 0 <= i < old(queue)@.len()
                &&& is_msg(old(queue)@[i]@, target_msg_id)
                &&& (forall|j: int| 0 <= j < i ==> !is_msg(#[trigger] old(queue)@[j]@, target_msg_id))
                &&& p@ == old(queue)@[i]@.subrange(12, old(queue)@[i]@.len() as int)
                &&& final(queue)@ == old(queue)@.remove(i)
            },
            None => {
                &&& forall|j: int| 0 <= j < old(queue)@.len() ==> !is_msg(#[trigger] old(queue)@[j]@, target_msg_id)
                &&& final(queue)@ == old(queue)@
            },
        },
{
    let mut i: usize = 0;
    while i < queue.len()
        invariant
            i <= queue@.len(),
            queue@ == old(queue)@,
            forall|j: int| 0 <= j < i ==> !is_msg(#[trigger] old(queue)@[j]@, target_msg_id),
        decreases queue@.len() - i,
    {
        let hit = {
            let m = &queue[i];
            if m.len() >= LMAC_MSG_SIZE {
                u16_from_le(m.as_slice(), 0) == target_msg_id
            } else {
                false
            }
        };
        if hit {
            let ghost before = queue@;
            let raw = queue.remove(i);
            match raw {
                Some(m) => {
                    let p = crate::rx::sub_vec(m.as_slice(), LMAC_MSG_SIZE, m.len());
                    return Some(p);
                },
                None => {
                    return None;
                },
            }
        }
        i = i + 1;
    }
    None
}

// ------------------------------------------------------------------
// Scan results
// ------------------------------------------------------------------

/// A BSS found by a scan.
pub struct ScanResult {
    pub ssid: [u8; 32],
    pub ssid_len: u8,
    pub bssid: [u8; 6],
    pub center_freq: u16,
    pub rssi: i8,
    pub capability: u16,
    pub beacon_interval: u16,
    /// The 802.11 management frame (beacon or probe response).
    pub raw_payload: Vec<u8>,
}

/// Model of a `ScanResult`.
pub struct ScanModel {
    pub ssid: Seq<u8>,
    pub ssid_len: u8,
    pub bssid: Seq<u8>,
    pub center_freq: u16,
    pub rssi: i8,
    pub capability: u16,
    pub beacon_interval: u16,
    pub raw_payload: Seq<u8>,
}

impl View for ScanResult {
    type V = ScanModel;

    open spec fn view(&self) -> ScanModel {
        ScanModel {
            ssid: self.ssid@,
            ssid_len: self.ssid_len,
            bssid: self.bssid@,
            center_freq: self.center_freq,
            rssi: self.rssi,
            capability: self.capability,
            beacon_interval: self.beacon_interval,
            raw_payload: self.raw_payload@,
        }
    }
}

/// The SSID bytes of the first SSID element (ID 0) among the information
/// elements of `body` from `off` on, at most 32 of them; empty when there
/// is none or an element runs past the body first.
pub open spec fn find_ssid(body: Seq<u8>, off: nat) -> Seq<u8>
    decreases body.len() - off,
{
    if off + 2 > body.len() {
        Seq::empty()
    } else {
        let id = body[off as int];
        let len = body[off as int + 1] as nat;
        if off + 2 + len > body.len() {
            Seq::empty()
        } else if id == 0 {
            body.subrange(off as int + 2, off as int + 2 + (if len < 32 { len as int } else { 32int }))
        } else {
            find_ssid(body, off + 2 + len)
        }
    }
}

/// The scan result carried by the parameters of a SCANU_RESULT_IND:
/// frequency at 4, RSSI at 9, the management frame from 10 (BSSID at
/// 16..22 of it, beacon interval and capability at 8 and 10 of the frame
/// body after the 24-byte header, then the elements).
pub open spec fn scan_result_of(param: Seq<u8>) -> Option<ScanModel> {
    if param.len() < 10 || param.len() < 10 + 24 + 12 {
        None
    } else {
        let payload = param.subrange(10, param.len() as int);
        let body = payload.subrange(24, payload.len() as int);
        let ssid = find_ssid(body, 12);
        Some(ScanModel {
            ssid: ssid + zeros((32 - ssid.len()) as nat),
            ssid_len: ssid.len() as u8,
            bssid: payload.subrange(16, 22),
            center_freq: le16_at(param, 4),
            rssi: param[9] as i8,
            capability: le16_at(body, 10),
            beacon_interval: le16_at(body, 8),
            raw_payload: payload,
        })
    }
}

/// Parses the parameters of a SCANU_RESULT_IND.
pub fn parse_scanu_result_ind(param: &[u8]) -> (r: Option<ScanResult>)
    ensures
        match r {
            Some(x) => scan_result_of(param@) == Some(x@),
            None => scan_result_of(param@) is None,
        },
{
    if param.len() < 10 {
        return None;
    }
    let center_freq = u16_from_le(param, 4);
    let rssi = #[verifier::truncate] (param[9] as i8);
    if param.len() - 10 < 24 {
        return None;
    }
    if param.len() - 10 - 24 < 12 {
        return None;
    }
    let ghost payload = param@.subrange(10, param@.len() as int);
    let ghost body = payload.subrange(24, payload.len() as int);
    let b = 34usize;
    let mut bssid = [0u8; 6];
    crate::crypto::copy_into(&mut bssid, 0, param, 26, 6);
    assert(bssid@ =~= payload.subrange(16, 22));
    let beacon_interval = u16_from_le(param, b + 8);
    let capability = u16_from_le(param, b + 10);
    assert(le16_at(body, 8) == beacon_interval && le16_at(body, 10) == capability);
    let mut ssid = [0u8; 32];
    let mut ssid_len: u8 = 0;
    let mut ie_offset: usize = 12;
    let body_len = param.len() - b;
    assert(body.len() == body_len);
    loop
        invariant_except_break
            ssid@ == zeros(32),
            ssid_len == 0,
        invariant
            12 <= ie_offset,
            b == 34,
            body_len + 34 == param.len(),
            body == param@.subrange(34, param@.len() as int),
            find_ssid(body, ie_offset as nat) == find_ssid(body, 12),
        ensures
            ssid@ == find_ssid(body, 12) + zeros((32 - find_ssid(body, 12).len()) as nat),
            ssid_len == find_ssid(body, 12).len(),
        decreases body_len + 2 - ie_offset,
    {
        if ie_offset >= body_len || body_len - ie_offset < 2 {
            assert(find_ssid(body, ie_offset as nat) =~= Seq::<u8>::empty());
            assert(ssid@ =~= Seq::<u8>::empty() + zeros(32));
            break;
        }
        let ie_id = param[b + ie_offset];
        let ie_len = param[b + ie_offset + 1] as usize;
        if body_len - ie_offset - 2 < ie_len {
            assert(find_ssid(body, ie_offset as nat) =~= Seq::<u8>::empty());
            assert(ssid@ =~= Seq::<u8>::empty() + zeros(32));
            break;
        }
        if ie_id == 0 {
            let len = if ie_len < MAC_SSID_LEN { ie_len } else { MAC_SSID_LEN };
            crate::crypto::copy_into(&mut ssid, 0, param, b + ie_offset + 2, len);
            ssid_len = len as u8;
            assert(find_ssid(body, ie_offset as nat) =~= param@.subrange((b + ie_offset + 2) as int, (b + ie_offset + 2 + len) as int));
            assert(ssid@ =~= find_ssid(body, 12) + zeros((32 - len) as nat));
            break;
        }
        ie_offset = ie_offset + 2 + ie_len;
    }
    let raw_payload = crate::rx::sub_vec(param, 10, param.len());
    Some(ScanResult { ssid, ssid_len, bssid, center_freq, rssi, capability, beacon_interval, raw_payload })
}

/// Message `m` is a scan result indication.
pub open spec fn is_scan_ind(m: Seq<u8>) -> bool {
    is_msg(m, SCANU_RESULT_IND)
}

/// The scan results carried by the scan result indications of `q`, in
/// order (indications that do not parse give none).
pub open spec fn scan_results_in(q: Seq<Seq<u8>>) -> Seq<ScanModel>
    decreases q.len(),
{
    if q.len() == 0 {
        Seq::empty()
    } else {
        let rest = scan_results_in(q.drop_first());
        if is_scan_ind(q[0]) {
            match scan_result_of(q[0].subrange(12, q[0].len() as int)) {
                Some(r) => seq![r] + rest,
                None => rest,
            }
        } else {
            rest
        }
    }
}

/// The messages of `q` that are not scan result indications, in order.
pub open spec fn non_scan_msgs(q: Seq<Seq<u8>>) -> Seq<Seq<u8>>
    decreases q.len(),
{
    if q.len() == 0 {
        Seq::empty()
    } else if is_scan_ind(q[0]) {
        non_scan_msgs(q.drop_first())
    } else {
        seq![q[0]] + non_scan_msgs(q.drop_first())
    }
}

/// Takes every scan result indication out of the indication queue and
/// parses it; the other messages stay, in order.
pub fn collect_scan_results(queue: &mut VecDeque<Vec<u8>>) -> (results: Vec<ScanResult>)
    ensures
        results@.map_values(|r: ScanResult| r@) == scan_results_in(msgs(old(queue)@)),
        msgs(final(queue)@) == non_scan_msgs(msgs(old(queue)@)),
{
    let mut results: Vec<ScanResult> = Vec::new();
    let mut remaining: VecDeque<Vec<u8>> = VecDeque::new();
    let ghost all = msgs(queue@);
    loop
        invariant
            results@.map_values(|r: ScanResult| r@) + scan_results_in(msgs(queue@)) == scan_results_in(all),
            msgs(remaining@) + non_scan_msgs(msgs(queue@)) == non_scan_msgs(all),
            all == msgs(old(queue)@),
        ensures
            queue@.len() == 0,
            results@.map_values(|r: ScanResult| r@) == scan_results_in(all),
            msgs(remaining@) == non_scan_msgs(all),
        decreases queue@.len(),
    {
        let ghost q = msgs(queue@);
        match queue.pop_front() {
            None => {
                assert(msgs(queue@) =~= Seq::<Seq<u8>>::empty());
                assert(results@.map_values(|r: ScanResult| r@) + Seq::<ScanModel>::empty() =~= results@.map_values(|r: ScanResult| r@));
                assert(msgs(remaining@) + Seq::<Seq<u8>>::empty() =~= msgs(remaining@));
                break;
            },
            Some(m) => {
                assert(msgs(queue@) =~= q.drop_first());
                assert(q[0] == m@);
                let ghost rv = results@.map_values(|r: ScanResult| r@);
                let ghost remv = msgs(remaining@);
                let scan = if m.len() >= LMAC_MSG_SIZE { u16_from_le(m.as_slice(), 0) == SCANU_RESULT_IND } else { false };
                if scan {
                    let param = vstd::slice::slice_subrange(m.as_slice(), LMAC_MSG_SIZE, m.len());
                    match parse_scanu_result_ind(param) {
                        Some(r) => {
                            results.push(r);
                            assert(results@.map_values(|r: ScanResult| r@) =~= rv.push(results@.last()@));
                        },
                        None => {},
                    }
                    assert(remv + non_scan_msgs(q.drop_first()) == non_scan_msgs(all));
                } else {
                    remaining.push_back(m);
                    assert(msgs(remaining@) =~= remv.push(m@));
                    assert(msgs(remaining@) + non_scan_msgs(q.drop_first()) =~= remv + non_scan_msgs(q));
                }
            },
        }
    }
    *queue = remaining;
    results
}

// ------------------------------------------------------------------
// Confirmation parsers
// ------------------------------------------------------------------

/// A `status, index` confirmation (MM_ADD_IF_CFM, MM_KEY_ADD_CFM): the
/// index when the status is 0, `FirmwareError` otherwise,
/// `InvalidResponse` when shorter than two bytes.
pub open spec fn status_cfm(rsp: Seq<u8>) -> Result<u8, CmdError> {
    if rsp.len() < 2 {
        Err(CmdError::InvalidResponse)
    } else if rsp[0] != 0 {
        Err(CmdError::FirmwareError)
    } else {
        Ok(rsp[1])
    }
}

/// Parses a `status, index` confirmation.
pub fn parse_status_cfm(rsp: &[u8]) -> (r: Result<u8, CmdError>)
    ensures
        r == status_cfm(rsp@),
{
    if rsp.len() >= 2 {
        if rsp[0] != 0 {
            return Err(CmdError::FirmwareError);
        }
        Ok(rsp[1])
    } else {
        Err(CmdError::InvalidResponse)
    }
}

// ------------------------------------------------------------------
// Request parameters
// ------------------------------------------------------------------

/// MM_SET_TXPWR_IDX_LVL_REQ parameters (AIC8801 defaults).
pub open spec fn txpwr_idx_param() -> Seq<u8> {
    seq![1u8, 9, 8, 8, 8, 8, 11, 10, 9, 9]
}

/// Builds the MM_SET_TXPWR_IDX_LVL_REQ parameters.
pub fn build_txpwr_idx_param() -> (p: [u8; 10])
    ensures
        p@ == txpwr_idx_param(),
{
    let p: [u8; 10] = [1, 9, 8, 8, 8, 8, 11, 10, 9, 9];
    assert(p@ =~= txpwr_idx_param());
    p
}

/// MM_SET_TXPWR_OFST_REQ parameters: enabled, all offsets zero.
pub open spec fn txpwr_ofst_param() -> Seq<u8> {
    seq![1u8] + zeros(7)
}

/// Builds the MM_SET_TXPWR_OFST_REQ parameters.
pub fn build_txpwr_ofst_param() -> (p: [u8; 8])
    ensures
        p@ == txpwr_ofst_param(),
{
    let p: [u8; 8] = [1, 0, 0, 0, 0, 0, 0, 0];
    assert(p@ =~= txpwr_ofst_param());
    p
}

/// MM_SET_RF_CALIB_REQ parameters (AIC8801): calibration configurations,
/// alpha, BT calibration, crystal capacitances zero.
pub open spec fn rf_calib_param() -> Seq<u8> {
    le32(0xbf) + le32(0x3f) + le32(0x0c34c008) + le32(0) + le32(0x00264203) + zeros(2)
}

/// Builds the MM_SET_RF_CALIB_REQ parameters.
pub fn build_rf_calib_param() -> (p: Vec<u8>)
    ensures
        p@ == rf_calib_param(),
{
    let mut p: Vec<u8> = Vec::new();
    push4(&mut p, u32_to_le(0xbf));
    push4(&mut p, u32_to_le(0x3f));
    push4(&mut p, u32_to_le(0x0c34c008));
    push4(&mut p, u32_to_le(0));
    push4(&mut p, u32_to_le(0x00264203));
    push_zeros(&mut p, 2);
    p
}

/// ME_CONFIG_REQ parameters (102 bytes): HT capability with LDPC, A-MPDU
/// parameters 0x1F and MCS 0-7; HT supported; everything else zero.
pub open spec fn me_config_param() -> Seq<u8> {
    seq![1u8, 0, 0x1F, 0xFF] + zeros(91) + seq![1u8] + zeros(6)
}

/// Builds the ME_CONFIG_REQ parameters.
pub fn build_me_config_param() -> (p: Vec<u8>)
    ensures
        p@ == me_config_param(),
{
    let mut p: Vec<u8> = Vec::new();
    push2(&mut p, u16_to_le(0x0001));
    let ampdu: u8 = 3 | (7u8 << 2u8);
    assert(ampdu == 0x1F) by (bit_vector)
        requires
            ampdu == 3u8 | (7u8 << 2u8),
    ;
    p.push(ampdu);
    p.push(0xFF);
    push_zeros(&mut p, 91);
    p.push(1);
    push_zeros(&mut p, 6);
    assert(p@ =~= me_config_param());
    p
}

/// One channel definition: frequency, band 2.4 GHz, no flags, 30 dBm.
pub open spec fn chan_def(freq: u16) -> Seq<u8> {
    le16(freq) + seq![0u8, 0, 30]
}

/// The channel definitions of the first `n` 2.4 GHz channels.
pub open spec fn chan_defs(n: nat) -> Seq<u8>
    decreases n,
{
    if n == 0 { Seq::empty() } else { chan_defs((n - 1) as nat) + chan_def(chan_2g4_freq_table()[n - 1]) }
}

/// Appends the definitions of the fourteen 2.4 GHz channels.
fn push_chan_defs(p: &mut Vec<u8>)
    ensures
        final(p)@ == old(p)@ + chan_defs(14),
{
    let freqs = chan_2g4_freqs();
    let mut i: usize = 0;
    while i < 14
        invariant
            i <= 14,
            freqs@ == chan_2g4_freq_table(),
            p@ == old(p)@ + chan_defs(i as nat),
        decreases 14 - i,
    {
        push2(p, u16_to_le(freqs[i]));
        p.push(0);
        p.push(0);
        p.push(30);
        assert(chan_defs((i + 1) as nat) =~= chan_defs(i as nat) + chan_def(freqs@[i as int]));
        assert(p@ =~= old(p)@ + chan_defs((i + 1) as nat));
        i = i + 1;
    }
}

/// ME_CHAN_CONFIG_REQ parameters: the fourteen 2.4 GHz channels, 28 empty
/// 5 GHz slots, then the counts 14 and 0.
pub open spec fn me_chan_config_param() -> Seq<u8> {
    chan_defs(14) + zeros(140) + seq![14u8, 0]
}

/// Builds the ME_CHAN_CONFIG_REQ parameters.
pub fn build_me_chan_config_param() -> (p: Vec<u8>)
    ensures
        p@ == me_chan_config_param(),
{
    let mut p: Vec<u8> = Vec::new();
    push_chan_defs(&mut p);
    push_zeros(&mut p, 140);
    p.push(14);
    p.push(0);
    assert(p@ =~= me_chan_config_param());
    p
}

/// MM_START_REQ parameters: zero PHY configuration, U-APSD timeout 300,
/// low-power clock accuracy 20 ppm.
pub open spec fn mm_start_param() -> Seq<u8> {
    zeros(64) + le32(300) + le16(20)
}

/// Builds the MM_START_REQ parameters.
pub fn build_mm_start_param() -> (p: Vec<u8>)
    ensures
        p@ == mm_start_param(),
{
    let mut p: Vec<u8> = Vec::new();
    push_zeros(&mut p, 64);
    push4(&mut p, u32_to_le(300));
    push2(&mut p, u16_to_le(20));
    p
}

/// MM_ADD_IF_REQ parameters: station interface with MAC `mac`, no P2P.
pub open spec fn add_if_param(mac: Seq<u8>) -> Seq<u8> {
    seq![crate::lmac_msg::MM_STA] + mac + seq![0u8]
}

/// Builds the MM_ADD_IF_REQ parameters.
pub fn build_add_if_param(mac_addr: &[u8; 6]) -> (p: [u8; 8])
    ensures
        p@ == add_if_param(mac_addr@),
{
    let p: [u8; 8] = [crate::lmac_msg::MM_STA, mac_addr[0], mac_addr[1], mac_addr[2], mac_addr[3], mac_addr[4],
        mac_addr[5], 0];
    assert(p@ =~= add_if_param(mac_addr@));
    p
}

/// The SSID block of a scan request (three 33-byte slots): the first slot
/// holds the length and at most 32 bytes of `ssid`.
pub open spec fn scan_ssid_block(ssid: Option<Seq<u8>>) -> Seq<u8> {
    match ssid {
        Some(s) => {
            let len = if s.len() < 32 { s.len() } else { 32 };
            seq![len as u8] + s.subrange(0, len as int) + zeros((32 - len) as nat) + zeros(66)
        },
        None => zeros(99),
    }
}

/// SCANU_START_REQ parameters (329 bytes): the fourteen 2.4 GHz channels
/// in 42 slots, the SSID block, broadcast BSSID, no extra IEs, interface
/// `vif_idx`, 14 channels, one SSID when given, CCK allowed, default
/// duration.
pub open spec fn scanu_start_param(vif_idx: u8, ssid: Option<Seq<u8>>) -> Seq<u8> {
    chan_defs(14) + zeros(140) + scan_ssid_block(ssid) + seq![0xFFu8, 0xFF, 0xFF, 0xFF, 0xFF, 0xFF]
        + zeros(6) + seq![vif_idx, 14u8, if ssid is Some { 1u8 } else { 0u8 }, 0u8] + zeros(4)
}

/// Builds the SCANU_START_REQ parameters.
pub fn build_scanu_start_param(vif_idx: u8, ssid: Option<&[u8]>) -> (p: Vec<u8>)
    ensures
        p@ == scanu_start_param(vif_idx, match ssid { Some(s) => Some(s@), None => None }),
{
    let mut p: Vec<u8> = Vec::new();
    push_chan_defs(&mut p);
    push_zeros(&mut p, 140);
    let ghost before = p@;
    let ssid_cnt: u8 = match ssid {
        Some(s) => {
            let len = if s.len() < MAC_SSID_LEN { s.len() } else { MAC_SSID_LEN };
            p.push(len as u8);
            crate::crypto::append_bytes(&mut p, vstd::slice::slice_subrange(s, 0, len));
            push_zeros(&mut p, MAC_SSID_LEN - len);
            push_zeros(&mut p, 66);
            assert(p@ =~= before + scan_ssid_block(Some(s@)));
            1
        },
        None => {
            push_zeros(&mut p, 99);
            0
        },
    };
    push_zeros(&mut p, 0);
    let bc: [u8; 6] = [0xFF; 6];
    crate::crypto::append_bytes(&mut p, &bc);
    push_zeros(&mut p, 6);
    p.push(vif_idx);
    p.push(14);
    p.push(ssid_cnt);
    p.push(0);
    push_zeros(&mut p, 4);
    assert(bc@ =~= seq![0xFFu8, 0xFF, 0xFF, 0xFF, 0xFF, 0xFF]);
    assert(p@ =~= scanu_start_param(vif_idx, match ssid { Some(s) => Some(s@), None => None }));
    p
}

/// The channel field of a connect request: `freq` with 2.4 GHz, no flags
/// and 30 dBm, or frequency 0xFFFF (any channel) for 0 and 0xFFFF.
pub open spec fn connect_chan(freq: u16) -> Seq<u8> {
    if freq != 0 && freq != 0xFFFF { le16(freq) + seq![0u8, 0, 30] } else { le16(0xFFFF) + zeros(3) }
}

/// Length of a field capped at `cap` bytes.
pub open spec fn capped(len: nat, cap: nat) -> nat {
    if len < cap { len } else { cap }
}

/// The SSID field (length byte, bytes, zero padding to 33) and the BSSID.
pub open spec fn connect_head(ssid: Seq<u8>, bssid: Seq<u8>) -> Seq<u8> {
    let sl = capped(ssid.len(), 32);
    seq![sl as u8] + ssid.subrange(0, sl as int) + zeros((33 - sl) as nat) + bssid
}

/// Padding, flags, control-port ethertype 0x888E (network order), IE
/// length, listen interval 1, no BC/MC wait, auth type, no U-APSD, the
/// interface, padding.
pub open spec fn connect_mid(vif_idx: u8, flags: u32, auth_type: u8, ie_len: nat) -> Seq<u8> {
    zeros(3) + le32(flags) + be16(ETH_P_PAE) + le16(ie_len as u16) + le16(1) + seq![0u8, auth_type, 0u8, vif_idx] + zeros(2)
}

/// The IEs, at most 256 bytes, zero padded to 256.
pub open spec fn connect_tail(ie: Seq<u8>) -> Seq<u8> {
    let il = capped(ie.len(), 256);
    ie.subrange(0, il as int) + zeros((256 - il) as nat)
}

/// SM_CONNECT_REQ parameters (320 bytes): SSID (at most 32 bytes), BSSID,
/// channel, flags, control-port ethertype, IE length (at most 256), listen
/// interval, auth type, interface, and the IEs.
pub open spec fn sm_connect_param(vif_idx: u8, ssid: Seq<u8>, bssid: Seq<u8>, freq: u16, flags: u32, auth_type: u8, ie: Seq<u8>) -> Seq<u8> {
    connect_head(ssid, bssid) + connect_chan(freq) + connect_mid(vif_idx, flags, auth_type, capped(ie.len(), 256)) + connect_tail(ie)
}

fn push_connect_head(p: &mut Vec<u8>, ssid: &[u8], bssid: &[u8; 6])
    ensures
        final(p)@ == old(p)@ + connect_head(ssid@, bssid@),
{
    let ssid_len = if ssid.len() < MAC_SSID_LEN { ssid.len() } else { MAC_SSID_LEN };
    p.push(ssid_len as u8);
    crate::crypto::append_bytes(p, vstd::slice::slice_subrange(ssid, 0, ssid_len));
    push_zeros(p, 33 - ssid_len);
    crate::crypto::append_bytes(p, bssid);
    assert(p@ =~= old(p)@ + connect_head(ssid@, bssid@));
}

fn push_connect_chan(p: &mut Vec<u8>, channel_freq: u16)
    ensures
        final(p)@ == old(p)@ + connect_chan(channel_freq),
{
    if channel_freq != 0 && channel_freq != 0xFFFF {
        push2(p, u16_to_le(channel_freq));
        p.push(0);
        p.push(0);
        p.push(30);
    } else {
        push2(p, u16_to_le(0xFFFF));
        push_zeros(p, 3);
    }
    assert(p@ =~= old(p)@ + connect_chan(channel_freq));
}

fn push_connect_mid(p: &mut Vec<u8>, vif_idx: u8, flags: u32, auth_type: u8, ie_len: usize)
    requires
        ie_len <= 256,
    ensures
        final(p)@ == old(p)@ + connect_mid(vif_idx, flags, auth_type, ie_len as nat),
{
    push_zeros(p, 3);
    push4(p, u32_to_le(flags));
    p.push(0x88);
    p.push(0x8E);
    push2(p, u16_to_le(ie_len as u16));
    push2(p, u16_to_le(1));
    p.push(0);
    p.push(auth_type);
    p.push(0);
    p.push(vif_idx);
    push_zeros(p, 2);
    assert(be16(ETH_P_PAE) =~= seq![0x88u8, 0x8E]);
    assert(p@ =~= old(p)@ + connect_mid(vif_idx, flags, auth_type, ie_len as nat));
}

fn push_connect_tail(p: &mut Vec<u8>, ie: &[u8])
    ensures
        final(p)@ == old(p)@ + connect_tail(ie@),
{
    let ie_len = if ie.len() < 256 { ie.len() } else { 256 };
    crate::crypto::append_bytes(p, vstd::slice::slice_subrange(ie, 0, ie_len));
    push_zeros(p, 256 - ie_len);
    assert(p@ =~= old(p)@ + connect_tail(ie@));
}

/// Builds the SM_CONNECT_REQ parameters.
pub fn build_sm_connect_param(vif_idx: u8, ssid: &[u8], bssid: &[u8; 6], channel_freq: u16, flags: u32, auth_type: u8, ie: &[u8]) -> (p: Vec<u8>)
    ensures
        p@ == sm_connect_param(vif_idx, ssid@, bssid@, channel_freq, flags, auth_type, ie@),
        p@.len() == 320,
{
    let ie_len = if ie.len() < 256 { ie.len() } else { 256 };
    let mut p: Vec<u8> = Vec::new();
    push_connect_head(&mut p, ssid, bssid);
    push_connect_chan(&mut p, channel_freq);
    push_connect_mid(&mut p, vif_idx, flags, auth_type, ie_len);
    push_connect_tail(&mut p, ie);
    assert(p@ =~= sm_connect_param(vif_idx, ssid@, bssid@, channel_freq, flags, auth_type, ie@));
    p
}

/// SM_DISCONNECT_REQ parameters: reason code and interface.
pub open spec fn sm_disconnect_param(vif_idx: u8, reason_code: u16) -> Seq<u8> {
    le16(reason_code) + seq![vif_idx]
}

/// Builds the SM_DISCONNECT_REQ parameters.
pub fn build_sm_disconnect_param(vif_idx: u8, reason_code: u16) -> (p: [u8; 3])
    ensures
        p@ == sm_disconnect_param(vif_idx, reason_code),
{
    let r = u16_to_le(reason_code);
    let p: [u8; 3] = [r[0], r[1], vif_idx];
    assert(p@ =~= sm_disconnect_param(vif_idx, reason_code));
    p
}

/// MM_KEY_ADD_REQ parameters (44 bytes): key index, station, key length
/// and at most 32 key bytes (at 4 and 8), cipher suite, interface, no SPP,
/// pairwise flag.
pub open spec fn key_add_param(vif_idx: u8, sta_idx: u8, pairwise: bool, key: Seq<u8>, key_idx: u8, cipher_suite: u8) -> Seq<u8> {
    let kl = if key.len() < 32 { key.len() } else { 32 };
    seq![key_idx, sta_idx, 0u8, 0u8, kl as u8, 0u8, 0u8, 0u8] + key.subrange(0, kl as int) + zeros((32 - kl) as nat)
        + seq![cipher_suite, vif_idx, 0u8, if pairwise { 1u8 } else { 0u8 }]
}

/// Builds the MM_KEY_ADD_REQ parameters.
pub fn build_key_add_param(vif_idx: u8, sta_idx: u8, pairwise: bool, key: &[u8], key_idx: u8, cipher_suite: u8) -> (p: Vec<u8>)
    ensures
        p@ == key_add_param(vif_idx, sta_idx, pairwise, key@, key_idx, cipher_suite),
        p@.len() == 44,
{
    let key_len = if key.len() < MAC_SEC_KEY_LEN { key.len() } else { MAC_SEC_KEY_LEN };
    let mut p: Vec<u8> = Vec::new();
    p.push(key_idx);
    p.push(sta_idx);
    push_zeros(&mut p, 2);
    p.push(key_len as u8);
    push_zeros(&mut p, 3);
    crate::crypto::append_bytes(&mut p, vstd::slice::slice_subrange(key, 0, key_len));
    push_zeros(&mut p, MAC_SEC_KEY_LEN - key_len);
    p.push(cipher_suite);
    p.push(vif_idx);
    p.push(0);
    p.push(if pairwise { 1 } else { 0 });
    assert(p@ =~= key_add_param(vif_idx, sta_idx, pairwise, key@, key_idx, cipher_suite));
    p
}

/// ME_SET_CONTROL_PORT_REQ parameters: station and open flag.
pub open spec fn control_port_param(sta_idx: u8, open: bool) -> Seq<u8> {
    seq![sta_idx, if open { 1u8 } else { 0u8 }]
}

/// Builds the ME_SET_CONTROL_PORT_REQ parameters.
pub fn build_control_port_param(sta_idx: u8, open: bool) -> (p: [u8; 2])
    ensures
        p@ == control_port_param(sta_idx, open),
{
    let p: [u8; 2] = [sta_idx, if open { 1 } else { 0 }];
    assert(p@ =~= control_port_param(sta_idx, open));
    p
}

} // verus!
