//! Decisions of the station bring-up: the LMAC configuration sequence, the
//! station address, the choice of the access point and of the RSN element,
//! the connect request's flags and the parsing of its indication, the
//! framing of EAPOL frames for the data path, and what follows each step of
//! the 4-way handshake.  The caller performs the returned actions on the
//! bus and feeds the outcomes back.

use vstd::prelude::*;

use crate::cmd::{
    ScanResult, build_control_port_param, build_key_add_param, build_me_chan_config_param,
    build_me_config_param, build_mm_start_param, build_rf_calib_param, build_txpwr_idx_param,
    build_txpwr_ofst_param, control_port_param, key_add_param, me_chan_config_param, me_config_param,
    mm_start_param, rf_calib_param, txpwr_idx_param, txpwr_ofst_param,
};
use crate::eapol::{ETH_P_PAE, be16};
use crate::ipc::{le16_at, u16_from_le};
use crate::lmac_msg::{
    CmdError,
    ME_CHAN_CONFIG_REQ, ME_CONFIG_REQ, ME_SET_CONTROL_PORT_REQ, MM_KEY_ADD_REQ, MM_SET_RF_CALIB_REQ,
    MM_SET_TXPWR_IDX_LVL_REQ, MM_SET_TXPWR_OFST_REQ, MM_START_REQ, MM_VERSION_REQ, TASK_ME, TASK_MM,
};
use crate::wpa2::{ActionModel, HandshakeAction, WpaError, result_view};

verus! {

/// Station address used when the firmware reports an all-zero one.
pub const DEFAULT_STA_MAC: [u8; 6] = [0x00, 0x6F, 0x6F, 0x6F, 0x6F, 0x00];
/// Cipher suite number of CCMP.
pub const MAC_CIPHER_CCMP: u8 = 3;
/// Station index that installs a group key.
pub const GROUP_KEY_STA_IDX: u8 = 0xFF;
/// Timeout of the key and control-port commands.
pub const KEY_CMD_TIMEOUT_MS: u64 = 5000;
/// Timeout of the LMAC configuration commands.
pub const LMAC_CMD_TIMEOUT_MS: u64 = 6000;
/// Timeout of the RF calibration.
pub const RF_CALIB_TIMEOUT_MS: u64 = 10000;
/// Privacy bit of the capability field.
pub const CAP_PRIVACY: u16 = 0x0010;

/// One thing the station does on the bus.
pub enum WifiAction {
    /// Send this EAPOL frame to the access point.
    SendEapol(Vec<u8>),
    /// Send a command to the LMAC and wait for its confirmation; with
    /// `check_status` the confirmation is a `status, index` pair whose
    /// non-zero status fails the bring-up.
    Command { msg_id: u16, dest: u16, param: Vec<u8>, timeout_ms: u64, check_status: bool },
}

/// Model of a `WifiAction`.
pub enum WifiActionModel {
    SendEapol(Seq<u8>),
    Command { msg_id: u16, dest: u16, param: Seq<u8>, timeout_ms: u64, check_status: bool },
}

impl View for WifiAction {
    type V = WifiActionModel;

    open spec fn view(&self) -> WifiActionModel {
        match self {
            WifiAction::SendEapol(f) => WifiActionModel::SendEapol(f@),
            WifiAction::Command { msg_id, dest, param, timeout_ms, check_status } => WifiActionModel::Command {
                msg_id: *msg_id,
                dest: *dest,
                param: param@,
                timeout_ms: *timeout_ms,
                check_status: *check_status,
            },
        }
    }
}

/// The models of a list of actions.
pub open spec fn actions_view(v: Seq<WifiAction>) -> Seq<WifiActionModel> {
    v.map_values(|a: WifiAction| a@)
}

pub open spec fn command(msg_id: u16, dest: u16, param: Seq<u8>, timeout_ms: u64, check_status: bool) -> WifiActionModel {
    WifiActionModel::Command { msg_id, dest, param, timeout_ms, check_status }
}

/// The LMAC configuration, in order: firmware version, TX power index and
/// offset, RF calibration, ME configuration, channel configuration, start.
pub open spec fn lmac_config_plan() -> Seq<WifiActionModel> {
    seq![
        command(MM_VERSION_REQ, TASK_MM, Seq::empty(), LMAC_CMD_TIMEOUT_MS, false),
        command(MM_SET_TXPWR_IDX_LVL_REQ, TASK_MM, txpwr_idx_param(), LMAC_CMD_TIMEOUT_MS, false),
        command(MM_SET_TXPWR_OFST_REQ, TASK_MM, txpwr_ofst_param(), LMAC_CMD_TIMEOUT_MS, false),
        command(MM_SET_RF_CALIB_REQ, TASK_MM, rf_calib_param(), RF_CALIB_TIMEOUT_MS, false),
        command(ME_CONFIG_REQ, TASK_ME, me_config_param(), LMAC_CMD_TIMEOUT_MS, false),
        command(ME_CHAN_CONFIG_REQ, TASK_ME, me_chan_config_param(), LMAC_CMD_TIMEOUT_MS, false),
        command(MM_START_REQ, TASK_MM, mm_start_param(), LMAC_CMD_TIMEOUT_MS, false),
    ]
}

fn cmd(msg_id: u16, dest: u16, param: Vec<u8>, timeout_ms: u64, check_status: bool) -> (a: WifiAction)
    ensures
        a@ == command(msg_id, dest, param@, timeout_ms, check_status),
{
    WifiAction::Command { msg_id, dest, param, timeout_ms, check_status }
}

fn array_vec(a: &[u8]) -> (v: Vec<u8>)
    ensures
        v@ == a@,
{
    crate::crypto::bytes_to_vec(a)
}

/// The commands that configure the LMAC, in the order they are sent.
pub fn lmac_config_commands() -> (v: Vec<WifiAction>)
    ensures
        actions_view(v@) == lmac_config_plan(),
{
    let mut v: Vec<WifiAction> = Vec::new();
    v.push(cmd(MM_VERSION_REQ, TASK_MM, Vec::new(), LMAC_CMD_TIMEOUT_MS, false));
    let idx = build_txpwr_idx_param();
    v.push(cmd(MM_SET_TXPWR_IDX_LVL_REQ, TASK_MM, array_vec(&idx), LMAC_CMD_TIMEOUT_MS, false));
    let ofst = build_txpwr_ofst_param();
    v.push(cmd(MM_SET_TXPWR_OFST_REQ, TASK_MM, array_vec(&ofst), LMAC_CMD_TIMEOUT_MS, false));
    v.push(cmd(MM_SET_RF_CALIB_REQ, TASK_MM, build_rf_calib_param(), RF_CALIB_TIMEOUT_MS, false));
    v.push(cmd(ME_CONFIG_REQ, TASK_ME, build_me_config_param(), LMAC_CMD_TIMEOUT_MS, false));
    v.push(cmd(ME_CHAN_CONFIG_REQ, TASK_ME, build_me_chan_config_param(), LMAC_CMD_TIMEOUT_MS, false));
    v.push(cmd(MM_START_REQ, TASK_MM, build_mm_start_param(), LMAC_CMD_TIMEOUT_MS, false));
    assert(actions_view(v@) =~= lmac_config_plan());
    v
}

/// The station address to use: the firmware's, or `DEFAULT_STA_MAC` when
/// the firmware reports all zeros.
pub open spec fn sta_mac_choice(mac: Seq<u8>) -> Seq<u8> {
    if mac == seq![0u8, 0, 0, 0, 0, 0] {
        DEFAULT_STA_MAC@
    } else {
        mac
    }
}

/// Chooses the station address.
pub fn sta_mac_or_default(mac: [u8; 6]) -> (m: [u8; 6])
    ensures
        m@ == sta_mac_choice(mac@),
{
    let mut zero = true;
    let mut i: usize = 0;
    while i < 6
        invariant
            i <= 6,
            zero == (forall|j: int| 0 <= j < i ==> mac@[j] == 0u8),
        decreases 6 - i,
    {
        if mac[i] != 0 {
            zero = false;
        }
        i = i + 1;
    }
    if zero {
        assert(mac@ =~= seq![0u8, 0, 0, 0, 0, 0]);
        DEFAULT_STA_MAC
    } else {
        assert(mac@ != seq![0u8, 0, 0, 0, 0, 0]) by {
            let j = choose|j: int| 0 <= j < 6 && mac@[j] != 0u8;
            assert(seq![0u8, 0, 0, 0, 0, 0][j] == 0u8);
        }
        mac
    }
}

/// The SSID of a scan result: its first `ssid_len` bytes (all 32 when the
/// length says more).
pub open spec fn ssid_of(r: ScanResult) -> Seq<u8> {
    r.ssid@.subrange(0, if r.ssid_len <= 32 { r.ssid_len as int } else { 32 })
}

/// Index of the first result whose SSID is `ssid`.
pub open spec fn first_with_ssid(results: Seq<ScanResult>, ssid: Seq<u8>, n: nat) -> Option<usize>
    decreases n,
{
    if n == 0 {
        None
    } else {
        match first_with_ssid(results, ssid, (n - 1) as nat) {
            Some(i) => Some(i),
            None => if ssid_of(results[n - 1]) == ssid { Some((n - 1) as usize) } else { None },
        }
    }
}

fn ssid_matches(r: &ScanResult, ssid: &[u8]) -> (b: bool)
    ensures
        b == (ssid_of(*r) == ssid@),
{
    let len: usize = if r.ssid_len <= 32 { r.ssid_len as usize } else { 32 };
    if len != ssid.len() {
        return false;
    }
    let mut i: usize = 0;
    while i < len
        invariant
            len == ssid.len(),
            len <= 32,
            r.ssid@.len() == 32,
            i <= len,
            forall|j: int| 0 <= j < i ==> r.ssid@[j] == ssid@[j],
        decreases len - i,
    {
        if r.ssid[i] != ssid[i] {
            return false;
        }
        i = i + 1;
    }
    assert(ssid_of(*r) =~= ssid@);
    true
}

proof fn lemma_first_stays(results: Seq<ScanResult>, ssid: Seq<u8>, i: nat, n: nat)
    requires
        i < n,
        first_with_ssid(results, ssid, (i + 1) as nat) == Some(i as usize),
    ensures
        first_with_ssid(results, ssid, n) == Some(i as usize),
    decreases n,
{
    if n > i + 1 {
        lemma_first_stays(results, ssid, i, (n - 1) as nat);
    }
}

/// Finds the access point to join: the first scan result with that SSID.
pub fn find_ap_by_ssid(results: &Vec<ScanResult>, ssid: &[u8]) -> (r: Option<usize>)
    ensures
        r == first_with_ssid(results@, ssid@, results.len() as nat),
        r matches Some(i) ==> i < results.len(),
{
    let mut i: usize = 0;
    while i < results.len()
        invariant
            i <= results.len(),
            first_with_ssid(results@, ssid@, i as nat) is None,
        decreases results.len() - i,
    {
        if ssid_matches(&results[i], ssid) {
            proof {
                lemma_first_stays(results@, ssid@, i as nat, results.len() as nat);
            }
            return Some(i);
        }
        i = i + 1;
    }
    None
}

/// The RSN element of WPA2-PSK: version 1, CCMP group and pairwise cipher,
/// PSK key management, no capabilities.
pub open spec fn wpa2_psk_rsn_ie() -> Seq<u8> {
    seq![0x30u8, 0x14, 0x01, 0x00, 0x00, 0x0f, 0xac, 0x04, 0x01, 0x00, 0x00, 0x0f, 0xac, 0x04,
        0x01, 0x00, 0x00, 0x0f, 0xac, 0x02, 0x00, 0x00]
}

/// The RSN element sent with the connect request to an access point with
/// this capability field: the WPA2-PSK element when the privacy bit is set,
/// none for an open network.
pub open spec fn connect_ie_for(capability: u16) -> Seq<u8> {
    if capability & CAP_PRIVACY != 0 {
        wpa2_psk_rsn_ie()
    } else {
        Seq::empty()
    }
}

/// Builds the WPA2-PSK RSN element.
pub fn build_wpa2_rsn_ie() -> (ie: Vec<u8>)
    ensures
        ie@ == wpa2_psk_rsn_ie(),
{
    let a: [u8; 22] = [0x30, 0x14, 0x01, 0x00, 0x00, 0x0f, 0xac, 0x04, 0x01, 0x00, 0x00, 0x0f, 0xac,
        0x04, 0x01, 0x00, 0x00, 0x0f, 0xac, 0x02, 0x00, 0x00];
    let v = array_vec(&a);
    assert(v@ =~= wpa2_psk_rsn_ie());
    v
}

/// Chooses the RSN element of the connect request.
pub fn connect_ie(capability: u16) -> (ie: Vec<u8>)
    ensures
        ie@ == connect_ie_for(capability),
{
    if capability & CAP_PRIVACY != 0 {
        build_wpa2_rsn_ie()
    } else {
        Vec::new()
    }
}

/// Connection flag: the host handles the controlled port (EAPOL).
pub const CONTROL_PORT_HOST: u32 = 0x01;
/// Connection flag: WPA/WPA2 is in use.
pub const WPA_WPA2_IN_USE: u32 = 0x08;

/// The flags of the connect request: a protected connection (an RSN
/// element is sent) leaves the controlled port to the host and announces
/// WPA2; an open one sets none.
pub fn connect_flags(ie_len: usize) -> (f: u32)
    ensures
        f == (if ie_len > 0 { CONTROL_PORT_HOST | WPA_WPA2_IN_USE } else { 0u32 }),
{
    if ie_len > 0 { CONTROL_PORT_HOST | WPA_WPA2_IN_USE } else { 0 }
}

/// The result of an SM_CONNECT_IND: the AP's station index (byte 10) when
/// the status code (bytes 0..2) is 0, `FirmwareError` otherwise;
/// `InvalidResponse` when shorter than 11 bytes.
pub open spec fn connect_ind_result(param: Seq<u8>) -> Result<u8, CmdError> {
    if param.len() < 11 {
        Err(CmdError::InvalidResponse)
    } else if le16_at(param, 0) != 0 {
        Err(CmdError::FirmwareError)
    } else {
        Ok(param[10])
    }
}

/// Parses the parameters of an SM_CONNECT_IND.
pub fn parse_sm_connect_ind(param: &[u8]) -> (r: Result<u8, CmdError>)
    ensures
        r == connect_ind_result(param@),
{
    if param.len() < 11 {
        return Err(CmdError::InvalidResponse);
    }
    if u16_from_le(param, 0) != 0 {
        return Err(CmdError::FirmwareError);
    }
    Ok(param[10])
}

/// The station address in an MM_GET_MAC_ADDR_CFM: its first six bytes;
/// `InvalidResponse` when shorter.
pub open spec fn mac_addr_cfm(rsp: Seq<u8>) -> Result<Seq<u8>, CmdError> {
    if rsp.len() < 6 {
        Err(CmdError::InvalidResponse)
    } else {
        Ok(rsp.subrange(0, 6))
    }
}

/// Parses an MM_GET_MAC_ADDR_CFM.
pub fn parse_mac_addr_cfm(rsp: &[u8]) -> (r: Result<[u8; 6], CmdError>)
    ensures
        match r {
            Ok(m) => mac_addr_cfm(rsp@) == Ok::<Seq<u8>, CmdError>(m@),
            Err(e) => mac_addr_cfm(rsp@) == Err::<Seq<u8>, CmdError>(e),
        },
{
    if rsp.len() < 6 {
        return Err(CmdError::InvalidResponse);
    }
    let mut m = [0u8; 6];
    crate::crypto::copy_into(&mut m, 0, rsp, 0, 6);
    assert(m@ =~= rsp@.subrange(0, 6));
    Ok(m)
}

/// The Ethernet frame that carries an EAPOL frame from `sa` to `da`.
pub open spec fn eapol_eth_frame_spec(da: Seq<u8>, sa: Seq<u8>, eapol: Seq<u8>) -> Seq<u8> {
    da + sa + be16(ETH_P_PAE) + eapol
}

/// Frames an EAPOL frame for the data path.
pub fn eapol_eth_frame(da: &[u8; 6], sa: &[u8; 6], eapol: &[u8]) -> (f: Vec<u8>)
    ensures
        f@ == eapol_eth_frame_spec(da@, sa@, eapol@),
{
    let mut f = array_vec(da);
    crate::crypto::append_bytes(&mut f, sa);
    f.push(0x88);
    f.push(0x8E);
    crate::crypto::append_bytes(&mut f, eapol);
    assert(f@ =~= eapol_eth_frame_spec(da@, sa@, eapol@));
    f
}

/// What follows the processing of an EAPOL frame, and whether the
/// handshake is over: M2 goes to the AP; a completed handshake sends M4,
/// installs the pairwise key (key index 0) and the group key (group
/// station index, its key index), both CCMP, and opens the control port;
/// an error ends the handshake with nothing sent.
pub open spec fn handshake_plan(outcome: Result<ActionModel, WpaError>, vif_idx: u8, ap_idx: u8) -> (Seq<WifiActionModel>, bool) {
    match outcome {
        Ok(ActionModel::SendM2(m2)) => (seq![WifiActionModel::SendEapol(m2)], false),
        Ok(ActionModel::Completed { m4, tk, gtk, gtk_key_idx }) => (
            seq![
                WifiActionModel::SendEapol(m4),
                command(MM_KEY_ADD_REQ, TASK_MM, key_add_param(vif_idx, ap_idx, true, tk, 0, MAC_CIPHER_CCMP),
                    KEY_CMD_TIMEOUT_MS, true),
                command(MM_KEY_ADD_REQ, TASK_MM,
                    key_add_param(vif_idx, GROUP_KEY_STA_IDX, false, gtk, gtk_key_idx, MAC_CIPHER_CCMP),
                    KEY_CMD_TIMEOUT_MS, true),
                command(ME_SET_CONTROL_PORT_REQ, TASK_ME, control_port_param(ap_idx, true), KEY_CMD_TIMEOUT_MS, false),
            ],
            true,
        ),
        Err(_) => (Seq::empty(), true),
    }
}

/// Turns the outcome of `Wpa2Handshake::process_eapol` into the actions to
/// perform and whether the handshake is over.
pub fn handshake_step(outcome: Result<HandshakeAction, WpaError>, vif_idx: u8, ap_idx: u8) -> (r: (Vec<WifiAction>, bool))
    ensures
        (actions_view(r.0@), r.1) == handshake_plan(result_view(outcome), vif_idx, ap_idx),
{
    let ghost o = result_view(outcome);
    let mut v: Vec<WifiAction> = Vec::new();
    match outcome {
        Ok(HandshakeAction::SendM2(m2)) => {
            v.push(WifiAction::SendEapol(m2));
            assert(actions_view(v@) =~= handshake_plan(o, vif_idx, ap_idx).0);
            (v, false)
        },
        Ok(HandshakeAction::Completed(res)) => {
            let ptk_param = build_key_add_param(vif_idx, ap_idx, true, &res.tk, 0, MAC_CIPHER_CCMP);
            let gtk_param = build_key_add_param(vif_idx, GROUP_KEY_STA_IDX, false, res.gtk.as_slice(), res.gtk_key_idx, MAC_CIPHER_CCMP);
            let port = build_control_port_param(ap_idx, true);
            v.push(WifiAction::SendEapol(res.m4_frame));
            v.push(cmd(MM_KEY_ADD_REQ, TASK_MM, ptk_param, KEY_CMD_TIMEOUT_MS, true));
            v.push(cmd(MM_KEY_ADD_REQ, TASK_MM, gtk_param, KEY_CMD_TIMEOUT_MS, true));
            v.push(cmd(ME_SET_CONTROL_PORT_REQ, TASK_ME, array_vec(&port), KEY_CMD_TIMEOUT_MS, false));
            assert(actions_view(v@) =~= handshake_plan(o, vif_idx, ap_idx).0);
            (v, true)
        },
        Err(_) => {
            assert(actions_view(v@) =~= handshake_plan(o, vif_idx, ap_idx).0);
            (v, true)
        },
    }
}

} // verus!
