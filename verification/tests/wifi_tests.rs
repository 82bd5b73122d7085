use aic8800::cmd::{build_control_port_param, build_key_add_param, build_rf_calib_param, ScanResult};
use aic8800::lmac_msg::CmdError;
use aic8800::wifi::{build_wpa2_rsn_ie, connect_flags, connect_ie, eapol_eth_frame, find_ap_by_ssid, handshake_step,
    lmac_config_commands, parse_mac_addr_cfm, parse_sm_connect_ind, sta_mac_or_default, WifiAction, DEFAULT_STA_MAC};
use aic8800::wpa2::{HandshakeAction, HandshakeResult, WpaError};

fn ap(ssid: &[u8]) -> ScanResult {
    let mut s = [0u8; 32];
    s[..ssid.len()].copy_from_slice(ssid);
    ScanResult {
        ssid: s,
        ssid_len: ssid.len() as u8,
        bssid: [1, 2, 3, 4, 5, 6],
        center_freq: 2412,
        rssi: -40,
        capability: 0x0411,
        beacon_interval: 100,
        raw_payload: vec![],
    }
}

fn command(a: &WifiAction) -> (u16, u16, Vec<u8>, u64, bool) {
    match a {
        WifiAction::Command { msg_id, dest, param, timeout_ms, check_status } => {
            (*msg_id, *dest, param.clone(), *timeout_ms, *check_status)
        }
        WifiAction::SendEapol(_) => panic!("not a command"),
    }
}

#[test]
fn lmac_configuration_sequence() {
    let v = lmac_config_commands();
    let ids: Vec<(u16, u16, u64)> = v.iter().map(|a| { let c = command(a); (c.0, c.1, c.3) }).collect();
    assert_eq!(ids, vec![
        (0x0004, 0, 6000),
        (0x0077, 0, 6000),
        (0x0079, 0, 6000),
        (0x0069, 0, 10000),
        (0x1400, 5, 6000),
        (0x1402, 5, 6000),
        (0x0002, 0, 6000),
    ]);
    assert!(command(&v[0]).2.is_empty());
    assert_eq!(command(&v[3]).2, build_rf_calib_param());
    assert!(v.iter().all(|a| !command(a).4));
}

#[test]
fn station_address_fallback() {
    assert_eq!(sta_mac_or_default([0; 6]), DEFAULT_STA_MAC);
    assert_eq!(sta_mac_or_default([0, 0, 0, 0, 0, 1]), [0, 0, 0, 0, 0, 1]);
    assert_eq!(DEFAULT_STA_MAC, [0x00, 0x6F, 0x6F, 0x6F, 0x6F, 0x00]);
}

#[test]
fn access_point_selection() {
    let results = vec![ap(b"other"), ap(b"CU_Q2aa"), ap(b"CU_Q2aa")];
    assert_eq!(find_ap_by_ssid(&results, b"CU_Q2aa"), Some(1));
    assert_eq!(find_ap_by_ssid(&results, b"CU_Q2"), None);
    assert_eq!(find_ap_by_ssid(&results, b"missing"), None);
    assert_eq!(find_ap_by_ssid(&vec![], b"x"), None);
}

#[test]
fn rsn_element_choice() {
    let ie = connect_ie(0x0011);
    assert_eq!(ie.len(), 22);
    assert_eq!(&ie[..4], &[0x30, 0x14, 0x01, 0x00]);
    assert_eq!(&ie[18..22], &[0xac, 0x02, 0x00, 0x00]);
    assert!(connect_ie(0x0401).is_empty());
}

#[test]
fn handshake_followups() {
    let (acts, done) = handshake_step(Ok(HandshakeAction::SendM2(vec![1, 2, 3])), 0, 2);
    assert!(!done);
    assert_eq!(acts.len(), 1);
    assert!(matches!(&acts[0], WifiAction::SendEapol(f) if f == &vec![1, 2, 3]));

    let result = HandshakeResult { m4_frame: vec![9; 99], tk: [7; 16], gtk: vec![5; 16], gtk_key_idx: 1 };
    let (acts, done) = handshake_step(Ok(HandshakeAction::Completed(result)), 0, 2);
    assert!(done);
    assert_eq!(acts.len(), 4);
    assert!(matches!(&acts[0], WifiAction::SendEapol(f) if f == &vec![9; 99]));
    assert_eq!(command(&acts[1]), (0x0024, 0, build_key_add_param(0, 2, true, &[7; 16], 0, 3), 5000, true));
    assert_eq!(command(&acts[2]), (0x0024, 0, build_key_add_param(0, 0xFF, false, &[5; 16], 1, 3), 5000, true));
    assert_eq!(command(&acts[3]), (0x1404, 5, build_control_port_param(2, true).to_vec(), 5000, false));

    let (acts, done) = handshake_step(Err(WpaError::MicMismatch), 0, 2);
    assert!(done);
    assert!(acts.is_empty());
}

#[test]
fn connect_request_and_indication() {
    assert_eq!(connect_flags(22), 0x09);
    assert_eq!(connect_flags(0), 0);
    assert_eq!(build_wpa2_rsn_ie(), connect_ie(0x0010));
    let mut ind = vec![0u8; 16];
    ind[10] = 3;
    assert_eq!(parse_sm_connect_ind(&ind), Ok(3));
    ind[0] = 17;
    assert_eq!(parse_sm_connect_ind(&ind), Err(CmdError::FirmwareError));
    assert_eq!(parse_sm_connect_ind(&[0; 10]), Err(CmdError::InvalidResponse));
}

#[test]
fn mac_address_confirmation() {
    assert_eq!(parse_mac_addr_cfm(&[1, 2, 3, 4, 5, 6, 7]), Ok([1, 2, 3, 4, 5, 6]));
    assert_eq!(parse_mac_addr_cfm(&[1, 2, 3]), Err(CmdError::InvalidResponse));
}

#[test]
fn eapol_framing() {
    let f = eapol_eth_frame(&[1; 6], &[2; 6], &[0xAA, 0xBB]);
    assert_eq!(f, vec![1, 1, 1, 1, 1, 1, 2, 2, 2, 2, 2, 2, 0x88, 0x8E, 0xAA, 0xBB]);
}
