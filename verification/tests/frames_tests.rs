use std::collections::VecDeque;

use aic8800::chip_id::ChipVariant;
use aic8800::cmd::{build_add_if_param, build_control_port_param, build_key_add_param, build_me_chan_config_param,
    build_me_config_param, build_mm_start_param, build_rf_calib_param, build_scanu_start_param,
    build_sm_connect_param, build_sm_disconnect_param, build_txpwr_idx_param, build_txpwr_ofst_param,
    classify_cfm, cmd_wait_check, collect_scan_results, effective_timeout, parse_scanu_result_ind,
    parse_status_cfm, take_indication, CfmDisposition};
use aic8800::lmac_msg::{chan_2g4_freqs, lmac_first_msg, msg_index, msg_t, CmdError, LmacMsg, SCANU_RESULT_IND};
use aic8800::rx::{dispatch_frames, push_rx_data, rx_poll_step, RxEvent, RxPoll};
use aic8800::tx::{align_up, build_cmd_frame, build_data_frame, cmd_credits_allow, data_credits_allow,
    enqueue_data_frame, pad_cmd_frame, padded_len, tx_batch_may_continue, BusState, TxError, TxFrame};

#[test]
fn chip_identification() {
    assert_eq!(ChipVariant::from_vid_did(0x5449, 0x0145), ChipVariant::Aic8801);
    assert_eq!(ChipVariant::from_vid_did(0xc8a1, 0xc08d), ChipVariant::Aic8800DC);
    assert_eq!(ChipVariant::from_vid_did(0xc8a1, 0x0082), ChipVariant::Aic8800D80);
    assert_eq!(ChipVariant::from_vid_did(0xc8a1, 0x2082), ChipVariant::Aic8800D80X2);
    assert_eq!(ChipVariant::from_vid_did(0x1234, 0x0145), ChipVariant::Unknown);
    assert!(ChipVariant::Aic8800D80.is_v3());
    assert!(ChipVariant::Aic8800D80X2.is_v3());
    assert!(!ChipVariant::Aic8801.is_v3());
}

#[test]
fn lmac_header_roundtrip() {
    let m = LmacMsg { id: 0x1009, dest_id: 0x0400, src_id: 100, param_len: 3, pattern: 0 };
    let b = m.to_le_bytes();
    assert_eq!(b, [0x09, 0x10, 0x00, 0x04, 100, 0, 3, 0]);
    let mut buf = b.to_vec();
    buf.extend_from_slice(&[0xEF, 0xBE, 0xAD, 0xDE]);
    let p = LmacMsg::from_le_bytes(&buf);
    assert_eq!(p, LmacMsg { pattern: 0xDEAD_BEEF, ..m });
    assert_eq!(p.to_le_bytes(), b);
}

#[test]
fn message_id_arithmetic() {
    assert_eq!(msg_t(4, 0), 0x0400);
    assert_eq!(msg_t(6, 3), 0x0603);
    assert_eq!(msg_t(0x1FF, 1), 0xFF01);
    assert_eq!(lmac_first_msg(5), 0x1400);
    assert_eq!(lmac_first_msg(64), 0);
    assert_eq!(msg_index(0x1404), 4);
    assert_eq!(msg_index(0x07FF), 0x3FF);
    assert_eq!(chan_2g4_freqs()[13], 2484);
}

#[test]
fn alignment_helpers() {
    assert_eq!(align_up(0, 4), 0);
    assert_eq!(align_up(5, 4), 8);
    assert_eq!(align_up(512, 512), 512);
    assert_eq!(align_up(513, 512), 1024);
    assert_eq!(padded_len(20), 512);
    assert_eq!(padded_len(508), 512);
    assert_eq!(padded_len(509), 512);
    assert_eq!(padded_len(513), 1024);
    assert_eq!(padded_len(512), 512);
}

#[test]
fn command_frame_layout_and_padding() {
    let f = build_cmd_frame(0x0024, 0, &[7u8; 44]);
    assert_eq!(f.len(), 512);
    assert_eq!(&f[0..4], &[60, 0, 0x11, 0]);
    assert_eq!(&f[8..16], &[0x24, 0, 0, 0, 100, 0, 44, 0]);
    assert_eq!(&f[16..60], &[7u8; 44]);
    let mut g = f.clone();
    assert_eq!(pad_cmd_frame(&mut g), 512);
    assert_eq!(g, f);
    let mut h = vec![1u8; 3];
    assert_eq!(pad_cmd_frame(&mut h), 512);
    assert_eq!(&h[..4], &[1, 1, 1, 0]);
}

#[test]
fn data_frame_layout() {
    let f = build_data_frame(&[0xAA; 1500]);
    assert_eq!(f.len(), 1536);
    assert_eq!(&f[0..4], &[(1504 % 256) as u8, (1504 / 256) as u8, 0x00, 0]);
    assert_eq!(f[4], 0xAA);
    assert_eq!(f[1504], 0);
}

#[test]
fn flow_control_credits() {
    assert!(cmd_credits_allow(0x01, 512));
    assert!(!cmd_credits_allow(0x01, 1536));
    assert!(!cmd_credits_allow(0x80, 512));
    assert!(data_credits_allow(3));
    assert!(!data_credits_allow(2));
    assert!(!data_credits_allow(0x82));
}

#[test]
fn transmit_queue_is_bounded() {
    let mut q: VecDeque<TxFrame> = VecDeque::new();
    for i in 0..256 {
        assert_eq!(enqueue_data_frame(&mut q, vec![i as u8]), Ok(()));
    }
    assert_eq!(enqueue_data_frame(&mut q, vec![0xFF]), Err(TxError::QueueFull));
    assert_eq!(q.len(), 256);
    assert_eq!(q[255].data, vec![255u8]);
    assert_eq!(q[0].priority, 0);
}

#[test]
fn transmit_batch_limit() {
    assert!(tx_batch_may_continue(0, false, BusState::Up, 1));
    assert!(!tx_batch_may_continue(16, false, BusState::Up, 1));
    assert!(!tx_batch_may_continue(0, true, BusState::Up, 1));
    assert!(!tx_batch_may_continue(0, false, BusState::Down, 1));
    assert!(!tx_batch_may_continue(0, false, BusState::Up, 0));
}

fn cfg_frame(ty: u8, msg: &[u8]) -> Vec<u8> {
    let mut f = vec![(msg.len() % 256) as u8, (msg.len() / 256) as u8, ty, 0];
    f.extend_from_slice(msg);
    while f.len() % 4 != 0 {
        f.push(0);
    }
    f
}

fn data_frame(mpdu: &[u8], decr: u8, mgmt: bool) -> Vec<u8> {
    let mut f = vec![0u8; 60];
    f[0] = (mpdu.len() % 256) as u8;
    f[1] = (mpdu.len() / 256) as u8;
    f[2] = 0x00;
    f[36] = decr << 2;
    f[48] = if mgmt { 0x02 } else { 0 };
    f.extend_from_slice(mpdu);
    while f.len() % 4 != 0 {
        f.push(0);
    }
    f
}

fn mpdu_from_ds(ethertype: [u8; 2], payload: &[u8]) -> Vec<u8> {
    let mut m = vec![0x08, 0x02, 0, 0];
    m.extend_from_slice(&[1, 1, 1, 1, 1, 1]);
    m.extend_from_slice(&[2, 2, 2, 2, 2, 2]);
    m.extend_from_slice(&[3, 3, 3, 3, 3, 3]);
    m.extend_from_slice(&[0, 0]);
    m.extend_from_slice(&[0xAA, 0xAA, 0x03, 0, 0, 0]);
    m.extend_from_slice(&ethertype);
    m.extend_from_slice(payload);
    m
}

#[test]
fn dispatch_configuration_frames() {
    let mut msg = vec![0x03, 0x00, 0, 0, 0, 0, 2, 0, 0, 0, 0, 0, 9, 9];
    let mut buf = cfg_frame(0x11, &msg);
    msg[0] = 0x04;
    buf.extend(cfg_frame(0x11, &msg));
    buf.extend(cfg_frame(0x12, &[5, 0, 0, 0, 7, 0, 0, 0]));
    buf.extend(cfg_frame(0x13, b"hello"));
    buf.extend(cfg_frame(0x1F, &[1, 2]));
    let evs = dispatch_frames(&buf, 0x0003);
    assert_eq!(evs.len(), 5);
    assert!(matches!(&evs[0], RxEvent::CmdRsp(m) if m[0] == 0x03 && m.len() == 14));
    assert!(matches!(&evs[1], RxEvent::Indication(m) if m[0] == 0x04));
    assert!(matches!(&evs[2], RxEvent::DataCfm { status: 5, used_idx: 7 }));
    assert!(matches!(&evs[3], RxEvent::Print(m) if m == b"hello"));
    assert!(matches!(&evs[4], RxEvent::Unknown { pkt_type: 0x1F, pkt_len: 2 }));
}

#[test]
fn dispatch_without_waiting_command_routes_to_indications() {
    let msg = [0x03, 0x00, 0, 0, 0, 0, 0, 0];
    let evs = dispatch_frames(&cfg_frame(0x11, &msg), 0);
    assert!(matches!(&evs[0], RxEvent::Indication(_)));
}

#[test]
fn dispatch_data_frames() {
    let eapol = mpdu_from_ds([0x88, 0x8E], &[1, 2, 3]);
    let ip = mpdu_from_ds([0x08, 0x00], &[4, 5, 6, 7]);
    let mut buf = data_frame(&eapol, 0, false);
    buf.extend(data_frame(&ip, 0, false));
    buf.extend(data_frame(&ip, 0, true));
    let evs = dispatch_frames(&buf, 0);
    assert_eq!(evs.len(), 2);
    assert!(matches!(&evs[0], RxEvent::Eapol(p) if p == &vec![1, 2, 3]));
    match &evs[1] {
        RxEvent::Data(e) => {
            assert_eq!(&e[0..6], &[1; 6]);
            assert_eq!(&e[6..12], &[3; 6]);
            assert_eq!(&e[12..14], &[0x08, 0x00]);
            assert_eq!(&e[14..], &[4, 5, 6, 7]);
        }
        _ => panic!("expected data"),
    }
}

#[test]
fn dispatch_skips_crypto_header() {
    let mut m = vec![0x08, 0x02, 0, 0];
    m.extend_from_slice(&[1; 6]);
    m.extend_from_slice(&[2; 6]);
    m.extend_from_slice(&[3; 6]);
    m.extend_from_slice(&[0, 0]);
    m.extend_from_slice(&[0xEE; 8]);
    m.extend_from_slice(&[0xAA, 0xAA, 0x03, 0, 0, 0, 0x88, 0x8E, 0x42]);
    let evs = dispatch_frames(&data_frame(&m, 3, false), 0);
    assert!(matches!(&evs[0], RxEvent::Eapol(p) if p == &vec![0x42]));
}

#[test]
fn dispatch_stops_at_zero_or_truncated_frames() {
    assert!(dispatch_frames(&[0u8; 16], 0).is_empty());
    let mut buf = cfg_frame(0x13, b"abcd");
    buf.extend_from_slice(&[40, 0, 0x13, 0, 1, 2]);
    assert_eq!(dispatch_frames(&buf, 0).len(), 1);
    assert!(dispatch_frames(&[0x41, 0x06, 0x13, 0, 0, 0], 0).is_empty());
}

#[test]
fn receive_queue_drops_oldest() {
    let mut q: VecDeque<Vec<u8>> = VecDeque::new();
    for i in 0..64u8 {
        push_rx_data(&mut q, vec![i]);
    }
    push_rx_data(&mut q, vec![64]);
    assert_eq!(q.len(), 64);
    assert_eq!(q[0], vec![1]);
    assert_eq!(q[63], vec![64]);
}

#[test]
fn receive_poll_decisions() {
    assert_eq!(rx_poll_step(0x80, 0), RxPoll::Retry { retries: 1 });
    assert_eq!(rx_poll_step(0x81, 3), RxPoll::Stop);
    assert_eq!(rx_poll_step(0, 0), RxPoll::Stop);
    assert_eq!(rx_poll_step(3, 2), RxPoll::Read { len: 1536 });
}

#[test]
fn confirmation_matching() {
    let mut rsp = vec![0x07, 0x00, 0, 0, 0, 0, 2, 0, 0, 0, 0, 0, 0, 5, 9];
    match classify_cfm(rsp.clone(), 0x0007) {
        CfmDisposition::Matched(p) => assert_eq!(p, vec![0, 5]),
        _ => panic!(),
    }
    rsp[6] = 10;
    match classify_cfm(rsp.clone(), 0x0007) {
        CfmDisposition::Matched(p) => assert_eq!(p, vec![0, 5, 9]),
        _ => panic!(),
    }
    assert!(matches!(classify_cfm(rsp.clone(), 0x0008), CfmDisposition::Indication(_)));
    assert!(matches!(classify_cfm(vec![1, 2, 3], 0x0008), CfmDisposition::Dropped));
}

#[test]
fn command_wait_decisions() {
    assert_eq!(effective_timeout(0), 5000);
    assert_eq!(effective_timeout(20), 20);
    assert_eq!(cmd_wait_check(true, false, 0, 10), Some(CmdError::BusDown));
    assert_eq!(cmd_wait_check(false, true, 0, 10), Some(CmdError::BusDown));
    assert_eq!(cmd_wait_check(false, false, 11, 10), Some(CmdError::Timeout));
    assert_eq!(cmd_wait_check(false, false, 10, 10), None);
}

#[test]
fn status_confirmations() {
    assert_eq!(parse_status_cfm(&[0, 3]), Ok(3));
    assert_eq!(parse_status_cfm(&[1, 3]), Err(CmdError::FirmwareError));
    assert_eq!(parse_status_cfm(&[0]), Err(CmdError::InvalidResponse));
}

#[test]
fn indication_queue_take() {
    let mut q: VecDeque<Vec<u8>> = VecDeque::new();
    q.push_back(vec![0x01, 0x18, 0, 0, 0, 0, 0, 0, 0, 0, 0, 0, 7]);
    q.push_back(vec![0x02, 0x18, 0, 0, 0, 0, 0, 0, 0, 0, 0, 0, 8, 9]);
    q.push_back(vec![0x02, 0x18]);
    assert_eq!(take_indication(&mut q, 0x1802), Some(vec![8, 9]));
    assert_eq!(q.len(), 2);
    assert_eq!(take_indication(&mut q, 0x1805), None);
    assert_eq!(q.len(), 2);
}

fn scan_ind(ssid: &[u8], rssi: i8) -> Vec<u8> {
    let mut m = vec![(SCANU_RESULT_IND & 0xFF) as u8, (SCANU_RESULT_IND >> 8) as u8, 0, 0, 0, 0, 0, 0, 0, 0, 0, 0];
    let mut p = vec![0u8; 10];
    p[4..6].copy_from_slice(&2437u16.to_le_bytes());
    p[9] = rssi as u8;
    let mut hdr = vec![0x80, 0, 0, 0];
    hdr.extend_from_slice(&[0xFF; 6]);
    hdr.extend_from_slice(&[0x11; 6]);
    hdr.extend_from_slice(&[0x22, 0x33, 0x44, 0x55, 0x66, 0x77]);
    hdr.extend_from_slice(&[0, 0]);
    let mut body = vec![0u8; 8];
    body.extend_from_slice(&100u16.to_le_bytes());
    body.extend_from_slice(&0x0411u16.to_le_bytes());
    body.extend_from_slice(&[3, 1, 6]);
    body.push(0);
    body.push(ssid.len() as u8);
    body.extend_from_slice(ssid);
    p.extend(hdr);
    p.extend(body);
    m.extend(p);
    m
}

#[test]
fn scan_result_parsing() {
    let ind = scan_ind(b"CU_Q2aa", -40);
    let r = parse_scanu_result_ind(&ind[12..]).unwrap();
    assert_eq!(&r.ssid[..7], b"CU_Q2aa");
    assert_eq!(r.ssid[7], 0);
    assert_eq!(r.ssid_len, 7);
    assert_eq!(r.bssid, [0x22, 0x33, 0x44, 0x55, 0x66, 0x77]);
    assert_eq!(r.center_freq, 2437);
    assert_eq!(r.rssi, -40);
    assert_eq!(r.beacon_interval, 100);
    assert_eq!(r.capability, 0x0411);
    assert_eq!(r.raw_payload.len(), ind.len() - 22);
    assert!(parse_scanu_result_ind(&[0u8; 9]).is_none());
    assert!(parse_scanu_result_ind(&[0u8; 40]).is_none());
}

#[test]
fn long_ssid_is_capped() {
    let ind = scan_ind(&[b'x'; 40], 0);
    let r = parse_scanu_result_ind(&ind[12..]).unwrap();
    assert_eq!(r.ssid_len, 32);
}

#[test]
fn collecting_scan_results_keeps_other_indications() {
    let mut q: VecDeque<Vec<u8>> = VecDeque::new();
    q.push_back(scan_ind(b"a", -1));
    q.push_back(vec![0x02, 0x18, 0, 0, 0, 0, 0, 0, 0, 0, 0, 0]);
    q.push_back(scan_ind(b"bb", -2));
    q.push_back(vec![0x04, 0x10, 0, 0]);
    let results = collect_scan_results(&mut q);
    assert_eq!(results.len(), 2);
    assert_eq!(results[0].ssid_len, 1);
    assert_eq!(results[1].ssid_len, 2);
    assert_eq!(q.len(), 2);
    assert_eq!(q[0][0], 0x02);
    assert_eq!(q[1].len(), 4);
}

#[test]
fn request_parameter_blocks() {
    assert_eq!(build_txpwr_idx_param(), [1, 9, 8, 8, 8, 8, 11, 10, 9, 9]);
    assert_eq!(build_txpwr_ofst_param(), [1, 0, 0, 0, 0, 0, 0, 0]);
    let rf = build_rf_calib_param();
    assert_eq!(rf.len(), 22);
    assert_eq!(&rf[8..12], &0x0c34c008u32.to_le_bytes());
    let me = build_me_config_param();
    assert_eq!(me.len(), 102);
    assert_eq!(&me[0..4], &[1, 0, 0x1F, 0xFF]);
    assert_eq!(me[95], 1);
    let chans = build_me_chan_config_param();
    assert_eq!(chans.len(), 212);
    assert_eq!(&chans[0..5], &[0x6C, 0x09, 0, 0, 30]);
    assert_eq!(&chans[210..212], &[14, 0]);
    let start = build_mm_start_param();
    assert_eq!(start.len(), 70);
    assert_eq!(&start[64..70], &[0x2C, 0x01, 0, 0, 20, 0]);
    assert_eq!(build_add_if_param(&[1, 2, 3, 4, 5, 6]), [0, 1, 2, 3, 4, 5, 6, 0]);
    assert_eq!(build_sm_disconnect_param(2, 3), [3, 0, 2]);
    assert_eq!(build_control_port_param(4, true), [4, 1]);
    let key = build_key_add_param(1, 2, true, &[0xAB; 16], 0, 3);
    assert_eq!(key.len(), 44);
    assert_eq!(&key[0..9], &[0, 2, 0, 0, 16, 0, 0, 0, 0xAB]);
    assert_eq!(&key[40..44], &[3, 1, 0, 1]);
}

#[test]
fn scan_request_parameters() {
    let p = build_scanu_start_param(1, Some(b"CU_Q2aa"));
    assert_eq!(p.len(), 329);
    assert_eq!(p[210], 7);
    assert_eq!(&p[211..218], b"CU_Q2aa");
    assert_eq!(&p[309..315], &[0xFF; 6]);
    assert_eq!(&p[321..325], &[1, 14, 1, 0]);
    let q = build_scanu_start_param(0, None);
    assert_eq!(q[323], 0);
    assert!(q[210..309].iter().all(|&b| b == 0));
}

#[test]
fn connect_request_parameters() {
    let p = build_sm_connect_param(1, b"CU_Q2aa", &[9; 6], 2437, 0x5, 0, &[0x30, 0x14]);
    assert_eq!(p.len(), 320);
    assert_eq!(p[0], 7);
    assert_eq!(&p[34..40], &[9; 6]);
    assert_eq!(&p[40..45], &[0x85, 0x09, 0, 0, 30]);
    assert_eq!(&p[48..52], &[5, 0, 0, 0]);
    assert_eq!(&p[52..54], &[0x88, 0x8E]);
    assert_eq!(&p[54..56], &[2, 0]);
    assert_eq!(&p[56..58], &[1, 0]);
    assert_eq!(p[61], 1);
    assert_eq!(&p[64..66], &[0x30, 0x14]);
    let q = build_sm_connect_param(1, b"x", &[9; 6], 0, 0, 0, &[]);
    assert_eq!(&q[40..45], &[0xFF, 0xFF, 0, 0, 0]);
}
