use std::cell::RefCell;

use aic8800::chip_id::{ChipRevision, ChipVariant, RAM_FMAC_FW_ADDR};
use aic8800::fw_init::{boot_firmware, check_v3_wakeup, decode_revision, firmware_init, images_fit_check, read_chip_revision,
    sdio_func_setup, validate_chip_revision};
use aic8800::fw_select::{select_firmware, FirmwareImages, FirmwareSet};
use aic8800::fw_upload::{aicwifi_patch_config, aicwifi_sys_config, init_aic8800d80_firmware, upload_firmware};
use aic8800::ipc::{build_frame, crc8_ponl_107, ipc_mem_block_write, ipc_mem_mask_write, ipc_mem_read,
    ipc_mem_write, ipc_start_app, mm_get_fw_version, mm_get_mac_addr, mm_get_version, mm_reset,
    mm_set_stack_start, DbgMsgId, HostLog, IpcTransport};
use aic8800::polling::{build_polling_frame, drain_stale_data, lmac_polling_init, polling_send_cmd};
use aic8800::sdio::{SdioError, SdioHost};
use aic8800::tx::{send_cmd_frame, send_data_frame, CmdTxOutcome, TxFrame};

/// A chip that answers every request with its confirmation.
struct FakeChip {
    /// Value of the flow-control register.
    flow_ctrl: u8,
    /// Value of the V3 sleep register.
    sleep: u8,
    /// Added to the request ID in the answer (1 answers correctly).
    id_delta: u16,
    /// Where the confirmation parameters start in an answer.
    param_offset: usize,
    /// The confirmation parameters.
    params: Vec<u8>,
    /// Fail every FIFO write.
    fail_write: bool,
    written: RefCell<Vec<Vec<u8>>>,
    byte_writes: RefCell<Vec<(u8, u32, u8)>>,
    pending: RefCell<Option<Vec<u8>>>,
}

impl FakeChip {
    fn new(params: Vec<u8>) -> Self {
        FakeChip {
            flow_ctrl: 0x10,
            sleep: 0x10,
            id_delta: 1,
            param_offset: 16,
            params,
            fail_write: false,
            written: RefCell::new(Vec::new()),
            byte_writes: RefCell::new(Vec::new()),
            pending: RefCell::new(None),
        }
    }
}

impl SdioHost for FakeChip {
    fn init(&mut self) -> Result<(), SdioError> {
        Ok(())
    }

    fn read_byte(&mut self, _func: u8, addr: u32) -> Result<u8, SdioError> {
        match addr {
            0x0A => Ok(self.flow_ctrl),
            0x12 => Ok(if self.pending.borrow().is_some() { 1 } else { 0 }),
            0x01 => Ok(self.sleep),
            _ => Ok(0),
        }
    }

    fn write_byte(&mut self, func: u8, addr: u32, val: u8) -> Result<(), SdioError> {
        self.byte_writes.borrow_mut().push((func, addr, val));
        Ok(())
    }

    fn read_fifo(&mut self, _func: u8, _addr: u32, buf: &mut [u8]) -> Result<(), SdioError> {
        if let Some(p) = self.pending.borrow_mut().take() {
            let n = p.len().min(buf.len());
            buf[..n].copy_from_slice(&p[..n]);
        }
        Ok(())
    }

    fn write_fifo(&mut self, _func: u8, _addr: u32, buf: &[u8]) -> Result<(), SdioError> {
        if self.fail_write {
            return Err(SdioError::DataError);
        }
        self.written.borrow_mut().push(buf.to_vec());
        let id = u16::from_le_bytes([buf[8], buf[9]]);
        let mut rsp = vec![0u8; 512];
        rsp[4..6].copy_from_slice(&id.wrapping_add(self.id_delta).to_le_bytes());
        let o = self.param_offset;
        rsp[o..o + self.params.len()].copy_from_slice(&self.params);
        *self.pending.borrow_mut() = Some(rsp);
        Ok(())
    }

    fn set_block_size(&mut self, _func: u8, _size: u16) -> Result<(), SdioError> {
        Ok(())
    }

    fn enable_func(&mut self, _func: u8) -> Result<(), SdioError> {
        Ok(())
    }

    fn vendor_device_id(&self) -> (u16, u16) {
        (0x5449, 0x0145)
    }
}

fn msg_id_of(frame: &[u8]) -> u16 {
    u16::from_le_bytes([frame[8], frame[9]])
}

#[test]
fn crc8_check_value() {
    // CRC-8 (poly 0x07, init 0) check value of "123456789".
    assert_eq!(crc8_ponl_107(b"123456789"), 0xF4);
    assert_eq!(crc8_ponl_107(&[]), 0);
}

#[test]
fn dbg_msg_ids() {
    assert_eq!(DbgMsgId::MemReadReq.msg_id(), 0x0400);
    assert_eq!(DbgMsgId::MemBlockWriteReq.msg_id(), 0x040b);
    assert_eq!(DbgMsgId::StartAppReq.msg_id(), 0x040d);
    assert_eq!(DbgMsgId::MemMaskWriteCfm.msg_id(), 0x0412);
}

#[test]
fn frame_layout_for_aic8801() {
    let f = build_frame(ChipVariant::Aic8801, 0x0400, &[1, 2, 3, 4]);
    assert_eq!(f.len(), 512);
    assert_eq!(&f[0..4], &[16, 0, 0x11, 0]);
    assert_eq!(&f[4..8], &[0, 0, 0, 0]);
    assert_eq!(&f[8..16], &[0x00, 0x04, 0x01, 0x00, 100, 0, 4, 0]);
    assert_eq!(&f[16..20], &[1, 2, 3, 4]);
    assert!(f[20..].iter().all(|&b| b == 0));
}

#[test]
fn frame_layout_with_crc_for_d80() {
    let f = build_frame(ChipVariant::Aic8800D80, 0x0073, &[1, 0, 0, 0]);
    assert_eq!(f[3], crc8_ponl_107(&f[0..3]));
    assert_eq!(&f[10..12], &[0, 0]);
}

#[test]
fn frame_length_block_rounding() {
    // 1032 parameter bytes: 1048 raw, 1052 with tail -> 1536.
    assert_eq!(build_frame(ChipVariant::Aic8801, 0x040b, &[0u8; 1032]).len(), 1536);
    // 496 parameter bytes: exactly 512, no tail.
    assert_eq!(build_frame(ChipVariant::Aic8801, 0x040b, &[0u8; 496]).len(), 512);
    // 492 parameter bytes: 508 + 4 = 512, rounded past the boundary.
    assert_eq!(build_frame(ChipVariant::Aic8801, 0x040b, &[0u8; 492]).len(), 1024);
}

#[test]
fn mem_read_returns_second_confirmation_word() {
    let mut chip = FakeChip::new(vec![0, 0, 0, 0, 0x78, 0x56, 0x34, 0x12]);
    let mut t = IpcTransport::new(&mut chip, ChipVariant::Aic8801);
    assert_eq!(ipc_mem_read(&mut t, 0x4050_0000), Ok(0x1234_5678));
    drop(t);
    let w = chip.written.borrow();
    assert_eq!(w.len(), 1);
    assert_eq!(msg_id_of(&w[0]), 0x0400);
    assert_eq!(&w[0][16..20], &0x4050_0000u32.to_le_bytes());
}

#[test]
fn mismatched_confirmation_is_crc_error() {
    let mut chip = FakeChip::new(vec![0; 8]);
    chip.id_delta = 2;
    let mut t = IpcTransport::new(&mut chip, ChipVariant::Aic8801);
    assert_eq!(ipc_mem_read(&mut t, 0), Err(SdioError::CrcError));
}

#[test]
fn flow_control_timeout() {
    let mut chip = FakeChip::new(vec![]);
    chip.flow_ctrl = 0x80;
    let mut t = IpcTransport::new(&mut chip, ChipVariant::Aic8801);
    assert_eq!(ipc_mem_write(&mut t, 1, 2), Err(SdioError::Timeout));
    drop(t);
    assert!(chip.written.borrow().is_empty());
}

#[test]
fn write_error_is_passed_on() {
    let mut chip = FakeChip::new(vec![]);
    chip.fail_write = true;
    let mut t = IpcTransport::new(&mut chip, ChipVariant::Aic8801);
    assert_eq!(ipc_start_app(&mut t, 0x0012_0000, 1), Err(SdioError::DataError));
}

#[test]
fn send_without_confirmation() {
    let mut chip = FakeChip::new(vec![]);
    let mut t = IpcTransport::new(&mut chip, ChipVariant::Aic8801);
    let mut cfm = [7u8; 4];
    assert_eq!(t.send_msg(DbgMsgId::MemWriteReq, &[1, 2, 3, 4, 5, 6, 7, 8], false, &mut cfm), Ok(0));
    assert_eq!(cfm, [7u8; 4]);
}

#[test]
fn confirmation_copy_is_limited_by_the_buffer() {
    let mut chip = FakeChip::new((1u8..=20).collect());
    let mut t = IpcTransport::new(&mut chip, ChipVariant::Aic8801);
    let mut cfm = [0u8; 3];
    assert_eq!(t.send_msg_raw(0x0004, &[], true, &mut cfm), Ok(3));
    assert_eq!(cfm, [1, 2, 3]);
}

#[test]
fn mem_write_mask_write_and_block_write_payloads() {
    let mut chip = FakeChip::new(vec![0; 8]);
    let mut t = IpcTransport::new(&mut chip, ChipVariant::Aic8801);
    assert_eq!(ipc_mem_write(&mut t, 0x1e5318, 0x1e6000), Ok(()));
    assert_eq!(ipc_mem_mask_write(&mut t, 0x40506024, 0xFF, 0xDF), Ok(()));
    assert_eq!(ipc_mem_block_write(&mut t, 0x120000, &[9, 8, 7]), Ok(()));
    drop(t);
    let w = chip.written.borrow();
    assert_eq!(msg_id_of(&w[0]), 0x0402);
    assert_eq!(&w[0][16..24], &[0x18, 0x53, 0x1e, 0, 0, 0x60, 0x1e, 0]);
    assert_eq!(msg_id_of(&w[1]), 0x0411);
    assert_eq!(&w[1][20..24], &[0xFF, 0, 0, 0]);
    assert_eq!(msg_id_of(&w[2]), 0x040b);
    assert_eq!(&w[2][16..27], &[0, 0, 0x12, 0, 3, 0, 0, 0, 9, 8, 7]);
}

#[test]
fn start_app_status() {
    let mut chip = FakeChip::new(vec![0xEF, 0xBE, 0xAD, 0xDE]);
    let mut t = IpcTransport::new(&mut chip, ChipVariant::Aic8801);
    assert_eq!(ipc_start_app(&mut t, 0x0012_0000, 1), Ok(0xDEAD_BEEF));
}

#[test]
fn mm_requests() {
    let mut params = vec![0u8; 64];
    for (i, b) in params.iter_mut().enumerate() {
        *b = i as u8;
    }
    let mut chip = FakeChip::new(params);
    let mut t = IpcTransport::new(&mut chip, ChipVariant::Aic8801);
    let v = mm_get_version(&mut t).unwrap();
    assert_eq!(v.version_lmac, 0x0302_0100);
    assert_eq!(v.features, u32::from_le_bytes([20, 21, 22, 23]));
    assert_eq!(v.max_sta_nb, u16::from_le_bytes([24, 25]));
    assert_eq!(v.max_vif_nb, 26);
    let s = mm_set_stack_start(&mut t).unwrap();
    assert_eq!((s.is_5g_support, s.vendor_info), (0, 1));
    let fw = mm_get_fw_version(&mut t).unwrap();
    assert_eq!(fw.fw_version_len, 0);
    assert_eq!(fw.fw_version[0], 1);
    assert_eq!(fw.fw_version[62], 63);
    assert_eq!(mm_get_mac_addr(&mut t).unwrap(), [0, 1, 2, 3, 4, 5]);
    assert_eq!(mm_reset(&mut t), Ok(()));
    drop(t);
    let ids: Vec<u16> = chip.written.borrow().iter().map(|f| msg_id_of(f)).collect();
    assert_eq!(ids, vec![0x0004, 0x007B, 0x0080, 0x0073, 0x0000]);
}

#[test]
fn upload_splits_into_chunks() {
    let mut chip = FakeChip::new(vec![0; 4]);
    let data: Vec<u8> = (0..2500u32).map(|i| i as u8).collect();
    let mut t = IpcTransport::new(&mut chip, ChipVariant::Aic8801);
    assert_eq!(upload_firmware(&mut t, &data, 0x0012_0000), Ok(()));
    drop(t);
    let w = chip.written.borrow();
    assert_eq!(w.len(), 3);
    let addr = |f: &Vec<u8>| u32::from_le_bytes([f[16], f[17], f[18], f[19]]);
    let size = |f: &Vec<u8>| u32::from_le_bytes([f[20], f[21], f[22], f[23]]);
    assert_eq!((addr(&w[0]), size(&w[0])), (0x0012_0000, 1024));
    assert_eq!((addr(&w[1]), size(&w[1])), (0x0012_0400, 1024));
    assert_eq!((addr(&w[2]), size(&w[2])), (0x0012_0800, 452));
    assert_eq!(&w[2][24..26], &[(2048u32 % 256) as u8, (2049u32 % 256) as u8]);
}

#[test]
fn upload_wraps_addresses_of_full_chunks() {
    let mut chip = FakeChip::new(vec![0; 4]);
    let data = vec![0u8; 2048];
    let mut t = IpcTransport::new(&mut chip, ChipVariant::Aic8801);
    assert_eq!(upload_firmware(&mut t, &data, 0xFFFF_FC00), Ok(()));
    drop(t);
    let w = chip.written.borrow();
    assert_eq!(u32::from_le_bytes([w[1][16], w[1][17], w[1][18], w[1][19]]), 0);
}

#[test]
fn empty_upload_is_unsupported() {
    let mut chip = FakeChip::new(vec![]);
    let mut t = IpcTransport::new(&mut chip, ChipVariant::Aic8801);
    assert_eq!(upload_firmware(&mut t, &[], 0x0012_0000), Err(SdioError::Unsupported));
    drop(t);
    assert!(chip.written.borrow().is_empty());
}

#[test]
fn patch_and_sys_config_frames() {
    let mut chip = FakeChip::new(vec![0, 0, 0, 0, 0x00, 0x10, 0x00, 0x00]);
    let mut t = IpcTransport::new(&mut chip, ChipVariant::Aic8801);
    assert_eq!(aicwifi_patch_config(&mut t), Ok(()));
    assert_eq!(aicwifi_sys_config(&mut t), Ok(()));
    drop(t);
    let w = chip.written.borrow();
    let ids: Vec<u16> = w.iter().map(|f| msg_id_of(f)).collect();
    assert_eq!(ids, vec![0x0400, 0x0402, 0x0402, 0x0402, 0x0402, 0x0411, 0x0411]);
    // config base 0x1000 read back: the patch entry address is 0x0104 + 0x1000.
    assert_eq!(&w[3][16..24], &[0x00, 0x60, 0x1e, 0x00, 0x04, 0x11, 0x00, 0x00]);
    assert_eq!(&w[2][20..24], &[2, 0, 0, 0]);
}

#[test]
fn d80_boot_sequence() {
    static FW: [u8; 100] = [0xAB; 100];
    let mut chip = FakeChip::new(vec![0; 4]);
    let set = FirmwareSet { wl_fw: &FW, patch_tbl: &[], wl_patch: &[], desc: "test" };
    let mut t = IpcTransport::new(&mut chip, ChipVariant::Aic8800D80);
    assert_eq!(init_aic8800d80_firmware(&mut t, &set), Ok(()));
    drop(t);
    let w = chip.written.borrow();
    assert_eq!(w.len(), 2);
    assert_eq!(msg_id_of(&w[1]), 0x040d);
    assert_eq!(&w[1][16..24], &[0, 0, 0x12, 0, 1, 0, 0, 0]);
}

static MAIN_FW: [u8; 1500] = [0x42; 1500];
static PATCH_FW: [u8; 10] = [0x24; 10];

fn images() -> FirmwareImages {
    FirmwareImages {
        fw_8801_main: &MAIN_FW,
        fw_8801_patch: &PATCH_FW,
        fw_dc_u01: &[],
        fw_dc_patch_u01: &[],
        fw_dc_patch_u02: &[],
        fw_dc_patch_h_u02: &[],
        fw_dc_patch_tbl_u01: &[],
        fw_dc_patch_tbl_u02: &[],
        fw_dc_patch_tbl_h_u02: &[],
        fw_d80_u01: &[],
        fw_d80_u02: &MAIN_FW,
        fw_d80x2: &[],
    }
}

#[test]
fn select_firmware_cases() {
    let img = images();
    let u02 = ChipRevision { rev: 3, is_chip_id_h: false };
    let s = select_firmware(ChipVariant::Aic8801, &u02, &img).unwrap();
    assert_eq!(s.wl_fw.len(), 1500);
    assert_eq!(s.wl_patch.len(), 10);
    assert!(s.patch_tbl.is_empty());
    assert_eq!(s.desc, "AIC8801");
    assert!(select_firmware(ChipVariant::Aic8800DC, &u02, &img).is_none());
    let u01 = ChipRevision { rev: 1, is_chip_id_h: false };
    let d = select_firmware(ChipVariant::Aic8800D80, &u01, &img).unwrap();
    assert!(d.wl_fw.is_empty());
    assert!(select_firmware(ChipVariant::Aic8800D80X2, &u01, &img).is_none());
    assert!(select_firmware(ChipVariant::Unknown, &u01, &img).is_none());
}

#[test]
fn revision_decoding_and_validation() {
    assert_eq!(decode_revision(ChipVariant::Aic8801, 0x0003_0000), Some(ChipRevision { rev: 3, is_chip_id_h: false }));
    assert_eq!(decode_revision(ChipVariant::Aic8800DC, 0x00C7_0000), Some(ChipRevision { rev: 7, is_chip_id_h: true }));
    assert_eq!(decode_revision(ChipVariant::Aic8800D80X2, 0x00CF_0000), Some(ChipRevision { rev: 15, is_chip_id_h: false }));
    assert_eq!(decode_revision(ChipVariant::Unknown, 0), None);
    assert_eq!(validate_chip_revision(ChipVariant::Aic8801, &ChipRevision { rev: 7, is_chip_id_h: false }), Ok(()));
    assert_eq!(validate_chip_revision(ChipVariant::Aic8801, &ChipRevision { rev: 1, is_chip_id_h: false }),
        Err(SdioError::Unsupported));
    assert_eq!(validate_chip_revision(ChipVariant::Aic8800D80X2, &ChipRevision { rev: 14, is_chip_id_h: false }),
        Err(SdioError::Unsupported));
    assert_eq!(validate_chip_revision(ChipVariant::Unknown, &ChipRevision { rev: 3, is_chip_id_h: false }),
        Err(SdioError::Unsupported));
}

#[test]
fn chip_revision_read() {
    let mut chip = FakeChip::new(vec![0, 0, 0, 0, 0, 0, 0x03, 0]);
    let mut t = IpcTransport::new(&mut chip, ChipVariant::Aic8801);
    assert_eq!(read_chip_revision(&mut t, ChipVariant::Aic8801), Ok(ChipRevision { rev: 3, is_chip_id_h: false }));
    assert_eq!(read_chip_revision(&mut t, ChipVariant::Unknown), Err(SdioError::Unsupported));
}

#[test]
fn full_aic8801_boot() {
    // Every confirmation reads as revision U02 (0x0003_0000) and config base 0.
    let mut chip = FakeChip::new(vec![0, 0, 0, 0, 0, 0, 0x03, 0]);
    let mut t = IpcTransport::new(&mut chip, ChipVariant::Aic8801);
    assert_eq!(boot_firmware(&mut t, &images()), Ok(()));
    drop(t);
    let w = chip.written.borrow();
    // read rev, 10 syscfg writes, 2 main chunks, 1 patch chunk,
    // patch config (read + 2 writes + 2 entry writes), 2 masked writes, start.
    assert_eq!(w.len(), 1 + 10 + 2 + 1 + 5 + 2 + 1);
    assert_eq!(msg_id_of(w.last().unwrap()), 0x040d);
    let last = w.last().unwrap();
    assert_eq!(&last[16..20], &RAM_FMAC_FW_ADDR.to_le_bytes());
}

#[test]
fn unsupported_revision_stops_the_boot() {
    let mut chip = FakeChip::new(vec![0, 0, 0, 0, 0, 0, 0x01, 0]);
    let mut t = IpcTransport::new(&mut chip, ChipVariant::Aic8801);
    assert_eq!(boot_firmware(&mut t, &images()), Err(SdioError::Unsupported));
    drop(t);
    assert_eq!(chip.written.borrow().len(), 1);
}

#[test]
fn boot_without_the_chips_images_is_refused() {
    // An AIC8800DC at revision U02 reads its revision, then finds no image.
    let mut chip = FakeChip::new(vec![0, 0, 0, 0, 0, 0, 0x03, 0]);
    let mut t = IpcTransport::new(&mut chip, ChipVariant::Aic8800DC);
    assert_eq!(boot_firmware(&mut t, &images()), Err(SdioError::Unsupported));
    drop(t);
    assert_eq!(chip.written.borrow().len(), 1);
}

#[test]
fn image_sizes_fit_their_load_addresses() {
    assert!(images_fit_check(&images()));
}

#[test]
fn firmware_init_of_unknown_chip_fails() {
    let mut chip = FakeChip::new(vec![0; 8]);
    assert!(firmware_init(&mut HostLog::new(&mut chip), ChipVariant::Unknown, &images()).is_err());
}

#[test]
fn func_setup_v1_and_v3() {
    let mut chip = FakeChip::new(vec![]);
    assert_eq!(sdio_func_setup(&mut HostLog::new(&mut chip), false), Ok(()));
    assert_eq!(*chip.byte_writes.borrow(), vec![(1, 0x0B, 1), (1, 0x11, 1)]);
    let mut chip3 = FakeChip::new(vec![]);
    chip3.sleep = 0;
    assert_eq!(sdio_func_setup(&mut HostLog::new(&mut chip3), true), Err(SdioError::Timeout));
    assert_eq!(*chip3.byte_writes.borrow(), vec![(1, 0x07, 1), (1, 0x02, 0x11)]);
}

#[test]
fn v3_wakeup_check() {
    assert_eq!(check_v3_wakeup(0x10), Ok(()));
    assert_eq!(check_v3_wakeup(0xEF), Err(SdioError::Timeout));
}

#[test]
fn polling_frame_and_exchange() {
    let f = build_polling_frame(0x007B, 0, &[1, 0, 0, 0]);
    assert_eq!(f.len(), 512);
    assert_eq!(&f[0..4], &[20, 0, 0x11, 0]);
    let mut chip = FakeChip::new(vec![1, 0xC5]);
    chip.param_offset = 12;
    let mut cfm = [0u8; 2];
    assert_eq!(polling_send_cmd(&mut HostLog::new(&mut chip), 0x007B, 0, &[1, 0, 0, 0], true, &mut cfm), Ok(2));
    assert_eq!(cfm, [1, 0xC5]);
    assert_eq!(lmac_polling_init(&mut HostLog::new(&mut chip)), Ok(()));
    drain_stale_data(&mut HostLog::new(&mut chip));
}

#[test]
fn polling_write_error() {
    let mut chip = FakeChip::new(vec![]);
    chip.fail_write = true;
    let mut cfm = [0u8; 2];
    assert_eq!(polling_send_cmd(&mut HostLog::new(&mut chip), 0, 0, &[], true, &mut cfm), Err("write_fifo error"));
}

#[test]
fn tx_command_and_data_writes() {
    let mut chip = FakeChip::new(vec![]);
    let mut cmd = vec![1u8; 30];
    assert_eq!(send_cmd_frame(&mut HostLog::new(&mut chip), &mut cmd), CmdTxOutcome::Sent);
    assert_eq!(cmd.len(), 512);
    let frame = TxFrame { data: vec![0u8; 20], priority: 0 };
    assert_eq!(send_data_frame(&mut HostLog::new(&mut chip), &frame), Ok(()));
    let w = chip.written.borrow();
    assert_eq!(w[1].len(), 512);
    assert_eq!(&w[1][0..4], &[24, 0, 0x00, 0]);
}

#[test]
fn tx_command_without_credit_is_dropped() {
    let mut chip = FakeChip::new(vec![]);
    chip.flow_ctrl = 0;
    let mut cmd = vec![1u8; 30];
    assert_eq!(send_cmd_frame(&mut HostLog::new(&mut chip), &mut cmd), CmdTxOutcome::FlowCtrlFailed);
    assert!(chip.written.borrow().is_empty());
}

#[test]
fn firmware_init_sets_up_the_function_then_boots() {
    let mut chip = FakeChip::new(vec![0, 0, 0, 0, 0, 0, 0x03, 0]);
    assert_eq!(firmware_init(&mut HostLog::new(&mut chip), ChipVariant::Aic8801, &images()), Ok(()));
    assert_eq!(&chip.byte_writes.borrow()[0..2], &[(1, 0x0B, 1), (1, 0x11, 1)]);
    assert_eq!(chip.written.borrow().len(), 1 + 10 + 2 + 1 + 5 + 2 + 1);
}

#[test]
fn crc8_residue_and_linearity() {
    let data = [0x12u8, 0x34, 0x56, 0x78, 0x9A];
    let mut with_crc = data.to_vec();
    with_crc.push(crc8_ponl_107(&data));
    assert_eq!(crc8_ponl_107(&with_crc), 0);
    let other = [0xFFu8, 0x00, 0x0F, 0xF0, 0x55];
    let mixed: Vec<u8> = data.iter().zip(other.iter()).map(|(a, b)| a ^ b).collect();
    assert_eq!(crc8_ponl_107(&mixed), crc8_ponl_107(&data) ^ crc8_ponl_107(&other));
}

#[test]
fn polling_frame_with_long_parameters() {
    let f = build_polling_frame(0x007B, 0, &[0xA5u8; 2000]);
    assert_eq!(f.len(), 2048);
    assert_eq!(&f[0..4], &[0xE0, 0x07, 0x11, 0]);
    assert_eq!(&f[8..16], &[0x7B, 0, 0, 0, 100, 0, 0xD0, 0x07]);
    assert!(f[16..2016].iter().all(|&b| b == 0xA5));
    assert!(f[2016..].iter().all(|&b| b == 0));
}
