//! Firmware bring-up: SDIO function setup, chip revision, BSP system
//! configuration, firmware selection and the per-chip boot.

use vstd::prelude::*;

use crate::chip_id::{
    ChipRevision, ChipVariant, CHIP_REV_ADDR, CHIP_REV_U01, CHIP_REV_U02, CHIP_REV_U03, CHIP_REV_U04,
    RAM_FMAC_FW_ADDR, RAM_FMAC_FW_PATCH_ADDR, ROM_FMAC_FW_ADDR, ROM_FMAC_PATCH_ADDR,
    SDIOWIFI_BYTEMODE_ENABLE_REG, SDIOWIFI_BYTEMODE_ENABLE_REG_V3, SDIOWIFI_REGISTER_BLOCK,
    SDIOWIFI_SLEEP_REG_V3, SDIOWIFI_WAKEUP_REG_V3, syscfg_table, syscfg_tbl, is_v3_spec,
};
use crate::fw_select::{FirmwareImages, FirmwareSet, firmware_choice, select_firmware};
use crate::fw_upload::{
    Msg, init_8801_msgs, init_aic8800d80_firmware, init_aic8800dc_firmware, init_aic8801_firmware, init_d80_msgs,
    init_dc_msgs, lemma_extends_trans, lemma_script_concat, lemma_script_err_grow, lemma_script_ok,
    lemma_script_ok_as, lemma_script_one, mem_write_msgs, mem_write_plan, msg_run, only_if, refused, script,
    send_mem_writes, sent_all, sent_prefix, upload_fits,
};
use crate::ipc::{
    DbgMsgId, HostEvent, HostLog, IpcTransport, at_most_one_more, dbg_frame, ipc_mem_read, le32_at, mem_read_payload,
    one_more, spin_wait, SendPhase, extends, calls_since, read_back,
};
use crate::sdio::{SdioError, SdioHost};

verus! {

/// Result of the V3 wake-up check on the sleep register: bit 4 must be set.
pub fn check_v3_wakeup(sleep_val: u8) -> (r: Result<(), SdioError>)
    ensures
        r == wakeup_result(sleep_val),
{
    if sleep_val & 0x10 == 0 {
        Err(SdioError::Timeout)
    } else {
        Ok(())
    }
}

/// The wake-up check's verdict on sleep register value `v`: awake when
/// bit 4 is set, `Timeout` otherwise.
pub open spec fn wakeup_result(v: u8) -> Result<(), SdioError> {
    if v & 0x10 == 0 { Err(SdioError::Timeout) } else { Ok(()) }
}

/// The host calls of the function setup and its result: older chips get
/// block mode (register 0x0B) and byte mode (0x11) disabled by writing 1;
/// V3 chips get byte mode disabled (0x07), 0x11 written to the wake-up
/// register, and the sleep register read, which must show the chip awake.
/// The first failed call ends the setup with its error.
pub open spec fn func_setup_calls(is_v3: bool, ev: Seq<HostEvent>, r: Result<(), SdioError>) -> bool {
    if !is_v3 {
        &&& ev.len() >= 1
        &&& ev[0] matches HostEvent::WriteByte { addr, val, result: r0 }
        &&& addr == SDIOWIFI_REGISTER_BLOCK && val == 1
        &&& match r0 {
            Err(e) => ev.len() == 1 && r == Err::<(), SdioError>(e),
            Ok(_) => {
                &&& ev.len() == 2
                &&& ev[1] matches HostEvent::WriteByte { addr: a1, val: v1, result: r1 }
                &&& a1 == SDIOWIFI_BYTEMODE_ENABLE_REG && v1 == 1
                &&& match r1 {
                    Ok(_) => r is Ok,
                    Err(e) => r == Err::<(), SdioError>(e),
                }
            },
        }
    } else {
        &&& ev.len() >= 1
        &&& ev[0] matches HostEvent::WriteByte { addr, val, result: r0 }
        &&& addr == SDIOWIFI_BYTEMODE_ENABLE_REG_V3 && val == 1
        &&& match r0 {
            Err(e) => ev.len() == 1 && r == Err::<(), SdioError>(e),
            Ok(_) => {
                &&& ev.len() >= 2
                &&& ev[1] matches HostEvent::WriteByte { addr: a1, val: v1, result: r1 }
                &&& a1 == SDIOWIFI_WAKEUP_REG_V3 && v1 == 0x11
                &&& match r1 {
                    Err(e) => ev.len() == 2 && r == Err::<(), SdioError>(e),
                    Ok(_) => {
                        &&& ev.len() == 3
                        &&& ev[2] matches HostEvent::ReadByte { addr: a2, result: r2 }
                        &&& a2 == SDIOWIFI_SLEEP_REG_V3
                        &&& r == match r2 {
                            Err(e) => Err::<(), SdioError>(e),
                            Ok(v) => wakeup_result(v),
                        }
                    },
                }
            },
        }
    }
}

/// SDIO function register setup.  Older chips get block mode and byte mode
/// disabled; V3 chips (D80/D80X2) get byte mode disabled, a wake-up, and a
/// check that the sleep register reports the chip awake (`Timeout` if not).
pub fn sdio_func_setup<H: SdioHost>(host: &mut HostLog<H>, is_v3: bool) -> (r: Result<(), SdioError>)
    ensures
        final(host).events().len() >= old(host).events().len(),
        final(host).events().subrange(0, old(host).events().len() as int) == old(host).events(),
        func_setup_calls(is_v3, final(host).events().subrange(old(host).events().len() as int,
            final(host).events().len() as int), r),
{
    let ghost start = host.events();
    if !is_v3 {
        let r0 = host.write_reg(SDIOWIFI_REGISTER_BLOCK, 0x01);
        match r0 {
            Ok(()) => {},
            Err(e) => {
                assert(host.events().subrange(start.len() as int, host.events().len() as int) =~= seq![
                    HostEvent::WriteByte { addr: SDIOWIFI_REGISTER_BLOCK, val: 1, result: r0 }]);
                assert(host.events().subrange(0, start.len() as int) =~= start);
                return Err(e);
            },
        }
        let r1 = host.write_reg(SDIOWIFI_BYTEMODE_ENABLE_REG, 0x01);
        assert(host.events().subrange(start.len() as int, host.events().len() as int) =~= seq![
            HostEvent::WriteByte { addr: SDIOWIFI_REGISTER_BLOCK, val: 1, result: r0 },
            HostEvent::WriteByte { addr: SDIOWIFI_BYTEMODE_ENABLE_REG, val: 1, result: r1 }]);
        assert(host.events().subrange(0, start.len() as int) =~= start);
        match r1 {
            Ok(()) => {},
            Err(e) => return Err(e),
        }
        spin_wait(500_000);
        Ok(())
    } else {
        let r0 = host.write_reg(SDIOWIFI_BYTEMODE_ENABLE_REG_V3, 0x01);
        match r0 {
            Ok(()) => {},
            Err(e) => {
                assert(host.events().subrange(start.len() as int, host.events().len() as int) =~= seq![
                    HostEvent::WriteByte { addr: SDIOWIFI_BYTEMODE_ENABLE_REG_V3, val: 1, result: r0 }]);
                assert(host.events().subrange(0, start.len() as int) =~= start);
                return Err(e);
            },
        }
        let r1 = host.write_reg(SDIOWIFI_WAKEUP_REG_V3, 0x11);
        match r1 {
            Ok(()) => {},
            Err(e) => {
                assert(host.events().subrange(start.len() as int, host.events().len() as int) =~= seq![
                    HostEvent::WriteByte { addr: SDIOWIFI_BYTEMODE_ENABLE_REG_V3, val: 1, result: r0 },
                    HostEvent::WriteByte { addr: SDIOWIFI_WAKEUP_REG_V3, val: 0x11, result: r1 }]);
                assert(host.events().subrange(0, start.len() as int) =~= start);
                return Err(e);
            },
        }
        spin_wait(250_000);
        let r2 = host.read_reg(SDIOWIFI_SLEEP_REG_V3);
        assert(host.events().subrange(start.len() as int, host.events().len() as int) =~= seq![
            HostEvent::WriteByte { addr: SDIOWIFI_BYTEMODE_ENABLE_REG_V3, val: 1, result: r0 },
            HostEvent::WriteByte { addr: SDIOWIFI_WAKEUP_REG_V3, val: 0x11, result: r1 },
            HostEvent::ReadByte { addr: SDIOWIFI_SLEEP_REG_V3, result: r2 }]);
        assert(host.events().subrange(0, start.len() as int) =~= start);
        let sleep_val = match r2 {
            Ok(v) => v,
            Err(e) => return Err(e),
        };
        check_v3_wakeup(sleep_val)
    }
}

/// The revision encoded in the chip information word `raw` (bits 16..24):
/// AIC8801 takes the whole byte; DC/DW/D80 the low six bits, with the top
/// two bits both set marking the high-performance variant; D80X2 the low
/// six bits.  Unknown chips have none.
pub open spec fn revision_from(chip: ChipVariant, raw: u32) -> Option<ChipRevision> {
    let hi = (raw / 65536) % 256;
    match chip {
        ChipVariant::Aic8801 => Some(ChipRevision { rev: hi as u8, is_chip_id_h: false }),
        ChipVariant::Aic8800DC | ChipVariant::Aic8800DW | ChipVariant::Aic8800D80 =>
            Some(ChipRevision { rev: (hi % 64) as u8, is_chip_id_h: hi / 64 == 3 }),
        ChipVariant::Aic8800D80X2 => Some(ChipRevision { rev: (hi % 64) as u8, is_chip_id_h: false }),
        ChipVariant::Unknown => None,
    }
}

/// Computes `revision_from` for a known chip.
pub fn decode_revision(chip: ChipVariant, raw: u32) -> (r: Option<ChipRevision>)
    ensures
        r == revision_from(chip, raw),
{
    let hi: u32 = (raw / 65536) % 256;
    match chip {
        ChipVariant::Aic8801 => Some(ChipRevision { rev: hi as u8, is_chip_id_h: false }),
        ChipVariant::Aic8800DC | ChipVariant::Aic8800DW | ChipVariant::Aic8800D80 =>
            Some(ChipRevision { rev: (hi % 64) as u8, is_chip_id_h: hi / 64 == 3 }),
        ChipVariant::Aic8800D80X2 => Some(ChipRevision { rev: (hi % 64) as u8, is_chip_id_h: false }),
        ChipVariant::Unknown => None,
    }
}

/// The chip-information read.
pub open spec fn chip_rev_read_frame(chip: ChipVariant) -> Seq<u8> {
    dbg_frame(chip, DbgMsgId::MemReadReq, mem_read_payload(CHIP_REV_ADDR))
}

/// The request that reads the chip information word.
pub open spec fn chip_rev_msg() -> Msg {
    Msg { m: DbgMsgId::MemReadReq, payload: mem_read_payload(CHIP_REV_ADDR), cap: 8 }
}

/// Reads the chip information word and decodes the revision; unknown chips
/// are refused with `Unsupported` after the read.
pub fn read_chip_revision<H: SdioHost>(transport: &mut IpcTransport<H>, chip: ChipVariant) -> (r: Result<ChipRevision, SdioError>)
    ensures
        final(transport).variant() == old(transport).variant(),
        chip == ChipVariant::Unknown ==> r is Err,
        match r {
            Ok(rev) => {
                &&& one_more(old(transport).frames(), final(transport).frames(), chip_rev_read_frame(old(transport).variant()))
                &&& revision_from(chip, le32_at(final(transport).response(), 20)) == Some(rev)
            },
            Err(_) => at_most_one_more(old(transport).frames(), final(transport).frames(), chip_rev_read_frame(old(transport).variant())),
        },
        extends(old(transport).host_calls(), final(transport).host_calls()),
        r is Ok ==> read_back(old(transport).host_calls(), final(transport).host_calls(), final(transport).response()),
        r is Ok ==> msg_run(old(transport).variant(), chip_rev_msg(), old(transport).host_calls(), final(transport).host_calls())
            matches SendPhase::Done { result: Ok(_) },
        r is Err ==> msg_run(old(transport).variant(), chip_rev_msg(), old(transport).host_calls(), final(transport).host_calls())
            == (SendPhase::Done { result: Err(r->Err_0) })
            || (r->Err_0 == SdioError::Unsupported
                && msg_run(old(transport).variant(), chip_rev_msg(), old(transport).host_calls(), final(transport).host_calls())
                matches SendPhase::Done { result: Ok(_) }),
{
    let raw = match ipc_mem_read(transport, CHIP_REV_ADDR) {
        Ok(v) => v,
        Err(e) => return Err(e),
    };
    match decode_revision(chip, raw) {
        Some(rev) => Ok(rev),
        None => Err(SdioError::Unsupported),
    }
}

/// Revisions the driver supports: AIC8801 U02/U03/U04; DC/DW/D80
/// U01/U02/U03/U04; D80X2 from U04 + 8 on; nothing for unknown chips.
pub open spec fn revision_supported(chip: ChipVariant, rev: ChipRevision) -> bool {
    match chip {
        ChipVariant::Aic8801 => rev.rev == CHIP_REV_U02 || rev.rev == CHIP_REV_U03 || rev.rev == CHIP_REV_U04,
        ChipVariant::Aic8800DC | ChipVariant::Aic8800DW | ChipVariant::Aic8800D80 =>
            rev.rev == CHIP_REV_U01 || rev.rev == CHIP_REV_U02 || rev.rev == CHIP_REV_U03,
        ChipVariant::Aic8800D80X2 => rev.rev >= CHIP_REV_U04 + 8,
        ChipVariant::Unknown => false,
    }
}

/// Refuses unsupported revisions with `Unsupported`.
pub fn validate_chip_revision(chip: ChipVariant, rev: &ChipRevision) -> (r: Result<(), SdioError>)
    ensures
        r is Ok <==> revision_supported(chip, *rev),
        r is Err ==> r == Err::<(), SdioError>(SdioError::Unsupported),
{
    let supported = match chip {
        ChipVariant::Aic8801 => rev.rev == CHIP_REV_U02 || rev.rev == CHIP_REV_U03 || rev.rev == CHIP_REV_U04,
        ChipVariant::Aic8800DC | ChipVariant::Aic8800DW | ChipVariant::Aic8800D80 =>
            rev.rev == CHIP_REV_U01 || rev.rev == CHIP_REV_U02 || rev.rev == CHIP_REV_U03,
        ChipVariant::Aic8800D80X2 => rev.rev >= CHIP_REV_U04 + 8,
        ChipVariant::Unknown => false,
    };
    if !supported {
        return Err(SdioError::Unsupported);
    }
    Ok(())
}

/// AIC8801 BSP system configuration before the upload (clocks, PLL, PMIC,
/// crystal divider, watchdog stop): one memory write per table entry.
pub fn aicbsp_system_config<H: SdioHost>(ipc: &mut IpcTransport<H>) -> (r: Result<(), SdioError>)
    ensures
        final(ipc).variant() == old(ipc).variant(),
        r is Ok ==> sent_all(old(ipc).frames(), final(ipc).frames(), mem_write_plan(old(ipc).variant(), syscfg_tbl())),
        r is Err ==> sent_prefix(old(ipc).frames(), final(ipc).frames(), mem_write_plan(old(ipc).variant(), syscfg_tbl())),
        extends(old(ipc).host_calls(), final(ipc).host_calls()),
        script(old(ipc).variant(), mem_write_msgs(syscfg_tbl()), old(ipc).host_calls(), final(ipc).host_calls(), r),
{
    let tbl = syscfg_table();
    send_mem_writes(ipc, &tbl)
}

/// An image can be uploaded to any of the four load addresses.
pub open spec fn fits_everywhere(len: nat) -> bool {
    &&& upload_fits(RAM_FMAC_FW_ADDR, len)
    &&& upload_fits(RAM_FMAC_FW_PATCH_ADDR, len)
    &&& upload_fits(ROM_FMAC_FW_ADDR, len)
    &&& upload_fits(ROM_FMAC_PATCH_ADDR, len)
}

/// Every uploadable image fits its load addresses.
pub open spec fn images_fit(img: FirmwareImages) -> bool {
    &&& fits_everywhere(img.fw_8801_main@.len())
    &&& fits_everywhere(img.fw_8801_patch@.len())
    &&& fits_everywhere(img.fw_dc_u01@.len())
    &&& fits_everywhere(img.fw_dc_patch_u02@.len())
    &&& fits_everywhere(img.fw_dc_patch_h_u02@.len())
    &&& fits_everywhere(img.fw_d80_u01@.len())
    &&& fits_everywhere(img.fw_d80_u02@.len())
    &&& fits_everywhere(img.fw_d80x2@.len())
}

fn upload_fits_check(addr: u32, len: usize) -> (b: bool)
    ensures
        b == upload_fits(addr, len as nat),
{
    if len % 1024 == 0 {
        return true;
    }
    assert(len / 1024 * 1024 <= len) by (nonlinear_arith);
    let whole = (len / 1024 * 1024) as u64;
    (addr as u64) + whole % 0x1_0000_0000 <= 0xFFFF_FFFF
}

fn fits_everywhere_check(len: usize) -> (b: bool)
    ensures
        b == fits_everywhere(len as nat),
{
    upload_fits_check(RAM_FMAC_FW_ADDR, len) && upload_fits_check(RAM_FMAC_FW_PATCH_ADDR, len)
        && upload_fits_check(ROM_FMAC_FW_ADDR, len) && upload_fits_check(ROM_FMAC_PATCH_ADDR, len)
}

/// Decides `images_fit`: whether every image can be uploaded at each of its
/// load addresses.
pub fn images_fit_check(img: &FirmwareImages) -> (b: bool)
    ensures
        b == images_fit(*img),
{
    fits_everywhere_check(img.fw_8801_main.len()) && fits_everywhere_check(img.fw_8801_patch.len())
        && fits_everywhere_check(img.fw_dc_u01.len()) && fits_everywhere_check(img.fw_dc_patch_u02.len())
        && fits_everywhere_check(img.fw_dc_patch_h_u02.len()) && fits_everywhere_check(img.fw_d80_u01.len())
        && fits_everywhere_check(img.fw_d80_u02.len()) && fits_everywhere_check(img.fw_d80x2.len())
}

/// The requests of the chip-specific boot of firmware `fw` (with patch
/// `patch`) at revision `rev`, `cb` being the AIC8801 configuration base.
#[verifier::opaque]
pub open spec fn init_msgs(chip: ChipVariant, fw: Seq<u8>, patch: Seq<u8>, rev: ChipRevision, cb: u32) -> Seq<Msg> {
    match chip {
        ChipVariant::Aic8801 => init_8801_msgs(fw, patch, cb),
        ChipVariant::Aic8800DC | ChipVariant::Aic8800DW => init_dc_msgs(fw, patch, rev),
        ChipVariant::Aic8800D80 | ChipVariant::Aic8800D80X2 => init_d80_msgs(fw),
        ChipVariant::Unknown => Seq::empty(),
    }
}

/// The requests of the whole boot once the chip information word reads
/// `raw`: the read, the AIC8801 system configuration, then the boot of the
/// selected firmware.
#[verifier::opaque]
pub open spec fn boot_msgs(chip: ChipVariant, raw: u32, img: FirmwareImages, cb: u32) -> Seq<Msg> {
    let rev = revision_from(chip, raw)->Some_0;
    let set = firmware_choice(chip, rev, img)->Some_0;
    seq![chip_rev_msg()] + only_if(chip == ChipVariant::Aic8801, mem_write_msgs(syscfg_tbl()))
        + init_msgs(chip, set.0, set.2, rev, cb)
}

/// Among the host calls from `a` to `b`, a leading part ends with a FIFO
/// read whose confirmation carries `raw` as its memory word (bytes 20..24).
#[verifier::opaque]
pub open spec fn word_read(a: Seq<HostEvent>, b: Seq<HostEvent>, raw: u32) -> bool {
    exists|m: Seq<HostEvent>, rx: Seq<u8>| #[trigger] read_back(a, m, rx) && extends(a, m) && extends(m, b)
        && le32_at(rx, 20) == raw
}

proof fn lemma_word_read(c0: Seq<HostEvent>, c1: Seq<HostEvent>, c2: Seq<HostEvent>, c3: Seq<HostEvent>,
    rx: Seq<u8>, raw: u32)
    requires
        read_back(c0, c1, rx),
        extends(c0, c1),
        extends(c1, c2),
        extends(c2, c3),
        le32_at(rx, 20) == raw,
    ensures
        word_read(c0, c3, raw),
{
    reveal(word_read);
    lemma_extends_trans(c1, c2, c3);
}

proof fn lemma_boot_failed(chip: ChipVariant, raw: u32, img: FirmwareImages, cb: u32, a: Seq<HostEvent>,
    b: Seq<HostEvent>, e: SdioError)
    requires
        script(chip, boot_msgs(chip, raw, img, cb), a, b, Err(e)),
    ensures
        boot_outcome(chip, raw, img, cb, a, b, Err(e)),
{
    reveal(boot_outcome);
}

/// The boot, had the information word read `raw`, over the host calls from
/// `a` to `b` gave `r`: either it ran its requests with that result (a
/// success only on a supported revision), or it refused with `Unsupported`
/// after a leading part of them had succeeded.
#[verifier::opaque]
pub open spec fn boot_outcome(chip: ChipVariant, raw: u32, img: FirmwareImages, cb: u32, a: Seq<HostEvent>,
    b: Seq<HostEvent>, r: Result<(), SdioError>) -> bool {
    ||| script(chip, boot_msgs(chip, raw, img, cb), a, b, r)
        && (r is Ok ==> revision_supported(chip, revision_from(chip, raw)->Some_0) && word_read(a, b, raw))
    ||| r == Err::<(), SdioError>(SdioError::Unsupported) && refused(chip, boot_msgs(chip, raw, img, cb), a, b)
}

/// A boot that stops after a successful leading part of its requests is a
/// refusal.
proof fn lemma_boot_refused(chip: ChipVariant, raw: u32, img: FirmwareImages, cb: u32, a: Seq<HostEvent>,
    b: Seq<HostEvent>, k: int)
    requires
        0 <= k <= boot_msgs(chip, raw, img, cb).len(),
        script(chip, boot_msgs(chip, raw, img, cb).take(k), a, b, Ok(())),
    ensures
        boot_outcome(chip, raw, img, cb, a, b, Err(SdioError::Unsupported)),
{
    reveal(boot_outcome);
    assert(refused(chip, boot_msgs(chip, raw, img, cb), a, b));
}

/// A successful leading part of the boot's requests followed by a part `q`
/// with result `r`: a failure fails the boot, and a success that completes
/// the requests completes it.
proof fn lemma_boot_step(chip: ChipVariant, raw: u32, img: FirmwareImages, cb: u32, k: int, q: Seq<Msg>,
    a: Seq<HostEvent>, b: Seq<HostEvent>, c: Seq<HostEvent>, r: Result<(), SdioError>)
    requires
        0 <= k,
        k + q.len() <= boot_msgs(chip, raw, img, cb).len(),
        boot_msgs(chip, raw, img, cb).subrange(k, k + q.len()) == q,
        script(chip, boot_msgs(chip, raw, img, cb).take(k), a, b, Ok(())),
        script(chip, q, b, c, r),
    ensures
        r is Err ==> script(chip, boot_msgs(chip, raw, img, cb), a, c, r),
        r is Ok ==> script(chip, boot_msgs(chip, raw, img, cb).take(k + q.len()), a, c, Ok(())),
{
    let ms = boot_msgs(chip, raw, img, cb);
    lemma_script_concat(chip, ms.take(k), q, a, b, c, r);
    assert(ms.take(k) + q =~= ms.take(k + q.len()));
    if r is Err {
        lemma_script_err_grow(chip, ms.take(k + q.len()), ms.skip(k + q.len()), a, c, r->Err_0);
        assert(ms.take(k + q.len()) + ms.skip(k + q.len()) =~= ms);
    } else {
        lemma_script_ok(chip, ms.take(k + q.len()), a, c, r);
    }
}

/// The AIC8801 system configuration requests of the boot, none for the
/// other chips.
pub open spec fn bsp_msgs(chip: ChipVariant) -> Seq<Msg> {
    only_if(chip == ChipVariant::Aic8801, mem_write_msgs(syscfg_tbl()))
}

/// The boot's requests begin with the information-word read and the
/// system configuration, whatever the word and the images.
proof fn lemma_boot_msgs_head(chip: ChipVariant, raw: u32, img: FirmwareImages, cb: u32)
    ensures
        boot_msgs(chip, raw, img, cb).len() >= 1 + bsp_msgs(chip).len(),
        boot_msgs(chip, raw, img, cb)[0] == chip_rev_msg(),
        boot_msgs(chip, raw, img, cb).take(1) == seq![chip_rev_msg()],
        boot_msgs(chip, raw, img, cb).subrange(1, 1 + bsp_msgs(chip).len() as int) == bsp_msgs(chip),
        boot_msgs(chip, raw, img, cb).take(1 + bsp_msgs(chip).len() as int) == seq![chip_rev_msg()] + bsp_msgs(chip),
{
    reveal(boot_msgs);
    let ms = boot_msgs(chip, raw, img, cb);
    assert(ms.take(1) =~= seq![chip_rev_msg()]);
    assert(ms.subrange(1, 1 + bsp_msgs(chip).len() as int) =~= bsp_msgs(chip));
    assert(ms.take(1 + bsp_msgs(chip).len() as int) =~= seq![chip_rev_msg()] + bsp_msgs(chip));
}

/// With the revision and the firmware chosen, the boot's requests end with
/// the chip's boot.
proof fn lemma_boot_msgs_tail(chip: ChipVariant, raw: u32, img: FirmwareImages, cb: u32, rev: ChipRevision,
    fw: Seq<u8>, patch: Seq<u8>)
    requires
        revision_from(chip, raw) == Some(rev),
        firmware_choice(chip, rev, img) is Some,
        firmware_choice(chip, rev, img)->Some_0.0 == fw,
        firmware_choice(chip, rev, img)->Some_0.2 == patch,
    ensures
        boot_msgs(chip, raw, img, cb) == seq![chip_rev_msg()] + bsp_msgs(chip) + init_msgs(chip, fw, patch, rev, cb),
{
    reveal(boot_msgs);
}

/// The information-word read failed, or its word was refused: the boot
/// failed with that error.
proof fn lemma_boot_read_failed(chip: ChipVariant, img: FirmwareImages, c0: Seq<HostEvent>, c1: Seq<HostEvent>,
    e: SdioError)
    requires
        extends(c0, c1),
        msg_run(chip, chip_rev_msg(), c0, c1) == (SendPhase::Done { result: Err::<usize, SdioError>(e) })
            || (e == SdioError::Unsupported && msg_run(chip, chip_rev_msg(), c0, c1) matches SendPhase::Done { result: Ok(_) }),
    ensures
        exists|raw: u32, cb: u32| #[trigger] boot_outcome(chip, raw, img, cb, c0, c1, Err(e)),
{
    reveal(boot_outcome);
    let ms = boot_msgs(chip, 0, img, 0);
    lemma_boot_msgs_head(chip, 0, img, 0);
    if msg_run(chip, chip_rev_msg(), c0, c1) == (SendPhase::Done { result: Err::<usize, SdioError>(e) }) {
        lemma_script_one(chip, chip_rev_msg(), c0, c1, Err::<u32, SdioError>(e));
        lemma_script_err_grow(chip, seq![chip_rev_msg()], ms.skip(1), c0, c1, e);
        assert(ms.take(1) + ms.skip(1) =~= ms);
        assert(boot_outcome(chip, 0, img, 0, c0, c1, Err(e)));
    } else {
        lemma_script_one(chip, chip_rev_msg(), c0, c1, Ok::<u32, SdioError>(0));
        assert(refused(chip, ms, c0, c1));
        assert(boot_outcome(chip, 0, img, 0, c0, c1, Err(e)));
    }
}

/// The chip's boot ran after the leading requests succeeded: the whole
/// boot has its result.
proof fn lemma_boot_tail(chip: ChipVariant, raw: u32, img: FirmwareImages, cb: u32, rev: ChipRevision, fw: Seq<u8>,
    patch: Seq<u8>, k: int, c0: Seq<HostEvent>, c2: Seq<HostEvent>, c3: Seq<HostEvent>, r: Result<(), SdioError>)
    requires
        revision_from(chip, raw) == Some(rev),
        firmware_choice(chip, rev, img) is Some,
        firmware_choice(chip, rev, img)->Some_0.0 == fw,
        firmware_choice(chip, rev, img)->Some_0.2 == patch,
        k == 1 + bsp_msgs(chip).len(),
        script(chip, boot_msgs(chip, raw, img, 0).take(k), c0, c2, Ok(())),
        script(chip, init_msgs(chip, fw, patch, rev, cb), c2, c3, r),
        r is Ok ==> revision_supported(chip, rev),
        r is Ok ==> word_read(c0, c3, raw),
    ensures
        boot_outcome(chip, raw, img, cb, c0, c3, r),
{
    reveal(boot_outcome);
    let ms = boot_msgs(chip, raw, img, cb);
    let q3 = init_msgs(chip, fw, patch, rev, cb);
    lemma_boot_msgs_head(chip, raw, img, cb);
    lemma_boot_msgs_head(chip, raw, img, 0);
    lemma_boot_msgs_tail(chip, raw, img, cb, rev, fw, patch);
    assert(ms.subrange(k, k + q3.len()) =~= q3);
    lemma_boot_step(chip, raw, img, cb, k, q3, c0, c2, c3, r);
    if r is Ok {
        assert(ms.take(k + q3.len()) =~= ms);
        lemma_script_ok_as(chip, ms, c0, c3, r);
    }
}

/// What the chip's boot requests are for each chip.
proof fn lemma_init_msgs(chip: ChipVariant, fw: Seq<u8>, patch: Seq<u8>, rev: ChipRevision, cb: u32)
    ensures
        chip == ChipVariant::Aic8801 ==> init_msgs(chip, fw, patch, rev, cb) == init_8801_msgs(fw, patch, cb),
        chip == ChipVariant::Aic8800DC || chip == ChipVariant::Aic8800DW ==> init_msgs(chip, fw, patch, rev, cb)
            == init_dc_msgs(fw, patch, rev),
        chip == ChipVariant::Aic8800D80 || chip == ChipVariant::Aic8800D80X2 ==> init_msgs(chip, fw, patch, rev, cb)
            == init_d80_msgs(fw),
{
    reveal(init_msgs);
}

/// Boots the firmware through `transport`: reads and validates the chip
/// revision, configures the AIC8801 system, selects the firmware and runs
/// the chip's boot.  An unsupported revision, a chip whose images are
/// missing, or an empty firmware image is refused with `Unsupported`.
#[verifier::rlimit(100)]
#[verifier::spinoff_prover]
pub fn boot_firmware<H: SdioHost>(transport: &mut IpcTransport<H>, images: &FirmwareImages) -> (r: Result<(), SdioError>)
    requires
        images_fit(*images),
    ensures
        final(transport).variant() == old(transport).variant(),
        old(transport).variant() == ChipVariant::Unknown ==> r is Err,
        extends(old(transport).host_calls(), final(transport).host_calls()),
        exists|raw: u32, cb: u32| #[trigger] boot_outcome(old(transport).variant(), raw, *images, cb,
            old(transport).host_calls(), final(transport).host_calls(), r),
{
    let chip = transport.chip();
    let ghost c0 = transport.host_calls();
    let rrev = read_chip_revision(transport, chip);
    let ghost c1 = transport.host_calls();
    let chip_rev = match rrev {
        Ok(rev) => rev,
        Err(e) => {
            proof { lemma_boot_read_failed(chip, *images, c0, c1, e); }
            return Err(e);
        },
    };
    let ghost raw = le32_at(transport.response(), 20);
    let ghost rx1 = transport.response();
    let ghost set = firmware_choice(chip, chip_rev, *images)->Some_0;
    let ghost q2 = bsp_msgs(chip);
    proof {
        lemma_script_one(chip, chip_rev_msg(), c0, c1, Ok::<u32, SdioError>(0));
        lemma_boot_msgs_head(chip, raw, *images, 0);
    }
    match validate_chip_revision(chip, &chip_rev) {
        Ok(()) => {},
        Err(e) => {
            proof { lemma_boot_refused(chip, raw, *images, 0, c0, c1, 1); }
            return Err(e);
        },
    }
    if chip == ChipVariant::Aic8801 {
        let rsys = aicbsp_system_config(transport);
        proof {
            lemma_extends_trans(c0, c1, transport.host_calls());
            lemma_boot_step(chip, raw, *images, 0, 1, q2, c0, c1, transport.host_calls(), rsys);
        }
        match rsys {
            Ok(()) => {},
            Err(e) => {
                proof { lemma_boot_failed(chip, raw, *images, 0, c0, transport.host_calls(), e); }
                return Err(e);
            },
        }
    } else {
        assert(q2 =~= Seq::<Msg>::empty());
    }
    let ghost c2 = transport.host_calls();
    assert(extends(c1, c2)) by {
        if c1 == c2 {
            assert(c1.subrange(0, c1.len() as int) =~= c1);
        }
    }
    assert(read_back(c0, c1, rx1));
    let ghost k: int = 1 + q2.len() as int;
    assert(script(chip, boot_msgs(chip, raw, *images, 0).take(k), c0, c2, Ok(())));
    assert(extends(c0, c2));
    let fw_set = match select_firmware(chip, &chip_rev, images) {
        Some(s) => s,
        None => {
            proof { lemma_boot_refused(chip, raw, *images, 0, c0, c2, k); }
            return Err(SdioError::Unsupported);
        },
    };
    if fw_set.wl_fw.len() == 0 {
        proof { lemma_boot_refused(chip, raw, *images, 0, c0, c2, k); }
        return Err(SdioError::Unsupported);
    }
    let ghost fw = fw_set.wl_fw@;
    let ghost patch = fw_set.wl_patch@;
    assert(fw == set.0 && patch == set.2);
    let r = run_chip_boot(transport, chip, &fw_set, &chip_rev);
    proof {
        let c3 = transport.host_calls();
        lemma_extends_trans(c0, c2, c3);
        let cb = choose|cb: u32| script(chip, #[trigger] init_msgs(chip, fw, patch, chip_rev, cb), c2, c3, r);
        lemma_word_read(c0, c1, c2, c3, rx1, raw);
        lemma_boot_tail(chip, raw, *images, cb, chip_rev, fw, patch, k, c0, c2, c3, r);
    }
    r
}

/// Runs the boot of the selected firmware `fw_set` for `chip` at revision
/// `chip_rev`.
fn run_chip_boot<H: SdioHost>(transport: &mut IpcTransport<H>, chip: ChipVariant, fw_set: &FirmwareSet,
    chip_rev: &ChipRevision) -> (r: Result<(), SdioError>)
    requires
        chip == old(transport).variant(),
        chip != ChipVariant::Unknown,
        fw_set.wl_fw@.len() > 0,
        fits_everywhere(fw_set.wl_fw@.len()),
        fits_everywhere(fw_set.wl_patch@.len()),
    ensures
        final(transport).variant() == old(transport).variant(),
        extends(old(transport).host_calls(), final(transport).host_calls()),
        exists|cb: u32| script(chip, #[trigger] init_msgs(chip, fw_set.wl_fw@, fw_set.wl_patch@, *chip_rev, cb),
            old(transport).host_calls(), final(transport).host_calls(), r),
{
    let ghost fw = fw_set.wl_fw@;
    let ghost patch = fw_set.wl_patch@;
    let ghost c0 = transport.host_calls();
    let r = match chip {
        ChipVariant::Aic8801 => init_aic8801_firmware(transport, fw_set),
        ChipVariant::Aic8800DC | ChipVariant::Aic8800DW => init_aic8800dc_firmware(transport, fw_set, chip_rev),
        ChipVariant::Aic8800D80 | ChipVariant::Aic8800D80X2 => init_aic8800d80_firmware(transport, fw_set),
        ChipVariant::Unknown => Err(SdioError::Unsupported),
    };
    proof {
        let c3 = transport.host_calls();
        let cb = if chip == ChipVariant::Aic8801 {
            choose|cb: u32| script(chip, #[trigger] init_8801_msgs(fw, patch, cb), c0, c3, r)
        } else {
            0
        };
        lemma_init_msgs(chip, fw, patch, *chip_rev, cb);
        assert(script(chip, init_msgs(chip, fw, patch, *chip_rev, cb), c0, c3, r));
    }
    r
}

/// Firmware initialisation over the host calls from `a` to `b`, split at
/// `s`: the SDIO function setup, with result `rs`, then (when it
/// succeeded) the boot, with the result `r` of the whole.
pub open spec fn init_stages(chip: ChipVariant, img: FirmwareImages, a: Seq<HostEvent>, s: Seq<HostEvent>,
    b: Seq<HostEvent>, rs: Result<(), SdioError>, r: Result<(), SdioError>) -> bool {
    &&& extends(a, s)
    &&& extends(s, b)
    &&& func_setup_calls(is_v3_spec(chip), calls_since(a, s), rs)
    &&& rs is Err ==> r == rs && b == s
    &&& rs is Ok ==> exists|raw: u32, cb: u32| #[trigger] boot_outcome(chip, raw, img, cb, s, b, r)
}

/// Full firmware initialisation: SDIO function setup, then the boot
/// through an IPC transport over the same host (see `boot_firmware`).
pub fn firmware_init<H: SdioHost>(host: &mut HostLog<H>, chip: ChipVariant, images: &FirmwareImages) -> (r: Result<(), SdioError>)
    requires
        images_fit(*images),
    ensures
        chip == ChipVariant::Unknown ==> r is Err,
        exists|s: Seq<HostEvent>, rs: Result<(), SdioError>|
            #[trigger] init_stages(chip, *images, old(host).events(), s, final(host).events(), rs, r),
{
    let is_v3 = chip.is_v3();
    let ghost a = host.events();
    let rs = sdio_func_setup(host, is_v3);
    let ghost s = host.events();
    match rs {
        Ok(()) => {},
        Err(e) => {
            proof {
                assert(s.subrange(0, s.len() as int) =~= s);
                assert(init_stages(chip, *images, a, s, s, rs, Err(e)));
            }
            return Err(e);
        },
    }
    let ghost mut calls = Seq::<HostEvent>::empty();
    let r = {
        let mut ipc = host.transport(chip);
        let r = boot_firmware(&mut ipc, images);
        proof {
            calls = ipc.host_calls();
        }
        r
    };
    host.resume(Ghost(calls));
    proof {
        assert(init_stages(chip, *images, a, s, host.events(), rs, r));
    }
    r
}

} // verus!
