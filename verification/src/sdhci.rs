//! SDHCI host controller driver (CVI/SG2002 SDIO controller): SD command
//! issue, CMD52/CMD53 argument encoding, PIO transfers, clock setup, card
//! enumeration and the CIS walk, over a register-access trait.

use vstd::prelude::*;

use crate::ipc::spin_wait;
use crate::sdio::{
    BUS_SPEED_SELECT, CCCR_BUS_INTERFACE, CCCR_IO_READY, CISTPL_END, CISTPL_MANFID, CISTPL_NULL,
    FBR_CIS_PTR_OFFSET, FN0_CIS_PTR, IO_ENABLE, SdioError, SdioHost, fbr_base,
};

verus! {

// Host controller register offsets.
pub const SDHCI_BLOCK_SIZE: u32 = 0x04;
pub const SDHCI_BLOCK_COUNT: u32 = 0x06;
pub const SDHCI_ARGUMENT: u32 = 0x08;
pub const SDHCI_TRANSFER_MODE: u32 = 0x0C;
pub const SDHCI_COMMAND: u32 = 0x0E;
pub const SDHCI_RESPONSE: u32 = 0x10;
pub const SDHCI_BUFFER: u32 = 0x20;
pub const SDHCI_PRESENT_STATE: u32 = 0x24;
pub const SDHCI_HOST_CONTROL: u32 = 0x28;
pub const SDHCI_POWER_CONTROL: u32 = 0x29;
pub const SDHCI_CLOCK_CONTROL: u32 = 0x2C;
pub const SDHCI_SOFTWARE_RESET: u32 = 0x2F;
pub const SDHCI_INT_STATUS_NORM: u32 = 0x30;
pub const SDHCI_INT_STATUS_ERR: u32 = 0x32;
pub const SDHCI_NORM_INT_STS_EN: u32 = 0x34;
pub const SDHCI_ERR_INT_STS_EN: u32 = 0x36;
pub const SDHCI_NORM_INT_SIG_EN: u32 = 0x38;
pub const SDHCI_ERR_INT_SIG_EN: u32 = 0x3A;
pub const SDHCI_CAPABILITIES: u32 = 0x40;

/// Present state: command line busy.
pub const SDHCI_CMD_INHIBIT: u32 = 1;

// Normal interrupt status bits.
pub const NORM_INT_CMD_COMPLETE: u16 = 0x0001;
pub const NORM_INT_XFER_COMPLETE: u16 = 0x0002;
pub const NORM_INT_BUF_WR_READY: u16 = 0x0010;
pub const NORM_INT_BUF_RD_READY: u16 = 0x0020;
pub const NORM_INT_CARD_INT: u16 = 0x0100;
pub const NORM_INT_ERROR: u16 = 0x8000;
/// Status bits enabled for polling: command/transfer complete, buffer
/// ready, card insert/removal, card interrupt.
pub const NORM_INT_ENABLE_MASK: u16 = 0x01F3;

// Error interrupt status bits.
pub const ERR_INT_CMD_TIMEOUT: u16 = 0x0001;
pub const ERR_INT_CMD_CRC: u16 = 0x0002;
pub const ERR_INT_DAT_TIMEOUT: u16 = 0x0010;
pub const ERR_INT_DAT_CRC: u16 = 0x0020;
/// Error bits enabled: command and data timeout, CRC, end bit, index.
pub const ERR_INT_ENABLE_MASK: u16 = 0x007F;

// Clock control bits.
pub const CC_INT_CLK_EN: u16 = 0x0001;
pub const CC_INT_CLK_STABLE: u16 = 0x0002;
pub const CC_SD_CLK_EN: u16 = 0x0004;
pub const CC_FREQ_SEL_EXT_MASK: u16 = 0x00C0;
pub const CC_FREQ_SEL_MASK: u16 = 0xFF00;

/// Software reset of everything.
pub const SWRST_ALL: u8 = 0x01;
/// 3.3 V bus power on.
pub const POWER_330V_ON: u8 = 0x0F;
pub const HC_HIGH_SPEED: u8 = 0x04;
pub const HC_BUS_WIDTH_4: u8 = 0x02;

// Transfer mode bits.
pub const TM_BLK_CNT_EN: u16 = 0x0002;
pub const TM_DATA_DIR_READ: u16 = 0x0010;
pub const TM_MULTI_BLOCK: u16 = 0x0020;

// Polling limits.
pub const RESET_TIMEOUT: u32 = 100_000;
pub const CLOCK_STABLE_TIMEOUT: u32 = 100_000;
pub const CMD_RESPONSE_TIMEOUT: u32 = 100_000;
pub const CMD5_READY_TIMEOUT: u32 = 1_000;
pub const PIO_TIMEOUT: u32 = 1_000_000;

// SDIO command fields.
/// Largest register address of CMD52/CMD53 (17 bits).
pub const SDIO_ADDR_MASK: u32 = 0x1FFFF;
pub const CMD52_RW_FLAG: u32 = 0x8000_0000;
pub const CMD52_RAW_FLAG: u32 = 0x0800_0000;
pub const CMD53_RW_FLAG: u32 = 0x8000_0000;
pub const CMD53_BLOCK_MODE: u32 = 0x0800_0000;
pub const CMD53_OP_CODE_INC: u32 = 0x0400_0000;

// R5 response flags.
pub const R5_COM_CRC_ERROR: u32 = 0x8000;
pub const R5_ILLEGAL_COMMAND: u32 = 0x4000;
pub const R5_ERROR: u32 = 0x0800;
pub const R5_FUNCTION_NUMBER: u32 = 0x0200;
pub const R5_OUT_OF_RANGE: u32 = 0x0100;

// OCR (CMD5 response) fields.
pub const OCR_IORDY: u32 = 0x8000_0000;
pub const OCR_IO_FUNC_MASK: u32 = 0x7000_0000;
pub const OCR_IO_FUNC_SHIFT: u32 = 28;
pub const OCR_MEM_PRESENT: u32 = 0x0800_0000;
pub const OCR_VOLTAGE_MASK: u32 = 0x00FF_FFFF;
pub const OCR_3V2_3V4: u32 = 0x0030_0000;

/// Virtual address of the SDIO1 controller (which needs SoC-level set-up).
pub const SDIO1_VADDR: u64 = 0xffff_ffc0_0432_0000;

/// Access to the controller's memory-mapped registers.
pub trait SdhciRegs {
    fn read8(&self, offset: u32) -> u8;
    fn read16(&self, offset: u32) -> u16;
    fn read32(&self, offset: u32) -> u32;
    fn write8(&self, offset: u32, val: u8);
    fn write16(&self, offset: u32, val: u16);
    fn write32(&self, offset: u32, val: u32);
    /// Base address of the register block.
    fn base(&self) -> u64;
    /// SoC-level clock, reset and pin set-up of the SDIO1 controller.
    fn soc_init(&self);
}

// ------------------------------------------------------------------
// Encodings
// ------------------------------------------------------------------

/// The command register value of a supported command: index in the high
/// byte, response type and checks in the low byte.
pub open spec fn cmd_reg_spec(cmd_idx: u8) -> Option<u16> {
    if cmd_idx == 0 { Some(0x0000u16) }
    else if cmd_idx == 3 { Some(0x031Au16) }
    else if cmd_idx == 5 { Some(0x0502u16) }
    else if cmd_idx == 7 { Some(0x071Bu16) }
    else if cmd_idx == 52 { Some(0x341Au16) }
    else if cmd_idx == 53 { Some(0x353Au16) }
    else { None }
}

/// Computes `cmd_reg_spec`.
pub fn cmd_reg_of(cmd_idx: u8) -> (r: Option<u16>)
    ensures
        r == cmd_reg_spec(cmd_idx),
{
    match cmd_idx {
        0 => Some(0x0000),
        3 => Some(0x031A),
        5 => Some(0x0502),
        7 => Some(0x071B),
        52 => Some(0x341A),
        53 => Some(0x353A),
        _ => None,
    }
}

/// The outcome of an R5 response: CRC error, then illegal command /
/// function number / out of range, then general error, else the data byte.
pub open spec fn r5_result(resp: u32) -> Result<u8, SdioError> {
    if resp & R5_COM_CRC_ERROR != 0 {
        Err(SdioError::CrcError)
    } else if resp & (R5_ILLEGAL_COMMAND | R5_FUNCTION_NUMBER | R5_OUT_OF_RANGE) != 0 {
        Err(SdioError::IoError)
    } else if resp & R5_ERROR != 0 {
        Err(SdioError::IoError)
    } else {
        Ok((resp & 0xFF) as u8)
    }
}

/// The CMD52 argument: read/write, read-after-write, function, 17-bit
/// register address and the byte to write.
pub open spec fn cmd52_arg(func: u8, addr: u32, write: bool, raw: bool, val: u8) -> u32 {
    (if write { CMD52_RW_FLAG } else { 0u32 }) | (if raw { CMD52_RAW_FLAG } else { 0u32 })
        | (((func as u32) & 0x07) << 28u32) | ((addr & SDIO_ADDR_MASK) << 9u32) | (val as u32)
}

/// Computes `cmd52_arg`.
pub fn make_cmd52_arg(func: u8, addr: u32, write: bool, raw: bool, val: u8) -> (a: u32)
    ensures
        a == cmd52_arg(func, addr, write, raw, val),
{
    (if write { CMD52_RW_FLAG } else { 0u32 }) | (if raw { CMD52_RAW_FLAG } else { 0u32 })
        | (((func as u32) & 0x07) << 28u32) | ((addr & SDIO_ADDR_MASK) << 9u32) | (val as u32)
}

/// How a CMD53 transfer of `len` bytes is laid out: in block mode (when
/// asked and the block size is non-zero) a whole, non-zero number of
/// blocks; otherwise one byte-mode transfer of at most 512 bytes (512
/// encoded as count 0).  Anything else is `Unsupported`.  The result is
/// (block mode, count, block size).
pub open spec fn cmd53_layout_spec(len: nat, block_size: u16, use_block_mode: bool) -> Result<(bool, nat, u16), SdioError> {
    if use_block_mode && block_size > 0 {
        let n = len / (block_size as nat);
        if n == 0 || len % (block_size as nat) != 0 {
            Err(SdioError::Unsupported)
        } else {
            Ok((true, n, block_size))
        }
    } else if len > 512 {
        Err(SdioError::Unsupported)
    } else {
        Ok((false, if len == 512 { 0 } else { len }, len as u16))
    }
}

/// Computes `cmd53_layout_spec`.
pub fn cmd53_layout(len: usize, block_size: u16, use_block_mode: bool) -> (r: Result<(bool, usize, u16), SdioError>)
    ensures
        match r {
            Ok((b, c, s)) => cmd53_layout_spec(len as nat, block_size, use_block_mode) == Ok::<(bool, nat, u16), SdioError>((b, c as nat, s)),
            Err(e) => cmd53_layout_spec(len as nat, block_size, use_block_mode) == Err::<(bool, nat, u16), SdioError>(e),
        },
{
    if use_block_mode && block_size > 0 {
        let nblocks = len / block_size as usize;
        if nblocks == 0 || len % block_size as usize != 0 {
            return Err(SdioError::Unsupported);
        }
        Ok((true, nblocks, block_size))
    } else {
        let byte_count = if len == 512 { 0usize } else { len };
        if len > 512 {
            return Err(SdioError::Unsupported);
        }
        Ok((false, byte_count, len as u16))
    }
}

/// The CMD53 argument: write flag, function, block mode, incrementing
/// address, 17-bit address and the 9-bit count.
pub open spec fn cmd53_arg(write: bool, func: u8, block_mode: bool, inc: bool, addr: u32, count: u32) -> u32 {
    (if write { CMD53_RW_FLAG } else { 0u32 }) | (((func as u32) & 0x07) << 28u32)
        | (if block_mode { CMD53_BLOCK_MODE } else { 0u32 }) | (if inc { CMD53_OP_CODE_INC } else { 0u32 })
        | ((addr & SDIO_ADDR_MASK) << 9u32) | (count & 0x1FF)
}

/// Computes `cmd53_arg`.
pub fn make_cmd53_arg(write: bool, func: u8, block_mode: bool, inc: bool, addr: u32, count: u32) -> (a: u32)
    ensures
        a == cmd53_arg(write, func, block_mode, inc, addr, count),
{
    (if write { CMD53_RW_FLAG } else { 0u32 }) | (((func as u32) & 0x07) << 28u32)
        | (if block_mode { CMD53_BLOCK_MODE } else { 0u32 }) | (if inc { CMD53_OP_CODE_INC } else { 0u32 })
        | ((addr & SDIO_ADDR_MASK) << 9u32) | (count & 0x1FF)
}

/// The transfer mode register: read direction when reading, multi-block
/// with block count enable for more than one block.
pub open spec fn transfer_mode_spec(read: bool, xfer_blocks: u16) -> u16 {
    (if read { TM_DATA_DIR_READ } else { 0u16 }) | (if xfer_blocks > 1 { TM_MULTI_BLOCK | TM_BLK_CNT_EN } else { 0u16 })
}

/// Computes `transfer_mode_spec`.
pub fn transfer_mode(read: bool, xfer_blocks: u16) -> (tm: u16)
    ensures
        tm == transfer_mode_spec(read, xfer_blocks),
{
    let mut tm: u16 = if read { TM_DATA_DIR_READ } else { 0 };
    if xfer_blocks > 1 {
        tm = tm | (TM_MULTI_BLOCK | TM_BLK_CNT_EN);
    } else {
        tm = tm | 0;
    }
    tm
}

/// The error an error-interrupt status maps to: CRC errors, then
/// timeouts, otherwise a generic I/O error.
pub open spec fn err_status_error(err: u16) -> SdioError {
    if err & (ERR_INT_CMD_CRC | ERR_INT_DAT_CRC) != 0 {
        SdioError::CrcError
    } else if err & (ERR_INT_CMD_TIMEOUT | ERR_INT_DAT_TIMEOUT) != 0 {
        SdioError::Timeout
    } else {
        SdioError::IoError
    }
}

/// The controller's base clock from the capabilities register (MHz in bits
/// 8..16), 50 MHz when it reports none.
pub open spec fn base_clock_of(caps: u32) -> u32 {
    let mhz = (caps / 256) % 256;
    if mhz == 0 { 50_000_000 } else { (mhz * 1_000_000) as u32 }
}

/// The 10-bit divisor for a bus clock of at most `hz` (the clock is
/// `base / (2 * divisor)`, or `base` for divisor 0).
pub open spec fn clock_divisor_spec(caps: u32, hz: u32) -> u16 {
    let base = base_clock_of(caps);
    if hz >= base {
        0
    } else {
        let div = (base + 2 * hz - 1) / (2 * hz);
        (if div < 0x3FF { div } else { 0x3FF }) as u16
    }
}

proof fn lemma_ceil_div(base: int, m: int)
    by (nonlinear_arith)
    requires
        base >= 1,
        m >= 1,
    ensures
        (base + m - 1) / m * m >= base,
        ((base + m - 1) / m - 1) * m < base,
        (base + m - 1) / m >= 1,
{
    let x = base + m - 1;
    let q = x / m;
    let r = x % m;
    assert(x == q * m + r && 0 <= r < m);
}

/// The divisor that `set_clock` programs for `hz`: none (the full base
/// clock) exactly when `hz` reaches the base clock, else the least divisor
/// whose clock `base / (2 * d)` does not exceed `hz`, capped at `0x3FF`.
pub proof fn law_clock_divisor(caps: u32, hz: u32)
    requires
        hz > 0,
    ensures
        clock_divisor_spec(caps, hz) <= 0x3FF,
        clock_divisor_spec(caps, hz) == 0 <==> hz >= base_clock_of(caps),
        clock_divisor_spec(caps, hz) > 0 ==>
            2 * (clock_divisor_spec(caps, hz) - 1) * hz < base_clock_of(caps),
        0 < clock_divisor_spec(caps, hz) < 0x3FF ==>
            2 * clock_divisor_spec(caps, hz) * hz >= base_clock_of(caps),
{
    let base = base_clock_of(caps) as int;
    let mhz = (caps / 256) % 256;
    assert(mhz < 256);
    assert(base >= 1) by (nonlinear_arith)
        requires
            base == (if mhz == 0 { 50_000_000 } else { (mhz * 1_000_000) as u32 as int }),
            mhz < 256,
    {
        if mhz != 0 {
            assert(mhz * 1_000_000 < 0x1_0000_0000);
        }
    }
    if (hz as int) < base {
        let m = 2 * hz;
        let q = (base + m - 1) / m;
        lemma_ceil_div(base, m);
        if q < 0x3FF {
            assert(clock_divisor_spec(caps, hz) == q);
            assert((q - 1) * m == 2 * (q - 1) * hz && q * m == 2 * q * hz) by (nonlinear_arith)
                requires
                    m == 2 * hz,
            ;
        } else {
            assert(clock_divisor_spec(caps, hz) == 0x3FF);
            assert(2 * (0x3FF - 1) * hz <= (q - 1) * m) by (nonlinear_arith)
                requires
                    m == 2 * hz,
                    q >= 0x3FF,
                    hz > 0,
            ;
        }
    }
}

/// Computes `clock_divisor_spec`.
pub fn clock_divisor(caps: u32, hz: u32) -> (d: u16)
    requires
        hz > 0,
    ensures
        d == clock_divisor_spec(caps, hz),
        d <= 0x3FF,
{
    let mhz = (caps / 256) % 256;
    let base_clock: u32 = if mhz == 0 { 50_000_000 } else { mhz * 1_000_000 };
    if hz >= base_clock {
        0
    } else {
        let div = (base_clock + 2 * hz - 1) / (2 * hz);
        (if div < 0x3FF { div } else { 0x3FF }) as u16
    }
}

/// The clock control value that selects `divisor` with the internal clock
/// on and the SD clock off, from the register's value `clk`: the enable
/// and frequency-select fields cleared, the divisor's low 8 bits in bits
/// 8..16 and its upper 2 bits in bits 6..8.
pub open spec fn clock_select_spec(clk: u16, divisor: u16) -> u16 {
    (clk & !(CC_SD_CLK_EN | CC_INT_CLK_EN) & !(CC_FREQ_SEL_MASK | CC_FREQ_SEL_EXT_MASK))
        | ((divisor & 0xFF) << 8u16) | (((divisor >> 8u16) & 0x03) << 6u16) | CC_INT_CLK_EN
}

/// Computes `clock_select_spec`.
pub fn clock_select(clk: u16, divisor: u16) -> (v: u16)
    ensures
        v == clock_select_spec(clk, divisor),
{
    (clk & !(CC_SD_CLK_EN | CC_INT_CLK_EN) & !(CC_FREQ_SEL_MASK | CC_FREQ_SEL_EXT_MASK))
        | ((divisor & 0xFF) << 8u16) | (((divisor >> 8u16) & 0x03) << 6u16) | CC_INT_CLK_EN
}

/// What the interrupt handler does for the normal interrupt status word
/// `status`: note each completion it reports, mask the card interrupt
/// (level-triggered, it cannot be cleared) and wake the receiver, read and
/// clear the error status, and write back every other set bit to clear it.
pub struct IrqActions {
    /// The card interrupt is set: mask it and wake the receive thread.
    pub card_int: bool,
    pub cmd_complete: bool,
    pub xfer_complete: bool,
    pub buf_rd_ready: bool,
    /// The error summary bit is set: read and clear the error status.
    pub error: bool,
    /// The bits to write back to the status register (all but the card
    /// interrupt, low 16 bits); non-zero also wakes the controller's waiters.
    pub w1c_mask: u16,
}

/// Decides the interrupt handler's actions for `status`.
pub fn irq_actions(status: u32) -> (a: IrqActions)
    ensures
        a.card_int == (status & (NORM_INT_CARD_INT as u32) != 0),
        a.cmd_complete == (status & (NORM_INT_CMD_COMPLETE as u32) != 0),
        a.xfer_complete == (status & (NORM_INT_XFER_COMPLETE as u32) != 0),
        a.buf_rd_ready == (status & (NORM_INT_BUF_RD_READY as u32) != 0),
        a.error == (status & (NORM_INT_ERROR as u32) != 0),
        a.w1c_mask == (status & !(NORM_INT_CARD_INT as u32)) as u16,
{
    IrqActions {
        card_int: status & (NORM_INT_CARD_INT as u32) != 0,
        cmd_complete: status & (NORM_INT_CMD_COMPLETE as u32) != 0,
        xfer_complete: status & (NORM_INT_XFER_COMPLETE as u32) != 0,
        buf_rd_ready: status & (NORM_INT_BUF_RD_READY as u32) != 0,
        error: status & (NORM_INT_ERROR as u32) != 0,
        w1c_mask: #[verifier::truncate] ((status & !(NORM_INT_CARD_INT as u32)) as u16),
    }
}

/// The next step of the CIS walk at a tuple with code `code` and link
/// `link`: stop at the end tuple, skip one byte for a null tuple, report
/// the manufacturer tuple when it holds four bytes, otherwise move past the
/// tuple.
#[derive(Debug, Clone, Copy, PartialEq, Eq, Structural)]
pub enum CisStep {
    End,
    SkipNull,
    Manfid,
    Next { advance: u32 },
}

/// Decides the next step of the CIS walk.
pub fn cis_step(code: u8, link: u8) -> (s: CisStep)
    ensures
        code == CISTPL_END ==> s == CisStep::End,
        code == CISTPL_NULL ==> s == CisStep::SkipNull,
        code != CISTPL_END && code != CISTPL_NULL && code == CISTPL_MANFID && link >= 4 ==> s == CisStep::Manfid,
        code != CISTPL_END && code != CISTPL_NULL && !(code == CISTPL_MANFID && link >= 4) ==> s == (CisStep::Next { advance: (2 + link) as u32 }),
{
    if code == CISTPL_END {
        CisStep::End
    } else if code == CISTPL_NULL {
        CisStep::SkipNull
    } else if code == CISTPL_MANFID && link >= 4 {
        CisStep::Manfid
    } else {
        CisStep::Next { advance: 2 + link as u32 }
    }
}

// ------------------------------------------------------------------
// Card enumeration protocol
// ------------------------------------------------------------------

/// One step of card enumeration as the controller took it, with what it
/// gave: a controller wait, a clock change, an SD command, a CCCR access
/// through CMD52, a function set-up or a CIS walk.
pub enum CardEvent {
    ResetWait { result: Result<(), SdioError> },
    SetClock { hz: u32, result: Result<(), SdioError> },
    Cmd { index: u8, arg: u32, result: Result<u32, SdioError> },
    Read52 { addr: u32, result: Result<u8, SdioError> },
    Write52 { addr: u32, val: u8, result: Result<(), SdioError> },
    EnableFn { func: u8, result: Result<(), SdioError> },
    BlockSize { func: u8, size: u16, result: Result<(), SdioError> },
}

/// Where card enumeration stands after the steps so far.
pub enum CardPhase {
    Reset,
    SlowClock,
    OcrQuery,
    /// Waiting for the card: `tries` CMD5 with `voltage` without I/O ready.
    OcrReady { voltage: u32, tries: nat },
    Rca,
    Select { rca: u16 },
    Speed { rca: u16 },
    HighSpeed { rca: u16, speed: u8 },
    BusClock { rca: u16, hz: u32 },
    BusWidth { rca: u16 },
    BusWidthWrite { rca: u16, bus_if: u8 },
    Enable { rca: u16 },
    /// Polling function 1 ready: `polls` reads without it.
    IoReady { rca: u16, polls: nat },
    BlockSize { rca: u16 },
    /// Reading byte `i` of function `func`'s CIS pointer, `acc` so far.
    CisPtr { rca: u16, func: u8, i: nat, acc: nat },
    /// At tuple `n` of the CIS walk, at `addr`: its code is read next.
    CisTuple { rca: u16, func: u8, addr: nat, n: nat },
    /// Tuple `n` at `addr` has `code`; its link byte is read next.
    CisLink { rca: u16, func: u8, addr: nat, n: nat, code: u8 },
    /// In the manufacturer tuple at `addr`: byte `k` of its body is read
    /// next, `vals` read so far.
    CisManfid { rca: u16, func: u8, addr: nat, k: nat, vals: Seq<u8> },
    /// Enumeration is over: the RCA and the vendor and device IDs, or the
    /// error.
    Done { result: Result<(u16, u16, u16), SdioError> },
    Invalid,
}

/// A step that can only fail or move on to `next`.
pub open spec fn card_then(result: Result<(), SdioError>, next: CardPhase) -> CardPhase {
    match result {
        Ok(_) => next,
        Err(e) => CardPhase::Done { result: Err(e) },
    }
}

/// The CMD5 voltage window the host asks for: the card's OCR voltages
/// within 3.2-3.4 V.
pub open spec fn ocr_voltage(ocr: u32) -> u32 {
    ocr & OCR_VOLTAGE_MASK & OCR_3V2_3V4
}

/// Card enumeration, one step at a time.  The software reset, then the
/// 400 kHz clock; CMD5 with argument 0 reads the OCR, and a card without
/// 3.2-3.4 V is `Unsupported`; CMD5 with that voltage is repeated until
/// the card reports I/O ready, `Timeout` after 1000 tries; CMD3 gives the
/// RCA (upper 16 bits of the response), CMD7 selects it; a card that
/// supports high speed gets the enable bit and 50 MHz, otherwise 25 MHz;
/// the 4-bit bus is set in the CCCR; function 1 is enabled and its ready
/// bit polled (at most 1000 reads, then enumeration goes on); function 1
/// gets 512-byte blocks; the IDs come from function 1's CIS, else from
/// function 0's: the 24-bit CIS pointer (three CCCR/FBR bytes,
/// little-endian), then a walk of at most 256 tuples (code, link, body)
/// that skips null tuples, stops at the end tuple, and in a manufacturer
/// tuple with at least four body bytes finds the vendor and device IDs,
/// each 16 bits little-endian.  Any failed step ends enumeration with its
/// error.
pub open spec fn card_step(p: CardPhase, e: CardEvent) -> CardPhase {
    match p {
        CardPhase::Reset => match e {
            CardEvent::ResetWait { result } => card_then(result, CardPhase::SlowClock),
            _ => CardPhase::Invalid,
        },
        CardPhase::SlowClock => match e {
            CardEvent::SetClock { hz, result } => if hz != 400_000 { CardPhase::Invalid } else {
                card_then(result, CardPhase::OcrQuery)
            },
            _ => CardPhase::Invalid,
        },
        CardPhase::OcrQuery => match e {
            CardEvent::Cmd { index, arg, result } => if index != 5 || arg != 0 { CardPhase::Invalid } else {
                match result {
                    Err(x) => CardPhase::Done { result: Err(x) },
                    Ok(ocr) => if ocr_voltage(ocr) == 0 {
                        CardPhase::Done { result: Err(SdioError::Unsupported) }
                    } else {
                        CardPhase::OcrReady { voltage: ocr_voltage(ocr), tries: 0 }
                    },
                }
            },
            _ => CardPhase::Invalid,
        },
        CardPhase::OcrReady { voltage, tries } => match e {
            CardEvent::Cmd { index, arg, result } => if index != 5 || arg != voltage { CardPhase::Invalid } else {
                match result {
                    Err(x) => CardPhase::Done { result: Err(x) },
                    Ok(ocr) => if ocr & OCR_IORDY != 0 {
                        CardPhase::Rca
                    } else if tries + 1 >= CMD5_READY_TIMEOUT {
                        CardPhase::Done { result: Err(SdioError::Timeout) }
                    } else {
                        CardPhase::OcrReady { voltage, tries: tries + 1 }
                    },
                }
            },
            _ => CardPhase::Invalid,
        },
        CardPhase::Rca => match e {
            CardEvent::Cmd { index, arg, result } => if index != 3 || arg != 0 { CardPhase::Invalid } else {
                match result {
                    Err(x) => CardPhase::Done { result: Err(x) },
                    Ok(resp) => CardPhase::Select { rca: (resp / 65536) as u16 },
                }
            },
            _ => CardPhase::Invalid,
        },
        CardPhase::Select { rca } => match e {
            CardEvent::Cmd { index, arg, result } => if index != 7 || arg != rca * 65536 { CardPhase::Invalid } else {
                match result {
                    Err(x) => CardPhase::Done { result: Err(x) },
                    Ok(_) => CardPhase::Speed { rca },
                }
            },
            _ => CardPhase::Invalid,
        },
        CardPhase::Speed { rca } => match e {
            CardEvent::Read52 { addr, result } => if addr != BUS_SPEED_SELECT { CardPhase::Invalid } else {
                match result {
                    Err(x) => CardPhase::Done { result: Err(x) },
                    Ok(s) => if s & 0x01u8 != 0 {
                        CardPhase::HighSpeed { rca, speed: s }
                    } else {
                        CardPhase::BusClock { rca, hz: 25_000_000 }
                    },
                }
            },
            _ => CardPhase::Invalid,
        },
        CardPhase::HighSpeed { rca, speed } => match e {
            CardEvent::Write52 { addr, val, result } => if addr != BUS_SPEED_SELECT || val != speed | 0x02u8 {
                CardPhase::Invalid
            } else {
                card_then(result, CardPhase::BusClock { rca, hz: 50_000_000 })
            },
            _ => CardPhase::Invalid,
        },
        CardPhase::BusClock { rca, hz } => match e {
            CardEvent::SetClock { hz: h, result } => if h != hz { CardPhase::Invalid } else {
                card_then(result, CardPhase::BusWidth { rca })
            },
            _ => CardPhase::Invalid,
        },
        CardPhase::BusWidth { rca } => match e {
            CardEvent::Read52 { addr, result } => if addr != CCCR_BUS_INTERFACE { CardPhase::Invalid } else {
                match result {
                    Err(x) => CardPhase::Done { result: Err(x) },
                    Ok(v) => CardPhase::BusWidthWrite { rca, bus_if: v },
                }
            },
            _ => CardPhase::Invalid,
        },
        CardPhase::BusWidthWrite { rca, bus_if } => match e {
            CardEvent::Write52 { addr, val, result } => if addr != CCCR_BUS_INTERFACE || val != (bus_if & 0xFCu8) | 0x02u8 {
                CardPhase::Invalid
            } else {
                card_then(result, CardPhase::Enable { rca })
            },
            _ => CardPhase::Invalid,
        },
        CardPhase::Enable { rca } => match e {
            CardEvent::EnableFn { func, result } => if func != 1 { CardPhase::Invalid } else {
                card_then(result, CardPhase::IoReady { rca, polls: 0 })
            },
            _ => CardPhase::Invalid,
        },
        CardPhase::IoReady { rca, polls } => match e {
            CardEvent::Read52 { addr, result } => if addr != CCCR_IO_READY { CardPhase::Invalid } else {
                match result {
                    Err(x) => CardPhase::Done { result: Err(x) },
                    Ok(v) => if v & 0x02u8 != 0 || polls + 1 >= 1000 {
                        CardPhase::BlockSize { rca }
                    } else {
                        CardPhase::IoReady { rca, polls: polls + 1 }
                    },
                }
            },
            _ => CardPhase::Invalid,
        },
        CardPhase::BlockSize { rca } => match e {
            CardEvent::BlockSize { func, size, result } => if func != 1 || size != 512 { CardPhase::Invalid } else {
                card_then(result, CardPhase::CisPtr { rca, func: 1, i: 0, acc: 0 })
            },
            _ => CardPhase::Invalid,
        },
        CardPhase::CisPtr { rca, func, i, acc } => match e {
            CardEvent::Read52 { addr, result } => if addr != cis_ptr_base(func) + i { CardPhase::Invalid } else {
                match result {
                    Err(x) => cis_fail(rca, func, x),
                    Ok(b) => if i >= 2 {
                        cis_next(rca, func, (acc + b * 65536) as nat, 0)
                    } else {
                        CardPhase::CisPtr { rca, func, i: i + 1, acc: (acc + b * (if i == 0 { 1nat } else { 256nat })) as nat }
                    },
                }
            },
            _ => CardPhase::Invalid,
        },
        CardPhase::CisTuple { rca, func, addr, n } => match e {
            CardEvent::Read52 { addr: a, result } => if a != addr { CardPhase::Invalid } else {
                match result {
                    Err(x) => cis_fail(rca, func, x),
                    Ok(code) => if code == CISTPL_END {
                        cis_fail(rca, func, SdioError::Unsupported)
                    } else if code == CISTPL_NULL {
                        cis_next(rca, func, addr + 1, n + 1)
                    } else {
                        CardPhase::CisLink { rca, func, addr, n, code }
                    },
                }
            },
            _ => CardPhase::Invalid,
        },
        CardPhase::CisLink { rca, func, addr, n, code } => match e {
            CardEvent::Read52 { addr: a, result } => if a != addr + 1 { CardPhase::Invalid } else {
                match result {
                    Err(x) => cis_fail(rca, func, x),
                    Ok(link) => if code == CISTPL_MANFID && link >= 4 {
                        CardPhase::CisManfid { rca, func, addr, k: 0, vals: Seq::empty() }
                    } else {
                        cis_next(rca, func, (addr + 2 + link) as nat, n + 1)
                    },
                }
            },
            _ => CardPhase::Invalid,
        },
        CardPhase::CisManfid { rca, func, addr, k, vals } => match e {
            CardEvent::Read52 { addr: a, result } => if a != addr + 2 + k { CardPhase::Invalid } else {
                match result {
                    Err(x) => cis_fail(rca, func, x),
                    Ok(v) => if k >= 3 {
                        CardPhase::Done { result: Ok((rca, (vals[0] + 256 * vals[1]) as u16, (vals[2] + 256 * v) as u16)) }
                    } else {
                        CardPhase::CisManfid { rca, func, addr, k: k + 1, vals: vals.push(v) }
                    },
                }
            },
            _ => CardPhase::Invalid,
        },
        _ => CardPhase::Invalid,
    }
}

/// Where function `func`'s CIS pointer starts: the CCCR for function 0,
/// the function's FBR otherwise.
pub open spec fn cis_ptr_base(func: u8) -> nat {
    if func == 0 { FN0_CIS_PTR as nat } else { (func * 0x100 + FBR_CIS_PTR_OFFSET) as nat }
}

/// A failed CIS walk of function `func`: function 1's falls back to
/// function 0's; function 0's ends enumeration with the error.
pub open spec fn cis_fail(rca: u16, func: u8, e: SdioError) -> CardPhase {
    if func == 1 {
        CardPhase::CisPtr { rca, func: 0, i: 0, acc: 0 }
    } else {
        CardPhase::Done { result: Err(e) }
    }
}

/// Tuple `n` of the CIS walk at `addr`; after 256 tuples without the
/// manufacturer tuple the walk fails with `Unsupported`.
pub open spec fn cis_next(rca: u16, func: u8, addr: nat, n: nat) -> CardPhase {
    if n >= 256 {
        cis_fail(rca, func, SdioError::Unsupported)
    } else {
        CardPhase::CisTuple { rca, func, addr, n }
    }
}

/// Where card enumeration stands after the steps `ev`.
pub open spec fn card_run(ev: Seq<CardEvent>) -> CardPhase
    decreases ev.len(),
{
    if ev.len() == 0 {
        CardPhase::Reset
    } else {
        card_step(card_run(ev.drop_last()), ev.last())
    }
}

/// `r` is what enumeration gave, with the controller's IDs `ids` after a
/// success.
pub open spec fn card_outcome(r: Result<(), SdioError>, ids: (u16, u16, u16)) -> Result<(u16, u16, u16), SdioError> {
    match r {
        Ok(_) => Ok(ids),
        Err(e) => Err(e),
    }
}

// ------------------------------------------------------------------
// Register protocol
// ------------------------------------------------------------------

/// `a` is a leading part of `b`.
pub open spec fn prefix_of<A>(a: Seq<A>, b: Seq<A>) -> bool {
    &&& a.len() <= b.len()
    &&& forall|i: int| 0 <= i < a.len() ==> #[trigger] b[i] == a[i]
}

/// What `b` holds after its leading part `a`.
pub open spec fn since<A>(a: Seq<A>, b: Seq<A>) -> Seq<A> {
    b.subrange(a.len() as int, b.len() as int)
}

proof fn lemma_since_empty<A>(a: Seq<A>)
    ensures
        prefix_of(a, a),
        since(a, a) == Seq::<A>::empty(),
{
    assert(a.subrange(0, a.len() as int) =~= a);
    assert(since(a, a) =~= Seq::<A>::empty());
}

proof fn lemma_since_push<A>(a: Seq<A>, b: Seq<A>, e: A)
    requires
        prefix_of(a, b),
    ensures
        prefix_of(a, b.push(e)),
        since(a, b.push(e)) == since(a, b).push(e),
        since(a, b.push(e)).drop_last() == since(a, b),
        since(a, b.push(e)).last() == e,
{
    assert(b.push(e).subrange(0, a.len() as int) =~= b.subrange(0, a.len() as int));
    assert(since(a, b.push(e)) =~= since(a, b).push(e));
}

proof fn lemma_since_concat<A>(a: Seq<A>, b: Seq<A>, c: Seq<A>)
    requires
        prefix_of(a, b),
        prefix_of(b, c),
    ensures
        prefix_of(a, c),
        since(a, c) == since(a, b) + since(b, c),
{
    assert(c.subrange(0, a.len() as int) =~= c.subrange(0, b.len() as int).subrange(0, a.len() as int));
    assert(since(a, c) =~= since(a, b) + since(b, c));
}

/// Where an SD command stands after the register accesses so far.
pub enum CmdPhase {
    /// Waiting for the command line: `polls` busy reads so far.
    Idle { polls: nat },
    /// The argument register is written next.
    Arg,
    /// The command register is written next.
    Cmd,
    /// Waiting for completion: `polls` status reads without it so far.
    Wait { polls: nat },
    /// An error interrupt was seen in status `norm`; the error status is read next.
    ErrRead { norm: u16 },
    /// The error status `err` is written back next.
    ErrAck { norm: u16, err: u16 },
    /// The normal status `norm` is written back next.
    NormAck { norm: u16, err: u16 },
    /// Completion was seen; its status bit is cleared next.
    Ack,
    /// The response register is read next.
    Resp,
    /// The command is over with this result.
    Done { result: Result<u32, SdioError> },
    /// The accesses do not follow the protocol.
    Invalid,
}

/// SD command `idx` with `arg`, one register access at a time: poll the
/// present state until the command line is free (`Timeout` after
/// `CMD_RESPONSE_TIMEOUT` reads), write the argument, refuse an unknown
/// command with `Unsupported`, write the command register, poll the normal
/// status until completion (`Timeout` likewise); an error interrupt reads
/// and clears the error status, clears the normal status, and gives
/// `err_status_error`; completion is cleared and the response read.
pub open spec fn cmd_step(idx: u8, arg: u32, p: CmdPhase, e: RegEvent) -> CmdPhase {
    match p {
        CmdPhase::Idle { polls } => match e {
            RegEvent::Read32 { off, val } => if off != SDHCI_PRESENT_STATE {
                CmdPhase::Invalid
            } else if val & SDHCI_CMD_INHIBIT == 0 {
                CmdPhase::Arg
            } else if polls + 1 >= CMD_RESPONSE_TIMEOUT {
                CmdPhase::Done { result: Err(SdioError::Timeout) }
            } else {
                CmdPhase::Idle { polls: polls + 1 }
            },
            _ => CmdPhase::Invalid,
        },
        CmdPhase::Arg => match e {
            RegEvent::Write32 { off, val } => if off != SDHCI_ARGUMENT || val != arg {
                CmdPhase::Invalid
            } else if cmd_reg_spec(idx) is None {
                CmdPhase::Done { result: Err(SdioError::Unsupported) }
            } else {
                CmdPhase::Cmd
            },
            _ => CmdPhase::Invalid,
        },
        CmdPhase::Cmd => match e {
            RegEvent::Write16 { off, val } => if off == SDHCI_COMMAND && cmd_reg_spec(idx) == Some(val) {
                CmdPhase::Wait { polls: 0 }
            } else {
                CmdPhase::Invalid
            },
            _ => CmdPhase::Invalid,
        },
        CmdPhase::Wait { polls } => match e {
            RegEvent::Read16 { off, val } => if off != SDHCI_INT_STATUS_NORM {
                CmdPhase::Invalid
            } else if val & NORM_INT_ERROR != 0 {
                CmdPhase::ErrRead { norm: val }
            } else if val & NORM_INT_CMD_COMPLETE != 0 {
                CmdPhase::Ack
            } else if polls + 1 >= CMD_RESPONSE_TIMEOUT {
                CmdPhase::Done { result: Err(SdioError::Timeout) }
            } else {
                CmdPhase::Wait { polls: polls + 1 }
            },
            _ => CmdPhase::Invalid,
        },
        CmdPhase::ErrRead { norm } => match e {
            RegEvent::Read16 { off, val } => if off == SDHCI_INT_STATUS_ERR {
                CmdPhase::ErrAck { norm, err: val }
            } else {
                CmdPhase::Invalid
            },
            _ => CmdPhase::Invalid,
        },
        CmdPhase::ErrAck { norm, err } => match e {
            RegEvent::Write16 { off, val } => if off == SDHCI_INT_STATUS_ERR && val == err {
                CmdPhase::NormAck { norm, err }
            } else {
                CmdPhase::Invalid
            },
            _ => CmdPhase::Invalid,
        },
        CmdPhase::NormAck { norm, err } => match e {
            RegEvent::Write16 { off, val } => if off == SDHCI_INT_STATUS_NORM && val == norm {
                CmdPhase::Done { result: Err(err_status_error(err)) }
            } else {
                CmdPhase::Invalid
            },
            _ => CmdPhase::Invalid,
        },
        CmdPhase::Ack => match e {
            RegEvent::Write16 { off, val } => if off == SDHCI_INT_STATUS_NORM && val == NORM_INT_CMD_COMPLETE {
                CmdPhase::Resp
            } else {
                CmdPhase::Invalid
            },
            _ => CmdPhase::Invalid,
        },
        CmdPhase::Resp => match e {
            RegEvent::Read32 { off, val } => if off == SDHCI_RESPONSE {
                CmdPhase::Done { result: Ok(val) }
            } else {
                CmdPhase::Invalid
            },
            _ => CmdPhase::Invalid,
        },
        _ => CmdPhase::Invalid,
    }
}

/// Where SD command `idx` with `arg` stands after the accesses `ev`.
pub open spec fn cmd_run(idx: u8, arg: u32, ev: Seq<RegEvent>) -> CmdPhase
    decreases ev.len(),
{
    if ev.len() == 0 {
        CmdPhase::Idle { polls: 0 }
    } else {
        cmd_step(idx, arg, cmd_run(idx, arg, ev.drop_last()), ev.last())
    }
}

/// The outcome of a CMD52 read: the R5 check of the response, or the
/// command's error.
pub open spec fn cmd52_read_outcome(p: CmdPhase) -> Result<u8, SdioError> {
    match p {
        CmdPhase::Done { result: Ok(resp) } => r5_result(resp),
        CmdPhase::Done { result: Err(e) } => Err(e),
        _ => Err(SdioError::IoError),
    }
}

/// The outcome of a CMD52 write: the R5 check of the response, or the
/// command's error.
pub open spec fn cmd52_write_outcome(p: CmdPhase) -> Result<(), SdioError> {
    match cmd52_read_outcome(p) {
        Ok(_) => Ok(()),
        Err(e) => Err(e),
    }
}

/// Where a wait for normal status bit `bit` stands.
pub enum StatusPhase {
    /// `polls` status reads without the bit so far.
    Wait { polls: nat },
    /// An error interrupt was seen; the error status is read next.
    ErrRead,
    /// The error status `err` is written back next.
    ErrAck { err: u16 },
    /// The error summary bit is cleared next.
    NormAck,
    /// The bit was seen; it is cleared next.
    Ack,
    /// The wait is over with this result.
    Done { result: Result<(), SdioError> },
    Invalid,
}

/// A wait for normal status bit `bit`: an error interrupt reads and clears
/// the error status, clears the summary bit and gives `IoError`; the bit is
/// cleared and the wait succeeds; `PIO_TIMEOUT` reads without either give
/// `Timeout`.
pub open spec fn status_step(bit: u16, p: StatusPhase, e: RegEvent) -> StatusPhase {
    match p {
        StatusPhase::Wait { polls } => match e {
            RegEvent::Read16 { off, val } => if off != SDHCI_INT_STATUS_NORM {
                StatusPhase::Invalid
            } else if val & NORM_INT_ERROR != 0 {
                StatusPhase::ErrRead
            } else if val & bit != 0 {
                StatusPhase::Ack
            } else if polls + 1 >= PIO_TIMEOUT {
                StatusPhase::Done { result: Err(SdioError::Timeout) }
            } else {
                StatusPhase::Wait { polls: polls + 1 }
            },
            _ => StatusPhase::Invalid,
        },
        StatusPhase::ErrRead => match e {
            RegEvent::Read16 { off, val } => if off == SDHCI_INT_STATUS_ERR { StatusPhase::ErrAck { err: val } } else { StatusPhase::Invalid },
            _ => StatusPhase::Invalid,
        },
        StatusPhase::ErrAck { err } => match e {
            RegEvent::Write16 { off, val } => if off == SDHCI_INT_STATUS_ERR && val == err { StatusPhase::NormAck } else { StatusPhase::Invalid },
            _ => StatusPhase::Invalid,
        },
        StatusPhase::NormAck => match e {
            RegEvent::Write16 { off, val } => if off == SDHCI_INT_STATUS_NORM && val == NORM_INT_ERROR {
                StatusPhase::Done { result: Err(SdioError::IoError) }
            } else {
                StatusPhase::Invalid
            },
            _ => StatusPhase::Invalid,
        },
        StatusPhase::Ack => match e {
            RegEvent::Write16 { off, val } => if off == SDHCI_INT_STATUS_NORM && val == bit {
                StatusPhase::Done { result: Ok(()) }
            } else {
                StatusPhase::Invalid
            },
            _ => StatusPhase::Invalid,
        },
        _ => StatusPhase::Invalid,
    }
}

/// Where a wait for status bit `bit` stands after the accesses `ev`.
pub open spec fn status_run(bit: u16, ev: Seq<RegEvent>) -> StatusPhase
    decreases ev.len(),
{
    if ev.len() == 0 {
        StatusPhase::Wait { polls: 0 }
    } else {
        status_step(bit, status_run(bit, ev.drop_last()), ev.last())
    }
}

/// Where a programmed-I/O transfer stands.
pub enum PioPhase {
    /// Block `blk` waits for its buffer-ready status.
    Wait { blk: nat, sp: StatusPhase },
    /// Block `blk` has moved `w` words through the data port.
    Data { blk: nat, w: nat },
    /// All blocks moved; waiting for transfer-complete.
    Tail { sp: StatusPhase },
    /// The transfer is over with this result.
    Done { result: Result<(), SdioError> },
    /// The accesses do not follow the protocol.
    Invalid,
}

/// The buffer-ready status bit of a read or a write.
pub open spec fn pio_bit(read: bool) -> u16 {
    if read { NORM_INT_BUF_RD_READY } else { NORM_INT_BUF_WR_READY }
}

/// A data-port access of a read (a 32-bit read) or a write (a 32-bit write).
pub open spec fn is_port_access(read: bool, e: RegEvent) -> bool {
    if read {
        e matches RegEvent::Read32 { off, .. } && off == SDHCI_BUFFER
    } else {
        e matches RegEvent::Write32 { off, .. } && off == SDHCI_BUFFER
    }
}

/// The phase at the start of block `blk` of `nblocks`.
pub open spec fn pio_at(blk: nat, nblocks: nat) -> PioPhase {
    if blk >= nblocks {
        PioPhase::Tail { sp: StatusPhase::Wait { polls: 0 } }
    } else {
        PioPhase::Wait { blk, sp: StatusPhase::Wait { polls: 0 } }
    }
}

/// A transfer of `nblocks` blocks of `words` words, one access at a time:
/// per block, a wait for the buffer-ready bit (as `status_step`), then
/// `words` data-port accesses; then a wait for transfer-complete.  A failed
/// wait ends the transfer with its error.
pub open spec fn pio_step(read: bool, words: nat, nblocks: nat, p: PioPhase, e: RegEvent) -> PioPhase {
    match p {
        PioPhase::Wait { blk, sp } => match status_step(pio_bit(read), sp, e) {
            StatusPhase::Done { result: Ok(_) } => if words == 0 { pio_at(blk + 1, nblocks) } else { PioPhase::Data { blk, w: 0 } },
            StatusPhase::Done { result: Err(x) } => PioPhase::Done { result: Err(x) },
            StatusPhase::Invalid => PioPhase::Invalid,
            sp2 => PioPhase::Wait { blk, sp: sp2 },
        },
        PioPhase::Data { blk, w } => if !is_port_access(read, e) {
            PioPhase::Invalid
        } else if w + 1 >= words {
            pio_at(blk + 1, nblocks)
        } else {
            PioPhase::Data { blk, w: w + 1 }
        },
        PioPhase::Tail { sp } => match status_step(NORM_INT_XFER_COMPLETE, sp, e) {
            StatusPhase::Done { result } => PioPhase::Done { result },
            StatusPhase::Invalid => PioPhase::Invalid,
            sp2 => PioPhase::Tail { sp: sp2 },
        },
        _ => PioPhase::Invalid,
    }
}

/// Where a transfer stands after the accesses `ev`.
pub open spec fn pio_run(read: bool, words: nat, nblocks: nat, ev: Seq<RegEvent>) -> PioPhase
    decreases ev.len(),
{
    if ev.len() == 0 {
        pio_at(0, nblocks)
    } else {
        pio_step(read, words, nblocks, pio_run(read, words, nblocks, ev.drop_last()), ev.last())
    }
}

/// A status wait that is neither over nor broken.
pub open spec fn live(sp: StatusPhase) -> bool {
    !(sp is Done) && !(sp is Invalid)
}

/// The transfer phase that embeds status wait `sp`: block `blk`'s
/// buffer-ready wait, or (`tail`) the transfer-complete wait.
pub open spec fn pio_ctx(tail: bool, blk: nat, sp: StatusPhase) -> PioPhase {
    if tail { PioPhase::Tail { sp } } else { PioPhase::Wait { blk, sp } }
}

/// The status bit waited for in that phase.
pub open spec fn ctx_bit(read: bool, tail: bool) -> u16 {
    if tail { NORM_INT_XFER_COMPLETE } else { pio_bit(read) }
}

proof fn lemma_pio_push(read: bool, words: nat, nblocks: nat, a: Seq<RegEvent>, e: RegEvent)
    ensures
        pio_run(read, words, nblocks, a.push(e)) == pio_step(read, words, nblocks, pio_run(read, words, nblocks, a), e),
{
    assert(a.push(e).drop_last() =~= a);
}

proof fn lemma_status_live_prefix(bit: u16, seg: Seq<RegEvent>)
    requires
        seg.len() > 0,
        !(status_run(bit, seg) is Invalid),
    ensures
        live(status_run(bit, seg.drop_last())),
{
}

proof fn lemma_pio_embed(read: bool, words: nat, nblocks: nat, tail: bool, blk: nat, pre: Seq<RegEvent>, seg: Seq<RegEvent>)
    requires
        pio_run(read, words, nblocks, pre) == pio_ctx(tail, blk, StatusPhase::Wait { polls: 0 }),
        live(status_run(ctx_bit(read, tail), seg)),
    ensures
        pio_run(read, words, nblocks, pre + seg) == pio_ctx(tail, blk, status_run(ctx_bit(read, tail), seg)),
    decreases seg.len(),
{
    if seg.len() == 0 {
        assert(pre + seg =~= pre);
    } else {
        let s1 = seg.drop_last();
        lemma_status_live_prefix(ctx_bit(read, tail), seg);
        lemma_pio_embed(read, words, nblocks, tail, blk, pre, s1);
        assert((pre + seg).drop_last() =~= pre + s1);
        assert((pre + seg).last() == seg.last());
    }
}

/// A status wait that ends inside a transfer: its success moves on, its
/// error ends the transfer.
proof fn lemma_pio_wait_done(read: bool, words: nat, nblocks: nat, tail: bool, blk: nat, pre: Seq<RegEvent>, seg: Seq<RegEvent>,
    r: Result<(), SdioError>)
    requires
        pio_run(read, words, nblocks, pre) == pio_ctx(tail, blk, StatusPhase::Wait { polls: 0 }),
        status_run(ctx_bit(read, tail), seg) == (StatusPhase::Done { result: r }),
    ensures
        pio_run(read, words, nblocks, pre + seg) == (match r {
            Ok(_) => if tail {
                PioPhase::Done { result: r }
            } else if words == 0 {
                pio_at(blk + 1, nblocks)
            } else {
                PioPhase::Data { blk, w: 0 }
            },
            Err(x) => PioPhase::Done { result: Err(x) },
        }),
{
    assert(seg.len() > 0);
    let s1 = seg.drop_last();
    lemma_status_live_prefix(ctx_bit(read, tail), seg);
    lemma_pio_embed(read, words, nblocks, tail, blk, pre, s1);
    assert((pre + seg).drop_last() =~= pre + s1);
    assert((pre + seg).last() == seg.last());
}

/// Whether `e` moves data through the buffer data port.
pub open spec fn is_data_port(e: RegEvent) -> bool {
    ||| e matches RegEvent::Read32 { off, .. } && off == SDHCI_BUFFER
    ||| e matches RegEvent::Write32 { off, .. } && off == SDHCI_BUFFER
}

/// The bytes read from the data port during `ev`, each word little-endian.
pub open spec fn port_bytes(ev: Seq<RegEvent>) -> Seq<u8>
    decreases ev.len(),
{
    if ev.len() == 0 {
        Seq::empty()
    } else {
        match ev.last() {
            RegEvent::Read32 { off, val } => if off == SDHCI_BUFFER {
                port_bytes(ev.drop_last()) + crate::ipc::le32(val)
            } else {
                port_bytes(ev.drop_last())
            },
            _ => port_bytes(ev.drop_last()),
        }
    }
}

/// The words written to the data port during `ev`.
pub open spec fn port_words(ev: Seq<RegEvent>) -> Seq<u32>
    decreases ev.len(),
{
    if ev.len() == 0 {
        Seq::empty()
    } else {
        match ev.last() {
            RegEvent::Write32 { off, val } => if off == SDHCI_BUFFER {
                port_words(ev.drop_last()).push(val)
            } else {
                port_words(ev.drop_last())
            },
            _ => port_words(ev.drop_last()),
        }
    }
}

/// No access in `ev` touches the data port.
pub open spec fn off_port(ev: Seq<RegEvent>) -> bool {
    forall|k: int| 0 <= k < ev.len() ==> !is_data_port(#[trigger] ev[k])
}

/// A wait for the internal clock: reads of the clock control register, each
/// but the last without `CC_INT_CLK_STABLE`; on success the last shows it,
/// after at most `CLOCK_STABLE_TIMEOUT` reads; else `Timeout` after
/// `CLOCK_STABLE_TIMEOUT` reads without it.
pub open spec fn clock_poll(ev: Seq<RegEvent>, r: Result<(), SdioError>) -> bool {
    &&& forall|i: int| 0 <= i < ev.len() ==>
        #[trigger] ev[i] == (RegEvent::Read16 { off: SDHCI_CLOCK_CONTROL, val: ev[i]->Read16_val })
    &&& match r {
        Ok(_) => {
            &&& 1 <= ev.len() <= CLOCK_STABLE_TIMEOUT
            &&& forall|i: int| 0 <= i < ev.len() - 1 ==> (#[trigger] ev[i])->Read16_val & CC_INT_CLK_STABLE == 0
            &&& ev.last()->Read16_val & CC_INT_CLK_STABLE != 0
        },
        Err(e) => {
            &&& e == SdioError::Timeout
            &&& ev.len() == CLOCK_STABLE_TIMEOUT
            &&& forall|i: int| 0 <= i < ev.len() ==> (#[trigger] ev[i])->Read16_val & CC_INT_CLK_STABLE == 0
        },
    }
}

/// A wait for a software reset: reads of the reset register, each but the
/// last non-zero; on success the last reads zero, after at most
/// `RESET_TIMEOUT` reads; else `Timeout` after `RESET_TIMEOUT` non-zero reads.
pub open spec fn reset_poll(ev: Seq<RegEvent>, r: Result<(), SdioError>) -> bool {
    &&& forall|i: int| 0 <= i < ev.len() ==>
        #[trigger] ev[i] == (RegEvent::Read8 { off: SDHCI_SOFTWARE_RESET, val: ev[i]->Read8_val })
    &&& match r {
        Ok(_) => {
            &&& 1 <= ev.len() <= RESET_TIMEOUT
            &&& forall|i: int| 0 <= i < ev.len() - 1 ==> (#[trigger] ev[i])->Read8_val != 0
            &&& ev.last()->Read8_val == 0
        },
        Err(e) => {
            &&& e == SdioError::Timeout
            &&& ev.len() == RESET_TIMEOUT
            &&& forall|i: int| 0 <= i < ev.len() ==> (#[trigger] ev[i])->Read8_val != 0
        },
    }
}

/// The register accesses of a clock change to at most `hz`: read the
/// capabilities and the clock control, write the clock control back with
/// both clock enables cleared, write the divisor for `hz` with the internal
/// clock on (`clock_select_spec`), wait for it to be stable, then read the
/// clock control once more and write it back with the SD clock enabled.
pub open spec fn clock_program(ev: Seq<RegEvent>, hz: u32, r: Result<(), SdioError>) -> bool {
    &&& ev.len() >= 4
    &&& ev[0] == (RegEvent::Read32 { off: SDHCI_CAPABILITIES, val: ev[0]->Read32_val })
    &&& ev[1] == (RegEvent::Read16 { off: SDHCI_CLOCK_CONTROL, val: ev[1]->Read16_val })
    &&& ev[2] == (RegEvent::Write16 { off: SDHCI_CLOCK_CONTROL,
        val: ev[1]->Read16_val & !(CC_SD_CLK_EN | CC_INT_CLK_EN) })
    &&& ev[3] == (RegEvent::Write16 { off: SDHCI_CLOCK_CONTROL,
        val: clock_select_spec(ev[1]->Read16_val, clock_divisor_spec(ev[0]->Read32_val, hz)) })
    &&& r is Err ==> clock_poll(ev.subrange(4, ev.len() as int), r)
    &&& r is Ok ==> {
        &&& ev.len() >= 7
        &&& clock_poll(ev.subrange(4, ev.len() - 2), r)
        &&& ev[ev.len() - 2] == (RegEvent::Read16 { off: SDHCI_CLOCK_CONTROL, val: ev[ev.len() - 2]->Read16_val })
        &&& ev[ev.len() - 1] == (RegEvent::Write16 { off: SDHCI_CLOCK_CONTROL,
            val: ev[ev.len() - 2]->Read16_val | CC_SD_CLK_EN })
    }
}

/// The SoC set-up step, taken on the SDIO1 controller only.
pub open spec fn soc_part(sdio1: bool) -> Seq<RegEvent> {
    if sdio1 { seq![RegEvent::SocInit] } else { Seq::empty() }
}

/// On the SDIO1 controller, which has no card-detect pin, the host control
/// register is read and written back with card-detect forced to "inserted"
/// (bits 6 and 7).
pub open spec fn host_ctl_part(sdio1: bool, hc: u8) -> Seq<RegEvent> {
    if sdio1 {
        seq![RegEvent::Read8 { off: SDHCI_HOST_CONTROL, val: hc }, RegEvent::Write8 { off: SDHCI_HOST_CONTROL, val: hc | 0xc0u8 }]
    } else {
        Seq::empty()
    }
}

/// The interrupt set-up for polling: status bits enabled, signals off.
pub open spec fn int_setup() -> Seq<RegEvent> {
    seq![
        RegEvent::Write16 { off: SDHCI_NORM_INT_STS_EN, val: NORM_INT_ENABLE_MASK },
        RegEvent::Write16 { off: SDHCI_ERR_INT_STS_EN, val: ERR_INT_ENABLE_MASK },
        RegEvent::Write16 { off: SDHCI_NORM_INT_SIG_EN, val: 0 },
        RegEvent::Write16 { off: SDHCI_ERR_INT_SIG_EN, val: 0 },
    ]
}

/// What the first CMD5 tells: its error, `Unsupported` when the card offers
/// no voltage in 3.2-3.4 V, else the voltage bits to ask for.
pub open spec fn ocr_query_result(q: Result<u32, SdioError>) -> Result<u32, SdioError> {
    match q {
        Err(e) => Err(e),
        Ok(v) => if v & OCR_VOLTAGE_MASK & OCR_3V2_3V4 == 0 {
            Err(SdioError::Unsupported)
        } else {
            Ok(v & OCR_VOLTAGE_MASK & OCR_3V2_3V4)
        },
    }
}

/// The register accesses of the controller's power-up and first card probe,
/// given the pieces: SoC set-up (SDIO1), a full software reset and its wait
/// `rs`; then card-detect forced (SDIO1), 3.3 V bus power, the 400 kHz
/// clock `ck`, the polling interrupt set-up, and CMD5 with argument 0 `cm`.
/// A failed wait ends the accesses with its error.
pub open spec fn power_up_shape(ev: Seq<RegEvent>, r: Result<u32, SdioError>, sdio1: bool, hc: u8,
    rs: Seq<RegEvent>, ck: Seq<RegEvent>, cm: Seq<RegEvent>) -> bool {
    let head = soc_part(sdio1) + seq![RegEvent::Write8 { off: SDHCI_SOFTWARE_RESET, val: SWRST_ALL }] + rs;
    let mid = head + host_ctl_part(sdio1, hc) + seq![RegEvent::Write8 { off: SDHCI_POWER_CONTROL, val: POWER_330V_ON }] + ck;
    ||| ev == head && r is Err && reset_poll(rs, Err(r->Err_0))
    ||| {
        &&& reset_poll(rs, Ok(()))
        &&& ev == mid
        &&& r is Err
        &&& clock_program(ck, 400_000, Err(r->Err_0))
    }
    ||| {
        &&& reset_poll(rs, Ok(()))
        &&& ev == mid + int_setup() + cm
        &&& clock_program(ck, 400_000, Ok(()))
        &&& cmd_run(5, 0, cm) is Done
        &&& r == ocr_query_result(cmd_run(5, 0, cm)->Done_result)
    }
}

/// `ev` are the register accesses of a power-up with outcome `r`.
pub open spec fn power_up_regs(ev: Seq<RegEvent>, r: Result<u32, SdioError>) -> bool {
    exists|sdio1: bool, hc: u8, rs: Seq<RegEvent>, ck: Seq<RegEvent>, cm: Seq<RegEvent>|
        #[trigger] power_up_shape(ev, r, sdio1, hc, rs, ck, cm)
}

/// The register accesses of a card enumeration begin with those of the
/// power-up; when the power-up fails they are all there is, and its error is
/// the result.
pub open spec fn init_regs(ev: Seq<RegEvent>, r: Result<(), SdioError>) -> bool {
    exists|k: int, q: Result<u32, SdioError>|
        0 <= k <= ev.len() && #[trigger] power_up_regs(ev.take(k), q)
            && (q is Err ==> k == ev.len() && r == Err::<(), SdioError>(q->Err_0))
}

/// The segments `segs` one after the other.
pub open spec fn flat(segs: Seq<Seq<RegEvent>>) -> Seq<RegEvent>
    decreases segs.len(),
{
    if segs.len() == 0 {
        Seq::empty()
    } else {
        flat(segs.drop_last()) + segs.last()
    }
}

/// `ev` is a run of CMD52s: segment `i` of it is a whole command with
/// argument `args[i]`.
pub open spec fn cmd52_chain(ev: Seq<RegEvent>, segs: Seq<Seq<RegEvent>>, args: Seq<u32>) -> bool {
    &&& segs.len() == args.len()
    &&& ev == flat(segs)
    &&& forall|i: int| 0 <= i < segs.len() ==> #[trigger] cmd_run(52, args[i], segs[i]) is Done
}

/// What CMD52 `i` of a chain gave: the byte of its R5 response, or its
/// error.
pub open spec fn chain_out(segs: Seq<Seq<RegEvent>>, args: Seq<u32>, i: int) -> Result<u8, SdioError> {
    cmd52_read_outcome(cmd_run(52, args[i], segs[i]))
}

/// The CMD52s that set function `func`'s block size to `size`: write the
/// low and the high byte of the FBR block-size field, then read both back.
pub open spec fn block_size_args(func: u8, size: u16) -> Seq<u32> {
    let base = 0x100 * func as u32;
    seq![
        cmd52_arg(0, (base + 0x10) as u32, true, false, (size % 256) as u8),
        cmd52_arg(0, (base + 0x11) as u32, true, false, (size / 256) as u8),
        cmd52_arg(0, (base + 0x10) as u32, false, false, 0),
        cmd52_arg(0, (base + 0x11) as u32, false, false, 0),
    ]
}

/// A block-size change over the CMD52 chain `segs`/`args` with result `r`:
/// the commands of `block_size_args` in order up to the first that fails,
/// whose error is the result; if none fails, `IoError` unless the bytes read
/// back make `size`.
pub open spec fn block_size_plan(func: u8, size: u16, segs: Seq<Seq<RegEvent>>, args: Seq<u32>, r: Result<(), SdioError>) -> bool {
    &&& 1 <= args.len() <= 4
    &&& args == block_size_args(func, size).take(args.len() as int)
    &&& forall|i: int| 0 <= i < args.len() - 1 ==> #[trigger] chain_out(segs, args, i) is Ok
    &&& if chain_out(segs, args, args.len() - 1) is Err {
        r == Err::<(), SdioError>(chain_out(segs, args, args.len() - 1)->Err_0)
    } else {
        &&& args.len() == 4
        &&& r == (if chain_out(segs, args, 3)->Ok_0 as int * 256 + chain_out(segs, args, 2)->Ok_0 as int == size as int {
            Ok::<(), SdioError>(())
        } else {
            Err(SdioError::IoError)
        })
    }
}

/// Enabling function `func` over the CMD52 chain `segs`/`args` with
/// result `r`: read the CCCR I/O-enable register, write it back with the
/// function's bit set, then read the I/O-ready register until the bit shows
/// (success) or 1000 reads have not shown it (`Timeout`); the first failed
/// command ends it with its error.
pub open spec fn enable_plan(func: u8, segs: Seq<Seq<RegEvent>>, args: Seq<u32>, r: Result<(), SdioError>) -> bool {
    let bit = 1u8 << func;
    let last = args.len() - 1;
    &&& 1 <= args.len() <= 1002
    &&& args[0] == cmd52_arg(0, IO_ENABLE, false, false, 0)
    &&& forall|i: int| 0 <= i < last ==> #[trigger] chain_out(segs, args, i) is Ok
    &&& args.len() >= 2 ==> args[1] == cmd52_arg(0, IO_ENABLE, true, false, chain_out(segs, args, 0)->Ok_0 | bit)
    &&& forall|i: int| 2 <= i < args.len() ==> #[trigger] args[i] == cmd52_arg(0, CCCR_IO_READY, false, false, 0)
    &&& forall|i: int| 2 <= i < last ==> #[trigger] chain_out(segs, args, i)->Ok_0 & bit == 0
    &&& if chain_out(segs, args, last) is Err {
        r == Err::<(), SdioError>(chain_out(segs, args, last)->Err_0)
    } else if args.len() >= 3 && chain_out(segs, args, last)->Ok_0 & bit != 0 {
        r == Ok::<(), SdioError>(())
    } else {
        args.len() == 1002 && r == Err::<(), SdioError>(SdioError::Timeout)
    }
}

proof fn lemma_port_concat(a: Seq<RegEvent>, b: Seq<RegEvent>)
    ensures
        port_bytes(a + b) == port_bytes(a) + port_bytes(b),
        port_words(a + b) == port_words(a) + port_words(b),
    decreases b.len(),
{
    if b.len() == 0 {
        assert(a + b =~= a);
        assert(port_bytes(a) + port_bytes(b) =~= port_bytes(a));
        assert(port_words(a) + port_words(b) =~= port_words(a));
    } else {
        lemma_port_concat(a, b.drop_last());
        assert((a + b).drop_last() =~= a + b.drop_last());
        assert((a + b).last() == b.last());
        match b.last() {
            RegEvent::Read32 { off, val } => {
                if off == SDHCI_BUFFER {
                    assert(port_bytes(a) + port_bytes(b.drop_last()) + crate::ipc::le32(val)
                        =~= port_bytes(a) + (port_bytes(b.drop_last()) + crate::ipc::le32(val)));
                }
            },
            RegEvent::Write32 { off, val } => {
                if off == SDHCI_BUFFER {
                    assert((port_words(a) + port_words(b.drop_last())).push(val)
                        =~= port_words(a) + port_words(b.drop_last()).push(val));
                }
            },
            _ => {},
        }
    }
}

proof fn lemma_off_port_empty(ev: Seq<RegEvent>)
    requires
        off_port(ev),
    ensures
        port_bytes(ev) == Seq::<u8>::empty(),
        port_words(ev) == Seq::<u32>::empty(),
    decreases ev.len(),
{
    if ev.len() > 0 {
        assert(off_port(ev.drop_last()));
        lemma_off_port_empty(ev.drop_last());
        assert(!is_data_port(ev[ev.len() - 1]));
    }
}

/// `old` with its leading bytes replaced by `data` (as far as it reaches).
pub open spec fn overlay(data: Seq<u8>, old: Seq<u8>) -> Seq<u8> {
    if data.len() >= old.len() {
        data.take(old.len() as int)
    } else {
        data + old.skip(data.len() as int)
    }
}

/// Data-port word `i` of a write of `buf`: its bytes `4i..4i+4`, zero
/// filled past the end.
pub open spec fn word_of(buf: Seq<u8>, i: int) -> u32 {
    if 4 * i >= buf.len() {
        0
    } else {
        crate::ipc::le32_at(buf + seq![0u8, 0u8, 0u8, 0u8], 4 * i)
    }
}

/// Every word written to the data port for `buf`, in order, `n` of them.
pub open spec fn port_plan(buf: Seq<u8>, n: nat) -> Seq<u32> {
    Seq::new(n, |i: int| word_of(buf, i))
}

/// The register accesses that set up a CMD53 transfer of `nblocks` blocks
/// of `blk` bytes, reading or writing.
pub open spec fn cmd53_setup(blk: u16, nblocks: u16, read: bool) -> Seq<RegEvent> {
    seq![
        RegEvent::Write16 { off: SDHCI_BLOCK_SIZE, val: blk },
        RegEvent::Write16 { off: SDHCI_BLOCK_COUNT, val: nblocks },
        RegEvent::Write16 { off: SDHCI_TRANSFER_MODE, val: transfer_mode_spec(read, nblocks) },
    ]
}

/// Blocks a CMD53 transfer of `count` (block mode) moves.
pub open spec fn xfer_blocks_of(block_mode: bool, count: nat) -> u16 {
    if block_mode { (count % 0x1_0000) as u16 } else { 1 }
}

/// The command of a CMD53 over `ev` runs from access 3 to cut `m`: a
/// failed command or R5 check ends the transfer there with that error, else
/// the data transfer (`pio_run` of `nblocks` blocks of `words` words) runs
/// from `m` to the end and gives the result.
pub open spec fn cmd53_cut(ev: Seq<RegEvent>, arg: u32, m: int, r: Result<(), SdioError>, read: bool, words: nat,
    nblocks: nat) -> bool {
    &&& 3 <= m <= ev.len()
    &&& match cmd_run(53, arg, ev.subrange(3, m)) {
        CmdPhase::Done { result: Err(x) } => r == Err::<(), SdioError>(x) && m == ev.len(),
        CmdPhase::Done { result: Ok(resp) } => if r5_result(resp) is Err {
            r == Err::<(), SdioError>(r5_result(resp)->Err_0) && m == ev.len()
        } else {
            pio_run(read, words, nblocks, ev.subrange(m, ev.len() as int)) == (PioPhase::Done { result: r })
        },
        _ => false,
    }
}

/// A CMD53 over the accesses `ev`: the set-up writes, then the command
/// `arg`, then (when both succeeded) the data transfer.
pub open spec fn cmd53_shape(ev: Seq<RegEvent>, blk: u16, nblocks: u16, read: bool, arg: u32, r: Result<(), SdioError>) -> bool {
    &&& ev.len() >= 3
    &&& ev.take(3) == cmd53_setup(blk, nblocks, read)
    &&& exists|m: int| #[trigger] cmd53_cut(ev, arg, m, r, read, ((blk as int + 3) / 4) as nat, nblocks as nat)
}

/// One access to the controller's registers, with the value read or
/// written.
pub enum RegEvent {
    Read8 { off: u32, val: u8 },
    Read16 { off: u32, val: u16 },
    Read32 { off: u32, val: u32 },
    Write8 { off: u32, val: u8 },
    Write16 { off: u32, val: u16 },
    Write32 { off: u32, val: u32 },
    /// The SoC-level set-up of the SDIO1 controller.
    SocInit,
}

// ------------------------------------------------------------------
// Controller
// ------------------------------------------------------------------

/// CVI SoC SDIO host controller.
pub struct CviSdhci<R: SdhciRegs> {
    regs: R,
    rca: u16,
    vendor_id: u16,
    device_id: u16,
    card_log: Ghost<Seq<CardEvent>>,
    reg_log: Ghost<Seq<RegEvent>>,
}

impl<R: SdhciRegs> CviSdhci<R> {
    /// The relative card address and the card's vendor and device IDs.
    pub closed spec fn ids(&self) -> (u16, u16, u16) {
        (self.rca, self.vendor_id, self.device_id)
    }

    /// The steps of the last card enumeration, oldest first.
    pub closed spec fn card_events(&self) -> Seq<CardEvent> {
        self.card_log@
    }

    /// A controller over `regs`, card not yet enumerated (all IDs zero).
    pub fn new(regs: R) -> (s: Self)
        ensures
            s.ids() == (0u16, 0u16, 0u16),
            s.card_events() == Seq::<CardEvent>::empty(),
            s.reg_events() == Seq::<RegEvent>::empty(),
    {
        CviSdhci { regs, rca: 0, vendor_id: 0, device_id: 0, card_log: Ghost(Seq::empty()), reg_log: Ghost(Seq::empty()) }
    }

    /// The register block the controller drives.
    pub closed spec fn regs_spec(&self) -> R {
        self.regs
    }

    /// The register block.
    pub fn regs(&self) -> (r: &R)
        ensures
            *r == self.regs_spec(),
    {
        &self.regs
    }

    /// Every register access so far, oldest first.
    pub closed spec fn reg_events(&self) -> Seq<RegEvent> {
        self.reg_log@
    }

    /// `self` is `o` but for the register-access log.
    pub closed spec fn same_state(&self, o: Self) -> bool {
        &&& self.regs == o.regs
        &&& self.rca == o.rca
        &&& self.vendor_id == o.vendor_id
        &&& self.device_id == o.device_id
        &&& self.card_log == o.card_log
    }

    fn rd8(&mut self, off: u32) -> (v: u8)
        ensures
            final(self).same_state(*old(self)),
            final(self).reg_events() == old(self).reg_events().push(RegEvent::Read8 { off, val: v }),
    {
        let v = self.regs.read8(off);
        self.reg_log = Ghost(self.reg_log@.push(RegEvent::Read8 { off, val: v }));
        v
    }

    fn rd16(&mut self, off: u32) -> (v: u16)
        ensures
            final(self).same_state(*old(self)),
            final(self).reg_events() == old(self).reg_events().push(RegEvent::Read16 { off, val: v }),
    {
        let v = self.regs.read16(off);
        self.reg_log = Ghost(self.reg_log@.push(RegEvent::Read16 { off, val: v }));
        v
    }

    fn rd32(&mut self, off: u32) -> (v: u32)
        ensures
            final(self).same_state(*old(self)),
            final(self).reg_events() == old(self).reg_events().push(RegEvent::Read32 { off, val: v }),
    {
        let v = self.regs.read32(off);
        self.reg_log = Ghost(self.reg_log@.push(RegEvent::Read32 { off, val: v }));
        v
    }

    fn wr8(&mut self, off: u32, val: u8)
        ensures
            final(self).same_state(*old(self)),
            final(self).reg_events() == old(self).reg_events().push(RegEvent::Write8 { off, val }),
    {
        self.regs.write8(off, val);
        self.reg_log = Ghost(self.reg_log@.push(RegEvent::Write8 { off, val }));
    }

    fn wr16(&mut self, off: u32, val: u16)
        ensures
            final(self).same_state(*old(self)),
            final(self).reg_events() == old(self).reg_events().push(RegEvent::Write16 { off, val }),
    {
        self.regs.write16(off, val);
        self.reg_log = Ghost(self.reg_log@.push(RegEvent::Write16 { off, val }));
    }

    fn wr32(&mut self, off: u32, val: u32)
        ensures
            final(self).same_state(*old(self)),
            final(self).reg_events() == old(self).reg_events().push(RegEvent::Write32 { off, val }),
    {
        self.regs.write32(off, val);
        self.reg_log = Ghost(self.reg_log@.push(RegEvent::Write32 { off, val }));
    }

    fn soc(&mut self)
        ensures
            final(self).same_state(*old(self)),
            final(self).reg_events() == old(self).reg_events().push(RegEvent::SocInit),
    {
        self.regs.soc_init();
        self.reg_log = Ghost(self.reg_log@.push(RegEvent::SocInit));
    }

    /// Maps an error interrupt status to the error it reports.
    pub fn decode_err_status(err: u16) -> (e: SdioError)
        ensures
            e == err_status_error(err),
    {
        if err & (ERR_INT_CMD_CRC | ERR_INT_DAT_CRC) != 0 {
            SdioError::CrcError
        } else if err & (ERR_INT_CMD_TIMEOUT | ERR_INT_DAT_TIMEOUT) != 0 {
            SdioError::Timeout
        } else {
            SdioError::IoError
        }
    }

    /// Issues SD command `cmd_idx` with `arg` and returns the response;
    /// commands other than 0, 3, 5, 7, 52 and 53 are `Unsupported`.
    fn send_cmd(&mut self, cmd_idx: u8, arg: u32) -> (r: Result<u32, SdioError>)
        ensures
            final(self).same_state(*old(self)),
            prefix_of(old(self).reg_events(), final(self).reg_events()),
            cmd_run(cmd_idx, arg, since(old(self).reg_events(), final(self).reg_events())) == (CmdPhase::Done { result: r }),
            off_port(since(old(self).reg_events(), final(self).reg_events())),
            cmd_reg_spec(cmd_idx) is Some ==> r != Err::<u32, SdioError>(SdioError::Unsupported),
    {
        let ghost start = self.reg_events();
        proof { lemma_since_empty(start); }
        let mut i: u32 = 0;
        loop
            invariant_except_break
                i < CMD_RESPONSE_TIMEOUT,
                cmd_run(cmd_idx, arg, since(start, self.reg_events())) == (CmdPhase::Idle { polls: i as nat }),
            invariant
                self.same_state(*old(self)),
                start == old(self).reg_events(),
                prefix_of(start, self.reg_events()),
                off_port(since(start, self.reg_events())),
            ensures
                cmd_run(cmd_idx, arg, since(start, self.reg_events())) == CmdPhase::Arg,
            decreases CMD_RESPONSE_TIMEOUT - i,
        {
            let ghost b = self.reg_events();
            let v = self.rd32(SDHCI_PRESENT_STATE);
            proof {
                lemma_since_push(start, b, RegEvent::Read32 { off: SDHCI_PRESENT_STATE, val: v });
                assert(cmd_run(cmd_idx, arg, since(start, self.reg_events())) == cmd_step(cmd_idx, arg, cmd_run(cmd_idx, arg, since(start, b)), RegEvent::Read32 { off: SDHCI_PRESENT_STATE, val: v }));
            }
            if v & SDHCI_CMD_INHIBIT == 0 {
                break;
            }
            if i + 1 >= CMD_RESPONSE_TIMEOUT {
                return Err(SdioError::Timeout);
            }
            i = i + 1;
        }
        let ghost b = self.reg_events();
        self.wr32(SDHCI_ARGUMENT, arg);
        proof {
            lemma_since_push(start, b, RegEvent::Write32 { off: SDHCI_ARGUMENT, val: arg });
            assert(cmd_run(cmd_idx, arg, since(start, self.reg_events())) == cmd_step(cmd_idx, arg, cmd_run(cmd_idx, arg, since(start, b)), RegEvent::Write32 { off: SDHCI_ARGUMENT, val: arg }));
        }
        let cmd_reg = match cmd_reg_of(cmd_idx) {
            Some(c) => c,
            None => return Err(SdioError::Unsupported),
        };
        let ghost b = self.reg_events();
        self.wr16(SDHCI_COMMAND, cmd_reg);
        proof {
            lemma_since_push(start, b, RegEvent::Write16 { off: SDHCI_COMMAND, val: cmd_reg });
            assert(cmd_run(cmd_idx, arg, since(start, self.reg_events())) == cmd_step(cmd_idx, arg, cmd_run(cmd_idx, arg, since(start, b)), RegEvent::Write16 { off: SDHCI_COMMAND, val: cmd_reg }));
        }
        let mut j: u32 = 0;
        loop
            invariant
                j < CMD_RESPONSE_TIMEOUT,
                cmd_reg_spec(cmd_idx) is Some,
                cmd_run(cmd_idx, arg, since(start, self.reg_events())) == (CmdPhase::Wait { polls: j as nat }),
                self.same_state(*old(self)),
                start == old(self).reg_events(),
                prefix_of(start, self.reg_events()),
                off_port(since(start, self.reg_events())),
            decreases CMD_RESPONSE_TIMEOUT - j,
        {
            let ghost b = self.reg_events();
            let norm_status = self.rd16(SDHCI_INT_STATUS_NORM);
            proof {
                lemma_since_push(start, b, RegEvent::Read16 { off: SDHCI_INT_STATUS_NORM, val: norm_status });
                assert(cmd_run(cmd_idx, arg, since(start, self.reg_events())) == cmd_step(cmd_idx, arg, cmd_run(cmd_idx, arg, since(start, b)), RegEvent::Read16 { off: SDHCI_INT_STATUS_NORM, val: norm_status }));
            }
            if norm_status & NORM_INT_ERROR != 0 {
                let ghost b = self.reg_events();
                let err_status = self.rd16(SDHCI_INT_STATUS_ERR);
                proof {
                    lemma_since_push(start, b, RegEvent::Read16 { off: SDHCI_INT_STATUS_ERR, val: err_status });
                    assert(cmd_run(cmd_idx, arg, since(start, self.reg_events())) == cmd_step(cmd_idx, arg, cmd_run(cmd_idx, arg, since(start, b)), RegEvent::Read16 { off: SDHCI_INT_STATUS_ERR, val: err_status }));
                }
                let ghost b = self.reg_events();
                self.wr16(SDHCI_INT_STATUS_ERR, err_status);
                proof {
                    lemma_since_push(start, b, RegEvent::Write16 { off: SDHCI_INT_STATUS_ERR, val: err_status });
                    assert(cmd_run(cmd_idx, arg, since(start, self.reg_events())) == cmd_step(cmd_idx, arg, cmd_run(cmd_idx, arg, since(start, b)), RegEvent::Write16 { off: SDHCI_INT_STATUS_ERR, val: err_status }));
                }
                let ghost b = self.reg_events();
                self.wr16(SDHCI_INT_STATUS_NORM, norm_status);
                proof {
                    lemma_since_push(start, b, RegEvent::Write16 { off: SDHCI_INT_STATUS_NORM, val: norm_status });
                    assert(cmd_run(cmd_idx, arg, since(start, self.reg_events())) == cmd_step(cmd_idx, arg, cmd_run(cmd_idx, arg, since(start, b)), RegEvent::Write16 { off: SDHCI_INT_STATUS_NORM, val: norm_status }));
                }
                return Err(Self::decode_err_status(err_status));
            }
            if norm_status & NORM_INT_CMD_COMPLETE != 0 {
                let ghost b = self.reg_events();
                self.wr16(SDHCI_INT_STATUS_NORM, NORM_INT_CMD_COMPLETE);
                proof {
                    lemma_since_push(start, b, RegEvent::Write16 { off: SDHCI_INT_STATUS_NORM, val: NORM_INT_CMD_COMPLETE });
                    assert(cmd_run(cmd_idx, arg, since(start, self.reg_events())) == cmd_step(cmd_idx, arg, cmd_run(cmd_idx, arg, since(start, b)), RegEvent::Write16 { off: SDHCI_INT_STATUS_NORM, val: NORM_INT_CMD_COMPLETE }));
                }
                let ghost b = self.reg_events();
                let resp = self.rd32(SDHCI_RESPONSE);
                proof {
                    lemma_since_push(start, b, RegEvent::Read32 { off: SDHCI_RESPONSE, val: resp });
                    assert(cmd_run(cmd_idx, arg, since(start, self.reg_events())) == cmd_step(cmd_idx, arg, cmd_run(cmd_idx, arg, since(start, b)), RegEvent::Read32 { off: SDHCI_RESPONSE, val: resp }));
                }
                return Ok(resp);
            }
            if j + 1 >= CMD_RESPONSE_TIMEOUT {
                return Err(SdioError::Timeout);
            }
            j = j + 1;
        }
    }

    /// Checks the flags of an R5 response and returns its data byte.
    pub fn check_r5_response(&self, resp: u32) -> (r: Result<u8, SdioError>)
        ensures
            r == r5_result(resp),
    {
        if resp & R5_COM_CRC_ERROR != 0 {
            return Err(SdioError::CrcError);
        }
        if resp & (R5_ILLEGAL_COMMAND | R5_FUNCTION_NUMBER | R5_OUT_OF_RANGE) != 0 {
            return Err(SdioError::IoError);
        }
        if resp & R5_ERROR != 0 {
            return Err(SdioError::IoError);
        }
        Ok((resp & 0xFF) as u8)
    }

    /// CMD52 read of register `addr` of function `func`: the command with
    /// `cmd52_arg`, then the R5 check of its response.
    fn cmd52_read(&mut self, func: u8, addr: u32) -> (r: Result<u8, SdioError>)
        ensures
            final(self).same_state(*old(self)),
            prefix_of(old(self).reg_events(), final(self).reg_events()),
            off_port(since(old(self).reg_events(), final(self).reg_events())),
            r == Err::<u8, SdioError>(SdioError::Unsupported) <==> addr > SDIO_ADDR_MASK,
            addr > SDIO_ADDR_MASK ==> final(self).reg_events() == old(self).reg_events(),
            addr <= SDIO_ADDR_MASK ==> r == cmd52_read_outcome(cmd_run(52, cmd52_arg(func, addr, false, false, 0),
                since(old(self).reg_events(), final(self).reg_events()))),
            addr <= SDIO_ADDR_MASK ==> cmd_run(52, cmd52_arg(func, addr, false, false, 0), since(old(self).reg_events(), final(self).reg_events())) is Done,
    {
        if addr > SDIO_ADDR_MASK {
            proof { lemma_since_empty(self.reg_events()); }
            return Err(SdioError::Unsupported);
        }
        let arg = make_cmd52_arg(func, addr, false, false, 0);
        let resp = match self.send_cmd(52, arg) {
            Ok(v) => v,
            Err(e) => return Err(e),
        };
        self.check_r5_response(resp)
    }

    /// CMD52 write of `val` to register `addr` of function `func`: the
    /// command with `cmd52_arg`, then the R5 check of its response.
    fn cmd52_write(&mut self, func: u8, addr: u32, val: u8) -> (r: Result<(), SdioError>)
        ensures
            final(self).same_state(*old(self)),
            prefix_of(old(self).reg_events(), final(self).reg_events()),
            off_port(since(old(self).reg_events(), final(self).reg_events())),
            r == Err::<(), SdioError>(SdioError::Unsupported) <==> addr > SDIO_ADDR_MASK,
            addr > SDIO_ADDR_MASK ==> final(self).reg_events() == old(self).reg_events(),
            addr <= SDIO_ADDR_MASK ==> r == cmd52_write_outcome(cmd_run(52, cmd52_arg(func, addr, true, false, val),
                since(old(self).reg_events(), final(self).reg_events()))),
            addr <= SDIO_ADDR_MASK ==> cmd_run(52, cmd52_arg(func, addr, true, false, val), since(old(self).reg_events(), final(self).reg_events())) is Done,
    {
        if addr > SDIO_ADDR_MASK {
            proof { lemma_since_empty(self.reg_events()); }
            return Err(SdioError::Unsupported);
        }
        let arg = make_cmd52_arg(func, addr, true, false, val);
        let resp = match self.send_cmd(52, arg) {
            Ok(v) => v,
            Err(e) => return Err(e),
        };
        match self.check_r5_response(resp) {
            Ok(_) => Ok(()),
            Err(e) => Err(e),
        }
    }

    /// CMD52 write of `val` with read-after-write: returns the register's
    /// new value.
    fn cmd52_write_read(&mut self, func: u8, addr: u32, val: u8) -> (r: Result<u8, SdioError>)
        ensures
            final(self).same_state(*old(self)),
            prefix_of(old(self).reg_events(), final(self).reg_events()),
            r == Err::<u8, SdioError>(SdioError::Unsupported) <==> addr > SDIO_ADDR_MASK,
            addr <= SDIO_ADDR_MASK ==> r == cmd52_read_outcome(cmd_run(52, cmd52_arg(func, addr, true, true, val),
                since(old(self).reg_events(), final(self).reg_events()))),
            addr <= SDIO_ADDR_MASK ==> cmd_run(52, cmd52_arg(func, addr, true, true, val), since(old(self).reg_events(), final(self).reg_events())) is Done,
    {
        if addr > SDIO_ADDR_MASK {
            proof { lemma_since_empty(self.reg_events()); }
            return Err(SdioError::Unsupported);
        }
        let arg = make_cmd52_arg(func, addr, true, true, val);
        let resp = match self.send_cmd(52, arg) {
            Ok(v) => v,
            Err(e) => return Err(e),
        };
        self.check_r5_response(resp)
    }

    /// CMD53 read into `buf` (incrementing or fixed address): the set-up
    /// writes, the command with `cmd53_arg`, its R5 check, then per block a
    /// wait for buffer-read-ready and the block's words from the data port,
    /// then a wait for transfer-complete.  `buf` receives the bytes read from
    /// the data port, as far as they reach, whatever the outcome.
    fn cmd53_read_impl(&mut self, func: u8, addr: u32, buf: &mut [u8], block_size: u16, use_block_mode: bool, inc: bool) -> (r: Result<(), SdioError>)
        ensures
            final(self).same_state(*old(self)),
            final(buf)@.len() == old(buf)@.len(),
            prefix_of(old(self).reg_events(), final(self).reg_events()),
            r == Err::<(), SdioError>(SdioError::Unsupported) <==> (addr > SDIO_ADDR_MASK || old(buf)@.len() == 0
                || cmd53_layout_spec(old(buf)@.len(), block_size, use_block_mode) is Err),
            r == Err::<(), SdioError>(SdioError::Unsupported) ==> final(self).reg_events() == old(self).reg_events(),
            final(buf)@ == overlay(port_bytes(since(old(self).reg_events(), final(self).reg_events())), old(buf)@),
            r != Err::<(), SdioError>(SdioError::Unsupported) ==> ({
                let (bm, count, blk) = cmd53_layout_spec(old(buf)@.len(), block_size, use_block_mode)->Ok_0;
                cmd53_shape(since(old(self).reg_events(), final(self).reg_events()), blk, xfer_blocks_of(bm, count), true,
                    cmd53_arg(false, func, bm, inc, addr, (count % 512) as u32), r)
            }),
    {
        proof { lemma_since_empty(self.reg_events()); }
        if addr > SDIO_ADDR_MASK || buf.len() == 0 {
            assert(overlay(Seq::<u8>::empty(), buf@) =~= buf@);
            return Err(SdioError::Unsupported);
        }
        let (block_mode, count, blk_sz) = match cmd53_layout(buf.len(), block_size, use_block_mode) {
            Ok(l) => l,
            Err(e) => {
                assert(overlay(Seq::<u8>::empty(), buf@) =~= buf@);
                return Err(e);
            },
        };
        let ghost start = self.reg_events();
        let ghost old_buf = buf@;
        let arg = make_cmd53_arg(false, func, block_mode, inc, addr, (count % 512) as u32);
        self.wr16(SDHCI_BLOCK_SIZE, blk_sz);
        let xfer_blocks: u16 = if block_mode { (count % 0x1_0000) as u16 } else { 1 };
        self.wr16(SDHCI_BLOCK_COUNT, xfer_blocks);
        let tm = transfer_mode(true, xfer_blocks);
        self.wr16(SDHCI_TRANSFER_MODE, tm);
        let ghost s3 = self.reg_events();
        proof {
            assert(since(start, s3) =~= cmd53_setup(blk_sz, xfer_blocks, true));
            assert(s3.subrange(0, start.len() as int) =~= start);
            lemma_off_port_empty(since(start, s3));
        }
        let rc = self.send_cmd(53, arg);
        let ghost m = self.reg_events();
        proof {
            lemma_since_concat(start, s3, m);
            lemma_off_port_empty(since(s3, m));
            lemma_port_concat(since(start, s3), since(s3, m));
            assert(since(start, m).subrange(3, since(start, m).len() as int) =~= since(s3, m));
            assert(since(start, m).take(3) =~= since(start, s3));
            assert(overlay(Seq::<u8>::empty(), buf@) =~= buf@);
        }
        let resp = match rc {
            Ok(v) => v,
            Err(e) => {
                assert(cmd53_cut(since(start, m), arg, since(start, m).len() as int, Err(e), true, ((blk_sz as int + 3) / 4) as nat, xfer_blocks as nat));
                return Err(e);
            },
        };
        match self.check_r5_response(resp) {
            Ok(_) => {},
            Err(e) => {
                assert(cmd53_cut(since(start, m), arg, since(start, m).len() as int, Err(e), true, ((blk_sz as int + 3) / 4) as nat, xfer_blocks as nat));
                return Err(e);
            },
        }
        let rp = self.pio_read(buf, blk_sz, xfer_blocks);
        let ghost p = self.reg_events();
        proof {
            lemma_since_concat(start, m, p);
            lemma_port_concat(since(start, m), since(m, p));
            assert(since(start, m) + since(m, p) =~= since(start, p));
        }
        match rp {
            Ok(()) => {},
            Err(e) => {
                proof {
                    assert(since(start, p).subrange(3, since(start, m).len() as int) =~= since(s3, m));
                    assert(since(start, p).take(3) =~= since(start, s3));
                    assert(since(start, p).subrange(since(start, m).len() as int, since(start, p).len() as int) =~= since(m, p));
                    assert(cmd53_cut(since(start, p), arg, since(start, m).len() as int, Err(e), true, ((blk_sz as int + 3) / 4) as nat, xfer_blocks as nat));
                }
                return Err(e);
            },
        }
        let rt = self.wait_transfer_complete();
        proof {
            let f = self.reg_events();
            lemma_since_concat(start, p, f);
            lemma_off_port_empty(since(p, f));
            lemma_port_concat(since(start, p), since(p, f));
            assert(since(start, f).subrange(3, since(start, m).len() as int) =~= since(s3, m));
            assert(since(start, f).take(3) =~= since(start, s3));
            if rp is Ok {
                lemma_since_concat(m, p, f);
                lemma_pio_wait_done(true, ((blk_sz as int + 3) / 4) as nat, xfer_blocks as nat, true, 0, since(m, p), since(p, f), rt);
                assert(since(start, f).subrange(since(start, m).len() as int, since(start, f).len() as int) =~= since(m, f));
            }
            assert(cmd53_cut(since(start, f), arg, since(start, m).len() as int, rt, true, ((blk_sz as int + 3) / 4) as nat, xfer_blocks as nat));
        }
        rt
    }

    /// CMD53 read with incrementing address.
    fn cmd53_read(&mut self, func: u8, addr: u32, buf: &mut [u8], block_size: u16, use_block_mode: bool) -> (r: Result<(), SdioError>)
        ensures
            final(self).same_state(*old(self)),
            final(buf)@.len() == old(buf)@.len(),
            prefix_of(old(self).reg_events(), final(self).reg_events()),
            r == Err::<(), SdioError>(SdioError::Unsupported) <==> (addr > SDIO_ADDR_MASK || old(buf)@.len() == 0
                || cmd53_layout_spec(old(buf)@.len(), block_size, use_block_mode) is Err),
            r == Err::<(), SdioError>(SdioError::Unsupported) ==> final(self).reg_events() == old(self).reg_events(),
            final(buf)@ == overlay(port_bytes(since(old(self).reg_events(), final(self).reg_events())), old(buf)@),
            r != Err::<(), SdioError>(SdioError::Unsupported) ==> ({
                let (bm, count, blk) = cmd53_layout_spec(old(buf)@.len(), block_size, use_block_mode)->Ok_0;
                cmd53_shape(since(old(self).reg_events(), final(self).reg_events()), blk, xfer_blocks_of(bm, count), true,
                    cmd53_arg(false, func, bm, true, addr, (count % 512) as u32), r)
            }),
    {
        self.cmd53_read_impl(func, addr, buf, block_size, use_block_mode, true)
    }

    /// CMD53 read from a fixed address (a FIFO).
    fn cmd53_read_fixed(&mut self, func: u8, addr: u32, buf: &mut [u8], block_size: u16, use_block_mode: bool) -> (r: Result<(), SdioError>)
        ensures
            final(self).same_state(*old(self)),
            final(buf)@.len() == old(buf)@.len(),
            prefix_of(old(self).reg_events(), final(self).reg_events()),
            r == Err::<(), SdioError>(SdioError::Unsupported) <==> (addr > SDIO_ADDR_MASK || old(buf)@.len() == 0
                || cmd53_layout_spec(old(buf)@.len(), block_size, use_block_mode) is Err),
            r == Err::<(), SdioError>(SdioError::Unsupported) ==> final(self).reg_events() == old(self).reg_events(),
            final(buf)@ == overlay(port_bytes(since(old(self).reg_events(), final(self).reg_events())), old(buf)@),
            r != Err::<(), SdioError>(SdioError::Unsupported) ==> ({
                let (bm, count, blk) = cmd53_layout_spec(old(buf)@.len(), block_size, use_block_mode)->Ok_0;
                cmd53_shape(since(old(self).reg_events(), final(self).reg_events()), blk, xfer_blocks_of(bm, count), true,
                    cmd53_arg(false, func, bm, false, addr, (count % 512) as u32), r)
            }),
    {
        self.cmd53_read_impl(func, addr, buf, block_size, use_block_mode, false)
    }

    /// CMD53 write of `buf` (incrementing or fixed address): the set-up
    /// writes, the command with `cmd53_arg`, its R5 check, then per block a
    /// wait for buffer-write-ready and the block's words, then a wait for
    /// transfer-complete.  The words written to the data port are the first
    /// words of `port_plan`, all of them on success.
    fn cmd53_write_impl(&mut self, func: u8, addr: u32, buf: &[u8], block_size: u16, use_block_mode: bool, inc: bool) -> (r: Result<(), SdioError>)
        ensures
            final(self).same_state(*old(self)),
            prefix_of(old(self).reg_events(), final(self).reg_events()),
            r == Err::<(), SdioError>(SdioError::Unsupported) <==> (addr > SDIO_ADDR_MASK || buf@.len() == 0
                || cmd53_layout_spec(buf@.len(), block_size, use_block_mode) is Err),
            r == Err::<(), SdioError>(SdioError::Unsupported) ==> final(self).reg_events() == old(self).reg_events(),
            r != Err::<(), SdioError>(SdioError::Unsupported) ==> ({
                let (bm, count, blk) = cmd53_layout_spec(buf@.len(), block_size, use_block_mode)->Ok_0;
                let total = xfer_blocks_of(bm, count) * ((blk as int + 3) / 4);
                &&& cmd53_shape(since(old(self).reg_events(), final(self).reg_events()), blk, xfer_blocks_of(bm, count), false,
                    cmd53_arg(true, func, bm, inc, addr, (count % 512) as u32), r)
                &&& port_words(since(old(self).reg_events(), final(self).reg_events()))
                    == port_plan(buf@, port_words(since(old(self).reg_events(), final(self).reg_events())).len())
                &&& port_words(since(old(self).reg_events(), final(self).reg_events())).len() <= total
                &&& r is Ok ==> port_words(since(old(self).reg_events(), final(self).reg_events())).len() == total
            }),
    {
        proof { lemma_since_empty(self.reg_events()); }
        if addr > SDIO_ADDR_MASK || buf.len() == 0 {
            return Err(SdioError::Unsupported);
        }
        let (block_mode, count, blk_sz) = match cmd53_layout(buf.len(), block_size, use_block_mode) {
            Ok(l) => l,
            Err(e) => return Err(e),
        };
        let ghost start = self.reg_events();
        let arg = make_cmd53_arg(true, func, block_mode, inc, addr, (count % 512) as u32);
        self.wr16(SDHCI_BLOCK_SIZE, blk_sz);
        let xfer_blocks: u16 = if block_mode { (count % 0x1_0000) as u16 } else { 1 };
        self.wr16(SDHCI_BLOCK_COUNT, xfer_blocks);
        let tm = transfer_mode(false, xfer_blocks);
        self.wr16(SDHCI_TRANSFER_MODE, tm);
        let ghost s3 = self.reg_events();
        proof {
            assert(since(start, s3) =~= cmd53_setup(blk_sz, xfer_blocks, false));
            assert(s3.subrange(0, start.len() as int) =~= start);
            lemma_off_port_empty(since(start, s3));
        }
        let rc = self.send_cmd(53, arg);
        let ghost m = self.reg_events();
        proof {
            lemma_since_concat(start, s3, m);
            lemma_off_port_empty(since(s3, m));
            lemma_port_concat(since(start, s3), since(s3, m));
            assert(since(start, m).subrange(3, since(start, m).len() as int) =~= since(s3, m));
            assert(since(start, m).take(3) =~= since(start, s3));
            assert(port_plan(buf@, 0) =~= Seq::<u32>::empty());
        }
        let resp = match rc {
            Ok(v) => v,
            Err(e) => {
                assert(cmd53_cut(since(start, m), arg, since(start, m).len() as int, Err(e), false, ((blk_sz as int + 3) / 4) as nat, xfer_blocks as nat));
                return Err(e);
            },
        };
        match self.check_r5_response(resp) {
            Ok(_) => {},
            Err(e) => {
                assert(cmd53_cut(since(start, m), arg, since(start, m).len() as int, Err(e), false, ((blk_sz as int + 3) / 4) as nat, xfer_blocks as nat));
                return Err(e);
            },
        }
        let rp = self.pio_write(buf, blk_sz, xfer_blocks);
        let ghost p = self.reg_events();
        proof {
            lemma_since_concat(start, m, p);
            lemma_port_concat(since(start, m), since(m, p));
            assert(since(start, m) + since(m, p) =~= since(start, p));
        }
        match rp {
            Ok(()) => {},
            Err(e) => {
                proof {
                    assert(since(start, p).subrange(3, since(start, m).len() as int) =~= since(s3, m));
                    assert(since(start, p).take(3) =~= since(start, s3));
                    assert(since(start, p).subrange(since(start, m).len() as int, since(start, p).len() as int) =~= since(m, p));
                    assert(cmd53_cut(since(start, p), arg, since(start, m).len() as int, Err(e), false, ((blk_sz as int + 3) / 4) as nat, xfer_blocks as nat));
                }
                return Err(e);
            },
        }
        let rt = self.wait_transfer_complete();
        proof {
            let f = self.reg_events();
            lemma_since_concat(start, p, f);
            lemma_off_port_empty(since(p, f));
            lemma_port_concat(since(start, p), since(p, f));
            assert(since(start, f).subrange(3, since(start, m).len() as int) =~= since(s3, m));
            assert(since(start, f).take(3) =~= since(start, s3));
            if rp is Ok {
                lemma_since_concat(m, p, f);
                lemma_pio_wait_done(false, ((blk_sz as int + 3) / 4) as nat, xfer_blocks as nat, true, 0, since(m, p), since(p, f), rt);
                assert(since(start, f).subrange(since(start, m).len() as int, since(start, f).len() as int) =~= since(m, f));
            }
            assert(cmd53_cut(since(start, f), arg, since(start, m).len() as int, rt, false, ((blk_sz as int + 3) / 4) as nat, xfer_blocks as nat));
        }
        rt
    }

    /// CMD53 write with incrementing address.
    fn cmd53_write(&mut self, func: u8, addr: u32, buf: &[u8], block_size: u16, use_block_mode: bool) -> (r: Result<(), SdioError>)
        ensures
            final(self).same_state(*old(self)),
            prefix_of(old(self).reg_events(), final(self).reg_events()),
            r == Err::<(), SdioError>(SdioError::Unsupported) <==> (addr > SDIO_ADDR_MASK || buf@.len() == 0
                || cmd53_layout_spec(buf@.len(), block_size, use_block_mode) is Err),
            r == Err::<(), SdioError>(SdioError::Unsupported) ==> final(self).reg_events() == old(self).reg_events(),
            r != Err::<(), SdioError>(SdioError::Unsupported) ==> ({
                let (bm, count, blk) = cmd53_layout_spec(buf@.len(), block_size, use_block_mode)->Ok_0;
                let total = xfer_blocks_of(bm, count) * ((blk as int + 3) / 4);
                &&& cmd53_shape(since(old(self).reg_events(), final(self).reg_events()), blk, xfer_blocks_of(bm, count), false,
                    cmd53_arg(true, func, bm, true, addr, (count % 512) as u32), r)
                &&& port_words(since(old(self).reg_events(), final(self).reg_events()))
                    == port_plan(buf@, port_words(since(old(self).reg_events(), final(self).reg_events())).len())
                &&& port_words(since(old(self).reg_events(), final(self).reg_events())).len() <= total
                &&& r is Ok ==> port_words(since(old(self).reg_events(), final(self).reg_events())).len() == total
            }),
    {
        self.cmd53_write_impl(func, addr, buf, block_size, use_block_mode, true)
    }

    /// CMD53 write to a fixed address (a FIFO).
    fn cmd53_write_fixed(&mut self, func: u8, addr: u32, buf: &[u8], block_size: u16, use_block_mode: bool) -> (r: Result<(), SdioError>)
        ensures
            final(self).same_state(*old(self)),
            prefix_of(old(self).reg_events(), final(self).reg_events()),
            r == Err::<(), SdioError>(SdioError::Unsupported) <==> (addr > SDIO_ADDR_MASK || buf@.len() == 0
                || cmd53_layout_spec(buf@.len(), block_size, use_block_mode) is Err),
            r == Err::<(), SdioError>(SdioError::Unsupported) ==> final(self).reg_events() == old(self).reg_events(),
            r != Err::<(), SdioError>(SdioError::Unsupported) ==> ({
                let (bm, count, blk) = cmd53_layout_spec(buf@.len(), block_size, use_block_mode)->Ok_0;
                let total = xfer_blocks_of(bm, count) * ((blk as int + 3) / 4);
                &&& cmd53_shape(since(old(self).reg_events(), final(self).reg_events()), blk, xfer_blocks_of(bm, count), false,
                    cmd53_arg(true, func, bm, false, addr, (count % 512) as u32), r)
                &&& port_words(since(old(self).reg_events(), final(self).reg_events()))
                    == port_plan(buf@, port_words(since(old(self).reg_events(), final(self).reg_events())).len())
                &&& port_words(since(old(self).reg_events(), final(self).reg_events())).len() <= total
                &&& r is Ok ==> port_words(since(old(self).reg_events(), final(self).reg_events())).len() == total
            }),
    {
        self.cmd53_write_impl(func, addr, buf, block_size, use_block_mode, false)
    }

    /// PIO read: per block, waits for buffer-read-ready, then reads the
    /// block's words from the data port into `buf` (little-endian; bytes
    /// past the end of `buf` are dropped).
    fn pio_read(&mut self, buf: &mut [u8], block_size: u16, nblocks: u16) -> (r: Result<(), SdioError>)
        ensures
            final(self).same_state(*old(self)),
            final(buf)@.len() == old(buf)@.len(),
            prefix_of(old(self).reg_events(), final(self).reg_events()),
            final(buf)@ == overlay(port_bytes(since(old(self).reg_events(), final(self).reg_events())), old(buf)@),
            r != Err::<(), SdioError>(SdioError::Unsupported),
            pio_run(true, ((block_size as int + 3) / 4) as nat, nblocks as nat, since(old(self).reg_events(), final(self).reg_events()))
                == (if r is Ok { pio_at(nblocks as nat, nblocks as nat) } else { PioPhase::Done { result: r } }),
    {
        let ghost start = self.reg_events();
        let ghost old_buf = buf@;
        proof {
            lemma_since_empty(start);
            assert(overlay(Seq::<u8>::empty(), old_buf) =~= old_buf);
        }
        let mut offset: usize = 0;
        let words = (block_size as usize + 3) / 4;
        let mut blk: u16 = 0;
        while blk < nblocks
            invariant
                self.same_state(*old(self)),
                blk <= nblocks,
                buf@.len() == old_buf.len(),
                old_buf == old(buf)@,
                start == old(self).reg_events(),
                prefix_of(start, self.reg_events()),
                buf@ == overlay(port_bytes(since(start, self.reg_events())), old_buf),
                offset == (if port_bytes(since(start, self.reg_events())).len() < old_buf.len() {
                    port_bytes(since(start, self.reg_events())).len()
                } else {
                    old_buf.len()
                }),
                words == (block_size as usize + 3) / 4,
                pio_run(true, words as nat, nblocks as nat, since(start, self.reg_events())) == pio_at(blk as nat, nblocks as nat),
            decreases nblocks - blk,
        {
            let ghost b = self.reg_events();
            let rw = self.wait_buffer_read_ready();
            proof {
                lemma_since_concat(start, b, self.reg_events());
                lemma_pio_wait_done(true, words as nat, nblocks as nat, false, blk as nat, since(start, b),
                    since(b, self.reg_events()), rw);
                lemma_off_port_empty(since(b, self.reg_events()));
                lemma_port_concat(since(start, b), since(b, self.reg_events()));
                assert(port_bytes(since(start, b)) + Seq::<u8>::empty() =~= port_bytes(since(start, b)));
            }
            match rw {
                Ok(()) => {},
                Err(e) => return Err(e),
            }
            let mut w: usize = 0;
            while w < words
                invariant
                    self.same_state(*old(self)),
                    w <= words,
                    buf@.len() == old_buf.len(),
                    start == old(self).reg_events(),
                    prefix_of(start, self.reg_events()),
                    buf@ == overlay(port_bytes(since(start, self.reg_events())), old_buf),
                    offset == (if port_bytes(since(start, self.reg_events())).len() < old_buf.len() {
                        port_bytes(since(start, self.reg_events())).len()
                    } else {
                        old_buf.len()
                    }),
                    blk < nblocks,
                    words == (block_size as usize + 3) / 4,
                    pio_run(true, words as nat, nblocks as nat, since(start, self.reg_events()))
                        == (if w >= words { pio_at(blk as nat + 1, nblocks as nat) } else { PioPhase::Data { blk: blk as nat, w: w as nat } }),
                decreases words - w,
            {
                let ghost b = self.reg_events();
                let ghost pb = port_bytes(since(start, b));
                let data = self.rd32(SDHCI_BUFFER);
                proof {
                    lemma_since_push(start, b, RegEvent::Read32 { off: SDHCI_BUFFER, val: data });
                    lemma_pio_push(true, words as nat, nblocks as nat, since(start, b), RegEvent::Read32 { off: SDHCI_BUFFER, val: data });
                    assert(port_bytes(since(start, self.reg_events())) == pb + crate::ipc::le32(data));
                }
                let bytes = crate::ipc::u32_to_le(data);
                let remaining = buf.len() - offset;
                let copy_len = if remaining < 4 { remaining } else { 4 };
                crate::crypto::copy_into(buf, offset, &bytes, 0, copy_len);
                offset = offset + copy_len;
                proof {
                    let nb = pb + crate::ipc::le32(data);
                    assert(buf@ =~= overlay(nb, old_buf));
                }
                w = w + 1;
            }
            blk = blk + 1;
        }
        Ok(())
    }

    /// PIO write: per block, waits for buffer-write-ready, then writes the
    /// block's words from `buf` (little-endian, zero filled past its end).
    fn pio_write(&mut self, buf: &[u8], block_size: u16, nblocks: u16) -> (r: Result<(), SdioError>)
        ensures
            final(self).same_state(*old(self)),
            prefix_of(old(self).reg_events(), final(self).reg_events()),
            port_words(since(old(self).reg_events(), final(self).reg_events()))
                == port_plan(buf@, port_words(since(old(self).reg_events(), final(self).reg_events())).len()),
            port_words(since(old(self).reg_events(), final(self).reg_events())).len() <= nblocks * ((block_size as int + 3) / 4),
            r is Ok ==> port_words(since(old(self).reg_events(), final(self).reg_events())).len()
                == nblocks * ((block_size as int + 3) / 4),
            r != Err::<(), SdioError>(SdioError::Unsupported),
            pio_run(false, ((block_size as int + 3) / 4) as nat, nblocks as nat, since(old(self).reg_events(), final(self).reg_events()))
                == (if r is Ok { pio_at(nblocks as nat, nblocks as nat) } else { PioPhase::Done { result: r } }),
    {
        let ghost start = self.reg_events();
        proof {
            lemma_since_empty(start);
            assert(port_plan(buf@, 0) =~= Seq::<u32>::empty());
        }
        let mut offset: usize = 0;
        let words = (block_size as usize + 3) / 4;
        let mut blk: u16 = 0;
        while blk < nblocks
            invariant
                self.same_state(*old(self)),
                blk <= nblocks,
                start == old(self).reg_events(),
                prefix_of(start, self.reg_events()),
                words == (block_size as usize + 3) / 4,
                port_words(since(start, self.reg_events())).len() == blk * words,
                port_words(since(start, self.reg_events())) == port_plan(buf@, port_words(since(start, self.reg_events())).len()),
                offset == (if 4 * port_words(since(start, self.reg_events())).len() < buf@.len() {
                    4 * port_words(since(start, self.reg_events())).len() as int
                } else {
                    buf@.len() as int
                }),
                pio_run(false, words as nat, nblocks as nat, since(start, self.reg_events())) == pio_at(blk as nat, nblocks as nat),
            decreases nblocks - blk,
        {
            let ghost b = self.reg_events();
            let rw = self.wait_buffer_write_ready();
            proof {
                lemma_since_concat(start, b, self.reg_events());
                lemma_pio_wait_done(false, words as nat, nblocks as nat, false, blk as nat, since(start, b),
                    since(b, self.reg_events()), rw);
                lemma_off_port_empty(since(b, self.reg_events()));
                lemma_port_concat(since(start, b), since(b, self.reg_events()));
                assert(port_words(since(start, b)) + Seq::<u32>::empty() =~= port_words(since(start, b)));
            }
            match rw {
                Ok(()) => {},
                Err(e) => {
                    proof {
                        assert(blk * words <= nblocks * words) by (nonlinear_arith)
                            requires blk <= nblocks;
                    }
                    return Err(e);
                },
            }
            let mut w: usize = 0;
            while w < words
                invariant
                    self.same_state(*old(self)),
                    w <= words,
                    blk < nblocks,
                    start == old(self).reg_events(),
                    prefix_of(start, self.reg_events()),
                    words == (block_size as usize + 3) / 4,
                    port_words(since(start, self.reg_events())).len() == blk * words + w,
                    port_words(since(start, self.reg_events())) == port_plan(buf@, port_words(since(start, self.reg_events())).len()),
                    offset == (if 4 * port_words(since(start, self.reg_events())).len() < buf@.len() {
                        4 * port_words(since(start, self.reg_events())).len() as int
                    } else {
                        buf@.len() as int
                    }),
                    pio_run(false, words as nat, nblocks as nat, since(start, self.reg_events()))
                        == (if w >= words { pio_at(blk as nat + 1, nblocks as nat) } else { PioPhase::Data { blk: blk as nat, w: w as nat } }),
                decreases words - w,
            {
                let ghost b = self.reg_events();
                let ghost k: int = port_words(since(start, b)).len() as int;
                let mut data: [u8; 4] = [0; 4];
                let remaining = buf.len() - offset;
                let copy_len = if remaining < 4 { remaining } else { 4 };
                crate::crypto::copy_into(&mut data, 0, buf, offset, copy_len);
                let word = crate::ipc::u32_from_le(&data, 0);
                proof {
                    if 4 * k < buf@.len() {
                        assert(data@ =~= (buf@ + seq![0u8, 0u8, 0u8, 0u8]).subrange(4 * k, 4 * k + 4));
                    } else {
                        assert(data@ =~= seq![0u8, 0u8, 0u8, 0u8]);
                    }
                    assert(word == word_of(buf@, k as int));
                }
                self.wr32(SDHCI_BUFFER, word);
                proof {
                    lemma_since_push(start, b, RegEvent::Write32 { off: SDHCI_BUFFER, val: word });
                    lemma_pio_push(false, words as nat, nblocks as nat, since(start, b), RegEvent::Write32 { off: SDHCI_BUFFER, val: word });
                    assert(port_words(since(start, self.reg_events())) =~= port_plan(buf@, (k + 1) as nat));
                }
                offset = offset + copy_len;
                w = w + 1;
            }
            proof {
                assert((blk + 1) * words == blk * words + words) by (nonlinear_arith);
            }
            blk = blk + 1;
        }
        Ok(())
    }

    /// Waits for normal status bit `bit`, clearing it; an error interrupt is
    /// cleared and reported as `IoError`, running out as `Timeout`.
    fn wait_status_bit(&mut self, bit: u16) -> (r: Result<(), SdioError>)
        ensures
            final(self).same_state(*old(self)),
            prefix_of(old(self).reg_events(), final(self).reg_events()),
            status_run(bit, since(old(self).reg_events(), final(self).reg_events())) == (StatusPhase::Done { result: r }),
            off_port(since(old(self).reg_events(), final(self).reg_events())),
            r != Err::<(), SdioError>(SdioError::Unsupported),
    {
        let ghost start = self.reg_events();
        proof { lemma_since_empty(start); }
        let mut i: u32 = 0;
        loop
            invariant
                i < PIO_TIMEOUT,
                self.same_state(*old(self)),
                start == old(self).reg_events(),
                prefix_of(start, self.reg_events()),
                off_port(since(start, self.reg_events())),
                status_run(bit, since(start, self.reg_events())) == (StatusPhase::Wait { polls: i as nat }),
            decreases PIO_TIMEOUT - i,
        {
            let ghost b = self.reg_events();
            let norm_status = self.rd16(SDHCI_INT_STATUS_NORM);
            proof {
                lemma_since_push(start, b, RegEvent::Read16 { off: SDHCI_INT_STATUS_NORM, val: norm_status });
                assert(status_run(bit, since(start, self.reg_events())) == status_step(bit, status_run(bit, since(start, b)), RegEvent::Read16 { off: SDHCI_INT_STATUS_NORM, val: norm_status }));
            }
            if norm_status & NORM_INT_ERROR != 0 {
                let ghost b = self.reg_events();
                let err = self.rd16(SDHCI_INT_STATUS_ERR);
                proof {
                    lemma_since_push(start, b, RegEvent::Read16 { off: SDHCI_INT_STATUS_ERR, val: err });
                    assert(status_run(bit, since(start, self.reg_events())) == status_step(bit, status_run(bit, since(start, b)), RegEvent::Read16 { off: SDHCI_INT_STATUS_ERR, val: err }));
                }
                let ghost b = self.reg_events();
                self.wr16(SDHCI_INT_STATUS_ERR, err);
                proof {
                    lemma_since_push(start, b, RegEvent::Write16 { off: SDHCI_INT_STATUS_ERR, val: err });
                    assert(status_run(bit, since(start, self.reg_events())) == status_step(bit, status_run(bit, since(start, b)), RegEvent::Write16 { off: SDHCI_INT_STATUS_ERR, val: err }));
                }
                let ghost b = self.reg_events();
                self.wr16(SDHCI_INT_STATUS_NORM, NORM_INT_ERROR);
                proof {
                    lemma_since_push(start, b, RegEvent::Write16 { off: SDHCI_INT_STATUS_NORM, val: NORM_INT_ERROR });
                    assert(status_run(bit, since(start, self.reg_events())) == status_step(bit, status_run(bit, since(start, b)), RegEvent::Write16 { off: SDHCI_INT_STATUS_NORM, val: NORM_INT_ERROR }));
                }
                return Err(SdioError::IoError);
            }
            if norm_status & bit != 0 {
                let ghost b = self.reg_events();
                self.wr16(SDHCI_INT_STATUS_NORM, bit);
                proof {
                    lemma_since_push(start, b, RegEvent::Write16 { off: SDHCI_INT_STATUS_NORM, val: bit });
                    assert(status_run(bit, since(start, self.reg_events())) == status_step(bit, status_run(bit, since(start, b)), RegEvent::Write16 { off: SDHCI_INT_STATUS_NORM, val: bit }));
                }
                return Ok(());
            }
            if i + 1 >= PIO_TIMEOUT {
                return Err(SdioError::Timeout);
            }
            i = i + 1;
        }
    }

    /// Waits for buffer-read-ready.
    fn wait_buffer_read_ready(&mut self) -> (r: Result<(), SdioError>)
        ensures
            final(self).same_state(*old(self)),
            prefix_of(old(self).reg_events(), final(self).reg_events()),
            status_run(NORM_INT_BUF_RD_READY, since(old(self).reg_events(), final(self).reg_events())) == (StatusPhase::Done { result: r }),
            off_port(since(old(self).reg_events(), final(self).reg_events())),
            r != Err::<(), SdioError>(SdioError::Unsupported),
    {
        self.wait_status_bit(NORM_INT_BUF_RD_READY)
    }

    /// Waits for buffer-write-ready.
    fn wait_buffer_write_ready(&mut self) -> (r: Result<(), SdioError>)
        ensures
            final(self).same_state(*old(self)),
            prefix_of(old(self).reg_events(), final(self).reg_events()),
            status_run(NORM_INT_BUF_WR_READY, since(old(self).reg_events(), final(self).reg_events())) == (StatusPhase::Done { result: r }),
            off_port(since(old(self).reg_events(), final(self).reg_events())),
            r != Err::<(), SdioError>(SdioError::Unsupported),
    {
        self.wait_status_bit(NORM_INT_BUF_WR_READY)
    }

    /// Waits for transfer-complete.
    fn wait_transfer_complete(&mut self) -> (r: Result<(), SdioError>)
        ensures
            final(self).same_state(*old(self)),
            prefix_of(old(self).reg_events(), final(self).reg_events()),
            status_run(NORM_INT_XFER_COMPLETE, since(old(self).reg_events(), final(self).reg_events())) == (StatusPhase::Done { result: r }),
            off_port(since(old(self).reg_events(), final(self).reg_events())),
            r != Err::<(), SdioError>(SdioError::Unsupported),
    {
        self.wait_status_bit(NORM_INT_XFER_COMPLETE)
    }

    /// Waits for the internal clock to be stable.
    fn wait_clock_stable(&mut self) -> (r: Result<(), SdioError>)
        ensures
            final(self).same_state(*old(self)),
            prefix_of(old(self).reg_events(), final(self).reg_events()),
            clock_poll(since(old(self).reg_events(), final(self).reg_events()), r),
    {
        proof { lemma_since_empty(self.reg_events()); }
        let mut i: u32 = 0;
        while i < CLOCK_STABLE_TIMEOUT
            invariant
                self.same_state(*old(self)),
                i <= CLOCK_STABLE_TIMEOUT,
                prefix_of(old(self).reg_events(), self.reg_events()),
                since(old(self).reg_events(), self.reg_events()).len() == i,
                forall|j: int| 0 <= j < i ==> #[trigger] since(old(self).reg_events(), self.reg_events())[j]
                    == (RegEvent::Read16 { off: SDHCI_CLOCK_CONTROL,
                        val: since(old(self).reg_events(), self.reg_events())[j]->Read16_val }),
                forall|j: int| 0 <= j < i ==>
                    (#[trigger] since(old(self).reg_events(), self.reg_events())[j])->Read16_val & CC_INT_CLK_STABLE == 0,
            decreases CLOCK_STABLE_TIMEOUT - i,
        {
            let ghost before = self.reg_events();
            let v = self.rd16(SDHCI_CLOCK_CONTROL);
            proof { lemma_since_push(old(self).reg_events(), before, RegEvent::Read16 { off: SDHCI_CLOCK_CONTROL, val: v }); }
            if v & CC_INT_CLK_STABLE != 0 {
                return Ok(());
            }
            i = i + 1;
        }
        Err(SdioError::Timeout)
    }

    /// Sets the bus clock to at most `hz`: SD clock off, divisor written
    /// with the internal clock on, wait until stable, SD clock on.
    fn set_clock(&mut self, hz: u32) -> (r: Result<(), SdioError>)
        requires
            hz > 0,
        ensures
            final(self).same_state(*old(self)),
            prefix_of(old(self).reg_events(), final(self).reg_events()),
            clock_program(since(old(self).reg_events(), final(self).reg_events()), hz, r),
            r is Err ==> r == Err::<(), SdioError>(SdioError::Timeout),
    {
        let ghost start = self.reg_events();
        let caps = self.rd32(SDHCI_CAPABILITIES);
        let divisor = clock_divisor(caps, hz);
        let clk_reg = self.rd16(SDHCI_CLOCK_CONTROL);
        self.wr16(SDHCI_CLOCK_CONTROL, clk_reg & !(CC_SD_CLK_EN | CC_INT_CLK_EN));
        self.wr16(SDHCI_CLOCK_CONTROL, clock_select(clk_reg, divisor));
        let ghost s4 = self.reg_events();
        proof {
            assert(s4.subrange(0, start.len() as int) =~= start);
            assert(since(start, s4) =~= seq![
                RegEvent::Read32 { off: SDHCI_CAPABILITIES, val: caps },
                RegEvent::Read16 { off: SDHCI_CLOCK_CONTROL, val: clk_reg },
                RegEvent::Write16 { off: SDHCI_CLOCK_CONTROL, val: clk_reg & !(CC_SD_CLK_EN | CC_INT_CLK_EN) },
                RegEvent::Write16 { off: SDHCI_CLOCK_CONTROL, val: clock_select_spec(clk_reg, divisor) },
            ]);
        }
        let rw = self.wait_clock_stable();
        let ghost s5 = self.reg_events();
        proof {
            lemma_since_concat(start, s4, s5);
            assert(since(start, s5).subrange(4, since(start, s5).len() as int) =~= since(s4, s5));
        }
        match rw {
            Ok(()) => {},
            Err(e) => return Err(e),
        }
        let clk = self.rd16(SDHCI_CLOCK_CONTROL);
        self.wr16(SDHCI_CLOCK_CONTROL, clk | CC_SD_CLK_EN);
        proof {
            let f = self.reg_events();
            assert(f.subrange(0, start.len() as int) =~= start);
            assert(f.subrange(0, s5.len() as int) =~= s5);
            assert(since(start, f) =~= since(start, s5) + seq![
                RegEvent::Read16 { off: SDHCI_CLOCK_CONTROL, val: clk },
                RegEvent::Write16 { off: SDHCI_CLOCK_CONTROL, val: clk | CC_SD_CLK_EN },
            ]);
            assert(since(start, f).subrange(4, since(start, f).len() - 2) =~= since(s4, s5));
        }
        Ok(())
    }

    /// Waits for a software reset to finish.
    fn wait_reset_complete(&mut self) -> (r: Result<(), SdioError>)
        ensures
            final(self).same_state(*old(self)),
            prefix_of(old(self).reg_events(), final(self).reg_events()),
            reset_poll(since(old(self).reg_events(), final(self).reg_events()), r),
            r is Err ==> r == Err::<(), SdioError>(SdioError::Timeout),
    {
        proof { lemma_since_empty(self.reg_events()); }
        let mut i: u32 = 0;
        while i < RESET_TIMEOUT
            invariant
                self.same_state(*old(self)),
                i <= RESET_TIMEOUT,
                prefix_of(old(self).reg_events(), self.reg_events()),
                since(old(self).reg_events(), self.reg_events()).len() == i,
                forall|j: int| 0 <= j < i ==> #[trigger] since(old(self).reg_events(), self.reg_events())[j]
                    == (RegEvent::Read8 { off: SDHCI_SOFTWARE_RESET,
                        val: since(old(self).reg_events(), self.reg_events())[j]->Read8_val }),
                forall|j: int| 0 <= j < i ==>
                    (#[trigger] since(old(self).reg_events(), self.reg_events())[j])->Read8_val != 0,
            decreases RESET_TIMEOUT - i,
        {
            let ghost before = self.reg_events();
            let v = self.rd8(SDHCI_SOFTWARE_RESET);
            proof { lemma_since_push(old(self).reg_events(), before, RegEvent::Read8 { off: SDHCI_SOFTWARE_RESET, val: v }); }
            if v == 0 {
                return Ok(());
            }
            i = i + 1;
        }
        Err(SdioError::Timeout)
    }

    /// Notes one enumeration step in the log.
    fn note(&mut self, ev: Ghost<CardEvent>)
        ensures
            final(self).card_events() == old(self).card_events().push(ev@),
            final(self).regs_spec() == old(self).regs_spec(),
            final(self).ids() == old(self).ids(),
            final(self).reg_events() == old(self).reg_events(),
            card_run(final(self).card_events()) == card_step(card_run(old(self).card_events()), ev@),
    {
        proof {
            assert(self.card_log@.push(ev@).drop_last() =~= self.card_log@);
        }
        self.card_log = Ghost(self.card_log@.push(ev@));
    }

    /// A CMD52 read of function 0's register `addr`, noted as an
    /// enumeration step.
    fn card_read52(&mut self, addr: u32) -> (r: Result<u8, SdioError>)
        ensures
            final(self).card_events() == old(self).card_events().push(CardEvent::Read52 { addr, result: r }),
            final(self).regs_spec() == old(self).regs_spec(),
            final(self).ids() == old(self).ids(),
            card_run(final(self).card_events()) == card_step(card_run(old(self).card_events()),
                CardEvent::Read52 { addr, result: r }),
            prefix_of(old(self).reg_events(), final(self).reg_events()),
            addr <= SDIO_ADDR_MASK ==> r == cmd52_read_outcome(cmd_run(52, cmd52_arg(0, addr, false, false, 0),
                since(old(self).reg_events(), final(self).reg_events()))),
            addr <= SDIO_ADDR_MASK ==> cmd_run(52, cmd52_arg(0, addr, false, false, 0), since(old(self).reg_events(), final(self).reg_events())) is Done,
    {
        let r = self.cmd52_read(0, addr);
        self.note(Ghost(CardEvent::Read52 { addr, result: r }));
        r
    }

    /// Walks the CIS of function `func` (0 or 1) for the manufacturer tuple
    /// and returns its vendor and device IDs: the CIS pointer, then at most
    /// 256 tuples.  Every byte read is noted as an enumeration step.
    fn cis_walk(&mut self, func: u8) -> (r: Result<(u16, u16), SdioError>)
        requires
            func <= 1,
            card_run(old(self).card_events()) == (CardPhase::CisPtr { rca: old(self).ids().0, func, i: 0, acc: 0 }),
        ensures
            final(self).regs_spec() == old(self).regs_spec(),
            final(self).ids() == old(self).ids(),
            card_run(final(self).card_events()) == (match r {
                Ok((v, d)) => CardPhase::Done { result: Ok((old(self).ids().0, v, d)) },
                Err(e) => cis_fail(old(self).ids().0, func, e),
            }),
            prefix_of(old(self).reg_events(), final(self).reg_events()),
    {
        let ghost rca = self.ids().0;
        let base: u32 = if func == 0 { FN0_CIS_PTR } else { fbr_base(func) + FBR_CIS_PTR_OFFSET };
        assert(base == cis_ptr_base(func));
        let b0 = match self.card_read52(base) {
            Ok(v) => v as u32,
            Err(e) => return Err(e),
        };
        let b1 = match self.card_read52(base + 1) {
            Ok(v) => v as u32,
            Err(e) => return Err(e),
        };
        let b2 = match self.card_read52(base + 2) {
            Ok(v) => v as u32,
            Err(e) => return Err(e),
        };
        let mut addr: u32 = b0 + 256 * b1 + 65536 * b2;
        let mut n: u32 = 0;
        loop
            invariant
                n < 256,
                addr <= 0xFF_FFFF + 257 * n,
                func <= 1,
                rca == old(self).ids().0,
                self.regs_spec() == old(self).regs_spec(),
                self.ids() == old(self).ids(),
                card_run(self.card_events()) == (CardPhase::CisTuple { rca, func, addr: addr as nat, n: n as nat }),
                prefix_of(old(self).reg_events(), self.reg_events()),
            decreases 256 - n,
        {
            let tuple_code = match self.card_read52(addr) {
                Ok(v) => v,
                Err(e) => return Err(e),
            };
            if tuple_code == CISTPL_END {
                return Err(SdioError::Unsupported);
            }
            if tuple_code == CISTPL_NULL {
                addr = addr + 1;
                n = n + 1;
                if n >= 256 {
                    return Err(SdioError::Unsupported);
                }
                continue;
            }
            let tuple_link = match self.card_read52(addr + 1) {
                Ok(v) => v,
                Err(e) => return Err(e),
            };
            match cis_step(tuple_code, tuple_link) {
                CisStep::Manfid => {
                    let v0 = match self.card_read52(addr + 2) { Ok(v) => v as u16, Err(e) => return Err(e) };
                    let v1 = match self.card_read52(addr + 3) { Ok(v) => v as u16, Err(e) => return Err(e) };
                    let v2 = match self.card_read52(addr + 4) { Ok(v) => v as u16, Err(e) => return Err(e) };
                    let v3 = match self.card_read52(addr + 5) { Ok(v) => v as u16, Err(e) => return Err(e) };
                    proof {
                        assert(seq![v0 as u8].push(v1 as u8).push(v2 as u8)[0] == v0);
                    }
                    return Ok((v0 + 256 * v1, v2 + 256 * v3));
                },
                CisStep::Next { advance } => {
                    addr = addr + advance;
                },
                _ => {
                    addr = addr + 2 + tuple_link as u32;
                },
            }
            n = n + 1;
            if n >= 256 {
                return Err(SdioError::Unsupported);
            }
        }
    }

    /// Enumeration up to the CMD5 wait: reset, power, 400 kHz, status
    /// enables, then the OCR query; returns the voltage window to ask for.
    #[verifier::rlimit(50)]
    #[verifier::spinoff_prover]
    fn card_power_up(&mut self) -> (r: Result<u32, SdioError>)
        requires
            card_run(old(self).card_events()) == CardPhase::Reset,
        ensures
            final(self).regs_spec() == old(self).regs_spec(),
            final(self).ids() == old(self).ids(),
            card_run(final(self).card_events()) == (match r {
                Ok(v) => CardPhase::OcrReady { voltage: v, tries: 0 },
                Err(e) => CardPhase::Done { result: Err(e) },
            }),
            prefix_of(old(self).reg_events(), final(self).reg_events()),
            power_up_regs(since(old(self).reg_events(), final(self).reg_events()), r),
    {
        let ghost start = self.reg_events();
        let sdio1 = self.regs.base() == SDIO1_VADDR;
        if sdio1 {
            self.soc();
        }
        self.wr8(SDHCI_SOFTWARE_RESET, SWRST_ALL);
        let ghost s1 = self.reg_events();
        proof {
            assert(s1.subrange(0, start.len() as int) =~= start);
            assert(since(start, s1) =~= soc_part(sdio1) + seq![RegEvent::Write8 { off: SDHCI_SOFTWARE_RESET, val: SWRST_ALL }]);
        }
        let rw = self.wait_reset_complete();
        let ghost s2 = self.reg_events();
        let ghost rs = since(s1, s2);
        proof { lemma_since_concat(start, s1, s2); }
        self.note(Ghost(CardEvent::ResetWait { result: rw }));
        match rw {
            Ok(()) => {},
            Err(e) => {
                proof {
                    assert(power_up_shape(since(start, s2), Err(e), sdio1, 0u8, rs, Seq::empty(), Seq::empty()));
                }
                return Err(e);
            },
        }
        let ghost mut hc: u8 = 0;
        if sdio1 {
            let hc1 = self.rd8(SDHCI_HOST_CONTROL);
            proof { hc = hc1; }
            self.wr8(SDHCI_HOST_CONTROL, hc1 | 0xc0);
        }
        self.wr8(SDHCI_POWER_CONTROL, POWER_330V_ON);
        let ghost s3 = self.reg_events();
        proof {
            assert(s3.subrange(0, s2.len() as int) =~= s2);
            assert(since(s2, s3) =~= host_ctl_part(sdio1, hc)
                + seq![RegEvent::Write8 { off: SDHCI_POWER_CONTROL, val: POWER_330V_ON }]);
            lemma_since_concat(start, s2, s3);
        }
        let rc = self.set_clock(400_000);
        let ghost s4 = self.reg_events();
        let ghost ck = since(s3, s4);
        proof { lemma_since_concat(start, s3, s4); }
        self.note(Ghost(CardEvent::SetClock { hz: 400_000, result: rc }));
        match rc {
            Ok(()) => {},
            Err(e) => {
                proof {
                    assert(since(start, s4) =~= soc_part(sdio1)
                        + seq![RegEvent::Write8 { off: SDHCI_SOFTWARE_RESET, val: SWRST_ALL }] + rs + host_ctl_part(sdio1, hc)
                        + seq![RegEvent::Write8 { off: SDHCI_POWER_CONTROL, val: POWER_330V_ON }] + ck);
                    assert(power_up_shape(since(start, s4), Err(e), sdio1, hc, rs, ck, Seq::empty()));
                }
                return Err(e);
            },
        }
        self.wr16(SDHCI_NORM_INT_STS_EN, NORM_INT_ENABLE_MASK);
        self.wr16(SDHCI_ERR_INT_STS_EN, ERR_INT_ENABLE_MASK);
        self.wr16(SDHCI_NORM_INT_SIG_EN, 0);
        self.wr16(SDHCI_ERR_INT_SIG_EN, 0);
        let ghost s5 = self.reg_events();
        proof {
            assert(s5.subrange(0, s4.len() as int) =~= s4);
            assert(since(s4, s5) =~= int_setup());
            lemma_since_concat(start, s4, s5);
        }
        let rq = self.send_cmd(5, 0);
        let ghost s6 = self.reg_events();
        let ghost cm = since(s5, s6);
        proof {
            lemma_since_concat(start, s5, s6);
            assert(since(start, s6) =~= soc_part(sdio1)
                + seq![RegEvent::Write8 { off: SDHCI_SOFTWARE_RESET, val: SWRST_ALL }] + rs + host_ctl_part(sdio1, hc)
                + seq![RegEvent::Write8 { off: SDHCI_POWER_CONTROL, val: POWER_330V_ON }] + ck + int_setup() + cm);
            assert(power_up_shape(since(start, s6), ocr_query_result(rq), sdio1, hc, rs, ck, cm));
        }
        self.note(Ghost(CardEvent::Cmd { index: 5, arg: 0, result: rq }));
        let ocr_query = match rq {
            Ok(v) => v,
            Err(e) => return Err(e),
        };
        let voltage = ocr_query & OCR_VOLTAGE_MASK & OCR_3V2_3V4;
        if voltage == 0 {
            return Err(SdioError::Unsupported);
        }
        Ok(voltage)
    }

    /// CMD5 with `voltage` until the card reports I/O ready (1000 tries).
    fn card_wait_ready(&mut self, voltage: u32) -> (r: Result<(), SdioError>)
        requires
            card_run(old(self).card_events()) == (CardPhase::OcrReady { voltage, tries: 0 }),
        ensures
            final(self).regs_spec() == old(self).regs_spec(),
            final(self).ids() == old(self).ids(),
            card_run(final(self).card_events()) == (match r {
                Ok(_) => CardPhase::Rca,
                Err(e) => CardPhase::Done { result: Err(e) },
            }),
            prefix_of(old(self).reg_events(), final(self).reg_events()),
    {
        let mut i: u32 = 0;
        loop
            invariant_except_break
                i < CMD5_READY_TIMEOUT,
                card_run(self.card_events()) == (CardPhase::OcrReady { voltage, tries: i as nat }),
            invariant
                self.regs_spec() == old(self).regs_spec(),
                self.ids() == old(self).ids(),
                prefix_of(old(self).reg_events(), self.reg_events()),
            ensures
                card_run(self.card_events()) == CardPhase::Rca,
            decreases CMD5_READY_TIMEOUT - i,
        {
            let ro = self.send_cmd(5, voltage);
            self.note(Ghost(CardEvent::Cmd { index: 5, arg: voltage, result: ro }));
            let ocr_resp = match ro {
                Ok(v) => v,
                Err(e) => return Err(e),
            };
            if ocr_resp & OCR_IORDY != 0 {
                break;
            }
            spin_wait(1000);
            if i + 1 >= CMD5_READY_TIMEOUT {
                return Err(SdioError::Timeout);
            }
            i = i + 1;
        }
        Ok(())
    }

    /// RCA (CMD3), select (CMD7), bus speed and clock, 4-bit bus, function 1
    /// enabled and polled ready.
    fn card_configure(&mut self) -> (r: Result<(), SdioError>)
        requires
            card_run(old(self).card_events()) == CardPhase::Rca,
        ensures
            final(self).regs_spec() == old(self).regs_spec(),
            final(self).ids().1 == old(self).ids().1,
            final(self).ids().2 == old(self).ids().2,
            card_run(final(self).card_events()) == (match r {
                Ok(_) => CardPhase::BlockSize { rca: final(self).ids().0 },
                Err(e) => CardPhase::Done { result: Err(e) },
            }),
            prefix_of(old(self).reg_events(), final(self).reg_events()),
    {
        let r3 = self.send_cmd(3, 0);
        self.note(Ghost(CardEvent::Cmd { index: 3, arg: 0, result: r3 }));
        let resp = match r3 {
            Ok(v) => v,
            Err(e) => return Err(e),
        };
        self.rca = (resp / 65536) as u16;
        let sel_arg = (self.rca as u32) * 65536;
        let r7 = self.send_cmd(7, sel_arg);
        self.note(Ghost(CardEvent::Cmd { index: 7, arg: sel_arg, result: r7 }));
        match r7 {
            Ok(_) => {},
            Err(e) => return Err(e),
        }
        let bus_speed = match self.card_read52(BUS_SPEED_SELECT) {
            Ok(v) => v,
            Err(e) => return Err(e),
        };
        let hz: u32 = if bus_speed & 0x01 != 0 {
            let ws = self.cmd52_write(0, BUS_SPEED_SELECT, bus_speed | 0x02);
            self.note(Ghost(CardEvent::Write52 { addr: BUS_SPEED_SELECT, val: bus_speed | 0x02, result: ws }));
            match ws {
                Ok(()) => {},
                Err(e) => return Err(e),
            }
            let hc1 = self.rd8(SDHCI_HOST_CONTROL);
            self.wr8(SDHCI_HOST_CONTROL, hc1 | HC_HIGH_SPEED);
            50_000_000
        } else {
            25_000_000
        };
        let rc2 = self.set_clock(hz);
        self.note(Ghost(CardEvent::SetClock { hz, result: rc2 }));
        match rc2 {
            Ok(()) => {},
            Err(e) => return Err(e),
        }
        let bus_if = match self.card_read52(CCCR_BUS_INTERFACE) {
            Ok(v) => v,
            Err(e) => return Err(e),
        };
        let wb = self.cmd52_write(0, CCCR_BUS_INTERFACE, (bus_if & 0xFC) | 0x02);
        self.note(Ghost(CardEvent::Write52 { addr: CCCR_BUS_INTERFACE, val: (bus_if & 0xFC) | 0x02, result: wb }));
        match wb {
            Ok(()) => {},
            Err(e) => return Err(e),
        }
        let hc1 = self.rd8(SDHCI_HOST_CONTROL);
        self.wr8(SDHCI_HOST_CONTROL, hc1 | HC_BUS_WIDTH_4);
        let re = self.enable_function(1);
        self.note(Ghost(CardEvent::EnableFn { func: 1, result: re }));
        match re {
            Ok(()) => {},
            Err(e) => return Err(e),
        }
        let ghost rca = self.rca;
        let mut k: u32 = 0;
        while k < 1000
            invariant_except_break
                card_run(self.card_events()) == (if k < 1000 {
                    CardPhase::IoReady { rca, polls: k as nat }
                } else {
                    CardPhase::BlockSize { rca }
                }),
            invariant
                k <= 1000,
                self.regs_spec() == old(self).regs_spec(),
                self.ids().1 == old(self).ids().1,
                self.ids().2 == old(self).ids().2,
                self.ids().0 == rca,
                prefix_of(old(self).reg_events(), self.reg_events()),
            ensures
                card_run(self.card_events()) == (CardPhase::BlockSize { rca }),
            decreases 1000 - k,
        {
            let io_ready = match self.card_read52(CCCR_IO_READY) {
                Ok(v) => v,
                Err(e) => return Err(e),
            };
            if io_ready & 0x02 != 0 {
                break;
            }
            spin_wait(100);
            k = k + 1;
        }
        Ok(())
    }

    /// Card enumeration: reset, power, 400 kHz, status enables, CMD5 until
    /// the card is ready, RCA (CMD3), select (CMD7), high speed when the
    /// card supports it (50 MHz, else 25 MHz), 4-bit bus, function 1
    /// enabled with 512-byte blocks, then the IDs from the CIS.  The log
    /// holds the steps of this enumeration.
    #[verifier::rlimit(50)]
    #[verifier::spinoff_prover]
    fn init_card(&mut self) -> (r: Result<(), SdioError>)
        ensures
            final(self).regs_spec() == old(self).regs_spec(),
            card_run(final(self).card_events()) == (CardPhase::Done { result: card_outcome(r, final(self).ids()) }),
            prefix_of(old(self).reg_events(), final(self).reg_events()),
            init_regs(since(old(self).reg_events(), final(self).reg_events()), r),
    {
        self.card_log = Ghost(Seq::empty());
        let ghost start = self.reg_events();
        let rp = self.card_power_up();
        let ghost mid = self.reg_events();
        let ghost pu = since(start, mid);
        proof { lemma_since_empty(mid); }
        let voltage = match rp {
            Ok(v) => v,
            Err(e) => {
                proof {
                    assert(pu.take(pu.len() as int) =~= pu);
                    assert(power_up_regs(pu.take(pu.len() as int), rp));
                }
                return Err(e);
            },
        };
        let r = self.card_enumerate(voltage);
        proof {
            let fin = self.reg_events();
            lemma_since_concat(start, mid, fin);
            assert(since(start, fin).take(pu.len() as int) =~= pu);
            assert(power_up_regs(since(start, fin).take(pu.len() as int), rp));
        }
        r
    }

    /// Enumeration after the first CMD5: CMD5 until ready, configuration,
    /// 512-byte blocks for function 1, then the IDs from the CIS.
    fn card_enumerate(&mut self, voltage: u32) -> (r: Result<(), SdioError>)
        requires
            card_run(old(self).card_events()) == (CardPhase::OcrReady { voltage, tries: 0 }),
        ensures
            final(self).regs_spec() == old(self).regs_spec(),
            card_run(final(self).card_events()) == (CardPhase::Done { result: card_outcome(r, final(self).ids()) }),
            prefix_of(old(self).reg_events(), final(self).reg_events()),
    {
        match self.card_wait_ready(voltage) {
            Ok(()) => {},
            Err(e) => return Err(e),
        }
        match self.card_configure() {
            Ok(()) => {},
            Err(e) => return Err(e),
        }
        let rbs = self.set_function_block_size(1, 512);
        self.note(Ghost(CardEvent::BlockSize { func: 1, size: 512, result: rbs }));
        match rbs {
            Ok(()) => {},
            Err(e) => return Err(e),
        }
        let ids = match self.cis_walk(1) {
            Ok(v) => v,
            Err(_) => match self.cis_walk(0) {
                Ok(v) => v,
                Err(e) => return Err(e),
            },
        };
        self.vendor_id = ids.0;
        self.device_id = ids.1;
        Ok(())
    }

    /// Sets the block size of function `func` through its CCCR/FBR bytes and
    /// reads it back; functions above 7 and sizes outside 1..=2048 are
    /// `Unsupported`, a read-back mismatch is `IoError`.
    #[verifier::rlimit(50)]
    #[verifier::spinoff_prover]
    fn set_function_block_size(&mut self, func: u8, size: u16) -> (r: Result<(), SdioError>)
        ensures
            final(self).same_state(*old(self)),
            prefix_of(old(self).reg_events(), final(self).reg_events()),
            func > 7 || size == 0 || size > 2048 ==> r == Err::<(), SdioError>(SdioError::Unsupported)
                && final(self).reg_events() == old(self).reg_events(),
            func <= 7 && 1 <= size <= 2048 ==> exists|segs: Seq<Seq<RegEvent>>, args: Seq<u32>|
                cmd52_chain(since(old(self).reg_events(), final(self).reg_events()), segs, args)
                && #[trigger] block_size_plan(func, size, segs, args, r),
    {
        if func > 7 {
            return Err(SdioError::Unsupported);
        }
        if size == 0 || size > 2048 {
            return Err(SdioError::Unsupported);
        }
        let ghost start = self.reg_events();
        let ghost want = block_size_args(func, size);
        let base = 0x100 * (func as u32);
        proof {
            lemma_since_empty(start);
            assert(base + 0x11 <= SDIO_ADDR_MASK);
        }
        let w0 = self.cmd52_write(0, base + 0x10, (size % 256) as u8);
        let ghost s1 = self.reg_events();
        let ghost segs1 = seq![since(start, s1)];
        let ghost args1 = want.take(1);
        proof {
            assert(flat(segs1) =~= since(start, s1)) by {
                reveal_with_fuel(flat, 2);
                assert(segs1.drop_last() =~= Seq::<Seq<RegEvent>>::empty());
                assert(Seq::<RegEvent>::empty() + since(start, s1) =~= since(start, s1));
            }
            assert(chain_out(segs1, args1, 0) is Err <==> w0 is Err);
        }
        match w0 {
            Ok(()) => {},
            Err(e) => {
                proof { assert(block_size_plan(func, size, segs1, args1, Err(e))); }
                return Err(e);
            },
        }
        let w1 = self.cmd52_write(0, base + 0x11, (size / 256) as u8);
        let ghost s2 = self.reg_events();
        let ghost segs2 = segs1.push(since(s1, s2));
        let ghost args2 = want.take(2);
        proof {
            lemma_since_concat(start, s1, s2);
            assert(segs2.drop_last() =~= segs1);
            assert(flat(segs2) =~= since(start, s2));
            assert(chain_out(segs2, args2, 0) == chain_out(segs1, args1, 0));
            assert(forall|i: int| 0 <= i < 1 ==> #[trigger] chain_out(segs2, args2, i) is Ok);
        }
        match w1 {
            Ok(()) => {},
            Err(e) => {
                proof { assert(block_size_plan(func, size, segs2, args2, Err(e))); }
                return Err(e);
            },
        }
        let rl = self.cmd52_read(0, base + 0x10);
        let ghost s3 = self.reg_events();
        let ghost segs3 = segs2.push(since(s2, s3));
        let ghost args3 = want.take(3);
        proof {
            lemma_since_concat(start, s2, s3);
            assert(segs3.drop_last() =~= segs2);
            assert(flat(segs3) =~= since(start, s3));
            assert(chain_out(segs3, args3, 0) == chain_out(segs2, args2, 0));
            assert(chain_out(segs3, args3, 1) == chain_out(segs2, args2, 1));
            assert(forall|i: int| 0 <= i < 2 ==> #[trigger] chain_out(segs3, args3, i) is Ok);
        }
        let lo = match rl {
            Ok(v) => v as u16,
            Err(e) => {
                proof { assert(block_size_plan(func, size, segs3, args3, Err(e))); }
                return Err(e);
            },
        };
        let rh = self.cmd52_read(0, base + 0x11);
        let ghost s4 = self.reg_events();
        let ghost segs4 = segs3.push(since(s3, s4));
        let ghost args4 = want.take(4);
        proof {
            lemma_since_concat(start, s3, s4);
            assert(segs4.drop_last() =~= segs3);
            assert(flat(segs4) =~= since(start, s4));
            assert(args4 =~= want);
            assert(chain_out(segs4, args4, 0) == chain_out(segs3, args3, 0));
            assert(chain_out(segs4, args4, 1) == chain_out(segs3, args3, 1));
            assert(chain_out(segs4, args4, 2) == chain_out(segs3, args3, 2));
            assert(forall|i: int| 0 <= i < 3 ==> #[trigger] chain_out(segs4, args4, i) is Ok);
        }
        let hi = match rh {
            Ok(v) => v as u16,
            Err(e) => {
                proof { assert(block_size_plan(func, size, segs4, args4, Err(e))); }
                return Err(e);
            },
        };
        let readback = hi * 256 + lo;
        if readback != size {
            proof { assert(block_size_plan(func, size, segs4, args4, Err(SdioError::IoError))); }
            return Err(SdioError::IoError);
        }
        proof { assert(block_size_plan(func, size, segs4, args4, Ok(()))); }
        Ok(())
    }

    /// Enables function `func` (1..=7) in the CCCR and polls its ready bit
    /// (up to 1000 times); other functions are `Unsupported`.
    #[verifier::rlimit(50)]
    #[verifier::spinoff_prover]
    fn enable_function(&mut self, func: u8) -> (r: Result<(), SdioError>)
        ensures
            final(self).same_state(*old(self)),
            prefix_of(old(self).reg_events(), final(self).reg_events()),
            func == 0 || func > 7 ==> r == Err::<(), SdioError>(SdioError::Unsupported)
                && final(self).reg_events() == old(self).reg_events(),
            1 <= func <= 7 ==> exists|segs: Seq<Seq<RegEvent>>, args: Seq<u32>|
                cmd52_chain(since(old(self).reg_events(), final(self).reg_events()), segs, args)
                && #[trigger] enable_plan(func, segs, args, r),
    {
        if func == 0 || func > 7 {
            return Err(SdioError::Unsupported);
        }
        let ghost start = self.reg_events();
        proof { lemma_since_empty(start); }
        let bit: u8 = 1u8 << func;
        let r0 = self.cmd52_read(0, IO_ENABLE);
        let ghost s1 = self.reg_events();
        let ghost segs1 = seq![since(start, s1)];
        let ghost args1 = seq![cmd52_arg(0, IO_ENABLE, false, false, 0)];
        proof {
            assert(flat(segs1) =~= since(start, s1)) by {
                reveal_with_fuel(flat, 2);
                assert(segs1.drop_last() =~= Seq::<Seq<RegEvent>>::empty());
                assert(Seq::<RegEvent>::empty() + since(start, s1) =~= since(start, s1));
            }
        }
        let io_en = match r0 {
            Ok(v) => v,
            Err(e) => {
                proof { assert(enable_plan(func, segs1, args1, Err(e))); }
                return Err(e);
            },
        };
        let w1 = self.cmd52_write(0, IO_ENABLE, io_en | bit);
        let ghost s2 = self.reg_events();
        let ghost segs2 = segs1.push(since(s1, s2));
        let ghost args2 = args1.push(cmd52_arg(0, IO_ENABLE, true, false, io_en | bit));
        proof {
            lemma_since_concat(start, s1, s2);
            assert(segs2.drop_last() =~= segs1);
            assert(flat(segs2) =~= since(start, s2));
            assert(chain_out(segs2, args2, 0) == chain_out(segs1, args1, 0));
        }
        match w1 {
            Ok(()) => {},
            Err(e) => {
                proof { assert(enable_plan(func, segs2, args2, Err(e))); }
                return Err(e);
            },
        }
        let ghost mut segs = segs2;
        let ghost mut args = args2;
        let mut i: u32 = 0;
        while i < 1000
            invariant
                self.same_state(*old(self)),
                prefix_of(old(self).reg_events(), self.reg_events()),
                i <= 1000,
                1 <= func <= 7,
                bit == 1u8 << func,
                start == old(self).reg_events(),
                cmd52_chain(since(start, self.reg_events()), segs, args),
                args.len() == 2 + i,
                args[0] == cmd52_arg(0, IO_ENABLE, false, false, 0),
                args[1] == cmd52_arg(0, IO_ENABLE, true, false, chain_out(segs, args, 0)->Ok_0 | bit),
                forall|j: int| 0 <= j < args.len() ==> #[trigger] chain_out(segs, args, j) is Ok,
                forall|j: int| 2 <= j < args.len() ==> #[trigger] args[j] == cmd52_arg(0, CCCR_IO_READY, false, false, 0),
                forall|j: int| 2 <= j < args.len() ==> #[trigger] chain_out(segs, args, j)->Ok_0 & bit == 0,
            decreases 1000 - i,
        {
            let ghost b = self.reg_events();
            let rr = self.cmd52_read(0, CCCR_IO_READY);
            let ghost a = self.reg_events();
            let ghost segs_n = segs.push(since(b, a));
            let ghost args_n = args.push(cmd52_arg(0, CCCR_IO_READY, false, false, 0));
            proof {
                lemma_since_concat(start, b, a);
                assert(segs_n.drop_last() =~= segs);
                assert(flat(segs_n) =~= since(start, a));
                assert forall|j: int| 0 <= j < args.len() implies #[trigger] chain_out(segs_n, args_n, j) == chain_out(segs, args, j) by {
                    assert(segs_n[j] == segs[j] && args_n[j] == args[j]);
                }
                assert(chain_out(segs_n, args_n, 0) == chain_out(segs, args, 0));
            }
            let io_ready = match rr {
                Ok(v) => v,
                Err(e) => {
                    proof { assert(enable_plan(func, segs_n, args_n, Err(e))); }
                    return Err(e);
                },
            };
            proof {
                segs = segs_n;
                args = args_n;
            }
            if io_ready & bit != 0 {
                proof { assert(enable_plan(func, segs, args, Ok(()))); }
                return Ok(());
            }
            spin_wait(100_000);
            i = i + 1;
        }
        proof { assert(enable_plan(func, segs, args, Err(SdioError::Timeout))); }
        Err(SdioError::Timeout)
    }
}

impl<R: SdhciRegs> SdioHost for CviSdhci<R> {
    fn init(&mut self) -> (r: Result<(), SdioError>)
        ensures
            final(self).regs_spec() == old(self).regs_spec(),
            card_run(final(self).card_events()) == (CardPhase::Done { result: card_outcome(r, final(self).ids()) }),
            prefix_of(old(self).reg_events(), final(self).reg_events()),
            init_regs(since(old(self).reg_events(), final(self).reg_events()), r),
    {
        self.init_card()
    }

    fn read_byte(&mut self, func: u8, addr: u32) -> (r: Result<u8, SdioError>)
        ensures
            final(self).same_state(*old(self)),
            prefix_of(old(self).reg_events(), final(self).reg_events()),
            r == Err::<u8, SdioError>(SdioError::Unsupported) <==> addr > SDIO_ADDR_MASK,
            addr > SDIO_ADDR_MASK ==> final(self).reg_events() == old(self).reg_events(),
            addr <= SDIO_ADDR_MASK ==> r == cmd52_read_outcome(cmd_run(52, cmd52_arg(func, addr, false, false, 0),
                since(old(self).reg_events(), final(self).reg_events()))),
            addr <= SDIO_ADDR_MASK ==> cmd_run(52, cmd52_arg(func, addr, false, false, 0), since(old(self).reg_events(), final(self).reg_events())) is Done,
    {
        self.cmd52_read(func, addr)
    }

    fn write_byte(&mut self, func: u8, addr: u32, val: u8) -> (r: Result<(), SdioError>)
        ensures
            final(self).same_state(*old(self)),
            prefix_of(old(self).reg_events(), final(self).reg_events()),
            r == Err::<(), SdioError>(SdioError::Unsupported) <==> addr > SDIO_ADDR_MASK,
            addr > SDIO_ADDR_MASK ==> final(self).reg_events() == old(self).reg_events(),
            addr <= SDIO_ADDR_MASK ==> r == cmd52_write_outcome(cmd_run(52, cmd52_arg(func, addr, true, false, val),
                since(old(self).reg_events(), final(self).reg_events()))),
            addr <= SDIO_ADDR_MASK ==> cmd_run(52, cmd52_arg(func, addr, true, false, val), since(old(self).reg_events(), final(self).reg_events())) is Done,
    {
        self.cmd52_write(func, addr, val)
    }

    fn read_fifo(&mut self, func: u8, addr: u32, buf: &mut [u8]) -> (r: Result<(), SdioError>)
        ensures
            final(self).same_state(*old(self)),
            prefix_of(old(self).reg_events(), final(self).reg_events()),
            r == Err::<(), SdioError>(SdioError::Unsupported) <==> (addr > SDIO_ADDR_MASK || old(buf)@.len() == 0
                || cmd53_layout_spec(old(buf)@.len(), 512, true) is Err),
            r == Err::<(), SdioError>(SdioError::Unsupported) ==> final(self).reg_events() == old(self).reg_events(),
            final(buf)@ == overlay(port_bytes(since(old(self).reg_events(), final(self).reg_events())), old(buf)@),
            r != Err::<(), SdioError>(SdioError::Unsupported) ==> ({
                let (bm, count, blk) = cmd53_layout_spec(old(buf)@.len(), 512, true)->Ok_0;
                cmd53_shape(since(old(self).reg_events(), final(self).reg_events()), blk, xfer_blocks_of(bm, count), true,
                    cmd53_arg(false, func, bm, false, addr, (count % 512) as u32), r)
            }),
    {
        self.cmd53_read_fixed(func, addr, buf, 512, true)
    }

    fn write_fifo(&mut self, func: u8, addr: u32, buf: &[u8]) -> (r: Result<(), SdioError>)
        ensures
            final(self).same_state(*old(self)),
            prefix_of(old(self).reg_events(), final(self).reg_events()),
            r == Err::<(), SdioError>(SdioError::Unsupported) <==> (addr > SDIO_ADDR_MASK || buf@.len() == 0
                || cmd53_layout_spec(buf@.len(), 512, true) is Err),
            r == Err::<(), SdioError>(SdioError::Unsupported) ==> final(self).reg_events() == old(self).reg_events(),
            r != Err::<(), SdioError>(SdioError::Unsupported) ==> ({
                let (bm, count, blk) = cmd53_layout_spec(buf@.len(), 512, true)->Ok_0;
                let total = xfer_blocks_of(bm, count) * ((blk as int + 3) / 4);
                &&& cmd53_shape(since(old(self).reg_events(), final(self).reg_events()), blk, xfer_blocks_of(bm, count), false,
                    cmd53_arg(true, func, bm, false, addr, (count % 512) as u32), r)
                &&& port_words(since(old(self).reg_events(), final(self).reg_events()))
                    == port_plan(buf@, port_words(since(old(self).reg_events(), final(self).reg_events())).len())
                &&& port_words(since(old(self).reg_events(), final(self).reg_events())).len() <= total
                &&& r is Ok ==> port_words(since(old(self).reg_events(), final(self).reg_events())).len() == total
            }),
    {
        self.cmd53_write_fixed(func, addr, buf, 512, true)
    }

    fn set_block_size(&mut self, func: u8, size: u16) -> (r: Result<(), SdioError>)
        ensures
            final(self).same_state(*old(self)),
            prefix_of(old(self).reg_events(), final(self).reg_events()),
            func > 7 || size == 0 || size > 2048 ==> r == Err::<(), SdioError>(SdioError::Unsupported)
                && final(self).reg_events() == old(self).reg_events(),
            func <= 7 && 1 <= size <= 2048 ==> exists|segs: Seq<Seq<RegEvent>>, args: Seq<u32>|
                cmd52_chain(since(old(self).reg_events(), final(self).reg_events()), segs, args)
                && #[trigger] block_size_plan(func, size, segs, args, r),
    {
        self.set_function_block_size(func, size)
    }

    fn enable_func(&mut self, func: u8) -> (r: Result<(), SdioError>)
        ensures
            final(self).same_state(*old(self)),
            prefix_of(old(self).reg_events(), final(self).reg_events()),
            func == 0 || func > 7 ==> r == Err::<(), SdioError>(SdioError::Unsupported)
                && final(self).reg_events() == old(self).reg_events(),
            1 <= func <= 7 ==> exists|segs: Seq<Seq<RegEvent>>, args: Seq<u32>|
                cmd52_chain(since(old(self).reg_events(), final(self).reg_events()), segs, args)
                && #[trigger] enable_plan(func, segs, args, r),
    {
        self.enable_function(func)
    }

    fn vendor_device_id(&self) -> (r: (u16, u16))
        ensures
            r == (self.ids().1, self.ids().2),
    {
        (self.vendor_id, self.device_id)
    }
}

} // verus!
