//! SDIO host abstraction: error type, CCCR/FBR layout and the host trait
//! that the firmware loader and the drivers talk to.

use vstd::prelude::*;

verus! {

/// SDIO errors.
#[derive(Debug, Clone, Copy, PartialEq, Eq, Structural)]
pub enum SdioError {
    /// Command timed out.
    Timeout,
    /// CRC check failed.
    CrcError,
    /// Data transfer error.
    DataError,
    /// No card detected.
    NoCard,
    /// Unsupported operation or argument.
    Unsupported,
    /// Generic I/O error.
    IoError,
}

// CCCR (Card Common Control Registers) addresses.
pub const CCCR_SDIO_REVISION: u32 = 0x00;
pub const CCCR_SD_REVISION: u32 = 0x01;
pub const CCCR_IO_ENABLE: u32 = 0x02;
pub const CCCR_IO_READY: u32 = 0x03;
pub const CCCR_INT_ENABLE: u32 = 0x04;
pub const CCCR_INT_PENDING: u32 = 0x05;
pub const CCCR_IO_ABORT: u32 = 0x06;
pub const CCCR_BUS_INTERFACE: u32 = 0x07;
pub const CCCR_CARD_CAPABILITY: u32 = 0x08;
pub const CCCR_CIS_POINTER: u32 = 0x09;
pub const CCCR_BUS_SUSPEND: u32 = 0x0C;
pub const CCCR_FUNCTION_SELECT: u32 = 0x0D;
pub const CCCR_EXEC_FLAGS: u32 = 0x0E;
pub const CCCR_READY_FLAGS: u32 = 0x0F;
pub const CCCR_FN0_BLOCK_SIZE: u32 = 0x10;
pub const CCCR_POWER_CONTROL: u32 = 0x12;
pub const CCCR_HIGH_SPEED: u32 = 0x13;

/// Offset of the block size inside a function's FBR.
pub const FBR_BLOCK_SIZE_OFFSET: u32 = 0x10;

pub const BUS_WIDTH_1BIT: u8 = 0x00;
pub const BUS_WIDTH_4BIT: u8 = 0x02;

pub const IO_ENABLE: u32 = 0x02;
pub const IO_READY: u32 = 0x03;
pub const FN1_BLOCK_SIZE_LO: u32 = 0x110;
pub const FN1_BLOCK_SIZE_HI: u32 = 0x111;
/// Bus Speed Select (bit 0: supports high speed, bit 1: enable high speed).
pub const BUS_SPEED_SELECT: u32 = 0x13;
pub const EXEC_FLAGS: u32 = 0x0E;

// CIS tuple codes.
pub const CISTPL_NULL: u8 = 0x00;
pub const CISTPL_MANFID: u8 = 0x20;
pub const CISTPL_FUNCID: u8 = 0x21;
pub const CISTPL_FUNCE: u8 = 0x22;
pub const CISTPL_END: u8 = 0xFF;

/// CIS pointer offset inside an FBR.
pub const FBR_CIS_PTR_OFFSET: u32 = 0x09;
/// CIS pointer of function 0 (CCCR 0x09..0x0B, little-endian).
pub const FN0_CIS_PTR: u32 = 0x09;

/// FBR base address of function `func`: `0x100 * func`.
pub fn fbr_base(func: u8) -> (r: u32)
    ensures
        r == func as u32 * 0x100,
{
    (func as u32) * 0x100
}

/// SDIO host controller as the WiFi firmware loader and driver use it.
pub trait SdioHost {
    /// Resets the controller and enumerates the SDIO card.
    fn init(&mut self) -> Result<(), SdioError>;

    /// CMD52 single-byte read.
    fn read_byte(&mut self, func: u8, addr: u32) -> Result<u8, SdioError>;

    /// CMD52 single-byte write.
    fn write_byte(&mut self, func: u8, addr: u32, val: u8) -> Result<(), SdioError>;

    /// CMD53 read into `buf` from a fixed (FIFO) address.
    fn read_fifo(&mut self, func: u8, addr: u32, buf: &mut [u8]) -> (r: Result<(), SdioError>)
        ensures
            final(buf)@.len() == old(buf)@.len(),
    ;

    /// CMD53 write of `buf` to a fixed (FIFO) address.
    fn write_fifo(&mut self, func: u8, addr: u32, buf: &[u8]) -> Result<(), SdioError>;

    /// Sets the block size of function `func`.
    fn set_block_size(&mut self, func: u8, size: u16) -> Result<(), SdioError>;

    /// Sets the bus clock; hosts without a clock control do nothing and
    /// succeed.
    fn set_clock(&mut self, hz: u32) -> (r: Result<(), SdioError>)
        default_ensures
            r == Ok::<(), SdioError>(()),
    {
        Ok(())
    }

    /// Enables function `func`.
    fn enable_func(&mut self, func: u8) -> Result<(), SdioError>;

    /// Registers `handler` for the SDIO interrupt of function `func`; hosts
    /// that only poll register nothing and succeed.
    fn claim_irq<F: Fn()>(&self, func: u8, handler: F) -> (r: Result<(), SdioError>)
        default_ensures
            r == Ok::<(), SdioError>(()),
    {
        Ok(())
    }

    /// Vendor and device ID of the card.
    fn vendor_device_id(&self) -> (u16, u16);
}

} // verus!
