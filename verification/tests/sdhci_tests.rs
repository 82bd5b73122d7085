use std::cell::RefCell;
use std::collections::HashMap;

use aic8800::sdhci::{cis_step, clock_divisor, clock_select, cmd53_layout, cmd_reg_of, make_cmd52_arg, make_cmd53_arg,
    irq_actions, transfer_mode, CisStep, CviSdhci, SdhciRegs};
use aic8800::sdio::{fbr_base, SdioError, SdioHost};

/// Registers of a controller whose commands complete at once with a fixed
/// response word.
struct FakeRegs {
    response: u32,
    writes: RefCell<Vec<(u32, u32)>>,
    values: RefCell<HashMap<u32, u32>>,
}

impl FakeRegs {
    fn new(response: u32) -> Self {
        FakeRegs { response, writes: RefCell::new(Vec::new()), values: RefCell::new(HashMap::new()) }
    }

    fn written(&self, offset: u32) -> Vec<u32> {
        self.writes.borrow().iter().filter(|(o, _)| *o == offset).map(|(_, v)| *v).collect()
    }
}

impl SdhciRegs for FakeRegs {
    fn read8(&self, offset: u32) -> u8 {
        *self.values.borrow().get(&offset).unwrap_or(&0) as u8
    }
    fn read16(&self, offset: u32) -> u16 {
        if offset == 0x30 {
            // Command complete, transfer complete and both buffer-ready bits.
            return 0x0033;
        }
        if offset == 0x2C {
            return 0x0002;
        }
        *self.values.borrow().get(&offset).unwrap_or(&0) as u16
    }
    fn read32(&self, offset: u32) -> u32 {
        match offset {
            0x10 => self.response,
            0x24 => 0,
            0x20 => 0x4433_2211,
            _ => *self.values.borrow().get(&offset).unwrap_or(&0),
        }
    }
    fn write8(&self, offset: u32, val: u8) {
        self.writes.borrow_mut().push((offset, val as u32));
    }
    fn write16(&self, offset: u32, val: u16) {
        self.writes.borrow_mut().push((offset, val as u32));
    }
    fn write32(&self, offset: u32, val: u32) {
        self.writes.borrow_mut().push((offset, val));
    }
    fn base(&self) -> u64 {
        0x1000
    }
    fn soc_init(&self) {}
}

#[test]
fn command_register_values() {
    assert_eq!(cmd_reg_of(0), Some(0x0000));
    assert_eq!(cmd_reg_of(5), Some(0x0502));
    assert_eq!(cmd_reg_of(52), Some(0x341A));
    assert_eq!(cmd_reg_of(53), Some(0x353A));
    assert_eq!(cmd_reg_of(17), None);
}

#[test]
fn cmd52_argument_encoding() {
    assert_eq!(make_cmd52_arg(1, 0x12, false, false, 0), 0x1000_2400);
    assert_eq!(make_cmd52_arg(0, 0x02, true, false, 0x06), 0x8000_0406);
    assert_eq!(make_cmd52_arg(0, 0x02, true, true, 0x06), 0x8800_0406);
    assert_eq!(make_cmd52_arg(9, 0x3_FFFF, false, false, 0), 0x13FF_FE00);
}

#[test]
fn cmd53_argument_encoding() {
    assert_eq!(make_cmd53_arg(true, 1, true, false, 0x07, 3), 0x9800_0E03);
    assert_eq!(make_cmd53_arg(false, 1, false, true, 0x08, 0x200), 0x1400_1000);
}

#[test]
fn cmd53_transfer_layouts() {
    assert_eq!(cmd53_layout(1024, 512, true), Ok((true, 2, 512)));
    assert_eq!(cmd53_layout(1000, 512, true), Err(SdioError::Unsupported));
    assert_eq!(cmd53_layout(100, 512, true), Err(SdioError::Unsupported));
    assert_eq!(cmd53_layout(512, 0, true), Ok((false, 0, 512)));
    assert_eq!(cmd53_layout(100, 512, false), Ok((false, 100, 100)));
    assert_eq!(cmd53_layout(600, 512, false), Err(SdioError::Unsupported));
}

#[test]
fn transfer_mode_bits() {
    assert_eq!(transfer_mode(true, 1), 0x0010);
    assert_eq!(transfer_mode(true, 2), 0x0032);
    assert_eq!(transfer_mode(false, 3), 0x0022);
    assert_eq!(transfer_mode(false, 1), 0x0000);
}

#[test]
fn clock_divisors() {
    // Capabilities report 100 MHz.
    let caps = 100 << 8;
    assert_eq!(clock_divisor(caps, 400_000), 125);
    assert_eq!(clock_divisor(caps, 25_000_000), 2);
    assert_eq!(clock_divisor(caps, 200_000_000), 0);
    // No base clock reported: 50 MHz.
    assert_eq!(clock_divisor(0, 50_000_000), 0);
    assert_eq!(clock_divisor(0, 1), 0x3FF);
}

#[test]
fn cis_walk_steps() {
    assert_eq!(cis_step(0xFF, 0), CisStep::End);
    assert_eq!(cis_step(0x00, 9), CisStep::SkipNull);
    assert_eq!(cis_step(0x20, 4), CisStep::Manfid);
    assert_eq!(cis_step(0x20, 3), CisStep::Next { advance: 5 });
    assert_eq!(cis_step(0x21, 2), CisStep::Next { advance: 4 });
}

#[test]
fn fbr_addresses() {
    assert_eq!(fbr_base(0), 0);
    assert_eq!(fbr_base(1), 0x100);
    assert_eq!(fbr_base(7), 0x700);
}

#[test]
fn r5_response_checks() {
    let host = CviSdhci::new(FakeRegs::new(0x0000_1042));
    assert_eq!(host.check_r5_response(0x1042), Ok(0x42));
    assert_eq!(host.check_r5_response(0x8042), Err(SdioError::CrcError));
    assert_eq!(host.check_r5_response(0x4042), Err(SdioError::IoError));
    assert_eq!(host.check_r5_response(0x0842), Err(SdioError::IoError));
    assert_eq!(host.check_r5_response(0x0142), Err(SdioError::IoError));
}

#[test]
fn byte_read_issues_cmd52() {
    let mut host = CviSdhci::new(FakeRegs::new(0x0000_1077));
    assert_eq!(host.read_byte(1, 0x12), Ok(0x77));
    assert_eq!(host.regs().written(0x08), vec![0x1000_2400]);
    assert_eq!(host.regs().written(0x0E), vec![0x341A]);
}

#[test]
fn byte_access_beyond_the_address_space_is_refused() {
    let mut host = CviSdhci::new(FakeRegs::new(0));
    assert_eq!(host.read_byte(1, 0x2_0000), Err(SdioError::Unsupported));
    assert_eq!(host.write_byte(1, 0x2_0000, 1), Err(SdioError::Unsupported));
    assert!(host.regs().written(0x0E).is_empty());
}

#[test]
fn byte_write_reports_r5_errors() {
    let mut host = CviSdhci::new(FakeRegs::new(0x8000));
    assert_eq!(host.write_byte(1, 0x04, 7), Err(SdioError::CrcError));
}

#[test]
fn fifo_read_fills_the_buffer() {
    let mut host = CviSdhci::new(FakeRegs::new(0x1000));
    let mut buf = [0u8; 512];
    assert_eq!(host.read_fifo(1, 0x08, &mut buf), Ok(()));
    assert_eq!(&buf[0..8], &[0x11, 0x22, 0x33, 0x44, 0x11, 0x22, 0x33, 0x44]);
    assert_eq!(host.regs().written(0x04), vec![512]);
    assert_eq!(host.regs().written(0x06), vec![1]);
    assert_eq!(host.regs().written(0x0C), vec![0x0010]);
}

#[test]
fn fifo_write_sends_the_words() {
    let mut host = CviSdhci::new(FakeRegs::new(0x1000));
    let buf = [0xABu8; 1024];
    assert_eq!(host.write_fifo(1, 0x07, &buf), Ok(()));
    assert_eq!(host.regs().written(0x20).len(), 256);
    assert_eq!(host.regs().written(0x06), vec![2]);
    assert_eq!(host.regs().written(0x08), vec![0x9800_0E02]);
}

#[test]
fn fifo_transfers_of_partial_blocks_are_refused() {
    let mut host = CviSdhci::new(FakeRegs::new(0x1000));
    let mut buf = [0u8; 100];
    assert_eq!(host.read_fifo(1, 0x08, &mut buf), Err(SdioError::Unsupported));
    assert_eq!(host.write_fifo(1, 0x07, &[]), Err(SdioError::Unsupported));
}

#[test]
fn block_size_and_function_arguments_are_checked() {
    let mut host = CviSdhci::new(FakeRegs::new(0x1000));
    assert_eq!(host.set_block_size(8, 512), Err(SdioError::Unsupported));
    assert_eq!(host.set_block_size(1, 0), Err(SdioError::Unsupported));
    assert_eq!(host.set_block_size(1, 4096), Err(SdioError::Unsupported));
    assert_eq!(host.enable_func(0), Err(SdioError::Unsupported));
    assert_eq!(host.enable_func(8), Err(SdioError::Unsupported));
}

#[test]
fn block_size_readback_mismatch_is_io_error() {
    // Every CMD52 reads back 0x00, so the written 512 does not come back.
    let mut host = CviSdhci::new(FakeRegs::new(0x1000));
    assert_eq!(host.set_block_size(1, 512), Err(SdioError::IoError));
}

#[test]
fn new_controller_has_no_ids() {
    let host = CviSdhci::new(FakeRegs::new(0));
    assert_eq!(host.vendor_device_id(), (0, 0));
}

#[test]
fn interrupt_handler_actions() {
    let a = irq_actions(0x8121);
    assert!(a.card_int && a.cmd_complete && a.buf_rd_ready && a.error);
    assert!(!a.xfer_complete);
    assert_eq!(a.w1c_mask, 0x8021);
    let b = irq_actions(0x0001_0002);
    assert!(b.xfer_complete && !b.card_int);
    assert_eq!(b.w1c_mask, 0x0002);
    let c = irq_actions(0x0100);
    assert!(c.card_int);
    assert_eq!(c.w1c_mask, 0);
}

#[test]
fn card_without_a_supported_voltage_is_refused() {
    let mut host = CviSdhci::new(FakeRegs::new(0));
    assert_eq!(host.init(), Err(SdioError::Unsupported));
    assert_eq!(host.regs().written(0x08), vec![0]);
    assert_eq!(host.regs().written(0x0E), vec![0x0502]);
}

#[test]
fn card_enumeration_commands_in_order() {
    // Every response reports I/O ready at 3.2-3.4 V; function 1 never
    // becomes ready, so enabling it times out.
    let mut host = CviSdhci::new(FakeRegs::new(0x8030_0000));
    assert_eq!(host.init(), Err(SdioError::Timeout));
    let args = host.regs().written(0x08);
    assert_eq!(&args[0..4], &[0, 0x0030_0000, 0, 0x8030_0000]);
    let cmds = host.regs().written(0x0E);
    assert_eq!(&cmds[0..5], &[0x0502, 0x0502, 0x031A, 0x071B, 0x341A]);
}

#[test]
fn clock_select_values() {
    assert_eq!(clock_select(0, 0x3FF), 0xFFC1);
    assert_eq!(clock_select(0xFFFF, 0), 0x003B);
    assert_eq!(clock_select(0, 0x7D), 0x7D01);
}

fn card_irq_handler() {}

#[test]
fn polling_controller_claims_no_interrupt() {
    let host = CviSdhci::new(FakeRegs::new(0));
    assert_eq!(host.claim_irq(1, card_irq_handler), Ok(()));
    assert!(host.regs().writes.borrow().is_empty());
}

#[test]
fn init_programs_the_identification_clock() {
    // No base clock reported (50 MHz): 400 kHz needs divisor 63.  The clock
    // control reads 0x0002 (internal clock stable).
    let mut host = CviSdhci::new(FakeRegs::new(0));
    let _ = host.init();
    let clk = host.regs().written(0x2C);
    assert_eq!(&clk[0..3], &[0x0002, 0x3F03, 0x0006]);
    assert_eq!(clock_select(0x0002, clock_divisor(0, 400_000)), 0x3F03);
}

#[test]
fn power_up_register_writes() {
    // A controller at another base than SDIO1: no SoC set-up, no forced
    // card detect.
    let mut host = CviSdhci::new(FakeRegs::new(0));
    assert_eq!(host.init(), Err(SdioError::Unsupported));
    let regs = host.regs();
    assert_eq!(regs.written(0x2F), vec![0x01]);
    assert_eq!(regs.written(0x28), Vec::<u32>::new());
    assert_eq!(regs.written(0x29), vec![0x0F]);
    assert_eq!(regs.written(0x34), vec![0x01F3]);
    assert_eq!(regs.written(0x36), vec![0x007F]);
    assert_eq!(regs.written(0x38), vec![0]);
    assert_eq!(regs.written(0x3A), vec![0]);
}
