//! AIC8800 chip variants, revisions, SDIO register map and firmware
//! addresses.

use vstd::prelude::*;

verus! {

// SDIO vendor / device IDs.
pub const VID_AIC8801: u16 = 0x5449;
pub const VID_AIC8800DC: u16 = 0xc8a1;
pub const VID_AIC8800D80: u16 = 0xc8a1;
pub const VID_AIC8800D80X2: u16 = 0xc8a1;

pub const DID_AIC8801: u16 = 0x0145;
pub const DID_AIC8800DC: u16 = 0xc08d;
pub const DID_AIC8800D80: u16 = 0x0082;
pub const DID_AIC8800D80X2: u16 = 0x2082;

// Chip revisions (register 0x40500000 >> 16).
pub const CHIP_REV_U01: u8 = 1;
pub const CHIP_REV_U02: u8 = 3;
pub const CHIP_REV_U03: u8 = 7;
pub const CHIP_REV_U04: u8 = 7;

// Firmware RAM addresses.
/// WiFi FMAC firmware load address (AIC8801/D80/D80X2).
pub const RAM_FMAC_FW_ADDR: u32 = 0x0012_0000;
/// WiFi FMAC firmware patch address (AIC8801).
pub const RAM_FMAC_FW_PATCH_ADDR: u32 = 0x0019_0000;
/// ROM FMAC firmware address (AIC8800DC from U02 on).
pub const ROM_FMAC_FW_ADDR: u32 = 0x0001_0000;
/// ROM FMAC patch address (AIC8800DC).
pub const ROM_FMAC_PATCH_ADDR: u32 = 0x0018_0000;
/// Chip revision register (all variants).
pub const CHIP_REV_ADDR: u32 = 0x4050_0000;

/// Size of one firmware upload block.
pub const FW_UPLOAD_CHUNK_SIZE: usize = 1024;
/// Offset of the configuration base pointer inside the firmware image.
pub const FW_CONFIG_BASE_OFFSET: u32 = 0x0180;
/// Where the patch table entries are written.
pub const PATCH_TBL_START_ADDR: u32 = 0x001e_6000;
/// Register that receives the patch table address.
pub const PATCH_ADDR_REG: u32 = 0x001e_5318;
/// Register that receives the number of patch words.
pub const PATCH_NUM_REG: u32 = 0x001e_531c;

// AIC8800 SDIO function registers, V1 (AIC8801/DC/DW).
pub const SDIOWIFI_FUNC_BLOCKSIZE: u16 = 512;
pub const SDIOWIFI_BYTEMODE_LEN_REG: u32 = 0x02;
pub const SDIOWIFI_INTR_CONFIG_REG: u32 = 0x04;
pub const SDIOWIFI_SLEEP_REG: u32 = 0x05;
pub const SDIOWIFI_WR_FIFO_ADDR: u32 = 0x07;
pub const SDIOWIFI_RD_FIFO_ADDR: u32 = 0x08;
pub const SDIOWIFI_WAKEUP_REG: u32 = 0x09;
pub const SDIOWIFI_FLOW_CTRL_REG: u32 = 0x0A;
pub const SDIOWIFI_REGISTER_BLOCK: u32 = 0x0B;
pub const SDIOWIFI_BYTEMODE_ENABLE_REG: u32 = 0x11;
pub const SDIOWIFI_BLOCK_CNT_REG: u32 = 0x12;
pub const SDIOWIFI_FLOWCTRL_MASK: u8 = 0x7F;

// AIC8800 SDIO function registers, V3 (D80/D80X2).
pub const SDIOWIFI_INTR_ENABLE_REG_V3: u32 = 0x00;
/// V3 sleep register (reads bit 4 set once the chip is awake).
pub const SDIOWIFI_SLEEP_REG_V3: u32 = 0x01;
/// V3 wake-up register (interrupt-to-device): writing 0x11 wakes the chip.
pub const SDIOWIFI_WAKEUP_REG_V3: u32 = 0x02;
pub const SDIOWIFI_FLOW_CTRL_Q1_REG_V3: u32 = 0x03;
pub const SDIOWIFI_MISC_INT_STATUS_REG_V3: u32 = 0x04;
pub const SDIOWIFI_BYTEMODE_LEN_REG_V3: u32 = 0x05;
pub const SDIOWIFI_BYTEMODE_LEN_MSB_REG_V3: u32 = 0x06;
pub const SDIOWIFI_BYTEMODE_ENABLE_REG_V3: u32 = 0x07;
pub const SDIOWIFI_MISC_CTRL_REG_V3: u32 = 0x08;
pub const SDIOWIFI_FLOW_CTRL_Q2_REG_V3: u32 = 0x09;
pub const SDIOWIFI_CLK_TEST_RESULT_REG_V3: u32 = 0x0A;
pub const SDIOWIFI_RD_FIFO_ADDR_V3: u32 = 0x0F;
pub const SDIOWIFI_WR_FIFO_ADDR_V3: u32 = 0x10;

// IPC message types.
pub const SDIO_TYPE_DATA: u8 = 0x00;
pub const SDIO_TYPE_CFG: u8 = 0x10;
pub const SDIO_TYPE_CFG_CMD_RSP: u8 = 0x11;
pub const SDIO_TYPE_CFG_DATA_CFM: u8 = 0x12;

// Task IDs.
pub const TASK_DBG: u16 = 1;
pub const DRV_TASK_ID: u16 = 100;

// Start-app boot types.
pub const HOST_START_APP_AUTO: u32 = 1;
pub const HOST_START_APP_CUSTOM: u32 = 2;
pub const HOST_START_APP_FNCALL: u32 = 4;
pub const HOST_START_APP_DUMMY: u32 = 5;

/// AIC8800 chip variants.
#[derive(Debug, Clone, Copy, PartialEq, Eq, Structural)]
pub enum ChipVariant {
    Aic8801,
    Aic8800DC,
    Aic8800DW,
    Aic8800D80,
    Aic8800D80X2,
    Unknown,
}

/// The chip variant that an SDIO vendor/device ID pair identifies.
pub open spec fn variant_of(vid: u16, did: u16) -> ChipVariant {
    if vid == VID_AIC8801 && did == DID_AIC8801 {
        ChipVariant::Aic8801
    } else if vid == VID_AIC8800DC && did == DID_AIC8800DC {
        ChipVariant::Aic8800DC
    } else if vid == VID_AIC8800D80 && did == DID_AIC8800D80 {
        ChipVariant::Aic8800D80
    } else if vid == VID_AIC8800D80X2 && did == DID_AIC8800D80X2 {
        ChipVariant::Aic8800D80X2
    } else {
        ChipVariant::Unknown
    }
}

/// Whether the variant speaks the SDIO V3 protocol (D80/D80X2).
pub open spec fn is_v3_spec(c: ChipVariant) -> bool {
    c == ChipVariant::Aic8800D80 || c == ChipVariant::Aic8800D80X2
}

impl ChipVariant {
    /// Identifies the chip from its SDIO vendor and device ID.
    pub fn from_vid_did(vid: u16, did: u16) -> (c: Self)
        ensures
            c == variant_of(vid, did),
    {
        if vid == VID_AIC8801 && did == DID_AIC8801 {
            ChipVariant::Aic8801
        } else if vid == VID_AIC8800DC && did == DID_AIC8800DC {
            ChipVariant::Aic8800DC
        } else if vid == VID_AIC8800D80 && did == DID_AIC8800D80 {
            ChipVariant::Aic8800D80
        } else if vid == VID_AIC8800D80X2 && did == DID_AIC8800D80X2 {
            ChipVariant::Aic8800D80X2
        } else {
            ChipVariant::Unknown
        }
    }

    /// Whether the chip speaks the SDIO V3 protocol (D80/D80X2).
    pub fn is_v3(&self) -> (b: bool)
        ensures
            b == is_v3_spec(*self),
    {
        match self {
            ChipVariant::Aic8800D80 | ChipVariant::Aic8800D80X2 => true,
            _ => false,
        }
    }
}

/// Chip revision information.
#[derive(Debug, Clone, Copy, PartialEq, Eq, Structural)]
pub struct ChipRevision {
    /// Revision number (U01 = 1, U02 = 3, U03 = 7).
    pub rev: u8,
    /// High-performance variant flag (DC/D80 only).
    pub is_chip_id_h: bool,
}

/// AIC8801 system configuration writes `(address, value)` made before the
/// firmware upload (clocks, PLL, PMIC interface, 26 MHz crystal divider and
/// the watchdog stop).
pub open spec fn syscfg_tbl() -> Seq<(u32, u32)> {
    seq![
        (0x4050_0014u32, 0x0000_0101u32),
        (0x4050_0018u32, 0x0000_0109u32),
        (0x4050_0004u32, 0x0000_0010u32),
        (0x4004_0000u32, 0x0000_1AC8u32),
        (0x4004_0084u32, 0x0001_1580u32),
        (0x4004_0080u32, 0x0000_0001u32),
        (0x4010_0058u32, 0x0000_0000u32),
        (0x5000_0000u32, 0x0322_0204u32),
        (0x5001_9150u32, 0x0000_0002u32),
        (0x5001_7008u32, 0x0000_0000u32),
    ]
}

/// The AIC8801 system configuration table.
pub fn syscfg_table() -> (t: Vec<(u32, u32)>)
    ensures
        t@ == syscfg_tbl(),
{
    let t = vec![
        (0x4050_0014u32, 0x0000_0101u32),
        (0x4050_0018u32, 0x0000_0109u32),
        (0x4050_0004u32, 0x0000_0010u32),
        (0x4004_0000u32, 0x0000_1AC8u32),
        (0x4004_0084u32, 0x0001_1580u32),
        (0x4004_0080u32, 0x0000_0001u32),
        (0x4010_0058u32, 0x0000_0000u32),
        (0x5000_0000u32, 0x0322_0204u32),
        (0x5001_9150u32, 0x0000_0002u32),
        (0x5001_7008u32, 0x0000_0000u32),
    ];
    assert(t@ == syscfg_tbl());
    t
}

/// AIC8801 masked system configuration writes `(address, mask, value)`
/// (clock gating).
pub open spec fn syscfg_tbl_masked() -> Seq<(u32, u32, u32)> {
    seq![(0x4050_6024u32, 0x0000_00FFu32, 0x0000_00DFu32)]
}

/// AIC8801 masked RF writes `(address, mask, value)` (PLL).
pub open spec fn rf_tbl_masked() -> Seq<(u32, u32, u32)> {
    seq![(0x4034_4058u32, 0x0080_0000u32, 0x0000_0000u32)]
}

/// The AIC8801 masked system configuration table.
pub fn syscfg_masked_table() -> (t: Vec<(u32, u32, u32)>)
    ensures
        t@ == syscfg_tbl_masked(),
{
    let t = vec![(0x4050_6024u32, 0x0000_00FFu32, 0x0000_00DFu32)];
    assert(t@ == syscfg_tbl_masked());
    t
}

/// The AIC8801 masked RF table.
pub fn rf_masked_table() -> (t: Vec<(u32, u32, u32)>)
    ensures
        t@ == rf_tbl_masked(),
{
    let t = vec![(0x4034_4058u32, 0x0080_0000u32, 0x0000_0000u32)];
    assert(t@ == rf_tbl_masked());
    t
}

/// AIC8801 firmware patch table `(offset from config base, value)`.
pub open spec fn patch_tbl() -> Seq<(u32, u32)> {
    seq![(0x0104u32, 0x0000_0000u32)]
}

/// The AIC8801 firmware patch table.
pub fn patch_table() -> (t: Vec<(u32, u32)>)
    ensures
        t@ == patch_tbl(),
{
    let t = vec![(0x0104u32, 0x0000_0000u32)];
    assert(t@ == patch_tbl());
    t
}

} // verus!
