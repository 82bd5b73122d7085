//! LMAC message header, message ID arithmetic and the message/task
//! constants of the full-MAC driver.

use vstd::prelude::*;

pub use crate::chip_id::{DRV_TASK_ID, TASK_DBG};

use crate::ipc::{le16, le16_at, le32_at, u16_from_le, u16_to_le, u32_from_le};

verus! {

/// LMAC message header as the firmware sends it (little-endian).
#[derive(Clone, Copy, Debug, PartialEq, Eq, Structural)]
pub struct LmacMsg {
    pub id: u16,
    pub dest_id: u16,
    pub src_id: u16,
    pub param_len: u16,
    pub pattern: u32,
}

/// Size of the header in a firmware-to-host message (with the pattern word).
pub const LMAC_MSG_SIZE: usize = 12;

/// The header read from the first 12 bytes of `data`.
pub open spec fn lmac_msg_at(data: Seq<u8>) -> LmacMsg {
    LmacMsg {
        id: le16_at(data, 0),
        dest_id: le16_at(data, 2),
        src_id: le16_at(data, 4),
        param_len: le16_at(data, 6),
        pattern: le32_at(data, 8),
    }
}

/// The 8 serialised bytes of a header (the pattern is not sent).
pub open spec fn lmac_msg_bytes(m: LmacMsg) -> Seq<u8> {
    le16(m.id) + le16(m.dest_id) + le16(m.src_id) + le16(m.param_len)
}

impl LmacMsg {
    /// Parses the header from the first 12 bytes of `data`.
    pub fn from_le_bytes(data: &[u8]) -> (m: Self)
        requires
            data@.len() >= 12,
        ensures
            m == lmac_msg_at(data@),
    {
        LmacMsg {
            id: u16_from_le(data, 0),
            dest_id: u16_from_le(data, 2),
            src_id: u16_from_le(data, 4),
            param_len: u16_from_le(data, 6),
            pattern: u32_from_le(data, 8),
        }
    }

    /// Serialises the header to 8 little-endian bytes.
    pub fn to_le_bytes(&self) -> (buf: [u8; 8])
        ensures
            buf@ == lmac_msg_bytes(*self),
    {
        let a = u16_to_le(self.id);
        let b = u16_to_le(self.dest_id);
        let c = u16_to_le(self.src_id);
        let d = u16_to_le(self.param_len);
        let buf = [a[0], a[1], b[0], b[1], c[0], c[1], d[0], d[1]];
        assert(buf@ =~= lmac_msg_bytes(*self));
        buf
    }
}

/// A little-endian `u16` read back from its two bytes is the number.
pub proof fn lemma_le16_roundtrip(x: u16)
    ensures
        le16_at(le16(x), 0) == x,
{
}

/// Serialising a header and parsing it back, whatever pattern word follows,
/// gives the same ID, destination, source and parameter length.
pub proof fn lemma_lmac_msg_roundtrip(m: LmacMsg, pattern: Seq<u8>)
    requires
        pattern.len() == 4,
    ensures
        lmac_msg_at(lmac_msg_bytes(m) + pattern) == (LmacMsg { pattern: le32_at(pattern, 0), ..m }),
{
    let s = lmac_msg_bytes(m) + pattern;
    assert(s[0] == le16(m.id)[0] && s[1] == le16(m.id)[1]);
    assert(s[2] == le16(m.dest_id)[0] && s[3] == le16(m.dest_id)[1]);
    assert(s[4] == le16(m.src_id)[0] && s[5] == le16(m.src_id)[1]);
    assert(s[6] == le16(m.param_len)[0] && s[7] == le16(m.param_len)[1]);
    assert(s[8] == pattern[0] && s[9] == pattern[1] && s[10] == pattern[2] && s[11] == pattern[3]);
    lemma_le16_roundtrip(m.id);
    lemma_le16_roundtrip(m.dest_id);
    lemma_le16_roundtrip(m.src_id);
    lemma_le16_roundtrip(m.param_len);
}

/// Parsing 12 bytes and serialising the header gives back the first 8.
pub proof fn lemma_lmac_bytes_of_parse(data: Seq<u8>)
    requires
        data.len() >= 12,
    ensures
        lmac_msg_bytes(lmac_msg_at(data)) == data.subrange(0, 8),
{
    assert(lmac_msg_bytes(lmac_msg_at(data)) =~= data.subrange(0, 8));
}

/// `MSG_T(task, idx)`: the task in the high byte, the index in the low byte.
pub fn msg_t(task: u16, idx: u8) -> (id: u16)
    ensures
        id == (task % 256) * 256 + idx,
{
    let r = (task << 8u16) | (idx as u16);
    assert(((task << 8u16) | (idx as u16)) == (task % 256) * 256 + idx) by (bit_vector);
    r
}

/// `LMAC_FIRST_MSG(task)`: the first message ID of a task, `task << 10`.
pub fn lmac_first_msg(task: u16) -> (id: u16)
    ensures
        id == (task % 64) * 1024,
{
    let r = task << 10u16;
    assert((task << 10u16) == (task % 64) * 1024) by (bit_vector);
    r
}

/// The index of a message within its task: the low 10 bits.
pub fn msg_index(msg_id: u16) -> (idx: u16)
    ensures
        idx == msg_id % 1024,
{
    let one: u16 = 1u16 << 10u16;
    assert(one == 1024) by (bit_vector)
        requires
            one == 1u16 << 10u16,
    ;
    let mask: u16 = one - 1;
    let r = msg_id & mask;
    assert((msg_id & 1023u16) == msg_id % 1024) by (bit_vector);
    r
}

// Task IDs.
pub const TASK_MM: u16 = 0;
pub const TASK_SCAN: u16 = 2;
pub const TASK_TDLS: u16 = 3;
pub const TASK_SCANU: u16 = 4;
pub const TASK_ME: u16 = 5;
pub const TASK_SM: u16 = 6;
pub const TASK_APM: u16 = 7;
pub const TASK_BAM: u16 = 8;
pub const TASK_MESH: u16 = 9;
pub const TASK_RXU: u16 = 10;
pub const TASK_RM: u16 = 11;
pub const TASK_TWT: u16 = 12;
pub const TASK_API: u16 = 13;


// MM messages (TASK_MM).
pub const MM_RESET_REQ: u16 = 0x0000;
pub const MM_RESET_CFM: u16 = 0x0001;
pub const MM_START_REQ: u16 = 0x0002;
pub const MM_START_CFM: u16 = 0x0003;
pub const MM_VERSION_REQ: u16 = 0x0004;
pub const MM_VERSION_CFM: u16 = 0x0005;
pub const MM_ADD_IF_REQ: u16 = 0x0006;
pub const MM_ADD_IF_CFM: u16 = 0x0007;
pub const MM_REMOVE_IF_REQ: u16 = 0x0008;
pub const MM_REMOVE_IF_CFM: u16 = 0x0009;
pub const MM_STA_ADD_REQ: u16 = 0x000A;
pub const MM_STA_ADD_CFM: u16 = 0x000B;
pub const MM_STA_DEL_REQ: u16 = 0x000C;
pub const MM_STA_DEL_CFM: u16 = 0x000D;
pub const MM_SET_FILTER_REQ: u16 = 0x000E;
pub const MM_SET_FILTER_CFM: u16 = 0x000F;
pub const MM_SET_CHANNEL_REQ: u16 = 0x0010;
pub const MM_SET_CHANNEL_CFM: u16 = 0x0011;
pub const MM_SET_IDLE_REQ: u16 = 0x0022;
pub const MM_SET_IDLE_CFM: u16 = 0x0023;
pub const MM_KEY_ADD_REQ: u16 = 0x0024;
pub const MM_KEY_ADD_CFM: u16 = 0x0025;
pub const MM_KEY_DEL_REQ: u16 = 0x0026;
pub const MM_KEY_DEL_CFM: u16 = 0x0027;
pub const MM_SET_RF_CONFIG_REQ: u16 = 0x0067;
pub const MM_SET_RF_CONFIG_CFM: u16 = 0x0068;
pub const MM_SET_RF_CALIB_REQ: u16 = 0x0069;
pub const MM_SET_RF_CALIB_CFM: u16 = 0x006A;
pub const MM_GET_MAC_ADDR_REQ: u16 = 0x0073;
pub const MM_GET_MAC_ADDR_CFM: u16 = 0x0074;
pub const MM_SET_TXPWR_IDX_LVL_REQ: u16 = 0x0077;
pub const MM_SET_TXPWR_IDX_LVL_CFM: u16 = 0x0078;
pub const MM_SET_TXPWR_OFST_REQ: u16 = 0x0079;
pub const MM_SET_TXPWR_OFST_CFM: u16 = 0x007A;
pub const MM_SET_STACK_START_REQ: u16 = 0x007B;
pub const MM_SET_STACK_START_CFM: u16 = 0x007C;

// SCANU messages (TASK_SCANU).
pub const SCANU_START_REQ: u16 = 0x1000;
pub const SCANU_START_CFM: u16 = 0x1001;
pub const SCANU_RESULT_IND: u16 = 0x1004;
/// Sent when a scan has completed; the scan request waits for it.
pub const SCANU_START_CFM_ADDTIONAL: u16 = 0x1009;

// ME messages (TASK_ME).
pub const ME_CONFIG_REQ: u16 = 0x1400;
pub const ME_CONFIG_CFM: u16 = 0x1401;
pub const ME_CHAN_CONFIG_REQ: u16 = 0x1402;
pub const ME_CHAN_CONFIG_CFM: u16 = 0x1403;
pub const ME_SET_CONTROL_PORT_REQ: u16 = 0x1404;
pub const ME_SET_CONTROL_PORT_CFM: u16 = 0x1405;

// SM messages (TASK_SM).
pub const SM_CONNECT_REQ: u16 = 0x1800;
pub const SM_CONNECT_CFM: u16 = 0x1801;
pub const SM_CONNECT_IND: u16 = 0x1802;
pub const SM_DISCONNECT_REQ: u16 = 0x1803;
pub const SM_DISCONNECT_CFM: u16 = 0x1804;
pub const SM_DISCONNECT_IND: u16 = 0x1805;

// Interface types.
pub const MM_STA: u8 = 0;
pub const MM_IBSS: u8 = 1;
pub const MM_AP: u8 = 2;

// Channel bandwidths.
pub const PHY_CHNL_BW_20: u8 = 0;
pub const PHY_CHNL_BW_40: u8 = 1;
pub const PHY_CHNL_BW_80: u8 = 2;

/// Command timeout in milliseconds.
pub const CMD_TIMEOUT_MS: u64 = 6000;
/// Dummy word after the SDIO header of host-to-chip frames.
pub const DUMMY_WORD_LEN: usize = 4;
/// Tail added before block rounding.
pub const TAIL_LEN: usize = 4;
/// Timeout used when a command is given none.
pub const CMD_TX_TIMEOUT_DEFAULT_MS: u64 = 5000;

// Scan request layout.
pub const SCAN_CHANNEL_MAX: usize = 42;
pub const MAC_CHAN_DEF_SIZE: usize = 5;
pub const SCAN_SSID_MAX: usize = 3;
pub const MAC_SSID_SIZE: usize = 33;
pub const MAC_SSID_LEN: usize = 32;
pub const MAC_ADDR_SIZE: usize = 6;
pub const SCANU_START_REQ_SIZE: usize = 329;
/// Longest key in a key installation request.
pub const MAC_SEC_KEY_LEN: usize = 32;

/// Command errors.
#[derive(Debug, Clone, Copy, PartialEq, Eq, Structural)]
pub enum CmdError {
    Timeout,
    BusDown,
    SdioError,
    InvalidResponse,
    MismatchedCfm { expected: u16, got: u16 },
    FirmwareError,
}

/// The 2.4 GHz channel centre frequencies (channels 1 to 14) in MHz.
pub open spec fn chan_2g4_freq_table() -> Seq<u16> {
    seq![2412u16, 2417, 2422, 2427, 2432, 2437, 2442, 2447, 2452, 2457, 2462, 2467, 2472, 2484]
}

/// The 2.4 GHz channel centre frequencies (channels 1 to 14) in MHz.
pub fn chan_2g4_freqs() -> (t: [u16; 14])
    ensures
        t@ == chan_2g4_freq_table(),
{
    let t: [u16; 14] = [2412, 2417, 2422, 2427, 2432, 2437, 2442, 2447, 2452, 2457, 2462, 2467, 2472, 2484];
    assert(t@ =~= chan_2g4_freq_table());
    t
}

} // verus!
