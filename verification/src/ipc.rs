//! IPC message transport to the chip's debug (DBG) and MAC management (MM)
//! tasks over SDIO function 1: frame building, flow control, confirmation
//! polling and the high-level memory/boot/version requests.

use vstd::prelude::*;

pub use crate::lmac_msg::{MM_GET_MAC_ADDR_REQ, MM_RESET_REQ, MM_SET_STACK_START_REQ, MM_VERSION_REQ};

use crate::chip_id::{
    ChipVariant, DRV_TASK_ID, SDIO_TYPE_CFG_CMD_RSP, SDIOWIFI_BLOCK_CNT_REG,
    SDIOWIFI_FLOW_CTRL_REG, SDIOWIFI_RD_FIFO_ADDR, SDIOWIFI_WR_FIFO_ADDR,
};
use crate::crypto::copy_into;
use crate::eapol::zeros;
use crate::sdio::{SdioError, SdioHost};

verus! {

/// First message ID of the debug task (`TASK_DBG << 10`).
pub const LMAC_FIRST_DBG: u16 = 0x0400;
/// MM_GET_FW_VERSION_REQ: the firmware version string.
pub const MM_GET_FW_VERSION_REQ: u16 = 0x0080;

/// Largest frame: 8 (transport) + 8 (lmac_msg header) + 1032 (block write) rounded to blocks.
pub const MSG_BUF_MAX: usize = 1536;
/// Offset of the confirmation payload in a response: transport (4) + dummy (4) + lmac header (8).
pub const CFM_PAYLOAD_OFFSET: usize = 16;
/// Flow-control polls before giving up.
pub const FLOW_CTRL_RETRIES: u32 = 50;
/// Block-count polls before giving up on a confirmation.
pub const RESPONSE_RETRIES: u32 = 5000;
/// FIFO read errors tolerated while waiting for a confirmation.
pub const READ_ERROR_RETRIES: u32 = 5;

/// One `core::hint::spin_loop` hint: a pause that changes no value.
#[verifier::external_body]
fn cpu_relax() {
    core::hint::spin_loop();
}

/// Busy-waits for `n` spin-loop hints.
pub fn spin_wait(n: u32) {
    let mut i: u32 = 0;
    while i < n
        invariant
            i <= n,
        decreases n - i,
    {
        cpu_relax();
        i = i + 1;
    }
}

// ------------------------------------------------------------------
// Little-endian encodings
// ------------------------------------------------------------------

/// Two little-endian bytes of `x`.
pub open spec fn le16(x: u16) -> Seq<u8> {
    seq![(x % 256) as u8, (x / 256) as u8]
}

/// Four little-endian bytes of `x`.
pub open spec fn le32(x: u32) -> Seq<u8> {
    seq![(x % 256) as u8, ((x / 256) % 256) as u8, ((x / 65536) % 256) as u8, (x / 16777216) as u8]
}

/// The little-endian `u16` at `s[i..i + 2]`.
pub open spec fn le16_at(s: Seq<u8>, i: int) -> u16 {
    (s[i] + 256 * s[i + 1]) as u16
}

/// The little-endian `u32` at `s[i..i + 4]`.
pub open spec fn le32_at(s: Seq<u8>, i: int) -> u32 {
    (s[i] + 256 * s[i + 1] + 65536 * s[i + 2] + 16777216 * s[i + 3]) as u32
}

/// `x.to_le_bytes()` for `u16`.
pub fn u16_to_le(x: u16) -> (b: [u8; 2])
    ensures
        b@ == le16(x),
{
    let b = [(x % 256) as u8, (x / 256) as u8];
    assert(b@ =~= le16(x));
    b
}

/// `x.to_le_bytes()` for `u32`.
pub fn u32_to_le(x: u32) -> (b: [u8; 4])
    ensures
        b@ == le32(x),
{
    let b = [(x % 256) as u8, ((x / 256) % 256) as u8, ((x / 65536) % 256) as u8, (x / 16777216) as u8];
    assert(b@ =~= le32(x));
    b
}

/// `u16::from_le_bytes` of `s[i..i + 2]`.
pub fn u16_from_le(s: &[u8], i: usize) -> (x: u16)
    requires
        i + 2 <= s@.len(),
    ensures
        x == le16_at(s@, i as int),
{
    s[i] as u16 + 256 * (s[i + 1] as u16)
}

/// `u32::from_le_bytes` of `s[i..i + 4]`.
pub fn u32_from_le(s: &[u8], i: usize) -> (x: u32)
    requires
        i + 4 <= s@.len(),
    ensures
        x == le32_at(s@, i as int),
{
    s[i] as u32 + 256 * (s[i + 1] as u32) + 65536 * (s[i + 2] as u32) + 16777216 * (s[i + 3] as u32)
}

/// Appends `n` zero bytes to `v`.
pub fn push_zeros(v: &mut Vec<u8>, n: usize)
    ensures
        final(v)@ == old(v)@ + zeros(n as nat),
{
    let ghost start = v@;
    let mut i: usize = 0;
    while i < n
        invariant
            i <= n,
            v@ == start + zeros(i as nat),
        decreases n - i,
    {
        v.push(0);
        i = i + 1;
        assert(zeros(i as nat) =~= zeros((i - 1) as nat).push(0));
    }
}

/// Appends both bytes of `b` to `v`.
pub fn push2(v: &mut Vec<u8>, b: [u8; 2])
    ensures
        final(v)@ == old(v)@ + b@,
{
    v.push(b[0]);
    v.push(b[1]);
    assert(v@ =~= old(v)@ + b@);
}

/// Appends the four bytes of `b` to `v`.
pub fn push4(v: &mut Vec<u8>, b: [u8; 4])
    ensures
        final(v)@ == old(v)@ + b@,
{
    v.push(b[0]);
    v.push(b[1]);
    v.push(b[2]);
    v.push(b[3]);
    assert(v@ =~= old(v)@ + b@);
}

// ------------------------------------------------------------------
// Debug message IDs
// ------------------------------------------------------------------

/// Messages of the chip's debug task.
#[derive(Debug, Clone, Copy, PartialEq, Eq, Structural)]
pub enum DbgMsgId {
    MemReadReq,
    MemReadCfm,
    MemWriteReq,
    MemWriteCfm,
    SetModFilterReq,
    SetModFilterCfm,
    SetSevFilterReq,
    SetSevFilterCfm,
    ErrorInd,
    GetSysStatReq,
    GetSysStatCfm,
    MemBlockWriteReq,
    MemBlockWriteCfm,
    StartAppReq,
    StartAppCfm,
    StartNpcReq,
    StartNpcCfm,
    MemMaskWriteReq,
    MemMaskWriteCfm,
}

impl DbgMsgId {
    /// Position of the message in the debug task's message list.
    pub open spec fn ordinal(self) -> u16 {
        match self {
            DbgMsgId::MemReadReq => 0,
            DbgMsgId::MemReadCfm => 1,
            DbgMsgId::MemWriteReq => 2,
            DbgMsgId::MemWriteCfm => 3,
            DbgMsgId::SetModFilterReq => 4,
            DbgMsgId::SetModFilterCfm => 5,
            DbgMsgId::SetSevFilterReq => 6,
            DbgMsgId::SetSevFilterCfm => 7,
            DbgMsgId::ErrorInd => 8,
            DbgMsgId::GetSysStatReq => 9,
            DbgMsgId::GetSysStatCfm => 10,
            DbgMsgId::MemBlockWriteReq => 11,
            DbgMsgId::MemBlockWriteCfm => 12,
            DbgMsgId::StartAppReq => 13,
            DbgMsgId::StartAppCfm => 14,
            DbgMsgId::StartNpcReq => 15,
            DbgMsgId::StartNpcCfm => 16,
            DbgMsgId::MemMaskWriteReq => 17,
            DbgMsgId::MemMaskWriteCfm => 18,
        }
    }

    /// The LMAC message ID: `0x0400` plus the message's position.
    pub fn msg_id(self) -> (id: u16)
        ensures
            id == LMAC_FIRST_DBG + self.ordinal(),
    {
        LMAC_FIRST_DBG + match self {
            DbgMsgId::MemReadReq => 0,
            DbgMsgId::MemReadCfm => 1,
            DbgMsgId::MemWriteReq => 2,
            DbgMsgId::MemWriteCfm => 3,
            DbgMsgId::SetModFilterReq => 4,
            DbgMsgId::SetModFilterCfm => 5,
            DbgMsgId::SetSevFilterReq => 6,
            DbgMsgId::SetSevFilterCfm => 7,
            DbgMsgId::ErrorInd => 8,
            DbgMsgId::GetSysStatReq => 9,
            DbgMsgId::GetSysStatCfm => 10,
            DbgMsgId::MemBlockWriteReq => 11,
            DbgMsgId::MemBlockWriteCfm => 12,
            DbgMsgId::StartAppReq => 13,
            DbgMsgId::StartAppCfm => 14,
            DbgMsgId::StartNpcReq => 15,
            DbgMsgId::StartNpcCfm => 16,
            DbgMsgId::MemMaskWriteReq => 17,
            DbgMsgId::MemMaskWriteCfm => 18,
        }
    }
}

// ------------------------------------------------------------------
// CRC-8, polynomial 0x107 (x^8 + x^2 + x + 1)
// ------------------------------------------------------------------

/// One bit of the CRC: shift, reduce by 0x07 when the top bit falls out,
/// then fold in the message bit.
pub open spec fn crc8_bit(crc: u8, bit: bool) -> u8 {
    let shifted: u8 = if crc & 0x80 != 0 { (crc << 1u8) ^ 0x07 } else { crc << 1u8 };
    if bit { shifted ^ 0x07 } else { shifted }
}

/// The CRC after the first `n` bits of `byte`, most significant first.
pub open spec fn crc8_bits(crc: u8, byte: u8, n: nat) -> u8
    decreases n,
{
    if n == 0 {
        crc
    } else {
        crc8_bit(crc8_bits(crc, byte, (n - 1) as nat), byte & (0x80u8 >> ((n - 1) as u8)) != 0)
    }
}

/// CRC-8/0x107 of `data`, starting from 0.
pub open spec fn crc8_spec(data: Seq<u8>) -> u8
    decreases data.len(),
{
    if data.len() == 0 {
        0
    } else {
        crc8_bits(crc8_spec(data.drop_last()), data.last(), 8)
    }
}

/// CRC-8 with polynomial 0x107, used by the D80/D80X2 transport header.
pub fn crc8_ponl_107(data: &[u8]) -> (crc: u8)
    ensures
        crc == crc8_spec(data@),
{
    let mut crc: u8 = 0;
    let mut i: usize = 0;
    while i < data.len()
        invariant
            i <= data.len(),
            crc == crc8_spec(data@.take(i as int)),
        decreases data.len() - i,
    {
        let byte = data[i];
        let ghost start = crc;
        let mut k: u8 = 0;
        while k < 8
            invariant
                k <= 8,
                crc == crc8_bits(start, byte, k as nat),
            decreases 8 - k,
        {
            let mask: u8 = 0x80u8 >> k;
            if crc & 0x80 != 0 {
                crc = (crc << 1u8) ^ 0x07;
            } else {
                crc = crc << 1u8;
            }
            if byte & mask != 0 {
                crc = crc ^ 0x07;
            }
            k = k + 1;
        }
        assert(data@.take(i + 1).drop_last() =~= data@.take(i as int));
        i = i + 1;
    }
    assert(data@.take(data.len() as int) =~= data@);
    crc
}

/// `a` and `b` combined byte by byte with exclusive or.
pub open spec fn xor_bytes(a: Seq<u8>, b: Seq<u8>) -> Seq<u8> {
    Seq::new(a.len(), |i: int| a[i] ^ b[i])
}

proof fn lemma_crc8_bits_linear(c1: u8, c2: u8, b1: u8, b2: u8, n: nat)
    requires
        n <= 8,
    ensures
        crc8_bits(c1 ^ c2, b1 ^ b2, n) == crc8_bits(c1, b1, n) ^ crc8_bits(c2, b2, n),
    decreases n,
{
    if n > 0 {
        lemma_crc8_bits_linear(c1, c2, b1, b2, (n - 1) as nat);
        let k = (n - 1) as u8;
        let x1 = crc8_bits(c1, b1, (n - 1) as nat);
        let x2 = crc8_bits(c2, b2, (n - 1) as nat);
        let p1 = b1 & (0x80u8 >> k) != 0;
        let p2 = b2 & (0x80u8 >> k) != 0;
        assert(((b1 ^ b2) & (0x80u8 >> k) != 0) == (p1 != p2)) by (bit_vector)
            requires
                k < 8,
                p1 == (b1 & (0x80u8 >> k) != 0),
                p2 == (b2 & (0x80u8 >> k) != 0),
        ;
        assert(crc8_bit(x1 ^ x2, p1 != p2) == crc8_bit(x1, p1) ^ crc8_bit(x2, p2)) by (bit_vector);
    }
}

/// CRC-8/0x107 is linear: the CRC of two messages of one length combined
/// by exclusive or is the exclusive or of their CRCs.
pub proof fn law_crc8_linear(a: Seq<u8>, b: Seq<u8>)
    requires
        a.len() == b.len(),
    ensures
        crc8_spec(xor_bytes(a, b)) == crc8_spec(a) ^ crc8_spec(b),
    decreases a.len(),
{
    if a.len() > 0 {
        let x = xor_bytes(a, b);
        assert(x.drop_last() =~= xor_bytes(a.drop_last(), b.drop_last()));
        law_crc8_linear(a.drop_last(), b.drop_last());
        lemma_crc8_bits_linear(crc8_spec(a.drop_last()), crc8_spec(b.drop_last()), a.last(), b.last(), 8);
    } else {
        assert(0u8 ^ 0u8 == 0u8) by (bit_vector);
    }
}

/// Running a CRC state `c` through its own byte leaves zero.
proof fn lemma_crc8_self(c: u8)
    ensures
        crc8_bits(c, c, 8) == 0,
{
    reveal_with_fuel(crc8_bits, 9);
    let c1 = crc8_bit(c, c & (0x80u8 >> 0u8) != 0);
    let c2 = crc8_bit(c1, c & (0x80u8 >> 1u8) != 0);
    let c3 = crc8_bit(c2, c & (0x80u8 >> 2u8) != 0);
    let c4 = crc8_bit(c3, c & (0x80u8 >> 3u8) != 0);
    let c5 = crc8_bit(c4, c & (0x80u8 >> 4u8) != 0);
    let c6 = crc8_bit(c5, c & (0x80u8 >> 5u8) != 0);
    let c7 = crc8_bit(c6, c & (0x80u8 >> 6u8) != 0);
    let c8 = crc8_bit(c7, c & (0x80u8 >> 7u8) != 0);
    assert(c8 == 0) by (bit_vector)
        requires
            c1 == crc8_bit(c, c & (0x80u8 >> 0u8) != 0),
            c2 == crc8_bit(c1, c & (0x80u8 >> 1u8) != 0),
            c3 == crc8_bit(c2, c & (0x80u8 >> 2u8) != 0),
            c4 == crc8_bit(c3, c & (0x80u8 >> 3u8) != 0),
            c5 == crc8_bit(c4, c & (0x80u8 >> 4u8) != 0),
            c6 == crc8_bit(c5, c & (0x80u8 >> 5u8) != 0),
            c7 == crc8_bit(c6, c & (0x80u8 >> 6u8) != 0),
            c8 == crc8_bit(c7, c & (0x80u8 >> 7u8) != 0),
    ;
    assert(crc8_bits(c, c, 1) == c1);
    assert(crc8_bits(c, c, 2) == c2);
    assert(crc8_bits(c, c, 3) == c3);
    assert(crc8_bits(c, c, 4) == c4);
    assert(crc8_bits(c, c, 5) == c5);
    assert(crc8_bits(c, c, 6) == c6);
    assert(crc8_bits(c, c, 7) == c7);
    assert(crc8_bits(c, c, 8) == c8);
}

/// The CRC-8/0x107 residue: a message followed by its own CRC has CRC zero.
pub proof fn law_crc8_residue(data: Seq<u8>)
    ensures
        crc8_spec(data.push(crc8_spec(data))) == 0,
{
    assert(data.push(crc8_spec(data)).drop_last() =~= data);
    lemma_crc8_self(crc8_spec(data));
}

// ------------------------------------------------------------------
// Frame layout
// ------------------------------------------------------------------

/// Payload lengths whose frame fits the 1536-byte message buffer.
pub open spec fn payload_fits(len: nat) -> bool {
    len <= 1512 || (1517 <= len <= 1520)
}

/// Bytes sent for a payload of `plen` bytes: the 16-byte headers plus
/// payload, aligned to 4; when that is not a multiple of 512, a 4-byte tail
/// is added and the result is rounded past the next 512-byte boundary.
pub open spec fn ipc_send_len(plen: nat) -> nat {
    let a4 = (16 + plen + 3) / 4 * 4;
    if a4 % 512 != 0 {
        ((a4 + 4) / 512 + 1) * 512
    } else {
        a4
    }
}

/// Whether the chip's transport header carries a CRC-8 (D80 and D80X2).
pub open spec fn uses_header_crc(chip: ChipVariant) -> bool {
    chip == ChipVariant::Aic8800D80 || chip == ChipVariant::Aic8800D80X2
}

/// The 4-byte SDIO transport header: 12-bit length of the lmac message plus
/// header, the CMD_RSP type, and the CRC byte (0 where the chip has none).
pub open spec fn transport_header(chip: ChipVariant, plen: nat) -> Seq<u8> {
    let total = 12 + plen;
    let h = seq![(total % 256) as u8, ((total / 256) % 16) as u8, SDIO_TYPE_CFG_CMD_RSP];
    h.push(if uses_header_crc(chip) { crc8_spec(h) } else { 0u8 })
}

/// The lmac_msg header: ID, destination task (`id >> 10`), source task and
/// parameter length, each little-endian.
pub open spec fn lmac_msg_header(id: u16, plen: nat) -> Seq<u8> {
    le16(id) + le16(id / 1024) + le16(DRV_TASK_ID) + le16(plen as u16)
}

/// The complete frame written to the FIFO for message `id` with `payload`.
pub open spec fn ipc_frame(chip: ChipVariant, id: u16, payload: Seq<u8>) -> Seq<u8> {
    let body = transport_header(chip, payload.len()) + zeros(4) + lmac_msg_header(id, payload.len()) + payload;
    body + zeros((ipc_send_len(payload.len()) - body.len()) as nat)
}

/// Computes `ipc_send_len`.
fn send_len_of(plen: usize) -> (n: usize)
    requires
        payload_fits(plen as nat),
    ensures
        n == ipc_send_len(plen as nat),
        16 + plen <= n <= MSG_BUF_MAX,
        n % 512 == 0,
{
    let raw_len = 16 + plen;
    let aligned4 = (raw_len + 3) / 4 * 4;
    if aligned4 % 512 != 0 {
        let with_tail = aligned4 + 4;
        (with_tail / 512 + 1) * 512
    } else {
        aligned4
    }
}

/// Builds the frame for message `id` with `payload`.
pub fn build_frame(chip: ChipVariant, msg_id: u16, payload: &[u8]) -> (frame: Vec<u8>)
    requires
        payload_fits(payload@.len()),
    ensures
        frame@ == ipc_frame(chip, msg_id, payload@),
        frame@.len() == ipc_send_len(payload@.len()),
        frame@.len() <= MSG_BUF_MAX,
{
    let plen = payload.len();
    let total = 12 + plen;
    let hdr: [u8; 3] = [(total % 256) as u8, ((total / 256) % 16) as u8, SDIO_TYPE_CFG_CMD_RSP];
    let crc: u8 = match chip {
        ChipVariant::Aic8800D80 | ChipVariant::Aic8800D80X2 => crc8_ponl_107(&hdr),
        _ => 0,
    };
    let mut frame: Vec<u8> = Vec::new();
    frame.push(hdr[0]);
    frame.push(hdr[1]);
    frame.push(hdr[2]);
    frame.push(crc);
    assert(frame@ =~= transport_header(chip, plen as nat));
    push_zeros(&mut frame, 4);
    push2(&mut frame, u16_to_le(msg_id));
    push2(&mut frame, u16_to_le(msg_id / 1024));
    push2(&mut frame, u16_to_le(DRV_TASK_ID));
    push2(&mut frame, u16_to_le(plen as u16));
    let ghost hdrs = frame@;
    assert(hdrs =~= transport_header(chip, plen as nat) + zeros(4) + lmac_msg_header(msg_id, plen as nat));
    crate::crypto::append_bytes(&mut frame, payload);
    let send_len = send_len_of(plen);
    let cur = frame.len();
    push_zeros(&mut frame, send_len - cur);
    frame
}

// ------------------------------------------------------------------
// Transport
// ------------------------------------------------------------------

/// The confirmation ID a request `id` is answered with.
pub open spec fn cfm_id_of(id: u16) -> int {
    id + 1
}

/// A response read from the FIFO answers request `id`: whole blocks of
/// 512 bytes, at most the message buffer, whose lmac header carries `id + 1`.
pub open spec fn answers(rx: Seq<u8>, id: u16) -> bool {
    &&& 512 <= rx.len() <= MSG_BUF_MAX
    &&& rx.len() % 512 == 0
    &&& le16_at(rx, 4) == cfm_id_of(id)
}

/// Number of confirmation bytes copied into a buffer of `cap` bytes from a
/// response of `rx_len` bytes.
pub open spec fn cfm_copy_len(cap: nat, rx_len: nat) -> nat {
    let avail = if rx_len >= 16 { (rx_len - 16) as nat } else { 0 };
    if cap < avail { cap } else { avail }
}

/// `cfm` after the first `n` confirmation bytes of `rx` were copied into it.
pub open spec fn with_cfm(cfm: Seq<u8>, rx: Seq<u8>, n: nat) -> Seq<u8> {
    rx.subrange(16, 16 + n as int) + cfm.subrange(n as int, cfm.len() as int)
}

/// One call the transport made to the SDIO host, with what it returned.
pub enum HostEvent {
    /// A function-1 register read.
    ReadByte { addr: u32, result: Result<u8, SdioError> },
    /// A function-1 register write of `val`.
    WriteByte { addr: u32, val: u8, result: Result<(), SdioError> },
    /// A write of `data` to the write FIFO.
    WriteFifo { data: Seq<u8>, result: Result<(), SdioError> },
    /// A read of `len` bytes from the read FIFO: the bytes on success.
    ReadFifo { len: nat, result: Result<Seq<u8>, SdioError> },
}

/// Where a message exchange stands after the host calls made so far.
pub enum SendPhase {
    /// Waiting for flow-control credit; `polls` reads without credit so far.
    FlowCtrl { polls: nat },
    /// Credit seen; the frame is written next.
    Write,
    /// Waiting for the confirmation: block-count reads without data
    /// (`retries`) and failed FIFO reads (`read_errors`) so far.
    Poll { retries: nat, read_errors: nat },
    /// The block count announced `len` bytes; the FIFO read comes next.
    Read { retries: nat, read_errors: nat, len: nat },
    /// The exchange is over with this result.
    Done { result: Result<usize, SdioError> },
    /// The calls do not follow the protocol.
    Invalid,
}

/// What an exchange is about: the frame to write, whether a confirmation is
/// awaited, its ID, and the size of the confirmation buffer.
pub struct SendCtx {
    pub frame: Seq<u8>,
    pub wait_cfm: bool,
    pub cfm_id: int,
    pub cap: nat,
}

/// The exchange of message `id` with `payload` on `chip`.
pub open spec fn send_ctx(chip: ChipVariant, id: u16, payload: Seq<u8>, wait_cfm: bool, cap: nat) -> SendCtx {
    SendCtx { frame: ipc_frame(chip, id, payload), wait_cfm, cfm_id: cfm_id_of(id), cap }
}

/// A block-count read that brought no data: one more retry, `Timeout`
/// past 5000.
pub open spec fn poll_miss(retries: nat, read_errors: nat) -> SendPhase {
    if retries + 1 > RESPONSE_RETRIES {
        SendPhase::Done { result: Err(SdioError::Timeout) }
    } else {
        SendPhase::Poll { retries: retries + 1, read_errors }
    }
}

/// Bytes read for a block count of `c`: whole 512-byte blocks, at most the
/// message buffer.
pub open spec fn fifo_read_len(c: u8) -> nat {
    if 512 * c < MSG_BUF_MAX { (512 * c) as nat } else { MSG_BUF_MAX as nat }
}

/// The message exchange protocol, one host call at a time.  Flow control:
/// a read error ends the exchange with that error; credit (bits 0..7
/// non-zero) moves on to the write; the 51st read without credit gives
/// `Timeout`.  The write must carry the frame; its error is returned;
/// without a confirmation to wait for, success gives `Ok(0)`.  Waiting: a
/// block-count read error is returned; a count with the other-interrupt bit
/// or zero is a miss; otherwise the FIFO is read.  A FIFO read error is
/// tolerated five times, the sixth is returned; a response with another
/// confirmation ID gives `CrcError`; the awaited one gives the number of
/// parameter bytes copied.
pub open spec fn send_step(ctx: SendCtx, p: SendPhase, e: HostEvent) -> SendPhase {
    match p {
        SendPhase::FlowCtrl { polls } => match e {
            HostEvent::ReadByte { addr, result } => if addr != SDIOWIFI_FLOW_CTRL_REG {
                SendPhase::Invalid
            } else {
                match result {
                    Err(x) => SendPhase::Done { result: Err(x) },
                    Ok(v) => if v & 0x7Fu8 != 0 {
                        SendPhase::Write
                    } else if polls + 1 > FLOW_CTRL_RETRIES {
                        SendPhase::Done { result: Err(SdioError::Timeout) }
                    } else {
                        SendPhase::FlowCtrl { polls: polls + 1 }
                    },
                }
            },
            _ => SendPhase::Invalid,
        },
        SendPhase::Write => match e {
            HostEvent::WriteFifo { data, result } => if data != ctx.frame {
                SendPhase::Invalid
            } else {
                match result {
                    Err(x) => SendPhase::Done { result: Err(x) },
                    Ok(_) => if ctx.wait_cfm {
                        SendPhase::Poll { retries: 0, read_errors: 0 }
                    } else {
                        SendPhase::Done { result: Ok(0) }
                    },
                }
            },
            _ => SendPhase::Invalid,
        },
        SendPhase::Poll { retries, read_errors } => match e {
            HostEvent::ReadByte { addr, result } => if addr != SDIOWIFI_BLOCK_CNT_REG {
                SendPhase::Invalid
            } else {
                match result {
                    Err(x) => SendPhase::Done { result: Err(x) },
                    Ok(c) => if c & 0x80u8 == 0 && c > 0 {
                        SendPhase::Read { retries, read_errors, len: fifo_read_len(c) }
                    } else {
                        poll_miss(retries, read_errors)
                    },
                }
            },
            _ => SendPhase::Invalid,
        },
        SendPhase::Read { retries, read_errors, len } => match e {
            HostEvent::ReadFifo { len: l, result } => if l != len {
                SendPhase::Invalid
            } else {
                match result {
                    Ok(data) => if le16_at(data, 4) != ctx.cfm_id {
                        SendPhase::Done { result: Err(SdioError::CrcError) }
                    } else {
                        SendPhase::Done { result: Ok(cfm_copy_len(ctx.cap, len) as usize) }
                    },
                    Err(x) => if read_errors + 1 > READ_ERROR_RETRIES {
                        SendPhase::Done { result: Err(x) }
                    } else {
                        SendPhase::Poll { retries, read_errors: read_errors + 1 }
                    },
                }
            },
            _ => SendPhase::Invalid,
        },
        _ => SendPhase::Invalid,
    }
}

/// Where an exchange stands after the host calls `ev`.
pub open spec fn send_run(ctx: SendCtx, ev: Seq<HostEvent>) -> SendPhase
    decreases ev.len(),
{
    if ev.len() == 0 {
        SendPhase::FlowCtrl { polls: 0 }
    } else {
        send_step(ctx, send_run(ctx, ev.drop_last()), ev.last())
    }
}

/// `after` extends the call log `before`.
pub open spec fn extends(before: Seq<HostEvent>, after: Seq<HostEvent>) -> bool {
    before.len() <= after.len() && after.subrange(0, before.len() as int) == before
}

/// The host calls made since the log was `before`.
pub open spec fn calls_since(before: Seq<HostEvent>, after: Seq<HostEvent>) -> Seq<HostEvent> {
    after.subrange(before.len() as int, after.len() as int)
}

/// The outcome of one exchange of message `id` with `payload`, awaiting a
/// confirmation into a buffer of `cap` bytes, over the calls from `before`
/// to `after`.
pub open spec fn exchange(chip: ChipVariant, id: u16, payload: Seq<u8>, cap: nat, before: Seq<HostEvent>,
    after: Seq<HostEvent>) -> SendPhase {
    send_run(send_ctx(chip, id, payload, true, cap), calls_since(before, after))
}

/// The last host call from `before` to `after` was a FIFO read that
/// returned `rx`.
#[verifier::opaque]
pub open spec fn read_back(before: Seq<HostEvent>, after: Seq<HostEvent>, rx: Seq<u8>) -> bool {
    &&& calls_since(before, after).len() > 0
    &&& calls_since(before, after).last() == (HostEvent::ReadFifo { len: rx.len(), result: Ok(rx) })
}

/// `r` is what the exchange gave: success when it succeeded, its error
/// unchanged when it failed.
pub open spec fn passes<T>(r: Result<T, SdioError>, o: SendPhase) -> bool {
    match o {
        SendPhase::Done { result: Ok(_) } => r is Ok,
        SendPhase::Done { result: Err(e) } => r == Err::<T, SdioError>(e),
        _ => false,
    }
}

/// A response that carries another confirmation ID than the one awaited
/// ends the exchange with `CrcError`.
pub proof fn law_wrong_confirmation_is_crc_error(ctx: SendCtx, ev: Seq<HostEvent>, data: Seq<u8>)
    requires
        send_run(ctx, ev) matches SendPhase::Read { .. },
        le16_at(data, 4) != ctx.cfm_id,
    ensures
        send_run(ctx, ev.push(HostEvent::ReadFifo { len: send_run(ctx, ev)->Read_len, result: Ok(data) }))
            == (SendPhase::Done { result: Err::<usize, SdioError>(SdioError::CrcError) }),
{
    assert(ev.push(HostEvent::ReadFifo { len: send_run(ctx, ev)->Read_len, result: Ok(data) }).drop_last() =~= ev);
}

/// A failed register read or FIFO write ends the exchange with the host's
/// error, unchanged.
pub proof fn law_host_errors_pass_through(ctx: SendCtx, ev: Seq<HostEvent>, e: HostEvent, x: SdioError)
    requires
        (e == (HostEvent::ReadByte { addr: SDIOWIFI_FLOW_CTRL_REG, result: Err(x) })
            && (send_run(ctx, ev) matches SendPhase::FlowCtrl { .. }))
            || (e == (HostEvent::WriteFifo { data: ctx.frame, result: Err(x) }) && send_run(ctx, ev) == SendPhase::Write)
            || (e == (HostEvent::ReadByte { addr: SDIOWIFI_BLOCK_CNT_REG, result: Err(x) })
            && (send_run(ctx, ev) matches SendPhase::Poll { .. })),
    ensures
        send_run(ctx, ev.push(e)) == (SendPhase::Done { result: Err::<usize, SdioError>(x) }),
{
    assert(ev.push(e).drop_last() =~= ev);
}

proof fn lemma_run_push(ctx: SendCtx, before: Seq<HostEvent>, log: Seq<HostEvent>, e: HostEvent)
    requires
        extends(before, log),
    ensures
        extends(before, log.push(e)),
        send_run(ctx, calls_since(before, log.push(e))) == send_step(ctx, send_run(ctx, calls_since(before, log)), e),
{
    let d = calls_since(before, log.push(e));
    assert(d.drop_last() =~= calls_since(before, log));
    assert(d.last() == e);
    assert(log.push(e).subrange(0, before.len() as int) =~= log.subrange(0, before.len() as int));
}

proof fn lemma_run_empty(ctx: SendCtx, log: Seq<HostEvent>)
    ensures
        extends(log, log),
        send_run(ctx, calls_since(log, log)) == (SendPhase::FlowCtrl { polls: 0 }),
{
    assert(calls_since(log, log) =~= Seq::<HostEvent>::empty());
    assert(log.subrange(0, log.len() as int) =~= log);
}

/// Access to function 1 of an SDIO host that keeps a log of every call and
/// its result.
pub struct HostLog<'a, H: SdioHost> {
    host: &'a mut H,
    calls: Ghost<Seq<HostEvent>>,
}

impl<'a, H: SdioHost> HostLog<'a, H> {
    /// Every call made so far, with its result, oldest first.
    pub closed spec fn events(&self) -> Seq<HostEvent> {
        self.calls@
    }

    /// A log over `host` with no calls yet.
    pub fn new(host: &'a mut H) -> (l: Self)
        ensures
            l.events() == Seq::<HostEvent>::empty(),
    {
        HostLog { host, calls: Ghost(Seq::empty()) }
    }

    /// Reads register `addr` of function 1.
    pub fn read_reg(&mut self, addr: u32) -> (r: Result<u8, SdioError>)
        ensures
            final(self).events() == old(self).events().push(HostEvent::ReadByte { addr, result: r }),
    {
        let r = self.host.read_byte(1, addr);
        self.calls = Ghost(self.calls@.push(HostEvent::ReadByte { addr, result: r }));
        r
    }

    /// Writes `val` to register `addr` of function 1.
    pub fn write_reg(&mut self, addr: u32, val: u8) -> (r: Result<(), SdioError>)
        ensures
            final(self).events() == old(self).events().push(HostEvent::WriteByte { addr, val, result: r }),
    {
        let r = self.host.write_byte(1, addr, val);
        self.calls = Ghost(self.calls@.push(HostEvent::WriteByte { addr, val, result: r }));
        r
    }

    /// Writes `data` to the function-1 write FIFO.
    pub fn write_fifo(&mut self, data: &[u8]) -> (r: Result<(), SdioError>)
        ensures
            final(self).events() == old(self).events().push(HostEvent::WriteFifo { data: data@, result: r }),
    {
        let r = self.host.write_fifo(1, SDIOWIFI_WR_FIFO_ADDR, data);
        self.calls = Ghost(self.calls@.push(HostEvent::WriteFifo { data: data@, result: r }));
        r
    }

    /// An IPC transport for `chip` over this log's host that continues its
    /// call log; nothing has been sent yet.
    pub fn transport<'b>(&'b mut self, chip: ChipVariant) -> (t: IpcTransport<'b, H>)
        ensures
            t.variant() == chip,
            t.frames() == Seq::<Seq<u8>>::empty(),
            t.response() == Seq::<u8>::empty(),
            t.host_calls() == old(self).events(),
            final(self).events() == old(self).events(),
    {
        IpcTransport { sdio_host: &mut *self.host, chip, rx_buf: Vec::new(), sent: Ghost(Seq::empty()), calls: Ghost(self.calls@) }
    }

    /// Records the calls that a transport taken from this log made: its
    /// call log `calls` continues this one.
    pub(crate) fn resume(&mut self, calls: Ghost<Seq<HostEvent>>)
        requires
            extends(old(self).events(), calls@),
        ensures
            final(self).events() == calls@,
    {
        self.calls = calls;
    }

    /// Fills `buf` from the function-1 read FIFO.
    pub fn read_fifo(&mut self, buf: &mut [u8]) -> (r: Result<(), SdioError>)
        ensures
            final(buf)@.len() == old(buf)@.len(),
            final(self).events() == old(self).events().push(HostEvent::ReadFifo {
                len: old(buf)@.len(),
                result: match r {
                    Ok(_) => Ok(final(buf)@),
                    Err(e) => Err(e),
                },
            }),
    {
        let r = self.host.read_fifo(1, SDIOWIFI_RD_FIFO_ADDR, buf);
        let ghost ev = HostEvent::ReadFifo {
            len: old(buf)@.len(),
            result: match r {
                Ok(_) => Ok(buf@),
                Err(e) => Err(e),
            },
        };
        self.calls = Ghost(self.calls@.push(ev));
        r
    }
}

/// IPC transport: builds messages, sends them through the SDIO write FIFO
/// and collects confirmations from the read FIFO.
pub struct IpcTransport<'a, H: SdioHost> {
    sdio_host: &'a mut H,
    chip: ChipVariant,
    rx_buf: Vec<u8>,
    sent: Ghost<Seq<Seq<u8>>>,
    calls: Ghost<Seq<HostEvent>>,
}

impl<'a, H: SdioHost> IpcTransport<'a, H> {
    /// The chip variant the frames are built for.
    pub closed spec fn variant(&self) -> ChipVariant {
        self.chip
    }

    /// Every frame handed to the write FIFO so far, oldest first.
    pub closed spec fn frames(&self) -> Seq<Seq<u8>> {
        self.sent@
    }

    /// Every call made to the SDIO host so far, with its result, oldest first.
    pub closed spec fn host_calls(&self) -> Seq<HostEvent> {
        self.calls@
    }

    /// The last response read from the FIFO.
    pub closed spec fn response(&self) -> Seq<u8> {
        self.rx_buf@
    }

    /// The chip variant the frames are built for.
    pub fn chip(&self) -> (c: ChipVariant)
        ensures
            c == self.variant(),
    {
        self.chip
    }

    /// A transport for `chip` over `sdio_host`; nothing has been sent yet.
    pub fn new(sdio_host: &'a mut H, chip: ChipVariant) -> (t: Self)
        ensures
            t.variant() == chip,
            t.frames() == Seq::<Seq<u8>>::empty(),
            t.response() == Seq::<u8>::empty(),
    {
        IpcTransport { sdio_host, chip, rx_buf: Vec::new(), sent: Ghost(Seq::empty()), calls: Ghost(Seq::empty()) }
    }

    /// Waits until the chip's flow-control register allows a write: up to
    /// 51 polls, `Timeout` after that; a read error is returned.
    fn wait_flow_control(&mut self, Ghost(ctx): Ghost<SendCtx>) -> (r: Result<(), SdioError>)
        ensures
            final(self).chip == old(self).chip,
            final(self).sent == old(self).sent,
            final(self).rx_buf@ == old(self).rx_buf@,
            extends(old(self).calls@, final(self).calls@),
            send_run(ctx, calls_since(old(self).calls@, final(self).calls@)) == (match r {
                Ok(_) => SendPhase::Write,
                Err(e) => SendPhase::Done { result: Err(e) },
            }),
    {
        let ghost start = self.calls@;
        proof { lemma_run_empty(ctx, start); }
        let mut fc_retry: u32 = 0;
        loop
            invariant
                fc_retry <= FLOW_CTRL_RETRIES,
                self.chip == old(self).chip,
                self.sent == old(self).sent,
                self.rx_buf@ == old(self).rx_buf@,
                start == old(self).calls@,
                extends(start, self.calls@),
                send_run(ctx, calls_since(start, self.calls@)) == (SendPhase::FlowCtrl { polls: fc_retry as nat }),
            decreases FLOW_CTRL_RETRIES - fc_retry,
        {
            let rb = self.sdio_host.read_byte(1, SDIOWIFI_FLOW_CTRL_REG);
            proof { lemma_run_push(ctx, start, self.calls@, HostEvent::ReadByte { addr: SDIOWIFI_FLOW_CTRL_REG, result: rb }); }
            self.calls = Ghost(self.calls@.push(HostEvent::ReadByte { addr: SDIOWIFI_FLOW_CTRL_REG, result: rb }));
            let fc_reg = match rb {
                Ok(v) => v,
                Err(e) => return Err(e),
            };
            if fc_reg & 0x7F != 0 {
                return Ok(());
            }
            fc_retry = fc_retry + 1;
            if fc_retry > FLOW_CTRL_RETRIES {
                return Err(SdioError::Timeout);
            }
            spin_wait(2000);
        }
    }

    /// Sends message `msg_id` with `payload`; with `wait_cfm`, polls for the
    /// confirmation `msg_id + 1` and copies its parameters into `cfm_buf`.
    ///
    /// Returns the number of confirmation bytes copied (0 without
    /// `wait_cfm`).  Host errors are passed on; a confirmation with another
    /// ID gives `CrcError`; flow control or polling running out gives
    /// `Timeout`; more than five failed FIFO reads give the last read error.
    pub fn send_msg_raw(&mut self, msg_id: u16, payload: &[u8], wait_cfm: bool, cfm_buf: &mut [u8]) -> (r: Result<usize, SdioError>)
        requires
            payload_fits(payload@.len()),
            wait_cfm ==> msg_id < 0xFFFF,
        ensures
            final(self).variant() == old(self).variant(),
            final(cfm_buf)@.len() == old(cfm_buf)@.len(),
            extends(old(self).host_calls(), final(self).host_calls()),
            send_run(send_ctx(old(self).variant(), msg_id, payload@, wait_cfm, old(cfm_buf)@.len()),
                calls_since(old(self).host_calls(), final(self).host_calls())) == (SendPhase::Done { result: r }),
            r is Ok && wait_cfm ==> read_back(old(self).host_calls(), final(self).host_calls(), final(self).response()),
            match r {
                Ok(n) => {
                    &&& final(self).frames() == old(self).frames().push(ipc_frame(old(self).variant(), msg_id, payload@))
                    &&& !wait_cfm ==> n == 0 && final(cfm_buf)@ == old(cfm_buf)@ && final(self).response() == old(self).response()
                    &&& wait_cfm ==> {
                        &&& answers(final(self).response(), msg_id)
                        &&& n == cfm_copy_len(old(cfm_buf)@.len(), final(self).response().len())
                        &&& final(cfm_buf)@ == with_cfm(old(cfm_buf)@, final(self).response(), n as nat)
                    }
                },
                Err(_) => {
                    &&& final(cfm_buf)@ == old(cfm_buf)@
                    &&& (final(self).frames() == old(self).frames()
                        || final(self).frames() == old(self).frames().push(ipc_frame(old(self).variant(), msg_id, payload@)))
                },
            },
    {
        let ghost ctx = send_ctx(self.chip, msg_id, payload@, wait_cfm, cfm_buf@.len());
        let ghost start = self.calls@;
        let frame = build_frame(self.chip, msg_id, payload);
        match self.wait_flow_control(Ghost(ctx)) {
            Ok(()) => {},
            Err(e) => return Err(e),
        }
        let wr = self.sdio_host.write_fifo(1, SDIOWIFI_WR_FIFO_ADDR, frame.as_slice());
        self.sent = Ghost(self.sent@.push(frame@));
        proof { lemma_run_push(ctx, start, self.calls@, HostEvent::WriteFifo { data: frame@, result: wr }); }
        self.calls = Ghost(self.calls@.push(HostEvent::WriteFifo { data: frame@, result: wr }));
        match wr {
            Ok(()) => {},
            Err(e) => return Err(e),
        }
        if !wait_cfm {
            return Ok(0);
        }
        let cfm_id: u16 = msg_id + 1;
        let mut retry: u32 = 0;
        let mut read_err_cnt: u32 = 0;
        loop
            invariant
                retry <= RESPONSE_RETRIES,
                read_err_cnt <= READ_ERROR_RETRIES,
                wait_cfm,
                cfm_id == msg_id + 1,
                self.chip == old(self).chip,
                self.sent@ == old(self).sent@.push(ipc_frame(old(self).chip, msg_id, payload@)),
                cfm_buf@ == old(cfm_buf)@,
                ctx == send_ctx(old(self).chip, msg_id, payload@, wait_cfm, old(cfm_buf)@.len()),
                start == old(self).calls@,
                extends(start, self.calls@),
                send_run(ctx, calls_since(start, self.calls@))
                    == (SendPhase::Poll { retries: retry as nat, read_errors: read_err_cnt as nat }),
            decreases RESPONSE_RETRIES - retry, READ_ERROR_RETRIES - read_err_cnt,
        {
            let rb = self.sdio_host.read_byte(1, SDIOWIFI_BLOCK_CNT_REG);
            proof { lemma_run_push(ctx, start, self.calls@, HostEvent::ReadByte { addr: SDIOWIFI_BLOCK_CNT_REG, result: rb }); }
            self.calls = Ghost(self.calls@.push(HostEvent::ReadByte { addr: SDIOWIFI_BLOCK_CNT_REG, result: rb }));
            let raw_cnt = match rb {
                Ok(v) => v,
                Err(e) => return Err(e),
            };
            if raw_cnt & 0x80 != 0 {
                retry = retry + 1;
            } else if raw_cnt > 0 {
                let block_cnt = raw_cnt as usize;
                let read_len: usize = if block_cnt * 512 < MSG_BUF_MAX { block_cnt * 512 } else { MSG_BUF_MAX };
                assert(read_len % 512 == 0 && read_len >= 512) by (nonlinear_arith)
                    requires
                        read_len == (if block_cnt * 512 < 1536 { block_cnt * 512 } else { 1536 }),
                        block_cnt >= 1,
                ;
                assert(read_len == fifo_read_len(raw_cnt));
                let mut rx: Vec<u8> = vec![0u8; read_len];
                let rd = self.sdio_host.read_fifo(1, SDIOWIFI_RD_FIFO_ADDR, rx.as_mut_slice());
                let ghost ev = match rd {
                    Ok(_) => HostEvent::ReadFifo { len: read_len as nat, result: Ok(rx@) },
                    Err(x) => HostEvent::ReadFifo { len: read_len as nat, result: Err(x) },
                };
                proof { lemma_run_push(ctx, start, self.calls@, ev); }
                self.calls = Ghost(self.calls@.push(ev));
                match rd {
                    Ok(()) => {
                        self.rx_buf = rx;
                        let resp_id = u16_from_le(self.rx_buf.as_slice(), 4);
                        if resp_id != cfm_id {
                            return Err(SdioError::CrcError);
                        }
                        let avail = read_len - CFM_PAYLOAD_OFFSET;
                        let cfm_len = if cfm_buf.len() < avail { cfm_buf.len() } else { avail };
                        if cfm_len > 0 {
                            copy_into(cfm_buf, 0, self.rx_buf.as_slice(), CFM_PAYLOAD_OFFSET, cfm_len);
                        }
                        assert(cfm_buf@ =~= with_cfm(old(cfm_buf)@, self.rx_buf@, cfm_len as nat));
                        assert(calls_since(start, self.calls@).last() == self.calls@.last());
                        proof {
                            reveal(read_back);
                        }
                        return Ok(cfm_len);
                    },
                    Err(e) => {
                        read_err_cnt = read_err_cnt + 1;
                        if read_err_cnt > READ_ERROR_RETRIES {
                            return Err(e);
                        }
                        spin_wait(500_000);
                        continue;
                    },
                }
            } else {
                retry = retry + 1;
            }
            if retry > RESPONSE_RETRIES {
                return Err(SdioError::Timeout);
            }
            spin_wait(1000);
        }
    }

    /// Sends debug message `msg_id`; the same protocol as `send_msg_raw`.
    pub fn send_msg(&mut self, msg_id: DbgMsgId, payload: &[u8], wait_cfm: bool, cfm_buf: &mut [u8]) -> (r: Result<usize, SdioError>)
        requires
            payload_fits(payload@.len()),
        ensures
            final(self).variant() == old(self).variant(),
            final(cfm_buf)@.len() == old(cfm_buf)@.len(),
            extends(old(self).host_calls(), final(self).host_calls()),
            send_run(send_ctx(old(self).variant(), (LMAC_FIRST_DBG + msg_id.ordinal()) as u16, payload@, wait_cfm,
                old(cfm_buf)@.len()), calls_since(old(self).host_calls(), final(self).host_calls()))
                == (SendPhase::Done { result: r }),
            r is Ok && wait_cfm ==> read_back(old(self).host_calls(), final(self).host_calls(), final(self).response()),
            match r {
                Ok(n) => {
                    &&& final(self).frames() == old(self).frames().push(
                        ipc_frame(old(self).variant(), (LMAC_FIRST_DBG + msg_id.ordinal()) as u16, payload@))
                    &&& !wait_cfm ==> n == 0 && final(cfm_buf)@ == old(cfm_buf)@ && final(self).response() == old(self).response()
                    &&& wait_cfm ==> {
                        &&& answers(final(self).response(), (LMAC_FIRST_DBG + msg_id.ordinal()) as u16)
                        &&& n == cfm_copy_len(old(cfm_buf)@.len(), final(self).response().len())
                        &&& final(cfm_buf)@ == with_cfm(old(cfm_buf)@, final(self).response(), n as nat)
                    }
                },
                Err(_) => {
                    &&& final(cfm_buf)@ == old(cfm_buf)@
                    &&& (final(self).frames() == old(self).frames()
                        || final(self).frames() == old(self).frames().push(
                            ipc_frame(old(self).variant(), (LMAC_FIRST_DBG + msg_id.ordinal()) as u16, payload@)))
                },
            },
    {
        let id = msg_id.msg_id();
        self.send_msg_raw(id, payload, wait_cfm, cfm_buf)
    }
}

// ------------------------------------------------------------------
// Debug-task requests
// ------------------------------------------------------------------

/// The frame of debug request `m` with `payload`.
pub open spec fn dbg_frame(chip: ChipVariant, m: DbgMsgId, payload: Seq<u8>) -> Seq<u8> {
    ipc_frame(chip, (LMAC_FIRST_DBG + m.ordinal()) as u16, payload)
}

/// `after` is `before` with `frame` added.
pub open spec fn one_more(before: Seq<Seq<u8>>, after: Seq<Seq<u8>>, frame: Seq<u8>) -> bool {
    after == before.push(frame)
}

/// `after` is `before`, possibly with `frame` added.
pub open spec fn at_most_one_more(before: Seq<Seq<u8>>, after: Seq<Seq<u8>>, frame: Seq<u8>) -> bool {
    after == before || after == before.push(frame)
}

/// Parameters of DBG_MEM_READ_REQ: the address.
pub open spec fn mem_read_payload(addr: u32) -> Seq<u8> {
    le32(addr)
}

/// Parameters of DBG_MEM_WRITE_REQ: address and value.
pub open spec fn mem_write_payload(addr: u32, data: u32) -> Seq<u8> {
    le32(addr) + le32(data)
}

/// Parameters of DBG_MEM_BLOCK_WRITE_REQ: address, size and the bytes.
pub open spec fn block_write_payload(addr: u32, data: Seq<u8>) -> Seq<u8> {
    le32(addr) + le32(data.len() as u32) + data
}

/// Parameters of DBG_MEM_MASK_WRITE_REQ: address, mask and value.
pub open spec fn mask_write_payload(addr: u32, mask: u32, data: u32) -> Seq<u8> {
    le32(addr) + le32(mask) + le32(data)
}

/// Parameters of DBG_START_APP_REQ: boot address and boot type.
pub open spec fn start_app_payload(boot_addr: u32, boot_type: u32) -> Seq<u8> {
    le32(boot_addr) + le32(boot_type)
}

/// Reads the 32-bit word at `addr` in chip memory (DBG_MEM_READ_REQ).  The
/// value is the second word of the confirmation (`memaddr`, `memdata`).
pub fn ipc_mem_read<H: SdioHost>(transport: &mut IpcTransport<H>, addr: u32) -> (r: Result<u32, SdioError>)
    ensures
        final(transport).variant() == old(transport).variant(),
        extends(old(transport).host_calls(), final(transport).host_calls()),
        passes(r, exchange(old(transport).variant(), (LMAC_FIRST_DBG + DbgMsgId::MemReadReq.ordinal()) as u16, mem_read_payload(addr), 8,
            old(transport).host_calls(), final(transport).host_calls())),
        r is Ok ==> read_back(old(transport).host_calls(), final(transport).host_calls(), final(transport).response()),
        match r {
            Ok(v) => {
                &&& one_more(old(transport).frames(), final(transport).frames(),
                    dbg_frame(old(transport).variant(), DbgMsgId::MemReadReq, mem_read_payload(addr)))
                &&& answers(final(transport).response(), (LMAC_FIRST_DBG + DbgMsgId::MemReadReq.ordinal()) as u16)
                &&& v == le32_at(final(transport).response(), 20)
            },
            Err(_) => at_most_one_more(old(transport).frames(), final(transport).frames(),
                dbg_frame(old(transport).variant(), DbgMsgId::MemReadReq, mem_read_payload(addr))),
        },
{
    let payload = u32_to_le(addr);
    let mut cfm = [0u8; 8];
    match transport.send_msg(DbgMsgId::MemReadReq, &payload, true, &mut cfm) {
        Ok(_) => {},
        Err(e) => return Err(e),
    }
    Ok(u32_from_le(&cfm, 4))
}

/// Writes the 32-bit `data` at `addr` in chip memory (DBG_MEM_WRITE_REQ).
pub fn ipc_mem_write<H: SdioHost>(transport: &mut IpcTransport<H>, addr: u32, data: u32) -> (r: Result<(), SdioError>)
    ensures
        final(transport).variant() == old(transport).variant(),
        extends(old(transport).host_calls(), final(transport).host_calls()),
        passes(r, exchange(old(transport).variant(), (LMAC_FIRST_DBG + DbgMsgId::MemWriteReq.ordinal()) as u16, mem_write_payload(addr, data), 8,
            old(transport).host_calls(), final(transport).host_calls())),
        r is Ok ==> read_back(old(transport).host_calls(), final(transport).host_calls(), final(transport).response()),
        r is Ok ==> one_more(old(transport).frames(), final(transport).frames(),
            dbg_frame(old(transport).variant(), DbgMsgId::MemWriteReq, mem_write_payload(addr, data))),
        r is Err ==> at_most_one_more(old(transport).frames(), final(transport).frames(),
            dbg_frame(old(transport).variant(), DbgMsgId::MemWriteReq, mem_write_payload(addr, data))),
{
    let mut payload: Vec<u8> = Vec::new();
    push4(&mut payload, u32_to_le(addr));
    push4(&mut payload, u32_to_le(data));
    assert(payload@ =~= mem_write_payload(addr, data));
    let mut cfm = [0u8; 8];
    match transport.send_msg(DbgMsgId::MemWriteReq, payload.as_slice(), true, &mut cfm) {
        Ok(_) => Ok(()),
        Err(e) => Err(e),
    }
}

/// Writes up to 1024 bytes at `addr` in chip memory (DBG_MEM_BLOCK_WRITE_REQ).
pub fn ipc_mem_block_write<H: SdioHost>(transport: &mut IpcTransport<H>, addr: u32, data: &[u8]) -> (r: Result<(), SdioError>)
    requires
        data@.len() <= 1024,
    ensures
        final(transport).variant() == old(transport).variant(),
        extends(old(transport).host_calls(), final(transport).host_calls()),
        passes(r, exchange(old(transport).variant(), (LMAC_FIRST_DBG + DbgMsgId::MemBlockWriteReq.ordinal()) as u16, block_write_payload(addr, data@), 4,
            old(transport).host_calls(), final(transport).host_calls())),
        r is Ok ==> read_back(old(transport).host_calls(), final(transport).host_calls(), final(transport).response()),
        r is Ok ==> one_more(old(transport).frames(), final(transport).frames(),
            dbg_frame(old(transport).variant(), DbgMsgId::MemBlockWriteReq, block_write_payload(addr, data@))),
        r is Err ==> at_most_one_more(old(transport).frames(), final(transport).frames(),
            dbg_frame(old(transport).variant(), DbgMsgId::MemBlockWriteReq, block_write_payload(addr, data@))),
{
    let mut payload: Vec<u8> = Vec::new();
    push4(&mut payload, u32_to_le(addr));
    push4(&mut payload, u32_to_le(data.len() as u32));
    crate::crypto::append_bytes(&mut payload, data);
    assert(payload@ =~= block_write_payload(addr, data@));
    let mut cfm = [0u8; 4];
    match transport.send_msg(DbgMsgId::MemBlockWriteReq, payload.as_slice(), true, &mut cfm) {
        Ok(_) => Ok(()),
        Err(e) => Err(e),
    }
}

/// Masked write at `addr`: the chip stores `(old & !mask) | (data & mask)`
/// (DBG_MEM_MASK_WRITE_REQ).
pub fn ipc_mem_mask_write<H: SdioHost>(transport: &mut IpcTransport<H>, addr: u32, mask: u32, data: u32) -> (r: Result<(), SdioError>)
    ensures
        final(transport).variant() == old(transport).variant(),
        extends(old(transport).host_calls(), final(transport).host_calls()),
        passes(r, exchange(old(transport).variant(), (LMAC_FIRST_DBG + DbgMsgId::MemMaskWriteReq.ordinal()) as u16, mask_write_payload(addr, mask, data), 8,
            old(transport).host_calls(), final(transport).host_calls())),
        r is Ok ==> read_back(old(transport).host_calls(), final(transport).host_calls(), final(transport).response()),
        r is Ok ==> one_more(old(transport).frames(), final(transport).frames(),
            dbg_frame(old(transport).variant(), DbgMsgId::MemMaskWriteReq, mask_write_payload(addr, mask, data))),
        r is Err ==> at_most_one_more(old(transport).frames(), final(transport).frames(),
            dbg_frame(old(transport).variant(), DbgMsgId::MemMaskWriteReq, mask_write_payload(addr, mask, data))),
{
    let mut payload: Vec<u8> = Vec::new();
    push4(&mut payload, u32_to_le(addr));
    push4(&mut payload, u32_to_le(mask));
    push4(&mut payload, u32_to_le(data));
    assert(payload@ =~= mask_write_payload(addr, mask, data));
    let mut cfm = [0u8; 8];
    match transport.send_msg(DbgMsgId::MemMaskWriteReq, payload.as_slice(), true, &mut cfm) {
        Ok(_) => Ok(()),
        Err(e) => Err(e),
    }
}

/// Starts the firmware at `boot_addr` with `boot_type` (DBG_START_APP_REQ);
/// returns the boot status word of the confirmation.
pub fn ipc_start_app<H: SdioHost>(transport: &mut IpcTransport<H>, boot_addr: u32, boot_type: u32) -> (r: Result<u32, SdioError>)
    ensures
        final(transport).variant() == old(transport).variant(),
        extends(old(transport).host_calls(), final(transport).host_calls()),
        passes(r, exchange(old(transport).variant(), (LMAC_FIRST_DBG + DbgMsgId::StartAppReq.ordinal()) as u16, start_app_payload(boot_addr, boot_type), 4,
            old(transport).host_calls(), final(transport).host_calls())),
        r is Ok ==> read_back(old(transport).host_calls(), final(transport).host_calls(), final(transport).response()),
        match r {
            Ok(v) => {
                &&& one_more(old(transport).frames(), final(transport).frames(),
                    dbg_frame(old(transport).variant(), DbgMsgId::StartAppReq, start_app_payload(boot_addr, boot_type)))
                &&& answers(final(transport).response(), (LMAC_FIRST_DBG + DbgMsgId::StartAppReq.ordinal()) as u16)
                &&& v == le32_at(final(transport).response(), 16)
            },
            Err(_) => at_most_one_more(old(transport).frames(), final(transport).frames(),
                dbg_frame(old(transport).variant(), DbgMsgId::StartAppReq, start_app_payload(boot_addr, boot_type))),
        },
{
    let mut payload: Vec<u8> = Vec::new();
    push4(&mut payload, u32_to_le(boot_addr));
    push4(&mut payload, u32_to_le(boot_type));
    assert(payload@ =~= start_app_payload(boot_addr, boot_type));
    let mut cfm = [0u8; 4];
    match transport.send_msg(DbgMsgId::StartAppReq, payload.as_slice(), true, &mut cfm) {
        Ok(_) => {},
        Err(e) => return Err(e),
    }
    Ok(u32_from_le(&cfm, 0))
}

// ------------------------------------------------------------------
// MAC-management requests to the running firmware
// ------------------------------------------------------------------

/// LMAC/PHY version information (MM_VERSION_CFM).
#[derive(Debug)]
pub struct MmVersionCfm {
    pub version_lmac: u32,
    pub version_machw_1: u32,
    pub version_machw_2: u32,
    pub version_phy_1: u32,
    pub version_phy_2: u32,
    pub features: u32,
    pub max_sta_nb: u16,
    pub max_vif_nb: u8,
}

/// Protocol stack start confirmation (MM_SET_STACK_START_CFM).
#[derive(Debug)]
pub struct MmStackStartCfm {
    pub is_5g_support: u8,
    pub vendor_info: u8,
}

/// Firmware version string (MM_GET_FW_VERSION_CFM).
#[derive(Debug)]
pub struct MmFwVersionCfm {
    pub fw_version_len: u8,
    pub fw_version: [u8; 63],
}

/// The version confirmation carried by response `rx`: six little-endian
/// words, a half-word and a byte from offset 16.
pub open spec fn version_cfm_from(rx: Seq<u8>) -> MmVersionCfm {
    MmVersionCfm {
        version_lmac: le32_at(rx, 16),
        version_machw_1: le32_at(rx, 20),
        version_machw_2: le32_at(rx, 24),
        version_phy_1: le32_at(rx, 28),
        version_phy_2: le32_at(rx, 32),
        features: le32_at(rx, 36),
        max_sta_nb: le16_at(rx, 40),
        max_vif_nb: rx[42],
    }
}

/// The outcome of an MM request: on success one more frame and a matching
/// response, on failure at most one more frame.
pub open spec fn mm_outcome<T>(r: Result<T, SdioError>, before: Seq<Seq<u8>>, after: Seq<Seq<u8>>, rx: Seq<u8>,
    chip: ChipVariant, id: u16, payload: Seq<u8>) -> bool {
    match r {
        Ok(_) => one_more(before, after, ipc_frame(chip, id, payload)) && answers(rx, id),
        Err(_) => at_most_one_more(before, after, ipc_frame(chip, id, payload)),
    }
}

/// Asks the firmware for its LMAC/PHY versions (MM_VERSION_REQ).
pub fn mm_get_version<H: SdioHost>(transport: &mut IpcTransport<H>) -> (r: Result<MmVersionCfm, SdioError>)
    ensures
        final(transport).variant() == old(transport).variant(),
        extends(old(transport).host_calls(), final(transport).host_calls()),
        passes(r, exchange(old(transport).variant(), MM_VERSION_REQ, Seq::empty(), 27,
            old(transport).host_calls(), final(transport).host_calls())),
        r is Ok ==> read_back(old(transport).host_calls(), final(transport).host_calls(), final(transport).response()),
        mm_outcome(r, old(transport).frames(), final(transport).frames(), final(transport).response(),
            old(transport).variant(), MM_VERSION_REQ, Seq::empty()),
        r is Ok ==> r->Ok_0 == version_cfm_from(final(transport).response()),
{
    let mut cfm = [0u8; 27];
    let empty: [u8; 0] = [];
    match transport.send_msg_raw(MM_VERSION_REQ, &empty, true, &mut cfm) {
        Ok(_) => {},
        Err(e) => return Err(e),
    }
    assert(empty@ =~= Seq::<u8>::empty());
    Ok(MmVersionCfm {
        version_lmac: u32_from_le(&cfm, 0),
        version_machw_1: u32_from_le(&cfm, 4),
        version_machw_2: u32_from_le(&cfm, 8),
        version_phy_1: u32_from_le(&cfm, 12),
        version_phy_2: u32_from_le(&cfm, 16),
        features: u32_from_le(&cfm, 20),
        max_sta_nb: u16_from_le(&cfm, 24),
        max_vif_nb: cfm[26],
    })
}

/// Parameters of MM_SET_STACK_START_REQ: start the stack, no efuse, no
/// vendor info, no trace redirection.
pub open spec fn stack_start_payload() -> Seq<u8> {
    seq![1u8, 0u8, 0u8, 0u8]
}

/// Starts the WiFi protocol stack (MM_SET_STACK_START_REQ).
pub fn mm_set_stack_start<H: SdioHost>(transport: &mut IpcTransport<H>) -> (r: Result<MmStackStartCfm, SdioError>)
    ensures
        final(transport).variant() == old(transport).variant(),
        extends(old(transport).host_calls(), final(transport).host_calls()),
        passes(r, exchange(old(transport).variant(), MM_SET_STACK_START_REQ, stack_start_payload(), 2,
            old(transport).host_calls(), final(transport).host_calls())),
        r is Ok ==> read_back(old(transport).host_calls(), final(transport).host_calls(), final(transport).response()),
        mm_outcome(r, old(transport).frames(), final(transport).frames(), final(transport).response(),
            old(transport).variant(), MM_SET_STACK_START_REQ, stack_start_payload()),
        r is Ok ==> r->Ok_0 == (MmStackStartCfm {
            is_5g_support: final(transport).response()[16],
            vendor_info: final(transport).response()[17],
        }),
{
    let payload: [u8; 4] = [1, 0, 0, 0];
    assert(payload@ =~= stack_start_payload());
    let mut cfm = [0u8; 2];
    match transport.send_msg_raw(MM_SET_STACK_START_REQ, &payload, true, &mut cfm) {
        Ok(_) => {},
        Err(e) => return Err(e),
    }
    Ok(MmStackStartCfm { is_5g_support: cfm[0], vendor_info: cfm[1] })
}

/// Asks the firmware for its version string (MM_GET_FW_VERSION_REQ).
pub fn mm_get_fw_version<H: SdioHost>(transport: &mut IpcTransport<H>) -> (r: Result<MmFwVersionCfm, SdioError>)
    ensures
        final(transport).variant() == old(transport).variant(),
        extends(old(transport).host_calls(), final(transport).host_calls()),
        passes(r, exchange(old(transport).variant(), MM_GET_FW_VERSION_REQ, seq![0u8], 64,
            old(transport).host_calls(), final(transport).host_calls())),
        r is Ok ==> read_back(old(transport).host_calls(), final(transport).host_calls(), final(transport).response()),
        mm_outcome(r, old(transport).frames(), final(transport).frames(), final(transport).response(),
            old(transport).variant(), MM_GET_FW_VERSION_REQ, seq![0u8]),
        r is Ok ==> {
            &&& r->Ok_0.fw_version_len == final(transport).response()[16]
            &&& r->Ok_0.fw_version@ == final(transport).response().subrange(17, 80)
        },
{
    let payload: [u8; 1] = [0];
    assert(payload@ =~= seq![0u8]);
    let mut cfm = [0u8; 64];
    match transport.send_msg_raw(MM_GET_FW_VERSION_REQ, &payload, true, &mut cfm) {
        Ok(_) => {},
        Err(e) => return Err(e),
    }
    let mut fw_version = [0u8; 63];
    copy_into(&mut fw_version, 0, &cfm, 1, 63);
    assert(fw_version@ =~= final(transport).response().subrange(17, 80));
    Ok(MmFwVersionCfm { fw_version_len: cfm[0], fw_version })
}

/// Parameters of MM_GET_MAC_ADDR_REQ: `get = 1` as a 32-bit word.
pub open spec fn get_mac_payload() -> Seq<u8> {
    seq![1u8, 0u8, 0u8, 0u8]
}

/// Asks the firmware for the WiFi MAC address (MM_GET_MAC_ADDR_REQ).
pub fn mm_get_mac_addr<H: SdioHost>(transport: &mut IpcTransport<H>) -> (r: Result<[u8; 6], SdioError>)
    ensures
        final(transport).variant() == old(transport).variant(),
        extends(old(transport).host_calls(), final(transport).host_calls()),
        passes(r, exchange(old(transport).variant(), MM_GET_MAC_ADDR_REQ, get_mac_payload(), 8,
            old(transport).host_calls(), final(transport).host_calls())),
        r is Ok ==> read_back(old(transport).host_calls(), final(transport).host_calls(), final(transport).response()),
        mm_outcome(r, old(transport).frames(), final(transport).frames(), final(transport).response(),
            old(transport).variant(), MM_GET_MAC_ADDR_REQ, get_mac_payload()),
        r is Ok ==> r->Ok_0@ == final(transport).response().subrange(16, 22),
{
    let payload: [u8; 4] = [1, 0, 0, 0];
    assert(payload@ =~= get_mac_payload());
    let mut cfm = [0u8; 8];
    match transport.send_msg_raw(MM_GET_MAC_ADDR_REQ, &payload, true, &mut cfm) {
        Ok(_) => {},
        Err(e) => return Err(e),
    }
    let mut mac = [0u8; 6];
    copy_into(&mut mac, 0, &cfm, 0, 6);
    assert(mac@ =~= final(transport).response().subrange(16, 22));
    Ok(mac)
}

/// Resets the firmware MAC layer (MM_RESET_REQ).
pub fn mm_reset<H: SdioHost>(transport: &mut IpcTransport<H>) -> (r: Result<(), SdioError>)
    ensures
        final(transport).variant() == old(transport).variant(),
        extends(old(transport).host_calls(), final(transport).host_calls()),
        passes(r, exchange(old(transport).variant(), MM_RESET_REQ, Seq::empty(), 0,
            old(transport).host_calls(), final(transport).host_calls())),
        r is Ok ==> read_back(old(transport).host_calls(), final(transport).host_calls(), final(transport).response()),
        mm_outcome(r, old(transport).frames(), final(transport).frames(), final(transport).response(),
            old(transport).variant(), MM_RESET_REQ, Seq::empty()),
{
    let empty: [u8; 0] = [];
    let mut cfm: [u8; 0] = [];
    let r = transport.send_msg_raw(MM_RESET_REQ, &empty, true, &mut cfm);
    assert(empty@ =~= Seq::<u8>::empty());
    match r {
        Ok(_) => Ok(()),
        Err(e) => Err(e),
    }
}

} // verus!
