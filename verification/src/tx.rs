//! Transmit path: SDIO framing of commands and data, flow-control credit
//! decisions, the command write with flow control, and the bounded data
//! queue.

use vstd::prelude::*;

pub use crate::chip_id::{SDIOWIFI_FLOWCTRL_MASK, SDIOWIFI_FLOW_CTRL_REG, SDIOWIFI_WR_FIFO_ADDR, SDIO_TYPE_CFG_CMD_RSP, SDIO_TYPE_DATA};

use crate::eapol::zeros;
use crate::ipc::{le16, push2, push_zeros, spin_wait, u16_to_le};
use crate::lmac_msg::DRV_TASK_ID;
use crate::ipc::{HostEvent, HostLog, calls_since, extends};
use crate::sdio::{SdioError, SdioHost};

verus! {

/// Transmit alignment.
pub const TX_ALIGNMENT: usize = 4;
/// SDIO function block size.
pub const SDIOWIFI_FUNC_BLOCKSIZE: usize = 512;
/// Firmware buffer size one flow-control credit stands for.
pub const BUFFER_SIZE: usize = 1536;
/// Flow-control polls before a command is dropped.
pub const FLOW_CTRL_CMD_RETRY: u32 = 10;
/// Data frames sent per pass of the transmit loop.
pub const TX_BATCH_LIMIT: u32 = 16;
/// Data frames the transmit queue holds.
pub const MAX_TX_QUEUE_LEN: usize = 256;
/// Credits at or below which data frames wait.
pub const DATA_FLOW_CTRL_THRESH: u8 = 2;

/// State of the SDIO bus.
#[derive(Debug, Clone, Copy, PartialEq, Eq, Structural)]
pub enum BusState {
    Down,
    Up,
}

/// A frame waiting in the transmit queue.
pub struct TxFrame {
    pub data: Vec<u8>,
    pub priority: u8,
}

/// Transmit errors.
#[derive(Debug, Clone, Copy, PartialEq, Eq, Structural)]
pub enum TxError {
    QueueFull,
}

/// `val` rounded up to a multiple of `align`.
pub open spec fn round_up(val: int, align: int) -> int {
    (val + align - 1) / align * align
}

/// Rounds `val` up to a multiple of `align` (4 or 512).
pub fn align_up(val: usize, align: usize) -> (r: usize)
    requires
        align == 4 || align == 512,
        val + align - 1 <= usize::MAX,
    ensures
        r == round_up(val as int, align as int),
{
    let x = val + (align - 1);
    if align == 4 {
        let r = x & !3usize;
        assert(x & !3usize == x / 4 * 4) by (bit_vector);
        r
    } else {
        let r = x & !511usize;
        assert(x & !511usize == x / 512 * 512) by (bit_vector);
        r
    }
}

/// Length of an SDIO frame whose content is `n` bytes: aligned to 4; when
/// that is not a whole number of blocks, a 4-byte tail is added; then
/// rounded up to whole 512-byte blocks.
pub open spec fn pad_len(n: nat) -> nat {
    let a = round_up(n as int, 4);
    let t = if a % 512 != 0 { a + 4 } else { a };
    round_up(t, 512) as nat
}

/// Bounds of the padded length.
pub proof fn lemma_pad_len(n: nat)
    ensures
        n <= pad_len(n) <= n + 3 + 4 + 511,
        pad_len(n) % 512 == 0,
{
    let a = round_up(n as int, 4);
    assert(n <= a <= n + 3) by (nonlinear_arith)
        requires
            a == (n + 3) / 4 * 4,
            n >= 0,
    ;
    let t = if a % 512 != 0 { a + 4 } else { a };
    let r = round_up(t, 512);
    assert(t <= r <= t + 511 && r % 512 == 0) by (nonlinear_arith)
        requires
            r == (t + 511) / 512 * 512,
            t >= 0,
    ;
}

/// Padding a frame that is already padded changes nothing.
pub proof fn lemma_pad_idempotent(n: nat)
    ensures
        pad_len(pad_len(n)) == pad_len(n),
{
    lemma_pad_len(n);
    let p = pad_len(n);
    assert(round_up(p as int, 4) == p) by (nonlinear_arith)
        requires
            p % 512 == 0,
            p >= 0,
    ;
    assert(round_up(p as int, 512) == p) by (nonlinear_arith)
        requires
            p % 512 == 0,
            p >= 0,
    ;
}

/// Computes `pad_len(n)`.
pub fn padded_len(n: usize) -> (r: usize)
    requires
        n <= usize::MAX - 600,
    ensures
        r == pad_len(n as nat),
        n <= r <= n + 518,
        r % 512 == 0,
{
    proof { lemma_pad_len(n as nat); }
    let aligned = align_up(n, TX_ALIGNMENT);
    let t = if aligned % SDIOWIFI_FUNC_BLOCKSIZE != 0 { aligned + 4 } else { aligned };
    align_up(t, SDIOWIFI_FUNC_BLOCKSIZE)
}

/// Pads a command frame in place (zero bytes) to `pad_len` of its length,
/// returning the new length.
pub fn pad_cmd_frame(cmd: &mut Vec<u8>) -> (n: usize)
    requires
        old(cmd)@.len() <= usize::MAX - 600,
    ensures
        n == pad_len(old(cmd)@.len()),
        final(cmd)@ == old(cmd)@ + zeros((n - old(cmd)@.len()) as nat),
{
    let len = cmd.len();
    let n = padded_len(len);
    push_zeros(cmd, n - len);
    n
}

/// The SDIO header of a host-to-chip frame: 12-bit length, type, zero.
pub open spec fn sdio_header(len: int, ty: u8) -> Seq<u8> {
    seq![(len % 256) as u8, ((len / 256) % 16) as u8, ty, 0u8]
}

/// A data frame: SDIO header announcing `data` plus the header, the data,
/// and zero padding to `pad_len`.
pub open spec fn data_frame(data: Seq<u8>) -> Seq<u8> {
    let total: nat = data.len() + 4;
    sdio_header(total as int, SDIO_TYPE_DATA) + data + zeros((pad_len(total) - total) as nat)
}

/// Frames an Ethernet frame for the write FIFO.
pub fn build_data_frame(data: &[u8]) -> (buf: Vec<u8>)
    requires
        data@.len() <= usize::MAX - 700,
    ensures
        buf@ == data_frame(data@),
        buf@.len() == pad_len(data@.len() + 4),
{
    let total = data.len() + 4;
    let mut buf: Vec<u8> = Vec::new();
    buf.push((total % 256) as u8);
    buf.push(((total / 256) % 16) as u8);
    buf.push(SDIO_TYPE_DATA);
    buf.push(0);
    crate::crypto::append_bytes(&mut buf, data);
    let n = padded_len(total);
    push_zeros(&mut buf, n - total);
    assert(buf@ =~= data_frame(data@));
    buf
}

/// A command frame for message `id` to task `dest` with `param`: SDIO
/// header (length = 16 + parameters), dummy word, lmac header (ID,
/// destination, driver task, parameter length), the parameters, and zero
/// padding to `pad_len`.
pub open spec fn cmd_frame(id: u16, dest: u16, param: Seq<u8>) -> Seq<u8> {
    let raw: nat = 16 + param.len();
    sdio_header(raw as int, SDIO_TYPE_CFG_CMD_RSP) + zeros(4)
        + le16(id) + le16(dest) + le16(DRV_TASK_ID) + le16((param.len() % 65536) as u16)
        + param + zeros((pad_len(raw) - raw) as nat)
}

/// Builds the SDIO frame of a command.
pub fn build_cmd_frame(msg_id: u16, dest_task: u16, param: &[u8]) -> (buf: Vec<u8>)
    requires
        param@.len() <= usize::MAX - 700,
    ensures
        buf@ == cmd_frame(msg_id, dest_task, param@),
        buf@.len() == pad_len(16 + param@.len()),
{
    let raw = 16 + param.len();
    let mut buf: Vec<u8> = Vec::new();
    buf.push((raw % 256) as u8);
    buf.push(((raw / 256) % 16) as u8);
    buf.push(SDIO_TYPE_CFG_CMD_RSP);
    buf.push(0);
    push_zeros(&mut buf, 4);
    push2(&mut buf, u16_to_le(msg_id));
    push2(&mut buf, u16_to_le(dest_task));
    push2(&mut buf, u16_to_le(DRV_TASK_ID));
    push2(&mut buf, u16_to_le((param.len() % 65536) as u16));
    crate::crypto::append_bytes(&mut buf, param);
    let n = padded_len(raw);
    push_zeros(&mut buf, n - raw);
    assert(buf@ =~= cmd_frame(msg_id, dest_task, param@));
    buf
}

/// A command frame is already padded: padding it again changes nothing.
pub proof fn lemma_cmd_frame_padded(id: u16, dest: u16, param: Seq<u8>)
    ensures
        pad_len(cmd_frame(id, dest, param).len()) == cmd_frame(id, dest, param).len(),
        cmd_frame(id, dest, param).len() % 512 == 0,
{
    lemma_pad_len(16 + param.len());
    lemma_pad_idempotent(16 + param.len());
}

/// Whether flow-control register value `fc` lets a command of `send_len`
/// bytes go: some credits, and more buffer space than the frame.
pub open spec fn cmd_credit_ok(fc: u8, send_len: int) -> bool {
    let credits = fc & SDIOWIFI_FLOWCTRL_MASK;
    credits != 0 && credits * BUFFER_SIZE > send_len
}

/// Whether flow-control register value `fc` lets a data frame go: more
/// credits than the data threshold.
pub open spec fn data_credit_ok(fc: u8) -> bool {
    fc & SDIOWIFI_FLOWCTRL_MASK > DATA_FLOW_CTRL_THRESH
}

/// Decides `cmd_credit_ok`.
pub fn cmd_credits_allow(fc: u8, send_len: usize) -> (r: bool)
    ensures
        r == cmd_credit_ok(fc, send_len as int),
{
    let credits = fc & SDIOWIFI_FLOWCTRL_MASK;
    credits != 0 && (credits as usize) * BUFFER_SIZE > send_len
}

/// Decides `data_credit_ok`.
pub fn data_credits_allow(fc: u8) -> (r: bool)
    ensures
        r == data_credit_ok(fc),
{
    fc & SDIOWIFI_FLOWCTRL_MASK > DATA_FLOW_CTRL_THRESH
}

/// Outcome of a command write.
#[derive(Debug, Clone, Copy, PartialEq, Eq, Structural)]
pub enum CmdTxOutcome {
    /// The frame went to the write FIFO.
    Sent,
    /// No credit within ten polls, or the register could not be read: the
    /// command is dropped.
    FlowCtrlFailed,
    /// The FIFO write failed.
    WriteFailed(SdioError),
}

/// Where a command write stands after the host calls so far.
pub enum CmdTxPhase {
    /// Waiting for credit; `polls` reads without enough credit so far.
    Credit { polls: nat },
    /// Credit seen; the frame is written next.
    Write,
    /// The write is over with this outcome.
    Done { outcome: CmdTxOutcome },
    /// The calls do not follow the protocol.
    Invalid,
}

/// One host call of a command write of `frame` (`send_len` bytes): a
/// flow-control read error drops the command; enough credit moves on to the
/// write; the tenth read without enough credit drops the command.  The
/// write must carry the frame; its result decides `Sent` or `WriteFailed`.
pub open spec fn cmd_tx_step(send_len: int, frame: Seq<u8>, p: CmdTxPhase, e: HostEvent) -> CmdTxPhase {
    match p {
        CmdTxPhase::Credit { polls } => match e {
            HostEvent::ReadByte { addr, result } => if addr != SDIOWIFI_FLOW_CTRL_REG {
                CmdTxPhase::Invalid
            } else {
                match result {
                    Err(_) => CmdTxPhase::Done { outcome: CmdTxOutcome::FlowCtrlFailed },
                    Ok(fc) => if cmd_credit_ok(fc, send_len) {
                        CmdTxPhase::Write
                    } else if polls + 1 >= FLOW_CTRL_CMD_RETRY {
                        CmdTxPhase::Done { outcome: CmdTxOutcome::FlowCtrlFailed }
                    } else {
                        CmdTxPhase::Credit { polls: polls + 1 }
                    },
                }
            },
            _ => CmdTxPhase::Invalid,
        },
        CmdTxPhase::Write => match e {
            HostEvent::WriteFifo { data, result } => if data != frame {
                CmdTxPhase::Invalid
            } else {
                match result {
                    Ok(_) => CmdTxPhase::Done { outcome: CmdTxOutcome::Sent },
                    Err(x) => CmdTxPhase::Done { outcome: CmdTxOutcome::WriteFailed(x) },
                }
            },
            _ => CmdTxPhase::Invalid,
        },
        _ => CmdTxPhase::Invalid,
    }
}

/// Where a command write of `frame` stands after the host calls `ev`.
pub open spec fn cmd_tx_run(send_len: int, frame: Seq<u8>, ev: Seq<HostEvent>) -> CmdTxPhase
    decreases ev.len(),
{
    if ev.len() == 0 {
        CmdTxPhase::Credit { polls: 0 }
    } else {
        cmd_tx_step(send_len, frame, cmd_tx_run(send_len, frame, ev.drop_last()), ev.last())
    }
}

proof fn lemma_cmd_tx_push(send_len: int, frame: Seq<u8>, before: Seq<HostEvent>, log: Seq<HostEvent>, e: HostEvent)
    requires
        extends(before, log),
    ensures
        extends(before, log.push(e)),
        cmd_tx_run(send_len, frame, calls_since(before, log.push(e)))
            == cmd_tx_step(send_len, frame, cmd_tx_run(send_len, frame, calls_since(before, log)), e),
{
    let d = calls_since(before, log.push(e));
    assert(d.drop_last() =~= calls_since(before, log));
    assert(log.push(e).subrange(0, before.len() as int) =~= log.subrange(0, before.len() as int));
}

/// Pads a command frame, waits for flow-control credit (ten polls) and
/// writes it to the FIFO.
pub fn send_cmd_frame<H: SdioHost>(host: &mut HostLog<H>, cmd: &mut Vec<u8>) -> (r: CmdTxOutcome)
    requires
        old(cmd)@.len() <= usize::MAX - 600,
    ensures
        final(cmd)@ == old(cmd)@ + zeros((pad_len(old(cmd)@.len()) - old(cmd)@.len()) as nat),
        extends(old(host).events(), final(host).events()),
        cmd_tx_run(pad_len(old(cmd)@.len()) as int, final(cmd)@, calls_since(old(host).events(), final(host).events()))
            == (CmdTxPhase::Done { outcome: r }),
{
    let send_len = pad_cmd_frame(cmd);
    let ghost start = host.events();
    let ghost frame = cmd@;
    proof {
        assert(calls_since(start, start) =~= Seq::<HostEvent>::empty());
        assert(start.subrange(0, start.len() as int) =~= start);
    }
    let mut fc_ok = false;
    let mut retry: u32 = 0;
    while retry < FLOW_CTRL_CMD_RETRY
        invariant_except_break
            !fc_ok,
            cmd_tx_run(send_len as int, frame, calls_since(start, host.events())) == (if retry < FLOW_CTRL_CMD_RETRY {
                CmdTxPhase::Credit { polls: retry as nat }
            } else {
                CmdTxPhase::Done { outcome: CmdTxOutcome::FlowCtrlFailed }
            }),
        invariant
            retry <= FLOW_CTRL_CMD_RETRY,
            extends(start, host.events()),
            start == old(host).events(),
            cmd@ == frame,
        ensures
            fc_ok ==> cmd_tx_run(send_len as int, frame, calls_since(start, host.events())) == CmdTxPhase::Write,
            !fc_ok ==> cmd_tx_run(send_len as int, frame, calls_since(start, host.events()))
                == (CmdTxPhase::Done { outcome: CmdTxOutcome::FlowCtrlFailed }),
        decreases FLOW_CTRL_CMD_RETRY - retry,
    {
        let ghost before = host.events();
        let rb = host.read_reg(SDIOWIFI_FLOW_CTRL_REG);
        proof { lemma_cmd_tx_push(send_len as int, frame, start, before, HostEvent::ReadByte { addr: SDIOWIFI_FLOW_CTRL_REG, result: rb }); }
        match rb {
            Ok(fc) => {
                if cmd_credits_allow(fc, send_len) {
                    fc_ok = true;
                    break;
                }
            },
            Err(_) => {
                break;
            },
        }
        spin_wait(10_000);
        retry = retry + 1;
    }
    if !fc_ok {
        return CmdTxOutcome::FlowCtrlFailed;
    }
    let ghost before_write = host.events();
    let wr = host.write_fifo(cmd.as_slice());
    proof { lemma_cmd_tx_push(send_len as int, frame, start, before_write, HostEvent::WriteFifo { data: frame, result: wr }); }
    match wr {
        Ok(()) => CmdTxOutcome::Sent,
        Err(e) => CmdTxOutcome::WriteFailed(e),
    }
}

/// The host call of a data frame write: the framed data written to the FIFO.
pub open spec fn data_write_call(data: Seq<u8>, r: Result<(), SdioError>) -> HostEvent {
    HostEvent::WriteFifo { data: data_frame(data), result: r }
}

/// Frames a queued data frame and writes it to the FIFO; the result is the
/// write's.
pub fn send_data_frame<H: SdioHost>(host: &mut HostLog<H>, frame: &TxFrame) -> (r: Result<(), SdioError>)
    requires
        frame.data@.len() <= usize::MAX - 700,
    ensures
        final(host).events() == old(host).events().push(data_write_call(frame.data@, r)),
{
    let buf = build_data_frame(frame.data.as_slice());
    host.write_fifo(buf.as_slice())
}

/// Queues an Ethernet frame for transmission (default priority 0) unless
/// 256 frames are already waiting.
pub fn enqueue_data_frame(queue: &mut std::collections::VecDeque<TxFrame>, eth_frame: Vec<u8>) -> (r: Result<(), TxError>)
    ensures
        old(queue)@.len() >= MAX_TX_QUEUE_LEN ==> r == Err::<(), TxError>(TxError::QueueFull) && final(queue)@ == old(queue)@,
        old(queue)@.len() < MAX_TX_QUEUE_LEN ==> {
            &&& r is Ok
            &&& final(queue)@.len() == old(queue)@.len() + 1
            &&& final(queue)@.subrange(0, old(queue)@.len() as int) == old(queue)@
            &&& final(queue)@.last().data@ == eth_frame@
            &&& final(queue)@.last().priority == 0
        },
{
    if queue.len() >= MAX_TX_QUEUE_LEN {
        return Err(TxError::QueueFull);
    }
    let ghost v = eth_frame@;
    queue.push_back(TxFrame { data: eth_frame, priority: 0 });
    assert(queue@.subrange(0, old(queue)@.len() as int) =~= old(queue)@);
    Ok(())
}

/// Whether the transmit loop may send another data frame: fewer than 16
/// sent in this pass, no command waiting, the bus up, frames queued.
pub fn tx_batch_may_continue(batch_count: u32, cmd_pending: bool, state: BusState, queued: u32) -> (r: bool)
    ensures
        r == (queued > 0 && batch_count < TX_BATCH_LIMIT && !cmd_pending && state == BusState::Up),
{
    queued > 0 && batch_count < TX_BATCH_LIMIT && !cmd_pending && state == BusState::Up
}

} // verus!
