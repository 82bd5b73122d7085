//! Polled command exchange with the running firmware, used while
//! interrupts are still off: LMAC start-up and draining stale FIFO data.

use vstd::prelude::*;

pub use crate::chip_id::{SDIOWIFI_BLOCK_CNT_REG, SDIOWIFI_RD_FIFO_ADDR};

use crate::eapol::zeros;
use crate::ipc::{ipc_send_len, le16, le16_at, read_back, push2, push_zeros, spin_wait, u16_from_le, u16_to_le};
use crate::lmac_msg::{DRV_TASK_ID, MM_RESET_REQ, MM_SET_STACK_START_REQ, TASK_MM};
use crate::ipc::{HostEvent, HostLog, calls_since, extends};
use crate::sdio::SdioHost;
use crate::tx::{SDIO_TYPE_CFG_CMD_RSP, sdio_header};

verus! {


/// The polled command frame: SDIO header (length 16 + parameters), dummy
/// word, lmac header, parameters, zero padding to `ipc_send_len`.
pub open spec fn polling_frame(id: u16, dest: u16, param: Seq<u8>) -> Seq<u8> {
    let raw = 16 + param.len();
    sdio_header(raw as int, SDIO_TYPE_CFG_CMD_RSP) + zeros(4)
        + le16(id) + le16(dest) + le16(DRV_TASK_ID) + le16((param.len() % 65536) as u16)
        + param + zeros((ipc_send_len(param.len()) - raw) as nat)
}

/// Builds the polled command frame.
pub fn build_polling_frame(msg_id: u16, dest_id: u16, param: &[u8]) -> (buf: Vec<u8>)
    requires
        param@.len() <= usize::MAX - 1024,
    ensures
        buf@ == polling_frame(msg_id, dest_id, param@),
{
    let raw = 16 + param.len();
    let aligned = (raw + 3) / 4 * 4;
    let final_len = if aligned % 512 != 0 { ((aligned + 4) / 512 + 1) * 512 } else { aligned };
    assert(final_len == ipc_send_len(param@.len()));
    assert(final_len >= raw) by (nonlinear_arith)
        requires
            final_len == (if aligned % 512 != 0 { ((aligned + 4) / 512 + 1) * 512 } else { aligned as int }),
            aligned == (raw + 3) / 4 * 4,
    ;
    let mut buf: Vec<u8> = Vec::new();
    buf.push((raw % 256) as u8);
    buf.push(((raw / 256) % 16) as u8);
    buf.push(SDIO_TYPE_CFG_CMD_RSP);
    buf.push(0);
    push_zeros(&mut buf, 4);
    push2(&mut buf, u16_to_le(msg_id));
    push2(&mut buf, u16_to_le(dest_id));
    push2(&mut buf, u16_to_le(DRV_TASK_ID));
    push2(&mut buf, u16_to_le((param.len() % 65536) as u16));
    crate::crypto::append_bytes(&mut buf, param);
    push_zeros(&mut buf, final_len - raw);
    assert(buf@ =~= polling_frame(msg_id, dest_id, param@));
    buf
}

/// A polled response answers request `id`: whole 512-byte blocks (at most
/// 127) whose lmac header (after the 4-byte SDIO header) carries `id + 1`.
pub open spec fn polled_answer(rx: Seq<u8>, id: u16) -> bool {
    &&& 512 <= rx.len() <= 127 * 512
    &&& rx.len() % 512 == 0
    &&& le16_at(rx, 4) == id + 1
}

/// Where a polled command stands after the host calls so far.
pub enum PollPhase {
    /// Waiting for flow-control credit; `polls` reads without credit so far.
    FlowCtrl { polls: nat },
    /// Credit seen; the frame is written next.
    Write,
    /// Waiting for the confirmation; `retries` polls without it so far.
    Poll { retries: nat },
    /// The block count announced `len` bytes; the FIFO read comes next.
    Read { retries: nat, len: nat },
    /// The command is over with this result.
    Done { result: Result<usize, &'static str> },
    /// The calls do not follow the protocol.
    Invalid,
}

/// What a polled command is about: its frame, whether a confirmation is
/// awaited, its ID, and the size of the confirmation buffer.
pub struct PollCtx {
    pub frame: Seq<u8>,
    pub wait_cfm: bool,
    pub cfm_id: int,
    pub cap: nat,
}

/// A confirmation poll without the awaited answer: one more retry, the
/// 10000th gives "response timeout".
pub open spec fn poll_retry(retries: nat) -> PollPhase {
    if retries + 1 >= 10_000 {
        PollPhase::Done { result: Err("response timeout") }
    } else {
        PollPhase::Poll { retries: retries + 1 }
    }
}

/// One host call of a polled command.  Flow control: a read error gives
/// "flow_ctrl read error", credit moves on, the 100th read without credit
/// gives "flow_ctrl timeout".  The write must carry the frame; its error
/// gives "write_fifo error"; without a confirmation to wait for the command
/// is done (`Ok(0)`).  Waiting: a block-count read error gives "read
/// block_cnt error"; the other-interrupt bit or a zero count, a failed FIFO
/// read and a message with another ID are each a retry; the awaited
/// confirmation gives the number of parameter bytes copied.
pub open spec fn poll_step(ctx: PollCtx, p: PollPhase, e: HostEvent) -> PollPhase {
    match p {
        PollPhase::FlowCtrl { polls } => match e {
            HostEvent::ReadByte { addr, result } => if addr != crate::tx::SDIOWIFI_FLOW_CTRL_REG {
                PollPhase::Invalid
            } else {
                match result {
                    Err(_) => PollPhase::Done { result: Err("flow_ctrl read error") },
                    Ok(fc) => if fc & 0x7Fu8 != 0 {
                        PollPhase::Write
                    } else if polls >= 99 {
                        PollPhase::Done { result: Err("flow_ctrl timeout") }
                    } else {
                        PollPhase::FlowCtrl { polls: polls + 1 }
                    },
                }
            },
            _ => PollPhase::Invalid,
        },
        PollPhase::Write => match e {
            HostEvent::WriteFifo { data, result } => if data != ctx.frame {
                PollPhase::Invalid
            } else {
                match result {
                    Err(_) => PollPhase::Done { result: Err("write_fifo error") },
                    Ok(_) => if ctx.wait_cfm { PollPhase::Poll { retries: 0 } } else { PollPhase::Done { result: Ok(0) } },
                }
            },
            _ => PollPhase::Invalid,
        },
        PollPhase::Poll { retries } => match e {
            HostEvent::ReadByte { addr, result } => if addr != SDIOWIFI_BLOCK_CNT_REG {
                PollPhase::Invalid
            } else {
                match result {
                    Err(_) => PollPhase::Done { result: Err("read block_cnt error") },
                    Ok(raw) => if raw & 0x80u8 != 0 || raw & 0x7Fu8 == 0 {
                        poll_retry(retries)
                    } else {
                        PollPhase::Read { retries, len: ((raw & 0x7Fu8) * 512) as nat }
                    },
                }
            },
            _ => PollPhase::Invalid,
        },
        PollPhase::Read { retries, len } => match e {
            HostEvent::ReadFifo { len: l, result } => if l != len {
                PollPhase::Invalid
            } else {
                match result {
                    Err(_) => poll_retry(retries),
                    Ok(rx) => if le16_at(rx, 4) != ctx.cfm_id {
                        poll_retry(retries)
                    } else {
                        PollPhase::Done { result: Ok(crate::ipc::cfm_copy_len(ctx.cap, (len - 12 + 16) as nat) as usize) }
                    },
                }
            },
            _ => PollPhase::Invalid,
        },
        _ => PollPhase::Invalid,
    }
}

/// Where a polled command stands after the host calls `ev`.
pub open spec fn poll_run(ctx: PollCtx, ev: Seq<HostEvent>) -> PollPhase
    decreases ev.len(),
{
    if ev.len() == 0 {
        PollPhase::FlowCtrl { polls: 0 }
    } else {
        poll_step(ctx, poll_run(ctx, ev.drop_last()), ev.last())
    }
}

/// The polled command `msg_id` to `dest_id` with `param`.
pub open spec fn poll_ctx(msg_id: u16, dest_id: u16, param: Seq<u8>, wait_cfm: bool, cap: nat) -> PollCtx {
    PollCtx { frame: polling_frame(msg_id, dest_id, param), wait_cfm, cfm_id: msg_id + 1, cap }
}

proof fn lemma_poll_push(ctx: PollCtx, before: Seq<HostEvent>, log: Seq<HostEvent>, e: HostEvent)
    requires
        extends(before, log),
    ensures
        extends(before, log.push(e)),
        poll_run(ctx, calls_since(before, log.push(e))) == poll_step(ctx, poll_run(ctx, calls_since(before, log)), e),
{
    let d = calls_since(before, log.push(e));
    assert(d.drop_last() =~= calls_since(before, log));
    assert(log.push(e).subrange(0, before.len() as int) =~= log.subrange(0, before.len() as int));
}

/// Sends command `msg_id` to task `dest_id` by polling: up to 100
/// flow-control polls, the FIFO write, then (with `wait_cfm`) up to 10000
/// block-count polls for the confirmation `msg_id + 1`, skipping other
/// messages and FIFO read errors.  The confirmation parameters (after the
/// 12-byte header) are copied into `cfm_buf` and their number returned.
pub fn polling_send_cmd<H: SdioHost>(sdio: &mut HostLog<H>, msg_id: u16, dest_id: u16, param: &[u8], wait_cfm: bool, cfm_buf: &mut [u8]) -> (r: Result<usize, &'static str>)
    requires
        param@.len() <= usize::MAX - 1024,
        wait_cfm ==> msg_id < 0xFFFF,
    ensures
        extends(old(sdio).events(), final(sdio).events()),
        poll_run(poll_ctx(msg_id, dest_id, param@, wait_cfm, old(cfm_buf)@.len()),
            calls_since(old(sdio).events(), final(sdio).events())) == (PollPhase::Done { result: r }),
        final(cfm_buf)@.len() == old(cfm_buf)@.len(),
        r is Err ==> final(cfm_buf)@ == old(cfm_buf)@,
        r is Ok && !wait_cfm ==> r->Ok_0 == 0 && final(cfm_buf)@ == old(cfm_buf)@,
        r is Ok && wait_cfm ==> exists|rx: Seq<u8>| {
            &&& read_back(old(sdio).events(), final(sdio).events(), rx)
            &&& polled_answer(rx, msg_id)
            &&& r->Ok_0 == crate::ipc::cfm_copy_len(old(cfm_buf)@.len(), (rx.len() - 12 + 16) as nat)
            &&& final(cfm_buf)@ == rx.subrange(12, 12 + r->Ok_0 as int) + old(cfm_buf)@.subrange(r->Ok_0 as int, old(cfm_buf)@.len() as int)
        },
{
    let ghost ctx = poll_ctx(msg_id, dest_id, param@, wait_cfm, cfm_buf@.len());
    let ghost start = sdio.events();
    proof {
        assert(calls_since(start, start) =~= Seq::<HostEvent>::empty());
        assert(start.subrange(0, start.len() as int) =~= start);
    }
    let buf = build_polling_frame(msg_id, dest_id, param);
    let mut retry: u32 = 0;
    loop
        invariant_except_break
            poll_run(ctx, calls_since(start, sdio.events())) == (PollPhase::FlowCtrl { polls: retry as nat }),
        invariant
            retry < 100,
            extends(start, sdio.events()),
            start == old(sdio).events(),
            cfm_buf@ == old(cfm_buf)@,
            ctx == poll_ctx(msg_id, dest_id, param@, wait_cfm, old(cfm_buf)@.len()),
        ensures
            poll_run(ctx, calls_since(start, sdio.events())) == PollPhase::Write,
        decreases 100 - retry,
    {
        let ghost before = sdio.events();
        let rb = sdio.read_reg(crate::tx::SDIOWIFI_FLOW_CTRL_REG);
        proof { lemma_poll_push(ctx, start, before, HostEvent::ReadByte { addr: crate::tx::SDIOWIFI_FLOW_CTRL_REG, result: rb }); }
        match rb {
            Ok(fc) => {
                if fc & 0x7F != 0 {
                    break;
                }
            },
            Err(_) => return Err("flow_ctrl read error"),
        }
        if retry >= 99 {
            return Err("flow_ctrl timeout");
        }
        spin_wait(5_000);
        retry = retry + 1;
    }
    let ghost before_w = sdio.events();
    let wr = sdio.write_fifo(buf.as_slice());
    proof { lemma_poll_push(ctx, start, before_w, HostEvent::WriteFifo { data: buf@, result: wr }); }
    match wr {
        Ok(()) => {},
        Err(_) => return Err("write_fifo error"),
    }
    if !wait_cfm {
        return Ok(0);
    }
    let expected_cfm = msg_id + 1;
    let mut retry: u32 = 0;
    while retry < 10_000
        invariant
            retry <= 10_000,
            wait_cfm,
            expected_cfm == msg_id + 1,
            cfm_buf@ == old(cfm_buf)@,
            extends(start, sdio.events()),
            start == old(sdio).events(),
            ctx == poll_ctx(msg_id, dest_id, param@, wait_cfm, old(cfm_buf)@.len()),
            poll_run(ctx, calls_since(start, sdio.events())) == (if retry < 10_000 {
                PollPhase::Poll { retries: retry as nat }
            } else {
                PollPhase::Done { result: Err("response timeout") }
            }),
        decreases 10_000 - retry,
    {
        let ghost before = sdio.events();
        let rb = sdio.read_reg(SDIOWIFI_BLOCK_CNT_REG);
        proof { lemma_poll_push(ctx, start, before, HostEvent::ReadByte { addr: SDIOWIFI_BLOCK_CNT_REG, result: rb }); }
        let raw = match rb {
            Ok(v) => v,
            Err(_) => return Err("read block_cnt error"),
        };
        if raw & 0x80 != 0 {
            spin_wait(1_000);
            retry = retry + 1;
            continue;
        }
        let block_cnt = raw & 0x7F;
        if block_cnt == 0 {
            spin_wait(1_000);
            retry = retry + 1;
            continue;
        }
        assert(1 <= block_cnt <= 127) by (bit_vector)
            requires
                block_cnt == raw & 0x7F,
                block_cnt != 0,
        ;
        let read_len = (block_cnt as usize) * 512;
        let mut rx_buf: Vec<u8> = vec![0u8; read_len];
        let ghost before_r = sdio.events();
        let rd = sdio.read_fifo(rx_buf.as_mut_slice());
        let ghost ev = HostEvent::ReadFifo {
            len: read_len as nat,
            result: match rd {
                Ok(_) => Ok(rx_buf@),
                Err(x) => Err(x),
            },
        };
        proof { lemma_poll_push(ctx, start, before_r, ev); }
        if rd.is_err() {
            spin_wait(100_000);
            retry = retry + 1;
            continue;
        }
        let resp_id = u16_from_le(rx_buf.as_slice(), 4);
        if resp_id != expected_cfm {
            retry = retry + 1;
            continue;
        }
        let avail = read_len - 12;
        let cfm_len = if cfm_buf.len() < avail { cfm_buf.len() } else { avail };
        if cfm_len > 0 {
            crate::crypto::copy_into(cfm_buf, 0, rx_buf.as_slice(), 12, cfm_len);
        }
        proof {
            assert((read_len as int) % 512 == 0) by (nonlinear_arith)
                requires
                    read_len == block_cnt * 512,
            ;
            assert(polled_answer(rx_buf@, msg_id));
            assert(calls_since(start, sdio.events()).last() == sdio.events().last());
            assert(read_back(start, sdio.events(), rx_buf@)) by {
                reveal(read_back);
            }
            assert(cfm_buf@ =~= rx_buf@.subrange(12, 12 + cfm_len as int)
                + old(cfm_buf)@.subrange(cfm_len as int, old(cfm_buf)@.len() as int));
        }
        return Ok(cfm_len);
    }
    Err("response timeout")
}

/// Where a drain of the read FIFO stands after the host calls so far.
pub enum DrainPhase {
    /// Round `round` starts with a block-count read.
    Count { round: nat },
    /// The block count announced `len` bytes; the FIFO read comes next.
    Read { round: nat, len: nat },
    /// The drain is over.
    Done,
    /// The calls do not follow the drain.
    Invalid,
}

/// Round `round` of a drain of `rounds` rounds begins, or the drain is over.
pub open spec fn drain_next(rounds: nat, round: nat) -> DrainPhase {
    if round >= rounds { DrainPhase::Done } else { DrainPhase::Count { round } }
}

/// One host call of a drain of `rounds` rounds.  A block-count read error or
/// an empty FIFO ends it; with `skip_other`, a count with the
/// other-interrupt bit ends the round without a read; otherwise the
/// announced 512-byte blocks are read, whatever the read gives.
pub open spec fn drain_step(skip_other: bool, rounds: nat, p: DrainPhase, e: HostEvent) -> DrainPhase {
    match p {
        DrainPhase::Count { round } => match e {
            HostEvent::ReadByte { addr, result } => if addr != SDIOWIFI_BLOCK_CNT_REG {
                DrainPhase::Invalid
            } else {
                match result {
                    Err(_) => DrainPhase::Done,
                    Ok(raw) => if skip_other && raw & 0x80u8 != 0 {
                        drain_next(rounds, round + 1)
                    } else if raw & 0x7Fu8 == 0 {
                        DrainPhase::Done
                    } else {
                        DrainPhase::Read { round, len: ((raw & 0x7Fu8) * 512) as nat }
                    },
                }
            },
            _ => DrainPhase::Invalid,
        },
        DrainPhase::Read { round, len } => match e {
            HostEvent::ReadFifo { len: l, result: _ } => if l != len {
                DrainPhase::Invalid
            } else {
                drain_next(rounds, round + 1)
            },
            _ => DrainPhase::Invalid,
        },
        _ => DrainPhase::Invalid,
    }
}

/// Where a drain of `rounds` rounds stands after the host calls `ev`.
pub open spec fn drain_run(skip_other: bool, rounds: nat, ev: Seq<HostEvent>) -> DrainPhase
    decreases ev.len(),
{
    if ev.len() == 0 {
        drain_next(rounds, 0)
    } else {
        drain_step(skip_other, rounds, drain_run(skip_other, rounds, ev.drop_last()), ev.last())
    }
}

proof fn lemma_drain_push(skip_other: bool, rounds: nat, before: Seq<HostEvent>, log: Seq<HostEvent>, e: HostEvent)
    requires
        extends(before, log),
    ensures
        extends(before, log.push(e)),
        drain_run(skip_other, rounds, calls_since(before, log.push(e)))
            == drain_step(skip_other, rounds, drain_run(skip_other, rounds, calls_since(before, log)), e),
{
    let d = calls_since(before, log.push(e));
    assert(d.drop_last() =~= calls_since(before, log));
    assert(log.push(e).subrange(0, before.len() as int) =~= log.subrange(0, before.len() as int));
}

/// Reads and discards up to `rounds` batches of queued FIFO data, stopping
/// at an empty FIFO or a register error; with `skip_other`, a count with
/// the other-interrupt bit only uses up a round.  FIFO read errors are
/// expected right after the firmware starts and are ignored.
fn drain_rounds<H: SdioHost>(sdio: &mut HostLog<H>, rounds: u32, skip_other: bool)
    ensures
        extends(old(sdio).events(), final(sdio).events()),
        drain_run(skip_other, rounds as nat, calls_since(old(sdio).events(), final(sdio).events())) == DrainPhase::Done,
{
    let ghost start = sdio.events();
    proof {
        assert(calls_since(start, start) =~= Seq::<HostEvent>::empty());
        assert(start.subrange(0, start.len() as int) =~= start);
    }
    let mut i: u32 = 0;
    while i < rounds
        invariant
            i <= rounds,
            start == old(sdio).events(),
            extends(start, sdio.events()),
            drain_run(skip_other, rounds as nat, calls_since(start, sdio.events())) == drain_next(rounds as nat, i as nat),
        decreases rounds - i,
    {
        let ghost before = sdio.events();
        let rb = sdio.read_reg(SDIOWIFI_BLOCK_CNT_REG);
        proof { lemma_drain_push(skip_other, rounds as nat, start, before, HostEvent::ReadByte { addr: SDIOWIFI_BLOCK_CNT_REG, result: rb }); }
        match rb {
            Ok(raw) => {
                if !(skip_other && raw & 0x80 != 0) {
                    let cnt = raw & 0x7F;
                    if cnt == 0 {
                        return;
                    }
                    let len = (cnt as usize) * 512;
                    let mut discard: Vec<u8> = vec![0u8; len];
                    let ghost before_r = sdio.events();
                    let rd = sdio.read_fifo(discard.as_mut_slice());
                    let ghost ev = HostEvent::ReadFifo {
                        len: len as nat,
                        result: match rd {
                            Ok(_) => Ok(discard@),
                            Err(x) => Err(x),
                        },
                    };
                    proof { lemma_drain_push(skip_other, rounds as nat, start, before_r, ev); }
                }
            },
            Err(_) => {
                return;
            },
        }
        i = i + 1;
    }
}

/// Reads and discards whatever the chip has queued in its read FIFO: up to
/// ten block-count reads, skipping other-interrupt reads and stopping at an
/// empty FIFO or a register error.  FIFO read errors are expected right
/// after the firmware starts and are ignored.
pub fn drain_stale_data<H: SdioHost>(sdio: &mut HostLog<H>)
    ensures
        extends(old(sdio).events(), final(sdio).events()),
        drain_run(true, 10, calls_since(old(sdio).events(), final(sdio).events())) == DrainPhase::Done,
{
    drain_rounds(sdio, 10, true);
}

/// The LMAC start-up requests: start the protocol stack, then reset the MAC.
pub open spec fn stack_start_ctx() -> PollCtx {
    poll_ctx(MM_SET_STACK_START_REQ, TASK_MM, seq![1u8, 0u8, 0u8, 0u8], true, 2)
}

/// The MAC reset request, awaiting an empty confirmation.
pub open spec fn reset_ctx() -> PollCtx {
    poll_ctx(MM_RESET_REQ, TASK_MM, Seq::empty(), true, 0)
}

/// The polled LMAC start-up over the host calls from `s0` to `s4`, split at
/// `s1`, `s2`, `s3`: a drain of five rounds, the stack-start request, the
/// reset request and a drain of ten rounds, stopping after the first failed
/// request with its error.
pub open spec fn lmac_init_calls(s0: Seq<HostEvent>, s1: Seq<HostEvent>, s2: Seq<HostEvent>, s3: Seq<HostEvent>,
    s4: Seq<HostEvent>, r: Result<(), &'static str>) -> bool {
    &&& extends(s0, s1) && extends(s1, s2)
    &&& drain_run(false, 5, calls_since(s0, s1)) == DrainPhase::Done
    &&& poll_run(stack_start_ctx(), calls_since(s1, s2)) matches PollPhase::Done { result: r1 }
    &&& if r1 is Err {
        r == Err::<(), &'static str>("MM_SET_STACK_START_REQ failed") && s4 == s2
    } else {
        &&& extends(s2, s3)
        &&& poll_run(reset_ctx(), calls_since(s2, s3)) matches PollPhase::Done { result: r2 }
        &&& if r2 is Err {
            r == Err::<(), &'static str>("MM_RESET_REQ failed") && s4 == s3
        } else {
            &&& extends(s3, s4)
            &&& drain_run(false, 10, calls_since(s3, s4)) == DrainPhase::Done
            &&& r == Ok::<(), &'static str>(())
        }
    }
}

/// Polled LMAC start-up after the firmware booted: wait for the firmware's
/// SDIO interface, drain stale data, start the protocol stack
/// (MM_SET_STACK_START_REQ), reset the MAC (MM_RESET_REQ), then drain what
/// that produced.  Each failed request gives its error.
pub fn lmac_polling_init<H: SdioHost>(sdio: &mut HostLog<H>) -> (r: Result<(), &'static str>)
    ensures
        exists|s1: Seq<HostEvent>, s2: Seq<HostEvent>, s3: Seq<HostEvent>|
            lmac_init_calls(old(sdio).events(), s1, s2, s3, final(sdio).events(), r),
{
    let ghost s0 = sdio.events();
    spin_wait(20_000_000);
    drain_rounds(sdio, 5, false);
    let ghost s1 = sdio.events();
    let stack_start_param: [u8; 4] = [0x01, 0x00, 0x00, 0x00];
    assert(stack_start_param@ =~= seq![1u8, 0u8, 0u8, 0u8]);
    let mut cfm = [0u8; 2];
    let r1 = polling_send_cmd(sdio, MM_SET_STACK_START_REQ, TASK_MM, &stack_start_param, true, &mut cfm);
    let ghost s2 = sdio.events();
    match r1 {
        Ok(_) => {},
        Err(_) => {
            assert(lmac_init_calls(s0, s1, s2, s2, s2, Err("MM_SET_STACK_START_REQ failed")));
            return Err("MM_SET_STACK_START_REQ failed");
        },
    }
    let empty: [u8; 0] = [];
    assert(empty@ =~= Seq::<u8>::empty());
    let mut reset_cfm: [u8; 0] = [];
    let r2 = polling_send_cmd(sdio, MM_RESET_REQ, TASK_MM, &empty, true, &mut reset_cfm);
    let ghost s3 = sdio.events();
    match r2 {
        Ok(_) => {},
        Err(_) => {
            assert(lmac_init_calls(s0, s1, s2, s3, s3, Err("MM_RESET_REQ failed")));
            return Err("MM_RESET_REQ failed");
        },
    }
    spin_wait(5_000_000);
    drain_rounds(sdio, 10, false);
    assert(lmac_init_calls(s0, s1, s2, s3, sdio.events(), Ok(())));
    Ok(())
}

} // verus!
