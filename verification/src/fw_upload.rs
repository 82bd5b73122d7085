//! Firmware upload and the per-chip boot sequences, stated as the exact
//! sequence of IPC frames each step sends.

use vstd::prelude::*;

use crate::chip_id::{
    ChipRevision, CHIP_REV_U01, FW_CONFIG_BASE_OFFSET, FW_UPLOAD_CHUNK_SIZE, HOST_START_APP_AUTO,
    HOST_START_APP_DUMMY, PATCH_ADDR_REG, PATCH_NUM_REG, PATCH_TBL_START_ADDR, RAM_FMAC_FW_ADDR,
    RAM_FMAC_FW_PATCH_ADDR, ROM_FMAC_FW_ADDR, ROM_FMAC_PATCH_ADDR, patch_table, patch_tbl,
    rf_masked_table, rf_tbl_masked, syscfg_masked_table, syscfg_tbl_masked,
};
use crate::chip_id::ChipVariant;
use crate::fw_select::FirmwareSet;
use crate::ipc::LMAC_FIRST_DBG;
use crate::ipc::{
    DbgMsgId, IpcTransport, block_write_payload, dbg_frame, ipc_mem_block_write, ipc_mem_mask_write,
    ipc_mem_read, ipc_mem_write, ipc_start_app, mask_write_payload, mem_read_payload, mem_write_payload,
    start_app_payload, HostEvent, SendPhase, exchange, extends, passes,
};
use crate::sdio::{SdioError, SdioHost};

verus! {

// ------------------------------------------------------------------
// Frame plans
// ------------------------------------------------------------------

/// `after` is `before` followed by all of `plan`.
pub open spec fn sent_all(before: Seq<Seq<u8>>, after: Seq<Seq<u8>>, plan: Seq<Seq<u8>>) -> bool {
    after == before + plan
}

/// `after` is `before` followed by a prefix of `plan`.
pub open spec fn sent_prefix(before: Seq<Seq<u8>>, after: Seq<Seq<u8>>, plan: Seq<Seq<u8>>) -> bool {
    exists|k: int| 0 <= k <= plan.len() && after == before + plan.take(k)
}

/// Nothing sent is a prefix.
pub proof fn lemma_nothing_is_prefix(s: Seq<Seq<u8>>, plan: Seq<Seq<u8>>)
    ensures
        sent_prefix(s, s, plan),
{
    assert(s + plan.take(0) =~= s);
}

/// A prefix of `p1` is a prefix of `p1 + p2`.
pub proof fn lemma_prefix_grow(before: Seq<Seq<u8>>, after: Seq<Seq<u8>>, p1: Seq<Seq<u8>>, p2: Seq<Seq<u8>>)
    requires
        sent_prefix(before, after, p1),
    ensures
        sent_prefix(before, after, p1 + p2),
{
    let k = choose|k: int| 0 <= k <= p1.len() && after == before + p1.take(k);
    assert((p1 + p2).take(k) =~= p1.take(k));
}

/// All of `p1` and then a prefix of `p2` is a prefix of `p1 + p2`.
pub proof fn lemma_prefix_after(before: Seq<Seq<u8>>, mid: Seq<Seq<u8>>, after: Seq<Seq<u8>>, p1: Seq<Seq<u8>>, p2: Seq<Seq<u8>>)
    requires
        sent_all(before, mid, p1),
        sent_prefix(mid, after, p2),
    ensures
        sent_prefix(before, after, p1 + p2),
{
    let k = choose|k: int| 0 <= k <= p2.len() && after == mid + p2.take(k);
    assert((p1 + p2).take(p1.len() + k) =~= p1 + p2.take(k));
    assert(after =~= before + (p1 + p2).take(p1.len() + k));
}

/// All of `p1` and then all of `p2` is all of `p1 + p2`.
pub proof fn lemma_all_after(before: Seq<Seq<u8>>, mid: Seq<Seq<u8>>, after: Seq<Seq<u8>>, p1: Seq<Seq<u8>>, p2: Seq<Seq<u8>>)
    requires
        sent_all(before, mid, p1),
        sent_all(mid, after, p2),
    ensures
        sent_all(before, after, p1 + p2),
{
    assert(after =~= before + (p1 + p2));
}

/// One frame, or none, is a prefix of the one-frame plan.
pub proof fn lemma_one_frame_prefix(before: Seq<Seq<u8>>, after: Seq<Seq<u8>>, f: Seq<u8>)
    requires
        after == before || after == before.push(f),
    ensures
        sent_prefix(before, after, seq![f]),
{
    if after == before {
        assert(before + seq![f].take(0) =~= before);
    } else {
        assert(before + seq![f].take(1) =~= before.push(f));
    }
}

// ------------------------------------------------------------------
// Message scripts
// ------------------------------------------------------------------

/// One debug request of a script: its message, payload and the size of
/// the confirmation awaited.
pub struct Msg {
    pub m: DbgMsgId,
    pub payload: Seq<u8>,
    pub cap: nat,
}

/// The exchange of `msg` over the host calls from `a` to `b`.
pub open spec fn msg_run(chip: ChipVariant, msg: Msg, a: Seq<HostEvent>, b: Seq<HostEvent>) -> SendPhase {
    exchange(chip, (LMAC_FIRST_DBG + msg.m.ordinal()) as u16, msg.payload, msg.cap, a, b)
}

/// The `i`-th exchange of the script, from cut `i` to cut `i + 1`, succeeded.
pub open spec fn link_ok(chip: ChipVariant, msgs: Seq<Msg>, cuts: Seq<Seq<HostEvent>>, i: int) -> bool {
    &&& extends(cuts[i], cuts[i + 1])
    &&& msg_run(chip, msgs[i], cuts[i], cuts[i + 1]) matches SendPhase::Done { result: Ok(_) }
}

/// The host calls, cut into `cuts`, carry the exchanges of `msgs` one
/// after another: every exchange but the last succeeded; the script gives
/// `Ok` when all of them were made and succeeded, and the error of the last
/// one when it failed (no request follows a failed one).
pub open spec fn ran(chip: ChipVariant, msgs: Seq<Msg>, cuts: Seq<Seq<HostEvent>>, r: Result<(), SdioError>) -> bool {
    let k = cuts.len() - 1;
    &&& 1 <= cuts.len() <= msgs.len() + 1
    &&& forall|i: int| 0 <= i < k - 1 ==> #[trigger] link_ok(chip, msgs, cuts, i)
    &&& if k == 0 {
        msgs.len() == 0 && r is Ok
    } else if link_ok(chip, msgs, cuts, k - 1) {
        k == msgs.len() && r is Ok
    } else {
        &&& r is Err
        &&& extends(cuts[k - 1], cuts[k])
        &&& msg_run(chip, msgs[k - 1], cuts[k - 1], cuts[k]) == (SendPhase::Done { result: Err(r->Err_0) })
    }
}

/// The host calls from `before` to `after` ran the requests `msgs` in
/// order with result `r`: `Ok` exactly when every request succeeded, else
/// the error of the first that failed, after which nothing was sent.
pub open spec fn script(chip: ChipVariant, msgs: Seq<Msg>, before: Seq<HostEvent>, after: Seq<HostEvent>,
    r: Result<(), SdioError>) -> bool {
    exists|cuts: Seq<Seq<HostEvent>>| cuts.len() >= 1 && cuts[0] == before && cuts.last() == after
        && #[trigger] ran(chip, msgs, cuts, r)
}

/// The host calls from `before` to `after` ran a leading part of `msgs`,
/// every request succeeding, and then stopped.
pub open spec fn refused(chip: ChipVariant, msgs: Seq<Msg>, before: Seq<HostEvent>, after: Seq<HostEvent>) -> bool {
    exists|k: int| 0 <= k <= msgs.len() && #[trigger] script(chip, msgs.take(k), before, after, Ok(()))
}

/// No request, no call, success.
pub proof fn lemma_script_empty(chip: ChipVariant, a: Seq<HostEvent>)
    ensures
        script(chip, Seq::empty(), a, a, Ok(())),
{
    let cuts = seq![a];
    assert(ran(chip, Seq::empty(), cuts, Ok(())));
}

/// Any success of a script is the success `Ok(())`.
pub proof fn lemma_script_ok(chip: ChipVariant, msgs: Seq<Msg>, a: Seq<HostEvent>, b: Seq<HostEvent>, r: Result<(), SdioError>)
    requires
        script(chip, msgs, a, b, r),
        r is Ok,
    ensures
        script(chip, msgs, a, b, Ok(())),
{
    let cuts = choose|cuts: Seq<Seq<HostEvent>>| cuts.len() >= 1 && cuts[0] == a && cuts.last() == b
        && #[trigger] ran(chip, msgs, cuts, r);
    assert(ran(chip, msgs, cuts, Ok(())));
}

/// A successful script is a script with any success.
pub proof fn lemma_script_ok_as(chip: ChipVariant, msgs: Seq<Msg>, a: Seq<HostEvent>, b: Seq<HostEvent>, r: Result<(), SdioError>)
    requires
        script(chip, msgs, a, b, Ok(())),
        r is Ok,
    ensures
        script(chip, msgs, a, b, r),
{
    let cuts = choose|cuts: Seq<Seq<HostEvent>>| cuts.len() >= 1 && cuts[0] == a && cuts.last() == b
        && #[trigger] ran(chip, msgs, cuts, Ok(()));
    assert(ran(chip, msgs, cuts, r));
}

/// A successful script followed by a successful exchange of `m`.
pub proof fn lemma_script_push_ok(chip: ChipVariant, msgs: Seq<Msg>, m: Msg, a: Seq<HostEvent>, b: Seq<HostEvent>,
    c: Seq<HostEvent>)
    requires
        script(chip, msgs, a, b, Ok(())),
        extends(b, c),
        msg_run(chip, m, b, c) matches SendPhase::Done { result: Ok(_) },
    ensures
        script(chip, msgs.push(m), a, c, Ok(())),
{
    let cuts = choose|cuts: Seq<Seq<HostEvent>>| cuts.len() >= 1 && cuts[0] == a && cuts.last() == b
        && #[trigger] ran(chip, msgs, cuts, Ok(()));
    let k = cuts.len() - 1;
    let ms = msgs.push(m);
    let nc = cuts.push(c);
    assert(k == msgs.len()) by {
        if k != 0 && !link_ok(chip, msgs, cuts, k - 1) {
        }
    }
    assert forall|i: int| 0 <= i < nc.len() - 2 implies #[trigger] link_ok(chip, ms, nc, i) by {
        assert(nc[i] == cuts[i] && nc[i + 1] == cuts[i + 1] && ms[i] == msgs[i]);
        if i < k - 1 {
            assert(link_ok(chip, msgs, cuts, i));
        } else {
            assert(link_ok(chip, msgs, cuts, k - 1));
        }
    }
    assert(nc[k] == b && nc[k + 1] == c && ms[k] == m);
    assert(link_ok(chip, ms, nc, k));
    assert(ran(chip, ms, nc, Ok(())));
}

/// A successful script followed by a failed exchange of `m`: the script of
/// `msgs`, `m` and anything after fails with that error.
pub proof fn lemma_script_push_err(chip: ChipVariant, msgs: Seq<Msg>, m: Msg, rest: Seq<Msg>, a: Seq<HostEvent>,
    b: Seq<HostEvent>, c: Seq<HostEvent>, e: SdioError)
    requires
        script(chip, msgs, a, b, Ok(())),
        extends(b, c),
        msg_run(chip, m, b, c) == (SendPhase::Done { result: Err(e) }),
    ensures
        script(chip, msgs.push(m) + rest, a, c, Err(e)),
{
    let cuts = choose|cuts: Seq<Seq<HostEvent>>| cuts.len() >= 1 && cuts[0] == a && cuts.last() == b
        && #[trigger] ran(chip, msgs, cuts, Ok(()));
    let k = cuts.len() - 1;
    let ms = msgs.push(m) + rest;
    let nc = cuts.push(c);
    assert(k == msgs.len()) by {
        if k != 0 && !link_ok(chip, msgs, cuts, k - 1) {
        }
    }
    assert forall|i: int| 0 <= i < nc.len() - 2 implies #[trigger] link_ok(chip, ms, nc, i) by {
        assert(nc[i] == cuts[i] && nc[i + 1] == cuts[i + 1] && ms[i] == msgs[i]);
        if i < k - 1 {
            assert(link_ok(chip, msgs, cuts, i));
        } else {
            assert(link_ok(chip, msgs, cuts, k - 1));
        }
    }
    assert(nc[k] == b && nc[k + 1] == c && ms[k] == m);
    assert(!link_ok(chip, ms, nc, k));
    assert(ran(chip, ms, nc, Err(e)));
}

/// A failed script stays failed, with the same error, when more requests
/// are planned after it.
pub proof fn lemma_script_err_grow(chip: ChipVariant, msgs: Seq<Msg>, rest: Seq<Msg>, a: Seq<HostEvent>,
    b: Seq<HostEvent>, e: SdioError)
    requires
        script(chip, msgs, a, b, Err(e)),
    ensures
        script(chip, msgs + rest, a, b, Err(e)),
{
    let cuts = choose|cuts: Seq<Seq<HostEvent>>| cuts.len() >= 1 && cuts[0] == a && cuts.last() == b
        && #[trigger] ran(chip, msgs, cuts, Err(e));
    let k = cuts.len() - 1;
    let ms = msgs + rest;
    assert forall|i: int| 0 <= i < k - 1 implies #[trigger] link_ok(chip, ms, cuts, i) by {
        assert(link_ok(chip, msgs, cuts, i));
        assert(ms[i] == msgs[i]);
    }
    assert(ms[k - 1] == msgs[k - 1]);
    assert(ran(chip, ms, cuts, Err(e)));
}

/// A successful script followed by another script is a script of both.
pub proof fn lemma_script_concat(chip: ChipVariant, m1: Seq<Msg>, m2: Seq<Msg>, a: Seq<HostEvent>, b: Seq<HostEvent>,
    c: Seq<HostEvent>, r: Result<(), SdioError>)
    requires
        script(chip, m1, a, b, Ok(())),
        script(chip, m2, b, c, r),
    ensures
        script(chip, m1 + m2, a, c, r),
{
    let c1 = choose|cuts: Seq<Seq<HostEvent>>| cuts.len() >= 1 && cuts[0] == a && cuts.last() == b
        && #[trigger] ran(chip, m1, cuts, Ok(()));
    let c2 = choose|cuts: Seq<Seq<HostEvent>>| cuts.len() >= 1 && cuts[0] == b && cuts.last() == c
        && #[trigger] ran(chip, m2, cuts, r);
    let k1 = c1.len() - 1;
    let k2 = c2.len() - 1;
    assert(k1 == m1.len()) by {
        if k1 != 0 && !link_ok(chip, m1, c1, k1 - 1) {
        }
    }
    let ms = m1 + m2;
    let nc = c1 + c2.subrange(1, c2.len() as int);
    assert(nc.len() == k1 + k2 + 1);
    assert forall|i: int| 0 <= i < k2 + 1 implies nc[k1 + i] == c2[i] by {
        if i == 0 {
            assert(nc[k1] == c1[k1]);
        }
    }
    assert forall|i: int| 0 <= i < k1 + 1 implies nc[i] == c1[i] by {}
    assert forall|i: int| 0 <= i < m2.len() implies ms[m1.len() + i] == m2[i] by {}
    assert forall|i: int| 0 <= i < nc.len() - 2 implies #[trigger] link_ok(chip, ms, nc, i) by {
        if i < k1 {
            assert(nc[i] == c1[i] && nc[i + 1] == c1[i + 1] && ms[i] == m1[i]);
            if i < k1 - 1 {
                assert(link_ok(chip, m1, c1, i));
            } else {
                assert(link_ok(chip, m1, c1, k1 - 1));
            }
        } else {
            let j = i - k1;
            assert(nc[i] == c2[j] && nc[i + 1] == c2[j + 1] && ms[i] == m2[j]);
            assert(link_ok(chip, m2, c2, j));
        }
    }
    if k2 == 0 {
        assert(ms =~= m1);
        assert(nc =~= c1);
    } else {
        let j = k2 - 1;
        assert(nc[k1 + j] == c2[j] && nc[k1 + j + 1] == c2[j + 1] && ms[k1 + j] == m2[j]);
        if link_ok(chip, m2, c2, j) {
            assert(link_ok(chip, ms, nc, k1 + j));
        } else {
            assert(!link_ok(chip, ms, nc, k1 + j));
        }
    }
    assert(ran(chip, ms, nc, r));
    assert(nc[0] == a && nc.last() == c);
}

/// The host-call log only grows.
pub proof fn lemma_extends_trans(a: Seq<HostEvent>, b: Seq<HostEvent>, c: Seq<HostEvent>)
    requires
        extends(a, b),
        extends(b, c),
    ensures
        extends(a, c),
{
    assert(c.subrange(0, a.len() as int) =~= c.subrange(0, b.len() as int).subrange(0, a.len() as int));
}

/// `r` without its value.
pub open spec fn unit_of<T>(r: Result<T, SdioError>) -> Result<(), SdioError> {
    match r {
        Ok(_) => Ok(()),
        Err(e) => Err(e),
    }
}

/// A single exchange is a script of one request.
pub proof fn lemma_script_one<T>(chip: ChipVariant, m: Msg, a: Seq<HostEvent>, b: Seq<HostEvent>, r: Result<T, SdioError>)
    requires
        extends(a, b),
        passes(r, msg_run(chip, m, a, b)),
    ensures
        script(chip, seq![m], a, b, unit_of(r)),
{
    lemma_script_empty(chip, a);
    assert(Seq::<Msg>::empty().push(m) =~= seq![m]);
    match r {
        Ok(_) => {
            lemma_script_push_ok(chip, Seq::empty(), m, a, a, b);
        },
        Err(e) => {
            lemma_script_push_err(chip, Seq::empty(), m, Seq::empty(), a, a, b, e);
            assert(Seq::<Msg>::empty().push(m) + Seq::<Msg>::empty() =~= seq![m]);
        },
    }
}

// ------------------------------------------------------------------
// Firmware upload
// ------------------------------------------------------------------

/// `x` reduced modulo 2^32.
pub open spec fn wrap32(x: int) -> u32 {
    (x % 0x1_0000_0000) as u32
}

/// Number of upload chunks: full 1024-byte chunks plus one for a remainder.
pub open spec fn chunk_count(len: nat) -> nat {
    (len + 1023) / 1024
}

/// Chunk `i` of `data`.
pub open spec fn chunk(data: Seq<u8>, i: int) -> Seq<u8> {
    let end = if (i + 1) * 1024 <= data.len() { (i + 1) * 1024 } else { data.len() as int };
    data.subrange(i * 1024, end)
}

/// The block writes that upload `data` to `addr`: chunk `i` goes to
/// `addr + 1024 * i` (mod 2^32).
pub open spec fn upload_plan(chip: crate::chip_id::ChipVariant, data: Seq<u8>, addr: u32) -> Seq<Seq<u8>> {
    Seq::new(chunk_count(data.len()), |i: int|
        dbg_frame(chip, DbgMsgId::MemBlockWriteReq, block_write_payload(wrap32(addr + i * 1024), chunk(data, i))))
}

/// The block-write requests that upload `data` to `addr`, one per chunk.
pub open spec fn upload_msgs(data: Seq<u8>, addr: u32) -> Seq<Msg> {
    Seq::new(chunk_count(data.len()), |i: int|
        Msg { m: DbgMsgId::MemBlockWriteReq, payload: block_write_payload(wrap32(addr + i * 1024), chunk(data, i)), cap: 4 })
}

/// The address of a trailing partial chunk does not pass 2^32 (the
/// remainder is addressed without wrapping).
pub open spec fn upload_fits(addr: u32, len: nat) -> bool {
    len % 1024 != 0 ==> addr + (len / 1024 * 1024) % 0x1_0000_0000 <= u32::MAX
}

proof fn lemma_wrap_step(a: u32, off: int)
    requires
        off >= 0,
    ensures
        wrap32(a + off + 1024) == vstd::wrapping::u32_specs::wrapping_add(wrap32(a + off), 1024),
{
    vstd::arithmetic::div_mod::lemma_add_mod_noop(a + off, 1024, 0x1_0000_0000);
    assert(1024int % 0x1_0000_0000 == 1024);
    vstd::arithmetic::div_mod::lemma_mod_bound(a + off, 0x1_0000_0000);
    let m = (a + off) % 0x1_0000_0000;
    if m + 1024 >= 0x1_0000_0000 {
        vstd::arithmetic::div_mod::lemma_mod_sub_multiples_vanish(m + 1024, 0x1_0000_0000);
        vstd::arithmetic::div_mod::lemma_small_mod((m + 1024 - 0x1_0000_0000) as nat, 0x1_0000_0000);
    } else {
        vstd::arithmetic::div_mod::lemma_small_mod((m + 1024) as nat, 0x1_0000_0000);
    }
}

/// Uploads `fw_data` to chip memory at `fw_addr` in 1024-byte block writes
/// and a final shorter one.  Empty data is refused with `Unsupported`.
#[verifier::rlimit(100)]
#[verifier::spinoff_prover]
pub fn upload_firmware<H: SdioHost>(transport: &mut IpcTransport<H>, fw_data: &[u8], fw_addr: u32) -> (r: Result<(), SdioError>)
    requires
        upload_fits(fw_addr, fw_data@.len()),
    ensures
        final(transport).variant() == old(transport).variant(),
        fw_data@.len() == 0 ==> r == Err::<(), SdioError>(SdioError::Unsupported) && final(transport).frames() == old(transport).frames(),
        r is Ok ==> sent_all(old(transport).frames(), final(transport).frames(),
            upload_plan(old(transport).variant(), fw_data@, fw_addr)),
        r is Err ==> sent_prefix(old(transport).frames(), final(transport).frames(),
            upload_plan(old(transport).variant(), fw_data@, fw_addr)),
        extends(old(transport).host_calls(), final(transport).host_calls()),
        fw_data@.len() == 0 ==> final(transport).host_calls() == old(transport).host_calls(),
        fw_data@.len() > 0 ==> script(old(transport).variant(), upload_msgs(fw_data@, fw_addr),
            old(transport).host_calls(), final(transport).host_calls(), r),
{
    let size = fw_data.len();
    if size == 0 {
        proof {
            lemma_nothing_is_prefix(transport.frames(), upload_plan(transport.variant(), fw_data@, fw_addr));
            assert(transport.host_calls().subrange(0, transport.host_calls().len() as int) =~= transport.host_calls());
        }
        return Err(SdioError::Unsupported);
    }
    let ghost chip = transport.variant();
    let ghost start = transport.frames();
    let ghost plan = upload_plan(chip, fw_data@, fw_addr);
    let ghost calls0 = transport.host_calls();
    let ghost msgs = upload_msgs(fw_data@, fw_addr);
    proof {
        lemma_script_empty(chip, calls0);
        assert(msgs.take(0) =~= Seq::<Msg>::empty());
        assert(calls0.subrange(0, calls0.len() as int) =~= calls0);
    }
    let mut offset: usize = 0;
    let mut chunk_addr: u32 = fw_addr;
    let ghost mut i: int = 0;
    assert(start + plan.take(0) =~= start);
    while size - offset >= FW_UPLOAD_CHUNK_SIZE
        invariant
            0 <= i,
            offset == i * 1024,
            offset <= size,
            size == fw_data@.len(),
            i <= chunk_count(size as nat),
            chunk_addr == wrap32(fw_addr + offset),
            plan == upload_plan(chip, fw_data@, fw_addr),
            chip == old(transport).variant(),
            transport.variant() == chip,
            start == old(transport).frames(),
            transport.frames() == start + plan.take(i),
            calls0 == old(transport).host_calls(),
            msgs == upload_msgs(fw_data@, fw_addr),
            extends(calls0, transport.host_calls()),
            script(chip, msgs.take(i), calls0, transport.host_calls(), Ok(())),
        decreases size - offset,
    {
        let part = vstd::slice::slice_subrange(fw_data, offset, offset + FW_UPLOAD_CHUNK_SIZE);
        assert(part@ =~= chunk(fw_data@, i));
        let ghost before = transport.frames();
        let ghost cb = transport.host_calls();
        let r = ipc_mem_block_write(transport, chunk_addr, part);
        proof {
            lemma_extends_trans(calls0, cb, transport.host_calls());
            assert(msgs.take(i).push(msgs[i]) =~= msgs.take(i + 1));
            assert(msgs[i] == Msg { m: DbgMsgId::MemBlockWriteReq, payload: block_write_payload(chunk_addr, part@), cap: 4 });
        }
        match r {
            Ok(()) => {
                proof { lemma_script_push_ok(chip, msgs.take(i), msgs[i], calls0, cb, transport.host_calls()); }
            },
            Err(e) => {
                proof {
                    lemma_script_push_err(chip, msgs.take(i), msgs[i], msgs.skip(i + 1), calls0, cb, transport.host_calls(), e);
                    assert(msgs.take(i).push(msgs[i]) + msgs.skip(i + 1) =~= msgs);
                    if transport.frames() == before.push(plan[i]) {
                        assert(transport.frames() =~= start + plan.take(i + 1));
                    } else {
                        assert(transport.frames() == start + plan.take(i));
                    }
                }
                return Err(e);
            },
        }
        proof {
            lemma_wrap_step(fw_addr, offset as int);
            assert(transport.frames() =~= start + plan.take(i + 1));
        }
        chunk_addr = chunk_addr.wrapping_add(1024);
        offset = offset + FW_UPLOAD_CHUNK_SIZE;
        proof { i = i + 1; }
    }
    if offset < size {
        proof {
            assert(i < chunk_count(size as nat));
            vstd::arithmetic::div_mod::lemma_small_mod(fw_addr as nat, 0x1_0000_0000);
            assert(i * 1024 == size / 1024 * 1024);
            vstd::arithmetic::div_mod::lemma_add_mod_noop_right(fw_addr as int, offset as int, 0x1_0000_0000);
            vstd::arithmetic::div_mod::lemma_small_mod((fw_addr + (offset as int) % 0x1_0000_0000) as nat, 0x1_0000_0000);
        }
        let part = vstd::slice::slice_subrange(fw_data, offset, size);
        assert(part@ =~= chunk(fw_data@, i));
        let ghost before = transport.frames();
        let ghost cb = transport.host_calls();
        let r = ipc_mem_block_write(transport, chunk_addr, part);
        proof {
            lemma_extends_trans(calls0, cb, transport.host_calls());
            assert(msgs.take(i).push(msgs[i]) =~= msgs.take(i + 1));
            assert(msgs[i] == Msg { m: DbgMsgId::MemBlockWriteReq, payload: block_write_payload(chunk_addr, part@), cap: 4 });
        }
        match r {
            Ok(()) => {
                proof { lemma_script_push_ok(chip, msgs.take(i), msgs[i], calls0, cb, transport.host_calls()); }
            },
            Err(e) => {
                proof {
                    lemma_script_push_err(chip, msgs.take(i), msgs[i], msgs.skip(i + 1), calls0, cb, transport.host_calls(), e);
                    assert(msgs.take(i).push(msgs[i]) + msgs.skip(i + 1) =~= msgs);
                    if transport.frames() == before.push(plan[i]) {
                        assert(transport.frames() =~= start + plan.take(i + 1));
                    } else {
                        assert(transport.frames() == start + plan.take(i));
                    }
                }
                return Err(e);
            },
        }
        proof {
            assert(transport.frames() =~= start + plan.take(i + 1));
            i = i + 1;
        }
    }
    assert(i == chunk_count(size as nat));
    assert(plan.take(i) =~= plan);
    assert(msgs.take(i) =~= msgs);
    Ok(())
}

// ------------------------------------------------------------------
// Register tables
// ------------------------------------------------------------------

/// The memory writes of `tbl`, in order.
pub open spec fn mem_write_plan(chip: crate::chip_id::ChipVariant, tbl: Seq<(u32, u32)>) -> Seq<Seq<u8>> {
    Seq::new(tbl.len(), |i: int| dbg_frame(chip, DbgMsgId::MemWriteReq, mem_write_payload(tbl[i].0, tbl[i].1)))
}

/// The masked writes of `tbl`, in order.
pub open spec fn mask_write_plan(chip: crate::chip_id::ChipVariant, tbl: Seq<(u32, u32, u32)>) -> Seq<Seq<u8>> {
    Seq::new(tbl.len(), |i: int| dbg_frame(chip, DbgMsgId::MemMaskWriteReq, mask_write_payload(tbl[i].0, tbl[i].1, tbl[i].2)))
}

/// The memory-write requests of `tbl`, in order.
pub open spec fn mem_write_msgs(tbl: Seq<(u32, u32)>) -> Seq<Msg> {
    Seq::new(tbl.len(), |i: int| Msg { m: DbgMsgId::MemWriteReq, payload: mem_write_payload(tbl[i].0, tbl[i].1), cap: 8 })
}

/// The masked-write requests of `tbl`, in order.
pub open spec fn mask_write_msgs(tbl: Seq<(u32, u32, u32)>) -> Seq<Msg> {
    Seq::new(tbl.len(), |i: int|
        Msg { m: DbgMsgId::MemMaskWriteReq, payload: mask_write_payload(tbl[i].0, tbl[i].1, tbl[i].2), cap: 8 })
}

/// Sends one memory write per entry of `tbl`, stopping at the first error.
pub fn send_mem_writes<H: SdioHost>(transport: &mut IpcTransport<H>, tbl: &Vec<(u32, u32)>) -> (r: Result<(), SdioError>)
    ensures
        final(transport).variant() == old(transport).variant(),
        r is Ok ==> sent_all(old(transport).frames(), final(transport).frames(), mem_write_plan(old(transport).variant(), tbl@)),
        r is Err ==> sent_prefix(old(transport).frames(), final(transport).frames(), mem_write_plan(old(transport).variant(), tbl@)),
        extends(old(transport).host_calls(), final(transport).host_calls()),
        script(old(transport).variant(), mem_write_msgs(tbl@), old(transport).host_calls(), final(transport).host_calls(), r),
{
    let ghost start = transport.frames();
    let ghost plan = mem_write_plan(transport.variant(), tbl@);
    let ghost chip = transport.variant();
    let ghost calls0 = transport.host_calls();
    let ghost msgs = mem_write_msgs(tbl@);
    proof {
        lemma_script_empty(chip, calls0);
        assert(msgs.take(0) =~= Seq::<Msg>::empty());
        assert(calls0.subrange(0, calls0.len() as int) =~= calls0);
    }
    let mut i: usize = 0;
    assert(start + plan.take(0) =~= start);
    while i < tbl.len()
        invariant
            i <= tbl.len(),
            plan == mem_write_plan(old(transport).variant(), tbl@),
            transport.variant() == old(transport).variant(),
            start == old(transport).frames(),
            transport.frames() == start + plan.take(i as int),
            chip == old(transport).variant(),
            calls0 == old(transport).host_calls(),
            msgs == mem_write_msgs(tbl@),
            extends(calls0, transport.host_calls()),
            script(chip, msgs.take(i as int), calls0, transport.host_calls(), Ok(())),
        decreases tbl.len() - i,
    {
        let (addr, data) = tbl[i];
        let ghost before = transport.frames();
        let ghost cb = transport.host_calls();
        let rw = ipc_mem_write(transport, addr, data);
        proof {
            lemma_extends_trans(calls0, cb, transport.host_calls());
            assert(msgs.take(i as int).push(msgs[i as int]) =~= msgs.take(i + 1));
        }
        match rw {
            Ok(()) => {
                proof { lemma_script_push_ok(chip, msgs.take(i as int), msgs[i as int], calls0, cb, transport.host_calls()); }
            },
            Err(e) => {
                proof {
                    lemma_script_push_err(chip, msgs.take(i as int), msgs[i as int], msgs.skip(i + 1), calls0, cb, transport.host_calls(), e);
                    assert(msgs.take(i as int).push(msgs[i as int]) + msgs.skip(i + 1) =~= msgs);
                    if transport.frames() == before.push(plan[i as int]) {
                        assert(transport.frames() =~= start + plan.take(i + 1));
                    }
                }
                return Err(e);
            },
        }
        assert(transport.frames() =~= start + plan.take(i + 1));
        i = i + 1;
    }
    assert(plan.take(i as int) =~= plan);
    assert(msgs.take(i as int) =~= msgs);
    Ok(())
}

/// Sends one masked write per entry of `tbl`, stopping at the first error.
pub fn send_mask_writes<H: SdioHost>(transport: &mut IpcTransport<H>, tbl: &Vec<(u32, u32, u32)>) -> (r: Result<(), SdioError>)
    ensures
        final(transport).variant() == old(transport).variant(),
        r is Ok ==> sent_all(old(transport).frames(), final(transport).frames(), mask_write_plan(old(transport).variant(), tbl@)),
        r is Err ==> sent_prefix(old(transport).frames(), final(transport).frames(), mask_write_plan(old(transport).variant(), tbl@)),
        extends(old(transport).host_calls(), final(transport).host_calls()),
        script(old(transport).variant(), mask_write_msgs(tbl@), old(transport).host_calls(), final(transport).host_calls(), r),
{
    let ghost start = transport.frames();
    let ghost plan = mask_write_plan(transport.variant(), tbl@);
    let ghost chip = transport.variant();
    let ghost calls0 = transport.host_calls();
    let ghost msgs = mask_write_msgs(tbl@);
    proof {
        lemma_script_empty(chip, calls0);
        assert(msgs.take(0) =~= Seq::<Msg>::empty());
        assert(calls0.subrange(0, calls0.len() as int) =~= calls0);
    }
    let mut i: usize = 0;
    assert(start + plan.take(0) =~= start);
    while i < tbl.len()
        invariant
            i <= tbl.len(),
            plan == mask_write_plan(old(transport).variant(), tbl@),
            transport.variant() == old(transport).variant(),
            start == old(transport).frames(),
            transport.frames() == start + plan.take(i as int),
            chip == old(transport).variant(),
            calls0 == old(transport).host_calls(),
            msgs == mask_write_msgs(tbl@),
            extends(calls0, transport.host_calls()),
            script(chip, msgs.take(i as int), calls0, transport.host_calls(), Ok(())),
        decreases tbl.len() - i,
    {
        let (addr, mask, data) = tbl[i];
        let ghost before = transport.frames();
        let ghost cb = transport.host_calls();
        let rw = ipc_mem_mask_write(transport, addr, mask, data);
        proof {
            lemma_extends_trans(calls0, cb, transport.host_calls());
            assert(msgs.take(i as int).push(msgs[i as int]) =~= msgs.take(i + 1));
        }
        match rw {
            Ok(()) => {
                proof { lemma_script_push_ok(chip, msgs.take(i as int), msgs[i as int], calls0, cb, transport.host_calls()); }
            },
            Err(e) => {
                proof {
                    lemma_script_push_err(chip, msgs.take(i as int), msgs[i as int], msgs.skip(i + 1), calls0, cb, transport.host_calls(), e);
                    assert(msgs.take(i as int).push(msgs[i as int]) + msgs.skip(i + 1) =~= msgs);
                    if transport.frames() == before.push(plan[i as int]) {
                        assert(transport.frames() =~= start + plan.take(i + 1));
                    }
                }
                return Err(e);
            },
        }
        assert(transport.frames() =~= start + plan.take(i + 1));
        i = i + 1;
    }
    assert(plan.take(i as int) =~= plan);
    assert(msgs.take(i as int) =~= msgs);
    Ok(())
}

// ------------------------------------------------------------------
// AIC8801 patch table and system configuration
// ------------------------------------------------------------------

/// Where the firmware keeps its configuration base in RAM.
pub open spec fn config_base_addr() -> u32 {
    (RAM_FMAC_FW_ADDR + FW_CONFIG_BASE_OFFSET) as u32
}

/// The patch entry writes for configuration base `cb`: per entry, its
/// address (`entry.0 + cb`, mod 2^32) and then its value, at consecutive
/// words from `PATCH_TBL_START_ADDR`.
pub open spec fn patch_entry_plan(chip: crate::chip_id::ChipVariant, cb: u32) -> Seq<Seq<u8>> {
    Seq::new(2 * patch_tbl().len(), |j: int|
        if j % 2 == 0 {
            dbg_frame(chip, DbgMsgId::MemWriteReq, mem_write_payload((PATCH_TBL_START_ADDR + 8 * (j / 2)) as u32,
                vstd::wrapping::u32_specs::wrapping_add(patch_tbl()[j / 2].0, cb)))
        } else {
            dbg_frame(chip, DbgMsgId::MemWriteReq, mem_write_payload((PATCH_TBL_START_ADDR + 8 * (j / 2) + 4) as u32,
                patch_tbl()[j / 2].1))
        })
}

/// The frames of the AIC8801 patch configuration once the configuration
/// base read back is `cb`.
pub open spec fn patch_config_plan(chip: crate::chip_id::ChipVariant, cb: u32) -> Seq<Seq<u8>> {
    seq![
        dbg_frame(chip, DbgMsgId::MemReadReq, mem_read_payload(config_base_addr())),
        dbg_frame(chip, DbgMsgId::MemWriteReq, mem_write_payload(PATCH_ADDR_REG, PATCH_TBL_START_ADDR)),
        dbg_frame(chip, DbgMsgId::MemWriteReq, mem_write_payload(PATCH_NUM_REG, (2 * patch_tbl().len()) as u32)),
    ] + patch_entry_plan(chip, cb)
}

/// The requests of the AIC8801 patch configuration once the configuration
/// base read back is `cb`.
pub open spec fn patch_config_msgs(cb: u32) -> Seq<Msg> {
    seq![
        Msg { m: DbgMsgId::MemReadReq, payload: mem_read_payload(config_base_addr()), cap: 8 },
        Msg { m: DbgMsgId::MemWriteReq, payload: mem_write_payload(PATCH_ADDR_REG, PATCH_TBL_START_ADDR), cap: 8 },
        Msg { m: DbgMsgId::MemWriteReq, payload: mem_write_payload(PATCH_NUM_REG, (2 * patch_tbl().len()) as u32), cap: 8 },
    ] + Seq::new(2 * patch_tbl().len(), |j: int|
        if j % 2 == 0 {
            Msg { m: DbgMsgId::MemWriteReq, payload: mem_write_payload((PATCH_TBL_START_ADDR + 8 * (j / 2)) as u32,
                vstd::wrapping::u32_specs::wrapping_add(patch_tbl()[j / 2].0, cb)), cap: 8 }
        } else {
            Msg { m: DbgMsgId::MemWriteReq, payload: mem_write_payload((PATCH_TBL_START_ADDR + 8 * (j / 2) + 4) as u32,
                patch_tbl()[j / 2].1), cap: 8 }
        })
}

/// AIC8801 patch table configuration: reads the firmware's configuration
/// base, points the patch registers at the table, then writes each entry's
/// address (relative to the base) and value.
pub fn aicwifi_patch_config<H: SdioHost>(transport: &mut IpcTransport<H>) -> (r: Result<(), SdioError>)
    ensures
        final(transport).variant() == old(transport).variant(),
        r is Ok ==> exists|cb: u32| sent_all(old(transport).frames(), final(transport).frames(),
            #[trigger] patch_config_plan(old(transport).variant(), cb)),
        r is Err ==> exists|cb: u32| sent_prefix(old(transport).frames(), final(transport).frames(),
            #[trigger] patch_config_plan(old(transport).variant(), cb)),
        extends(old(transport).host_calls(), final(transport).host_calls()),
        exists|cb: u32| script(old(transport).variant(), #[trigger] patch_config_msgs(cb), old(transport).host_calls(),
            final(transport).host_calls(), r),
{
    let ghost chip = transport.variant();
    let ghost start = transport.frames();
    let ghost c0 = transport.host_calls();
    proof { lemma_script_empty(chip, c0); }
    let tbl = patch_table();
    let patch_num: u32 = (tbl.len() as u32) * 2;
    let start_addr: u32 = PATCH_TBL_START_ADDR;
    let rd_addr: u32 = RAM_FMAC_FW_ADDR + FW_CONFIG_BASE_OFFSET;
    let rr = ipc_mem_read(transport, rd_addr);
    proof {
        let ms0 = patch_config_msgs(0);
        assert(Seq::<Msg>::empty().push(ms0[0]) + ms0.skip(1) =~= ms0);
        assert(ms0[0] == Msg { m: DbgMsgId::MemReadReq, payload: mem_read_payload(rd_addr), cap: 8 });
    }
    let cb = match rr {
        Ok(v) => v,
        Err(e) => {
            proof {
                let ms0 = patch_config_msgs(0);
                lemma_script_push_err(chip, Seq::empty(), ms0[0], ms0.skip(1), c0, c0, transport.host_calls(), e);
                assert(script(chip, patch_config_msgs(0), c0, transport.host_calls(), Err(e)));
                let plan = patch_config_plan(chip, 0);
                if transport.frames() == start {
                    assert(start + plan.take(0) =~= start);
                } else {
                    assert(transport.frames() =~= start + plan.take(1));
                }
                assert(sent_prefix(start, transport.frames(), plan));
            }
            return Err(e);
        },
    };
    let ghost plan = patch_config_plan(chip, cb);
    let ghost msgs = patch_config_msgs(cb);
    proof {
        assert(Seq::<Msg>::empty().push(msgs[0]) =~= msgs.take(1));
        lemma_script_push_ok(chip, Seq::empty(), msgs[0], c0, c0, transport.host_calls());
    }
    assert(transport.frames() =~= start + plan.take(1));
    let ghost before = transport.frames();
    let ghost cb1 = transport.host_calls();
    let w1 = ipc_mem_write(transport, PATCH_ADDR_REG, start_addr);
    proof {
        lemma_extends_trans(c0, cb1, transport.host_calls());
        assert(msgs.take(1).push(msgs[1]) =~= msgs.take(2));
    }
    match w1 {
        Ok(()) => {
            proof { lemma_script_push_ok(chip, msgs.take(1), msgs[1], c0, cb1, transport.host_calls()); }
        },
        Err(e) => {
            proof {
                lemma_script_push_err(chip, msgs.take(1), msgs[1], msgs.skip(2), c0, cb1, transport.host_calls(), e);
                assert(msgs.take(1).push(msgs[1]) + msgs.skip(2) =~= msgs);
                if transport.frames() != before {
                    assert(transport.frames() =~= start + plan.take(2));
                }
                assert(sent_prefix(start, transport.frames(), plan));
            }
            return Err(e);
        },
    }
    assert(transport.frames() =~= start + plan.take(2));
    let ghost before = transport.frames();
    let ghost cb2 = transport.host_calls();
    let w2 = ipc_mem_write(transport, PATCH_NUM_REG, patch_num);
    proof {
        lemma_extends_trans(c0, cb2, transport.host_calls());
        assert(msgs.take(2).push(msgs[2]) =~= msgs.take(3));
    }
    match w2 {
        Ok(()) => {
            proof { lemma_script_push_ok(chip, msgs.take(2), msgs[2], c0, cb2, transport.host_calls()); }
        },
        Err(e) => {
            proof {
                lemma_script_push_err(chip, msgs.take(2), msgs[2], msgs.skip(3), c0, cb2, transport.host_calls(), e);
                assert(msgs.take(2).push(msgs[2]) + msgs.skip(3) =~= msgs);
                if transport.frames() != before {
                    assert(transport.frames() =~= start + plan.take(3));
                }
                assert(sent_prefix(start, transport.frames(), plan));
            }
            return Err(e);
        },
    }
    assert(transport.frames() =~= start + plan.take(3));
    let mut k: usize = 0;
    while k < tbl.len()
        invariant
            k <= tbl.len(),
            tbl@ == patch_tbl(),
            start_addr == PATCH_TBL_START_ADDR,
            plan == patch_config_plan(chip, cb),
            chip == old(transport).variant(),
            transport.variant() == chip,
            start == old(transport).frames(),
            transport.frames() == start + plan.take(3 + 2 * k),
            msgs == patch_config_msgs(cb),
            c0 == old(transport).host_calls(),
            extends(c0, transport.host_calls()),
            script(chip, msgs.take(3 + 2 * k), c0, transport.host_calls(), Ok(())),
        decreases tbl.len() - k,
    {
        let (off, val) = tbl[k];
        let offset: u32 = (k as u32) * 8;
        let ghost before = transport.frames();
        let ghost ca = transport.host_calls();
        let wa = ipc_mem_write(transport, start_addr + offset, off.wrapping_add(cb));
        proof {
            lemma_extends_trans(c0, ca, transport.host_calls());
            assert(msgs.take(3 + 2 * k).push(msgs[3 + 2 * k]) =~= msgs.take(3 + 2 * k + 1));
        }
        match wa {
            Ok(()) => {
                proof { lemma_script_push_ok(chip, msgs.take(3 + 2 * k), msgs[3 + 2 * k], c0, ca, transport.host_calls()); }
            },
            Err(e) => {
                proof {
                    lemma_script_push_err(chip, msgs.take(3 + 2 * k), msgs[3 + 2 * k], msgs.skip(3 + 2 * k + 1), c0, ca, transport.host_calls(), e);
                    assert(msgs.take(3 + 2 * k).push(msgs[3 + 2 * k]) + msgs.skip(3 + 2 * k + 1) =~= msgs);
                    if transport.frames() != before {
                        assert(transport.frames() =~= start + plan.take(3 + 2 * k + 1));
                    }
                    assert(sent_prefix(start, transport.frames(), plan));
                }
                return Err(e);
            },
        }
        assert(transport.frames() =~= start + plan.take(3 + 2 * k + 1));
        let ghost before = transport.frames();
        let ghost cv = transport.host_calls();
        let wv = ipc_mem_write(transport, start_addr + offset + 4, val);
        proof {
            lemma_extends_trans(c0, cv, transport.host_calls());
            assert(msgs.take(3 + 2 * k + 1).push(msgs[3 + 2 * k + 1]) =~= msgs.take(3 + 2 * k + 2));
        }
        match wv {
            Ok(()) => {
                proof { lemma_script_push_ok(chip, msgs.take(3 + 2 * k + 1), msgs[3 + 2 * k + 1], c0, cv, transport.host_calls()); }
            },
            Err(e) => {
                proof {
                    lemma_script_push_err(chip, msgs.take(3 + 2 * k + 1), msgs[3 + 2 * k + 1], msgs.skip(3 + 2 * k + 2), c0, cv, transport.host_calls(), e);
                    assert(msgs.take(3 + 2 * k + 1).push(msgs[3 + 2 * k + 1]) + msgs.skip(3 + 2 * k + 2) =~= msgs);
                    if transport.frames() != before {
                        assert(transport.frames() =~= start + plan.take(3 + 2 * k + 2));
                    }
                    assert(sent_prefix(start, transport.frames(), plan));
                }
                return Err(e);
            },
        }
        assert(transport.frames() =~= start + plan.take(3 + 2 * k + 2));
        k = k + 1;
    }
    assert(plan.take(3 + 2 * k) =~= plan);
    assert(sent_all(start, transport.frames(), plan));
    assert(msgs.take(3 + 2 * k) =~= msgs);
    Ok(())
}

/// The frames of the AIC8801 system configuration: the masked system
/// writes, then the masked RF writes.
pub open spec fn sys_config_plan(chip: crate::chip_id::ChipVariant) -> Seq<Seq<u8>> {
    mask_write_plan(chip, syscfg_tbl_masked()) + mask_write_plan(chip, rf_tbl_masked())
}

/// The requests of the AIC8801 system configuration.
pub open spec fn sys_config_msgs() -> Seq<Msg> {
    mask_write_msgs(syscfg_tbl_masked()) + mask_write_msgs(rf_tbl_masked())
}

/// AIC8801 system configuration (clock gating and RF PLL) by masked writes.
pub fn aicwifi_sys_config<H: SdioHost>(transport: &mut IpcTransport<H>) -> (r: Result<(), SdioError>)
    ensures
        final(transport).variant() == old(transport).variant(),
        r is Ok ==> sent_all(old(transport).frames(), final(transport).frames(), sys_config_plan(old(transport).variant())),
        r is Err ==> sent_prefix(old(transport).frames(), final(transport).frames(), sys_config_plan(old(transport).variant())),
        extends(old(transport).host_calls(), final(transport).host_calls()),
        script(old(transport).variant(), sys_config_msgs(), old(transport).host_calls(), final(transport).host_calls(), r),
{
    let ghost chip = transport.variant();
    let ghost start = transport.frames();
    let ghost c0 = transport.host_calls();
    let t1 = syscfg_masked_table();
    let r1 = send_mask_writes(transport, &t1);
    match r1 {
        Ok(()) => {
            proof { lemma_script_ok(chip, mask_write_msgs(syscfg_tbl_masked()), c0, transport.host_calls(), r1); }
        },
        Err(e) => {
            proof {
                lemma_prefix_grow(start, transport.frames(), mask_write_plan(chip, syscfg_tbl_masked()), mask_write_plan(chip, rf_tbl_masked()));
                lemma_script_err_grow(chip, mask_write_msgs(syscfg_tbl_masked()), mask_write_msgs(rf_tbl_masked()), c0, transport.host_calls(), e);
            }
            return Err(e);
        },
    }
    let ghost mid = transport.frames();
    let ghost c1 = transport.host_calls();
    let t2 = rf_masked_table();
    let r = send_mask_writes(transport, &t2);
    proof {
        lemma_extends_trans(c0, c1, transport.host_calls());
        lemma_script_concat(chip, mask_write_msgs(syscfg_tbl_masked()), mask_write_msgs(rf_tbl_masked()), c0, c1, transport.host_calls(), r);
        if r is Ok {
            lemma_all_after(start, mid, transport.frames(), mask_write_plan(chip, syscfg_tbl_masked()), mask_write_plan(chip, rf_tbl_masked()));
        } else {
            lemma_prefix_after(start, mid, transport.frames(), mask_write_plan(chip, syscfg_tbl_masked()), mask_write_plan(chip, rf_tbl_masked()));
        }
    }
    r
}

/// A prefix of a leading part of `full` is a prefix of `full`.
pub proof fn lemma_prefix_of_longer(before: Seq<Seq<u8>>, after: Seq<Seq<u8>>, p: Seq<Seq<u8>>, full: Seq<Seq<u8>>)
    requires
        sent_prefix(before, after, p),
        p.len() <= full.len(),
        p == full.take(p.len() as int),
    ensures
        sent_prefix(before, after, full),
{
    let k = choose|k: int| 0 <= k <= p.len() && after == before + p.take(k);
    assert(p.take(k) =~= full.take(k));
}

// ------------------------------------------------------------------
// Boot sequences
// ------------------------------------------------------------------

/// The start-application request.
pub open spec fn start_app_frame(chip: crate::chip_id::ChipVariant, boot_addr: u32, boot_type: u32) -> Seq<u8> {
    dbg_frame(chip, DbgMsgId::StartAppReq, start_app_payload(boot_addr, boot_type))
}

/// The start-application request, awaiting the 4-byte boot status.
pub open spec fn start_app_msg(boot_addr: u32, boot_type: u32) -> Msg {
    Msg { m: DbgMsgId::StartAppReq, payload: start_app_payload(boot_addr, boot_type), cap: 4 }
}

/// `plan` when `cond`, nothing otherwise.
pub open spec fn only_if<A>(cond: bool, plan: Seq<A>) -> Seq<A> {
    if cond { plan } else { Seq::empty() }
}

/// The AIC8801 boot: main firmware to RAM, the patch (when there is one),
/// the patch table for configuration base `cb`, the system configuration,
/// then the start from RAM.
pub open spec fn init_8801_plan(chip: crate::chip_id::ChipVariant, fw: Seq<u8>, patch: Seq<u8>, cb: u32) -> Seq<Seq<u8>> {
    upload_plan(chip, fw, RAM_FMAC_FW_ADDR)
        + only_if(patch.len() > 0, upload_plan(chip, patch, RAM_FMAC_FW_PATCH_ADDR))
        + patch_config_plan(chip, cb)
        + sys_config_plan(chip)
        + seq![start_app_frame(chip, RAM_FMAC_FW_ADDR, HOST_START_APP_AUTO)]
}

/// The requests of the AIC8801 boot, with configuration base `cb`.
pub open spec fn init_8801_msgs(fw: Seq<u8>, patch: Seq<u8>, cb: u32) -> Seq<Msg> {
    upload_msgs(fw, RAM_FMAC_FW_ADDR)
        + only_if(patch.len() > 0, upload_msgs(patch, RAM_FMAC_FW_PATCH_ADDR))
        + patch_config_msgs(cb)
        + sys_config_msgs()
        + seq![start_app_msg(RAM_FMAC_FW_ADDR, HOST_START_APP_AUTO)]
}

/// AIC8801 firmware initialisation.
#[verifier::rlimit(100)]
#[verifier::spinoff_prover]
pub fn init_aic8801_firmware<H: SdioHost>(transport: &mut IpcTransport<H>, fw_set: &FirmwareSet) -> (r: Result<(), SdioError>)
    requires
        upload_fits(RAM_FMAC_FW_ADDR, fw_set.wl_fw@.len()),
        upload_fits(RAM_FMAC_FW_PATCH_ADDR, fw_set.wl_patch@.len()),
    ensures
        final(transport).variant() == old(transport).variant(),
        fw_set.wl_fw@.len() == 0 ==> r == Err::<(), SdioError>(SdioError::Unsupported) && final(transport).frames() == old(transport).frames(),
        r is Ok ==> exists|cb: u32| sent_all(old(transport).frames(), final(transport).frames(),
            #[trigger] init_8801_plan(old(transport).variant(), fw_set.wl_fw@, fw_set.wl_patch@, cb)),
        r is Err ==> exists|cb: u32| sent_prefix(old(transport).frames(), final(transport).frames(),
            #[trigger] init_8801_plan(old(transport).variant(), fw_set.wl_fw@, fw_set.wl_patch@, cb)),
        extends(old(transport).host_calls(), final(transport).host_calls()),
        fw_set.wl_fw@.len() == 0 ==> final(transport).host_calls() == old(transport).host_calls(),
        fw_set.wl_fw@.len() > 0 ==> exists|cb: u32| script(old(transport).variant(),
            #[trigger] init_8801_msgs(fw_set.wl_fw@, fw_set.wl_patch@, cb), old(transport).host_calls(),
            final(transport).host_calls(), r),
{
    let ghost chip = transport.variant();
    let ghost start = transport.frames();
    let ghost fw = fw_set.wl_fw@;
    let ghost patch = fw_set.wl_patch@;
    let ghost p1 = upload_plan(chip, fw, RAM_FMAC_FW_ADDR);
    let ghost p2 = only_if(patch.len() > 0, upload_plan(chip, patch, RAM_FMAC_FW_PATCH_ADDR));
    let ghost p4 = sys_config_plan(chip);
    let ghost p5 = seq![start_app_frame(chip, RAM_FMAC_FW_ADDR, HOST_START_APP_AUTO)];
    let ghost c0 = transport.host_calls();
    let ghost q1 = upload_msgs(fw, RAM_FMAC_FW_ADDR);
    let ghost q2 = only_if(patch.len() > 0, upload_msgs(patch, RAM_FMAC_FW_PATCH_ADDR));
    let ghost q4 = sys_config_msgs();
    let ghost q5 = seq![start_app_msg(RAM_FMAC_FW_ADDR, HOST_START_APP_AUTO)];
    let ru = upload_firmware(transport, fw_set.wl_fw, RAM_FMAC_FW_ADDR);
    match ru {
        Ok(()) => {
            proof { lemma_script_ok(chip, q1, c0, transport.host_calls(), ru); }
        },
        Err(e) => {
            proof {
                let full = init_8801_plan(chip, fw, patch, 0);
                assert(p1 =~= full.take(p1.len() as int));
                lemma_prefix_of_longer(start, transport.frames(), p1, full);
                if fw.len() > 0 {
                    let rest = q2 + patch_config_msgs(0) + q4 + q5;
                    lemma_script_err_grow(chip, q1, rest, c0, transport.host_calls(), e);
                    assert(q1 + rest =~= init_8801_msgs(fw, patch, 0));
                }
            }
            return Err(e);
        },
    }
    let ghost m1 = transport.frames();
    let ghost c1 = transport.host_calls();
    if fw_set.wl_patch.len() != 0 {
        let rp = upload_firmware(transport, fw_set.wl_patch, RAM_FMAC_FW_PATCH_ADDR);
        proof { lemma_extends_trans(c0, c1, transport.host_calls()); }
        match rp {
            Ok(()) => {
                proof {
                    lemma_script_ok(chip, q2, c1, transport.host_calls(), rp);
                    lemma_script_concat(chip, q1, q2, c0, c1, transport.host_calls(), Ok(()));
                }
            },
            Err(e) => {
                proof {
                    lemma_script_concat(chip, q1, q2, c0, c1, transport.host_calls(), Err(e));
                    let rest = patch_config_msgs(0) + q4 + q5;
                    lemma_script_err_grow(chip, q1 + q2, rest, c0, transport.host_calls(), e);
                    assert(q1 + q2 + rest =~= init_8801_msgs(fw, patch, 0));
                    let full = init_8801_plan(chip, fw, patch, 0);
                    lemma_prefix_after(start, m1, transport.frames(), p1, p2);
                    assert(p1 + p2 =~= full.take((p1 + p2).len() as int));
                    lemma_prefix_of_longer(start, transport.frames(), p1 + p2, full);
                }
                return Err(e);
            },
        }
    } else {
        assert(m1 + p2 =~= m1);
        proof {
            lemma_script_empty(chip, c1);
            assert(q2 =~= Seq::<Msg>::empty());
            lemma_script_concat(chip, q1, q2, c0, c1, c1, Ok(()));
        }
    }
    proof { lemma_all_after(start, m1, transport.frames(), p1, p2); }
    let ghost m2 = transport.frames();
    let ghost c2 = transport.host_calls();
    let rp = aicwifi_patch_config(transport);
    let ghost cbs = choose|cb: u32| script(chip, #[trigger] patch_config_msgs(cb), c2, transport.host_calls(), rp);
    proof {
        lemma_extends_trans(c0, c2, transport.host_calls());
        lemma_script_concat(chip, q1 + q2, patch_config_msgs(cbs), c0, c2, transport.host_calls(), rp);
    }
    match rp {
        Ok(()) => {
            proof { lemma_script_ok(chip, q1 + q2 + patch_config_msgs(cbs), c0, transport.host_calls(), rp); }
        },
        Err(e) => {
            proof {
                let rest = q4 + q5;
                lemma_script_err_grow(chip, q1 + q2 + patch_config_msgs(cbs), rest, c0, transport.host_calls(), e);
                assert(q1 + q2 + patch_config_msgs(cbs) + rest =~= init_8801_msgs(fw, patch, cbs));
                let cb = choose|cb: u32| sent_prefix(m2, transport.frames(), #[trigger] patch_config_plan(chip, cb));
                let full = init_8801_plan(chip, fw, patch, cb);
                lemma_prefix_after(start, m2, transport.frames(), p1 + p2, patch_config_plan(chip, cb));
                assert(p1 + p2 + patch_config_plan(chip, cb) =~= full.take((p1 + p2 + patch_config_plan(chip, cb)).len() as int));
                lemma_prefix_of_longer(start, transport.frames(), p1 + p2 + patch_config_plan(chip, cb), full);
            }
            return Err(e);
        },
    }
    let ghost cb = choose|cb: u32| sent_all(m2, transport.frames(), #[trigger] patch_config_plan(chip, cb));
    let ghost p3 = patch_config_plan(chip, cb);
    let ghost full = init_8801_plan(chip, fw, patch, cb);
    proof { lemma_all_after(start, m2, transport.frames(), p1 + p2, p3); }
    let ghost m3 = transport.frames();
    let ghost c3 = transport.host_calls();
    let ghost q123 = q1 + q2 + patch_config_msgs(cbs);
    let rsc = aicwifi_sys_config(transport);
    proof {
        lemma_extends_trans(c0, c3, transport.host_calls());
        lemma_script_concat(chip, q123, q4, c0, c3, transport.host_calls(), rsc);
    }
    match rsc {
        Ok(()) => {
            proof { lemma_script_ok(chip, q123 + q4, c0, transport.host_calls(), rsc); }
        },
        Err(e) => {
            proof {
                lemma_script_err_grow(chip, q123 + q4, q5, c0, transport.host_calls(), e);
                assert(q123 + q4 + q5 =~= init_8801_msgs(fw, patch, cbs));
                lemma_prefix_after(start, m3, transport.frames(), p1 + p2 + p3, p4);
                assert(p1 + p2 + p3 + p4 =~= full.take((p1 + p2 + p3 + p4).len() as int));
                lemma_prefix_of_longer(start, transport.frames(), p1 + p2 + p3 + p4, full);
            }
            return Err(e);
        },
    }
    proof { lemma_all_after(start, m3, transport.frames(), p1 + p2 + p3, p4); }
    let ghost m4 = transport.frames();
    let ghost c4 = transport.host_calls();
    let rs = ipc_start_app(transport, RAM_FMAC_FW_ADDR, HOST_START_APP_AUTO);
    proof {
        lemma_extends_trans(c0, c4, transport.host_calls());
        lemma_script_one(chip, start_app_msg(RAM_FMAC_FW_ADDR, HOST_START_APP_AUTO), c4, transport.host_calls(), rs);
        lemma_script_concat(chip, q123 + q4, q5, c0, c4, transport.host_calls(), unit_of(rs));
        assert(q123 + q4 + q5 =~= init_8801_msgs(fw, patch, cbs));
    }
    match rs {
        Ok(_) => {},
        Err(e) => {
            proof {
                lemma_one_frame_prefix(m4, transport.frames(), start_app_frame(chip, RAM_FMAC_FW_ADDR, HOST_START_APP_AUTO));
                lemma_prefix_after(start, m4, transport.frames(), p1 + p2 + p3 + p4, p5);
            }
            return Err(e);
        },
    }
    proof {
        assert(transport.frames() =~= m4 + p5);
        lemma_all_after(start, m4, transport.frames(), p1 + p2 + p3 + p4, p5);
    }
    Ok(())
}

/// Where the AIC8800DC firmware goes and starts: RAM for U01, ROM
/// otherwise.
pub open spec fn dc_boot_addr(rev: ChipRevision) -> u32 {
    if rev.rev == CHIP_REV_U01 { RAM_FMAC_FW_ADDR } else { ROM_FMAC_FW_ADDR }
}

/// The AIC8800DC boot: the firmware to its boot address, on U01 the patch
/// (when there is one) to the ROM patch area, then the start.
pub open spec fn init_dc_plan(chip: crate::chip_id::ChipVariant, fw: Seq<u8>, patch: Seq<u8>, rev: ChipRevision) -> Seq<Seq<u8>> {
    upload_plan(chip, fw, dc_boot_addr(rev))
        + only_if(rev.rev == CHIP_REV_U01 && patch.len() > 0, upload_plan(chip, patch, ROM_FMAC_PATCH_ADDR))
        + seq![start_app_frame(chip, dc_boot_addr(rev), HOST_START_APP_DUMMY)]
}

/// The requests of the AIC8800DC boot.
pub open spec fn init_dc_msgs(fw: Seq<u8>, patch: Seq<u8>, rev: ChipRevision) -> Seq<Msg> {
    upload_msgs(fw, dc_boot_addr(rev))
        + only_if(rev.rev == CHIP_REV_U01 && patch.len() > 0, upload_msgs(patch, ROM_FMAC_PATCH_ADDR))
        + seq![start_app_msg(dc_boot_addr(rev), HOST_START_APP_DUMMY)]
}

/// AIC8800DC/DW firmware initialisation.
pub fn init_aic8800dc_firmware<H: SdioHost>(transport: &mut IpcTransport<H>, fw_set: &FirmwareSet, chip_rev: &ChipRevision) -> (r: Result<(), SdioError>)
    requires
        upload_fits(dc_boot_addr(*chip_rev), fw_set.wl_fw@.len()),
        upload_fits(ROM_FMAC_PATCH_ADDR, fw_set.wl_patch@.len()),
    ensures
        final(transport).variant() == old(transport).variant(),
        fw_set.wl_fw@.len() == 0 ==> r == Err::<(), SdioError>(SdioError::Unsupported) && final(transport).frames() == old(transport).frames(),
        r is Ok ==> sent_all(old(transport).frames(), final(transport).frames(),
            init_dc_plan(old(transport).variant(), fw_set.wl_fw@, fw_set.wl_patch@, *chip_rev)),
        r is Err ==> sent_prefix(old(transport).frames(), final(transport).frames(),
            init_dc_plan(old(transport).variant(), fw_set.wl_fw@, fw_set.wl_patch@, *chip_rev)),
        extends(old(transport).host_calls(), final(transport).host_calls()),
        fw_set.wl_fw@.len() == 0 ==> final(transport).host_calls() == old(transport).host_calls(),
        fw_set.wl_fw@.len() > 0 ==> script(old(transport).variant(), init_dc_msgs(fw_set.wl_fw@, fw_set.wl_patch@, *chip_rev),
            old(transport).host_calls(), final(transport).host_calls(), r),
{
    let ghost chip = transport.variant();
    let ghost start = transport.frames();
    let ghost full = init_dc_plan(chip, fw_set.wl_fw@, fw_set.wl_patch@, *chip_rev);
    let upload_addr = if chip_rev.rev == CHIP_REV_U01 { RAM_FMAC_FW_ADDR } else { ROM_FMAC_FW_ADDR };
    let ghost p1 = upload_plan(chip, fw_set.wl_fw@, upload_addr);
    let ghost p2 = only_if(chip_rev.rev == CHIP_REV_U01 && fw_set.wl_patch@.len() > 0, upload_plan(chip, fw_set.wl_patch@, ROM_FMAC_PATCH_ADDR));
    let ghost p3 = seq![start_app_frame(chip, upload_addr, HOST_START_APP_DUMMY)];
    assert(full == p1 + p2 + p3);
    let ghost c0 = transport.host_calls();
    let ghost q1 = upload_msgs(fw_set.wl_fw@, upload_addr);
    let ghost q2 = only_if(chip_rev.rev == CHIP_REV_U01 && fw_set.wl_patch@.len() > 0, upload_msgs(fw_set.wl_patch@, ROM_FMAC_PATCH_ADDR));
    let ghost q3 = seq![start_app_msg(upload_addr, HOST_START_APP_DUMMY)];
    let ru = upload_firmware(transport, fw_set.wl_fw, upload_addr);
    match ru {
        Ok(()) => {
            proof { lemma_script_ok(chip, q1, c0, transport.host_calls(), ru); }
        },
        Err(e) => {
            proof {
                assert(p1 =~= full.take(p1.len() as int));
                lemma_prefix_of_longer(start, transport.frames(), p1, full);
                if fw_set.wl_fw@.len() > 0 {
                    lemma_script_err_grow(chip, q1, q2 + q3, c0, transport.host_calls(), e);
                    assert(q1 + (q2 + q3) =~= q1 + q2 + q3);
                }
            }
            return Err(e);
        },
    }
    let ghost m1 = transport.frames();
    let ghost c1 = transport.host_calls();
    if chip_rev.rev == CHIP_REV_U01 && fw_set.wl_patch.len() != 0 {
        let rp = upload_firmware(transport, fw_set.wl_patch, ROM_FMAC_PATCH_ADDR);
        proof { lemma_extends_trans(c0, c1, transport.host_calls()); }
        match rp {
            Ok(()) => {
                proof {
                    lemma_script_ok(chip, q2, c1, transport.host_calls(), rp);
                    lemma_script_concat(chip, q1, q2, c0, c1, transport.host_calls(), Ok(()));
                }
            },
            Err(e) => {
                proof {
                    lemma_script_concat(chip, q1, q2, c0, c1, transport.host_calls(), Err(e));
                    lemma_script_err_grow(chip, q1 + q2, q3, c0, transport.host_calls(), e);
                    lemma_prefix_after(start, m1, transport.frames(), p1, p2);
                    assert(p1 + p2 =~= full.take((p1 + p2).len() as int));
                    lemma_prefix_of_longer(start, transport.frames(), p1 + p2, full);
                }
                return Err(e);
            },
        }
    } else {
        assert(m1 + p2 =~= m1);
        proof {
            lemma_script_empty(chip, c1);
            assert(q2 =~= Seq::<Msg>::empty());
            lemma_script_concat(chip, q1, q2, c0, c1, c1, Ok(()));
        }
    }
    proof { lemma_all_after(start, m1, transport.frames(), p1, p2); }
    let ghost m2 = transport.frames();
    let ghost c2 = transport.host_calls();
    let boot_addr = if chip_rev.rev == CHIP_REV_U01 { RAM_FMAC_FW_ADDR } else { ROM_FMAC_FW_ADDR };
    let rs = ipc_start_app(transport, boot_addr, HOST_START_APP_DUMMY);
    proof {
        lemma_extends_trans(c0, c2, transport.host_calls());
        lemma_script_one(chip, start_app_msg(boot_addr, HOST_START_APP_DUMMY), c2, transport.host_calls(), rs);
        lemma_script_concat(chip, q1 + q2, q3, c0, c2, transport.host_calls(), unit_of(rs));
    }
    match rs {
        Ok(_) => {},
        Err(e) => {
            proof {
                lemma_one_frame_prefix(m2, transport.frames(), start_app_frame(chip, boot_addr, HOST_START_APP_DUMMY));
                lemma_prefix_after(start, m2, transport.frames(), p1 + p2, p3);
            }
            return Err(e);
        },
    }
    proof {
        assert(transport.frames() =~= m2 + p3);
        lemma_all_after(start, m2, transport.frames(), p1 + p2, p3);
    }
    Ok(())
}

/// The AIC8800D80/D80X2 boot: the firmware to RAM, then the start.
pub open spec fn init_d80_plan(chip: crate::chip_id::ChipVariant, fw: Seq<u8>) -> Seq<Seq<u8>> {
    upload_plan(chip, fw, RAM_FMAC_FW_ADDR) + seq![start_app_frame(chip, RAM_FMAC_FW_ADDR, HOST_START_APP_AUTO)]
}

/// The requests of the AIC8800D80/D80X2 boot.
pub open spec fn init_d80_msgs(fw: Seq<u8>) -> Seq<Msg> {
    upload_msgs(fw, RAM_FMAC_FW_ADDR) + seq![start_app_msg(RAM_FMAC_FW_ADDR, HOST_START_APP_AUTO)]
}

/// AIC8800D80/D80X2 firmware initialisation.
pub fn init_aic8800d80_firmware<H: SdioHost>(transport: &mut IpcTransport<H>, fw_set: &FirmwareSet) -> (r: Result<(), SdioError>)
    requires
        upload_fits(RAM_FMAC_FW_ADDR, fw_set.wl_fw@.len()),
    ensures
        final(transport).variant() == old(transport).variant(),
        fw_set.wl_fw@.len() == 0 ==> r == Err::<(), SdioError>(SdioError::Unsupported) && final(transport).frames() == old(transport).frames(),
        r is Ok ==> sent_all(old(transport).frames(), final(transport).frames(), init_d80_plan(old(transport).variant(), fw_set.wl_fw@)),
        r is Err ==> sent_prefix(old(transport).frames(), final(transport).frames(), init_d80_plan(old(transport).variant(), fw_set.wl_fw@)),
        extends(old(transport).host_calls(), final(transport).host_calls()),
        fw_set.wl_fw@.len() == 0 ==> final(transport).host_calls() == old(transport).host_calls(),
        fw_set.wl_fw@.len() > 0 ==> script(old(transport).variant(), init_d80_msgs(fw_set.wl_fw@),
            old(transport).host_calls(), final(transport).host_calls(), r),
{
    let ghost chip = transport.variant();
    let ghost start = transport.frames();
    let ghost p1 = upload_plan(chip, fw_set.wl_fw@, RAM_FMAC_FW_ADDR);
    let ghost p2 = seq![start_app_frame(chip, RAM_FMAC_FW_ADDR, HOST_START_APP_AUTO)];
    let ghost c0 = transport.host_calls();
    let ghost q1 = upload_msgs(fw_set.wl_fw@, RAM_FMAC_FW_ADDR);
    let ghost q2 = seq![start_app_msg(RAM_FMAC_FW_ADDR, HOST_START_APP_AUTO)];
    let ru = upload_firmware(transport, fw_set.wl_fw, RAM_FMAC_FW_ADDR);
    match ru {
        Ok(()) => {
            proof { lemma_script_ok(chip, q1, c0, transport.host_calls(), ru); }
        },
        Err(e) => {
            proof {
                lemma_prefix_grow(start, transport.frames(), p1, p2);
                if fw_set.wl_fw@.len() > 0 {
                    lemma_script_err_grow(chip, q1, q2, c0, transport.host_calls(), e);
                }
            }
            return Err(e);
        },
    }
    let ghost m1 = transport.frames();
    let ghost c1 = transport.host_calls();
    let rs = ipc_start_app(transport, RAM_FMAC_FW_ADDR, HOST_START_APP_AUTO);
    proof {
        lemma_extends_trans(c0, c1, transport.host_calls());
        lemma_script_one(chip, start_app_msg(RAM_FMAC_FW_ADDR, HOST_START_APP_AUTO), c1, transport.host_calls(), rs);
        lemma_script_concat(chip, q1, q2, c0, c1, transport.host_calls(), unit_of(rs));
    }
    match rs {
        Ok(_) => {},
        Err(e) => {
            proof {
                lemma_one_frame_prefix(m1, transport.frames(), start_app_frame(chip, RAM_FMAC_FW_ADDR, HOST_START_APP_AUTO));
                lemma_prefix_after(start, m1, transport.frames(), p1, p2);
            }
            return Err(e);
        },
    }
    proof {
        assert(transport.frames() =~= m1 + p2);
        lemma_all_after(start, m1, transport.frames(), p1, p2);
    }
    Ok(())
}

} // verus!
