//! Socket control messages (`SCM_RIGHTS`): decoding the control area that
//! `sendmsg` is given, and encoding the records that `recvmsg` writes back.
//!
//! A record is a 16-byte header (`cmsg_len` as a 64-bit word, then level
//! and type as 32-bit words, all little-endian) followed by its data; an
//! `SCM_RIGHTS` record carries 32-bit descriptors.

use vstd::prelude::*;

use crate::ipc::{le32, le32_at, push4, u32_from_le, u32_to_le};

verus! {

/// Size of a control message header.
pub const CMSG_HDR_LEN: usize = 16;
/// `SOL_SOCKET`.
pub const SOL_SOCKET: i32 = 1;
/// `SCM_RIGHTS`.
pub const SCM_RIGHTS: i32 = 1;

/// Errors of control message decoding.
#[derive(Debug, Clone, Copy, PartialEq, Eq, Structural)]
pub enum CmsgError {
    /// Malformed record, or a level/type that is not `SCM_RIGHTS`.
    InvalidInput,
    /// A negative descriptor.
    BadFileDescriptor,
}

/// A decoded control message; `F` is what a descriptor resolves to.
pub enum CMsg<F> {
    /// Descriptors passed with `SCM_RIGHTS`.
    Rights { fds: Vec<F> },
}

impl<F> CMsg<F> {
    /// The `SCM_RIGHTS` message carrying `fds`.
    pub fn rights(fds: Vec<F>) -> (m: Self)
        ensures
            m == (CMsg::Rights { fds }),
    {
        CMsg::Rights { fds }
    }
}

/// The little-endian `u64` at `s[i..i + 8]`.
pub open spec fn le64_at(s: Seq<u8>, i: int) -> u64 {
    (le32_at(s, i) + 4294967296 * le32_at(s, i + 4)) as u64
}

/// The little-endian `i32` at `s[i..i + 4]`.
pub open spec fn i32_at(s: Seq<u8>, i: int) -> i32 {
    le32_at(s, i) as i32
}

/// The descriptors of the first `n` words of `data`, or `BadFileDescriptor`
/// at the first negative one.
pub open spec fn fds_of(data: Seq<u8>, n: nat) -> Result<Seq<i32>, CmsgError>
    decreases n,
{
    if n == 0 {
        Ok(Seq::empty())
    } else {
        match fds_of(data, (n - 1) as nat) {
            Err(e) => Err(e),
            Ok(p) => {
                let fd = i32_at(data, 4 * (n - 1));
                if fd < 0 {
                    Err(CmsgError::BadFileDescriptor)
                } else {
                    Ok(p.push(fd))
                }
            },
        }
    }
}

/// The descriptors of a record with this level, type and data: only
/// `SOL_SOCKET`/`SCM_RIGHTS` with whole 32-bit words is accepted.
pub open spec fn rights_of(level: i32, ty: i32, data: Seq<u8>) -> Result<Seq<i32>, CmsgError> {
    if level != SOL_SOCKET || ty != SCM_RIGHTS {
        Err(CmsgError::InvalidInput)
    } else if data.len() % 4 != 0 {
        Err(CmsgError::InvalidInput)
    } else {
        fds_of(data, data.len() / 4)
    }
}

fn i32_from_le(s: &[u8], i: usize) -> (x: i32)
    requires
        i + 4 <= s@.len(),
    ensures
        x == i32_at(s@, i as int),
{
    #[verifier::truncate]
    (u32_from_le(s, i) as i32)
}

fn u64_from_le(s: &[u8], i: usize) -> (x: u64)
    requires
        i + 8 <= s@.len(),
    ensures
        x == le64_at(s@, i as int),
{
    let _n = s.len();
    let lo = u32_from_le(s, i) as u64;
    let hi = u32_from_le(s, i + 4) as u64;
    lo + 4294967296 * hi
}

proof fn lemma_fds_err_stays(data: Seq<u8>, k: nat, n: nat)
    requires
        k <= n,
        fds_of(data, k) is Err,
    ensures
        fds_of(data, n) == fds_of(data, k),
    decreases n,
{
    if n > k {
        lemma_fds_err_stays(data, k, (n - 1) as nat);
    }
}

/// Decodes the descriptors of `data[start..end]` for a record of this
/// level and type.
fn rights_in(level: i32, ty: i32, c: &[u8], start: usize, end: usize) -> (r: Result<Vec<i32>, CmsgError>)
    requires
        start <= end <= c@.len(),
    ensures
        match r {
            Ok(v) => rights_of(level, ty, c@.subrange(start as int, end as int)) == Ok::<Seq<i32>, CmsgError>(v@),
            Err(e) => rights_of(level, ty, c@.subrange(start as int, end as int)) == Err::<Seq<i32>, CmsgError>(e),
        },
{
    let ghost data = c@.subrange(start as int, end as int);
    if level != SOL_SOCKET || ty != SCM_RIGHTS {
        return Err(CmsgError::InvalidInput);
    }
    if (end - start) % 4 != 0 {
        return Err(CmsgError::InvalidInput);
    }
    let n = (end - start) / 4;
    let mut fds: Vec<i32> = Vec::new();
    let mut k: usize = 0;
    while k < n
        invariant
            start <= end <= c@.len(),
            data == c@.subrange(start as int, end as int),
            n == (end - start) / 4,
            (end - start) % 4 == 0,
            level == SOL_SOCKET,
            ty == SCM_RIGHTS,
            k <= n,
            fds_of(data, k as nat) == Ok::<Seq<i32>, CmsgError>(fds@),
        decreases n - k,
    {
        let fd = i32_from_le(c, start + 4 * k);
        assert(i32_at(data, 4 * k as int) == i32_at(c@, start + 4 * k as int));
        if fd < 0 {
            proof {
                assert(data.len() == end - start);
                assert(fds_of(data, (k + 1) as nat) == Err::<Seq<i32>, CmsgError>(CmsgError::BadFileDescriptor));
                lemma_fds_err_stays(data, (k + 1) as nat, n as nat);
                assert(data.len() / 4 == n);
            }
            return Err(CmsgError::BadFileDescriptor);
        }
        fds.push(fd);
        k = k + 1;
    }
    Ok(fds)
}

/// Decodes the descriptors of one record's data.
pub fn parse_rights(level: i32, ty: i32, data: &[u8]) -> (r: Result<Vec<i32>, CmsgError>)
    ensures
        match r {
            Ok(v) => rights_of(level, ty, data@) == Ok::<Seq<i32>, CmsgError>(v@),
            Err(e) => rights_of(level, ty, data@) == Err::<Seq<i32>, CmsgError>(e),
        },
{
    let r = rights_in(level, ty, data, 0, data.len());
    assert(data@.subrange(0, data@.len() as int) =~= data@);
    r
}

/// The length of a record's data, given its `cmsg_len`; a length shorter
/// than the header is refused.
pub fn cmsg_data_len(cmsg_len: u64) -> (r: Result<u64, CmsgError>)
    ensures
        cmsg_len < CMSG_HDR_LEN ==> r == Err::<u64, CmsgError>(CmsgError::InvalidInput),
        cmsg_len >= CMSG_HDR_LEN ==> r == Ok::<u64, CmsgError>((cmsg_len - CMSG_HDR_LEN) as u64),
{
    if cmsg_len < 16 {
        Err(CmsgError::InvalidInput)
    } else {
        Ok(cmsg_len - 16)
    }
}

/// The records of the control area `c` from `off` on, as `sendmsg` walks
/// it: while a whole header remains, a record longer than what remains or
/// shorter than its header, or whose data is refused by `rights_of`, stops
/// the walk with that error; each accepted record gives its descriptors.
/// The result is the descriptors of the accepted records and the error
/// that stopped the walk, if any.
pub open spec fn control_from(c: Seq<u8>, off: nat) -> (Seq<Seq<i32>>, Option<CmsgError>)
    decreases c.len() - off,
{
    if off + CMSG_HDR_LEN > c.len() {
        (Seq::empty(), None)
    } else {
        let len = le64_at(c, off as int);
        if c.len() - off < len {
            (Seq::empty(), Some(CmsgError::InvalidInput))
        } else if len < CMSG_HDR_LEN {
            (Seq::empty(), Some(CmsgError::InvalidInput))
        } else {
            match rights_of(i32_at(c, off + 8int), i32_at(c, off + 12int), c.subrange(off + 16int, off + len)) {
                Err(e) => (Seq::empty(), Some(e)),
                Ok(fds) => {
                    let rest = control_from(c, (off + len) as nat);
                    (seq![fds] + rest.0, rest.1)
                },
            }
        }
    }
}

/// The views of a list of descriptor lists.
pub open spec fn fd_lists(v: Seq<Vec<i32>>) -> Seq<Seq<i32>> {
    v.map_values(|x: Vec<i32>| x@)
}

/// Walks the control area of `sendmsg`: the descriptors of each accepted
/// record, in order, and the error that stopped the walk, if any.  The
/// caller resolves the descriptors of the accepted records in order before
/// it reports that error.
pub fn control_messages(c: &[u8]) -> (r: (Vec<Vec<i32>>, Option<CmsgError>))
    ensures
        (fd_lists(r.0@), r.1) == control_from(c@, 0),
{
    let mut msgs: Vec<Vec<i32>> = Vec::new();
    let mut off: usize = 0;
    while c.len() - off >= 16
        invariant
            off <= c@.len(),
            control_from(c@, 0) == (fd_lists(msgs@) + control_from(c@, off as nat).0, control_from(c@, off as nat).1),
        decreases c.len() - off,
    {
        let len = u64_from_le(c, off);
        let ghost before = msgs@;
        if ((c.len() - off) as u64) < len {
            return (msgs, Some(CmsgError::InvalidInput));
        }
        if len < 16 {
            return (msgs, Some(CmsgError::InvalidInput));
        }
        let end = off + len as usize;
        let level = i32_from_le(c, off + 8);
        let ty = i32_from_le(c, off + 12);
        match rights_in(level, ty, c, off + 16, end) {
            Err(e) => {
                return (msgs, Some(e));
            },
            Ok(fds) => {
                let ghost fv = fds@;
                msgs.push(fds);
                proof {
                    let rest = control_from(c@, end as nat);
                    assert(fd_lists(msgs@) =~= fd_lists(before).push(fv));
                    assert(fd_lists(before) + (seq![fv] + rest.0) =~= fd_lists(msgs@) + rest.0);
                }
                off = end;
            },
        }
    }
    proof {
        assert(fd_lists(msgs@) + Seq::<Seq<i32>>::empty() =~= fd_lists(msgs@));
    }
    (msgs, None)
}

/// Room for a record's data when `len` of the control area's `capacity`
/// bytes are used: `None` when not even a header fits.
pub fn cmsg_body_capacity(capacity: usize, len: usize) -> (r: Option<usize>)
    requires
        len <= capacity,
    ensures
        capacity - len < CMSG_HDR_LEN ==> r is None,
        capacity - len >= CMSG_HDR_LEN ==> r == Some((capacity - len - CMSG_HDR_LEN) as usize),
{
    (capacity - len).checked_sub(16)
}

/// How many of `count` descriptors an `SCM_RIGHTS` record with room for
/// `body_capacity` data bytes carries: as many whole words as fit.
pub fn rights_fit(body_capacity: usize, count: usize) -> (n: usize)
    ensures
        n == (if count < body_capacity / 4 { count } else { body_capacity / 4 }),
{
    if count < body_capacity / 4 {
        count
    } else {
        body_capacity / 4
    }
}

/// The little-endian bytes of the descriptors `fds`.
pub open spec fn fd_bytes(fds: Seq<i32>) -> Seq<u8>
    decreases fds.len(),
{
    if fds.len() == 0 {
        Seq::empty()
    } else {
        fd_bytes(fds.drop_last()) + le32(fds.last() as u32)
    }
}

/// The `SCM_RIGHTS` record carrying `fds`: header with `cmsg_len` of 16
/// plus four bytes per descriptor, then the descriptors.
pub open spec fn rights_record_spec(fds: Seq<i32>) -> Seq<u8> {
    let len = (CMSG_HDR_LEN + 4 * fds.len()) as u64;
    le32((len % 4294967296) as u32) + le32((len / 4294967296) as u32) + le32(SOL_SOCKET as u32)
        + le32(SCM_RIGHTS as u32) + fd_bytes(fds)
}

/// Encodes the `SCM_RIGHTS` record carrying `fds`.
pub fn rights_record(fds: &[i32]) -> (rec: Vec<u8>)
    requires
        CMSG_HDR_LEN + 4 * fds@.len() <= u64::MAX,
        CMSG_HDR_LEN + 4 * fds@.len() <= usize::MAX,
    ensures
        rec@ == rights_record_spec(fds@),
        rec@.len() == CMSG_HDR_LEN + 4 * fds@.len(),
{
    let len = (16 + 4 * fds.len()) as u64;
    let mut rec: Vec<u8> = Vec::new();
    push4(&mut rec, u32_to_le((len % 4294967296) as u32));
    push4(&mut rec, u32_to_le((len / 4294967296) as u32));
    push4(&mut rec, u32_to_le(1));
    push4(&mut rec, u32_to_le(1));
    let ghost head = rec@;
    assert(head.len() == 16);
    let mut k: usize = 0;
    while k < fds.len()
        invariant
            k <= fds@.len(),
            head.len() == 16,
            rec@ == head + fd_bytes(fds@.subrange(0, k as int)),
        decreases fds.len() - k,
    {
        push4(&mut rec, u32_to_le(fds[k] as u32));
        proof {
            let p = fds@.subrange(0, k as int + 1);
            assert(p.drop_last() =~= fds@.subrange(0, k as int));
            assert(p.last() == fds@[k as int]);
        }
        k = k + 1;
    }
    proof {
        assert(fds@.subrange(0, fds@.len() as int) =~= fds@);
        lemma_fd_bytes_len(fds@);
    }
    rec
}

proof fn lemma_fd_bytes_len(fds: Seq<i32>)
    ensures
        fd_bytes(fds).len() == 4 * fds.len(),
    decreases fds.len(),
{
    if fds.len() > 0 {
        lemma_fd_bytes_len(fds.drop_last());
    }
}

proof fn lemma_le32_roundtrip(x: u32)
    ensures
        le32_at(le32(x), 0) == x,
{
    let b = le32(x);
    assert(b[0] + 256 * b[1] + 65536 * b[2] + 16777216 * b[3] == x);
}

proof fn lemma_fd_bytes_word(fds: Seq<i32>, j: int)
    requires
        0 <= j < fds.len(),
    ensures
        fd_bytes(fds).len() == 4 * fds.len(),
        fd_bytes(fds).subrange(4 * j, 4 * j + 4) == le32(fds[j] as u32),
    decreases fds.len(),
{
    lemma_fd_bytes_len(fds);
    let init = fds.drop_last();
    lemma_fd_bytes_len(init);
    if j < fds.len() - 1 {
        lemma_fd_bytes_word(init, j);
        assert(fd_bytes(fds).subrange(4 * j, 4 * j + 4) =~= fd_bytes(init).subrange(4 * j, 4 * j + 4));
    } else {
        assert(fd_bytes(fds).subrange(4 * j, 4 * j + 4) =~= le32(fds.last() as u32));
    }
}

proof fn lemma_fds_of_bytes(fds: Seq<i32>, k: nat)
    requires
        k <= fds.len(),
        forall|i: int| 0 <= i < fds.len() ==> #[trigger] fds[i] >= 0,
    ensures
        fds_of(fd_bytes(fds), k) == Ok::<Seq<i32>, CmsgError>(fds.take(k as int)),
    decreases k,
{
    if k > 0 {
        let j = k - 1;
        lemma_fds_of_bytes(fds, (k - 1) as nat);
        lemma_fd_bytes_word(fds, j);
        let data = fd_bytes(fds);
        let w = data.subrange(4 * j, 4 * j + 4);
        lemma_le32_roundtrip(fds[j] as u32);
        assert(le32_at(data, 4 * j) == le32_at(w, 0));
        assert(i32_at(data, 4 * j) == fds[j]);
        assert(fds.take(k - 1).push(fds[j]) =~= fds.take(k as int));
    } else {
        assert(fds.take(0) =~= Seq::<i32>::empty());
    }
}

/// A rights record as `recvmsg` writes it reads back, through the walk of
/// `sendmsg`, as exactly its descriptors: one accepted record, no error.
/// (Installed descriptors are never negative.)
pub proof fn lemma_rights_record_roundtrip(fds: Seq<i32>)
    requires
        forall|i: int| 0 <= i < fds.len() ==> #[trigger] fds[i] >= 0,
        CMSG_HDR_LEN + 4 * fds.len() <= u64::MAX,
    ensures
        control_from(rights_record_spec(fds), 0) == (seq![fds], None::<CmsgError>),
{
    let n = fds.len();
    let r = rights_record_spec(fds);
    let len = (CMSG_HDR_LEN + 4 * n) as u64;
    let lo = (len % 4294967296) as u32;
    let hi = (len / 4294967296) as u32;
    lemma_fd_bytes_len(fds);
    assert(r.len() == 16 + 4 * n);
    lemma_le32_roundtrip(lo);
    lemma_le32_roundtrip(hi);
    lemma_le32_roundtrip(1u32);
    assert(r.subrange(0, 4) =~= le32(lo));
    assert(r.subrange(4, 8) =~= le32(hi));
    assert(r.subrange(8, 12) =~= le32(1u32));
    assert(r.subrange(12, 16) =~= le32(1u32));
    assert(le32_at(r, 0) == le32_at(r.subrange(0, 4), 0));
    assert(le32_at(r, 4) == le32_at(r.subrange(4, 8), 0));
    assert(le32_at(r, 8) == le32_at(r.subrange(8, 12), 0));
    assert(le32_at(r, 12) == le32_at(r.subrange(12, 16), 0));
    assert(le64_at(r, 0) == len);
    assert(i32_at(r, 8) == SOL_SOCKET);
    assert(i32_at(r, 12) == SCM_RIGHTS);
    let data = r.subrange(16, 16 + 4 * n as int);
    assert(data =~= fd_bytes(fds));
    lemma_fds_of_bytes(fds, n);
    assert(fds.take(n as int) =~= fds);
    assert(data.len() / 4 == n);
    assert(rights_of(SOL_SOCKET, SCM_RIGHTS, data) == Ok::<Seq<i32>, CmsgError>(fds));
    let rest = control_from(r, (0 + len) as nat);
    assert(rest == (Seq::<Seq<i32>>::empty(), None::<CmsgError>));
    assert(seq![fds] + rest.0 =~= seq![fds]);
}

} // verus!
