//! Argument checks of the epoll system calls.

use vstd::prelude::*;

verus! {

/// `EPOLL_CLOEXEC`, the only flag `epoll_create1` accepts.
pub const EPOLL_CLOEXEC: u32 = 0x80000;
/// `EPOLL_CTL_ADD`.
pub const EPOLL_CTL_ADD: u32 = 1;
/// `EPOLL_CTL_DEL`.
pub const EPOLL_CTL_DEL: u32 = 2;
/// `EPOLL_CTL_MOD`.
pub const EPOLL_CTL_MOD: u32 = 3;

/// Argument errors of the epoll calls.
#[derive(Debug, Clone, Copy, PartialEq, Eq, Structural)]
pub enum EpollError {
    /// `EINVAL`.
    InvalidInput,
}

/// The operation of an `epoll_ctl` call.
#[derive(Debug, Clone, Copy, PartialEq, Eq, Structural)]
pub enum EpollOp {
    Add,
    Modify,
    Delete,
}

/// Checks the flags of `epoll_create1`: any bit besides `EPOLL_CLOEXEC` is
/// refused; otherwise the result says whether `EPOLL_CLOEXEC` is set.
pub fn epoll_create_cloexec(flags: u32) -> (r: Result<bool, EpollError>)
    ensures
        flags & !EPOLL_CLOEXEC != 0 ==> r == Err::<bool, EpollError>(EpollError::InvalidInput),
        flags & !EPOLL_CLOEXEC == 0 ==> r == Ok::<bool, EpollError>(flags & EPOLL_CLOEXEC != 0),
{
    if flags & !EPOLL_CLOEXEC != 0 {
        Err(EpollError::InvalidInput)
    } else {
        Ok(flags & EPOLL_CLOEXEC != 0)
    }
}

/// The operation named by the `op` argument of `epoll_ctl`.
pub open spec fn ctl_op_of(op: u32) -> Result<EpollOp, EpollError> {
    if op == EPOLL_CTL_ADD {
        Ok(EpollOp::Add)
    } else if op == EPOLL_CTL_MOD {
        Ok(EpollOp::Modify)
    } else if op == EPOLL_CTL_DEL {
        Ok(EpollOp::Delete)
    } else {
        Err(EpollError::InvalidInput)
    }
}

/// Decodes the `op` argument of `epoll_ctl`.
pub fn epoll_ctl_op(op: u32) -> (r: Result<EpollOp, EpollError>)
    ensures
        r == ctl_op_of(op),
{
    if op == EPOLL_CTL_ADD {
        Ok(EpollOp::Add)
    } else if op == EPOLL_CTL_MOD {
        Ok(EpollOp::Modify)
    } else if op == EPOLL_CTL_DEL {
        Ok(EpollOp::Delete)
    } else {
        Err(EpollError::InvalidInput)
    }
}

/// The timeout of `epoll_pwait` in milliseconds: -1 waits forever (`None`),
/// a non-negative value is that many milliseconds, anything else is refused.
pub fn epoll_wait_timeout(timeout: i32) -> (r: Result<Option<u64>, EpollError>)
    ensures
        timeout == -1 ==> r == Ok::<Option<u64>, EpollError>(None),
        timeout >= 0 ==> r == Ok::<Option<u64>, EpollError>(Some(timeout as u64)),
        timeout < -1 ==> r == Err::<Option<u64>, EpollError>(EpollError::InvalidInput),
{
    if timeout == -1 {
        Ok(None)
    } else if timeout >= 0 {
        Ok(Some(timeout as u64))
    } else {
        Err(EpollError::InvalidInput)
    }
}

/// The number of event slots of an `epoll_wait` call: `maxevents` must be
/// positive.
pub fn epoll_event_slots(maxevents: i32) -> (r: Result<usize, EpollError>)
    ensures
        maxevents <= 0 ==> r == Err::<usize, EpollError>(EpollError::InvalidInput),
        maxevents > 0 ==> r == Ok::<usize, EpollError>(maxevents as usize),
{
    if maxevents <= 0 {
        Err(EpollError::InvalidInput)
    } else {
        Ok(maxevents as usize)
    }
}

} // verus!
