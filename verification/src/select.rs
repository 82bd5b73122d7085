//! Descriptor-set logic of `select`/`pselect6`: which descriptors a caller
//! asked about, and which of them are reported ready.
//!
//! A descriptor set is the kernel's `fd_set` for 1024 descriptors: sixteen
//! 64-bit words, descriptor `fd` being bit `fd % 64` of word `fd / 64`.

use vstd::prelude::*;

verus! {

/// Number of descriptors an `fd_set` can hold.
pub const FD_SETSIZE: u32 = 1024;

/// Readable.
pub const EV_IN: u32 = 0x001;
/// Writable.
pub const EV_OUT: u32 = 0x004;
/// Error condition.
pub const EV_ERR: u32 = 0x008;

/// Errors of the descriptor-set logic.
#[derive(Debug, Clone, Copy, PartialEq, Eq, Structural)]
pub enum SelectError {
    /// `nfds` is larger than `FD_SETSIZE`.
    InvalidInput,
    /// A descriptor asked about is not open.
    BadFileDescriptor,
}

/// Whether descriptor `fd` is a member of the set `words`.
pub open spec fn fd_bit(words: Seq<u64>, fd: int) -> bool {
    (words[fd / 64] >> ((fd % 64) as u64)) & 1u64 == 1u64
}

proof fn lemma_set_bit(x: u64, b: u64, c: u64)
    requires
        b < 64,
        c < 64,
    ensures
        (((x | (1u64 << b)) >> c) & 1u64 == 1u64) == (((x >> c) & 1u64 == 1u64) || b == c),
{
    assert((((x | (1u64 << b)) >> c) & 1u64 == 1u64) == (((x >> c) & 1u64 == 1u64) || b == c))
        by (bit_vector)
        requires
            b < 64,
            c < 64,
    ;
}

proof fn lemma_zero_bit(c: u64)
    requires
        c < 64,
    ensures
        (0u64 >> c) & 1u64 == 0u64,
{
    assert((0u64 >> c) & 1u64 == 0u64) by (bit_vector);
}

/// `FD_ISSET`: whether `fd` is in `set`.
pub fn fd_isset(set: &[u64; 16], fd: usize) -> (b: bool)
    requires
        fd < FD_SETSIZE,
    ensures
        b == fd_bit(set@, fd as int),
{
    (set[fd / 64] >> ((fd % 64) as u64)) & 1u64 == 1u64
}

/// `FD_SET`: adds `fd` to `set`, leaving every other descriptor as it was.
pub fn fd_set(set: &mut [u64; 16], fd: usize)
    requires
        fd < FD_SETSIZE,
    ensures
        forall|i: int| 0 <= i < FD_SETSIZE ==> #[trigger] fd_bit(final(set)@, i) == (fd_bit(old(set)@, i) || i == fd),
{
    let w = fd / 64;
    let b = (fd % 64) as u64;
    let word = set[w];
    set[w] = word | (1u64 << b);
    proof {
        assert forall|i: int| 0 <= i < FD_SETSIZE implies #[trigger] fd_bit(set@, i) == (fd_bit(old(set)@, i) || i == fd) by {
            let c = (i % 64) as u64;
            if i / 64 == w as int {
                lemma_set_bit(word, b, c);
                assert((i == fd) == (c == b));
            } else {
                assert(i != fd);
            }
        }
    }
}

/// `FD_ZERO`: empties `set`.
pub fn fd_zero(set: &mut [u64; 16])
    ensures
        forall|i: int| 0 <= i < FD_SETSIZE ==> !#[trigger] fd_bit(final(set)@, i),
{
    *set = [0u64; 16];
    proof {
        assert forall|i: int| 0 <= i < FD_SETSIZE implies !#[trigger] fd_bit(set@, i) by {
            lemma_zero_bit((i % 64) as u64);
        }
    }
}

/// The words of an optional set.
pub open spec fn opt_words(s: Option<&[u64; 16]>) -> Option<Seq<u64>> {
    match s {
        Some(w) => Some(w@),
        None => None,
    }
}

/// Whether `fd` is in an optional set (an absent set holds nothing).
pub open spec fn in_opt(s: Option<Seq<u64>>, fd: int) -> bool {
    match s {
        Some(w) => fd_bit(w, fd),
        None => false,
    }
}

/// The events asked about `fd`: readable if it is in the read set,
/// writable if in the write set, error if in the except set.
pub open spec fn events_of(r: Option<Seq<u64>>, w: Option<Seq<u64>>, e: Option<Seq<u64>>, fd: int) -> u32 {
    ((if in_opt(r, fd) { EV_IN } else { 0u32 }) + (if in_opt(w, fd) { EV_OUT } else { 0u32 })
        + (if in_opt(e, fd) { EV_ERR } else { 0u32 })) as u32
}

/// The descriptors below `n` that are in at least one of the sets, in
/// ascending order, each with the events asked about it.
pub open spec fn interest_upto(r: Option<Seq<u64>>, w: Option<Seq<u64>>, e: Option<Seq<u64>>, n: nat) -> Seq<(usize, u32)>
    decreases n,
{
    if n == 0 {
        Seq::empty()
    } else {
        let prev = interest_upto(r, w, e, (n - 1) as nat);
        let ev = events_of(r, w, e, n - 1);
        if ev != 0 {
            prev.push(((n - 1) as usize, ev))
        } else {
            prev
        }
    }
}

fn opt_isset(s: Option<&[u64; 16]>, fd: usize) -> (b: bool)
    requires
        fd < FD_SETSIZE,
    ensures
        b == in_opt(opt_words(s), fd as int),
{
    match s {
        Some(w) => fd_isset(w, fd),
        None => false,
    }
}

/// The descriptors that a `select` call with `nfds` and these sets asks
/// about, in ascending order, with the events asked about each.  An `nfds`
/// above `FD_SETSIZE` is refused.
pub fn select_interest(nfds: u32, read: Option<&[u64; 16]>, write: Option<&[u64; 16]>, except: Option<&[u64; 16]>) -> (r: Result<Vec<(usize, u32)>, SelectError>)
    ensures
        nfds > FD_SETSIZE ==> r == Err::<Vec<(usize, u32)>, SelectError>(SelectError::InvalidInput),
        nfds <= FD_SETSIZE ==> r is Ok && r->Ok_0@ == interest_upto(opt_words(read), opt_words(write), opt_words(except), nfds as nat),
{
    if nfds > FD_SETSIZE {
        return Err(SelectError::InvalidInput);
    }
    let mut v: Vec<(usize, u32)> = Vec::new();
    let n = nfds as usize;
    let mut fd: usize = 0;
    while fd < n
        invariant
            n == nfds,
            nfds <= FD_SETSIZE,
            fd <= n,
            v@ == interest_upto(opt_words(read), opt_words(write), opt_words(except), fd as nat),
        decreases n - fd,
    {
        let mut ev: u32 = 0;
        if opt_isset(read, fd) {
            ev = ev + EV_IN;
        }
        if opt_isset(write, fd) {
            ev = ev + EV_OUT;
        }
        if opt_isset(except, fd) {
            ev = ev + EV_ERR;
        }
        if ev != 0 {
            v.push((fd, ev));
        }
        fd = fd + 1;
    }
    Ok(v)
}

/// Whether the call may go on once each descriptor asked about has been
/// looked up in the descriptor table (`open[i]` for the `i`-th, in the
/// order of `select_interest`): one that is not open refuses the whole
/// call with `BadFileDescriptor`.
pub fn check_descriptors(open: &Vec<bool>) -> (r: Result<(), SelectError>)
    ensures
        r is Ok <==> (forall|i: int| 0 <= i < open@.len() ==> open@[i]),
        r is Err ==> r == Err::<(), SelectError>(SelectError::BadFileDescriptor),
{
    let mut i: usize = 0;
    while i < open.len()
        invariant
            i <= open@.len(),
            forall|j: int| 0 <= j < i ==> open@[j],
        decreases open@.len() - i,
    {
        if !open[i] {
            return Err(SelectError::BadFileDescriptor);
        }
        i = i + 1;
    }
    Ok(())
}

/// Whether the events `polled & interested` include `bit`.
pub open spec fn reports(polled: u32, interested: u32, bit: u32) -> bool {
    (polled & interested) & bit == bit
}

/// The number of (descriptor, event) pairs reported ready among the first
/// `n` entries: one for each of readable, writable and error that was asked
/// about, happened, and has an output set to go to.
pub open spec fn ready_count(interest: Seq<(usize, u32)>, polled: Seq<u32>, has_r: bool, has_w: bool, has_e: bool, n: nat) -> nat
    decreases n,
{
    if n == 0 {
        0
    } else {
        let k = n - 1;
        ready_count(interest, polled, has_r, has_w, has_e, (n - 1) as nat)
            + (if has_r && reports(polled[k], interest[k].1, EV_IN) { 1nat } else { 0nat })
            + (if has_w && reports(polled[k], interest[k].1, EV_OUT) { 1nat } else { 0nat })
            + (if has_e && reports(polled[k], interest[k].1, EV_ERR) { 1nat } else { 0nat })
    }
}

/// Whether one of the first `n` entries reports `bit` for descriptor `fd`.
pub open spec fn marked(interest: Seq<(usize, u32)>, polled: Seq<u32>, bit: u32, fd: int, n: nat) -> bool
    decreases n,
{
    if n == 0 {
        false
    } else {
        marked(interest, polled, bit, fd, (n - 1) as nat)
            || (interest[n - 1].0 == fd && reports(polled[n - 1], interest[n - 1].1, bit))
    }
}

/// How an output set relates to the one it was: every descriptor that was
/// in it stays, and each descriptor that one of the first `n` entries
/// reports for `bit` is added.
pub open spec fn marked_set(before: Option<[u64; 16]>, after: Option<[u64; 16]>, interest: Seq<(usize, u32)>, polled: Seq<u32>, bit: u32, n: nat) -> bool {
    &&& (after is Some <==> before is Some)
    &&& before is Some ==> forall|i: int| 0 <= i < FD_SETSIZE ==>
            #[trigger] fd_bit(after->0@, i) == (fd_bit(before->0@, i) || marked(interest, polled, bit, i, n))
}

proof fn lemma_both_bits(p: u32, i: u32, b: u32)
    requires
        p & b == b,
        i & b == b,
    ensures
        (p & i) & b == b,
{
    assert(p & b == b && i & b == b ==> (p & i) & b == b) by (bit_vector);
}

proof fn lemma_marked_from(interest: Seq<(usize, u32)>, polled: Seq<u32>, bit: u32, k: int, n: nat)
    requires
        0 <= k < n,
        reports(polled[k], interest[k].1, bit),
    ensures
        marked(interest, polled, bit, interest[k].0 as int, n),
    decreases n,
{
    if k < n - 1 {
        lemma_marked_from(interest, polled, bit, k, (n - 1) as nat);
    }
}

proof fn lemma_count_from(interest: Seq<(usize, u32)>, polled: Seq<u32>, hr: bool, hw: bool, he: bool, k: int, n: nat)
    requires
        0 <= k < n,
    ensures
        ready_count(interest, polled, hr, hw, he, n) >= ready_count(interest, polled, hr, hw, he, (k + 1) as nat),
    decreases n,
{
    if k < n - 1 {
        lemma_count_from(interest, polled, hr, hw, he, k, (n - 1) as nat);
    }
}

/// A descriptor that was asked about for an event (readable, writable or
/// error) and reports that event is marked in that event's output set,
/// where the set exists, and counted: entry `k` whose polled and asked
/// events both hold `bit` ends up in the set after the round, and the count
/// is at least one.
pub proof fn law_select_reports_ready(interest: Seq<(usize, u32)>, polled: Seq<u32>, bit: u32, k: int,
    before: Option<[u64; 16]>, after: Option<[u64; 16]>, hr: bool, hw: bool, he: bool)
    requires
        bit == EV_IN || bit == EV_OUT || bit == EV_ERR,
        interest.len() == polled.len(),
        0 <= k < interest.len(),
        interest[k].0 < FD_SETSIZE,
        polled[k] & bit == bit,
        interest[k].1 & bit == bit,
        before is Some,
        marked_set(before, after, interest, polled, bit, interest.len()),
        bit == EV_IN ==> hr,
        bit == EV_OUT ==> hw,
        bit == EV_ERR ==> he,
    ensures
        after is Some,
        fd_bit(after->0@, interest[k].0 as int),
        ready_count(interest, polled, hr, hw, he, interest.len()) >= 1,
{
    lemma_both_bits(polled[k], interest[k].1, bit);
    lemma_marked_from(interest, polled, bit, k, interest.len());
    assert(fd_bit(after->0@, interest[k].0 as int));
    lemma_count_from(interest, polled, hr, hw, he, k, interest.len());
}

proof fn lemma_marked_witness(interest: Seq<(usize, u32)>, polled: Seq<u32>, bit: u32, fd: int, n: nat) -> (k: int)
    requires
        marked(interest, polled, bit, fd, n),
    ensures
        0 <= k < n,
        interest[k].0 == fd,
        reports(polled[k], interest[k].1, bit),
    decreases n,
{
    if marked(interest, polled, bit, fd, (n - 1) as nat) {
        lemma_marked_witness(interest, polled, bit, fd, (n - 1) as nat)
    } else {
        n - 1
    }
}

/// A descriptor is newly marked for an event only when an entry for it both
/// asked about that event and reports it.
pub proof fn law_select_marks_only_ready(interest: Seq<(usize, u32)>, polled: Seq<u32>, bit: u32, fd: int,
    before: Option<[u64; 16]>, after: Option<[u64; 16]>)
    requires
        interest.len() == polled.len(),
        0 <= fd < FD_SETSIZE,
        before is Some,
        marked_set(before, after, interest, polled, bit, interest.len()),
        fd_bit(after->0@, fd),
        !fd_bit(before->0@, fd),
    ensures
        exists|k: int| 0 <= k < interest.len() && interest[k].0 == fd
            && #[trigger] (polled[k] & bit) == bit && interest[k].1 & bit == bit,
{
    let k = lemma_marked_witness(interest, polled, bit, fd, interest.len());
    let p = polled[k];
    let i = interest[k].1;
    assert((p & i) & bit == bit ==> p & bit == bit && i & bit == bit) by (bit_vector);
    assert(polled[k] & bit == bit);
}

fn mark(set: &mut Option<[u64; 16]>, fd: usize, hit: bool, Ghost(interest): Ghost<Seq<(usize, u32)>>, Ghost(polled): Ghost<Seq<u32>>, Ghost(bit): Ghost<u32>, Ghost(k): Ghost<nat>) -> (added: bool)
    requires
        fd < FD_SETSIZE,
        k < interest.len(),
        k < polled.len(),
        interest[k as int].0 == fd,
        hit == reports(polled[k as int], interest[k as int].1, bit),
    ensures
        added == (hit && (*old(set)) is Some),
        ((*final(set)) is Some <==> (*old(set)) is Some),
        (*old(set)) is Some ==> forall|i: int| 0 <= i < FD_SETSIZE ==>
            #[trigger] fd_bit((*final(set))->0@, i) == (fd_bit((*old(set))->0@, i) || (i == fd && hit)),
{
    if hit {
        match set {
            Some(s) => {
                fd_set(s, fd);
                true
            },
            None => false,
        }
    } else {
        false
    }
}

/// One round of readiness collection: `polled[k]` is what descriptor
/// `interest[k].0` reports now.  Each event that was asked about and
/// happened is added to its output set, where that set exists; the result
/// counts the additions.
pub fn select_ready(interest: &Vec<(usize, u32)>, polled: &Vec<u32>, read: &mut Option<[u64; 16]>, write: &mut Option<[u64; 16]>, except: &mut Option<[u64; 16]>) -> (n: usize)
    requires
        interest.len() == polled.len(),
        interest.len() <= FD_SETSIZE,
        forall|k: int| 0 <= k < interest.len() ==> #[trigger] interest[k].0 < FD_SETSIZE,
    ensures
        n == ready_count(interest@, polled@, (*old(read)) is Some, (*old(write)) is Some, (*old(except)) is Some, interest.len() as nat),
        marked_set(*old(read), *final(read), interest@, polled@, EV_IN, interest.len() as nat),
        marked_set(*old(write), *final(write), interest@, polled@, EV_OUT, interest.len() as nat),
        marked_set(*old(except), *final(except), interest@, polled@, EV_ERR, interest.len() as nat),
{
    let ghost r0 = *read;
    let ghost w0 = *write;
    let ghost e0 = *except;
    let mut res: usize = 0;
    let mut k: usize = 0;
    while k < interest.len()
        invariant
            interest.len() == polled.len(),
            interest.len() <= FD_SETSIZE,
            forall|j: int| 0 <= j < interest.len() ==> #[trigger] interest[j].0 < FD_SETSIZE,
            k <= interest.len(),
            res == ready_count(interest@, polled@, r0 is Some, w0 is Some, e0 is Some, k as nat),
            res <= 3 * k,
            marked_set(r0, *read, interest@, polled@, EV_IN, k as nat),
            marked_set(w0, *write, interest@, polled@, EV_OUT, k as nat),
            marked_set(e0, *except, interest@, polled@, EV_ERR, k as nat),
        decreases interest.len() - k,
    {
        let (fd, interested) = interest[k];
        let events = polled[k] & interested;
        let ghost rb = *read;
        let ghost wb = *write;
        let ghost eb = *except;
        if mark(read, fd, events & EV_IN == EV_IN, Ghost(interest@), Ghost(polled@), Ghost(EV_IN), Ghost(k as nat)) {
            res = res + 1;
        }
        if mark(write, fd, events & EV_OUT == EV_OUT, Ghost(interest@), Ghost(polled@), Ghost(EV_OUT), Ghost(k as nat)) {
            res = res + 1;
        }
        if mark(except, fd, events & EV_ERR == EV_ERR, Ghost(interest@), Ghost(polled@), Ghost(EV_ERR), Ghost(k as nat)) {
            res = res + 1;
        }
        proof {
            if r0 is Some {
                assert forall|i: int| 0 <= i < FD_SETSIZE implies #[trigger] fd_bit(read->0@, i)
                    == (fd_bit(r0->0@, i) || marked(interest@, polled@, EV_IN, i, (k + 1) as nat)) by {
                    assert(fd_bit(rb->0@, i) == (fd_bit(r0->0@, i) || marked(interest@, polled@, EV_IN, i, k as nat)));
                }
            }
            if w0 is Some {
                assert forall|i: int| 0 <= i < FD_SETSIZE implies #[trigger] fd_bit(write->0@, i)
                    == (fd_bit(w0->0@, i) || marked(interest@, polled@, EV_OUT, i, (k + 1) as nat)) by {
                    assert(fd_bit(wb->0@, i) == (fd_bit(w0->0@, i) || marked(interest@, polled@, EV_OUT, i, k as nat)));
                }
            }
            if e0 is Some {
                assert forall|i: int| 0 <= i < FD_SETSIZE implies #[trigger] fd_bit(except->0@, i)
                    == (fd_bit(e0->0@, i) || marked(interest@, polled@, EV_ERR, i, (k + 1) as nat)) by {
                    assert(fd_bit(eb->0@, i) == (fd_bit(e0->0@, i) || marked(interest@, polled@, EV_ERR, i, k as nat)));
                }
            }
        }
        k = k + 1;
    }
    res
}

proof fn lemma_interest_entries(r: Option<Seq<u64>>, w: Option<Seq<u64>>, e: Option<Seq<u64>>, n: nat)
    requires
        n <= FD_SETSIZE,
    ensures
        forall|k: int| 0 <= k < interest_upto(r, w, e, n).len() ==> {
            &&& (#[trigger] interest_upto(r, w, e, n)[k]).0 < n
            &&& interest_upto(r, w, e, n)[k].1 == events_of(r, w, e, interest_upto(r, w, e, n)[k].0 as int)
        },
    decreases n,
{
    if n > 0 {
        lemma_interest_entries(r, w, e, (n - 1) as nat);
        let prev = interest_upto(r, w, e, (n - 1) as nat);
        assert forall|k: int| 0 <= k < prev.len() implies #[trigger] interest_upto(r, w, e, n)[k] == prev[k] by {}
    }
}

proof fn lemma_event_bits(p: u32, ev: u32)
    requires
        ev == 0 || ev == 1 || ev == 4 || ev == 5 || ev == 8 || ev == 9 || ev == 12 || ev == 13,
    ensures
        reports(p, ev, EV_IN) ==> (ev == 1 || ev == 5 || ev == 9 || ev == 13),
        reports(p, ev, EV_OUT) ==> (ev == 4 || ev == 5 || ev == 12 || ev == 13),
        reports(p, ev, EV_ERR) ==> (ev == 8 || ev == 9 || ev == 12 || ev == 13),
{
    assert((p & ev) & 1u32 == 1u32 ==> (ev == 1 || ev == 5 || ev == 9 || ev == 13)) by (bit_vector)
        requires
            ev == 0 || ev == 1 || ev == 4 || ev == 5 || ev == 8 || ev == 9 || ev == 12 || ev == 13,
    ;
    assert((p & ev) & 4u32 == 4u32 ==> (ev == 4 || ev == 5 || ev == 12 || ev == 13)) by (bit_vector)
        requires
            ev == 0 || ev == 1 || ev == 4 || ev == 5 || ev == 8 || ev == 9 || ev == 12 || ev == 13,
    ;
    assert((p & ev) & 8u32 == 8u32 ==> (ev == 8 || ev == 9 || ev == 12 || ev == 13)) by (bit_vector)
        requires
            ev == 0 || ev == 1 || ev == 4 || ev == 5 || ev == 8 || ev == 9 || ev == 12 || ev == 13,
    ;
}

/// `select` reports a descriptor as readable (writable, in error) only when
/// the caller asked about it in the read (write, except) set and it is
/// below `nfds`: whatever the descriptors report, the marks that
/// `select_ready` adds over the list of `select_interest` stay within the
/// requested sets.
pub proof fn lemma_select_reports_only_requested(r: Option<Seq<u64>>, w: Option<Seq<u64>>, e: Option<Seq<u64>>,
    nfds: nat, polled: Seq<u32>, fd: int, n: nat)
    requires
        nfds <= FD_SETSIZE,
        n <= interest_upto(r, w, e, nfds).len(),
    ensures
        marked(interest_upto(r, w, e, nfds), polled, EV_IN, fd, n) ==> 0 <= fd < nfds && in_opt(r, fd),
        marked(interest_upto(r, w, e, nfds), polled, EV_OUT, fd, n) ==> 0 <= fd < nfds && in_opt(w, fd),
        marked(interest_upto(r, w, e, nfds), polled, EV_ERR, fd, n) ==> 0 <= fd < nfds && in_opt(e, fd),
    decreases n,
{
    if n > 0 {
        lemma_select_reports_only_requested(r, w, e, nfds, polled, fd, (n - 1) as nat);
        let il = interest_upto(r, w, e, nfds);
        lemma_interest_entries(r, w, e, nfds);
        let k = n - 1;
        let entry = il[k];
        let ev = entry.1;
        assert(ev == events_of(r, w, e, entry.0 as int));
        lemma_event_bits(polled[k], ev);
    }
}

/// The number of descriptors below `m` in the set `words`.
pub open spec fn bits_upto(words: Seq<u64>, m: nat) -> nat
    decreases m,
{
    if m == 0 {
        0
    } else {
        bits_upto(words, (m - 1) as nat) + (if fd_bit(words, m - 1) { 1nat } else { 0nat })
    }
}

/// The number of descriptors in an optional output set (none for an absent
/// set).
pub open spec fn set_bits(s: Option<[u64; 16]>) -> nat {
    match s {
        Some(w) => bits_upto(w@, FD_SETSIZE as nat),
        None => 0,
    }
}

/// The number of descriptors below `m` that one of the first `n` entries
/// reports for `bit`.
pub open spec fn marked_upto(interest: Seq<(usize, u32)>, polled: Seq<u32>, bit: u32, n: nat, m: nat) -> nat
    decreases m,
{
    if m == 0 {
        0
    } else {
        marked_upto(interest, polled, bit, n, (m - 1) as nat)
            + (if marked(interest, polled, bit, m - 1, n) { 1nat } else { 0nat })
    }
}

/// The number of the first `n` entries that report `bit`.
pub open spec fn reported(interest: Seq<(usize, u32)>, polled: Seq<u32>, bit: u32, n: nat) -> nat
    decreases n,
{
    if n == 0 {
        0
    } else {
        reported(interest, polled, bit, (n - 1) as nat) + (if reports(polled[n - 1], interest[n - 1].1, bit) { 1nat } else { 0nat })
    }
}

/// The descriptors of the entries go strictly up, all below `FD_SETSIZE`.
pub open spec fn ascending(interest: Seq<(usize, u32)>) -> bool {
    &&& forall|k: int| 0 <= k < interest.len() ==> #[trigger] interest[k].0 < FD_SETSIZE
    &&& forall|j: int, k: int| 0 <= j < k < interest.len() ==> interest[j].0 < interest[k].0
}

proof fn lemma_marked_below(interest: Seq<(usize, u32)>, polled: Seq<u32>, bit: u32, fd: int, n: nat)
    requires
        n <= interest.len(),
        ascending(interest),
        marked(interest, polled, bit, fd, n),
    ensures
        exists|k: int| 0 <= k < n && interest[k].0 == fd,
    decreases n,
{
    if marked(interest, polled, bit, fd, (n - 1) as nat) {
        lemma_marked_below(interest, polled, bit, fd, (n - 1) as nat);
    } else {
        assert(interest[n - 1].0 == fd);
    }
}

proof fn lemma_marked_upto_step(interest: Seq<(usize, u32)>, polled: Seq<u32>, bit: u32, n: nat, m: nat)
    requires
        0 < n <= interest.len(),
        ascending(interest),
    ensures
        marked_upto(interest, polled, bit, n, m) == marked_upto(interest, polled, bit, (n - 1) as nat, m)
            + (if interest[n - 1].0 < m && reports(polled[n - 1], interest[n - 1].1, bit) { 1nat } else { 0nat }),
    decreases m,
{
    if m > 0 {
        lemma_marked_upto_step(interest, polled, bit, n, (m - 1) as nat);
        let i = m - 1;
        if i == interest[n - 1].0 {
            if marked(interest, polled, bit, i, (n - 1) as nat) {
                lemma_marked_below(interest, polled, bit, i, (n - 1) as nat);
                let k = choose|k: int| 0 <= k < n - 1 && interest[k].0 == i;
                assert(interest[k].0 < interest[n - 1].0);
            }
        }
    }
}

proof fn lemma_marked_upto_count(interest: Seq<(usize, u32)>, polled: Seq<u32>, bit: u32, n: nat)
    requires
        n <= interest.len(),
        ascending(interest),
    ensures
        marked_upto(interest, polled, bit, n, FD_SETSIZE as nat) == reported(interest, polled, bit, n),
    decreases n,
{
    if n == 0 {
        lemma_marked_upto_none(interest, polled, bit, FD_SETSIZE as nat);
    } else {
        lemma_marked_upto_count(interest, polled, bit, (n - 1) as nat);
        lemma_marked_upto_step(interest, polled, bit, n, FD_SETSIZE as nat);
    }
}

proof fn lemma_marked_upto_none(interest: Seq<(usize, u32)>, polled: Seq<u32>, bit: u32, m: nat)
    ensures
        marked_upto(interest, polled, bit, 0, m) == 0,
    decreases m,
{
    if m > 0 {
        lemma_marked_upto_none(interest, polled, bit, (m - 1) as nat);
    }
}

proof fn lemma_bits_of_marked(before: Seq<u64>, after: Seq<u64>, interest: Seq<(usize, u32)>, polled: Seq<u32>, bit: u32,
    n: nat, m: nat)
    requires
        m <= FD_SETSIZE,
        forall|i: int| 0 <= i < FD_SETSIZE ==> !#[trigger] fd_bit(before, i),
        forall|i: int| 0 <= i < FD_SETSIZE ==>
            #[trigger] fd_bit(after, i) == (fd_bit(before, i) || marked(interest, polled, bit, i, n)),
    ensures
        bits_upto(after, m) == marked_upto(interest, polled, bit, n, m),
    decreases m,
{
    if m > 0 {
        lemma_bits_of_marked(before, after, interest, polled, bit, n, (m - 1) as nat);
        assert(fd_bit(after, m - 1) == (fd_bit(before, m - 1) || marked(interest, polled, bit, m - 1, n)));
    }
}

proof fn lemma_ready_count_split(interest: Seq<(usize, u32)>, polled: Seq<u32>, hr: bool, hw: bool, he: bool, n: nat)
    ensures
        ready_count(interest, polled, hr, hw, he, n)
            == (if hr { reported(interest, polled, EV_IN, n) } else { 0 })
            + (if hw { reported(interest, polled, EV_OUT, n) } else { 0 })
            + (if he { reported(interest, polled, EV_ERR, n) } else { 0 }),
    decreases n,
{
    if n > 0 {
        lemma_ready_count_split(interest, polled, hr, hw, he, (n - 1) as nat);
    }
}

proof fn lemma_set_count(before: Option<[u64; 16]>, after: Option<[u64; 16]>, interest: Seq<(usize, u32)>, polled: Seq<u32>,
    bit: u32)
    requires
        ascending(interest),
        marked_set(before, after, interest, polled, bit, interest.len()),
        before is Some ==> forall|i: int| 0 <= i < FD_SETSIZE ==> !#[trigger] fd_bit(before->0@, i),
    ensures
        set_bits(after) == (if before is Some { reported(interest, polled, bit, interest.len()) } else { 0 }),
{
    if before is Some {
        lemma_bits_of_marked(before->0@, after->0@, interest, polled, bit, interest.len(), FD_SETSIZE as nat);
        lemma_marked_upto_count(interest, polled, bit, interest.len());
    }
}

/// The count `select` returns is the number of descriptors in the sets it
/// writes back: when the output sets start empty and the entries' descriptors
/// go strictly up (as `select_interest` lists them), the marks that
/// `select_ready` adds number exactly its result.
pub proof fn law_select_count(interest: Seq<(usize, u32)>, polled: Seq<u32>, r0: Option<[u64; 16]>,
    w0: Option<[u64; 16]>, e0: Option<[u64; 16]>, r1: Option<[u64; 16]>, w1: Option<[u64; 16]>, e1: Option<[u64; 16]>)
    requires
        ascending(interest),
        r0 is Some ==> forall|i: int| 0 <= i < FD_SETSIZE ==> !#[trigger] fd_bit(r0->0@, i),
        w0 is Some ==> forall|i: int| 0 <= i < FD_SETSIZE ==> !#[trigger] fd_bit(w0->0@, i),
        e0 is Some ==> forall|i: int| 0 <= i < FD_SETSIZE ==> !#[trigger] fd_bit(e0->0@, i),
        marked_set(r0, r1, interest, polled, EV_IN, interest.len()),
        marked_set(w0, w1, interest, polled, EV_OUT, interest.len()),
        marked_set(e0, e1, interest, polled, EV_ERR, interest.len()),
    ensures
        ready_count(interest, polled, r0 is Some, w0 is Some, e0 is Some, interest.len())
            == set_bits(r1) + set_bits(w1) + set_bits(e1),
{
    lemma_ready_count_split(interest, polled, r0 is Some, w0 is Some, e0 is Some, interest.len());
    lemma_set_count(r0, r1, interest, polled, EV_IN);
    lemma_set_count(w0, w1, interest, polled, EV_OUT);
    lemma_set_count(e0, e1, interest, polled, EV_ERR);
}

/// `select_interest` lists its descriptors strictly ascending, below
/// `nfds`.
pub proof fn lemma_interest_ascending(r: Option<Seq<u64>>, w: Option<Seq<u64>>, e: Option<Seq<u64>>, nfds: nat)
    requires
        nfds <= FD_SETSIZE,
    ensures
        ascending(interest_upto(r, w, e, nfds)),
    decreases nfds,
{
    lemma_interest_entries(r, w, e, nfds);
    if nfds > 0 {
        lemma_interest_ascending(r, w, e, (nfds - 1) as nat);
        let prev = interest_upto(r, w, e, (nfds - 1) as nat);
        lemma_interest_entries(r, w, e, (nfds - 1) as nat);
        let cur = interest_upto(r, w, e, nfds);
        assert forall|k: int| 0 <= k < prev.len() implies #[trigger] cur[k] == prev[k] by {}
        assert forall|j: int, k: int| 0 <= j < k < cur.len() implies cur[j].0 < cur[k].0 by {
            assert(cur[j] == prev[j]);
            if k < prev.len() {
                assert(cur[k] == prev[k]);
            }
        }
    }
}

} // verus!
