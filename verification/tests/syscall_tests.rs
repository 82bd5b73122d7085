use aic8800::cmsg::{cmsg_body_capacity, cmsg_data_len, control_messages, parse_rights, rights_fit, rights_record,
    CMsg, CmsgError};
use aic8800::epoll::{epoll_create_cloexec, epoll_ctl_op, epoll_event_slots, epoll_wait_timeout, EpollError, EpollOp};
use aic8800::select::{check_descriptors, fd_isset, fd_set, fd_zero, select_interest, select_ready, SelectError, EV_ERR, EV_IN, EV_OUT};

fn record(len: u64, level: i32, ty: i32, data: &[u8]) -> Vec<u8> {
    let mut v = Vec::new();
    v.extend_from_slice(&len.to_le_bytes());
    v.extend_from_slice(&level.to_le_bytes());
    v.extend_from_slice(&ty.to_le_bytes());
    v.extend_from_slice(data);
    v
}

fn fd_words(fds: &[usize]) -> [u64; 16] {
    let mut s = [0u64; 16];
    for &fd in fds {
        s[fd / 64] |= 1 << (fd % 64);
    }
    s
}

#[test]
fn fd_set_bits() {
    let mut s = [0u64; 16];
    fd_set(&mut s, 0);
    fd_set(&mut s, 65);
    fd_set(&mut s, 1023);
    assert_eq!(s[0], 1);
    assert_eq!(s[1], 2);
    assert_eq!(s[15], 1 << 63);
    assert!(fd_isset(&s, 65));
    assert!(!fd_isset(&s, 64));
    fd_zero(&mut s);
    assert_eq!(s, [0u64; 16]);
}

#[test]
fn select_interest_lists_requested_descriptors() {
    let r = fd_words(&[1, 3, 70]);
    let w = fd_words(&[3, 5]);
    let e = fd_words(&[5]);
    let v = select_interest(71, Some(&r), Some(&w), Some(&e)).unwrap();
    assert_eq!(v, vec![(1, EV_IN), (3, EV_IN | EV_OUT), (5, EV_OUT | EV_ERR), (70, EV_IN)]);
    // Descriptors at or above nfds are not looked at.
    let v = select_interest(4, Some(&r), None, None).unwrap();
    assert_eq!(v, vec![(1, EV_IN), (3, EV_IN)]);
    assert_eq!(select_interest(0, Some(&r), Some(&w), None).unwrap(), vec![]);
    assert_eq!(select_interest(1025, None, None, None), Err(SelectError::InvalidInput));
    assert_eq!(select_interest(1024, None, None, None), Ok(vec![]));
}

#[test]
fn select_ready_marks_and_counts() {
    let interest = vec![(1usize, EV_IN), (3, EV_IN | EV_OUT), (5, EV_OUT | EV_ERR)];
    // fd 1 readable, fd 3 writable and readable, fd 5 only readable (not asked).
    let polled = vec![EV_IN, EV_IN | EV_OUT, EV_IN];
    let mut r = Some([0u64; 16]);
    let mut w = Some([0u64; 16]);
    let mut e = Some([0u64; 16]);
    let n = select_ready(&interest, &polled, &mut r, &mut w, &mut e);
    assert_eq!(n, 3);
    assert_eq!(r, Some(fd_words(&[1, 3])));
    assert_eq!(w, Some(fd_words(&[3])));
    assert_eq!(e, Some([0u64; 16]));
    // Without a write set the writable event is not counted.
    let mut r = Some([0u64; 16]);
    let mut w = None;
    let mut e = None;
    assert_eq!(select_ready(&interest, &polled, &mut r, &mut w, &mut e), 2);
    assert_eq!(w, None);
    // Nothing ready.
    let mut r = Some([0u64; 16]);
    assert_eq!(select_ready(&interest, &vec![0, 0, 0], &mut r, &mut None, &mut None), 0);
    assert_eq!(r, Some([0u64; 16]));
}

#[test]
fn rights_parsing() {
    let data = [3i32, 4].iter().flat_map(|x| x.to_le_bytes()).collect::<Vec<u8>>();
    assert_eq!(parse_rights(1, 1, &data), Ok(vec![3, 4]));
    assert_eq!(parse_rights(1, 2, &data), Err(CmsgError::InvalidInput));
    assert_eq!(parse_rights(0, 1, &data), Err(CmsgError::InvalidInput));
    assert_eq!(parse_rights(1, 1, &data[..6]), Err(CmsgError::InvalidInput));
    let bad = [3i32, -1].iter().flat_map(|x| x.to_le_bytes()).collect::<Vec<u8>>();
    assert_eq!(parse_rights(1, 1, &bad), Err(CmsgError::BadFileDescriptor));
    assert_eq!(parse_rights(1, 1, &[]), Ok(vec![]));
    assert_eq!(cmsg_data_len(15), Err(CmsgError::InvalidInput));
    assert_eq!(cmsg_data_len(24), Ok(8));
    let m = CMsg::rights(vec![7u8]);
    assert!(matches!(m, CMsg::Rights { fds } if fds == vec![7u8]));
}

#[test]
fn control_area_walk() {
    let mut c = record(20, 1, 1, &5i32.to_le_bytes());
    c.extend(record(24, 1, 1, &[6, 0, 0, 0, 7, 0, 0, 0]));
    assert_eq!(control_messages(&c), (vec![vec![5], vec![6, 7]], None));
    // A trailing partial header is ignored.
    let mut d = c.clone();
    d.extend_from_slice(&[0; 8]);
    assert_eq!(control_messages(&d), (vec![vec![5], vec![6, 7]], None));
    // A record longer than what remains stops the walk.
    let mut t = record(20, 1, 1, &5i32.to_le_bytes());
    t.extend(record(40, 1, 1, &[6, 0, 0, 0]));
    assert_eq!(control_messages(&t), (vec![vec![5]], Some(CmsgError::InvalidInput)));
    // A record shorter than its header too.
    assert_eq!(control_messages(&record(8, 1, 1, &[])), (vec![], Some(CmsgError::InvalidInput)));
    // A negative descriptor.
    assert_eq!(control_messages(&record(20, 1, 1, &(-2i32).to_le_bytes())), (vec![], Some(CmsgError::BadFileDescriptor)));
    assert_eq!(control_messages(&[]), (vec![], None));
}

#[test]
fn rights_records_for_recvmsg() {
    assert_eq!(cmsg_body_capacity(64, 0), Some(48));
    assert_eq!(cmsg_body_capacity(64, 50), None);
    assert_eq!(cmsg_body_capacity(64, 48), Some(0));
    assert_eq!(rights_fit(48, 3), 3);
    assert_eq!(rights_fit(10, 3), 2);
    let rec = rights_record(&[3, 9]);
    assert_eq!(rec, record(24, 1, 1, &[3, 0, 0, 0, 9, 0, 0, 0]));
    assert_eq!(control_messages(&rec), (vec![vec![3, 9]], None));
}

#[test]
fn epoll_argument_checks() {
    assert_eq!(epoll_create_cloexec(0), Ok(false));
    assert_eq!(epoll_create_cloexec(0x80000), Ok(true));
    assert_eq!(epoll_create_cloexec(1), Err(EpollError::InvalidInput));
    assert_eq!(epoll_ctl_op(1), Ok(EpollOp::Add));
    assert_eq!(epoll_ctl_op(2), Ok(EpollOp::Delete));
    assert_eq!(epoll_ctl_op(3), Ok(EpollOp::Modify));
    assert_eq!(epoll_ctl_op(4), Err(EpollError::InvalidInput));
    assert_eq!(epoll_wait_timeout(-1), Ok(None));
    assert_eq!(epoll_wait_timeout(0), Ok(Some(0)));
    assert_eq!(epoll_wait_timeout(250), Ok(Some(250)));
    assert_eq!(epoll_wait_timeout(-2), Err(EpollError::InvalidInput));
    assert_eq!(epoll_event_slots(0), Err(EpollError::InvalidInput));
    assert_eq!(epoll_event_slots(-5), Err(EpollError::InvalidInput));
    assert_eq!(epoll_event_slots(16), Ok(16));
}

#[test]
fn select_refuses_a_descriptor_that_is_not_open() {
    assert_eq!(check_descriptors(&vec![true, true, true]), Ok(()));
    assert_eq!(check_descriptors(&vec![]), Ok(()));
    assert_eq!(check_descriptors(&vec![true, false, true]), Err(SelectError::BadFileDescriptor));
}

#[test]
fn select_count_equals_bits_written_back() {
    let r = fd_words(&[2, 9, 40]);
    let w = fd_words(&[9, 41]);
    let interest = select_interest(42, Some(&r), Some(&w), None).unwrap();
    let polled: Vec<u32> = interest.iter().map(|(fd, _)| if *fd == 40 { 0 } else { EV_IN | EV_OUT }).collect();
    let mut rs = Some([0u64; 16]);
    let mut ws = Some([0u64; 16]);
    let n = select_ready(&interest, &polled, &mut rs, &mut ws, &mut None);
    let bits = |s: &Option<[u64; 16]>| s.map_or(0, |a| a.iter().map(|x| x.count_ones() as usize).sum::<usize>());
    assert_eq!(n, 4);
    assert_eq!(n, bits(&rs) + bits(&ws));
    assert_eq!(rs, Some(fd_words(&[2, 9])));
    assert_eq!(ws, Some(fd_words(&[9, 41])));
}
