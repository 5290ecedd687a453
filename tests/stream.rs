use ruisutil::bytes::{ByteBox, ByteSteamBuf, Progress};
use ruisutil::error::BufError;

fn pushed(p: Progress<Result<usize, BufError>>) -> Option<Result<usize, BufError>> {
    match p {
        Progress::Ready(r) => Some(r),
        Progress::Blocked => None,
    }
}

#[test]
fn backpressure_blocks_until_a_pull() {
    let mut s = ByteSteamBuf::new(4);
    assert_eq!(pushed(s.push(false, ByteBox::new(vec![1, 2, 3, 4]))), Some(Ok(4)));
    assert_eq!(pushed(s.push(false, ByteBox::new(vec![5]))), Some(Ok(1)));
    assert_eq!(s.len(), 5);
    // five bytes exceed the limit of four: the next push waits and changes nothing
    assert_eq!(pushed(s.push(false, ByteBox::new(vec![6]))), None);
    assert_eq!(s.len(), 5);
    match s.pull(false) {
        Progress::Ready(Some(c)) => assert_eq!(c.to_vec(), vec![1, 2, 3, 4]),
        _ => panic!("expected a chunk"),
    }
    assert_eq!(pushed(s.push(false, ByteBox::new(vec![6]))), Some(Ok(1)));
    assert_eq!(s.len(), 2);
}

#[test]
fn backpressure_fails_once_cancelled() {
    let mut s = ByteSteamBuf::new(1);
    assert_eq!(pushed(s.push(false, ByteBox::new(vec![1, 2]))), Some(Ok(2)));
    assert_eq!(pushed(s.push(false, ByteBox::new(vec![3]))), None);
    assert_eq!(pushed(s.push(true, ByteBox::new(vec![3]))), Some(Err(BufError::Closed)));
    assert_eq!(s.len(), 2);
}

#[test]
fn writer_reader_round_trip() {
    let data: Vec<u8> = (0..=255u8).collect();
    let mut s = ByteSteamBuf::new(64);
    let mut chunks = data.chunks(16);
    let mut pending: Option<Vec<u8>> = None;
    let mut drained: Vec<u8> = Vec::new();
    let mut closed = false;
    loop {
        loop {
            if pending.is_none() {
                pending = chunks.next().map(|c| c.to_vec());
            }
            match pending.take() {
                None => {
                    closed = true;
                    break;
                }
                Some(c) => match s.push(false, ByteBox::new(c.clone())) {
                    Progress::Ready(r) => assert_eq!(r, Ok(c.len())),
                    Progress::Blocked => {
                        pending = Some(c);
                        break;
                    }
                },
            }
        }
        s.more_max(10);
        loop {
            match s.pull_size(closed, false, 10) {
                Progress::Ready(Ok(b)) => drained.extend(b.to_bytes().to_vec()),
                Progress::Ready(Err(e)) => {
                    assert_eq!(e, BufError::Closed);
                    break;
                }
                Progress::Blocked => break,
            }
        }
        if closed {
            break;
        }
    }
    // 256 is not a multiple of 10: the last six bytes are taken by size
    match s.pull_size(true, false, 6) {
        Progress::Ready(Ok(b)) => drained.extend(b.to_bytes().to_vec()),
        _ => panic!("the tail should be available"),
    }
    assert_eq!(drained, data);
    match s.pull_size(true, false, 10) {
        Progress::Ready(Err(e)) => assert_eq!(e, BufError::Closed),
        _ => panic!("a closed stream must fail"),
    }
}

#[test]
fn pull_size_honours_the_caller_context() {
    let mut s = ByteSteamBuf::new(0);
    assert!(matches!(s.pull_size(false, true, 1), Progress::Ready(Err(BufError::Cancelled))));
    assert!(matches!(s.pull_size(false, false, 1), Progress::Blocked));
    assert!(matches!(s.pull(false), Progress::Blocked));
    assert!(matches!(s.pull(true), Progress::Ready(None)));
}

#[test]
fn limits_and_pull_max() {
    let mut s = ByteSteamBuf::new(3);
    s.set_maxs(2);
    assert_eq!(s.get_max(), 3);
    s.set_maxs(8);
    assert_eq!(s.get_max(), 8);
    assert!(matches!(s.push_front(false, ByteBox::new(vec![4, 5, 6])), Progress::Ready(Ok(3))));
    assert!(matches!(s.push_front(false, ByteBox::new(vec![1, 2, 3])), Progress::Ready(Ok(3))));
    s.more_max(10);
    assert_eq!(s.get_max(), 16);
    s.set_max(1);
    assert_eq!(s.get_max(), 1);
    assert_eq!(s.get_byte(3), Ok(4));
    assert_eq!(s.frtlen(), 3);
    match s.pull_max(false, 2) {
        Progress::Ready(Some(c)) => assert_eq!(c.to_vec(), vec![1, 2]),
        _ => panic!("expected a chunk"),
    }
    assert_eq!(s.len(), 4);
    s.clear();
    assert_eq!(s.len(), 0);
}

#[test]
fn pull_max_keeps_the_rest_of_the_front_chunk() {
    let mut s = ByteSteamBuf::new(0);
    assert!(matches!(s.push(false, ByteBox::new(vec![1, 2, 3])), Progress::Ready(Ok(3))));
    assert!(matches!(s.push(false, ByteBox::new(vec![4])), Progress::Ready(Ok(1))));
    match s.pull_max(false, 0) {
        Progress::Ready(Some(c)) => assert_eq!(c.len(), 0),
        _ => panic!("expected a chunk"),
    }
    assert_eq!(s.frtlen(), 3);
    match s.pull_max(false, 1) {
        Progress::Ready(Some(c)) => assert_eq!(c.to_vec(), vec![1]),
        _ => panic!("expected a chunk"),
    }
    assert_eq!(s.frtlen(), 2);
    match s.pull_max(false, 9) {
        Progress::Ready(Some(c)) => assert_eq!(c.to_vec(), vec![2, 3]),
        _ => panic!("expected a chunk"),
    }
    assert_eq!(s.frtlen(), 1);
    assert_eq!(s.len(), 1);
}
