use ruisutil::bytes::{ByteBox, ByteBoxBuf};
use ruisutil::error::BufError;

#[test]
fn it_works() {
    assert_eq!(2 + 2, 4);
}

#[test]
fn bufs() {
    let mut buf = ByteBoxBuf::new();
    buf.push(ByteBox::new(vec![0x8e, 0x8f]));
    buf.push(ByteBox::new(vec![0xff, 0xa7, 0x33]));
    let bts = buf.to_bytes();
    println!("datas({}/{}):{:?}", bts.len(), buf.len(), &bts.to_vec()[..]);
    assert_eq!(bts.to_vec(), vec![0x8e, 0x8f, 0xff, 0xa7, 0x33]);
    assert_eq!(buf.len(), 5);
}

#[test]
fn cut_then_join_gives_back_the_chunk() {
    let data: Vec<u8> = (0u8..10).collect();
    for pos in 0..=10usize {
        let mut head = ByteBox::new(data.clone());
        let tail = head.cut(pos).unwrap();
        let mut joined = head.to_vec();
        joined.extend(tail.to_vec());
        assert_eq!(joined, data);
        assert_eq!(head.len(), pos);
    }
    let mut b = ByteBox::new(data.clone());
    assert_eq!(b.cut(11).err(), Some(BufError::OutOfBounds));
    assert_eq!(b.to_vec(), data);
}

#[test]
fn cuts_returns_the_head() {
    let mut b = ByteBox::new(vec![1, 2, 3, 4, 5]);
    let head = b.cuts(2).unwrap();
    assert_eq!(head.to_vec(), vec![1, 2]);
    assert_eq!(b.to_vec(), vec![3, 4, 5]);
    assert_eq!(b.cuts(4).err(), Some(BufError::OutOfBounds));
    assert_eq!(b.get(2), Ok(5));
    assert_eq!(b.get(3), Err(BufError::OutOfBounds));
}

#[test]
fn push_push_to_bytes_and_cut_front() {
    let a = vec![1u8, 2, 3];
    let b = vec![4u8, 5, 6, 7];
    let ab: Vec<u8> = a.iter().chain(b.iter()).cloned().collect();
    for k in 0..=ab.len() {
        let mut buf = ByteBoxBuf::new();
        buf.push(ByteBox::new(a.clone()));
        buf.push(ByteBox::new(b.clone()));
        assert_eq!(buf.to_bytes().to_vec(), ab);
        let front = buf.cut_front(k).unwrap();
        assert_eq!(front.to_bytes().to_vec(), ab[..k].to_vec());
        assert_eq!(buf.to_bytes().to_vec(), ab[k..].to_vec());
        assert_eq!(front.len(), k);
        assert_eq!(buf.len(), ab.len() - k);
    }
}

#[test]
fn cut_front_past_the_end_fails() {
    let mut buf = ByteBoxBuf::new();
    buf.push(ByteBox::new(vec![1, 2, 3]));
    assert!(matches!(buf.cut_front(4), Err(BufError::OutOfBounds)));
    assert_eq!(buf.len(), 3);
    assert_eq!(buf.cut_front(0).unwrap().len(), 0);
}

#[test]
fn empty_chunks_are_dropped() {
    let mut buf = ByteBoxBuf::new();
    buf.push(ByteBox::empty());
    buf.push_front(ByteBox::new(Vec::new()));
    assert_eq!(buf.len(), 0);
    assert_eq!(buf.iter().len(), 0);
    assert!(buf.pull().is_none());
    assert_eq!(buf.frtlen(), 0);
}

#[test]
fn push_front_pull_and_lengths() {
    let mut buf = ByteBoxBuf::new();
    buf.push(ByteBox::new(vec![3, 4]));
    buf.push_front(ByteBox::new(vec![1, 2]));
    buf.pushs(vec![5, 6, 7, 8], 2);
    assert_eq!(buf.len(), 6);
    assert_eq!(buf.lens(), 6);
    assert_eq!(buf.frtlen(), 2);
    assert_eq!(buf.to_bytes().to_vec(), vec![1, 2, 3, 4, 5, 6]);
    let c = buf.pull().unwrap();
    assert_eq!(c.to_vec(), vec![1, 2]);
    assert_eq!(buf.len(), 4);
    let chunks: Vec<Vec<u8>> = buf.iter().iter().map(|c| c.to_vec()).collect();
    assert_eq!(chunks, vec![vec![3, 4], vec![5, 6]]);
}

#[test]
fn get_byte_and_gets_across_chunks() {
    let mut buf = ByteBoxBuf::new();
    buf.push(ByteBox::new(vec![10, 11]));
    buf.push(ByteBox::new(vec![12]));
    buf.push(ByteBox::new(vec![13, 14, 15]));
    assert_eq!(buf.get_byte(0), Ok(10));
    assert_eq!(buf.get_byte(2), Ok(12));
    assert_eq!(buf.get_byte(5), Ok(15));
    assert_eq!(buf.get_byte(6), Err(BufError::OutOfBounds));
    let (bytes, next) = buf.gets(1, 4).unwrap();
    assert_eq!(bytes, vec![11, 12, 13, 14]);
    assert_eq!(next, 5);
    assert!(matches!(buf.gets(0, 0), Err(BufError::OutOfBounds)));
    assert!(matches!(buf.gets(3, 4), Err(BufError::OutOfBounds)));
    assert_eq!(buf.len(), 6);
}

#[test]
fn push_all_pull_all_clear_and_one_chunk() {
    let mut a = ByteBoxBuf::new();
    a.push(ByteBox::new(vec![1]));
    let mut b = ByteBoxBuf::new();
    b.push(ByteBox::new(vec![2, 3]));
    b.push(ByteBox::new(vec![4]));
    a.push_all(&b);
    assert_eq!(a.to_bytes().to_vec(), vec![1, 2, 3, 4]);
    assert_eq!(b.len(), 3);
    let moved = a.pull_all();
    assert_eq!(a.len(), 0);
    assert_eq!(moved.to_byte_box().to_vec(), vec![1, 2, 3, 4]);
    let mut one = ByteBoxBuf::new();
    one.push(ByteBox::new(vec![9, 8]));
    assert_eq!(one.to_byte_box().to_vec(), vec![9, 8]);
    one.clear();
    assert_eq!(one.len(), 0);
}
