use ruisutil::bytes::CircleBuf;
use ruisutil::error::BufError;
use ruisutil::Context;

#[test]
fn bts() {
    let bs = b"hellomgr";
    println!("test:{}", String::from_utf8_lossy(&bs[1..3]));
    let ctx = Context::background(None);
    let mut buf = CircleBuf::new(&ctx, 1024);

    let ln = match buf.borrow_write_buf(b"mgr") {
        Err(e) => {
            println!("borrow_write_buf err:{:?}", e);
            0
        }
        Ok(n) => n,
    };
    assert_eq!(ln, 3);
    assert!(buf.borrow_write_ok(ln).is_ok());

    match buf.borrow_read_buf(10) {
        Err(e) => panic!("borrow_read_buf err:{:?}", e),
        Ok(v) => {
            println!("borrow_read_buf bts:{}", String::from_utf8_lossy(v));
            assert_eq!(v, b"mgr");
        }
    }
    assert_eq!(buf.get_byte(0), Ok(b'm'));
    assert!(buf.borrow_read_ok(3).is_ok());
    match buf.get_byte(0) {
        Ok(v) => panic!("bs:{}", v),
        Err(e) => println!("err:{:?}", e),
    }
}

#[test]
fn written_bytes_come_back_in_order() {
    let ctx = Context::background(None);
    let mut buf = CircleBuf::new(&ctx, 8);
    for round in 0..5u8 {
        let w: Vec<u8> = (0..6u8).map(|i| i + round * 10).collect();
        for b in &w {
            buf.put_byte(*b).unwrap();
        }
        let mut out = Vec::new();
        for _ in 0..w.len() {
            out.push(buf.pop_byte().unwrap());
        }
        assert_eq!(out, w);
        assert_eq!(buf.len(), 0);
    }
}

#[test]
fn full_and_empty_errors() {
    let ctx = Context::background(None);
    let mut buf = CircleBuf::new(&ctx, 4);
    assert_eq!(buf.pop_byte(), Err(BufError::Empty));
    assert_eq!(buf.avail(), 3);
    buf.put_byte(1).unwrap();
    buf.put_byte(2).unwrap();
    buf.put_byte(3).unwrap();
    assert_eq!(buf.put_byte(4), Err(BufError::Full));
    assert_eq!(buf.len(), 3);
    assert_eq!(buf.avail(), 0);
    assert_eq!(buf.borrow_write_buf(b"x"), Err(BufError::Full));
    assert_eq!(buf.pop_byte(), Ok(1));
    buf.clear();
    assert_eq!(buf.len(), 0);
    assert!(matches!(buf.borrow_read_buf(1), Err(BufError::Empty)));
}

#[test]
fn windows_stop_at_the_wrap_point() {
    let ctx = Context::background(None);
    let mut buf = CircleBuf::new(&ctx, 8);
    assert_eq!(buf.write(&[1, 2, 3, 4, 5, 6]), Ok(6));
    let mut out = [0u8; 4];
    assert_eq!(buf.read(&mut out), Ok(4));
    assert_eq!(out, [1, 2, 3, 4]);
    // the end cursor sits at 6: only two slots remain before the wrap point
    assert_eq!(buf.write(&[7, 8, 9, 10]), Ok(2));
    assert_eq!(buf.write(&[9, 10, 11]), Ok(3));
    assert_eq!(buf.len(), 7);
    assert_eq!(buf.write(&[12]), Err(BufError::Full));
    let mut all = Vec::new();
    let mut tmp = [0u8; 16];
    while let Ok(n) = buf.read(&mut tmp) {
        all.extend_from_slice(&tmp[..n]);
    }
    assert_eq!(all, vec![5, 6, 7, 8, 9, 10, 11]);
    assert_eq!(buf.borrow_read_ok(1), Err(BufError::OutOfBounds));
    assert_eq!(buf.borrow_write_ok(8), Err(BufError::OutOfBounds));
}

#[test]
fn closed_buffer_refuses_work() {
    let ctx = Context::background(None);
    let mut buf = CircleBuf::new(&ctx, 8);
    buf.put_byte(1).unwrap();
    assert!(!buf.closed());
    ctx.stop();
    assert!(buf.closed());
    assert_eq!(buf.put_byte(2), Err(BufError::Closed));
    assert_eq!(buf.pop_byte(), Err(BufError::Closed));
    assert_eq!(buf.len(), 1);
    let parent = Context::background(None);
    let mut other = CircleBuf::new(&parent, 4);
    other.put_byte(7).unwrap();
    other.close();
    assert!(other.closed());
    assert!(!parent.done());
    assert_eq!(other.put_byte(8), Err(BufError::Closed));
    assert_eq!(other.pop_byte(), Err(BufError::Closed));
    assert!(matches!(other.borrow_read_buf(1), Err(BufError::Closed)));
    assert_eq!(other.borrow_write_buf(b"x"), Err(BufError::Closed));
    assert_eq!(other.borrow_read_ok(1), Err(BufError::Closed));
    assert_eq!(other.borrow_write_ok(1), Err(BufError::Closed));
    assert_eq!(other.len(), 1);
    assert_eq!(other.get_byte(0), Ok(7));
}
