use ruisutil::error::BufError;
use ruisutil::filesplit::{needs_rotate, rotation_plan, Config, RotateStep};
use ruisutil::message::{decode_cmd, encode_msg, is_frame_end, is_frame_start, Message, MsgInfo};
use ruisutil::{
    byte_2i, i2_byte, md5str, md5strs, parse_noip_addr, random, randoms, randtms_ang,
    range_from, sprint_hex, sprints_hex, times, VecDequeMax,
};

#[test]
fn rands() {
    println!("randtms:{}", ruisutil::randtms());
    println!("randoms:{}", randoms());
    println!("randtms_ang:{}", randtms_ang(10, 60));
    println!("random:{}", random(32));
    let r = randtms_ang(10, 60);
    assert!(r == 0 || (10..=60).contains(&r));
    assert_eq!(random(32).chars().count(), 32);
}

#[test]
fn randtms() {
    let (tms, _) = times();
    let tmsi = tms.as_nanos();
    let tmsix = (tmsi & 0xffffffff) as u32;
    println!("tmsi:{}, tmsix:{}", tmsi, tmsix);
    assert_eq!(times().1, 1);
}

#[test]
fn range_from_values() {
    assert_eq!(range_from(5, 10, 60), 11);
    assert_eq!(range_from(30, 10, 60), 30);
    assert_eq!(range_from(70, 10, 60), 10);
    assert_eq!(range_from(120, 10, 60), 0);
    assert_eq!(range_from(6, 10, 12), 10);
    assert_eq!(range_from(5, 20, 10), 0);
    assert_eq!(range_from(5, 0, 0), 0);
}

#[test]
fn big_endian_round_trip() {
    assert_eq!(byte_2i(&[0x01, 0x02]), 0x0102);
    assert_eq!(byte_2i(&[]), 0);
    assert_eq!(byte_2i(&[0xff; 8]), -1);
    assert_eq!(i2_byte(0x0102, 2), vec![0x01, 0x02]);
    assert_eq!(i2_byte(0x0102_0304, 3), vec![0x02, 0x03, 0x04]);
    assert_eq!(i2_byte(-2, 2), vec![0xff, 0xfe]);
    assert_eq!(byte_2i(&i2_byte(123456789, 8)), 123456789);
}

#[test]
fn hex_strings() {
    assert_eq!(sprint_hex(&[0xaa, 0xb3, 0x0a, 0x0c, 0x00], " "), "aa b3 0a 0c 00");
    assert_eq!(sprint_hex(&[], ","), "");
    assert_eq!(sprints_hex(&[1, 2, 3], 2, "-"), "01-02");
    assert_eq!(sprints_hex(&[1, 2, 3], 0, "-"), "01-02-03");
    assert_eq!(sprints_hex(&[1, 2, 3], 9, ""), "010203");
}

#[test]
fn md5_digests() {
    assert_eq!(md5str(""), "d41d8cd98f00b204e9800998ecf8427e");
    assert_eq!(md5str("abc"), "900150983cd24fb0d6963f7d28e17f72");
    assert_eq!(md5strs(b"abc"), "900150983cd24fb0d6963f7d28e17f72");
}

#[test]
fn listen_addresses() {
    assert_eq!(parse_noip_addr(":8080"), "0.0.0.0:8080");
    assert_eq!(parse_noip_addr("127.0.0.1:80"), "127.0.0.1:80");
    assert_eq!(parse_noip_addr("localhost"), "localhost:0");
    assert_eq!(parse_noip_addr("[::1]:80"), "[::1]:80");
}

#[test]
fn bounded_deque() {
    let mut d = VecDequeMax::new(2);
    d.push(1);
    d.push(2);
    d.push(3);
    assert_eq!(d.len(), 2);
    assert_eq!(d.front(), Some(&2));
    d.pushf(0);
    assert_eq!(d.len(), 3);
    assert_eq!(d.pop(), Some(0));
    assert_eq!(d.pop(), Some(2));
    assert_eq!(d.pop(), Some(3));
    assert_eq!(d.pop(), None);
    let mut z: VecDequeMax<u8> = VecDequeMax::new(0);
    for i in 0..30 {
        z.push(i);
    }
    assert_eq!(z.len(), 20);
    assert_eq!(z.front(), Some(&10));
}

#[test]
fn message_records() {
    let info = MsgInfo::new();
    assert_eq!(info.lenBody, 0);
    let mut m = Message::new();
    assert!(m.own_bodys().is_none());
    m.bodys = Some(vec![1, 2]);
    assert_eq!(m.own_bodys(), Some(vec![1, 2]));
    assert!(m.bodys.is_none());
}

#[test]
fn frame_encoding() {
    let f = encode_msg(-2, "hi", &[9], &[]).unwrap();
    assert_eq!(
        f,
        vec![
            0x8d, 0x8f, 1, 0, 0xfe, 0xff, 0xff, 0xff, 2, 0, 1, 0, 0, 0, 0, 0, 0, 0, b'h', b'i', 9,
            0x8e, 0x8f
        ]
    );
    assert!(is_frame_start(&f[..2]));
    assert!(is_frame_end(&f[f.len() - 2..]));
    assert!(!is_frame_start(&f[1..3]));
    let info = MsgInfo::from_bytes(&f[2..18]).unwrap();
    assert_eq!(info.version, 1);
    assert_eq!(info.control, -2);
    assert_eq!(info.lenCmd, 2);
    assert_eq!(info.lenHead, 1);
    assert_eq!(info.lenBody, 0);
    assert_eq!(info.to_bytes(), f[2..18].to_vec());
    assert!(info.check().is_ok());
    assert_eq!(MsgInfo::from_bytes(&f[2..10]), Err(BufError::Empty));
    let mut big = info;
    big.lenBody = u32::MAX;
    assert_eq!(big.check(), Err(BufError::OutOfBounds));
    assert_eq!(decode_cmd(b"hi").unwrap(), "hi");
    assert_eq!(decode_cmd(&[0xff]), Err(BufError::OutOfBounds));
}

#[test]
fn rotation_decisions() {
    let c = Config {
        flpath: "x.log".to_string(),
        ..Default::default()
    }
    .normalized();
    assert_eq!((c.maxbuf, c.flsize, c.flcount), (20, 1024, 1));
    assert!(!needs_rotate(1024, 1));
    assert!(needs_rotate(1025, 1));
    assert_eq!(rotation_plan(1), vec![RotateStep::Remove(0)]);
    assert_eq!(
        rotation_plan(3),
        vec![RotateStep::Remove(2), RotateStep::Rename(1, 2), RotateStep::Rename(0, 1)]
    );
}

#[test]
fn md5s() {
    let md5s = "48c4a8a547cadf2e245e867bcb4c27a6";
    let tms = format!(
        "{}",
        chrono::DateTime::<chrono::Local>::from(std::time::SystemTime::now()).format("%+")
    );
    let rands = randoms();
    let srcs = format!("{}{}{}{}", &md5s, &tms, &rands, "asdfasdf");
    println!("srcs:{}", &srcs);
    let signs = md5str(&srcs);
    println!("md5s:{}", &signs);
    assert_eq!(signs.len(), 32);
    assert!(signs.chars().all(|c| c.is_ascii_hexdigit() && !c.is_ascii_uppercase()));
}

#[test]
fn hex() {
    let s = sprint_hex(&[0xaa, 0xb3, 0x0a, 0x0c, 0x00], " ");
    println!("{}", s);
    assert_eq!(s, "aa b3 0a 0c 00");
}
