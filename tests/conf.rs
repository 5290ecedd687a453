use ruisutil::conf::KVConfig;

#[test]
fn kvcfg() {
    let cfgs = KVConfig::from_bytes(
        b"abc=123
        hahah=
        123124124
        ruis= shuai",
    );
    for (k, v) in cfgs.iter() {
        println!("cfg: {} = {}", k, v);
    }

    println!("-----------------parse end");
    println!("tos:\n{}", cfgs.to_string());
    println!("-----------------tos end");
    assert_eq!(cfgs.get("abc").map(|s| s.as_str()), Some("123"));
    assert_eq!(cfgs.get("hahah").map(|s| s.as_str()), Some(""));
    assert_eq!(cfgs.get("ruis").map(|s| s.as_str()), Some("shuai"));
    assert_eq!(cfgs.get("123124124"), None);
    assert_eq!(cfgs.iter().len(), 3);
    assert_eq!(cfgs.to_string(), "abc=123\nhahah=\nruis=shuai\n");
}

#[test]
fn kv_set_get_and_numbers() {
    let mut c = KVConfig::new();
    c.set("port", "8080");
    c.set("neg", "-12");
    c.set("bad", "12x");
    c.set("port", " 9090");
    assert_eq!(c.geti("port"), None);
    c.set("port", "9090");
    assert_eq!(c.geti("port"), Some(9090));
    assert_eq!(c.geti("neg"), Some(-12));
    assert_eq!(c.geti("bad"), None);
    assert_eq!(c.geti("missing"), None);
    assert_eq!(c.to_string(), "port=9090\nneg=-12\nbad=12x\n");
}

#[test]
fn kv_last_equals_sign_splits_and_later_lines_win() {
    let c = KVConfig::from_bytes(b"a=b=c\nx=1\nx=2\n\nnoeq\n=v\n");
    assert_eq!(c.get("a=b").map(|s| s.as_str()), Some("c"));
    assert_eq!(c.get("x").map(|s| s.as_str()), Some("2"));
    assert_eq!(c.get("").map(|s| s.as_str()), Some("v"));
    assert_eq!(c.iter().len(), 3);
    let bad = KVConfig::from_bytes(&[0xff, b'=', b'1']);
    assert_eq!(bad.iter().len(), 0);
}

#[test]
fn kv_trims_unicode_white_space() {
    let c = KVConfig::from_bytes("\u{3000}name\u{a0}=\t\u{2003}value\u{85}\r\n".as_bytes());
    assert_eq!(c.get("name").map(|s| s.as_str()), Some("value"));
}
