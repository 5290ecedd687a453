use vstd::prelude::*;
use vstd::string::{StrSliceExecFns, StringExecFns, StringSliceAdditionalSpecFns};

verus! {

/// The unsigned value of `s` read as a big-endian number.
pub open spec fn be_value(s: Seq<u8>) -> nat
    decreases s.len(),
{
    if s.len() == 0 {
        0
    } else {
        (be_value(s.drop_last()) * 256 + s.last()) as nat
    }
}

/// `256` to the power `k`.
pub open spec fn pow256(k: nat) -> nat
    decreases k,
{
    if k == 0 {
        1
    } else {
        256 * pow256((k - 1) as nat)
    }
}

/// The `n` low bytes of `u`, most significant first.
pub open spec fn be_bytes(u: nat, n: nat) -> Seq<u8> {
    Seq::new(n, |i: int| ((u / pow256((n - 1 - i) as nat)) % 256) as u8)
}

/// Reads up to eight bytes as a big-endian number; eight bytes fill the
/// whole `i64`, sign bit included.
pub fn byte_2i(bts: &[u8]) -> (r: i64)
    requires
        bts@.len() <= 8,
    ensures
        r == be_value(bts@) as i64,
{
    let mut acc: u64 = 0;
    let mut i: usize = 0;
    let ghost mut bound: nat = 1;
    proof {
        lemma_pow256_mono(0, 8);
        reveal_with_fuel(pow256, 1);
    }
    while i < bts.len()
        invariant
            0 <= i <= bts@.len() <= 8,
            acc == be_value(bts@.subrange(0, i as int)),
            bound == pow256(i as nat),
            acc < bound,
            bound <= pow256(8),
        decreases bts@.len() - i,
    {
        assert(bts@.subrange(0, i + 1).drop_last() =~= bts@.subrange(0, i as int));
        proof {
            reveal_with_fuel(pow256, 9);
            assert(pow256(8) == 0x1_0000_0000_0000_0000);
            if i < 8 {
                assert(pow256((i + 1) as nat) <= pow256(8)) by {
                    lemma_pow256_mono((i + 1) as nat, 8);
                }
            }
        }
        let b = bts[i];
        assert(acc * 256 + b < bound * 256) by (nonlinear_arith)
            requires
                acc < bound,
                b < 256,
        ;
        acc = acc * 256 + b as u64;
        proof {
            bound = bound * 256;
        }
        i = i + 1;
    }
    assert(bts@.subrange(0, i as int) =~= bts@);
    acc as i64
}

proof fn lemma_pow256_mono(a: nat, b: nat)
    requires
        a <= b,
    ensures
        pow256(a) <= pow256(b),
    decreases b,
{
    if a < b {
        lemma_pow256_mono(a, (b - 1) as nat);
    }
}

/// The `n` low bytes of `v`'s two's-complement form, most significant first.
pub fn i2_byte(v: i64, n: usize) -> (r: Vec<u8>)
    requires
        n <= 8,
    ensures
        r@ == be_bytes(v as u64 as nat, n as nat),
{
    let u = v as u64;
    let mut out: Vec<u8> = Vec::new();
    let mut i: usize = 0;
    while i < n
        invariant
            0 <= i <= n <= 8,
            out@ == be_bytes(u as nat, n as nat).subrange(0, i as int),
        decreases n - i,
    {
        let k = n - 1 - i;
        let mut d: u64 = 1;
        let mut j: usize = 0;
        proof {
            lemma_pow256_mono(0, 7);
            reveal_with_fuel(pow256, 1);
        }
        while j < k
            invariant
                0 <= j <= k < 8,
                d == pow256(j as nat),
                pow256(j as nat) <= pow256(7),
            decreases k - j,
        {
            proof {
                reveal_with_fuel(pow256, 8);
                assert(pow256(7) == 0x1_0000_0000_0000_00);
                lemma_pow256_mono((j + 1) as nat, 7);
            }
            d = d * 256;
            j = j + 1;
        }
        proof {
            reveal_with_fuel(pow256, 8);
            assert(pow256(7) == 0x1_0000_0000_0000_00);
        }
        let byte = ((u / d) % 256) as u8;
        out.push(byte);
        assert(out@ =~= be_bytes(u as nat, n as nat).subrange(0, i + 1));
        i = i + 1;
    }
    assert(out@ =~= be_bytes(u as nat, n as nat));
    out
}

/// The sixteen hexadecimal digits, lower case.
pub open spec fn hex_digits() -> Seq<char> {
    seq!['0', '1', '2', '3', '4', '5', '6', '7', '8', '9', 'a', 'b', 'c', 'd', 'e', 'f']
}

/// `b` as two lower-case hexadecimal digits.
pub open spec fn hex2(b: u8) -> Seq<char> {
    seq![hex_digits()[(b / 16) as int], hex_digits()[(b % 16) as int]]
}

/// Each byte of `data` as two hexadecimal digits, with `sep` between bytes.
pub open spec fn hex_join(data: Seq<u8>, sep: Seq<char>) -> Seq<char>
    decreases data.len(),
{
    if data.len() == 0 {
        Seq::empty()
    } else if data.len() == 1 {
        hex2(data[0])
    } else {
        hex_join(data.drop_last(), sep) + sep + hex2(data.last())
    }
}

fn hex_digit(n: u8) -> (r: &'static str)
    requires
        n < 16,
    ensures
        r@ == seq![hex_digits()[n as int]],
{
    let digits = "0123456789abcdef";
    proof {
        reveal_strlit("0123456789abcdef");
        assert(digits@ =~= hex_digits());
    }
    let r = digits.substring_char(n as usize, n as usize + 1);
    assert(r@ =~= seq![hex_digits()[n as int]]);
    r
}

fn push_hex(s: &mut String, b: u8)
    ensures
        final(s)@ == old(s)@ + hex2(b),
{
    s.append(hex_digit(b / 16));
    s.append(hex_digit(b % 16));
    assert(final(s)@ =~= old(s)@ + hex2(b));
}

/// The bytes of `data` in hexadecimal, two lower-case digits each, joined by `splts`.
pub fn sprint_hex(data: &[u8], splts: &str) -> (r: String)
    ensures
        r@ == hex_join(data@, splts@),
{
    sprints_hex(data, 0, splts)
}

/// Like `sprint_hex`, on the first `ln` bytes only; a zero or too large `ln`
/// means all of them.
pub fn sprints_hex(data: &[u8], ln: usize, splts: &str) -> (r: String)
    ensures
        (ln == 0 || ln > data@.len()) ==> r@ == hex_join(data@, splts@),
        (0 < ln <= data@.len()) ==> r@ == hex_join(data@.subrange(0, ln as int), splts@),
{
    let mut rts = String::new();
    if data.len() == 0 {
        assert(rts@ =~= hex_join(data@, splts@));
        return rts;
    }
    let n = if ln == 0 || ln > data.len() {
        data.len()
    } else {
        ln
    };
    push_hex(&mut rts, data[0]);
    assert(rts@ =~= hex_join(data@.subrange(0, 1), splts@)) by {
        assert(data@.subrange(0, 1)[0] == data@[0]);
    }
    let mut i: usize = 1;
    while i < n
        invariant
            1 <= i <= n <= data@.len(),
            rts@ == hex_join(data@.subrange(0, i as int), splts@),
        decreases n - i,
    {
        rts.append(splts);
        push_hex(&mut rts, data[i]);
        let ghost pre = data@.subrange(0, i + 1);
        assert(pre.drop_last() =~= data@.subrange(0, i as int));
        assert(pre.last() == data@[i as int]);
        i = i + 1;
    }
    assert(data@.subrange(0, data@.len() as int) =~= data@);
    rts
}

/// The MD5 digest of `b`.
pub uninterp spec fn md5_of(b: Seq<u8>) -> Seq<u8>;

/// Relies on `md5::compute`: the 16-byte digest of the input.
#[verifier::external_body]
fn md5_digest(data: &[u8]) -> (r: Vec<u8>)
    ensures
        r@ == md5_of(data@),
        r@.len() == 16,
{
    md5::compute(data).0.to_vec()
}

/// Without a separator every byte takes exactly two digits.
pub proof fn lemma_hex_join_len(data: Seq<u8>)
    ensures
        hex_join(data, Seq::empty()).len() == 2 * data.len(),
    decreases data.len(),
{
    if data.len() > 1 {
        lemma_hex_join_len(data.drop_last());
    }
}

/// The MD5 digest of the bytes of `input`, in lower-case hexadecimal.
pub fn md5strs(input: &[u8]) -> (r: String)
    ensures
        r@ == hex_join(md5_of(input@), Seq::empty()),
        r@.len() == 32,
{
    let d = md5_digest(input);
    proof {
        lemma_hex_join_len(d@);
    }
    let sep = "";
    proof {
        reveal_strlit("");
        assert(sep@ =~= Seq::<char>::empty());
    }
    sprint_hex(d.as_slice(), sep)
}

/// The MD5 digest of the UTF-8 bytes of `input`, in lower-case hexadecimal.
pub fn md5str(input: &str) -> (r: String)
    ensures
        r@ == hex_join(md5_of(input.spec_bytes()), Seq::empty()),
        r@.len() == 32,
{
    md5strs(input.as_bytes())
}

/// Whether `c` occurs in `s` at some index other than `skip`.
pub open spec fn occurs_except(s: Seq<char>, c: char, skip: int) -> bool {
    exists|i: int| 0 <= i < s.len() && i != skip && s[i] == c
}

/// A listen address with the host filled in: without any `:` the port `0`
/// is added; when the only `:` leads, the host `0.0.0.0` is put in front;
/// anything else stays as it is.
pub fn parse_noip_addr(s: &str) -> (r: String)
    ensures
        !occurs_except(s@, ':', -1) ==> r@ == s@ + seq![':', '0'],
        (s@.len() > 0 && s@[0] == ':' && !occurs_except(s@, ':', 0)) ==> r@ == seq![
            '0',
            '.',
            '0',
            '.',
            '0',
            '.',
            '0',
        ] + s@,
        occurs_except(s@, ':', 0) ==> r@ == s@,
{
    let n = s.unicode_len();
    let mut last: Option<usize> = None;
    let mut i: usize = 0;
    while i < n
        invariant
            0 <= i <= n == s@.len(),
            last is None ==> forall|k: int| 0 <= k < i ==> s@[k] != ':',
            last matches Some(j) ==> j < i && s@[j as int] == ':' && forall|k: int|
                j < k < i ==> s@[k] != ':',
        decreases n - i,
    {
        if s.get_char(i) == ':' {
            last = Some(i);
        }
        i = i + 1;
    }
    match last {
        None => {
            let tail = ":0";
            proof {
                reveal_strlit(":0");
            }
            let r = String::from_str(s).concat(tail);
            assert(r@ =~= s@ + seq![':', '0']);
            r
        },
        Some(j) => {
            if j == 0 {
                let head = "0.0.0.0";
                proof {
                    reveal_strlit("0.0.0.0");
                }
                let r = String::from_str(head).concat(s);
                assert(r@ =~= seq!['0', '.', '0', '.', '0', '.', '0'] + s@);
                r
            } else {
                String::from_str(s)
            }
        },
    }
}

} // verus!
