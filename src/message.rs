//! The frames of the message protocol: a start mark, a fixed little-endian
//! header, the command, head and body sections, and an end mark.
use vstd::prelude::*;
use vstd::string::StringSliceAdditionalSpecFns;

use crate::conf::{utf8_decode, utf8_string};
use crate::error::BufError;

verus! {

/// `v` in two bytes, low byte first.
pub open spec fn le16(v: u16) -> Seq<u8> {
    seq![v as u8, (v >> 8u16) as u8]
}

/// `v` in four bytes, low byte first.
pub open spec fn le32(v: u32) -> Seq<u8> {
    seq![v as u8, (v >> 8u32) as u8, (v >> 16u32) as u8, (v >> 24u32) as u8]
}

/// The `u16` whose bytes, low first, are `a` and `b`.
pub open spec fn from_le16(a: u8, b: u8) -> u16 {
    (a as u16) | ((b as u16) << 8u16)
}

/// The `u32` whose bytes, low first, are `a`, `b`, `c` and `d`.
pub open spec fn from_le32(a: u8, b: u8, c: u8, d: u8) -> u32 {
    (a as u32) | ((b as u32) << 8u32) | ((c as u32) << 16u32) | ((d as u32) << 24u32)
}

/// The sixteen header bytes of `info`.
pub open spec fn info_bytes(info: MsgInfo) -> Seq<u8> {
    le16(info.version) + le32(info.control as u32) + le16(info.lenCmd) + le32(info.lenHead) + le32(
        info.lenBody,
    )
}

/// The bytes that open a frame.
pub open spec fn frame_start() -> Seq<u8> {
    seq![0x8du8, 0x8fu8]
}

/// The bytes that close a frame.
pub open spec fn frame_end() -> Seq<u8> {
    seq![0x8eu8, 0x8fu8]
}

/// A whole frame with header `info` and the given sections.
pub open spec fn frame_spec(info: MsgInfo, cmd: Seq<u8>, head: Seq<u8>, body: Seq<u8>) -> Seq<u8> {
    frame_start() + info_bytes(info) + cmd + head + body + frame_end()
}

proof fn lemma_le16(v: u16, a: u8, b: u8)
    ensures
        from_le16(v as u8, (v >> 8u16) as u8) == v,
        from_le16(a, b) as u8 == a,
        (from_le16(a, b) >> 8u16) as u8 == b,
{
    assert((((v as u8) as u16) | ((((v >> 8u16) as u8) as u16) << 8u16)) == v) by (bit_vector);
    assert((((a as u16) | ((b as u16) << 8u16)) as u8) == a) by (bit_vector);
    assert(((((a as u16) | ((b as u16) << 8u16)) >> 8u16) as u8) == b) by (bit_vector);
}

proof fn lemma_le32(v: u32, a: u8, b: u8, c: u8, d: u8)
    ensures
        from_le32(v as u8, (v >> 8u32) as u8, (v >> 16u32) as u8, (v >> 24u32) as u8) == v,
        le32(from_le32(a, b, c, d)) == seq![a, b, c, d],
{
    assert((((v as u8) as u32) | ((((v >> 8u32) as u8) as u32) << 8u32) | ((((v >> 16u32) as u8) as u32)
        << 16u32) | ((((v >> 24u32) as u8) as u32) << 24u32)) == v) by (bit_vector);
    let w = from_le32(a, b, c, d);
    assert(w == (a as u32) | ((b as u32) << 8u32) | ((c as u32) << 16u32) | ((d as u32) << 24u32));
    assert((w as u8) == a && ((w >> 8u32) as u8) == b && ((w >> 16u32) as u8) == c && ((w >> 24u32)
        as u8) == d) by (bit_vector)
        requires
            w == (a as u32) | ((b as u32) << 8u32) | ((c as u32) << 16u32) | ((d as u32) << 24u32),
    ;
    assert(le32(w) =~= seq![a, b, c, d]);
}

proof fn lemma_i32_u32(x: i32, y: u32)
    ensures
        (x as u32) as i32 == x,
        (y as i32) as u32 == y,
{
    assert(((x as u32) as i32) == x) by (bit_vector);
    assert(((y as i32) as u32) == y) by (bit_vector);
}

fn push_le16(out: &mut Vec<u8>, v: u16)
    ensures
        final(out)@ == old(out)@ + le16(v),
{
    out.push(v as u8);
    out.push((v >> 8u16) as u8);
    assert(final(out)@ =~= old(out)@ + le16(v));
}

fn push_le32(out: &mut Vec<u8>, v: u32)
    ensures
        final(out)@ == old(out)@ + le32(v),
{
    out.push(v as u8);
    out.push((v >> 8u32) as u8);
    out.push((v >> 16u32) as u8);
    out.push((v >> 24u32) as u8);
    assert(final(out)@ =~= old(out)@ + le32(v));
}

fn push_all(out: &mut Vec<u8>, b: &[u8])
    ensures
        final(out)@ == old(out)@ + b@,
{
    let mut i: usize = 0;
    while i < b.len()
        invariant
            0 <= i <= b@.len(),
            out@ == old(out)@ + b@.subrange(0, i as int),
        decreases b@.len() - i,
    {
        out.push(b[i]);
        assert(b@.subrange(0, i + 1) =~= b@.subrange(0, i as int).push(b@[i as int]));
        i = i + 1;
    }
    assert(b@.subrange(0, b@.len() as int) =~= b@);
}

/// Largest command section accepted by a reader.
#[allow(non_upper_case_globals)]
pub const MaxOther: u64 = 20971520;

/// Largest head section accepted by a reader.
#[allow(non_upper_case_globals)]
pub const MaxHeads: u64 = 104857600;

/// Largest body section accepted by a reader.
#[allow(non_upper_case_globals)]
pub const MaxBodys: u64 = 1073741824;

/// The fixed part of a frame: version, control word and section lengths.
#[allow(non_snake_case)]
#[derive(Clone, Copy, Debug, PartialEq, Eq, Structural)]
pub struct MsgInfo {
    pub version: u16,
    pub control: i32,
    pub lenCmd: u16,
    pub lenHead: u32,
    pub lenBody: u32,
}

impl MsgInfo {
    /// The header of a frame whose sections have the given lengths;
    /// `OutOfBounds` when a length does not fit its field.
    pub fn for_sections(control: i32, cmd_len: usize, head_len: usize, body_len: usize) -> (r: Result<
        MsgInfo,
        BufError,
    >)
        ensures
            (cmd_len <= u16::MAX && head_len <= u32::MAX && body_len <= u32::MAX) ==> r == Ok::<
                MsgInfo,
                BufError,
            >(
                MsgInfo {
                    version: 1,
                    control,
                    lenCmd: cmd_len as u16,
                    lenHead: head_len as u32,
                    lenBody: body_len as u32,
                },
            ),
            !(cmd_len <= u16::MAX && head_len <= u32::MAX && body_len <= u32::MAX) ==> r == Err::<
                MsgInfo,
                BufError,
            >(BufError::OutOfBounds),
    {
        if cmd_len > 0xffff || head_len > 0xffff_ffff || body_len > 0xffff_ffff {
            return Err(BufError::OutOfBounds);
        }
        Ok(
            MsgInfo {
                version: 1,
                control,
                lenCmd: cmd_len as u16,
                lenHead: head_len as u32,
                lenBody: body_len as u32,
            },
        )
    }

    /// The sixteen header bytes.
    pub fn to_bytes(&self) -> (r: Vec<u8>)
        ensures
            r@ == info_bytes(*self),
    {
        let mut out: Vec<u8> = Vec::new();
        push_le16(&mut out, self.version);
        push_le32(&mut out, self.control as u32);
        push_le16(&mut out, self.lenCmd);
        push_le32(&mut out, self.lenHead);
        push_le32(&mut out, self.lenBody);
        assert(out@ =~= info_bytes(*self));
        out
    }

    /// Reads a header from the first sixteen bytes of `b`; `Empty` when
    /// there are fewer.
    pub fn from_bytes(b: &[u8]) -> (r: Result<MsgInfo, BufError>)
        ensures
            b@.len() < 16 ==> r == Err::<MsgInfo, BufError>(BufError::Empty),
            b@.len() >= 16 ==> r is Ok && info_bytes(r->Ok_0) == b@.subrange(0, 16),
    {
        if b.len() < 16 {
            return Err(BufError::Empty);
        }
        let version = (b[0] as u16) | ((b[1] as u16) << 8u16);
        let control = ((b[2] as u32) | ((b[3] as u32) << 8u32) | ((b[4] as u32) << 16u32) | ((
        b[5] as u32) << 24u32)) as i32;
        let len_cmd = (b[6] as u16) | ((b[7] as u16) << 8u16);
        let len_head = (b[8] as u32) | ((b[9] as u32) << 8u32) | ((b[10] as u32) << 16u32) | ((
        b[11] as u32) << 24u32);
        let len_body = (b[12] as u32) | ((b[13] as u32) << 8u32) | ((b[14] as u32) << 16u32) | ((
        b[15] as u32) << 24u32);
        let info = MsgInfo {
            version,
            control,
            lenCmd: len_cmd,
            lenHead: len_head,
            lenBody: len_body,
        };
        proof {
            let s = b@;
            lemma_le16(0, s[0], s[1]);
            lemma_le16(0, s[6], s[7]);
            lemma_le32(0, s[2], s[3], s[4], s[5]);
            lemma_le32(0, s[8], s[9], s[10], s[11]);
            lemma_le32(0, s[12], s[13], s[14], s[15]);
            lemma_i32_u32(0, from_le32(s[2], s[3], s[4], s[5]));
            assert(le16(version) =~= seq![s[0], s[1]]);
            assert(le16(len_cmd) =~= seq![s[6], s[7]]);
            assert(info_bytes(info) =~= s.subrange(0, 16));
        }
        Ok(info)
    }

    /// `OutOfBounds` when the head or the body is longer than a reader accepts.
    pub fn check(&self) -> (r: Result<(), BufError>)
        ensures
            (self.lenHead <= MaxHeads && self.lenBody <= MaxBodys) <==> r is Ok,
            r is Err ==> r == Err::<(), BufError>(BufError::OutOfBounds),
    {
        if self.lenHead as u64 > MaxHeads || self.lenBody as u64 > MaxBodys {
            Err(BufError::OutOfBounds)
        } else {
            Ok(())
        }
    }

    /// All fields zero.
    pub fn new() -> (r: Self)
        ensures
            r.version == 0 && r.control == 0 && r.lenCmd == 0 && r.lenHead == 0 && r.lenBody == 0,
    {
        MsgInfo { version: 0, control: 0, lenCmd: 0, lenHead: 0, lenBody: 0 }
    }
}

/// One decoded frame.
pub struct Message {
    pub version: u16,
    pub control: i32,
    pub cmds: String,
    pub heads: Option<Vec<u8>>,
    pub bodys: Option<Vec<u8>>,
}

/// Encoding a header and reading it back gives the same header.
pub proof fn lemma_info_round_trip(info: MsgInfo)
    ensures
        info_bytes(info).len() == 16,
        ({
            let s = info_bytes(info);
            &&& from_le16(s[0], s[1]) == info.version
            &&& from_le32(s[2], s[3], s[4], s[5]) as i32 == info.control
            &&& from_le16(s[6], s[7]) == info.lenCmd
            &&& from_le32(s[8], s[9], s[10], s[11]) == info.lenHead
            &&& from_le32(s[12], s[13], s[14], s[15]) == info.lenBody
        }),
{
    lemma_le16(info.version, 0, 0);
    lemma_le16(info.lenCmd, 0, 0);
    lemma_le32(info.control as u32, 0, 0, 0, 0);
    lemma_le32(info.lenHead, 0, 0, 0, 0);
    lemma_le32(info.lenBody, 0, 0, 0, 0);
    lemma_i32_u32(info.control, 0);
}

/// Whether `b` is the mark that opens a frame.
pub fn is_frame_start(b: &[u8]) -> (r: bool)
    ensures
        r == (b@ == frame_start()),
{
    let r = b.len() == 2 && b[0] == 0x8d && b[1] == 0x8f;
    proof {
        if b@.len() == 2 {
            assert(r ==> b@ =~= frame_start());
        }
    }
    r
}

/// Whether `b` is the mark that closes a frame.
pub fn is_frame_end(b: &[u8]) -> (r: bool)
    ensures
        r == (b@ == frame_end()),
{
    let r = b.len() == 2 && b[0] == 0x8e && b[1] == 0x8f;
    proof {
        if b@.len() == 2 {
            assert(r ==> b@ =~= frame_end());
        }
    }
    r
}

/// The whole frame for a message with control word `ctrl` and the given
/// sections (version 1); `OutOfBounds` when a section is too long for its
/// length field.
pub fn encode_msg(ctrl: i32, cmds: &str, heads: &[u8], bodys: &[u8]) -> (r: Result<Vec<u8>, BufError>)
    ensures
        (cmds.spec_bytes().len() <= u16::MAX && heads@.len() <= u32::MAX && bodys@.len()
            <= u32::MAX) ==> r is Ok && r->Ok_0@ == frame_spec(
            MsgInfo {
                version: 1,
                control: ctrl,
                lenCmd: cmds.spec_bytes().len() as u16,
                lenHead: heads@.len() as u32,
                lenBody: bodys@.len() as u32,
            },
            cmds.spec_bytes(),
            heads@,
            bodys@,
        ),
        !(cmds.spec_bytes().len() <= u16::MAX && heads@.len() <= u32::MAX && bodys@.len()
            <= u32::MAX) ==> r == Err::<Vec<u8>, BufError>(BufError::OutOfBounds),
{
    let cmd = cmds.as_bytes();
    let info = MsgInfo::for_sections(ctrl, cmd.len(), heads.len(), bodys.len())?;
    let mut out: Vec<u8> = Vec::new();
    out.push(0x8d);
    out.push(0x8f);
    assert(out@ =~= frame_start());
    let hd = info.to_bytes();
    push_all(&mut out, hd.as_slice());
    push_all(&mut out, cmd);
    push_all(&mut out, heads);
    push_all(&mut out, bodys);
    let ghost before = out@;
    out.push(0x8e);
    out.push(0x8f);
    assert(out@ =~= before + frame_end());
    Ok(out)
}

/// The command section as text; `OutOfBounds` when it is not valid UTF-8.
pub fn decode_cmd(b: &[u8]) -> (r: Result<String, BufError>)
    ensures
        r matches Ok(s) ==> utf8_decode(b@) == Some(s@),
        r is Err ==> utf8_decode(b@) is None && r == Err::<String, BufError>(BufError::OutOfBounds),
{
    match utf8_string(b) {
        Some(s) => Ok(s),
        None => Err(BufError::OutOfBounds),
    }
}

impl Message {
    /// An empty message: zero version and control, no command, head or body.
    pub fn new() -> (r: Self)
        ensures
            r.version == 0 && r.control == 0 && r.cmds@ == Seq::<char>::empty() && r.heads is None
                && r.bodys is None,
    {
        Message { version: 0, control: 0, cmds: String::new(), heads: None, bodys: None }
    }

    /// Takes the body out, leaving `None` behind.
    pub fn own_bodys(&mut self) -> (r: Option<Vec<u8>>)
        ensures
            r == old(self).bodys,
            final(self).bodys is None,
            final(self).version == old(self).version,
            final(self).control == old(self).control,
            final(self).cmds == old(self).cmds,
            final(self).heads == old(self).heads,
    {
        let mut r = None;
        core::mem::swap(&mut r, &mut self.bodys);
        r
    }
}

} // verus!
