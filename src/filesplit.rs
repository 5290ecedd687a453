//! The decisions of the size-rotated log file: configuration defaults, when
//! to rotate, and which files move where.
use vstd::prelude::*;

verus! {

/// Where the rotated file lives and how it rotates.
pub struct Config {
    /// How many pending records are kept before the oldest are dropped.
    pub maxbuf: usize,
    /// The path of the live file; older files get `.1`, `.2`, ... appended.
    pub flpath: String,
    /// The size limit of one file, in KiB.
    pub flsize: u32,
    /// How many files are kept, the live one included.
    pub flcount: u32,
}

impl Default for Config {
    fn default() -> (r: Self)
        ensures
            r.maxbuf == 0 && r.flpath@ == Seq::<char>::empty() && r.flsize == 0 && r.flcount == 0,
    {
        Config { maxbuf: 0, flpath: String::new(), flsize: 0, flcount: 0 }
    }
}

impl Config {
    /// The configuration with defaults for the fields left at zero: 20
    /// pending records, 1024 KiB per file, one file.
    pub fn normalized(self) -> (r: Self)
        ensures
            r.maxbuf == (if self.maxbuf == 0 {
                20
            } else {
                self.maxbuf
            }),
            r.flsize == (if self.flsize == 0 {
                1024
            } else {
                self.flsize
            }),
            r.flcount == (if self.flcount == 0 {
                1
            } else {
                self.flcount
            }),
            r.flpath == self.flpath,
    {
        let mut c = self;
        if c.maxbuf == 0 {
            c.maxbuf = 20;
        }
        if c.flsize == 0 {
            c.flsize = 1024;
        }
        if c.flcount == 0 {
            c.flcount = 1;
        }
        c
    }
}

/// Whether a file holding `written` bytes has outgrown `flsize` KiB.
pub fn needs_rotate(written: usize, flsize: u32) -> (r: bool)
    ensures
        r == (written > flsize * 1024),
{
    written as u64 > flsize as u64 * 1024
}

/// One file operation of a rotation; file 0 is the live file, file `i` the
/// one with suffix `.i`.
#[derive(Clone, Copy, Debug, PartialEq, Eq, Structural)]
pub enum RotateStep {
    Remove(u32),
    Rename(u32, u32),
}

/// The renames that shift files `count-2, ..., 0` up by one, oldest first.
pub open spec fn shifts(count: nat) -> Seq<RotateStep> {
    Seq::new(
        (count - 1) as nat,
        |j: int| RotateStep::Rename((count - 2 - j) as u32, (count - 1 - j) as u32),
    )
}

/// The steps of one rotation among `flcount` files: with at most one file
/// the live file is removed; otherwise the oldest is removed and every other
/// one moves up by one, the live file becoming `.1`.
pub fn rotation_plan(flcount: u32) -> (r: Vec<RotateStep>)
    ensures
        flcount <= 1 ==> r@ == seq![RotateStep::Remove(0)],
        flcount > 1 ==> r@ == seq![RotateStep::Remove((flcount - 1) as u32)] + shifts(flcount as nat),
{
    let mut out: Vec<RotateStep> = Vec::new();
    if flcount <= 1 {
        out.push(RotateStep::Remove(0));
        assert(out@ =~= seq![RotateStep::Remove(0)]);
        return out;
    }
    out.push(RotateStep::Remove(flcount - 1));
    let mut i: u32 = flcount - 1;
    while i > 0
        invariant
            0 <= i <= flcount - 1,
            flcount > 1,
            out@ == seq![RotateStep::Remove((flcount - 1) as u32)] + shifts(flcount as nat).subrange(
                0,
                (flcount - 1 - i) as int,
            ),
        decreases i,
    {
        out.push(RotateStep::Rename(i - 1, i));
        proof {
            let s = shifts(flcount as nat);
            let k = (flcount - 1 - i) as int;
            assert(s[k] == RotateStep::Rename((i - 1) as u32, i));
            assert(s.subrange(0, k + 1) =~= s.subrange(0, k).push(s[k]));
        }
        i = i - 1;
    }
    assert(shifts(flcount as nat).subrange(0, (flcount - 1) as int) =~= shifts(flcount as nat));
    out
}

} // verus!
