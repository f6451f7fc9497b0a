//! Flat export of encoded channel streams, in canonical depth-first
//! channel order: a text dump with one `index;value` line per frame of
//! each channel, and a raw binary dump with either one byte or two
//! little-endian bytes per residual.

use vstd::prelude::*;

verus! {

use vstd::arithmetic::div_mod::lemma_mod_mod;
use vstd::arithmetic::div_mod::lemma_mod_bound;
use crate::fixed::wrap16;
use crate::fixed::wrap16_spec;
use crate::encoder::signed_view;
use crate::skeleton::Channel;
use crate::skeleton::Joint;
use crate::skeleton::JointChildren;

/// The ASCII decimal digits of `n`, most significant first.
pub open spec fn spec_decimal(n: nat) -> Seq<u8>
    decreases n,
{
    if n < 10 {
        seq![(0x30 + n) as u8]
    } else {
        spec_decimal(n / 10).push((0x30 + n % 10) as u8)
    }
}

/// The ASCII decimal form of a signed value: a leading minus sign for
/// negative values, then the digits of the magnitude.
pub open spec fn spec_signed_decimal(v: int) -> Seq<u8> {
    if v < 0 {
        seq![0x2du8] + spec_decimal((-v) as nat)
    } else {
        spec_decimal(v as nat)
    }
}

/// One text line of the dump: `index;value` and a newline.
pub open spec fn spec_csv_line(index: nat, value: int) -> Seq<u8> {
    spec_decimal(index) + seq![0x3bu8] + spec_signed_decimal(value) + seq![0x0au8]
}

/// The first `upto` lines of one channel's dump: line `i` holds frame
/// index `i` and the channel's residual at frame `i`.
pub open spec fn spec_csv_channel(res: Seq<int>, upto: int) -> Seq<u8>
    decreases upto,
{
    if upto <= 0 {
        Seq::empty()
    } else {
        spec_csv_channel(res, upto - 1) + spec_csv_line((upto - 1) as nat, res[upto - 1])
    }
}

/// The whole text dump of one channel.
pub open spec fn spec_csv_channel_full(ch: Channel) -> Seq<u8> {
    spec_csv_channel(signed_view(ch.residuals@), ch.residuals@.len() as int)
}

/// The text dump of a channel list, in declared order.
pub open spec fn spec_csv_channels(chs: Seq<Channel>, upto: int) -> Seq<u8>
    decreases upto,
{
    if upto <= 0 {
        Seq::empty()
    } else {
        spec_csv_channels(chs, upto - 1) + spec_csv_channel_full(chs[upto - 1])
    }
}

/// The text dump of the subtree at `j`, channels in canonical
/// depth-first order.
pub open spec fn spec_csv_joint(j: Joint) -> Seq<u8>
    decreases j,
{
    spec_csv_channels(j.channels@, j.channels@.len() as int) + match j.children {
        JointChildren::Joints(v) => spec_csv_joints(v@, v@.len() as int),
        JointChildren::EndSite(_) => Seq::empty(),
    }
}

/// The text dump of a sequence of sibling subtrees, in declared order.
pub open spec fn spec_csv_joints(js: Seq<Joint>, upto: int) -> Seq<u8>
    decreases js, upto,
{
    if upto <= 0 || upto > js.len() {
        Seq::empty()
    } else {
        spec_csv_joints(js, upto - 1) + spec_csv_joint(js[upto - 1])
    }
}

/// Appends the ASCII decimal digits of `n` to `out`.
fn push_decimal(n: u64, out: &mut Vec<u8>)
    ensures
        final(out)@ == old(out)@ + spec_decimal(n as nat),
    decreases n,
{
    if n < 10 {
        out.push(0x30 + (n as u8));
        proof {
            assert(final(out)@ =~= old(out)@ + spec_decimal(n as nat));
        }
    } else {
        proof {
            assert(n / 10 < n) by (nonlinear_arith)
                requires
                    n >= 10,
            ;
        }
        push_decimal(n / 10, out);
        out.push(0x30 + ((n % 10) as u8));
        proof {
            assert(final(out)@ =~= old(out)@ + spec_decimal(n as nat));
        }
    }
}

/// Appends the signed ASCII decimal form of `v` to `out`.
fn push_signed_decimal(v: i16, out: &mut Vec<u8>)
    ensures
        final(out)@ == old(out)@ + spec_signed_decimal(v as int),
{
    if v < 0 {
        out.push(0x2d);
        let m: i32 = -(v as i32);
        push_decimal(m as u64, out);
        proof {
            assert(final(out)@ =~= old(out)@ + spec_signed_decimal(v as int));
        }
    } else {
        push_decimal(v as u64, out);
    }
}

/// Appends the text dump of the subtree at `j` to `out`.
fn csv_rec(j: &Joint, out: &mut Vec<u8>)
    ensures
        final(out)@ == old(out)@ + spec_csv_joint(*j),
    decreases *j,
{
    let ghost base = out@;
    let mut ci: usize = 0;
    while ci < j.channels.len()
        invariant
            ci <= j.channels@.len(),
            out@ == base + spec_csv_channels(j.channels@, ci as int),
        decreases j.channels@.len() - ci,
    {
        let ghost chbase = out@;
        let ch = &j.channels[ci];
        let ghost gres = signed_view(ch.residuals@);
        let mut i: usize = 0;
        while i < ch.residuals.len()
            invariant
                i <= ch.residuals@.len(),
                gres == signed_view(ch.residuals@),
                ch == &j.channels@[ci as int],
                out@ == chbase + spec_csv_channel(gres, i as int),
            decreases ch.residuals@.len() - i,
        {
            let ghost linebase = out@;
            push_decimal(i as u64, out);
            out.push(0x3b);
            push_signed_decimal(ch.residuals[i], out);
            out.push(0x0a);
            i = i + 1;
            proof {
                assert(out@ =~= linebase + spec_csv_line((i - 1) as nat, gres[i - 1]));
                assert(linebase + spec_csv_line((i - 1) as nat, gres[i - 1]) =~= chbase
                    + spec_csv_channel(gres, i as int));
            }
        }
        ci = ci + 1;
        proof {
            assert(out@ =~= base + spec_csv_channels(j.channels@, ci as int));
        }
    }
    match &j.children {
        JointChildren::Joints(js) => {
            let ghost kidbase = out@;
            let mut n: usize = 0;
            while n < js.len()
                invariant
                    n <= js@.len(),
                    j.children == JointChildren::Joints(*js),
                    out@ == kidbase + spec_csv_joints(js@, n as int),
                decreases js@.len() - n,
            {
                proof {
                    assert(decreases_to!(*j => j.children));
                    assert(decreases_to!(j.children => j.children->Joints_0));
                    assert(j.children->Joints_0 == *js);
                    assert(decreases_to!(*js => js@));
                    assert(decreases_to!(js@ => js@[n as int]));
                    assert(decreases_to!(*j => js@[n as int]));
                }
                csv_rec(&js[n], out);
                n = n + 1;
                proof {
                    assert(out@ =~= kidbase + spec_csv_joints(js@, n as int));
                }
            }
        },
        JointChildren::EndSite(_) => {
            proof {
                assert(out@ =~= base + spec_csv_joint(*j));
            }
        },
    }
    proof {
        assert(out@ =~= base + spec_csv_joint(*j));
    }
}

/// The text dump of the whole skeleton: for every channel in canonical
/// depth-first order, one `index;value` line per frame, where the value
/// is the channel's stored residual at that frame.
pub fn dump_channels_csv(root: &Joint) -> (out: Vec<u8>)
    ensures
        out@ == spec_csv_joint(*root),
{
    let mut out: Vec<u8> = Vec::new();
    csv_rec(root, &mut out);
    out
}

/// The raw bytes one residual contributes: its low byte in the narrow
/// format, its 16-bit two's-complement form little-endian in the wide
/// format.
pub open spec fn spec_raw_value(v: int, wide: bool) -> Seq<u8> {
    if wide {
        seq![(wrap16_spec(v) % 0x100) as u8, (wrap16_spec(v) / 0x100) as u8]
    } else {
        seq![(v % 0x100) as u8]
    }
}

/// The raw bytes of the first `upto` residuals of one channel.
pub open spec fn spec_raw_channel(res: Seq<int>, upto: int, wide: bool) -> Seq<u8>
    decreases upto,
{
    if upto <= 0 {
        Seq::empty()
    } else {
        spec_raw_channel(res, upto - 1, wide) + spec_raw_value(res[upto - 1], wide)
    }
}

/// The raw bytes of a channel list, in declared order.
pub open spec fn spec_raw_channels(chs: Seq<Channel>, upto: int, wide: bool) -> Seq<u8>
    decreases upto,
{
    if upto <= 0 {
        Seq::empty()
    } else {
        spec_raw_channels(chs, upto - 1, wide) + spec_raw_channel(
            signed_view(chs[upto - 1].residuals@),
            chs[upto - 1].residuals@.len() as int,
            wide,
        )
    }
}

/// The raw bytes of the subtree at `j`, channels in canonical
/// depth-first order.
pub open spec fn spec_raw_joint(j: Joint, wide: bool) -> Seq<u8>
    decreases j,
{
    spec_raw_channels(j.channels@, j.channels@.len() as int, wide) + match j.children {
        JointChildren::Joints(v) => spec_raw_joints(v@, v@.len() as int, wide),
        JointChildren::EndSite(_) => Seq::empty(),
    }
}

/// The raw bytes of a sequence of sibling subtrees, in declared order.
pub open spec fn spec_raw_joints(js: Seq<Joint>, upto: int, wide: bool) -> Seq<u8>
    decreases js, upto,
{
    if upto <= 0 || upto > js.len() {
        Seq::empty()
    } else {
        spec_raw_joints(js, upto - 1, wide) + spec_raw_joint(js[upto - 1], wide)
    }
}

/// Appends the raw byte form of one residual to `out`.
fn push_raw_value(v: i16, wide: bool, out: &mut Vec<u8>)
    ensures
        final(out)@ == old(out)@ + spec_raw_value(v as int, wide),
{
    let u = wrap16(v as i64);
    if wide {
        out.push((u % 0x100) as u8);
        out.push((u / 0x100) as u8);
        proof {
            assert(final(out)@ =~= old(out)@ + spec_raw_value(v as int, wide));
        }
    } else {
        proof {
            lemma_mod_mod(v as int, 0x100, 0x100);
            lemma_mod_bound(v as int, 0x100);
        }
        out.push((u % 0x100) as u8);
        proof {
            assert(final(out)@ =~= old(out)@ + spec_raw_value(v as int, wide));
        }
    }
}

/// Appends the raw dump of the subtree at `j` to `out`.
fn raw_rec(j: &Joint, wide: bool, out: &mut Vec<u8>)
    ensures
        final(out)@ == old(out)@ + spec_raw_joint(*j, wide),
    decreases *j,
{
    let ghost base = out@;
    let mut ci: usize = 0;
    while ci < j.channels.len()
        invariant
            ci <= j.channels@.len(),
            out@ == base + spec_raw_channels(j.channels@, ci as int, wide),
        decreases j.channels@.len() - ci,
    {
        let ghost chbase = out@;
        let ch = &j.channels[ci];
        let ghost gres = signed_view(ch.residuals@);
        let mut i: usize = 0;
        while i < ch.residuals.len()
            invariant
                i <= ch.residuals@.len(),
                gres == signed_view(ch.residuals@),
                ch == &j.channels@[ci as int],
                out@ == chbase + spec_raw_channel(gres, i as int, wide),
            decreases ch.residuals@.len() - i,
        {
            push_raw_value(ch.residuals[i], wide, out);
            i = i + 1;
            proof {
                assert(out@ =~= chbase + spec_raw_channel(gres, i as int, wide));
            }
        }
        ci = ci + 1;
        proof {
            assert(out@ =~= base + spec_raw_channels(j.channels@, ci as int, wide));
        }
    }
    match &j.children {
        JointChildren::Joints(js) => {
            let ghost kidbase = out@;
            let mut n: usize = 0;
            while n < js.len()
                invariant
                    n <= js@.len(),
                    j.children == JointChildren::Joints(*js),
                    out@ == kidbase + spec_raw_joints(js@, n as int, wide),
                decreases js@.len() - n,
            {
                proof {
                    assert(decreases_to!(*j => j.children));
                    assert(decreases_to!(j.children => j.children->Joints_0));
                    assert(j.children->Joints_0 == *js);
                    assert(decreases_to!(*js => js@));
                    assert(decreases_to!(js@ => js@[n as int]));
                    assert(decreases_to!(*j => js@[n as int]));
                }
                raw_rec(&js[n], wide, out);
                n = n + 1;
                proof {
                    assert(out@ =~= kidbase + spec_raw_joints(js@, n as int, wide));
                }
            }
        },
        JointChildren::EndSite(_) => {
        },
    }
    proof {
        assert(out@ =~= base + spec_raw_joint(*j, wide));
    }
}

/// The raw binary dump of the whole skeleton: for every channel in
/// canonical depth-first order, one byte per residual in the narrow
/// format, or two little-endian two's-complement bytes in the wide
/// format.
pub fn dump_channels_raw(root: &Joint, wide: bool) -> (out: Vec<u8>)
    ensures
        out@ == spec_raw_joint(*root, wide),
{
    let mut out: Vec<u8> = Vec::new();
    raw_rec(root, wide, &mut out);
    out
}

} // verus!
