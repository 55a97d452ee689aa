//! Pixel-format conversion for presentation backends that want
//! premultiplied BGRA instead of the canvas's straight RGBA.

use vstd::prelude::*;
use vstd::arithmetic::div_mod::{
    lemma_div_pos_is_pos, lemma_fundamental_div_mod_converse_div,
    lemma_fundamental_div_mod_converse_mod, lemma_multiply_divide_lt,
};

verus! {

/// Byte `i` of the premultiplied BGRA image of a straight RGBA buffer:
/// channels are reordered to B, G, R, A and each colour channel is
/// multiplied by the pixel's alpha, rounding to nearest; a fully
/// transparent pixel becomes all zero.
pub open spec fn premul_bgra_byte(src: Seq<u8>, i: int) -> u8 {
    let p = i / 4;
    let c = i % 4;
    let a = src[p * 4 + 3] as int;
    if a == 0 {
        0u8
    } else if c == 0 {
        (((src[p * 4 + 2] as int) * a + 127) / 255) as u8
    } else if c == 1 {
        (((src[p * 4 + 1] as int) * a + 127) / 255) as u8
    } else if c == 2 {
        (((src[p * 4] as int) * a + 127) / 255) as u8
    } else {
        src[p * 4 + 3]
    }
}

/// The premultiplied BGRA image of a straight RGBA buffer; trailing
/// bytes that do not form a whole pixel are dropped.
pub open spec fn premul_bgra(src: Seq<u8>) -> Seq<u8> {
    Seq::new(((src.len() / 4) * 4) as nat, |i: int| premul_bgra_byte(src, i))
}

/// Convert a straight RGBA buffer into premultiplied BGRA, pixel by
/// pixel.
#[verifier::loop_isolation(false)]
pub fn rgba_to_premultiplied_bgra(src: &[u8]) -> (bgra: Vec<u8>)
    ensures
        bgra@ == premul_bgra(src@),
{
    let n: usize = src.len() / 4;
    let mut bgra: Vec<u8> = Vec::new();
    let mut p: usize = 0;
    while p < n
        invariant
            p <= n,
            bgra@.len() == p * 4,
            forall|i: int| 0 <= i < p * 4 ==> bgra@[i] == premul_bgra_byte(src@, i),
        decreases n - p,
    {
        proof {
            assert(p * 4 + 4 <= n * 4 <= src@.len()) by (nonlinear_arith)
                requires
                    p < n,
                    n == src@.len() / 4,
                    src@.len() >= 0,
            ;
        }
        let base: usize = p * 4;
        let r = src[base] as u32;
        let g = src[base + 1] as u32;
        let b = src[base + 2] as u32;
        let a = src[base + 3] as u32;
        proof {
            lemma_premul_channel_bound(r as int, a as int);
            lemma_premul_channel_bound(g as int, a as int);
            lemma_premul_channel_bound(b as int, a as int);
        }
        if a == 0 {
            bgra.push(0);
            bgra.push(0);
            bgra.push(0);
            bgra.push(0);
        } else {
            bgra.push(((b * a + 127) / 255) as u8);
            bgra.push(((g * a + 127) / 255) as u8);
            bgra.push(((r * a + 127) / 255) as u8);
            bgra.push(a as u8);
        }
        proof {
            assert forall|i: int| 0 <= i < (p + 1) * 4 implies bgra@[i] == premul_bgra_byte(
                src@,
                i,
            ) by {
                if p * 4 <= i {
                    lemma_fundamental_div_mod_converse_div(i, 4, p as int, i - p * 4);
                    lemma_fundamental_div_mod_converse_mod(i, 4, p as int, i - p * 4);
                }
            }
        }
        p = p + 1;
    }
    proof {
        assert((src@.len() / 4) * 4 == n * 4);
        assert(bgra@ =~= premul_bgra(src@));
    }
    bgra
}

/// A colour channel premultiplied by an alpha byte, with rounding,
/// still fits in a byte.
proof fn lemma_premul_channel_bound(c: int, a: int)
    requires
        0 <= c <= 255,
        0 <= a <= 255,
    ensures
        0 <= c * a <= 65025,
        0 <= (c * a + 127) / 255 <= 255,
{
    assert(0 <= c * a <= 65025) by (nonlinear_arith)
        requires
            0 <= c <= 255,
            0 <= a <= 255,
    ;
    lemma_div_pos_is_pos(c * a + 127, 255);
    lemma_multiply_divide_lt(c * a + 127, 255, 256);
}

} // verus!
