//! Screen-capture geometry: the downscale that fits a capture into the
//! declared display size, the clamping of overlay boxes to the image, and
//! the label geometry for Set-of-Mark marks. The pixel work itself (grab,
//! draw, encode) is the embedding program's.

use vstd::prelude::*;

use vstd::arithmetic::div_mod::{lemma_div_is_ordered, lemma_div_multiples_vanish};

use crate::a11y::A11yNode;
use crate::text::dec_int;

verus! {

/// What a capture yields: the encoded image, its geometry, and the nodes
/// marked on it.
#[derive(Debug)]
pub struct CaptureResult {
    pub base64: String,
    pub orig_width: u32,
    pub orig_height: u32,
    pub scaled_width: u32,
    pub scaled_height: u32,
    pub media_type: String,
    pub nodes: Vec<A11yNode>,
}

/// The output size of a capture: the image is shrunk by
/// `min(max_w / w, max_h / h, 1)` with exact rational arithmetic, so an
/// image already within bounds keeps its size.
pub open spec fn spec_scaled_dims(w: int, h: int, mw: int, mh: int) -> (int, int) {
    if mw >= w && mh >= h {
        (w, h)
    } else if mw * h <= mh * w {
        (mw, (h * mw) / w)
    } else {
        ((w * mh) / h, mh)
    }
}

/// Compute the dimensions a capture is resampled to.
pub fn scaled_dims(orig_w: u32, orig_h: u32, max_w: u32, max_h: u32) -> (r: (u32, u32))
    requires
        orig_w >= 1,
        orig_h >= 1,
    ensures
        r.0 as int == spec_scaled_dims(orig_w as int, orig_h as int, max_w as int, max_h as int).0,
        r.1 as int == spec_scaled_dims(orig_w as int, orig_h as int, max_w as int, max_h as int).1,
        r.0 <= orig_w,
        r.1 <= orig_h,
{
    let w = orig_w as u64;
    let h = orig_h as u64;
    let mw = max_w as u64;
    let mh = max_h as u64;
    proof {
        assert(mw * h <= 0xFFFF_FFFFu64 * 0xFFFF_FFFFu64 && mh * w <= 0xFFFF_FFFFu64
            * 0xFFFF_FFFFu64 && h * mw <= 0xFFFF_FFFFu64 * 0xFFFF_FFFFu64 && w * mh
            <= 0xFFFF_FFFFu64 * 0xFFFF_FFFFu64) by (nonlinear_arith)
            requires
                mw <= 0xFFFF_FFFFu64,
                mh <= 0xFFFF_FFFFu64,
                w <= 0xFFFF_FFFFu64,
                h <= 0xFFFF_FFFFu64,
        ;
    }
    if mw >= w && mh >= h {
        (orig_w, orig_h)
    } else if mw * h <= mh * w {
        proof {
            if mw >= w {
                assert(false) by (nonlinear_arith)
                    requires
                        mw >= w,
                        mh < h,
                        w >= 1,
                        h >= 1,
                        mw * h <= mh * w,
                ;
            }
            assert(h * mw <= h * w) by (nonlinear_arith)
                requires
                    mw <= w,
                    h >= 0,
            ;
            lemma_div_is_ordered(h as int * mw as int, h as int * w as int, w as int);
            lemma_div_multiples_vanish(h as int, w as int);
            assert(h as int * w as int == w as int * h as int);
        }
        let sh = (h * mw) / w;
        (mw as u32, sh as u32)
    } else {
        proof {
            if mh >= h {
                assert(false) by (nonlinear_arith)
                    requires
                        mh >= h,
                        mw < w,
                        w >= 1,
                        h >= 1,
                        mw * h > mh * w,
                ;
            }
            assert(w * mh <= w * h) by (nonlinear_arith)
                requires
                    mh <= h,
                    w >= 0,
            ;
            lemma_div_is_ordered(w as int * mh as int, w as int * h as int, h as int);
            lemma_div_multiples_vanish(w as int, h as int);
            assert(w as int * h as int == h as int * w as int);
        }
        let sw = (w * mh) / h;
        (sw as u32, mh as u32)
    }
}

/// A coordinate clamped into `[0, limit - 1]`.
pub open spec fn clamped(v: int, limit: int) -> int {
    if v < 0 {
        0
    } else if v > limit - 1 {
        limit - 1
    } else {
        v
    }
}

/// Clamp one coordinate into `[0, limit - 1]`.
fn clamp_u32(v: i32, limit: u32) -> (r: u32)
    requires
        limit >= 1,
    ensures
        r as int == clamped(v as int, limit as int),
{
    if v < 0 {
        0
    } else if (v as u32) > limit - 1 {
        limit - 1
    } else {
        v as u32
    }
}

/// Clamp a node's `(left, top, right, bottom)` box into an image of the
/// given size.
pub fn clamp_box(rect: (i32, i32, i32, i32), width: u32, height: u32) -> (r: (u32, u32, u32,
    u32))
    requires
        width >= 1,
        height >= 1,
    ensures
        r.0 as int == clamped(rect.0 as int, width as int),
        r.1 as int == clamped(rect.1 as int, height as int),
        r.2 as int == clamped(rect.2 as int, width as int),
        r.3 as int == clamped(rect.3 as int, height as int),
{
    let x1 = clamp_u32(rect.0, width);
    let y1 = clamp_u32(rect.1, height);
    let x2 = clamp_u32(rect.2, width);
    let y2 = clamp_u32(rect.3, height);
    (x1, y1, x2, y2)
}

/// Powers of ten.
pub open spec fn pow10(k: nat) -> nat
    decreases k,
{
    if k == 0 {
        1
    } else {
        10 * pow10((k - 1) as nat)
    }
}

/// A value below `10^k` renders in at most `k` digits.
proof fn lemma_dec_nat_len_pow(n: nat, k: nat)
    requires
        k >= 1,
        n < pow10(k),
    ensures
        crate::text::dec_nat(n).len() <= k,
    decreases k,
{
    if n < 10 {
    } else {
        assert(pow10(k) == 10 * pow10((k - 1) as nat));
        assert(n / 10 < pow10((k - 1) as nat)) by (nonlinear_arith)
            requires
                n >= 10,
                pow10(k) == 10 * pow10((k - 1) as nat),
                n < pow10(k),
        ;
        lemma_dec_nat_len_pow(n / 10, (k - 1) as nat);
    }
}

/// The label drawn above a marked box: its top-left corner and size. The
/// label reads `[id]`, sits at the box's left edge, 18 pixels above it
/// (clamped to the image top), and is sized from the text length.
pub open spec fn spec_label_box(id: int, x1: int, y1: int) -> (int, int, int, int) {
    let text_len = dec_int(id).len() as int + 2;
    (x1, if y1 - 18 >= 0 {
        y1 - 18
    } else {
        0
    }, text_len * 10 + 4, 18)
}

/// Compute the label geometry for a marked node.
pub fn label_box(id: i32, x1: u32, y1: u32) -> (r: (u32, u32, u64, u32))
    ensures
        r.0 as int == spec_label_box(id as int, x1 as int, y1 as int).0,
        r.1 as int == spec_label_box(id as int, x1 as int, y1 as int).1,
        r.2 as int == spec_label_box(id as int, x1 as int, y1 as int).2,
        r.3 as int == spec_label_box(id as int, x1 as int, y1 as int).3,
{
    proof {
        reveal_with_fuel(pow10, 12);
        let m: nat = if (id as int) < 0 {
            (-(id as int)) as nat
        } else {
            id as nat
        };
        lemma_dec_nat_len_pow(m, 11);
    }
    let text = crate::text::i32_str(id);
    let text_len = (text.unicode_len() + 2) as u64;
    let y = if y1 >= 18 {
        y1 - 18
    } else {
        0
    };
    (x1, y, text_len * 10 + 4, 18)
}

} // verus!
