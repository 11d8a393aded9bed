//! The brightness of a raw frame.
use vstd::arithmetic::{div_mod, mul};
use vstd::prelude::*;

use crate::capture::frame::FrameLayout;
use crate::fourcc::{FOURCC_UYVY, FOURCC_YUYV};

verus! {

/// Where in a pair of bytes the brightness stands: first in `YUYV`, second in `UYVY`.
pub open spec fn luma_offset(layout: FrameLayout) -> Option<int> {
    if layout.fourcc.code == FOURCC_YUYV {
        Some(0)
    } else if layout.fourcc.code == FOURCC_UYVY {
        Some(1)
    } else {
        None
    }
}

/// The bytes hold whole rows of pixels.
pub open spec fn whole(layout: FrameLayout, len: nat) -> bool {
    &&& 2 * layout.width <= layout.stride
    &&& layout.stride * layout.height <= len
}

/// The brightness of the pixel at `i`, counted row by row.
pub open spec fn luma_at(layout: FrameLayout, bytes: Seq<u8>, offset: int, i: int) -> u8 {
    bytes[i / layout.width as int * layout.stride + 2 * (i % layout.width as int) + offset]
}

proof fn lemma_inside(layout: FrameLayout, len: nat, x: int, y: int)
    requires
        whole(layout, len),
        0 <= x < layout.width,
        0 <= y < layout.height,
    ensures
        0 <= y * layout.stride + 2 * x,
        y * layout.stride + 2 * x + 1 < len,
        y * layout.width + x < layout.width * layout.height,
{
    let (s, h, w) = (layout.stride as int, layout.height as int, layout.width as int);
    assert((y + 1) * s <= s * h) by (nonlinear_arith)
        requires
            y + 1 <= h,
            s >= 0,
    ;
    assert((y + 1) * s == y * s + s) by (nonlinear_arith);
    assert(y * s >= 0) by (nonlinear_arith)
        requires
            y >= 0,
            s >= 0,
    ;
    assert((y + 1) * w <= w * h) by (nonlinear_arith)
        requires
            y + 1 <= h,
            w >= 0,
    ;
    assert((y + 1) * w == y * w + w) by (nonlinear_arith);
}

/// The brightness of every pixel of a raw frame, row by row. Nothing of a frame that is
/// compressed, of another format, or cut short.
pub fn luma(layout: &FrameLayout, bytes: &[u8]) -> (r: Option<Vec<u8>>)
    ensures
        r is Some <==> luma_offset(*layout) is Some && whole(*layout, bytes@.len()),
        r matches Some(data) ==> {
            &&& data@.len() == layout.width * layout.height
            &&& forall|i: int|
                0 <= i < data@.len() ==> #[trigger] data@[i] == luma_at(
                    *layout,
                    bytes@,
                    luma_offset(*layout)->0,
                    i,
                )
        },
{
    let offset: usize = if layout.fourcc.code == FOURCC_YUYV {
        0
    } else if layout.fourcc.code == FOURCC_UYVY {
        1
    } else {
        return None;
    };
    let (w, h, s): (u64, u64, u64) = (
        layout.width as u64,
        layout.height as u64,
        layout.stride as u64,
    );
    proof {
        assert(0 <= s * h <= 0xffff_ffff * 0xffff_ffff) by (nonlinear_arith)
            requires
                0 <= s <= 0xffff_ffff,
                0 <= h <= 0xffff_ffff,
        ;
    }
    if 2 * w > s || s * h > bytes.len() as u64 {
        return None;
    }
    let mut data: Vec<u8> = Vec::new();
    let mut y: u32 = 0;
    while y < layout.height
        invariant
            y <= layout.height,
            offset == luma_offset(*layout)->0,
            luma_offset(*layout) is Some,
            offset <= 1,
            whole(*layout, bytes@.len()),
            bytes@.len() <= usize::MAX,
            data@.len() == y * layout.width,
            forall|i: int|
                0 <= i < data@.len() ==> #[trigger] data@[i] == luma_at(
                    *layout,
                    bytes@,
                    offset as int,
                    i,
                ),
        decreases layout.height - y,
    {
        let mut x: u32 = 0;
        while x < layout.width
            invariant
                x <= layout.width,
                y < layout.height,
                offset == luma_offset(*layout)->0,
                luma_offset(*layout) is Some,
                offset <= 1,
                whole(*layout, bytes@.len()),
                bytes@.len() <= usize::MAX,
                data@.len() == y * layout.width + x,
                forall|i: int|
                    0 <= i < data@.len() ==> #[trigger] data@[i] == luma_at(
                        *layout,
                        bytes@,
                        offset as int,
                        i,
                    ),
            decreases layout.width - x,
        {
            proof {
                lemma_inside(*layout, bytes@.len(), x as int, y as int);
                let (xx, yy, ww) = (x as int, y as int, layout.width as int);
                div_mod::lemma_fundamental_div_mod_converse(yy * ww + xx, ww, yy, xx);
                assert(y * layout.stride >= 0) by (nonlinear_arith);
            }
            let at: usize = (y as usize) * (layout.stride as usize) + 2 * (x as usize) + offset;
            data.push(bytes[at]);
            x = x + 1;
        }
        proof {
            mul::lemma_mul_is_distributive_add_other_way(layout.width as int, y as int, 1);
            mul::lemma_mul_basics(layout.width as int);
        }
        y = y + 1;
    }
    proof {
        mul::lemma_mul_is_commutative(layout.width as int, layout.height as int);
    }
    Some(data)
}

/// The brightness of the pixel in column `x` of row `y` is the first byte of its pair in `YUYV`,
/// the second in `UYVY`, with rows a stride apart. No other format has any.
pub proof fn the_brightness_of_a_pixel(layout: FrameLayout, bytes: Seq<u8>, x: int, y: int)
    requires
        0 <= x < layout.width,
        0 <= y < layout.height,
    ensures
        layout.fourcc.code == FOURCC_YUYV ==> luma_offset(layout) is Some && luma_at(
            layout,
            bytes,
            luma_offset(layout)->0,
            y * layout.width + x,
        ) == bytes[y * layout.stride + 2 * x],
        layout.fourcc.code == FOURCC_UYVY ==> luma_offset(layout) is Some && luma_at(
            layout,
            bytes,
            luma_offset(layout)->0,
            y * layout.width + x,
        ) == bytes[y * layout.stride + 2 * x + 1],
        layout.fourcc.code != FOURCC_YUYV && layout.fourcc.code != FOURCC_UYVY ==> luma_offset(
            layout,
        ) is None,
{
    let w = layout.width as int;
    div_mod::lemma_fundamental_div_mod_converse(y * w + x, w, y, x);
}

/// A frame is whole if it has a stride of bytes for each row, and each row two bytes for each
/// pixel; bytes beyond that do no harm.
pub proof fn more_bytes_do_no_harm(layout: FrameLayout, len: nat, more: nat)
    ensures
        whole(layout, len) ==> whole(layout, len + more),
        2 * layout.width <= layout.stride ==> whole(
            layout,
            (layout.stride * layout.height) as nat,
        ),
        whole(layout, len) ==> 2 * layout.width <= layout.stride && layout.stride * layout.height
            <= len,
{
    let (s, h) = (layout.stride as int, layout.height as int);
    assert(s * h >= 0) by (nonlinear_arith)
        requires
            s >= 0,
            h >= 0,
    ;
}

} // verus!
