//! The framebuffer blitter: writes grayscale-reduced frames into a raw byte
//! buffer described by a fixed surface geometry.
//!
//! Every write goes through `write_gray`, which computes the destination
//! offset once and checks it against the buffer bounds before touching any
//! byte: no write ever lands outside the buffer, whatever the geometry and
//! whatever the image. Pixels that fall outside the visible resolution are
//! silently skipped, as are whole frames when the pixel layout is not 32 bits
//! per pixel.

use vstd::prelude::*;

use crate::container::views_of;
use crate::pixmap::{gray, ImageModel, Pixmap, RGB};

verus! {

/// The geometry of a destination surface: visible and virtual resolution,
/// pan offset, pixel layout, and the byte distance between buffer rows.
#[derive(Debug, Clone, Copy, PartialEq, Eq, Structural)]
pub struct Geometry {
    pub xres: u32,
    pub yres: u32,
    pub xres_virtual: u32,
    pub yres_virtual: u32,
    pub xoffset: u32,
    pub yoffset: u32,
    pub bits_per_pixel: u32,
    pub line_length: u32,
}

/// A destination surface: a geometry and the raw byte buffer it describes.
/// The blitter only ever writes inside the buffer; it never resizes it.
#[derive(Debug)]
pub struct Surface {
    pub geom: Geometry,
    pub buffer: Vec<u8>,
}

impl Surface {
    /// The geometry invariant: the buffer covers the whole virtual resolution.
    pub open spec fn wf(self) -> bool {
        self.buffer@.len() == self.geom.yres_virtual * self.geom.line_length
    }
}

/// The byte offset at which the pixel drawn at visible position `(x, y)`
/// starts, honouring the pan offset and the row stride.
pub open spec fn byte_offset(g: Geometry, x: int, y: int) -> int {
    (x + g.xoffset) * (g.bits_per_pixel as int / 8) + (y + g.yoffset) * g.line_length
}

/// One grayscale write: `v` into the three colour lanes at the offset of
/// `(x, y)`, when the layout is 32 bits per pixel and all three lanes lie
/// inside the buffer; otherwise the buffer is untouched.
pub open spec fn write3(buf: Seq<u8>, g: Geometry, x: int, y: int, v: u8) -> Seq<u8> {
    let off = byte_offset(g, x, y);
    if g.bits_per_pixel == 32 && 0 <= off && off + 3 <= buf.len() {
        buf.update(off, v).update(off + 1, v).update(off + 2, v)
    } else {
        buf
    }
}

/// The buffer after drawing pixel `k` (row-major) of `img` placed with its
/// top-left corner at `(sx, sy)`: a skip when the destination lies outside
/// the visible resolution.
pub open spec fn blit_pixel(
    buf: Seq<u8>,
    g: Geometry,
    img: ImageModel,
    sx: int,
    sy: int,
    k: int,
) -> Seq<u8> {
    let x = k % (img.w as int);
    let y = k / (img.w as int);
    let dx = sx + x;
    let dy = sy + y;
    if 0 <= dx < g.xres && 0 <= dy < g.yres {
        write3(buf, g, dx, dy, gray(img.data[y * img.w + x]))
    } else {
        buf
    }
}

/// The buffer after drawing the first `k` pixels of `img`, in row-major order.
pub open spec fn blit_upto(
    buf: Seq<u8>,
    g: Geometry,
    img: ImageModel,
    sx: int,
    sy: int,
    k: nat,
) -> Seq<u8>
    decreases k,
{
    if k == 0 {
        buf
    } else {
        blit_pixel(blit_upto(buf, g, img, sx, sy, (k - 1) as nat), g, img, sx, sy, k - 1)
    }
}

/// The buffer after drawing the first `n` frames of a sequence, all placed at
/// `(sx, sy)`.
pub open spec fn blit_seq(
    buf: Seq<u8>,
    g: Geometry,
    imgs: Seq<ImageModel>,
    sx: int,
    sy: int,
    n: nat,
) -> Seq<u8>
    decreases n,
{
    if n == 0 {
        buf
    } else {
        let prev = blit_seq(buf, g, imgs, sx, sy, (n - 1) as nat);
        blit_upto(prev, g, imgs[n - 1], sx, sy, (imgs[n - 1].w * imgs[n - 1].h) as nat)
    }
}

/// Bounds: a blit never grows or shrinks the buffer. Together with the
/// definition of `write3`, which touches an offset only when its whole
/// three-byte lane group lies inside the buffer, no byte is ever written at
/// an offset outside `[0, buffer length)`.
pub proof fn lemma_blit_bounds(buf: Seq<u8>, g: Geometry, img: ImageModel, sx: int, sy: int, k: nat)
    ensures
        blit_upto(buf, g, img, sx, sy, k).len() == buf.len(),
    decreases k,
{
    if k > 0 {
        lemma_blit_bounds(buf, g, img, sx, sy, (k - 1) as nat);
    }
}

/// Whether drawing pixel `k` of the image may write to buffer offset `j`,
/// in a buffer of length `blen`.
pub open spec fn targets(
    g: Geometry,
    img: ImageModel,
    sx: int,
    sy: int,
    blen: int,
    k: int,
    j: int,
) -> bool {
    let x = k % (img.w as int);
    let y = k / (img.w as int);
    let dx = sx + x;
    let dy = sy + y;
    let off = byte_offset(g, dx, dy);
    &&& 0 <= dx < g.xres
    &&& 0 <= dy < g.yres
    &&& g.bits_per_pixel == 32
    &&& 0 <= off
    &&& off + 3 <= blen
    &&& off <= j < off + 3
}

/// Framing: a byte that no drawn pixel targets is left unchanged by the blit.
pub proof fn lemma_blit_untouched(
    buf: Seq<u8>,
    g: Geometry,
    img: ImageModel,
    sx: int,
    sy: int,
    k: nat,
    j: int,
)
    requires
        0 <= j < buf.len(),
        forall|t: int| 0 <= t < k ==> !targets(g, img, sx, sy, buf.len() as int, t, j),
    ensures
        blit_upto(buf, g, img, sx, sy, k)[j] == buf[j],
    decreases k,
{
    if k > 0 {
        lemma_blit_untouched(buf, g, img, sx, sy, (k - 1) as nat, j);
        lemma_blit_bounds(buf, g, img, sx, sy, (k - 1) as nat);
        assert(!targets(g, img, sx, sy, buf.len() as int, k - 1, j));
    }
}

/// Grayscale: a drawn pixel puts the truncating average of its three source
/// channels into all three destination lanes.
pub proof fn lemma_grayscale(buf: Seq<u8>, g: Geometry, x: int, y: int, p: RGB)
    requires
        g.bits_per_pixel == 32,
        0 <= byte_offset(g, x, y),
        byte_offset(g, x, y) + 3 <= buf.len(),
    ensures
        write3(buf, g, x, y, gray(p))[byte_offset(g, x, y)] == (p.r + p.g + p.b) / 3,
        write3(buf, g, x, y, gray(p))[byte_offset(g, x, y) + 1] == (p.r + p.g + p.b) / 3,
        write3(buf, g, x, y, gray(p))[byte_offset(g, x, y) + 2] == (p.r + p.g + p.b) / 3,
{
}

/// Whether writes are supported for this geometry: only the 32-bits-per-pixel
/// layout is. Rendering onto any other depth is a deliberate silent no-op,
/// and this check makes that path explicit.
pub fn depth_supported(g: &Geometry) -> (b: bool)
    ensures
        b == (g.bits_per_pixel == 32),
{
    g.bits_per_pixel == 32
}

/// The centered placement of an image on the visible surface: its top-left
/// corner, each coordinate the half of the visible resolution minus the half
/// of the image dimension, in truncating integer division. Negative when the
/// image is larger than the visible surface, in which case the out-of-bounds
/// pixels are skipped at draw time.
pub fn placement(g: &Geometry, img_w: u32, img_h: u32) -> (r: (i64, i64))
    ensures
        r.0 == g.xres as int / 2 - img_w as int / 2,
        r.1 == g.yres as int / 2 - img_h as int / 2,
{
    ((g.xres / 2) as i64 - (img_w / 2) as i64, (g.yres / 2) as i64 - (img_h / 2) as i64)
}

/// Writes one grayscale value into the surface at visible position `(x, y)`.
/// The byte offset is computed once and checked against the buffer bounds
/// before any byte is written; a write that would fall outside the buffer is
/// skipped, as is everything for any pixel layout other than 32 bits.
pub fn write_gray(s: &mut Surface, x: u32, y: u32, v: u8)
    requires
        x < old(s).geom.xres,
        y < old(s).geom.yres,
    ensures
        final(s).geom == old(s).geom,
        final(s).buffer@ == write3(old(s).buffer@, old(s).geom, x as int, y as int, v),
{
    if s.geom.bits_per_pixel != 32 {
        return ;
    }
    proof {
        assert(((y as int) + (s.geom.yoffset as int)) * (s.geom.line_length as int)
            < 0x200000000 * 0x100000000) by (nonlinear_arith)
            requires
                y < 0x100000000,
                s.geom.yoffset < 0x100000000,
                s.geom.line_length < 0x100000000,
        ;
    }
    let off128: u128 = ((x as u128) + (s.geom.xoffset as u128)) * 4 + ((y as u128) + (
    s.geom.yoffset as u128)) * (s.geom.line_length as u128);
    proof {
        assert(off128 == byte_offset(s.geom, x as int, y as int));
    }
    if off128 + 3 <= s.buffer.len() as u128 {
        let off = off128 as usize;
        s.buffer[off] = v;
        s.buffer[off + 1] = v;
        s.buffer[off + 2] = v;
    }
}

/// Blits one image onto the surface with its top-left corner at
/// `(start_x, start_y)`, row by row, skipping pixels outside the visible
/// resolution.
pub fn render_frame(s: &mut Surface, img: &Pixmap, start_x: i64, start_y: i64)
    requires
        img.wf(),
        -0x100000000 <= start_x <= 0x100000000,
        -0x100000000 <= start_y <= 0x100000000,
    ensures
        final(s).geom == old(s).geom,
        final(s).buffer@ == blit_upto(
            old(s).buffer@,
            old(s).geom,
            img@,
            start_x as int,
            start_y as int,
            (img.w * img.h) as nat,
        ),
{
    let mut y: u32 = 0;
    while y < img.h
        invariant
            y <= img.h,
            img.wf(),
            -0x100000000 <= start_x <= 0x100000000,
            -0x100000000 <= start_y <= 0x100000000,
            s.geom == old(s).geom,
            s.buffer@ == blit_upto(
                old(s).buffer@,
                old(s).geom,
                img@,
                start_x as int,
                start_y as int,
                (y * img.w) as nat,
            ),
        decreases img.h - y,
    {
        let mut x: u32 = 0;
        while x < img.w
            invariant
                x <= img.w,
                y < img.h,
                img.wf(),
                -0x100000000 <= start_x <= 0x100000000,
                -0x100000000 <= start_y <= 0x100000000,
                s.geom == old(s).geom,
                s.buffer@ == blit_upto(
                    old(s).buffer@,
                    old(s).geom,
                    img@,
                    start_x as int,
                    start_y as int,
                    (y * img.w + x) as nat,
                ),
            decreases img.w - x,
        {
            let ghost k: int = y * img.w + x;
            proof {
                assert(k % (img.w as int) == x && k / (img.w as int) == y) by (nonlinear_arith)
                    requires
                        k == (y as int) * (img.w as int) + (x as int),
                        0 <= x < img.w,
                        0 <= y,
                ;
                assert(k + 1 <= (img.w * img.h) as int) by (nonlinear_arith)
                    requires
                        k == (y as int) * (img.w as int) + (x as int),
                        0 <= x < img.w,
                        0 <= y < img.h,
                ;
            }
            let dx: i64 = start_x + x as i64;
            let dy: i64 = start_y + y as i64;
            if dx >= 0 && dy >= 0 && dx < s.geom.xres as i64 && dy < s.geom.yres as i64 {
                let v = img.at(x, y);
                write_gray(s, dx as u32, dy as u32, v);
            }
            x = x + 1;
            proof {
                assert(s.buffer@ == blit_upto(
                    old(s).buffer@,
                    old(s).geom,
                    img@,
                    start_x as int,
                    start_y as int,
                    (k + 1) as nat,
                ));
            }
        }
        y = y + 1;
        proof {
            assert((y * img.w) as int == (y - 1) * (img.w as int) + (img.w as int))
                by (nonlinear_arith)
                requires
                    1 <= y,
            ;
        }
    }
    proof {
        assert((img.h * img.w) as int == (img.w * img.h) as int) by (nonlinear_arith);
    }
}

/// Renders every frame in order, the whole sequence centered by the first
/// frame's dimensions. A sequence with no frames leaves the surface
/// untouched and is not an error. Pacing between frames is the caller's
/// business: this function only draws.
pub fn render_sequence(s: &mut Surface, frames: &Vec<Pixmap>)
    requires
        forall|k: int| 0 <= k < frames@.len() ==> (#[trigger] frames@[k]).wf(),
    ensures
        final(s).geom == old(s).geom,
        frames@.len() == 0 ==> final(s).buffer@ == old(s).buffer@,
        frames@.len() > 0 ==> final(s).buffer@ == blit_seq(
            old(s).buffer@,
            old(s).geom,
            views_of(frames@),
            old(s).geom.xres as int / 2 - frames@[0].w as int / 2,
            old(s).geom.yres as int / 2 - frames@[0].h as int / 2,
            frames@.len() as nat,
        ),
{
    if frames.len() == 0 {
        return ;
    }
    let g = s.geom;
    let (sx, sy) = placement(&g, frames[0].w, frames[0].h);
    let mut i: usize = 0;
    while i < frames.len()
        invariant
            i <= frames@.len(),
            forall|k: int| 0 <= k < frames@.len() ==> (#[trigger] frames@[k]).wf(),
            s.geom == old(s).geom,
            sx == old(s).geom.xres as int / 2 - frames@[0].w as int / 2,
            sy == old(s).geom.yres as int / 2 - frames@[0].h as int / 2,
            s.buffer@ == blit_seq(
                old(s).buffer@,
                old(s).geom,
                views_of(frames@),
                sx as int,
                sy as int,
                i as nat,
            ),
        decreases frames@.len() - i,
    {
        render_frame(s, &frames[i], sx, sy);
        i = i + 1;
        proof {
            assert(views_of(frames@)[i - 1] == frames@[i - 1]@);
        }
    }
}

} // verus!
