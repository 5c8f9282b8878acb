use vstd::prelude::*;
use vstd::pervasive::VecAdditionalExecFns;

verus! {

/// The sentinel colour that flags a border pixel as a marker: opaque black.
pub open spec fn marker_pixel() -> Seq<u8> {
    seq![0u8, 0u8, 0u8, 255u8]
}

/// The colour a freshly allocated bitmap is filled with: transparent black.
pub open spec fn clear_pixel() -> Seq<u8> {
    seq![0u8, 0u8, 0u8, 0u8]
}

/// A row-major RGBA pixel grid. `data` holds four bytes per pixel
/// (red, green, blue, alpha), row by row from the top-left corner.
pub struct Bitmap {
    pub width: usize,
    pub height: usize,
    pub data: Vec<u8>,
}

impl Bitmap {
    /// Well-formedness: the buffer holds exactly four bytes per pixel, and
    /// both dimensions fit in 32 bits (they come from and return to a
    /// 32-bit raster format).
    pub open spec fn wf(self) -> bool {
        &&& self.width <= u32::MAX
        &&& self.height <= u32::MAX
        &&& self.data@.len() == 4 * self.width * self.height
    }

    /// Offset of the first byte of pixel `(x, y)` in the buffer.
    pub open spec fn spec_offset(self, x: int, y: int) -> int {
        4 * (y * self.width + x)
    }

    /// The four bytes of pixel `(x, y)`.
    pub open spec fn spec_pixel(self, x: int, y: int) -> Seq<u8> {
        self.data@.subrange(self.spec_offset(x, y), self.spec_offset(x, y) + 4)
    }

    /// Whether pixel `(x, y)` is a nine-patch marker.
    pub open spec fn spec_is_marker(self, x: int, y: int) -> bool {
        self.spec_pixel(x, y) == marker_pixel()
    }
}

/// A pixel inside the grid starts strictly before the end of the buffer.
proof fn lemma_offset_in_bounds(x: int, y: int, w: int, h: int)
    requires
        0 <= x < w,
        0 <= y < h,
    ensures
        y * w + x + 1 <= w * h,
        0 <= 4 * (y * w + x),
        4 * (y * w + x) + 4 <= 4 * w * h,
{
    assert(y * w + x + 1 <= w * h && 0 <= 4 * (y * w + x) && 4 * (y * w + x) + 4 <= 4 * w
        * h) by (nonlinear_arith)
        requires
            0 <= x < w,
            0 <= y < h,
    ;
}

/// Row-major offsets of distinct pixels are distinct.
proof fn lemma_offset_injective(x1: int, y1: int, x2: int, y2: int, w: int)
    requires
        0 <= x1 < w,
        0 <= x2 < w,
        0 <= y1,
        0 <= y2,
        !(x1 == x2 && y1 == y2),
    ensures
        y1 * w + x1 != y2 * w + x2,
{
    assert(y1 * w + x1 != y2 * w + x2) by (nonlinear_arith)
        requires
            0 <= x1 < w,
            0 <= x2 < w,
            0 <= y1,
            0 <= y2,
            !(x1 == x2 && y1 == y2),
    ;
}

impl Bitmap {
    /// Byte offset of pixel `(x, y)`, computed without overflow.
    fn offset(&self, x: usize, y: usize) -> (i: usize)
        requires
            self.wf(),
            x < self.width,
            y < self.height,
        ensures
            i == self.spec_offset(x as int, y as int),
            i + 4 <= self.data@.len(),
    {
        let len = self.data.len();
        proof {
            lemma_offset_in_bounds(x as int, y as int, self.width as int, self.height as int);
            assert(4 * (y as int * self.width as int + x as int) + 4 <= len);
        }
        4 * (y * self.width + x)
    }

    /// Builds a bitmap from raw RGBA bytes, refusing a buffer whose length
    /// does not match the dimensions.
    pub fn from_raw(width: usize, height: usize, data: Vec<u8>) -> (r: Option<Bitmap>)
        ensures
            r matches Some(b) ==> b.wf() && b.width == width && b.height == height && b.data@
                == data@,
            r is None ==> !(width <= u32::MAX && height <= u32::MAX && data@.len() == 4 * width
                * height),
    {
        if width > u32::MAX as usize || height > u32::MAX as usize {
            return None;
        }
        let dlen = data.len();
        if height != 0 && width > usize::MAX / 4 / height {
            proof {
                assert(width > usize::MAX / 4 / height ==> 4 * width * height > usize::MAX)
                    by (nonlinear_arith)
                    requires
                        height != 0,
                ;
                assert(dlen <= usize::MAX);
            }
            return None;
        }
        let expected: usize = if height == 0 {
            0
        } else {
            proof {
                assert(width * height * 4 <= usize::MAX && 4 * width * height == width * height
                    * 4) by (nonlinear_arith)
                    requires
                        height != 0,
                        width <= usize::MAX / 4 / height,
                ;
            }
            width * height * 4
        };
        if data.len() == expected {
            proof {
                assert(height == 0 ==> 4 * width * height == 0) by (nonlinear_arith);
            }
            Some(Bitmap { width, height, data })
        } else {
            None
        }
    }

    /// A `width` by `height` bitmap of transparent black pixels.
    pub fn new_filled(width: usize, height: usize) -> (r: Bitmap)
        requires
            width <= u32::MAX,
            height <= u32::MAX,
            4 * width * height <= usize::MAX,
        ensures
            r.wf(),
            r.width == width,
            r.height == height,
            forall|i: int| 0 <= i < r.data@.len() ==> r.data@[i] == 0u8,
    {
        proof {
            assert(width * height * 4 == 4 * width * height && (height != 0 ==> width * height
                == (width * height * 4) / 4)) by (nonlinear_arith);
            assert(height == 0 ==> width * height == 0) by (nonlinear_arith);
        }
        let n: usize = if height == 0 {
            0
        } else {
            width * height * 4
        };
        let mut data: Vec<u8> = Vec::new();
        while data.len() < n
            invariant
                data@.len() <= n,
                forall|i: int| 0 <= i < data@.len() ==> data@[i] == 0u8,
            decreases n - data@.len(),
        {
            data.push(0u8);
        }
        Bitmap { width, height, data }
    }

    /// The four channel bytes of pixel `(x, y)`.
    pub fn pixel_at(&self, x: usize, y: usize) -> (r: (u8, u8, u8, u8))
        requires
            self.wf(),
            x < self.width,
            y < self.height,
        ensures
            seq![r.0, r.1, r.2, r.3] == self.spec_pixel(x as int, y as int),
    {
        let i = self.offset(x, y);
        let r = (self.data[i], self.data[i + 1], self.data[i + 2], self.data[i + 3]);
        proof {
            assert(seq![r.0, r.1, r.2, r.3] =~= self.spec_pixel(x as int, y as int));
        }
        r
    }

    /// Whether pixel `(x, y)` equals the marker colour.
    pub fn is_marker(&self, x: usize, y: usize) -> (r: bool)
        requires
            self.wf(),
            x < self.width,
            y < self.height,
        ensures
            r == self.spec_is_marker(x as int, y as int),
    {
        let (b0, b1, b2, b3) = self.pixel_at(x, y);
        let r = b0 == 0 && b1 == 0 && b2 == 0 && b3 == 255;
        proof {
            if r {
                assert(self.spec_pixel(x as int, y as int) =~= marker_pixel());
            } else {
                assert(self.spec_pixel(x as int, y as int) != marker_pixel()) by {
                    assert(marker_pixel()[0] == 0u8 && marker_pixel()[1] == 0u8 && marker_pixel()[2]
                        == 0u8 && marker_pixel()[3] == 255u8);
                }
            }
        }
        r
    }
}

/// Copies one pixel of `src` over one pixel of `dst`, leaving every other
/// pixel of `dst` as it was.
pub fn copy_pixel(src: &Bitmap, dst: &mut Bitmap, sx: usize, sy: usize, dx: usize, dy: usize)
    requires
        src.wf(),
        old(dst).wf(),
        sx < src.width,
        sy < src.height,
        dx < old(dst).width,
        dy < old(dst).height,
    ensures
        final(dst).wf(),
        final(dst).width == old(dst).width,
        final(dst).height == old(dst).height,
        final(dst).spec_pixel(dx as int, dy as int) == src.spec_pixel(sx as int, sy as int),
        forall|x: int, y: int|
            0 <= x < old(dst).width && 0 <= y < old(dst).height && !(x == dx && y == dy)
                ==> #[trigger] final(dst).spec_pixel(x, y) == old(dst).spec_pixel(x, y),
{
    let si = src.offset(sx, sy);
    let di = dst.offset(dx, dy);
    let ghost pre = *dst;
    dst.data.set(di, src.data[si]);
    dst.data.set(di + 1, src.data[si + 1]);
    dst.data.set(di + 2, src.data[si + 2]);
    dst.data.set(di + 3, src.data[si + 3]);
    proof {
        assert(dst.spec_pixel(dx as int, dy as int) =~= src.spec_pixel(sx as int, sy as int));
        assert forall|x: int, y: int|
            0 <= x < pre.width && 0 <= y < pre.height && !(x == dx && y == dy) implies dst
            .spec_pixel(x, y) == pre.spec_pixel(x, y) by {
            lemma_offset_injective(x, y, dx as int, dy as int, pre.width as int);
            lemma_offset_in_bounds(x, y, pre.width as int, pre.height as int);
            assert(dst.spec_pixel(x, y) =~= pre.spec_pixel(x, y));
        }
    }
}

/// Whether destination pixel `(x, y)` receives a source pixel when a
/// `width` by `height` block is copied from `(src_x, src_y)` of a source of
/// size `src_w` by `src_h` to `(dst_x, dst_y)`: it must lie in the block and
/// its source counterpart must exist.
pub open spec fn in_copy_target(
    src_w: int,
    src_h: int,
    src_x: int,
    src_y: int,
    width: int,
    height: int,
    dst_x: int,
    dst_y: int,
    x: int,
    y: int,
) -> bool {
    &&& dst_x <= x < dst_x + width
    &&& dst_y <= y < dst_y + height
    &&& src_x + (x - dst_x) < src_w
    &&& src_y + (y - dst_y) < src_h
}

/// A bitmap whose buffer is all zero shows the clear colour everywhere.
pub proof fn lemma_all_zero_pixels(b: Bitmap)
    requires
        b.wf(),
        forall|i: int| 0 <= i < b.data@.len() ==> b.data@[i] == 0u8,
    ensures
        forall|x: int, y: int|
            0 <= x < b.width && 0 <= y < b.height ==> b.spec_pixel(x, y) == clear_pixel(),
{
    assert forall|x: int, y: int|
        0 <= x < b.width && 0 <= y < b.height implies b.spec_pixel(x, y) == clear_pixel() by {
        lemma_offset_in_bounds(x, y, b.width as int, b.height as int);
        assert(b.spec_pixel(x, y) =~= clear_pixel());
    }
}

/// Copies a `width` by `height` block of `src` at `(src_x, src_y)` onto
/// `dst` at `(dst_x, dst_y)`. Each pixel is copied only when both its source
/// and its destination coordinates are in range; every other pixel of `dst`
/// keeps its value.
pub fn copy_region(
    src: &Bitmap,
    dst: &mut Bitmap,
    src_x: usize,
    src_y: usize,
    width: usize,
    height: usize,
    dst_x: usize,
    dst_y: usize,
)
    requires
        src.wf(),
        old(dst).wf(),
        src_x + width <= usize::MAX,
        src_y + height <= usize::MAX,
        dst_x + width <= usize::MAX,
        dst_y + height <= usize::MAX,
    ensures
        final(dst).wf(),
        final(dst).width == old(dst).width,
        final(dst).height == old(dst).height,
        forall|x: int, y: int|
            0 <= x < old(dst).width && 0 <= y < old(dst).height
                ==> #[trigger] final(dst).spec_pixel(x, y) == (if in_copy_target(
                src.width as int,
                src.height as int,
                src_x as int,
                src_y as int,
                width as int,
                height as int,
                dst_x as int,
                dst_y as int,
                x,
                y,
            ) {
                src.spec_pixel(src_x + (x - dst_x), src_y + (y - dst_y))
            } else {
                old(dst).spec_pixel(x, y)
            }),
{
    let ghost dst0 = *dst;
    let mut dy: usize = 0;
    while dy < height
        invariant
            src.wf(),
            dst.wf(),
            dst.width == dst0.width,
            dst.height == dst0.height,
            dst0.wf(),
            dy <= height,
            src_x + width <= usize::MAX,
            src_y + height <= usize::MAX,
            dst_x + width <= usize::MAX,
            dst_y + height <= usize::MAX,
            forall|x: int, y: int|
                0 <= x < dst0.width && 0 <= y < dst0.height ==> #[trigger] dst.spec_pixel(x, y)
                    == (if in_copy_target(
                    src.width as int,
                    src.height as int,
                    src_x as int,
                    src_y as int,
                    width as int,
                    height as int,
                    dst_x as int,
                    dst_y as int,
                    x,
                    y,
                ) && y < dst_y + dy {
                    src.spec_pixel(src_x + (x - dst_x), src_y + (y - dst_y))
                } else {
                    dst0.spec_pixel(x, y)
                }),
        decreases height - dy,
    {
        let mut dx: usize = 0;
        while dx < width
            invariant
                src.wf(),
                dst.wf(),
                dst.width == dst0.width,
                dst.height == dst0.height,
                dst0.wf(),
                dy < height,
                dx <= width,
                src_x + width <= usize::MAX,
                src_y + height <= usize::MAX,
                dst_x + width <= usize::MAX,
                dst_y + height <= usize::MAX,
                forall|x: int, y: int|
                    0 <= x < dst0.width && 0 <= y < dst0.height ==> #[trigger] dst.spec_pixel(x, y)
                        == (if in_copy_target(
                        src.width as int,
                        src.height as int,
                        src_x as int,
                        src_y as int,
                        width as int,
                        height as int,
                        dst_x as int,
                        dst_y as int,
                        x,
                        y,
                    ) && (y < dst_y + dy || (y == dst_y + dy && x < dst_x + dx)) {
                        src.spec_pixel(src_x + (x - dst_x), src_y + (y - dst_y))
                    } else {
                        dst0.spec_pixel(x, y)
                    }),
            decreases width - dx,
        {
            let ghost prev = *dst;
            if src_x + dx < src.width && src_y + dy < src.height && dst_x + dx < dst.width && dst_y
                + dy < dst.height {
                copy_pixel(src, dst, src_x + dx, src_y + dy, dst_x + dx, dst_y + dy);
                proof {
                    assert forall|x: int, y: int|
                        0 <= x < dst0.width && 0 <= y < dst0.height implies #[trigger] dst
                        .spec_pixel(x, y) == (if in_copy_target(
                        src.width as int,
                        src.height as int,
                        src_x as int,
                        src_y as int,
                        width as int,
                        height as int,
                        dst_x as int,
                        dst_y as int,
                        x,
                        y,
                    ) && (y < dst_y + dy || (y == dst_y + dy && x < dst_x + dx + 1)) {
                        src.spec_pixel(src_x + (x - dst_x), src_y + (y - dst_y))
                    } else {
                        dst0.spec_pixel(x, y)
                    }) by {
                        if x == dst_x + dx && y == dst_y + dy {
                            assert(dx < width);
                            assert(in_copy_target(
                                src.width as int,
                                src.height as int,
                                src_x as int,
                                src_y as int,
                                width as int,
                                height as int,
                                dst_x as int,
                                dst_y as int,
                                x,
                                y,
                            ));
                            assert(dst.spec_pixel(x, y) == src.spec_pixel(
                                src_x + dx as int,
                                src_y + dy as int,
                            ));
                            assert(src.spec_pixel(src_x + dx as int, src_y + dy as int)
                                == src.spec_pixel(src_x + (x - dst_x), src_y + (y - dst_y)));
                        } else {
                            assert(dst.spec_pixel(x, y) == prev.spec_pixel(x, y));
                            assert(prev.spec_pixel(x, y) == (if in_copy_target(
                                src.width as int,
                                src.height as int,
                                src_x as int,
                                src_y as int,
                                width as int,
                                height as int,
                                dst_x as int,
                                dst_y as int,
                                x,
                                y,
                            ) && (y < dst_y + dy || (y == dst_y + dy && x < dst_x + dx)) {
                                src.spec_pixel(src_x + (x - dst_x), src_y + (y - dst_y))
                            } else {
                                dst0.spec_pixel(x, y)
                            }));
                        }
                    }
                }
            } else {
                proof {
                    assert forall|x: int, y: int|
                        0 <= x < dst0.width && 0 <= y < dst0.height implies #[trigger] dst
                        .spec_pixel(x, y) == (if in_copy_target(
                        src.width as int,
                        src.height as int,
                        src_x as int,
                        src_y as int,
                        width as int,
                        height as int,
                        dst_x as int,
                        dst_y as int,
                        x,
                        y,
                    ) && (y < dst_y + dy || (y == dst_y + dy && x < dst_x + dx + 1)) {
                        src.spec_pixel(src_x + (x - dst_x), src_y + (y - dst_y))
                    } else {
                        dst0.spec_pixel(x, y)
                    }) by {
                        assert(dst.spec_pixel(x, y) == prev.spec_pixel(x, y));
                    }
                }
            }
            dx += 1;
        }
        dy += 1;
    }
}

/// Copies the whole of `src` onto `dst` at `(dst_x, dst_y)`.
pub fn copy_image(src: &Bitmap, dst: &mut Bitmap, dst_x: usize, dst_y: usize)
    requires
        src.wf(),
        old(dst).wf(),
        dst_x + src.width <= usize::MAX,
        dst_y + src.height <= usize::MAX,
    ensures
        final(dst).wf(),
        final(dst).width == old(dst).width,
        final(dst).height == old(dst).height,
        forall|x: int, y: int|
            0 <= x < old(dst).width && 0 <= y < old(dst).height
                ==> #[trigger] final(dst).spec_pixel(x, y) == (if dst_x <= x < dst_x + src.width
                && dst_y <= y < dst_y + src.height {
                src.spec_pixel(x - dst_x, y - dst_y)
            } else {
                old(dst).spec_pixel(x, y)
            }),
{
    let w = src.width;
    let h = src.height;
    copy_region(src, dst, 0, 0, w, h, dst_x, dst_y);
}

/// Cuts the `width` by `height` rectangle of `img` at `(x, y)` out into a
/// fresh bitmap; destination pixels whose source lies outside `img` stay
/// transparent black.
pub fn extract_region(img: &Bitmap, x: usize, y: usize, width: usize, height: usize) -> (r: Bitmap)
    requires
        img.wf(),
        width <= u32::MAX,
        height <= u32::MAX,
        4 * width * height <= usize::MAX,
        x + width <= usize::MAX,
        y + height <= usize::MAX,
    ensures
        r.wf(),
        r.width == width,
        r.height == height,
        forall|dx: int, dy: int|
            0 <= dx < width && 0 <= dy < height ==> #[trigger] r.spec_pixel(dx, dy) == (if x + dx
                < img.width && y + dy < img.height {
                img.spec_pixel(x + dx, y + dy)
            } else {
                clear_pixel()
            }),
{
    let mut region = Bitmap::new_filled(width, height);
    proof {
        lemma_all_zero_pixels(region);
    }
    copy_region(img, &mut region, x, y, width, height, 0, 0);
    region
}

/// Strips the one-pixel marker border: the result is the inner
/// `(width - 2)` by `(height - 2)` rectangle of `img`.
pub fn extract_content(img: &Bitmap) -> (r: Bitmap)
    requires
        img.wf(),
        img.width >= 3,
        img.height >= 3,
    ensures
        r.wf(),
        r.width == img.width - 2,
        r.height == img.height - 2,
        forall|dx: int, dy: int|
            0 <= dx < img.width - 2 && 0 <= dy < img.height - 2 ==> #[trigger] r.spec_pixel(dx, dy)
                == img.spec_pixel(dx + 1, dy + 1),
{
    let len = img.data.len();
    proof {
        assert(4 * (img.width - 2) * (img.height - 2) <= 4 * img.width * img.height)
            by (nonlinear_arith)
            requires
                img.width >= 3,
                img.height >= 3,
        ;
        assert(4 * img.width * img.height == len);
    }
    extract_region(img, 1, 1, img.width - 2, img.height - 2)
}

/// The source index that nearest-neighbour sampling picks for destination
/// index `d` when a span of `src_len` pixels is resized to `dst_len`:
/// `d * src_len / dst_len`, clamped to the last source index.
pub open spec fn nn_src(d: int, dst_len: int, src_len: int) -> int {
    let s = d * src_len / dst_len;
    if s > src_len - 1 {
        src_len - 1
    } else {
        s
    }
}

/// Nearest-neighbour resize of `src` to `new_width` by `new_height`.
pub fn resize_image(src: &Bitmap, new_width: usize, new_height: usize) -> (r: Bitmap)
    requires
        src.wf(),
        new_width <= u32::MAX,
        new_height <= u32::MAX,
        4 * new_width * new_height <= usize::MAX,
        new_width > 0 ==> src.width > 0,
        new_height > 0 ==> src.height > 0,
    ensures
        r.wf(),
        r.width == new_width,
        r.height == new_height,
        forall|x: int, y: int|
            0 <= x < new_width && 0 <= y < new_height ==> #[trigger] r.spec_pixel(x, y)
                == src.spec_pixel(
                nn_src(x, new_width as int, src.width as int),
                nn_src(y, new_height as int, src.height as int),
            ),
{
    let mut dst = Bitmap::new_filled(new_width, new_height);
    let mut y: usize = 0;
    while y < new_height
        invariant
            src.wf(),
            dst.wf(),
            dst.width == new_width,
            dst.height == new_height,
            new_width <= u32::MAX,
            new_height <= u32::MAX,
            y <= new_height,
            new_width > 0 ==> src.width > 0,
            new_height > 0 ==> src.height > 0,
            forall|px: int, py: int|
                0 <= px < new_width && 0 <= py < y ==> #[trigger] dst.spec_pixel(px, py)
                    == src.spec_pixel(
                    nn_src(px, new_width as int, src.width as int),
                    nn_src(py, new_height as int, src.height as int),
                ),
        decreases new_height - y,
    {
        let sy = nn_index(y, new_height, src.height);
        let mut x: usize = 0;
        while x < new_width
            invariant
                src.wf(),
                dst.wf(),
                dst.width == new_width,
                dst.height == new_height,
                new_width <= u32::MAX,
                new_height <= u32::MAX,
                y < new_height,
                x <= new_width,
                src.height > 0,
                new_width > 0 ==> src.width > 0,
                sy == nn_src(y as int, new_height as int, src.height as int),
                sy < src.height,
                forall|px: int, py: int|
                    0 <= px < new_width && 0 <= py < y ==> #[trigger] dst.spec_pixel(px, py)
                        == src.spec_pixel(
                        nn_src(px, new_width as int, src.width as int),
                        nn_src(py, new_height as int, src.height as int),
                    ),
                forall|px: int|
                    0 <= px < x ==> #[trigger] dst.spec_pixel(px, y as int) == src.spec_pixel(
                    nn_src(px, new_width as int, src.width as int),
                    nn_src(y as int, new_height as int, src.height as int),
                ),
            decreases new_width - x,
        {
            let sx = nn_index(x, new_width, src.width);
            copy_pixel(src, &mut dst, sx, sy, x, y);
            x += 1;
        }
        y += 1;
    }
    dst
}

/// Computes `nn_src` for one destination index, without overflow.
fn nn_index(d: usize, dst_len: usize, src_len: usize) -> (r: usize)
    requires
        d < dst_len,
        dst_len <= u32::MAX,
        src_len <= u32::MAX,
        src_len > 0,
    ensures
        r == nn_src(d as int, dst_len as int, src_len as int),
        r < src_len,
{
    proof {
        assert((d as int) * (src_len as int) <= (u32::MAX as int) * (u32::MAX as int)
            && (u32::MAX as int) * (u32::MAX as int) < u64::MAX) by (nonlinear_arith)
            requires
                d < dst_len,
                dst_len <= u32::MAX,
                src_len <= u32::MAX,
        ;
        assert((d as int) * (src_len as int) / (dst_len as int) <= src_len - 1)
            by (nonlinear_arith)
            requires
                0 <= d < dst_len,
                0 < src_len,
        ;
        assert(0 <= (d as int) * (src_len as int)) by (nonlinear_arith)
            requires
                0 <= d,
                0 < src_len,
        ;
    }
    let s64: u64 = (d as u64) * (src_len as u64) / (dst_len as u64);
    let s: usize = s64 as usize;
    if s > src_len - 1 {
        src_len - 1
    } else {
        s
    }
}

} // verus!

