use vstd::prelude::*;
use crate::bitmap::{
    Bitmap,
    clear_pixel,
    nn_src,
    copy_region,
    copy_image,
    extract_region,
    resize_image,
    lemma_all_zero_pixels,
};
use crate::parse::StretchInfo;

verus! {

/// How many destination pixels the stretch band of one axis receives: the
/// target extent minus the two fixed extents. `sl .. sr` is the stretch span,
/// `c` the content extent, `t` the target extent.
pub open spec fn axis_extra(sl: int, sr: int, c: int, t: int) -> int {
    t - (sl + (c - sr))
}

/// Which of the three destination bands of one axis `x` falls in: the leading
/// fixed band, the stretch band, or the trailing fixed band.
pub open spec fn axis_band(sl: int, sr: int, c: int, t: int, x: int) -> int {
    if x < sl {
        0
    } else if x < sl + axis_extra(sl, sr, c, t) {
        1
    } else {
        2
    }
}

/// Whether destination index `x` receives a source pixel on this axis. The
/// stretch band is only drawn when the stretch span is non-empty; a degenerate
/// span leaves the band transparent.
pub open spec fn axis_drawn(sl: int, sr: int, c: int, t: int, x: int) -> bool {
    axis_band(sl, sr, c, t, x) != 1 || sr > sl
}

/// The source index that destination index `x` samples on this axis: fixed
/// bands copy one-to-one, the stretch band resamples the stretch span.
pub open spec fn axis_src(sl: int, sr: int, c: int, t: int, x: int) -> int {
    let e = axis_extra(sl, sr, c, t);
    if x < sl {
        x
    } else if x < sl + e {
        sl + nn_src(x - sl, e, sr - sl)
    } else {
        sr + (x - (sl + e))
    }
}

/// The pixel the nine-region composition puts at `(x, y)` of the output:
/// the sampled content pixel where both axes draw, and transparent black in
/// a band whose stretch span is degenerate.
pub open spec fn scaled_pixel(
    content: Bitmap,
    si: StretchInfo,
    tw: int,
    th: int,
    x: int,
    y: int,
) -> Seq<u8> {
    let cw = content.width as int;
    let ch = content.height as int;
    if axis_drawn(si.stretch_left as int, si.stretch_right as int, cw, tw, x) && axis_drawn(
        si.stretch_top as int,
        si.stretch_bottom as int,
        ch,
        th,
        y,
    ) {
        content.spec_pixel(
            axis_src(si.stretch_left as int, si.stretch_right as int, cw, tw, x),
            axis_src(si.stretch_top as int, si.stretch_bottom as int, ch, th, y),
        )
    } else {
        clear_pixel()
    }
}

/// The order in which the nine cells are composed: row band by row band, left
/// to right within a row.
pub open spec fn cell_rank(si: StretchInfo, content: Bitmap, tw: int, th: int, x: int, y: int) -> int {
    3 * axis_band(
        si.stretch_top as int,
        si.stretch_bottom as int,
        content.height as int,
        th,
        y,
    ) + axis_band(si.stretch_left as int, si.stretch_right as int, content.width as int, tw, x)
}

/// What the output shows after the first `k` of the nine cells are composed:
/// the final pixel in cells already done, transparent black elsewhere.
pub open spec fn scaled_upto(
    content: Bitmap,
    si: StretchInfo,
    tw: int,
    th: int,
    k: int,
    x: int,
    y: int,
) -> Seq<u8> {
    if cell_rank(si, content, tw, th, x, y) < k {
        scaled_pixel(content, si, tw, th, x, y)
    } else {
        clear_pixel()
    }
}

/// Resampling a span onto a span of the same length is the identity.
pub proof fn lemma_nn_identity(d: int, l: int)
    requires
        0 <= d < l,
    ensures
        nn_src(d, l, l) == d,
{
    assert(d * l / l == d) by (nonlinear_arith)
        requires
            0 <= d < l,
    ;
}

/// The sampled source index lies inside the source span.
pub proof fn lemma_nn_range(d: int, dst_len: int, src_len: int)
    requires
        0 <= d < dst_len,
        0 < src_len,
    ensures
        0 <= nn_src(d, dst_len, src_len) < src_len,
{
    assert(0 <= d * src_len / dst_len) by (nonlinear_arith)
        requires
            0 <= d,
            0 < src_len,
            0 < dst_len,
    ;
}

/// A product of four with both factors bounded is bounded by the product of
/// four with the bounds.
proof fn lemma_mul_le(a: int, b: int, c: int, d: int)
    requires
        0 <= a <= c,
        0 <= b <= d,
    ensures
        4 * a * b <= 4 * c * d,
{
    assert(4 * a * b <= 4 * c * d) by (nonlinear_arith)
        requires
            0 <= a <= c,
            0 <= b <= d,
    ;
}

/// Cuts the `sw` by `sh` rectangle of `content` at `(src_x, src_y)` out,
/// resamples it to `dw` by `dh`, and lays it onto `result` at
/// `(dst_x, dst_y)`; pixels outside that destination rectangle keep their
/// value.
fn blit_resized(
    content: &Bitmap,
    result: &mut Bitmap,
    src_x: usize,
    src_y: usize,
    sw: usize,
    sh: usize,
    dst_x: usize,
    dst_y: usize,
    dw: usize,
    dh: usize,
)
    requires
        content.wf(),
        old(result).wf(),
        src_x + sw <= content.width,
        src_y + sh <= content.height,
        dst_x + dw <= old(result).width,
        dst_y + dh <= old(result).height,
        4 * dw * dh <= usize::MAX,
        dw > 0 ==> sw > 0,
        dh > 0 ==> sh > 0,
    ensures
        final(result).wf(),
        final(result).width == old(result).width,
        final(result).height == old(result).height,
        forall|x: int, y: int|
            0 <= x < old(result).width && 0 <= y < old(result).height
                ==> #[trigger] final(result).spec_pixel(x, y) == (if dst_x <= x < dst_x + dw
                && dst_y <= y < dst_y + dh {
                content.spec_pixel(
                    src_x + nn_src(x - dst_x, dw as int, sw as int),
                    src_y + nn_src(y - dst_y, dh as int, sh as int),
                )
            } else {
                old(result).spec_pixel(x, y)
            }),
{
    let ghost r0 = *result;
    let clen = content.data.len();
    proof {
        lemma_mul_le(sw as int, sh as int, content.width as int, content.height as int);
        lemma_mul_le(dw as int, dh as int, dw as int, dh as int);
    }
    let section = extract_region(content, src_x, src_y, sw, sh);
    let scaled = resize_image(&section, dw, dh);
    copy_image(&scaled, result, dst_x, dst_y);
    proof {
        assert forall|x: int, y: int|
            0 <= x < r0.width && 0 <= y < r0.height implies #[trigger] result.spec_pixel(x, y)
            == (if dst_x <= x < dst_x + dw && dst_y <= y < dst_y + dh {
            content.spec_pixel(
                src_x + nn_src(x - dst_x, dw as int, sw as int),
                src_y + nn_src(y - dst_y, dh as int, sh as int),
            )
        } else {
            r0.spec_pixel(x, y)
        }) by {
            if dst_x <= x < dst_x + dw && dst_y <= y < dst_y + dh {
                let dx = x - dst_x;
                let dy = y - dst_y;
                lemma_nn_range(dx, dw as int, sw as int);
                lemma_nn_range(dy, dh as int, sh as int);
                let nx = nn_src(dx, dw as int, sw as int);
                let ny = nn_src(dy, dh as int, sh as int);
                assert(result.spec_pixel(x, y) == scaled.spec_pixel(dx, dy));
                assert(scaled.spec_pixel(dx, dy) == section.spec_pixel(nx, ny));
                assert(section.spec_pixel(nx, ny) == content.spec_pixel(src_x + nx, src_y + ny));
            } else {
                assert(result.spec_pixel(x, y) == r0.spec_pixel(x, y));
            }
        }
    }
}

/// Partitions the content into the nine-cell grid that `si` defines, copies
/// the four corner cells unscaled, resamples each stretch cell to absorb the
/// extra extent, and composes the output. A cell whose stretch span is
/// degenerate contributes nothing and its band stays transparent.
pub fn scale_nine_patch(
    content: &Bitmap,
    si: &StretchInfo,
    target_width: usize,
    target_height: usize,
) -> (r: Bitmap)
    requires
        content.wf(),
        si.wf(content.width as int, content.height as int),
        si.spec_min_width() <= target_width <= u32::MAX,
        si.spec_min_height() <= target_height <= u32::MAX,
        4 * target_width * target_height <= usize::MAX,
    ensures
        r.wf(),
        r.width == target_width,
        r.height == target_height,
        forall|x: int, y: int|
            0 <= x < target_width && 0 <= y < target_height ==> #[trigger] r.spec_pixel(x, y)
                == scaled_pixel(*content, *si, target_width as int, target_height as int, x, y),
{
    let ghost tw = target_width as int;
    let ghost th = target_height as int;
    let lf = si.left_fixed;
    let rf = si.right_fixed;
    let tf = si.top_fixed;
    let bf = si.bottom_fixed;
    let sl = si.stretch_left;
    let sr = si.stretch_right;
    let st = si.stretch_top;
    let sb = si.stretch_bottom;
    let extra_width = target_width - (lf + rf);
    let extra_height = target_height - (tf + bf);
    let stretch_width = sr - sl;
    let stretch_height = sb - st;

    let mut result = Bitmap::new_filled(target_width, target_height);
    proof {
        lemma_all_zero_pixels(result);
        assert forall|x: int, y: int|
            0 <= x < tw && 0 <= y < th implies #[trigger] result.spec_pixel(x, y) == scaled_upto(
            *content,
            *si,
            tw,
            th,
            0,
            x,
            y,
        ) by {}
    }

    // Top-left corner (fixed).
    let ghost s0 = result;
    copy_region(content, &mut result, 0, 0, lf, tf, 0, 0);
    proof {
        assert forall|x: int, y: int|
            0 <= x < tw && 0 <= y < th implies #[trigger] result.spec_pixel(x, y) == scaled_upto(
            *content,
            *si,
            tw,
            th,
            1,
            x,
            y,
        ) by {
            assert(s0.spec_pixel(x, y) == scaled_upto(*content, *si, tw, th, 0, x, y));
            if x < lf && y < tf {
                assert(result.spec_pixel(x, y) == content.spec_pixel(x, y));
            } else {
                assert(result.spec_pixel(x, y) == s0.spec_pixel(x, y));
            }
        }
    }

    // Top edge (stretched horizontally).
    let ghost s1 = result;
    if stretch_width > 0 {
        proof {
            lemma_mul_le(extra_width as int, tf as int, tw, th);
        }
        blit_resized(content, &mut result, sl, 0, stretch_width, tf, lf, 0, extra_width, tf);
    }
    proof {
        assert forall|x: int, y: int|
            0 <= x < tw && 0 <= y < th implies #[trigger] result.spec_pixel(x, y) == scaled_upto(
            *content,
            *si,
            tw,
            th,
            2,
            x,
            y,
        ) by {
            assert(s1.spec_pixel(x, y) == scaled_upto(*content, *si, tw, th, 1, x, y));
            if stretch_width > 0 {
                if lf <= x < lf + extra_width && y < tf {
                    lemma_nn_identity(y, tf as int);
                    assert(result.spec_pixel(x, y) == content.spec_pixel(
                        sl + nn_src(x - lf, extra_width as int, stretch_width as int),
                        y,
                    ));
                } else {
                    assert(result.spec_pixel(x, y) == s1.spec_pixel(x, y));
                }
            } else {
                assert(result.spec_pixel(x, y) == s1.spec_pixel(x, y));
            }
        }
    }

    // Top-right corner (fixed).
    let ghost s2 = result;
    copy_region(content, &mut result, sr, 0, rf, tf, lf + extra_width, 0);
    proof {
        assert forall|x: int, y: int|
            0 <= x < tw && 0 <= y < th implies #[trigger] result.spec_pixel(x, y) == scaled_upto(
            *content,
            *si,
            tw,
            th,
            3,
            x,
            y,
        ) by {
            assert(s2.spec_pixel(x, y) == scaled_upto(*content, *si, tw, th, 2, x, y));
            if lf + extra_width <= x < tw && y < tf {
                assert(result.spec_pixel(x, y) == content.spec_pixel(
                    sr + (x - (lf + extra_width)),
                    y,
                ));
            } else {
                assert(result.spec_pixel(x, y) == s2.spec_pixel(x, y));
            }
        }
    }

    // Left edge (stretched vertically).
    let ghost s3 = result;
    if stretch_height > 0 {
        proof {
            lemma_mul_le(lf as int, extra_height as int, tw, th);
        }
        blit_resized(content, &mut result, 0, st, lf, stretch_height, 0, tf, lf, extra_height);
    }
    proof {
        assert forall|x: int, y: int|
            0 <= x < tw && 0 <= y < th implies #[trigger] result.spec_pixel(x, y) == scaled_upto(
            *content,
            *si,
            tw,
            th,
            4,
            x,
            y,
        ) by {
            assert(s3.spec_pixel(x, y) == scaled_upto(*content, *si, tw, th, 3, x, y));
            if stretch_height > 0 {
                if x < lf && tf <= y < tf + extra_height {
                    lemma_nn_identity(x, lf as int);
                    assert(result.spec_pixel(x, y) == content.spec_pixel(
                        x,
                        st + nn_src(y - tf, extra_height as int, stretch_height as int),
                    ));
                } else {
                    assert(result.spec_pixel(x, y) == s3.spec_pixel(x, y));
                }
            } else {
                assert(result.spec_pixel(x, y) == s3.spec_pixel(x, y));
            }
        }
    }

    // Centre (stretched both ways).
    let ghost s4 = result;
    if stretch_width > 0 && stretch_height > 0 {
        proof {
            lemma_mul_le(extra_width as int, extra_height as int, tw, th);
        }
        blit_resized(
            content,
            &mut result,
            sl,
            st,
            stretch_width,
            stretch_height,
            lf,
            tf,
            extra_width,
            extra_height,
        );
    }
    proof {
        assert forall|x: int, y: int|
            0 <= x < tw && 0 <= y < th implies #[trigger] result.spec_pixel(x, y) == scaled_upto(
            *content,
            *si,
            tw,
            th,
            5,
            x,
            y,
        ) by {
            assert(s4.spec_pixel(x, y) == scaled_upto(*content, *si, tw, th, 4, x, y));
            if stretch_width > 0 && stretch_height > 0 {
                if lf <= x < lf + extra_width && tf <= y < tf + extra_height {
                    assert(result.spec_pixel(x, y) == content.spec_pixel(
                        sl + nn_src(x - lf, extra_width as int, stretch_width as int),
                        st + nn_src(y - tf, extra_height as int, stretch_height as int),
                    ));
                } else {
                    assert(result.spec_pixel(x, y) == s4.spec_pixel(x, y));
                }
            } else {
                assert(result.spec_pixel(x, y) == s4.spec_pixel(x, y));
            }
        }
    }

    // Right edge (stretched vertically).
    let ghost s5 = result;
    if stretch_height > 0 {
        proof {
            lemma_mul_le(rf as int, extra_height as int, tw, th);
        }
        blit_resized(
            content,
            &mut result,
            sr,
            st,
            rf,
            stretch_height,
            lf + extra_width,
            tf,
            rf,
            extra_height,
        );
    }
    proof {
        assert forall|x: int, y: int|
            0 <= x < tw && 0 <= y < th implies #[trigger] result.spec_pixel(x, y) == scaled_upto(
            *content,
            *si,
            tw,
            th,
            6,
            x,
            y,
        ) by {
            assert(s5.spec_pixel(x, y) == scaled_upto(*content, *si, tw, th, 5, x, y));
            if stretch_height > 0 {
                if lf + extra_width <= x < tw && tf <= y < tf + extra_height {
                    lemma_nn_identity(x - (lf + extra_width), rf as int);
                    assert(result.spec_pixel(x, y) == content.spec_pixel(
                        sr + (x - (lf + extra_width)),
                        st + nn_src(y - tf, extra_height as int, stretch_height as int),
                    ));
                } else {
                    assert(result.spec_pixel(x, y) == s5.spec_pixel(x, y));
                }
            } else {
                assert(result.spec_pixel(x, y) == s5.spec_pixel(x, y));
            }
        }
    }

    // Bottom-left corner (fixed).
    let ghost s6 = result;
    copy_region(content, &mut result, 0, sb, lf, bf, 0, tf + extra_height);
    proof {
        assert forall|x: int, y: int|
            0 <= x < tw && 0 <= y < th implies #[trigger] result.spec_pixel(x, y) == scaled_upto(
            *content,
            *si,
            tw,
            th,
            7,
            x,
            y,
        ) by {
            assert(s6.spec_pixel(x, y) == scaled_upto(*content, *si, tw, th, 6, x, y));
            if x < lf && tf + extra_height <= y < th {
                assert(result.spec_pixel(x, y) == content.spec_pixel(
                    x,
                    sb + (y - (tf + extra_height)),
                ));
            } else {
                assert(result.spec_pixel(x, y) == s6.spec_pixel(x, y));
            }
        }
    }

    // Bottom edge (stretched horizontally).
    let ghost s7 = result;
    if stretch_width > 0 {
        proof {
            lemma_mul_le(extra_width as int, bf as int, tw, th);
        }
        blit_resized(
            content,
            &mut result,
            sl,
            sb,
            stretch_width,
            bf,
            lf,
            tf + extra_height,
            extra_width,
            bf,
        );
    }
    proof {
        assert forall|x: int, y: int|
            0 <= x < tw && 0 <= y < th implies #[trigger] result.spec_pixel(x, y) == scaled_upto(
            *content,
            *si,
            tw,
            th,
            8,
            x,
            y,
        ) by {
            assert(s7.spec_pixel(x, y) == scaled_upto(*content, *si, tw, th, 7, x, y));
            if stretch_width > 0 {
                if lf <= x < lf + extra_width && tf + extra_height <= y < th {
                    lemma_nn_identity(y - (tf + extra_height), bf as int);
                    assert(result.spec_pixel(x, y) == content.spec_pixel(
                        sl + nn_src(x - lf, extra_width as int, stretch_width as int),
                        sb + (y - (tf + extra_height)),
                    ));
                } else {
                    assert(result.spec_pixel(x, y) == s7.spec_pixel(x, y));
                }
            } else {
                assert(result.spec_pixel(x, y) == s7.spec_pixel(x, y));
            }
        }
    }

    // Bottom-right corner (fixed).
    let ghost s8 = result;
    copy_region(content, &mut result, sr, sb, rf, bf, lf + extra_width, tf + extra_height);
    proof {
        assert forall|x: int, y: int|
            0 <= x < tw && 0 <= y < th implies #[trigger] result.spec_pixel(x, y) == scaled_upto(
            *content,
            *si,
            tw,
            th,
            9,
            x,
            y,
        ) by {
            assert(s8.spec_pixel(x, y) == scaled_upto(*content, *si, tw, th, 8, x, y));
            if lf + extra_width <= x < tw && tf + extra_height <= y < th {
                assert(result.spec_pixel(x, y) == content.spec_pixel(
                    sr + (x - (lf + extra_width)),
                    sb + (y - (tf + extra_height)),
                ));
            } else {
                assert(result.spec_pixel(x, y) == s8.spec_pixel(x, y));
            }
        }
        assert forall|x: int, y: int|
            0 <= x < tw && 0 <= y < th implies #[trigger] result.spec_pixel(x, y) == scaled_pixel(
            *content,
            *si,
            tw,
            th,
            x,
            y,
        ) by {
            assert(result.spec_pixel(x, y) == scaled_upto(*content, *si, tw, th, 9, x, y));
        }
    }
    result
}

/// The destination rectangle of cell `(ci, ri)` of the nine-region placement:
/// column bands at `0`, `left_fixed` and `left_fixed + extra width`, row
/// bands at `0`, `top_fixed` and `top_fixed + extra height`.
pub open spec fn dest_rect_contains(
    si: StretchInfo,
    cw: int,
    ch: int,
    tw: int,
    th: int,
    ci: int,
    ri: int,
    x: int,
    y: int,
) -> bool {
    let ew = axis_extra(si.stretch_left as int, si.stretch_right as int, cw, tw);
    let eh = axis_extra(si.stretch_top as int, si.stretch_bottom as int, ch, th);
    &&& if ci == 0 {
        0 <= x < si.left_fixed
    } else if ci == 1 {
        si.left_fixed <= x < si.left_fixed + ew
    } else {
        si.left_fixed + ew <= x < tw
    }
    &&& if ri == 0 {
        0 <= y < si.top_fixed
    } else if ri == 1 {
        si.top_fixed <= y < si.top_fixed + eh
    } else {
        si.top_fixed + eh <= y < th
    }
}

/// The nine destination regions tile the output exactly: a pixel of the
/// output lies in region `(ci, ri)` precisely when `ci` and `ri` are its two
/// bands - so it lies in exactly one region, with no gap and no overlap.
/// This holds for any admissible target size, including degenerate stretch
/// spans on either axis.
pub proof fn lemma_nine_regions_tile(
    si: StretchInfo,
    cw: int,
    ch: int,
    tw: int,
    th: int,
    x: int,
    y: int,
    ci: int,
    ri: int,
)
    requires
        si.wf(cw, ch),
        tw >= si.spec_min_width(),
        th >= si.spec_min_height(),
        0 <= x < tw,
        0 <= y < th,
        0 <= ci < 3,
        0 <= ri < 3,
    ensures
        dest_rect_contains(si, cw, ch, tw, th, ci, ri, x, y) <==> (ci == axis_band(
            si.stretch_left as int,
            si.stretch_right as int,
            cw,
            tw,
            x,
        ) && ri == axis_band(si.stretch_top as int, si.stretch_bottom as int, ch, th, y)),
{
}

/// With no stretch markers on an axis the parse leaves the degenerate span at
/// the end of the content; then the minimum size on that axis is the full
/// content extent, and a target equal to it puts every index in a fixed band
/// and maps it to itself.
pub proof fn lemma_no_stretch_axis_copy(sl: int, sr: int, c: int, t: int, x: int)
    requires
        0 <= c,
        sl == c,
        sr == c,
        t == c,
        0 <= x < t,
    ensures
        sl + (c - sr) == c,
        axis_drawn(sl, sr, c, t, x),
        axis_src(sl, sr, c, t, x) == x,
{
}

/// With no stretch markers on either axis and a target of exactly the content
/// size, the composition is a pure unscaled copy of the content.
pub proof fn lemma_degenerate_scale_is_copy(content: Bitmap, si: StretchInfo, x: int, y: int)
    requires
        content.wf(),
        si.wf(content.width as int, content.height as int),
        si.stretch_left == content.width,
        si.stretch_right == content.width,
        si.stretch_top == content.height,
        si.stretch_bottom == content.height,
        0 <= x < content.width,
        0 <= y < content.height,
    ensures
        si.spec_min_width() == content.width,
        si.spec_min_height() == content.height,
        scaled_pixel(content, si, content.width as int, content.height as int, x, y)
            == content.spec_pixel(x, y),
{
    lemma_no_stretch_axis_copy(
        si.stretch_left as int,
        si.stretch_right as int,
        content.width as int,
        content.width as int,
        x,
    );
    lemma_no_stretch_axis_copy(
        si.stretch_top as int,
        si.stretch_bottom as int,
        content.height as int,
        content.height as int,
        y,
    );
}

/// Where an axis draws, the sampled source index lies inside the content.
pub proof fn lemma_axis_src_in_range(sl: int, sr: int, c: int, t: int, x: int)
    requires
        0 <= sl <= sr <= c,
        t >= sl + (c - sr),
        0 <= x < t,
        axis_drawn(sl, sr, c, t, x),
    ensures
        0 <= axis_src(sl, sr, c, t, x) < c,
{
    let e = axis_extra(sl, sr, c, t);
    if sl <= x < sl + e {
        lemma_nn_range(x - sl, e, sr - sl);
    }
}

/// The pixel the composition puts at `(x, y)` when the content is the
/// interior of the bordered source image `img`.
pub open spec fn scaled_source_pixel(
    img: Bitmap,
    si: StretchInfo,
    tw: int,
    th: int,
    x: int,
    y: int,
) -> Seq<u8> {
    let cw = img.width - 2;
    let ch = img.height - 2;
    if axis_drawn(si.stretch_left as int, si.stretch_right as int, cw, tw, x) && axis_drawn(
        si.stretch_top as int,
        si.stretch_bottom as int,
        ch,
        th,
        y,
    ) {
        img.spec_pixel(
            axis_src(si.stretch_left as int, si.stretch_right as int, cw, tw, x) + 1,
            axis_src(si.stretch_top as int, si.stretch_bottom as int, ch, th, y) + 1,
        )
    } else {
        clear_pixel()
    }
}

/// The row-major RGBA byte buffer of the composed output: four bytes per
/// pixel, each pixel given by `scaled_source_pixel`.
pub open spec fn scaled_rgba_data(img: Bitmap, si: StretchInfo, tw: int, th: int) -> Seq<u8> {
    Seq::new(
        (4 * tw * th) as nat,
        |i: int| scaled_source_pixel(img, si, tw, th, (i / 4) % tw, (i / 4) / tw)[i % 4],
    )
}

/// The composed pixel depends only on the source's dimensions and bytes.
pub proof fn lemma_scaled_source_pixel_same(
    a: Bitmap,
    b: Bitmap,
    si: StretchInfo,
    tw: int,
    th: int,
    x: int,
    y: int,
)
    requires
        a.width == b.width,
        a.height == b.height,
        a.data@ == b.data@,
    ensures
        scaled_source_pixel(a, si, tw, th, x, y) == scaled_source_pixel(b, si, tw, th, x, y),
{
    let cw = a.width - 2;
    let ch = a.height - 2;
    let sx = axis_src(si.stretch_left as int, si.stretch_right as int, cw, tw, x);
    let sy = axis_src(si.stretch_top as int, si.stretch_bottom as int, ch, th, y);
    assert(a.spec_pixel(sx + 1, sy + 1) == b.spec_pixel(sx + 1, sy + 1));
}

/// The composed byte buffer depends only on the source's dimensions and
/// bytes.
pub proof fn lemma_scaled_rgba_data_same(a: Bitmap, b: Bitmap, si: StretchInfo, tw: int, th: int)
    requires
        a.width == b.width,
        a.height == b.height,
        a.data@ == b.data@,
    ensures
        scaled_rgba_data(a, si, tw, th) == scaled_rgba_data(b, si, tw, th),
{
    assert forall|i: int|
        0 <= i < 4 * tw * th implies #[trigger] scaled_rgba_data(a, si, tw, th)[i]
        == scaled_rgba_data(b, si, tw, th)[i] by {
        lemma_scaled_source_pixel_same(a, b, si, tw, th, (i / 4) % tw, (i / 4) / tw);
    }
    assert(scaled_rgba_data(a, si, tw, th) =~= scaled_rgba_data(b, si, tw, th));
}

/// A well-formed bitmap of the target size whose every pixel is the composed
/// pixel carries exactly the composed byte buffer.
pub proof fn lemma_scaled_data_of_bitmap(out: Bitmap, img: Bitmap, si: StretchInfo, tw: int, th: int)
    requires
        out.wf(),
        out.width == tw,
        out.height == th,
        tw > 0,
        th > 0,
        forall|x: int, y: int|
            0 <= x < tw && 0 <= y < th ==> #[trigger] out.spec_pixel(x, y) == scaled_source_pixel(
                img,
                si,
                tw,
                th,
                x,
                y,
            ),
    ensures
        out.data@ == scaled_rgba_data(img, si, tw, th),
{
    assert forall|i: int|
        0 <= i < out.data@.len() implies out.data@[i] == #[trigger] scaled_rgba_data(
        img,
        si,
        tw,
        th,
    )[i] by {
        let p = i / 4;
        let k = i % 4;
        assert(i == 4 * p + k && 0 <= k < 4 && 0 <= p) by (nonlinear_arith)
            requires
                0 <= i,
                p == i / 4,
                k == i % 4,
        ;
        assert(p < tw * th) by (nonlinear_arith)
            requires
                0 <= i < 4 * tw * th,
                p == i / 4,
        ;
        let x = p % tw;
        let y = p / tw;
        assert(p == y * tw + x && 0 <= x < tw && 0 <= y) by (nonlinear_arith)
            requires
                0 <= p,
                0 < tw,
                x == p % tw,
                y == p / tw,
        ;
        assert(y < th) by (nonlinear_arith)
            requires
                0 <= p < tw * th,
                0 < tw,
                y == p / tw,
        ;
        assert(out.spec_pixel(x, y) == scaled_source_pixel(img, si, tw, th, x, y));
        assert(0 <= 4 * (y * tw + x) && 4 * (y * tw + x) + 4 <= 4 * tw * th) by (nonlinear_arith)
            requires
                0 <= x < tw,
                0 <= y < th,
        ;
        assert(out.spec_pixel(x, y)[k] == out.data@[4 * (y * tw + x) + k]);
    }
    assert(out.data@ =~= scaled_rgba_data(img, si, tw, th));
}

} // verus!
