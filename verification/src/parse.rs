use vstd::prelude::*;
use crate::bitmap::Bitmap;

verus! {

/// Whether border pixel `i` of the scanned line is a marker. The line is the
/// row `coord` when `horizontal` is true, the column `coord` otherwise.
pub open spec fn line_marker(bm: Bitmap, coord: int, i: int, horizontal: bool) -> bool {
    if horizontal {
        bm.spec_is_marker(i, coord)
    } else {
        bm.spec_is_marker(coord, i)
    }
}

/// Whether the scanned range of the line (corners excluded) holds a marker.
pub open spec fn line_has_marker(bm: Bitmap, coord: int, length: int, horizontal: bool) -> bool {
    exists|i: int| 1 <= i <= length - 2 && #[trigger] line_marker(bm, coord, i, horizontal)
}

/// `[lo, hi)` is the content-space span from the first to the last marker of
/// the line: border pixel `lo + 1` is the first marker, border pixel `hi`
/// the last.
pub open spec fn is_marker_span(
    bm: Bitmap,
    coord: int,
    length: int,
    horizontal: bool,
    lo: int,
    hi: int,
) -> bool {
    &&& 0 <= lo < hi <= length - 2
    &&& line_marker(bm, coord, lo + 1, horizontal)
    &&& line_marker(bm, coord, hi, horizontal)
    &&& forall|i: int| 1 <= i < lo + 1 ==> !#[trigger] line_marker(bm, coord, i, horizontal)
    &&& forall|i: int| hi < i <= length - 2 ==> !#[trigger] line_marker(bm, coord, i, horizontal)
}

/// Scans border pixels `1 .. length - 2` of one line and reports the span
/// from the first to the last marker, in content coordinates, or `None` when
/// the line has no marker.
fn scan_marker_span(bm: &Bitmap, coord: usize, length: usize, horizontal: bool) -> (r: Option<
    (usize, usize),
>)
    requires
        bm.wf(),
        length >= 2,
        horizontal ==> coord < bm.height && length == bm.width,
        !horizontal ==> coord < bm.width && length == bm.height,
    ensures
        r matches Some(p) ==> is_marker_span(
            *bm,
            coord as int,
            length as int,
            horizontal,
            p.0 as int,
            p.1 as int,
        ),
        r is None ==> !line_has_marker(*bm, coord as int, length as int, horizontal),
{
    let mut first: Option<usize> = None;
    let mut last: usize = 0;
    let mut i: usize = 1;
    while i < length - 1
        invariant
            bm.wf(),
            length >= 2,
            horizontal ==> coord < bm.height && length == bm.width,
            !horizontal ==> coord < bm.width && length == bm.height,
            1 <= i <= length - 1,
            first is None ==> forall|j: int|
                1 <= j < i ==> !#[trigger] line_marker(*bm, coord as int, j, horizontal),
            first matches Some(f) ==> {
                &&& 1 <= f < i
                &&& f <= last < i
                &&& line_marker(*bm, coord as int, f as int, horizontal)
                &&& line_marker(*bm, coord as int, last as int, horizontal)
                &&& forall|j: int|
                    1 <= j < f ==> !#[trigger] line_marker(*bm, coord as int, j, horizontal)
                &&& forall|j: int|
                    last < j < i ==> !#[trigger] line_marker(*bm, coord as int, j, horizontal)
            },
        decreases length - i,
    {
        let m = if horizontal {
            bm.is_marker(i, coord)
        } else {
            bm.is_marker(coord, i)
        };
        if m {
            if first.is_none() {
                first = Some(i);
            }
            last = i;
        }
        i += 1;
    }
    match first {
        Some(f) => Some((f - 1, last)),
        None => None,
    }
}

/// The stretch parse of one axis: the marker span when the line has markers,
/// and the degenerate span at the end of the content otherwise (nothing
/// stretches).
pub open spec fn stretch_axis_parsed(
    bm: Bitmap,
    coord: int,
    length: int,
    horizontal: bool,
    lo: int,
    hi: int,
) -> bool {
    if line_has_marker(bm, coord, length, horizontal) {
        is_marker_span(bm, coord, length, horizontal, lo, hi)
    } else {
        lo == length - 2 && hi == length - 2
    }
}

/// The content-padding parse of one axis: the marker span when the line has
/// markers, and the whole content extent otherwise (no padding restriction).
pub open spec fn content_axis_parsed(
    bm: Bitmap,
    coord: int,
    length: int,
    horizontal: bool,
    lo: int,
    hi: int,
) -> bool {
    if line_has_marker(bm, coord, length, horizontal) {
        is_marker_span(bm, coord, length, horizontal, lo, hi)
    } else {
        lo == 0 && hi == length - 2
    }
}

/// Scans one border line for stretch markers; without a marker the whole
/// content of that axis is fixed.
pub fn parse_stretch_line(bm: &Bitmap, coord: usize, length: usize, horizontal: bool) -> (r: (
    usize,
    usize,
))
    requires
        bm.wf(),
        length >= 3,
        horizontal ==> coord < bm.height && length == bm.width,
        !horizontal ==> coord < bm.width && length == bm.height,
    ensures
        stretch_axis_parsed(
            *bm,
            coord as int,
            length as int,
            horizontal,
            r.0 as int,
            r.1 as int,
        ),
        r.0 <= r.1 <= length - 2,
{
    match scan_marker_span(bm, coord, length, horizontal) {
        Some(p) => p,
        None => (length - 2, length - 2),
    }
}

/// Scans one border line for content-padding markers; without a marker the
/// whole content of that axis is the content area.
pub fn parse_content_line(bm: &Bitmap, coord: usize, length: usize, horizontal: bool) -> (r: (
    usize,
    usize,
))
    requires
        bm.wf(),
        length >= 3,
        horizontal ==> coord < bm.height && length == bm.width,
        !horizontal ==> coord < bm.width && length == bm.height,
    ensures
        content_axis_parsed(
            *bm,
            coord as int,
            length as int,
            horizontal,
            r.0 as int,
            r.1 as int,
        ),
        r.0 <= r.1 <= length - 2,
{
    match scan_marker_span(bm, coord, length, horizontal) {
        Some(p) => p,
        None => (0, length - 2),
    }
}

/// How the content rectangle of a nine-patch splits on each axis: the sizes
/// of the fixed regions and the half-open stretch span, all in content
/// coordinates.
pub struct StretchInfo {
    pub left_fixed: usize,
    pub right_fixed: usize,
    pub top_fixed: usize,
    pub bottom_fixed: usize,
    pub stretch_left: usize,
    pub stretch_right: usize,
    pub stretch_top: usize,
    pub stretch_bottom: usize,
}

impl StretchInfo {
    /// Consistency with a content rectangle of `cw` by `ch` pixels: the
    /// stretch spans lie inside it and the fixed sizes are what it leaves.
    pub open spec fn wf(self, cw: int, ch: int) -> bool {
        &&& 0 <= self.stretch_left <= self.stretch_right <= cw
        &&& 0 <= self.stretch_top <= self.stretch_bottom <= ch
        &&& self.left_fixed == self.stretch_left
        &&& self.right_fixed == cw - self.stretch_right
        &&& self.top_fixed == self.stretch_top
        &&& self.bottom_fixed == ch - self.stretch_bottom
    }

    /// The smallest width the fixed regions allow.
    pub open spec fn spec_min_width(self) -> int {
        self.left_fixed + self.right_fixed
    }

    /// The smallest height the fixed regions allow.
    pub open spec fn spec_min_height(self) -> int {
        self.top_fixed + self.bottom_fixed
    }
}

/// `si` is the stretch parse of `bm`: its horizontal span comes from the top
/// row, its vertical span from the left column, and its fixed sizes from the
/// content extent that the spans leave.
pub open spec fn stretch_parsed(bm: Bitmap, si: StretchInfo) -> bool {
    &&& si.wf(bm.width - 2, bm.height - 2)
    &&& stretch_axis_parsed(
        bm,
        0,
        bm.width as int,
        true,
        si.stretch_left as int,
        si.stretch_right as int,
    )
    &&& stretch_axis_parsed(
        bm,
        0,
        bm.height as int,
        false,
        si.stretch_top as int,
        si.stretch_bottom as int,
    )
}

/// Reads the stretch markers of the top row and the left column.
pub fn parse_nine_patch_borders(img: &Bitmap) -> (r: StretchInfo)
    requires
        img.wf(),
        img.width >= 3,
        img.height >= 3,
    ensures
        stretch_parsed(*img, r),
{
    let (stretch_left, stretch_right) = parse_stretch_line(img, 0, img.width, true);
    let (stretch_top, stretch_bottom) = parse_stretch_line(img, 0, img.height, false);
    let content_width = img.width - 2;
    let content_height = img.height - 2;
    StretchInfo {
        left_fixed: stretch_left,
        right_fixed: content_width - stretch_right,
        top_fixed: stretch_top,
        bottom_fixed: content_height - stretch_bottom,
        stretch_left,
        stretch_right,
        stretch_top,
        stretch_bottom,
    }
}

/// The caller-visible safe content area, as the distance from each edge of
/// the content rectangle to the inner content rectangle.
pub struct ContentInfo {
    pub content_left: usize,
    pub content_top: usize,
    pub content_right: usize,
    pub content_bottom: usize,
}

/// `ci` is the content-padding parse of `bm`: its horizontal span comes from
/// the bottom row, its vertical span from the right column, and the right and
/// bottom distances are measured from the far edges inward.
pub open spec fn content_parsed(bm: Bitmap, ci: ContentInfo) -> bool {
    &&& ci.content_right <= bm.width - 2
    &&& ci.content_bottom <= bm.height - 2
    &&& ci.content_left + ci.content_right <= bm.width - 2
    &&& ci.content_top + ci.content_bottom <= bm.height - 2
    &&& content_axis_parsed(
        bm,
        bm.height - 1,
        bm.width as int,
        true,
        ci.content_left as int,
        (bm.width - 2) - ci.content_right,
    )
    &&& content_axis_parsed(
        bm,
        bm.width - 1,
        bm.height as int,
        false,
        ci.content_top as int,
        (bm.height - 2) - ci.content_bottom,
    )
}

/// Reads the content-padding markers of the bottom row and the right column.
pub fn parse_content_borders(img: &Bitmap) -> (r: ContentInfo)
    requires
        img.wf(),
        img.width >= 3,
        img.height >= 3,
    ensures
        content_parsed(*img, r),
{
    let (content_left, raw_right) = parse_content_line(img, img.height - 1, img.width, true);
    let (content_top, raw_bottom) = parse_content_line(img, img.width - 1, img.height, false);
    let content_width = img.width - 2;
    let content_height = img.height - 2;
    ContentInfo {
        content_left,
        content_top,
        content_right: content_width - raw_right,
        content_bottom: content_height - raw_bottom,
    }
}

/// Two marker spans of the same line agree: the first and last marker are
/// unique.
proof fn lemma_span_unique(
    bm: Bitmap,
    coord: int,
    length: int,
    horizontal: bool,
    lo1: int,
    hi1: int,
    lo2: int,
    hi2: int,
)
    requires
        is_marker_span(bm, coord, length, horizontal, lo1, hi1),
        is_marker_span(bm, coord, length, horizontal, lo2, hi2),
    ensures
        lo1 == lo2,
        hi1 == hi2,
{
    if lo1 < lo2 {
        assert(!line_marker(bm, coord, lo1 + 1, horizontal));
    }
    if lo2 < lo1 {
        assert(!line_marker(bm, coord, lo2 + 1, horizontal));
    }
    if hi1 < hi2 {
        assert(!line_marker(bm, coord, hi2, horizontal));
    }
    if hi2 < hi1 {
        assert(!line_marker(bm, coord, hi1, horizontal));
    }
}

/// The stretch parse of an image is unique: any two results agree in every
/// field.
pub proof fn lemma_stretch_parse_unique(bm: Bitmap, a: StretchInfo, b: StretchInfo)
    requires
        stretch_parsed(bm, a),
        stretch_parsed(bm, b),
    ensures
        a == b,
{
    if line_has_marker(bm, 0, bm.width as int, true) {
        lemma_span_unique(
            bm,
            0,
            bm.width as int,
            true,
            a.stretch_left as int,
            a.stretch_right as int,
            b.stretch_left as int,
            b.stretch_right as int,
        );
    }
    if line_has_marker(bm, 0, bm.height as int, false) {
        lemma_span_unique(
            bm,
            0,
            bm.height as int,
            false,
            a.stretch_top as int,
            a.stretch_bottom as int,
            b.stretch_top as int,
            b.stretch_bottom as int,
        );
    }
}

/// The content-padding parse of an image is unique: any two results agree in
/// every field.
pub proof fn lemma_content_parse_unique(bm: Bitmap, a: ContentInfo, b: ContentInfo)
    requires
        content_parsed(bm, a),
        content_parsed(bm, b),
    ensures
        a == b,
{
    if line_has_marker(bm, bm.height - 1, bm.width as int, true) {
        lemma_span_unique(
            bm,
            bm.height - 1,
            bm.width as int,
            true,
            a.content_left as int,
            (bm.width - 2) - a.content_right,
            b.content_left as int,
            (bm.width - 2) - b.content_right,
        );
    }
    if line_has_marker(bm, bm.width - 1, bm.height as int, false) {
        lemma_span_unique(
            bm,
            bm.width - 1,
            bm.height as int,
            false,
            a.content_top as int,
            (bm.height - 2) - a.content_bottom,
            b.content_top as int,
            (bm.height - 2) - b.content_bottom,
        );
    }
}

/// The axis parses depend only on the line's pixel bytes: two bitmaps that
/// agree on dimensions and buffer satisfy them for the same spans.
proof fn lemma_axis_preds_same(
    a: Bitmap,
    b: Bitmap,
    coord: int,
    length: int,
    horizontal: bool,
    lo: int,
    hi: int,
)
    requires
        a.width == b.width,
        a.height == b.height,
        a.data@ == b.data@,
    ensures
        stretch_axis_parsed(a, coord, length, horizontal, lo, hi) == stretch_axis_parsed(
            b,
            coord,
            length,
            horizontal,
            lo,
            hi,
        ),
        content_axis_parsed(a, coord, length, horizontal, lo, hi) == content_axis_parsed(
            b,
            coord,
            length,
            horizontal,
            lo,
            hi,
        ),
{
    assert forall|i: int|
        #[trigger] line_marker(a, coord, i, horizontal) == line_marker(
            b,
            coord,
            i,
            horizontal,
        ) by {
        assert(a.spec_pixel(i, coord) == b.spec_pixel(i, coord));
        assert(a.spec_pixel(coord, i) == b.spec_pixel(coord, i));
    }
    assert(line_has_marker(a, coord, length, horizontal) == line_has_marker(
        b,
        coord,
        length,
        horizontal,
    )) by {
        if line_has_marker(a, coord, length, horizontal) {
            let i = choose|i: int|
                1 <= i <= length - 2 && #[trigger] line_marker(a, coord, i, horizontal);
            assert(line_marker(b, coord, i, horizontal));
        }
        if line_has_marker(b, coord, length, horizontal) {
            let i = choose|i: int|
                1 <= i <= length - 2 && #[trigger] line_marker(b, coord, i, horizontal);
            assert(line_marker(a, coord, i, horizontal));
        }
    }
    assert(is_marker_span(a, coord, length, horizontal, lo, hi) == is_marker_span(
        b,
        coord,
        length,
        horizontal,
        lo,
        hi,
    )) by {
        if is_marker_span(a, coord, length, horizontal, lo, hi) {
            assert forall|i: int| 1 <= i < lo + 1 implies !#[trigger] line_marker(
                b,
                coord,
                i,
                horizontal,
            ) by {
                assert(!line_marker(a, coord, i, horizontal));
            }
            assert forall|i: int| hi < i <= length - 2 implies !#[trigger] line_marker(
                b,
                coord,
                i,
                horizontal,
            ) by {
                assert(!line_marker(a, coord, i, horizontal));
            }
            assert(is_marker_span(b, coord, length, horizontal, lo, hi));
        }
        if is_marker_span(b, coord, length, horizontal, lo, hi) {
            assert forall|i: int| 1 <= i < lo + 1 implies !#[trigger] line_marker(
                a,
                coord,
                i,
                horizontal,
            ) by {
                assert(!line_marker(b, coord, i, horizontal));
            }
            assert forall|i: int| hi < i <= length - 2 implies !#[trigger] line_marker(
                a,
                coord,
                i,
                horizontal,
            ) by {
                assert(!line_marker(b, coord, i, horizontal));
            }
            assert(is_marker_span(a, coord, length, horizontal, lo, hi));
        }
    }
}

/// The border parses depend only on the image's dimensions and pixel bytes:
/// two bitmaps that agree on them have exactly the same parses.
pub proof fn lemma_parse_same_grid(a: Bitmap, b: Bitmap)
    requires
        a.width == b.width,
        a.height == b.height,
        a.data@ == b.data@,
    ensures
        forall|si: StretchInfo| #[trigger] stretch_parsed(a, si) == stretch_parsed(b, si),
        forall|ci: ContentInfo| #[trigger] content_parsed(a, ci) == content_parsed(b, ci),
{
    assert forall|si: StretchInfo| #[trigger] stretch_parsed(a, si) == stretch_parsed(b, si) by {
        lemma_axis_preds_same(
            a,
            b,
            0,
            a.width as int,
            true,
            si.stretch_left as int,
            si.stretch_right as int,
        );
        lemma_axis_preds_same(
            a,
            b,
            0,
            a.height as int,
            false,
            si.stretch_top as int,
            si.stretch_bottom as int,
        );
    }
    assert forall|ci: ContentInfo| #[trigger] content_parsed(a, ci) == content_parsed(b, ci) by {
        lemma_axis_preds_same(
            a,
            b,
            a.height - 1,
            a.width as int,
            true,
            ci.content_left as int,
            (a.width - 2) - ci.content_right,
        );
        lemma_axis_preds_same(
            a,
            b,
            a.width - 1,
            a.height as int,
            false,
            ci.content_top as int,
            (a.height - 2) - ci.content_bottom,
        );
    }
}

} // verus!
