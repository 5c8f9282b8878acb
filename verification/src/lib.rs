use vstd::prelude::*;

pub mod bitmap;
pub mod bytes;
pub mod codec;
pub mod parse;
pub mod scale;

use crate::bitmap::{Bitmap, extract_content};
use crate::bytes::{le32, le32_bytes, push_le32, u32_from_le};
use crate::codec::{decode_rgba, encode_png, png_bytes, rgba_decoded};
use crate::parse::{
    ContentInfo,
    StretchInfo,
    content_parsed,
    lemma_content_parse_unique,
    lemma_parse_same_grid,
    lemma_stretch_parse_unique,
    parse_content_borders,
    parse_nine_patch_borders,
    stretch_parsed,
};
use crate::scale::{
    lemma_axis_src_in_range,
    lemma_scaled_data_of_bitmap,
    lemma_scaled_rgba_data_same,
    scale_nine_patch,
    scaled_pixel,
    scaled_rgba_data,
    scaled_source_pixel,
};

verus! {

/// The ways a nine-patch operation can fail: the decoded image is unusable,
/// the requested size is below the minimum the fixed regions allow, or the
/// result could not be re-encoded.
#[derive(Debug, Clone, Copy, PartialEq, Eq, Structural)]
pub enum NinePatchError {
    InvalidImage,
    TargetTooSmall,
    InvalidFormat,
}

/// Scales the decoded nine-patch `img` to `target_width` by `target_height`:
/// parses the stretch markers of the border, strips it, and composes the
/// nine-region output. The image must be at least three pixels on each side,
/// and the target at least the minimum that the fixed regions demand.
pub fn nine_patch_from_bitmap(img: &Bitmap, target_width: usize, target_height: usize) -> (r:
    Result<Bitmap, NinePatchError>)
    requires
        img.wf(),
        target_width <= u32::MAX,
        target_height <= u32::MAX,
        4 * target_width * target_height <= usize::MAX,
    ensures
        (r == Err::<Bitmap, NinePatchError>(NinePatchError::InvalidImage)) <==> (img.width < 3
            || img.height < 3),
        img.width >= 3 && img.height >= 3 ==> exists|si: StretchInfo|
            #[trigger] stretch_parsed(*img, si),
        forall|si: StretchInfo|
            img.width >= 3 && img.height >= 3 && #[trigger] stretch_parsed(*img, si) ==> {
                if target_width < si.spec_min_width() || target_height < si.spec_min_height() {
                    r == Err::<Bitmap, NinePatchError>(NinePatchError::TargetTooSmall)
                } else {
                    {
                        &&& r matches Ok(out)
                        &&& out.wf()
                        &&& out.width == target_width
                        &&& out.height == target_height
                        &&& forall|x: int, y: int|
                            0 <= x < target_width && 0 <= y < target_height
                                ==> #[trigger] out.spec_pixel(x, y) == scaled_source_pixel(
                                *img,
                                si,
                                target_width as int,
                                target_height as int,
                                x,
                                y,
                            )
                    }
                }
            },
{
    if img.width < 3 || img.height < 3 {
        return Err(NinePatchError::InvalidImage);
    }
    let si = parse_nine_patch_borders(img);
    let min_width = si.left_fixed + si.right_fixed;
    let min_height = si.top_fixed + si.bottom_fixed;
    if target_width < min_width || target_height < min_height {
        proof {
            assert forall|si2: StretchInfo|
                img.width >= 3 && img.height >= 3 && #[trigger] stretch_parsed(*img, si2)
                    implies target_width < si2.spec_min_width() || target_height
                < si2.spec_min_height() by {
                lemma_stretch_parse_unique(*img, si, si2);
            }
        }
        return Err(NinePatchError::TargetTooSmall);
    }
    let content = extract_content(img);
    let out = scale_nine_patch(&content, &si, target_width, target_height);
    proof {
        let tw = target_width as int;
        let th = target_height as int;
        let cw = img.width - 2;
        let ch = img.height - 2;
        assert forall|x: int, y: int|
            0 <= x < target_width && 0 <= y < target_height implies #[trigger] out.spec_pixel(x, y)
            == scaled_source_pixel(*img, si, tw, th, x, y) by {
            assert(out.spec_pixel(x, y) == scaled_pixel(content, si, tw, th, x, y));
            if crate::scale::axis_drawn(
                si.stretch_left as int,
                si.stretch_right as int,
                cw,
                tw,
                x,
            ) && crate::scale::axis_drawn(
                si.stretch_top as int,
                si.stretch_bottom as int,
                ch,
                th,
                y,
            ) {
                lemma_axis_src_in_range(
                    si.stretch_left as int,
                    si.stretch_right as int,
                    cw,
                    tw,
                    x,
                );
                lemma_axis_src_in_range(
                    si.stretch_top as int,
                    si.stretch_bottom as int,
                    ch,
                    th,
                    y,
                );
            }
        }
        assert forall|si2: StretchInfo|
            img.width >= 3 && img.height >= 3 && #[trigger] stretch_parsed(*img, si2)
                implies !(target_width < si2.spec_min_width() || target_height
            < si2.spec_min_height()) && forall|x: int, y: int|
            0 <= x < target_width && 0 <= y < target_height ==> #[trigger] out.spec_pixel(x, y)
                == scaled_source_pixel(*img, si2, tw, th, x, y) by {
            lemma_stretch_parse_unique(*img, si, si2);
        }
    }
    Ok(out)
}

/// `img` is the image that the byte input decodes to.
pub open spec fn decodes_to(bytes: Seq<u8>, img: Bitmap) -> bool {
    rgba_decoded(bytes) == Some((img.width as int, img.height as int, img.data@))
}

/// Decodes a nine-patch image, scales it to the requested size and returns
/// the re-encoded bytes, or reports why that is impossible. The image is
/// judged first: a failed decode or an image smaller than 3x3 is
/// `InvalidImage`, whatever the target. Only then is the target judged: one
/// below the parsed minimum, or too large for this machine's addresses, is
/// `TargetTooSmall`, and a zero-sized one cannot be re-encoded and is
/// `InvalidFormat`. On success the bytes are the PNG encoding of the
/// composed output.
pub fn nine_patch_result(image_bytes: &[u8], target_width: u32, target_height: u32) -> (r: Result<
    Vec<u8>,
    NinePatchError,
>)
    ensures
        rgba_decoded(image_bytes@) is None ==> (r == Err::<
            Vec<u8>,
            NinePatchError,
        >(NinePatchError::InvalidImage)),
        (rgba_decoded(image_bytes@) matches Some(t) && (t.0 < 3 || t.1 < 3)) ==> (r == Err::<
            Vec<u8>,
            NinePatchError,
        >(NinePatchError::InvalidImage)),
        (rgba_decoded(image_bytes@) matches Some(t) && t.0 >= 3 && t.1 >= 3) && 4 * target_width
            * target_height > usize::MAX ==> (r == Err::<
            Vec<u8>,
            NinePatchError,
        >(NinePatchError::TargetTooSmall)),
        4 * target_width * target_height <= usize::MAX && (rgba_decoded(
            image_bytes@,
        ) matches Some(t) && t.0 >= 3 && t.1 >= 3) ==> exists|img: Bitmap, si: StretchInfo|
            #[trigger] decodes_to(image_bytes@, img) && #[trigger] stretch_parsed(img, si),
        forall|img: Bitmap, si: StretchInfo|
            4 * target_width * target_height <= usize::MAX && #[trigger] decodes_to(
                image_bytes@,
                img,
            ) && img.width >= 3 && img.height >= 3 && #[trigger] stretch_parsed(img, si) ==> (
            if target_width < si.spec_min_width() || target_height < si.spec_min_height() {
                r == Err::<Vec<u8>, NinePatchError>(NinePatchError::TargetTooSmall)
            } else if target_width == 0 || target_height == 0 {
                r == Err::<Vec<u8>, NinePatchError>(NinePatchError::InvalidFormat)
            } else {
                {
                    &&& r matches Ok(bytes)
                    &&& bytes@ == png_bytes(
                        target_width as int,
                        target_height as int,
                        scaled_rgba_data(img, si, target_width as int, target_height as int),
                    )
                    &&& bytes@.len() > 0
                }
            }),
{
    let tw = target_width as usize;
    let th = target_height as usize;
    match decode_rgba(image_bytes) {
        Some((w, h, data)) => {
            match Bitmap::from_raw(w as usize, h as usize, data) {
                Some(img0) => {
                    proof {
                        assert(decodes_to(image_bytes@, img0));
                    }
                    if img0.width < 3 || img0.height < 3 {
                        return Err(NinePatchError::InvalidImage);
                    }
                    if th != 0 && tw > usize::MAX / 4 / th {
                        proof {
                            assert(4 * tw * th > usize::MAX) by (nonlinear_arith)
                                requires
                                    th != 0,
                                    tw > usize::MAX / 4 / th,
                            ;
                        }
                        return Err(NinePatchError::TargetTooSmall);
                    }
                    proof {
                        assert(4 * tw * th <= usize::MAX) by (nonlinear_arith)
                            requires
                                th == 0 || (th != 0 && tw <= usize::MAX / 4 / th),
                                tw >= 0,
                                th >= 0,
                        ;
                    }
                    match nine_patch_from_bitmap(&img0, tw, th) {
                        Ok(out) => {
                            proof {
                                let si0 = choose|si: StretchInfo| stretch_parsed(img0, si);
                                assert(stretch_parsed(img0, si0));
                                assert(out.width == tw && out.height == th && out.wf());
                            }
                            let ghost out_g = out;
                            let bytes = encode_png(out.width as u32, out.height as u32, out.data);
                            match bytes {
                                Ok(b) => {
                                    proof {
                                        assert forall|img: Bitmap, si: StretchInfo|
                                            4 * target_width * target_height <= usize::MAX
                                                && #[trigger] decodes_to(image_bytes@, img)
                                                && img.width >= 3 && img.height >= 3
                                                && #[trigger] stretch_parsed(img, si) implies b@
                                            == png_bytes(
                                            target_width as int,
                                            target_height as int,
                                            scaled_rgba_data(
                                                img,
                                                si,
                                                target_width as int,
                                                target_height as int,
                                            ),
                                        ) && !(target_width < si.spec_min_width() || target_height
                                            < si.spec_min_height()) by {
                                            lemma_parse_same_grid(img, img0);
                                            assert(stretch_parsed(img0, si));
                                            lemma_scaled_data_of_bitmap(
                                                out_g,
                                                img0,
                                                si,
                                                tw as int,
                                                th as int,
                                            );
                                            lemma_scaled_rgba_data_same(
                                                img0,
                                                img,
                                                si,
                                                tw as int,
                                                th as int,
                                            );
                                        }
                                    }
                                    Ok(b)
                                },
                                Err(e) => {
                                    proof {
                                        assert forall|img: Bitmap, si: StretchInfo|
                                            4 * target_width * target_height <= usize::MAX
                                                && #[trigger] decodes_to(image_bytes@, img)
                                                && img.width >= 3 && img.height >= 3
                                                && #[trigger] stretch_parsed(img, si) implies (
                                        target_width == 0 || target_height == 0) && !(target_width
                                            < si.spec_min_width() || target_height
                                            < si.spec_min_height()) by {
                                            lemma_parse_same_grid(img, img0);
                                            assert(stretch_parsed(img0, si));
                                        }
                                    }
                                    Err(e)
                                },
                            }
                        },
                        Err(e) => {
                            proof {
                                if img0.width >= 3 && img0.height >= 3 {
                                    let si0 = choose|si: StretchInfo| stretch_parsed(img0, si);
                                    assert(stretch_parsed(img0, si0));
                                }
                                assert forall|img: Bitmap, si: StretchInfo|
                                    4 * target_width * target_height <= usize::MAX
                                        && #[trigger] decodes_to(image_bytes@, img) && img.width
                                        >= 3 && img.height >= 3 && #[trigger] stretch_parsed(
                                        img,
                                        si,
                                    ) implies e == NinePatchError::TargetTooSmall && (target_width
                                    < si.spec_min_width() || target_height
                                    < si.spec_min_height()) by {
                                    lemma_parse_same_grid(img, img0);
                                    assert(stretch_parsed(img0, si));
                                }
                            }
                            Err(e)
                        },
                    }
                },
                None => {
                    proof {
                        assert(false);
                    }
                    Err(NinePatchError::InvalidImage)
                },
            }
        },
        None => Err(NinePatchError::InvalidImage),
    }
}

/// Scales a nine-patch image to the size the two little-endian byte
/// quadruples give; any failure - undecodable or too-small image, a target
/// below the minimum or beyond this machine, a zero-sized target - yields the
/// empty byte sequence, and success yields the non-empty PNG encoding of the
/// composed output.
pub fn nine_patch(image_bytes: &[u8], width: &[u8], height: &[u8]) -> (r: Vec<u8>)
    requires
        width@.len() >= 4,
        height@.len() >= 4,
    ensures
        4 * le32(width@) * le32(height@) > usize::MAX ==> r@.len() == 0,
        rgba_decoded(image_bytes@) is None ==> r@.len() == 0,
        (rgba_decoded(image_bytes@) matches Some(t) && (t.0 < 3 || t.1 < 3)) ==> r@.len() == 0,
        4 * le32(width@) * le32(height@) <= usize::MAX && (rgba_decoded(
            image_bytes@,
        ) matches Some(t) && t.0 >= 3 && t.1 >= 3) ==> exists|img: Bitmap, si: StretchInfo|
            #[trigger] decodes_to(image_bytes@, img) && #[trigger] stretch_parsed(img, si),
        forall|img: Bitmap, si: StretchInfo|
            4 * le32(width@) * le32(height@) <= usize::MAX && #[trigger] decodes_to(
                image_bytes@,
                img,
            ) && img.width >= 3 && img.height >= 3 && #[trigger] stretch_parsed(img, si) ==> (if
                le32(width@) < si.spec_min_width() || le32(height@) < si.spec_min_height() || le32(
                width@,
            ) == 0 || le32(height@) == 0 {
                r@.len() == 0
            } else {
                r@ == png_bytes(
                    le32(width@),
                    le32(height@),
                    scaled_rgba_data(img, si, le32(width@), le32(height@)),
                ) && r@.len() > 0
            }),
{
    let target_width = u32_from_le(width);
    let target_height = u32_from_le(height);
    match nine_patch_result(image_bytes, target_width, target_height) {
        Ok(out) => out,
        Err(_) => Vec::new(),
    }
}

/// Computes the six content-info values of the decoded image - the four
/// content paddings, then the minimum width and height that the stretch parse
/// allows - and packs them as 24 little-endian bytes.
pub fn content_info_from_bitmap(img: &Bitmap) -> (r: Result<Vec<u8>, NinePatchError>)
    requires
        img.wf(),
    ensures
        (r == Err::<Vec<u8>, NinePatchError>(NinePatchError::InvalidImage)) <==> (img.width < 3
            || img.height < 3),
        r matches Ok(bytes) ==> bytes@.len() == 24,
        img.width >= 3 && img.height >= 3 ==> exists|ci: ContentInfo|
            #[trigger] content_parsed(*img, ci),
        img.width >= 3 && img.height >= 3 ==> exists|si: StretchInfo|
            #[trigger] stretch_parsed(*img, si),
        forall|ci: ContentInfo, si: StretchInfo|
            img.width >= 3 && img.height >= 3 && #[trigger] content_parsed(*img, ci)
                && #[trigger] stretch_parsed(*img, si) ==> {
                &&& r matches Ok(bytes)
                &&& bytes@ == le32_bytes(ci.content_left as u32) + le32_bytes(
                    ci.content_top as u32,
                ) + le32_bytes(ci.content_right as u32) + le32_bytes(ci.content_bottom as u32)
                    + le32_bytes((si.left_fixed + si.right_fixed) as u32) + le32_bytes(
                    (si.top_fixed + si.bottom_fixed) as u32,
                )
            },
{
    if img.width < 3 || img.height < 3 {
        return Err(NinePatchError::InvalidImage);
    }
    let ci = parse_content_borders(img);
    let si = parse_nine_patch_borders(img);
    let min_width = si.left_fixed + si.right_fixed;
    let min_height = si.top_fixed + si.bottom_fixed;
    let mut out: Vec<u8> = Vec::new();
    push_le32(&mut out, ci.content_left as u32);
    push_le32(&mut out, ci.content_top as u32);
    push_le32(&mut out, ci.content_right as u32);
    push_le32(&mut out, ci.content_bottom as u32);
    push_le32(&mut out, min_width as u32);
    push_le32(&mut out, min_height as u32);
    proof {
        assert(out@ =~= le32_bytes(ci.content_left as u32) + le32_bytes(ci.content_top as u32)
            + le32_bytes(ci.content_right as u32) + le32_bytes(ci.content_bottom as u32)
            + le32_bytes(min_width as u32) + le32_bytes(min_height as u32));
        assert forall|ci2: ContentInfo, si2: StretchInfo|
            img.width >= 3 && img.height >= 3 && #[trigger] content_parsed(*img, ci2)
                && #[trigger] stretch_parsed(*img, si2) implies ci2 == ci && si2 == si by {
            lemma_content_parse_unique(*img, ci, ci2);
            lemma_stretch_parse_unique(*img, si, si2);
        }
    }
    Ok(out)
}

/// Decodes a nine-patch image and reads its content paddings and minimum
/// size as 24 little-endian bytes, or reports that the bytes do not decode
/// to an image of at least three pixels a side.
pub fn nine_patch_content_info_result(image_bytes: &[u8]) -> (r: Result<Vec<u8>, NinePatchError>)
    ensures
        rgba_decoded(image_bytes@) is None ==> (r == Err::<
            Vec<u8>,
            NinePatchError,
        >(NinePatchError::InvalidImage)),
        (rgba_decoded(image_bytes@) matches Some(t) && (t.0 < 3 || t.1 < 3)) ==> (r == Err::<
            Vec<u8>,
            NinePatchError,
        >(NinePatchError::InvalidImage)),
        (rgba_decoded(image_bytes@) matches Some(t) && t.0 >= 3 && t.1 >= 3) ==> {
            &&& r matches Ok(bytes)
            &&& bytes@.len() == 24
            &&& exists|img: Bitmap, ci: ContentInfo, si: StretchInfo|
                #[trigger] decodes_to(image_bytes@, img) && #[trigger] content_parsed(img, ci)
                    && #[trigger] stretch_parsed(img, si)
        },
        forall|img: Bitmap, ci: ContentInfo, si: StretchInfo|
            #[trigger] decodes_to(image_bytes@, img) && img.width >= 3 && img.height >= 3
                && #[trigger] content_parsed(img, ci) && #[trigger] stretch_parsed(img, si) ==> {
                &&& r matches Ok(bytes)
                &&& bytes@ == le32_bytes(ci.content_left as u32) + le32_bytes(
                    ci.content_top as u32,
                ) + le32_bytes(ci.content_right as u32) + le32_bytes(ci.content_bottom as u32)
                    + le32_bytes((si.left_fixed + si.right_fixed) as u32) + le32_bytes(
                    (si.top_fixed + si.bottom_fixed) as u32,
                )
            },
{
    match decode_rgba(image_bytes) {
        Some((w, h, data)) => {
            match Bitmap::from_raw(w as usize, h as usize, data) {
                Some(img0) => {
                    proof {
                        assert(decodes_to(image_bytes@, img0));
                    }
                    let r = content_info_from_bitmap(&img0);
                    proof {
                        if img0.width >= 3 && img0.height >= 3 {
                            let ci0 = choose|ci: ContentInfo| content_parsed(img0, ci);
                            let si0 = choose|si: StretchInfo| stretch_parsed(img0, si);
                            assert(content_parsed(img0, ci0) && stretch_parsed(img0, si0));
                        }
                        assert forall|img: Bitmap, ci: ContentInfo, si: StretchInfo|
                            #[trigger] decodes_to(image_bytes@, img) && img.width >= 3 && img.height
                                >= 3 && #[trigger] content_parsed(img, ci)
                                && #[trigger] stretch_parsed(img, si) implies content_parsed(
                            img0,
                            ci,
                        ) && stretch_parsed(img0, si) by {
                            lemma_parse_same_grid(img, img0);
                        }
                    }
                    r
                },
                None => {
                    proof {
                        assert(false);
                    }
                    Err(NinePatchError::InvalidImage)
                },
            }
        },
        None => Err(NinePatchError::InvalidImage),
    }
}

/// Reads the content paddings and minimum size of a nine-patch image as 24
/// little-endian bytes: exactly 24 bytes when the input decodes to an image
/// of at least three pixels a side, and the empty byte sequence otherwise.
pub fn nine_patch_content_info(image_bytes: &[u8]) -> (r: Vec<u8>)
    ensures
        r@.len() == 0 || r@.len() == 24,
        rgba_decoded(image_bytes@) is None ==> r@.len() == 0,
        (rgba_decoded(image_bytes@) matches Some(t) && (t.0 < 3 || t.1 < 3)) ==> r@.len() == 0,
        (rgba_decoded(image_bytes@) matches Some(t) && t.0 >= 3 && t.1 >= 3) ==> r@.len() == 24,
        forall|img: Bitmap, ci: ContentInfo, si: StretchInfo|
            #[trigger] decodes_to(image_bytes@, img) && img.width >= 3 && img.height >= 3
                && #[trigger] content_parsed(img, ci) && #[trigger] stretch_parsed(img, si)
                ==> r@ == le32_bytes(ci.content_left as u32) + le32_bytes(ci.content_top as u32)
                + le32_bytes(ci.content_right as u32) + le32_bytes(ci.content_bottom as u32)
                + le32_bytes((si.left_fixed + si.right_fixed) as u32) + le32_bytes(
                (si.top_fixed + si.bottom_fixed) as u32,
            ),
{
    match nine_patch_content_info_result(image_bytes) {
        Ok(out) => out,
        Err(_) => Vec::new(),
    }
}

} // verus!
