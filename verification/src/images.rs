//! Store-presentation images: dimension validation for user-supplied
//! icons and banners, and the arithmetic of the synthesized placeholder
//! (font scale and centering) when none was supplied.
//!
//! Of the two archive layouts seen in the wild this library implements the
//! sibling-file one: the archive holds only the `publish/` tree, and the
//! icon and banner are written as standalone files next to it, with the
//! banner expected at 800x450.

use crate::warning::Warning;
use vstd::prelude::*;
use vstd::string::*;

verus! {

/// The two store-presentation slots.
#[derive(Clone, Copy, Debug, PartialEq, Eq, Structural)]
pub enum StoreImageKind {
    Icon,
    Banner,
}

/// The canvas size expected for each slot: 512x512 for the icon, 800x450
/// for the banner.
pub open spec fn spec_expected_dimensions(kind: StoreImageKind) -> (u32, u32) {
    match kind {
        StoreImageKind::Icon => (512u32, 512u32),
        StoreImageKind::Banner => (800u32, 450u32),
    }
}

pub fn expected_dimensions(kind: StoreImageKind) -> (r: (u32, u32))
    ensures
        r == spec_expected_dimensions(kind),
{
    match kind {
        StoreImageKind::Icon => (512, 512),
        StoreImageKind::Banner => (800, 450),
    }
}

/// Dimension validation is advisory: a mismatch is a warning, never a
/// rejection. Icons must merely be square; banners must match the expected
/// size exactly.
pub open spec fn spec_dimension_warning(kind: StoreImageKind, width: u32, height: u32) -> Option<
    Warning,
> {
    match kind {
        StoreImageKind::Icon => if width != height {
            Some(Warning::NonSquareIcon { width, height })
        } else {
            None
        },
        StoreImageKind::Banner => if width != 800 || height != 450 {
            Some(Warning::BannerDimensionMismatch { width, height })
        } else {
            None
        },
    }
}

pub fn dimension_warning(kind: StoreImageKind, width: u32, height: u32) -> (r: Option<Warning>)
    ensures
        r == spec_dimension_warning(kind, width, height),
{
    match kind {
        StoreImageKind::Icon => if width != height {
            Some(Warning::NonSquareIcon { width, height })
        } else {
            None
        },
        StoreImageKind::Banner => if width != 800 || height != 450 {
            Some(Warning::BannerDimensionMismatch { width, height })
        } else {
            None
        },
    }
}

/// An exact font scale, kept as a ratio so that no rounding enters the
/// plan. The renderer divides `num` by `den` at the very end.
#[derive(Clone, Copy, Debug, PartialEq, Eq, Structural)]
pub struct ScaleRatio {
    pub num: u128,
    pub den: u128,
}

/// The placeholder's font scale.
///
/// The width-derived scale is `width / ((len / 1.5) * 0.8)`, which is
/// exactly `15 * width / (8 * len)`. The banner additionally clamps it to
/// `0.8 * height`, exactly `4 * height / 5`; the comparison
/// `15w / 8l <= 4h / 5` is taken cross-multiplied as `75w <= 32hl`, and on
/// a tie the width-derived scale wins.
pub open spec fn spec_fallback_scale(kind: StoreImageKind, name_len: nat) -> ScaleRatio {
    let dims = spec_expected_dimensions(kind);
    match kind {
        StoreImageKind::Icon => ScaleRatio {
            num: (15 * dims.0) as u128,
            den: (8 * name_len) as u128,
        },
        StoreImageKind::Banner => if 75 * dims.0 <= 32 * dims.1 * name_len {
            ScaleRatio { num: (15 * dims.0) as u128, den: (8 * name_len) as u128 }
        } else {
            ScaleRatio { num: (4 * dims.1) as u128, den: 5u128 }
        },
    }
}

pub fn fallback_scale(kind: StoreImageKind, name_len: usize) -> (r: ScaleRatio)
    requires
        1 <= name_len,
    ensures
        r == spec_fallback_scale(kind, name_len as nat),
        r.den > 0,
{
    let dims = expected_dimensions(kind);
    match kind {
        StoreImageKind::Icon => ScaleRatio {
            num: 15u128 * (dims.0 as u128),
            den: 8u128 * (name_len as u128),
        },
        StoreImageKind::Banner => {
            let clamp_base: u128 = 32u128 * (dims.1 as u128);
            let len_wide: u128 = name_len as u128;
            proof {
                assert(clamp_base * len_wide <= 0x8_0000_0000u128 * 0xFFFF_FFFF_FFFF_FFFFu128)
                    by (nonlinear_arith)
                    requires
                        clamp_base <= 0x8_0000_0000u128,
                        len_wide <= 0xFFFF_FFFF_FFFF_FFFFu128,
                ;
            }
            if 75u128 * (dims.0 as u128) <= clamp_base * len_wide {
                ScaleRatio { num: 15u128 * (dims.0 as u128), den: 8u128 * (name_len as u128) }
            } else {
                ScaleRatio { num: 4u128 * (dims.1 as u128), den: 5u128 }
            }
        },
    }
}

/// Everything the renderer needs to synthesize a placeholder: the canvas
/// and the exact font scale. Fixed inputs give a fixed plan.
#[derive(Clone, Copy, Debug, PartialEq, Eq, Structural)]
pub struct GeneratedImagePlan {
    pub width: u32,
    pub height: u32,
    pub scale: ScaleRatio,
}

pub open spec fn spec_fallback_plan(kind: StoreImageKind, name_len: nat) -> GeneratedImagePlan {
    let dims = spec_expected_dimensions(kind);
    GeneratedImagePlan {
        width: dims.0,
        height: dims.1,
        scale: spec_fallback_scale(kind, name_len),
    }
}

pub fn fallback_plan(kind: StoreImageKind, name_len: usize) -> (r: GeneratedImagePlan)
    requires
        1 <= name_len,
    ensures
        r == spec_fallback_plan(kind, name_len as nat),
        r.scale.den > 0,
{
    let dims = expected_dimensions(kind);
    GeneratedImagePlan { width: dims.0, height: dims.1, scale: fallback_scale(kind, name_len) }
}

/// Centering: the text starts at `(canvas - text) / 2`, in each axis. A
/// text larger than the canvas gives a negative offset, which merely
/// clips.
pub fn centered_offset(canvas: u32, text: u32) -> (r: i64)
    ensures
        r == (canvas as int - text as int) / 2,
{
    if text <= canvas {
        ((canvas - text) / 2) as i64
    } else {
        let d = text - canvas;
        let half: u64 = ((d as u64) + 1) / 2;
        proof {
            assert((canvas as int - text as int) / 2 == -((d as int + 1) / 2));
        }
        -(half as i64)
    }
}

#[verifier::external_type_specification]
#[verifier::external_body]
pub struct ExImageError(image::ImageError);

/// The dimensions recorded in a PNG header, a function of the bytes alone;
/// `None` when the bytes do not parse as a PNG.
pub uninterp spec fn png_dims_of(bytes: Seq<u8>) -> Option<(u32, u32)>;

/// Relies on `image::io::Reader::into_dimensions` with the format pinned
/// to PNG: it decodes only the header of the in-memory bytes and returns
/// the declared width and height, deterministically.
#[verifier::external_body]
fn read_png_dimensions(bytes: &[u8]) -> (r: Result<(u32, u32), image::ImageError>)
    ensures
        r is Ok <==> png_dims_of(bytes@) is Some,
        r matches Ok(d) ==> png_dims_of(bytes@) == Some(d),
{
    image::io::Reader::with_format(std::io::Cursor::new(bytes), image::ImageFormat::Png)
        .into_dimensions()
}

/// A supplied image that could not be read stops the pipeline; everything
/// else about store images is at most a warning.
#[derive(Debug)]
pub enum StoreImageError {
    UnreadablePng { source: image::ImageError },
}

/// What the pipeline does for one store-image slot: a supplied image is
/// copied byte-for-byte (warning on odd dimensions), a missing one is
/// synthesized from the package name.
#[derive(Debug)]
pub enum StoreImageAction {
    CopyVerbatim { bytes: Vec<u8> },
    Synthesize { plan: GeneratedImagePlan },
}

pub fn plan_store_image(
    kind: StoreImageKind,
    name: &str,
    supplied: Option<Vec<u8>>,
) -> (r: Result<(StoreImageAction, Option<Warning>), StoreImageError>)
    requires
        name@.len() >= 1,
    ensures
        supplied matches Some(bytes) ==> (r is Ok <==> png_dims_of(bytes@) is Some),
        supplied is None ==> r is Ok,
        r matches Ok(p) ==> match supplied {
            Some(bytes) => {
                &&& p.0 matches StoreImageAction::CopyVerbatim { bytes: out } && out@ == bytes@
                &&& png_dims_of(bytes@) matches Some(d) ==> p.1 == spec_dimension_warning(
                    kind,
                    d.0,
                    d.1,
                )
            },
            None => {
                &&& p.0 matches StoreImageAction::Synthesize { plan } && plan == spec_fallback_plan(
                    kind,
                    name@.len(),
                )
                &&& p.1 == Some(Warning::MissingStoreImage { kind })
            },
        },
{
    match supplied {
        None => {
            let plan = fallback_plan(kind, name.unicode_len());
            Ok((StoreImageAction::Synthesize { plan }, Some(Warning::MissingStoreImage { kind })))
        },
        Some(bytes) => {
            match read_png_dimensions(bytes.as_slice()) {
                Err(e) => Err(StoreImageError::UnreadablePng { source: e }),
                Ok(dims) => {
                    let warn = dimension_warning(kind, dims.0, dims.1);
                    Ok((StoreImageAction::CopyVerbatim { bytes }, warn))
                },
            }
        },
    }
}

} // verus!
