//! The decision of how a decoded image uploads to the GPU: which texel
//! format and channel type each supported color layout maps to. Indexed
//! and grayscale-alpha layouts, and depths below one byte, are refused.

use vstd::prelude::*;

verus! {

/// The color layouts a decoded image can arrive in.
#[derive(Clone, Copy, Debug, PartialEq, Eq, Structural)]
pub enum ImageColorType {
    Grayscale,
    Rgb,
    Indexed,
    GrayscaleAlpha,
    Rgba,
}

/// The channel depths a decoded image can arrive in.
#[derive(Clone, Copy, Debug, PartialEq, Eq, Structural)]
pub enum ImageBitDepth {
    One,
    Two,
    Four,
    Eight,
    Sixteen,
}

/// The texel layout handed to the GPU.
#[derive(Clone, Copy, Debug, PartialEq, Eq, Structural)]
pub enum TexelFormat {
    Red,
    Rgb,
    Rgba,
}

/// The channel type handed to the GPU.
#[derive(Clone, Copy, Debug, PartialEq, Eq, Structural)]
pub enum TexelType {
    UnsignedByte,
    UnsignedShort,
}

/// An image layout no texture can be made of; fatal at startup.
#[derive(Clone, Copy, Debug, PartialEq, Eq, Structural)]
pub enum TextureError {
    UnsupportedColorType,
    UnsupportedBitDepth,
}

/// Picks the upload format for a decoded image: grayscale, RGB and RGBA at
/// 8 or 16 bits per channel are supported; an unsupported color layout is
/// reported before an unsupported depth.
pub fn upload_format(color: ImageColorType, depth: ImageBitDepth) -> (r: Result<
    (TexelFormat, TexelType),
    TextureError,
>)
    ensures
        color == ImageColorType::Indexed || color == ImageColorType::GrayscaleAlpha ==> r
            == Result::<(TexelFormat, TexelType), TextureError>::Err(
            TextureError::UnsupportedColorType,
        ),
        !(color == ImageColorType::Indexed || color == ImageColorType::GrayscaleAlpha) && (depth
            == ImageBitDepth::One || depth == ImageBitDepth::Two || depth == ImageBitDepth::Four)
            ==> r == Result::<(TexelFormat, TexelType), TextureError>::Err(
            TextureError::UnsupportedBitDepth,
        ),
        r matches Result::Ok(f) ==> {
            &&& (color == ImageColorType::Grayscale ==> f.0 == TexelFormat::Red)
            &&& (color == ImageColorType::Rgb ==> f.0 == TexelFormat::Rgb)
            &&& (color == ImageColorType::Rgba ==> f.0 == TexelFormat::Rgba)
            &&& (depth == ImageBitDepth::Eight ==> f.1 == TexelType::UnsignedByte)
            &&& (depth == ImageBitDepth::Sixteen ==> f.1 == TexelType::UnsignedShort)
        },
        r is Ok <==> (color == ImageColorType::Grayscale || color == ImageColorType::Rgb || color
            == ImageColorType::Rgba) && (depth == ImageBitDepth::Eight || depth
            == ImageBitDepth::Sixteen),
{
    let format = match color {
        ImageColorType::Grayscale => TexelFormat::Red,
        ImageColorType::Rgb => TexelFormat::Rgb,
        ImageColorType::Rgba => TexelFormat::Rgba,
        ImageColorType::Indexed => {
            return Result::Err(TextureError::UnsupportedColorType);
        },
        ImageColorType::GrayscaleAlpha => {
            return Result::Err(TextureError::UnsupportedColorType);
        },
    };
    let texel = match depth {
        ImageBitDepth::Eight => TexelType::UnsignedByte,
        ImageBitDepth::Sixteen => TexelType::UnsignedShort,
        _ => {
            return Result::Err(TextureError::UnsupportedBitDepth);
        },
    };
    Result::Ok((format, texel))
}

} // verus!
