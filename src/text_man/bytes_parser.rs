use vstd::prelude::*;

use vstd::string::StringExecFns;

use crate::text_man::TextSize;

verus! {

/// Decodes bytes into an image, at a requested size where the format allows
/// it; `None` when no size was requested.
pub trait BytesParser {
    fn parse(&self, bytes: &[u8], size: Option<TextSize>) -> Result<egui::ColorImage, BytesParserErr>;
}

/// Why a parser rejected its bytes.
#[derive(Debug, Clone, PartialEq, Eq)]
pub enum BytesParserErr {
    Unknown(String),
}

impl BytesParserErr {
    /// The error as text: `Unknown("...")` around the message.
    pub fn message(&self) -> (r: String)
        ensures
            self matches BytesParserErr::Unknown(m) ==> r@ == "Unknown(\""@ + m@ + "\")"@,
    {
        match self {
            BytesParserErr::Unknown(m) => "Unknown(\"".to_owned().concat(m.as_str()).concat("\")"),
        }
    }
}

#[verifier::external_type_specification]
#[verifier::external_body]
pub struct ExDynamicImage(image::DynamicImage);

#[verifier::external_type_specification]
#[verifier::external_body]
pub struct ExImageError(image::ImageError);

#[verifier::external_type_specification]
#[verifier::external_body]
pub struct ExSvgTree(usvg::Tree);

#[verifier::external_type_specification]
#[verifier::external_body]
pub struct ExSvgError(usvg::Error);

#[verifier::external_type_specification]
#[verifier::external_body]
pub struct ExPixmap(tiny_skia::Pixmap);

/// Relies on `image::load_from_memory_with_format` with `ImageFormat::Png`.
#[verifier::external_body]
fn decode_png(bytes: &[u8]) -> Result<image::DynamicImage, image::ImageError> {
    image::load_from_memory_with_format(bytes, image::ImageFormat::Png)
}

/// Relies on `image::load_from_memory_with_format` with `ImageFormat::Jpeg`.
#[verifier::external_body]
fn decode_jpeg(bytes: &[u8]) -> Result<image::DynamicImage, image::ImageError> {
    image::load_from_memory_with_format(bytes, image::ImageFormat::Jpeg)
}

/// Relies on `ImageError`'s `Display`: the error's message.
#[verifier::external_body]
fn image_error_message(e: &image::ImageError) -> String {
    format!("{}", e)
}

/// Relies on `DynamicImage::to_rgba8`: the image's width, height and its
/// pixels as RGBA bytes, row by row, four bytes for each pixel (the buffer
/// is made for exactly that many).
#[verifier::external_body]
fn rgba8_of(img: &image::DynamicImage) -> (r: (usize, usize, Vec<u8>))
    ensures
        r.2@.len() == r.0 * r.1 * 4,
{
    let buffer = img.to_rgba8();
    let (width, height) = buffer.dimensions();
    (width as usize, height as usize, buffer.into_raw())
}

/// Relies on `usvg::Tree::from_data` with default options.
#[verifier::external_body]
fn parse_svg(bytes: &[u8]) -> Result<usvg::Tree, usvg::Error> {
    usvg::Tree::from_data(bytes, &usvg::Options::default().to_ref())
}

/// Relies on `usvg::Size::to_screen_size` of the drawing's size: its width
/// and height rounded to whole pixels, at least one each.
#[verifier::external_body]
fn svg_own_size(tree: &usvg::Tree) -> (r: (u32, u32))
    ensures
        r.0 >= 1,
        r.1 >= 1,
{
    let size = tree.svg_node().size.to_screen_size();
    (size.width(), size.height())
}

/// Relies on `usvg::Error`'s `Display`: the error's message.
#[verifier::external_body]
fn svg_error_message(e: &usvg::Error) -> String {
    format!("{}", e)
}

/// Relies on `tiny_skia::Pixmap::new`, which refuses a zero width or height.
#[verifier::external_body]
fn new_pixmap(width: u32, height: u32) -> (r: Option<tiny_skia::Pixmap>)
    ensures
        width == 0 || height == 0 ==> r is None,
{
    tiny_skia::Pixmap::new(width, height)
}

/// Relies on `resvg::render`, scaling the drawing to `width` x `height`;
/// `None` when it cannot be fitted to that size.
#[verifier::external_body]
fn render_svg(tree: &usvg::Tree, width: u32, height: u32, pixmap: &mut tiny_skia::Pixmap) -> Option<()> {
    resvg::render(tree, usvg::FitTo::Size(width, height), tiny_skia::Transform::default(), pixmap.as_mut())
}

/// Relies on `tiny_skia::Pixmap::take`: the pixmap's RGBA bytes.
#[verifier::external_body]
fn pixmap_bytes(pixmap: tiny_skia::Pixmap) -> Vec<u8> {
    pixmap.take()
}

/// Relies on `egui::ColorImage::from_rgba_unmultiplied`, which panics unless
/// there are four bytes for each pixel.
#[verifier::external_body]
fn color_image_from_rgba(width: usize, height: usize, rgba: &[u8]) -> egui::ColorImage
    requires
        rgba@.len() == width * height * 4,
{
    egui::ColorImage::from_rgba_unmultiplied([width, height], rgba)
}

/// The image of `width` x `height` pixels whose RGBA bytes are `rgba`; an
/// error when their number does not match.
fn color_image_checked(width: usize, height: usize, rgba: &Vec<u8>) -> (r: Result<egui::ColorImage, BytesParserErr>)
    ensures
        r is Ok <==> rgba@.len() == width * height * 4,
{
    let expected = match width.checked_mul(height) {
        Some(pixels) => pixels.checked_mul(4),
        None => None,
    };
    proof {
        let pixels = width * height;
        assert(pixels >= 0) by (nonlinear_arith)
            requires
                pixels == width * height,
                width >= 0,
                height >= 0,
        ;
        assert(width * height * 4 == pixels * 4);
        if width * height <= usize::MAX {
            assert(expected == (if pixels * 4 > usize::MAX { None::<usize> } else { Some((pixels * 4) as usize) }));
        }
    }
    let len = rgba.len();
    let matches_size = match expected {
        Some(n) => n == len,
        None => false,
    };
    if matches_size {
        Ok(color_image_from_rgba(width, height, rgba.as_slice()))
    } else {
        Err(BytesParserErr::Unknown("decoded pixels do not match the image size".to_owned()))
    }
}

/// Turns a decoded raster image into an egui image.
fn color_image_of(decoded: Result<image::DynamicImage, image::ImageError>) -> (r: Result<egui::ColorImage, BytesParserErr>)
    ensures
        decoded is Err ==> r is Err,
{
    match decoded {
        Err(e) => Err(BytesParserErr::Unknown(image_error_message(&e))),
        Ok(img) => {
            let (width, height, rgba) = rgba8_of(&img);
            Ok(color_image_from_rgba(width, height, rgba.as_slice()))
        },
    }
}

/// Decodes a PNG with the `image` library. The requested size is ignored: a
/// PNG has its own.
pub fn png_bytes_parser(bytes: &[u8], _size: Option<TextSize>) -> (r: Result<egui::ColorImage, BytesParserErr>) {
    color_image_of(decode_png(bytes))
}

/// Decodes a JPEG with the `image` library. The requested size is ignored: a
/// JPEG has its own.
pub fn jpg_bytes_parser(bytes: &[u8], _size: Option<TextSize>) -> (r: Result<egui::ColorImage, BytesParserErr>) {
    color_image_of(decode_jpeg(bytes))
}

/// Rasterizes an SVG with `resvg`, at the requested size, or at the
/// drawing's own size when none is requested. A requested size that is zero,
/// or too large for a pixmap, is an error.
pub fn svg_bytes_parser(bytes: &[u8], size: Option<TextSize>) -> (r: Result<egui::ColorImage, BytesParserErr>)
    ensures
        size matches Some(s) && (s.0 == 0 || s.1 == 0 || s.0 > u32::MAX || s.1 > u32::MAX) ==> r is Err,
{
    let tree = match parse_svg(bytes) {
        Ok(tree) => tree,
        Err(e) => {
            return Err(BytesParserErr::Unknown(svg_error_message(&e)));
        },
    };
    let (width, height) = match size {
        Some(s) => s,
        None => {
            let (w, h) = svg_own_size(&tree);
            (w as usize, h as usize)
        },
    };
    if width > u32::MAX as usize || height > u32::MAX as usize {
        return Err(BytesParserErr::Unknown("the requested size is too large".to_owned()));
    }
    let mut pixmap = match new_pixmap(width as u32, height as u32) {
        Some(pixmap) => pixmap,
        None => {
            return Err(BytesParserErr::Unknown("no pixmap can be made at the requested size".to_owned()));
        },
    };
    if render_svg(&tree, width as u32, height as u32, &mut pixmap).is_none() {
        return Err(BytesParserErr::Unknown("the drawing cannot be fitted to the requested size".to_owned()));
    }
    let rgba = pixmap_bytes(pixmap);
    color_image_checked(width, height, &rgba)
}

/// The parsers that this library ships, to register per file extension.
#[derive(Debug, Clone, Copy, PartialEq, Eq, Structural)]
pub enum BuiltinParser {
    Png,
    Jpg,
    Svg,
}

impl BytesParser for BuiltinParser {
    fn parse(&self, bytes: &[u8], size: Option<TextSize>) -> Result<egui::ColorImage, BytesParserErr> {
        match self {
            BuiltinParser::Png => png_bytes_parser(bytes, size),
            BuiltinParser::Jpg => jpg_bytes_parser(bytes, size),
            BuiltinParser::Svg => svg_bytes_parser(bytes, size),
        }
    }
}

} // verus!
