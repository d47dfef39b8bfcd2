use vstd::prelude::*;
use vstd::utf8::encode_utf8;

verus! {

#[verifier::external_type_specification]
#[verifier::external_body]
pub struct ExQrError(qrcode::types::QrError);

#[verifier::external_type_specification]
#[verifier::external_body]
pub struct ExImageError(image::ImageError);

/// The QR symbol that `qrcode` builds for `data` at its default error
/// correction level: the number of modules per side and whether each module
/// is dark, row by row; none where the data does not fit.
pub uninterp spec fn qr_encoding(data: Seq<u8>) -> Option<(nat, Seq<bool>)>;

/// The PNG file that the `image` crate writes for a grayscale picture of
/// `width` by `height` pixels, one byte per pixel, row by row; none where it
/// refuses.
pub uninterp spec fn png_grayscale(width: u32, height: u32, pixels: Seq<u8>) -> Option<Seq<u8>>;

/// The most data any QR code holds (7089 digits in the largest version).
pub open spec fn max_qr_data() -> nat {
    7089
}

/// The PNG encoder's row and image lengths of a grayscale picture of
/// `width` by `height` pixels fit in `usize`.
pub open spec fn png_size_fits(width: u32, height: u32) -> bool {
    (width as int + 1) * height as int <= usize::MAX
}

/// A QR symbol: the number of modules per side and, row by row, whether
/// each module is dark.
pub struct QrSymbol {
    width: usize,
    dark: Vec<bool>,
}

impl QrSymbol {
    #[verifier::type_invariant]
    spec fn well_formed(self) -> bool {
        &&& 21 <= self.width <= 177
        &&& self.dark@.len() == self.width * self.width
    }

    /// The number of modules per side.
    pub closed spec fn spec_width(&self) -> nat {
        self.width as nat
    }

    /// Whether each module is dark, row by row.
    pub closed spec fn spec_dark(&self) -> Seq<bool> {
        self.dark@
    }

    /// A symbol of `width` modules per side, where `dark` holds one entry
    /// per module and the width is one that QR codes have (21 to 177).
    pub fn new(width: usize, dark: Vec<bool>) -> (res: Option<QrSymbol>)
        ensures
            (21 <= width <= 177 && dark@.len() == width * width) <==> res is Some,
            res matches Some(s) ==> s.spec_width() == width && s.spec_dark() == dark@,
    {
        if 21 <= width && width <= 177 {
            assert(width * width <= 177 * 177) by (nonlinear_arith)
                requires
                    width <= 177,
            ;
            if dark.len() == width * width {
                return Some(QrSymbol { width, dark });
            }
        }
        None
    }

    /// The number of modules per side.
    pub fn width(&self) -> (res: usize)
        ensures
            res == self.spec_width(),
            21 <= res <= 177,
    {
        proof {
            use_type_invariant(self);
        }
        self.width
    }

    /// Whether each module is dark, row by row.
    pub fn dark(&self) -> (res: &Vec<bool>)
        ensures
            res@ == self.spec_dark(),
            res@.len() == self.spec_width() * self.spec_width(),
    {
        proof {
            use_type_invariant(self);
        }
        &self.dark
    }
}

/// A grayscale picture, one byte per pixel, row by row.
pub struct GrayImage {
    pub width: u32,
    pub height: u32,
    pub pixels: Vec<u8>,
}

/// The QR picture of the link: its size in pixels and its PNG file.
pub struct QrPicture {
    pub width: u32,
    pub height: u32,
    pub png: Vec<u8>,
}

/// Why no QR picture could be made.
#[derive(Debug, Clone, Copy, PartialEq, Eq, Structural)]
pub enum QrPictureError {
    /// The link does not fit in a QR code.
    Encoding,
    /// The picture could not be written as PNG.
    Png,
}

/// The side of each module in pixels.
pub open spec fn module_pixels() -> nat {
    8
}

/// The width of the light border around a QR symbol, in modules.
pub open spec fn quiet_zone() -> nat {
    4
}

/// The side in pixels of the picture of a symbol `width` modules wide with a
/// border of `border` modules.
pub open spec fn picture_side(width: nat, border: nat) -> nat {
    (width + 2 * border) * module_pixels()
}

/// The pixel at column `x` and row `y` of the picture of a symbol: black (0)
/// inside a dark module, white (255) elsewhere, the border included.
pub open spec fn qr_pixel(width: nat, dark: Seq<bool>, border: nat, x: int, y: int) -> u8 {
    let mx = x / module_pixels() as int - border;
    let my = y / module_pixels() as int - border;
    if 0 <= mx < width && 0 <= my < width && dark[my * width + mx] {
        0
    } else {
        255
    }
}

/// The pixels of the picture of a symbol, row by row.
pub open spec fn qr_pixels(width: nat, dark: Seq<bool>, border: nat) -> Seq<u8> {
    let side = picture_side(width, border) as int;
    Seq::new((side * side) as nat, |i: int| qr_pixel(width, dark, border, i % side, i / side))
}

/// Encodes `data` as a QR symbol.
///
/// Calls `qrcode::QrCode::new`, which picks the smallest normal QR version
/// (1 to 40, so 21 to 177 modules per side) that holds the data at error
/// correction level M, and fails where none does; the symbol's modules are
/// read with `width` and `to_colors`, which list `width * width` modules row
/// by row. The crate sizes the data with unchecked arithmetic, so the data
/// is kept within what the largest QR code could hold (7089 characters).
#[verifier::external_body]
fn qr_code_new(data: &[u8]) -> (res: Result<(usize, Vec<bool>), qrcode::types::QrError>)
    requires
        data@.len() <= max_qr_data(),
    ensures
        match res {
            Ok((width, dark)) => {
                &&& qr_encoding(data@) == Some((width as nat, dark@))
                &&& 21 <= width <= 177
                &&& dark@.len() == width * width
            },
            Err(_) => qr_encoding(data@) is None,
        },
{
    match qrcode::QrCode::new(data) {
        Ok(code) => {
            let dark: Vec<bool> = code.to_colors().into_iter().map(
                |c| c == qrcode::Color::Dark,
            ).collect();
            Ok((code.width(), dark))
        },
        Err(e) => Err(e),
    }
}

/// Draws a symbol as a grayscale picture.
///
/// Calls `qrcode::render::Renderer::<image::Luma<u8>>::new` and `build`: the
/// renderer draws each module as a square of 8 by 8 pixels (the default unit
/// size), dark modules black (0), and surrounds the symbol with a white (255)
/// border of `border` modules; the picture's bytes are taken with
/// `into_raw`, row by row.
#[verifier::external_body]
fn render_gray(width: usize, dark: &Vec<bool>, border: u32) -> (res: GrayImage)
    requires
        dark@.len() == width * width,
        picture_side(width as nat, border as nat) <= u32::MAX,
        picture_side(width as nat, border as nat) * picture_side(width as nat, border as nat)
            <= usize::MAX,
    ensures
        res.width == picture_side(width as nat, border as nat),
        res.height == picture_side(width as nat, border as nat),
        res.pixels@ == qr_pixels(width as nat, dark@, border as nat),
{
    let colors: Vec<qrcode::Color> = dark.iter().map(
        |d| if *d { qrcode::Color::Dark } else { qrcode::Color::Light },
    ).collect();
    let img = qrcode::render::Renderer::<image::Luma<u8>>::new(&colors, width, border).build();
    GrayImage { width: img.width(), height: img.height(), pixels: img.into_raw() }
}

/// Writes a grayscale picture as PNG.
///
/// Calls `image::codecs::png::PngEncoder::new` on an empty vector and
/// `encode` with colour type `L8`, as `DynamicImage::write_to` does for a
/// grayscale picture in the PNG format; the bytes written are returned. The
/// `png` crate refuses a picture of zero width or height, and a pixel buffer
/// of the wrong length, with an error; otherwise encoding succeeds, since
/// writing into a vector cannot fail. The crate computes a row's length
/// (`width + 1` bytes) and the image's (`width * height`) without checks, so
/// both are kept within `usize`.
#[verifier::external_body]
fn png_encode_gray(width: u32, height: u32, pixels: &[u8]) -> (res: Result<
    Vec<u8>,
    image::ImageError,
>)
    requires
        png_size_fits(width, height),
    ensures
        match res {
            Ok(png) => png_grayscale(width, height, pixels@) == Some(png@),
            Err(_) => png_grayscale(width, height, pixels@) is None,
        },
        width == 0 || height == 0 ==> res is Err,
        width > 0 && height > 0 && pixels@.len() == width * height ==> res is Ok,
{
    let mut out: Vec<u8> = Vec::new();
    match image::codecs::png::PngEncoder::new(&mut out).encode(
        pixels,
        width,
        height,
        image::ColorType::L8,
    ) {
        Ok(()) => Ok(out),
        Err(e) => Err(e),
    }
}

/// The QR symbol of a link; none where the link is longer than any QR code
/// holds.
pub fn qr_symbol(link: &str) -> (res: Option<QrSymbol>)
    ensures
        encode_utf8(link@).len() > max_qr_data() ==> res is None,
        encode_utf8(link@).len() <= max_qr_data() ==> match qr_encoding(encode_utf8(link@)) {
            None => res is None,
            Some((w, d)) => {
                &&& res matches Some(s) && s.spec_width() == w && s.spec_dark() == d
                &&& 21 <= w <= 177
            },
        },
{
    let bytes = link.as_bytes();
    if bytes.len() > 7089 {
        return None;
    }
    match qr_code_new(bytes) {
        Ok((width, dark)) => Some(QrSymbol { width, dark }),
        Err(_) => None,
    }
}

/// The picture of a symbol: 8 by 8 pixels per module, black for a dark one,
/// within a white border of 4 modules.
pub fn render_symbol(symbol: &QrSymbol) -> (res: GrayImage)
    ensures
        res.width == picture_side(symbol.spec_width(), quiet_zone()),
        res.height == picture_side(symbol.spec_width(), quiet_zone()),
        res.pixels@ == qr_pixels(symbol.spec_width(), symbol.spec_dark(), quiet_zone()),
{
    let w = symbol.width();
    assert(picture_side(w as nat, 4) * picture_side(w as nat, 4) <= 1480 * 1480) by (nonlinear_arith)
        requires
            picture_side(w as nat, 4) <= 1480,
    ;
    render_gray(w, symbol.dark(), 4)
}

/// The PNG file of a grayscale picture. A picture whose rows and pixel count
/// the encoder could not size in `usize` is refused.
pub fn encode_gray_png(image: &GrayImage) -> (res: Result<Vec<u8>, QrPictureError>)
    ensures
        !png_size_fits(image.width, image.height) ==> res == Err::<Vec<u8>, QrPictureError>(
            QrPictureError::Png,
        ),
        png_size_fits(image.width, image.height) ==> {
            &&& image.width == 0 || image.height == 0 ==> res == Err::<Vec<u8>, QrPictureError>(
                QrPictureError::Png,
            )
            &&& image.width > 0 && image.height > 0 && image.pixels@.len() == image.width
                * image.height ==> res is Ok
            &&& match png_grayscale(image.width, image.height, image.pixels@) {
                None => res == Err::<Vec<u8>, QrPictureError>(QrPictureError::Png),
                Some(png) => res matches Ok(bytes) && bytes@ == png,
            }
        },
{
    let fits = if image.height == 0 {
        true
    } else {
        match (image.width as usize).checked_add(1) {
            Some(row) => {
                let product = row.checked_mul(image.height as usize);
                assert(product is Some <==> png_size_fits(image.width, image.height));
                product.is_some()
            },
            None => {
                assert(!png_size_fits(image.width, image.height)) by (nonlinear_arith)
                    requires
                        image.width as int + 1 > usize::MAX,
                        image.height >= 1,
                ;
                false
            },
        }
    };
    if !fits {
        return Err(QrPictureError::Png);
    }
    match png_encode_gray(image.width, image.height, image.pixels.as_slice()) {
        Ok(png) => Ok(png),
        Err(_) => Err(QrPictureError::Png),
    }
}

/// What the QR picture of a symbol is: the rendering of the symbol, written
/// as PNG.
pub open spec fn picture_of(width: nat, dark: Seq<bool>, picture: QrPicture) -> bool {
    let side = picture_side(width, quiet_zone());
    &&& picture.width == side
    &&& picture.height == side
    &&& png_grayscale(side as u32, side as u32, qr_pixels(width, dark, quiet_zone())) == Some(
        picture.png@,
    )
}

/// The QR picture of a symbol.
pub fn symbol_picture(symbol: &QrSymbol) -> (res: Result<QrPicture, QrPictureError>)
    ensures
        res matches Ok(p) && picture_of(symbol.spec_width(), symbol.spec_dark(), p) && 232
            <= p.width <= 1480,
{
    proof {
        use_type_invariant(symbol);
    }
    let image = render_symbol(symbol);
    assert(image.pixels@.len() == image.width * image.height);
    assert(png_size_fits(image.width, image.height)) by (nonlinear_arith)
        requires
            image.width <= 1480,
            image.height <= 1480,
            usize::MAX >= 0xffff_ffff,
    ;
    let png = encode_gray_png(&image)?;
    Ok(QrPicture { width: image.width, height: image.height, png })
}

/// The QR picture of a link: its QR symbol drawn and written as PNG.
pub fn qr_picture(link: &str) -> (res: Result<QrPicture, QrPictureError>)
    ensures
        encode_utf8(link@).len() > max_qr_data() ==> res == Err::<QrPicture, QrPictureError>(
            QrPictureError::Encoding,
        ),
        encode_utf8(link@).len() <= max_qr_data() ==> match qr_encoding(encode_utf8(link@)) {
            None => res == Err::<QrPicture, QrPictureError>(QrPictureError::Encoding),
            Some((w, d)) => res matches Ok(p) && picture_of(w, d, p) && 232 <= p.width <= 1480,
        },
{
    match qr_symbol(link) {
        None => Err(QrPictureError::Encoding),
        Some(symbol) => symbol_picture(&symbol),
    }
}

/// The picture is square, and its border of 4 modules is white all round:
/// every pixel in the first or last 32 rows or columns is white.
pub proof fn law_picture_has_white_border(width: nat, dark: Seq<bool>, x: int, y: int)
    requires
        0 <= x < picture_side(width, quiet_zone()),
        0 <= y < picture_side(width, quiet_zone()),
        x < quiet_zone() * module_pixels() || y < quiet_zone() * module_pixels() || x >= (width
            + quiet_zone()) * module_pixels() || y >= (width + quiet_zone()) * module_pixels(),
    ensures
        qr_pixel(width, dark, quiet_zone(), x, y) == 255,
{
}

/// Each module is drawn as an 8 by 8 square of one colour: black where the
/// module is dark, white where it is light.
pub proof fn law_module_is_a_square(width: nat, dark: Seq<bool>, mx: int, my: int, dx: int, dy: int)
    requires
        0 <= mx < width,
        0 <= my < width,
        0 <= dx < module_pixels(),
        0 <= dy < module_pixels(),
    ensures
        qr_pixel(
            width,
            dark,
            quiet_zone(),
            (mx + quiet_zone()) * module_pixels() + dx,
            (my + quiet_zone()) * module_pixels() + dy,
        ) == if dark[my * width + mx] {
            0u8
        } else {
            255u8
        },
{
    let x = (mx + 4) * 8 + dx;
    let y = (my + 4) * 8 + dy;
    assert(x / 8 == mx + 4);
    assert(y / 8 == my + 4);
}

} // verus!
