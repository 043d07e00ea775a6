//! Textures: maps from a surface point to a colour.
use std::rc::Rc;
use vstd::prelude::*;
use zune_jpeg::JpegDecoder;
use crate::perlin::Perlin;
use crate::scalar::{Fixed, SCALE};
use crate::vector::{spec_in_unit, Vector3};

verus! {

/// A texture.
pub enum Texture {
    /// One colour everywhere.
    Color(Vector3),
    /// Two textures alternating over the cells of a cubic grid.
    Checker(CheckerData),
    /// A picture, addressed by the surface coordinates.
    Image(ImageData),
    /// Grey lattice noise.
    Noise(Perlin),
}

/// The grid of a checker texture and the textures of its two kinds of cells.
pub struct CheckerData {
    pub inv_scale: Fixed,
    pub even: Rc<Texture>,
    pub odd: Rc<Texture>,
}

/// The largest value of a colour channel in a picture, as a number.
pub const CHANNEL_MAX: i64 = 255_000_000_000;

/// Why a picture could not be made.
#[derive(Clone, Copy, Debug, PartialEq, Eq, Structural)]
pub enum ImageError {
    /// The bytes are not a picture that the decoder accepts.
    Undecodable,
    /// The decoder did not deliver three bytes for each pixel.
    NotRgb,
}

/// A decoded picture: three bytes (red, green, blue) for each pixel, row by row from
/// the top.
pub struct ImageData {
    pixels: Vec<u8>,
    width: u16,
    height: u16,
}

/// Decodes a JPEG file held in memory with `zune_jpeg::JpegDecoder`: `decode` gives the
/// pixel bytes and `info` the width and height, in this order. `None` stands for an
/// error of the decoder. Nothing is claimed of what is delivered.
#[verifier::external_body]
fn decode_jpeg(file_contents: &Vec<u8>) -> (r: Option<(Vec<u8>, u16, u16)>) {
    let mut decoder = JpegDecoder::new(file_contents);
    match decoder.decode() {
        Ok(pixels) => match decoder.info() {
            Some(info) => Some((pixels, info.width, info.height)),
            None => None,
        },
        Err(_) => None,
    }
}

impl CheckerData {
    /// A checker texture whose cells have the edge length `scale`.
    pub fn new(scale: Fixed, even: Rc<Texture>, odd: Rc<Texture>) -> (r: CheckerData)
        ensures
            r.inv_scale == (Fixed { raw: SCALE }).spec_div(scale),
            r.even == even,
            r.odd == odd,
    {
        CheckerData { inv_scale: Fixed { raw: SCALE }.div(scale), even, odd }
    }

    /// Whether the point lies in a cell of the even kind: the floors of its scaled
    /// coordinates have an even sum.
    pub open spec fn spec_is_even(self, p: Vector3) -> bool {
        (self.inv_scale.spec_mul(p.x).spec_floor() + self.inv_scale.spec_mul(p.y).spec_floor()
            + self.inv_scale.spec_mul(p.z).spec_floor()) % 2 == 0
    }

    pub fn is_even(&self, p: Vector3) -> (r: bool)
        ensures
            r == self.spec_is_even(p),
    {
        let x_int: i64 = self.inv_scale.mul(p.x).floor();
        let y_int: i64 = self.inv_scale.mul(p.y).floor();
        let z_int: i64 = self.inv_scale.mul(p.z).floor();
        let sum: u64 = (x_int as i128 + y_int as i128 + z_int as i128 + 30_000_000_000i128) as u64;
        assert((x_int + y_int + z_int + 30_000_000_000) % 2 == (x_int + y_int + z_int) % 2);
        sum % 2 == 0
    }
}

impl ImageData {
    #[verifier::type_invariant]
    spec fn three_bytes_per_pixel(self) -> bool {
        self.pixels.len() == 3 * self.width * self.height
    }

    /// The bytes of the picture.
    pub closed spec fn pixels(self) -> Seq<u8> {
        self.pixels@
    }

    /// The number of pixels in a row.
    pub closed spec fn width(self) -> int {
        self.width as int
    }

    /// The number of rows.
    pub closed spec fn height(self) -> int {
        self.height as int
    }

    /// Makes a picture of pixel bytes, if there are three for each pixel.
    pub fn from_pixels(pixels: Vec<u8>, width: u16, height: u16) -> (r: Result<
        ImageData,
        ImageError,
    >)
        ensures
            r is Ok <==> pixels.len() == 3 * width * height,
            r matches Ok(image) ==> image.pixels() == pixels@ && image.width() == width
                && image.height() == height,
            r matches Err(e) ==> e == ImageError::NotRgb,
    {
        assert(3 * width * height <= 3 * 65535 * 65535) by (nonlinear_arith)
            requires
                width <= 65535,
                height <= 65535,
        ;
        let expected: u64 = 3 * (width as u64) * (height as u64);
        if pixels.len() as u64 == expected {
            Ok(ImageData { pixels, width, height })
        } else {
            Err(ImageError::NotRgb)
        }
    }

    /// The numbers of columns and of rows.
    pub fn size(&self) -> (r: (u16, u16))
        ensures
            r.0 == self.width(),
            r.1 == self.height(),
    {
        (self.width, self.height)
    }

    /// Decodes the contents of a JPEG file into a picture. Which bytes the decoder
    /// accepts, and what it delivers for them, is the decoder's matter; whatever it
    /// delivers, the result is what [`ImageData::from_decoded`] makes of it: a file
    /// that is refused is [`ImageError::Undecodable`], pixels that are not three bytes
    /// each are [`ImageError::NotRgb`], and anything else is the picture delivered.
    pub fn new(file_contents: &Vec<u8>) -> (r: Result<ImageData, ImageError>)
        ensures
            exists|delivered: Option<(Seq<u8>, u16, u16)>| #[trigger] is_picture_of(r, delivered),
            r matches Ok(image) ==> image.pixels().len() == 3 * image.width() * image.height(),
    {
        let decoded = decode_jpeg(file_contents);
        let r = Self::from_decoded(decoded);
        proof {
            assert(is_picture_of(r, spec_delivered(decoded)));
        }
        r
    }

    /// Makes a picture of what a decoder delivers: `None` for a file that it refused,
    /// else the pixel bytes with the width and the height.
    pub fn from_decoded(decoded: Option<(Vec<u8>, u16, u16)>) -> (r: Result<ImageData, ImageError>)
        ensures
            is_picture_of(r, spec_delivered(decoded)),
    {
        match decoded {
            Some((pixels, width, height)) => Self::from_pixels(pixels, width, height),
            None => Err(ImageError::Undecodable),
        }
    }

    /// The column or row of a picture with `count` of them that the coordinate `c`
    /// in `[0, 1]` falls into; the coordinate one falls into the last.
    pub open spec fn spec_cell(c: Fixed, count: int) -> int {
        let cell = (c.raw * count) / (SCALE as int);
        if cell >= count {
            count - 1
        } else {
            cell
        }
    }

    /// The coordinate brought into `[0, 1]`.
    pub open spec fn spec_clamp_unit(c: Fixed) -> Fixed {
        c.spec_max(Fixed { raw: 0 }).spec_min(Fixed { raw: SCALE })
    }

    /// The colour of the picture at the surface coordinates `(u, v)`: both are brought
    /// into `[0, 1]`, `v` counts from the bottom row upwards, and each channel is the
    /// pixel's byte over 255. A picture without rows is magenta everywhere.
    pub open spec fn spec_value(self, u: Fixed, v: Fixed) -> Vector3 {
        if self.height() <= 0 || self.width() <= 0 {
            Vector3 { x: Fixed { raw: SCALE }, y: Fixed { raw: 0 }, z: Fixed { raw: SCALE } }
        } else {
            let i = Self::spec_cell(Self::spec_clamp_unit(u), self.width());
            let j = Self::spec_cell(
                Fixed { raw: SCALE }.spec_sub(Self::spec_clamp_unit(v)),
                self.height(),
            );
            let r_index = (3 * j) * self.width() + 3 * i;
            Vector3 {
                x: Self::spec_channel(self.pixels()[r_index]),
                y: Self::spec_channel(self.pixels()[r_index + 1]),
                z: Self::spec_channel(self.pixels()[r_index + 2]),
            }
        }
    }

    /// A byte as a colour channel in `[0, 1]`.
    pub open spec fn spec_channel(byte: u8) -> Fixed {
        Fixed { raw: (byte as i64 * SCALE) as i64 }.spec_div(Fixed { raw: CHANNEL_MAX })
    }

    fn channel(byte: u8) -> (r: Fixed)
        ensures
            r == Self::spec_channel(byte),
    {
        Fixed { raw: byte as i64 * SCALE }.div(Fixed { raw: CHANNEL_MAX })
    }

    fn cell(c: Fixed, count: u16) -> (r: usize)
        requires
            0 <= c.raw <= SCALE,
            count > 0,
        ensures
            r == Self::spec_cell(c, count as int),
            r < count,
    {
        assert(0 <= c.raw * count <= SCALE * count) by (nonlinear_arith)
            requires
                0 <= c.raw <= SCALE,
                count > 0,
        ;
        let scaled: u64 = (c.raw as u64) * (count as u64);
        let cell: u64 = scaled / (SCALE as u64);
        if cell >= count as u64 {
            (count - 1) as usize
        } else {
            cell as usize
        }
    }

    /// Looks the colour at the surface coordinates `(u, v)` up.
    pub fn value(&self, u: Fixed, v: Fixed) -> (r: Vector3)
        ensures
            r == self.spec_value(u, v),
    {
        proof {
            use_type_invariant(self);
        }
        if self.height == 0 || self.width == 0 {
            return Vector3 { x: Fixed { raw: SCALE }, y: Fixed { raw: 0 }, z: Fixed { raw: SCALE } };
        }
        let u = u.max(Fixed { raw: 0 }).min(Fixed { raw: SCALE });
        let v = Fixed { raw: SCALE }.sub(v.max(Fixed { raw: 0 }).min(Fixed { raw: SCALE }));
        let i: usize = Self::cell(u, self.width);
        let j: usize = Self::cell(v, self.height);
        assert(3 * j * self.width + 3 * i + 2 < 3 * self.width * self.height) by (nonlinear_arith)
            requires
                i < self.width,
                j < self.height,
        ;
        assert(3 * self.width * self.height <= 3 * 65535 * 65535) by (nonlinear_arith)
            requires
                self.width <= 65535,
                self.height <= 65535,
        ;
        let r_index: usize = (3 * j) * (self.width as usize) + 3 * i;
        Vector3 {
            x: Self::channel(self.pixels[r_index]),
            y: Self::channel(self.pixels[r_index + 1]),
            z: Self::channel(self.pixels[r_index + 2]),
        }
    }
}

/// What a decoder delivers, with the pixel bytes as a sequence.
pub open spec fn spec_delivered(decoded: Option<(Vec<u8>, u16, u16)>) -> Option<
    (Seq<u8>, u16, u16),
> {
    match decoded {
        None => None,
        Some((pixels, width, height)) => Some((pixels@, width, height)),
    }
}

/// Whether `r` is what becomes of what a decoder delivers: a refusal is
/// [`ImageError::Undecodable`]; pixel bytes that are three for each pixel are the
/// picture of that width and height; any other number of bytes is
/// [`ImageError::NotRgb`].
pub open spec fn is_picture_of(
    r: Result<ImageData, ImageError>,
    delivered: Option<(Seq<u8>, u16, u16)>,
) -> bool {
    match delivered {
        None => r matches Err(e) && e == ImageError::Undecodable,
        Some((pixels, width, height)) => if pixels.len() == 3 * width * height {
            r matches Ok(image) && image.pixels() == pixels && image.width() == width
                && image.height() == height
        } else {
            r matches Err(e) && e == ImageError::NotRgb
        },
    }
}

/// The colour of a texture at a surface point `p` with surface coordinates `(u, v)`.
pub open spec fn spec_map_value(map: Texture, u: Fixed, v: Fixed, p: Vector3) -> Vector3
    decreases map,
{
    match map {
        Texture::Color(color) => color,
        Texture::Checker(checker_data) => if checker_data.spec_is_even(p) {
            spec_map_value(*checker_data.even, u, v, p)
        } else {
            spec_map_value(*checker_data.odd, u, v, p)
        },
        Texture::Image(image_data) => image_data.spec_value(u, v),
        Texture::Noise(noise) => {
            let grey = noise.spec_noise(p);
            Vector3 { x: grey, y: grey, z: grey }
        },
    }
}

/// Looks the colour of a texture up.
pub fn get_map_value(map: &Texture, u: Fixed, v: Fixed, p: Vector3) -> (r: Vector3)
    ensures
        r == spec_map_value(*map, u, v, p),
    decreases *map,
{
    match map {
        Texture::Color(color) => *color,
        Texture::Checker(checker_data) => {
            if checker_data.is_even(p) {
                get_map_value(&checker_data.even, u, v, p)
            } else {
                get_map_value(&checker_data.odd, u, v, p)
            }
        },
        Texture::Image(image_data) => image_data.value(u, v),
        Texture::Noise(noise) => {
            let grey = noise.noise(&p);
            Vector3 { x: grey, y: grey, z: grey }
        },
    }
}

/// Whether a texture can only give colours: it is built of colours and pictures.
/// Noise may be negative.
pub open spec fn texture_in_unit(map: Texture) -> bool
    decreases map,
{
    match map {
        Texture::Color(color) => spec_in_unit(color),
        Texture::Checker(checker_data) => texture_in_unit(*checker_data.even) && texture_in_unit(
            *checker_data.odd,
        ),
        Texture::Image(_) => true,
        Texture::Noise(_) => false,
    }
}

/// A byte over 255 lies in `[0, 1]`.
pub proof fn lemma_channel_in_unit(byte: u8)
    ensures
        0 <= ImageData::spec_channel(byte).raw <= SCALE,
{
    let n = (byte as i64 * SCALE) as int;
    assert(n == byte * SCALE && 0 <= n <= 255 * SCALE) by (nonlinear_arith)
        requires
            n == byte * SCALE,
            0 <= byte <= 255,
            SCALE == 1_000_000_000,
    ;
    assert(0 <= (n * SCALE) / (CHANNEL_MAX as int) <= SCALE) by (nonlinear_arith)
        requires
            0 <= n <= 255 * SCALE,
            SCALE == 1_000_000_000,
            CHANNEL_MAX == 255_000_000_000,
    ;
}

/// A texture built of colours and pictures gives a colour everywhere.
pub proof fn lemma_map_value_in_unit(map: &Texture, u: Fixed, v: Fixed, p: Vector3)
    requires
        texture_in_unit(*map),
    ensures
        spec_in_unit(spec_map_value(*map, u, v, p)),
    decreases *map,
{
    match map {
        Texture::Color(_) => {},
        Texture::Checker(checker_data) => {
            lemma_map_value_in_unit(&checker_data.even, u, v, p);
            lemma_map_value_in_unit(&checker_data.odd, u, v, p);
        },
        Texture::Image(image_data) => {
            assert forall|byte: u8| 0 <= (#[trigger] ImageData::spec_channel(byte)).raw
                <= SCALE by {
                lemma_channel_in_unit(byte);
            }
        },
        Texture::Noise(_) => {},
    }
}

} // verus!
