use image::ExtendedColorType;
use vstd::prelude::*;

verus! {

/// The pixel formats in which an image is encoded.
#[derive(Clone, Copy, PartialEq, Eq, Structural, Debug)]
pub enum ColorType {
    /// Luminance, in eight bits.
    L8,
    /// Luminance and alpha, in eight bits each.
    La8,
    /// Red, green and blue, in eight bits each.
    Rgb8,
    /// Red, green, blue and alpha, in eight bits each.
    Rgba8,
    /// Luminance, in sixteen bits.
    L16,
    /// Luminance and alpha, in sixteen bits each.
    La16,
    /// Red, green and blue, in sixteen bits each.
    Rgb16,
    /// Red, green, blue and alpha, in sixteen bits each.
    Rgba16,
}

impl View for ColorType {
    type V = (int, int);

    /// Samples per pixel and bits per sample, which tell the formats apart.
    open spec fn view(&self) -> (int, int) {
        match self {
            ColorType::L8 => (1, 8),
            ColorType::La8 => (2, 8),
            ColorType::Rgb8 => (3, 8),
            ColorType::Rgba8 => (4, 8),
            ColorType::L16 => (1, 16),
            ColorType::La16 => (2, 16),
            ColorType::Rgb16 => (3, 16),
            ColorType::Rgba16 => (4, 16),
        }
    }
}

impl ColorType {
    /// Samples per pixel.
    pub fn channels(self) -> (n: u8)
        ensures
            n == self@.0,
    {
        match self {
            ColorType::L8 | ColorType::L16 => 1,
            ColorType::La8 | ColorType::La16 => 2,
            ColorType::Rgb8 | ColorType::Rgb16 => 3,
            ColorType::Rgba8 | ColorType::Rgba16 => 4,
        }
    }

    /// Bits per sample.
    pub fn depth(self) -> (n: u8)
        ensures
            n == self@.1,
    {
        match self {
            ColorType::L8 | ColorType::La8 | ColorType::Rgb8 | ColorType::Rgba8 => 8,
            ColorType::L16 | ColorType::La16 | ColorType::Rgb16 | ColorType::Rgba16 => 16,
        }
    }
}

/// Whether `len` samples are the pixels of an image that can be encoded: it has pixels, and there
/// are exactly as many samples as they take.
pub open spec fn encodable(len: int, width: u32, height: u32, channels: int) -> bool {
    &&& width > 0
    &&& height > 0
    &&& len == width * height * channels
}

/// Whether `len` samples are the pixels of an image that can be encoded.
pub fn is_encodable(len: usize, width: u32, height: u32, color: ColorType) -> (b: bool)
    ensures
        b == encodable(len as int, width, height, color@.0),
{
    let channels: u8 = color.channels();
    proof {
        assert(0 <= width * height <= 0xffff_ffff * 0xffff_ffff) by (nonlinear_arith)
            requires
                0 <= width <= 0xffff_ffff,
                0 <= height <= 0xffff_ffff,
        ;
        assert(0 <= width * height * channels <= 0xffff_ffff * 0xffff_ffff * 4)
            by (nonlinear_arith)
            requires
                0 <= width * height <= 0xffff_ffff * 0xffff_ffff,
                0 <= channels <= 4,
        ;
    }
    width > 0 && height > 0 && len as u128 == width as u128 * height as u128 * channels as u128
}

/// Bytes as samples of eight bits.
pub open spec fn byte_samples(bytes: Seq<u8>) -> Seq<int> {
    bytes.map_values(|byte: u8| byte as int)
}

/// Numbers of sixteen bits as samples.
pub open spec fn word_samples(words: Seq<u16>) -> Seq<int> {
    words.map_values(|word: u16| word as int)
}

/// The samples of an image, row by row and pixel by pixel.
pub enum Pixels<'a> {
    /// Samples of eight bits.
    Bytes(&'a [u8]),
    /// Samples of sixteen bits.
    Words(&'a [u16]),
}

impl<'a> View for Pixels<'a> {
    type V = Seq<int>;

    /// The samples as numbers.
    open spec fn view(&self) -> Seq<int> {
        match self {
            Pixels::Bytes(bytes) => byte_samples(bytes@),
            Pixels::Words(words) => word_samples(words@),
        }
    }
}

impl<'a> Pixels<'a> {
    /// Bits per sample.
    pub open spec fn depth(self) -> int {
        match self {
            Pixels::Bytes(_) => 8,
            Pixels::Words(_) => 16,
        }
    }

    /// Whether these are the pixels of an image of the given size and format that can be encoded.
    pub open spec fn suits(self, width: u32, height: u32, color: ColorType) -> bool {
        self.depth() == color@.1 && encodable(self@.len() as int, width, height, color@.0)
    }

    /// Whether these are the pixels of an image of the given size and format that can be encoded.
    pub fn is_suitable(&self, width: u32, height: u32, color: ColorType) -> (b: bool)
        ensures
            b == self.suits(width, height, color),
    {
        match self {
            Pixels::Bytes(bytes) => color.depth() == 8 && is_encodable(
                bytes.len(),
                width,
                height,
                color,
            ),
            Pixels::Words(words) => color.depth() == 16 && is_encodable(
                words.len(),
                width,
                height,
                color,
            ),
        }
    }
}

/// What `image`'s PNG encoder writes for the given samples of an image of the given size, with
/// the given number of samples per pixel and of bits per sample. There are one (luminance), two
/// (luminance and alpha), three (RGB) or four (RGBA) samples per pixel, of eight or sixteen bits.
pub uninterp spec fn png_encoding(
    samples: Seq<int>,
    width: u32,
    height: u32,
    channels: int,
    depth: int,
) -> Seq<u8>;

/// What `image`'s PNG decoder reads from a file, if it can read it: width, height, the number of
/// samples per pixel and of bits per sample, and the samples as numbers.
///
/// This is `read_image` of `image::codecs::png::PngDecoder`, made by `PngDecoder::new` and so
/// without limits. It gives samples of sixteen bits in the byte order of the machine.
pub uninterp spec fn png_image(file: Seq<u8>) -> Option<(u32, u32, int, int, Seq<int>)>;

/// Whether the PNG decoder gives back an image that the PNG encoder wrote.
pub open spec fn reads_back(
    samples: Seq<int>,
    width: u32,
    height: u32,
    channels: int,
    depth: int,
) -> bool {
    png_image(png_encoding(samples, width, height, channels, depth)) == Some(
        (width, height, channels, depth, samples),
    )
}

/// Encodes an image as PNG.
///
/// Calls `write_image` of `image::codecs::png::PngEncoder` with the encoder's default settings.
/// It takes samples of sixteen bits in the byte order of the machine, and so they are handed to
/// it. That function panics if the number of bytes is not what the size and the format ask for,
/// and fails on an image without pixels; both are left out. With the output going to a `Vec` it
/// then has no other way to fail. The contract claims that what it writes depends on the samples,
/// the size and the format alone, and that PNG loses nothing: the decoder gives all of them back.
#[verifier::external_body]
fn encode_png(data: Pixels<'_>, width: u32, height: u32, color: ColorType) -> (png: Vec<u8>)
    requires
        data.suits(width, height, color),
    ensures
        png@ == png_encoding(data@, width, height, color@.0, color@.1),
        png_image(png@) == Some((width, height, color@.0, color@.1, data@)),
{
    let color = match color {
        ColorType::L8 => ExtendedColorType::L8, ColorType::L16 => ExtendedColorType::L16,
        ColorType::La8 => ExtendedColorType::La8, ColorType::La16 => ExtendedColorType::La16,
        ColorType::Rgb8 => ExtendedColorType::Rgb8, ColorType::Rgb16 => ExtendedColorType::Rgb16,
        ColorType::Rgba8 => ExtendedColorType::Rgba8, ColorType::Rgba16 => ExtendedColorType::Rgba16,
    };
    let data = match data {
        Pixels::Bytes(bytes) => bytes.to_vec(),
        Pixels::Words(words) => words.iter().flat_map(|word| word.to_ne_bytes()).collect(),
    };
    let mut png = Vec::new();
    let encoder = image::codecs::png::PngEncoder::new(&mut png);
    image::ImageEncoder::write_image(encoder, &data, width, height, color).expect("PNG encoding failed");
    png
}

/// The character that stands for six bits in standard Base64.
pub open spec fn base64_digit(v: int) -> char {
    if v < 26 {
        (65 + v) as char
    } else if v < 52 {
        (97 + (v - 26)) as char
    } else if v < 62 {
        (48 + (v - 52)) as char
    } else if v == 62 {
        '+'
    } else {
        '/'
    }
}

/// Standard Base64 with padding.
pub open spec fn base64_text(bytes: Seq<u8>) -> Seq<char>
    decreases bytes.len(),
{
    if bytes.len() == 0 {
        Seq::empty()
    } else if bytes.len() == 1 {
        seq![
            base64_digit(bytes[0] as int / 4),
            base64_digit(bytes[0] as int % 4 * 16),
            '=',
            '=',
        ]
    } else if bytes.len() == 2 {
        seq![
            base64_digit(bytes[0] as int / 4),
            base64_digit(bytes[0] as int % 4 * 16 + bytes[1] as int / 16),
            base64_digit(bytes[1] as int % 16 * 4),
            '=',
        ]
    } else {
        seq![
            base64_digit(bytes[0] as int / 4),
            base64_digit(bytes[0] as int % 4 * 16 + bytes[1] as int / 16),
            base64_digit(bytes[1] as int % 16 * 4 + bytes[2] as int / 64),
            base64_digit(bytes[2] as int % 64),
        ] + base64_text(bytes.skip(3))
    }
}

/// Appends the Base64 text of `bytes` to `text`.
///
/// Calls `encode_string` of `base64::engine::general_purpose::STANDARD`, which uses the standard
/// alphabet and pads with `=`. The contract claims that it leaves what `text` held in place and
/// appends exactly the standard encoding.
#[verifier::external_body]
fn push_base64(bytes: &[u8], text: &mut String)
    ensures
        final(text)@ == old(text)@ + base64_text(bytes@),
{
    base64::Engine::encode_string(&base64::engine::general_purpose::STANDARD, bytes, text);
}

/// What every data URI of a PNG image begins with.
pub open spec fn png_uri_prefix() -> Seq<char> {
    "data:image/png;base64,"@
}

/// The data URI of a PNG file.
pub fn data_uri(png: &[u8]) -> (uri: String)
    ensures
        uri@ == png_uri_prefix() + base64_text(png@),
{
    let mut uri: String = "data:image/png;base64,".to_string();
    push_base64(png, &mut uri);
    uri
}

/// The data URI of an image, encoded as PNG. The file that the URI holds gives the image back.
pub fn to_base64_bytes(width: u32, height: u32, color: ColorType, data: Pixels<'_>) -> (uri: String)
    requires
        data.suits(width, height, color),
    ensures
        uri@ == png_uri_prefix() + base64_text(
            png_encoding(data@, width, height, color@.0, color@.1),
        ),
        forall|file: Seq<u8>|
            uri@ == png_uri_prefix() + #[trigger] base64_text(file) ==> png_image(file) == Some(
                (width, height, color@.0, color@.1, data@),
            ),
        reads_back(data@, width, height, color@.0, color@.1),
{
    let ghost samples = data@;
    let png: Vec<u8> = encode_png(data, width, height, color);
    proof {
        assert forall|file: Seq<u8>|
            png_uri_prefix() + base64_text(png@) == png_uri_prefix() + #[trigger] base64_text(
                file,
            ) implies png_image(file) == Some(
            (width, height, color@.0, color@.1, samples),
        ) by {
            law_data_uris_tell_files_apart(png@, file);
        }
    }
    data_uri(png.as_slice())
}

/// The padding character is no digit, and different digits have different characters.
proof fn lemma_base64_digits(v: int, w: int)
    requires
        0 <= v < 64,
        0 <= w < 64,
    ensures
        base64_digit(v) != '=',
        base64_digit(v) == base64_digit(w) ==> v == w,
{
    assert(base64_digit(v) as int == (if v < 26 {
        65 + v
    } else if v < 52 {
        71 + v
    } else if v < 62 {
        v - 4
    } else if v == 62 {
        43
    } else {
        47
    }));
    assert(base64_digit(w) as int == (if w < 26 {
        65 + w
    } else if w < 52 {
        71 + w
    } else if w < 62 {
        w - 4
    } else if w == 62 {
        43
    } else {
        47
    }));
}

/// Base64 loses nothing: different byte strings have different texts.
pub proof fn law_base64_loses_nothing(a: Seq<u8>, b: Seq<u8>)
    requires
        base64_text(a) == base64_text(b),
    ensures
        a == b,
    decreases a.len(),
{
    let t = base64_text(a);
    let u = base64_text(b);
    if a.len() == 0 || b.len() == 0 {
        assert(t.len() == u.len());
        assert(a =~= b);
    } else {
        assert(t[0] == u[0] && t[1] == u[1] && t[2] == u[2] && t[3] == u[3]);
        let a0 = a[0] as int;
        let b0 = b[0] as int;
        let a1 = if a.len() > 1 {
            a[1] as int
        } else {
            0
        };
        let b1 = if b.len() > 1 {
            b[1] as int
        } else {
            0
        };
        let a2 = if a.len() > 2 {
            a[2] as int
        } else {
            0
        };
        let b2 = if b.len() > 2 {
            b[2] as int
        } else {
            0
        };
        lemma_base64_digits(a0 / 4, b0 / 4);
        lemma_base64_digits(a0 % 4 * 16 + a1 / 16, b0 % 4 * 16 + b1 / 16);
        lemma_base64_digits(a1 % 16 * 4 + a2 / 64, b1 % 16 * 4 + b2 / 64);
        lemma_base64_digits(b1 % 16 * 4 + b2 / 64, a1 % 16 * 4 + a2 / 64);
        lemma_base64_digits(a2 % 64, b2 % 64);
        lemma_base64_digits(b2 % 64, a2 % 64);
        if a.len() > 2 && b.len() > 2 {
            assert(t.skip(4) =~= base64_text(a.skip(3)));
            assert(u.skip(4) =~= base64_text(b.skip(3)));
            law_base64_loses_nothing(a.skip(3), b.skip(3));
            assert(a =~= a.take(3) + a.skip(3));
            assert(b =~= b.take(3) + b.skip(3));
            assert(a.take(3) =~= b.take(3));
        } else {
            assert(a =~= b);
        }
    }
}

/// Different PNG files have different data URIs.
pub proof fn law_data_uris_tell_files_apart(a: Seq<u8>, b: Seq<u8>)
    requires
        png_uri_prefix() + base64_text(a) == png_uri_prefix() + base64_text(b),
    ensures
        a == b,
{
    let prefix = png_uri_prefix();
    assert((prefix + base64_text(a)).skip(prefix.len() as int) =~= base64_text(a));
    assert((prefix + base64_text(b)).skip(prefix.len() as int) =~= base64_text(b));
    law_base64_loses_nothing(a, b);
}

} // verus!
