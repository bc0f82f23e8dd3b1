use crate::context::FillRule;
use crate::data_uri::{is_encodable, to_base64_bytes, ColorType, Pixels};
use kurbo::Affine;
use vstd::prelude::*;

verus! {

/// An image of RGB pixels, three bytes each.
pub struct RgbData {
    pub data: Vec<u8>,
    pub width: u32,
    pub height: u32,
    /// Whether the image is smoothed when it is enlarged.
    pub interpolate: bool,
}

/// An image of luminance or alpha samples, one byte each.
pub struct LumaData {
    pub data: Vec<u8>,
    pub width: u32,
    pub height: u32,
    /// Whether the image is smoothed when it is enlarged.
    pub interpolate: bool,
}

/// The pixels of an image, row by row.
pub struct PixelBuffer {
    pub width: u32,
    pub height: u32,
    pub data: Vec<u8>,
}

impl PixelBuffer {
    /// Whether `len` bytes suffice for an image of the given size with `channels` bytes per pixel.
    pub open spec fn fits(width: u32, height: u32, channels: int, len: int) -> bool {
        width * height * channels <= len
    }

    /// An image of the given size with `channels` bytes per pixel, if `data` holds enough bytes.
    pub fn from_raw(width: u32, height: u32, channels: u8, data: Vec<u8>) -> (image: Option<
        PixelBuffer,
    >)
        ensures
            image == (if Self::fits(width, height, channels as int, data@.len() as int) {
                Some(PixelBuffer { width, height, data })
            } else {
                None
            }),
    {
        if Self::is_room_for(width, height, channels, data.len()) {
            Some(PixelBuffer { width, height, data })
        } else {
            None
        }
    }

    /// Whether `len` bytes suffice for an image of the given size with `channels` bytes per pixel.
    pub fn is_room_for(width: u32, height: u32, channels: u8, len: usize) -> (b: bool)
        ensures
            b == Self::fits(width, height, channels as int, len as int),
    {
        proof {
            assert(0 <= width * height <= 0xffff_ffff * 0xffff_ffff) by (nonlinear_arith)
                requires
                    0 <= width <= 0xffff_ffff,
                    0 <= height <= 0xffff_ffff,
            ;
            assert(0 <= width * height * channels <= 0xffff_ffff * 0xffff_ffff * 255)
                by (nonlinear_arith)
                requires
                    0 <= width * height <= 0xffff_ffff * 0xffff_ffff,
                    0 <= channels <= 255,
            ;
        }
        width as u128 * height as u128 * channels as u128 <= len as u128
    }
}

/// A quotient of two sizes.
#[derive(Clone, Copy, PartialEq, Eq, Structural, Debug)]
pub struct Ratio {
    pub numerator: u32,
    pub denominator: u32,
}

/// The factors by which a mask is scaled before it is transformed, along either axis.
#[derive(Clone, Copy, PartialEq, Eq, Structural, Debug)]
pub struct MaskScale {
    pub x: Ratio,
    pub y: Ratio,
}

/// An image whose luminance masks a group.
pub struct ImageLuminanceMask {
    pub image: PixelBuffer,
    /// Where the mask is placed, once it has been scaled.
    pub transform: Affine,
    /// The scaling that is applied first, if any.
    pub scale: Option<MaskScale>,
    pub interpolate: bool,
}

/// What a stencil is filled with: a color or a pattern.
pub enum Paint<P> {
    /// An RGBA8 color.
    Color([u8; 4]),
    Pattern(P),
}

/// One step in writing an SVG document.
pub enum SvgEvent<P> {
    /// Opens an element.
    StartElement(&'static str),
    /// Gives the open element an attribute.
    Attribute { name: &'static str, value: String },
    /// Gives the open element an attribute whose value is a number.
    Number { name: &'static str, number: u32 },
    /// Gives the open element a transform.
    Transform(Affine),
    /// Closes the open element.
    EndElement,
    /// Opens a fully opaque group behind a mask.
    PushMaskedGroup(ImageLuminanceMask),
    /// Fills a rectangle with its top left corner at the origin.
    FillRect { width: u32, height: u32, transform: Affine, pattern: P, fill_rule: FillRule },
    /// Closes the group that was opened last.
    PopGroup,
}

/// What an `SvgEvent` says, its texts as sequences of characters.
pub ghost enum EventView<P> {
    Start(Seq<char>),
    Attr(Seq<char>, Seq<char>),
    Number(Seq<char>, u32),
    Transform(Affine),
    End,
    Push(ImageLuminanceMask),
    FillRect(u32, u32, Affine, P, FillRule),
    Pop,
}

impl<P> View for SvgEvent<P> {
    type V = EventView<P>;

    open spec fn view(&self) -> EventView<P> {
        match *self {
            SvgEvent::StartElement(name) => EventView::Start(name@),
            SvgEvent::Attribute { name, value } => EventView::Attr(name@, value@),
            SvgEvent::Number { name, number } => EventView::Number(name@, number),
            SvgEvent::Transform(transform) => EventView::Transform(transform),
            SvgEvent::EndElement => EventView::End,
            SvgEvent::PushMaskedGroup(mask) => EventView::Push(mask),
            SvgEvent::FillRect { width, height, transform, pattern, fill_rule } => {
                EventView::FillRect(width, height, transform, pattern, fill_rule)
            },
            SvgEvent::PopGroup => EventView::Pop,
        }
    }
}

/// An image of any format, as the `image` crate has it.
#[verifier::external_type_specification]
#[verifier::external_body]
pub struct ExDynamicImage(image::DynamicImage);

/// An image as RGBA8: its width, its height, and its bytes, row by row and four to a pixel.
pub uninterp spec fn rgba8_image(image: image::DynamicImage) -> (u32, u32, Seq<u8>);

/// Converts an image to RGBA8.
///
/// Calls `to_rgba8` of `image::DynamicImage`. The contract claims that the size and the pixels of
/// what it returns depend on the image alone. How each sample is converted is left unsaid, and so
/// is the number of bytes: an image that is in RGBA8 already may hold more than its pixels.
#[verifier::external_body]
fn to_rgba8(image: &image::DynamicImage) -> (rgba: PixelBuffer)
    ensures
        (rgba.width, rgba.height, rgba.data@) == rgba8_image(*image),
{
    let rgba = image.to_rgba8();
    let (width, height) = rgba.dimensions();
    PixelBuffer { width, height, data: rgba.into_raw() }
}

/// The bytes per pixel, the width, the height and the bytes of an image that the `image` crate
/// holds as L8, RGB8 or RGBA8, and nothing for an image that it holds in another format.
pub uninterp spec fn plain_pixels(image: image::DynamicImage) -> Option<
    (int, u32, u32, Seq<u8>),
>;

/// Tells the formats of an image apart.
///
/// Takes the variants of `image::DynamicImage` apart: an image in L8, RGB8 or RGBA8 is given as
/// its size and its bytes (`width`, `height` and `into_raw`), and any other image as it is. The
/// contract claims that this depends on the image alone.
#[verifier::external_body]
fn sort_image(image: image::DynamicImage) -> (source: SourceImage)
    ensures
        plain_pixels(image) == (match source {
            SourceImage::ImageRgb8(buf) => Some((3int, buf.width, buf.height, buf.data@)),
            SourceImage::ImageRgba8(buf) => Some((4int, buf.width, buf.height, buf.data@)),
            SourceImage::ImageLuma8(buf) => Some((1int, buf.width, buf.height, buf.data@)),
            SourceImage::Other(_) => None,
        }),
        source matches SourceImage::Other(other) ==> other.image() == image,
{
    let (width, height) = (image.width(), image.height());
    match image {
        image::DynamicImage::ImageRgb8(buf) => SourceImage::ImageRgb8(
            PixelBuffer { width, height, data: buf.into_raw() },
        ),
        image::DynamicImage::ImageRgba8(buf) => SourceImage::ImageRgba8(
            PixelBuffer { width, height, data: buf.into_raw() },
        ),
        image::DynamicImage::ImageLuma8(buf) => SourceImage::ImageLuma8(
            PixelBuffer { width, height, data: buf.into_raw() },
        ),
        other => SourceImage::Other(OtherImage { image: other }),
    }
}

/// An image that is in none of the formats that are written as they are.
pub struct OtherImage {
    image: image::DynamicImage,
}

impl OtherImage {
    /// The image.
    pub closed spec fn image(self) -> image::DynamicImage {
        self.image
    }

    /// The image is in another format indeed.
    #[verifier::type_invariant]
    spec fn inv(self) -> bool {
        plain_pixels(self.image) is None
    }

    /// The image as RGBA8.
    pub fn to_rgba8(&self) -> (rgba: PixelBuffer)
        ensures
            (rgba.width, rgba.height, rgba.data@) == rgba8_image(self.image()),
    {
        to_rgba8(&self.image)
    }
}

/// An image in one of the formats that are written as they are, or in another format.
pub enum SourceImage {
    ImageRgb8(PixelBuffer),
    ImageRgba8(PixelBuffer),
    ImageLuma8(PixelBuffer),
    /// An image that is converted to RGBA8 to be written.
    Other(OtherImage),
}

impl SourceImage {
    /// An image of any format.
    pub fn new(image: image::DynamicImage) -> (source: Self)
        ensures
            plain_pixels(image) matches Some(plain) ==> {
                &&& source !is Other
                &&& plain == (
                    source.written_channels(),
                    source.written_size().0,
                    source.written_size().1,
                    source.written_bytes(),
                )
            },
            plain_pixels(image) is None ==> {
                &&& source is Other
                &&& source.written_channels() == 4
                &&& rgba8_image(image) == (
                    source.written_size().0,
                    source.written_size().1,
                    source.written_bytes(),
                )
            },
    {
        sort_image(image)
    }

    /// Bytes per pixel with which the image is written.
    pub open spec fn written_channels(self) -> int {
        match self {
            SourceImage::ImageRgb8(_) => 3,
            SourceImage::ImageRgba8(_) => 4,
            SourceImage::ImageLuma8(_) => 1,
            SourceImage::Other(_) => 4,
        }
    }

    /// Width and height with which the image is written.
    pub open spec fn written_size(self) -> (u32, u32) {
        match self {
            SourceImage::ImageRgb8(buf) => (buf.width, buf.height),
            SourceImage::ImageRgba8(buf) => (buf.width, buf.height),
            SourceImage::ImageLuma8(buf) => (buf.width, buf.height),
            SourceImage::Other(other) => (rgba8_image(other.image()).0, rgba8_image(other.image()).1),
        }
    }

    /// The bytes with which the image is written.
    pub open spec fn written_bytes(self) -> Seq<u8> {
        match self {
            SourceImage::ImageRgb8(buf) => buf.data@,
            SourceImage::ImageRgba8(buf) => buf.data@,
            SourceImage::ImageLuma8(buf) => buf.data@,
            SourceImage::Other(other) => rgba8_image(other.image()).2,
        }
    }

    /// Whether the image can be written: it has pixels, and exactly the bytes that they take.
    pub open spec fn writable(self) -> bool {
        crate::data_uri::encodable(
            self.written_bytes().len() as int,
            self.written_size().0,
            self.written_size().1,
            self.written_channels(),
        )
    }

    /// Whether the image can be written.
    pub fn is_writable(&self) -> (b: bool)
        ensures
            b == self.writable(),
    {
        match self {
            SourceImage::ImageRgb8(buf) => is_encodable(
                buf.data.len(),
                buf.width,
                buf.height,
                ColorType::Rgb8,
            ),
            SourceImage::ImageRgba8(buf) => is_encodable(
                buf.data.len(),
                buf.width,
                buf.height,
                ColorType::Rgba8,
            ),
            SourceImage::ImageLuma8(buf) => is_encodable(
                buf.data.len(),
                buf.width,
                buf.height,
                ColorType::L8,
            ),
            SourceImage::Other(other) => {
                let rgba: PixelBuffer = other.to_rgba8();
                is_encodable(rgba.data.len(), rgba.width, rgba.height, ColorType::Rgba8)
            },
        }
    }
}

/// RGB pixels with an alpha byte each, as many as there are both pixels and alpha bytes.
pub open spec fn interleaved(rgb: Seq<u8>, alpha: Seq<u8>) -> Seq<u8> {
    let pixels: nat = if rgb.len() / 3 < alpha.len() {
        rgb.len() / 3
    } else {
        alpha.len()
    };
    Seq::new(
        pixels * 4,
        |i: int|
            if i % 4 == 3 {
                alpha[i / 4]
            } else {
                rgb[i / 4 * 3 + i % 4]
            },
    )
}

/// Whether no alpha byte meets a last pixel that is cut short.
pub open spec fn interleavable(rgb_len: int, alpha_len: int) -> bool {
    rgb_len % 3 == 0 || alpha_len <= rgb_len / 3
}

/// Puts an alpha byte behind each RGB pixel.
pub fn interleave(rgb: &[u8], alpha: &[u8]) -> (rgba: Vec<u8>)
    requires
        interleavable(rgb@.len() as int, alpha@.len() as int),
    ensures
        rgba@ == interleaved(rgb@, alpha@),
{
    let len: usize = rgb.len();
    let pixels: usize = if len / 3 < alpha.len() {
        len / 3
    } else {
        alpha.len()
    };
    let mut rgba: Vec<u8> = Vec::new();
    let mut i: usize = 0;
    while i < pixels
        invariant
            i <= pixels,
            len == rgb@.len(),
            pixels == (if rgb@.len() / 3 < alpha@.len() {
                rgb@.len() / 3
            } else {
                alpha@.len()
            }),
            rgba@.len() == i * 4,
            forall|j: int| 0 <= j < i * 4 ==> rgba@[j] == interleaved(rgb@, alpha@)[j],
        decreases pixels - i,
    {
        rgba.push(rgb[i * 3]);
        rgba.push(rgb[i * 3 + 1]);
        rgba.push(rgb[i * 3 + 2]);
        rgba.push(alpha[i]);
        i = i + 1;
    }
    assert(rgba@ =~= interleaved(rgb@, alpha@));
    rgba
}

/// The RGBA pixels of a stencil: the color where the stencil is set, and nothing elsewhere.
pub open spec fn stencil_pixels(stencil: Seq<u8>, color: Seq<u8>) -> Seq<u8> {
    Seq::new(
        stencil.len() * 4,
        |i: int|
            if stencil[i / 4] == 255 {
                color[i % 4]
            } else {
                0
            },
    )
}

/// Colors a stencil.
pub fn color_stencil(stencil: &[u8], color: [u8; 4]) -> (rgba: Vec<u8>)
    ensures
        rgba@ == stencil_pixels(stencil@, color@),
{
    let mut rgba: Vec<u8> = Vec::new();
    let mut i: usize = 0;
    while i < stencil.len()
        invariant
            i <= stencil@.len(),
            rgba@.len() == i * 4,
            forall|j: int| 0 <= j < i * 4 ==> rgba@[j] == stencil_pixels(stencil@, color@)[j],
        decreases stencil@.len() - i,
    {
        let set: bool = stencil[i] == 255;
        rgba.push(if set { color[0] } else { 0 });
        rgba.push(if set { color[1] } else { 0 });
        rgba.push(if set { color[2] } else { 0 });
        rgba.push(if set { color[3] } else { 0 });
        i = i + 1;
    }
    assert(rgba@ =~= stencil_pixels(stencil@, color@));
    rgba
}

/// Whether an alpha image goes with the pixels of an RGB image one by one.
pub open spec fn same_layout(rgb: RgbData, alpha: LumaData) -> bool {
    alpha.interpolate == rgb.interpolate && alpha.width == rgb.width && alpha.height == rgb.height
}

/// Whether an image, with its alpha image if it has one, can be drawn.
pub open spec fn rgba_drawable(rgb: RgbData, alpha: Option<LumaData>) -> bool {
    match alpha {
        Some(alpha) => if same_layout(rgb, alpha) {
            &&& interleavable(rgb.data@.len() as int, alpha.data@.len() as int)
            &&& crate::data_uri::encodable(
                interleaved(rgb.data@, alpha.data@).len() as int,
                rgb.width,
                rgb.height,
                4,
            )
        } else {
            &&& PixelBuffer::fits(alpha.width, alpha.height, 1, alpha.data@.len() as int)
            &&& crate::data_uri::encodable(rgb.data@.len() as int, rgb.width, rgb.height, 3)
        },
        None => crate::data_uri::encodable(rgb.data@.len() as int, rgb.width, rgb.height, 3),
    }
}

/// The mask that an alpha image of another layout makes: scaled to the size of the RGB image.
pub open spec fn alpha_mask(rgb: RgbData, transform: Affine, alpha: LumaData) -> ImageLuminanceMask {
    ImageLuminanceMask {
        image: PixelBuffer { width: alpha.width, height: alpha.height, data: alpha.data },
        transform,
        scale: Some(
            MaskScale {
                x: Ratio { numerator: rgb.width, denominator: alpha.width },
                y: Ratio { numerator: rgb.height, denominator: alpha.height },
            },
        ),
        interpolate: alpha.interpolate,
    }
}

/// Whether an image, with its alpha image if it has one, can be drawn.
pub fn is_rgba_drawable(rgb: &RgbData, alpha: &Option<LumaData>) -> (b: bool)
    ensures
        b == rgba_drawable(*rgb, *alpha),
{
    let rgb_len: usize = rgb.data.len();
    let opaque: bool = is_encodable(rgb_len, rgb.width, rgb.height, ColorType::Rgb8);
    match alpha {
        Some(alpha) => {
            let alpha_len: usize = alpha.data.len();
            if alpha.interpolate == rgb.interpolate && alpha.width == rgb.width && alpha.height
                == rgb.height {
                let pixels: usize = if rgb_len / 3 < alpha_len {
                    rgb_len / 3
                } else {
                    alpha_len
                };
                proof {
                    let size = rgb.width * rgb.height;
                    assert(size * 4 == pixels * 4 <==> size * 1 == pixels);
                }
                (rgb_len % 3 == 0 || alpha_len <= rgb_len / 3) && is_encodable(
                    pixels,
                    rgb.width,
                    rgb.height,
                    ColorType::L8,
                )
            } else {
                opaque && PixelBuffer::is_room_for(
                    alpha.width,
                    alpha.height,
                    1,
                    alpha_len,
                )
            }
        },
        None => opaque,
    }
}

/// The steps that draw an image, with its alpha image if it has one.
pub open spec fn rgba_events<P>(
    rgb: RgbData,
    transform: Affine,
    alpha: Option<LumaData>,
) -> Seq<EventView<P>> {
    let plain = byte_image_events::<P>(
        rgb.width,
        rgb.height,
        3,
        rgb.data@,
        rgb.interpolate,
        None,
        transform,
    );
    match alpha {
        Some(alpha) => if same_layout(rgb, alpha) {
            byte_image_events::<P>(
                rgb.width,
                rgb.height,
                4,
                interleaved(rgb.data@, alpha.data@),
                rgb.interpolate,
                None,
                transform,
            )
        } else {
            seq![EventView::Push(alpha_mask(rgb, transform, alpha))] + plain + seq![EventView::Pop]
        },
        None => plain,
    }
}

/// Whether a stencil can be drawn with the given paint.
pub open spec fn stencil_drawable<P>(stencil: LumaData, paint: Paint<P>) -> bool {
    match paint {
        Paint::Color(_) => crate::data_uri::encodable(
            (stencil.data@.len() * 4) as int,
            stencil.width,
            stencil.height,
            4,
        ),
        Paint::Pattern(_) => PixelBuffer::fits(
            stencil.width,
            stencil.height,
            1,
            stencil.data@.len() as int,
        ),
    }
}

/// Whether a stencil can be drawn with the given paint.
pub fn is_stencil_drawable<P>(stencil: &LumaData, paint: &Paint<P>) -> (b: bool)
    ensures
        b == stencil_drawable(*stencil, *paint),
{
    let len: usize = stencil.data.len();
    match paint {
        Paint::Color(_) => {
            proof {
                let size = stencil.width * stencil.height;
                assert(size * 4 == len * 4 <==> size * 1 == len);
            }
            is_encodable(len, stencil.width, stencil.height, ColorType::L8)
        },
        Paint::Pattern(_) => PixelBuffer::is_room_for(
            stencil.width,
            stencil.height,
            1,
            len,
        ),
    }
}

/// The steps that draw a stencil: an image of colored pixels, or a rectangle of the pattern
/// behind the stencil as a mask.
pub open spec fn stencil_events<P>(
    stencil: LumaData,
    transform: Affine,
    paint: Paint<P>,
) -> Seq<EventView<P>> {
    match paint {
        Paint::Color(color) => byte_image_events::<P>(
            stencil.width,
            stencil.height,
            4,
            stencil_pixels(stencil.data@, color@),
            stencil.interpolate,
            None,
            transform,
        ),
        Paint::Pattern(pattern) => seq![
            EventView::Push(
                ImageLuminanceMask {
                    image: PixelBuffer {
                        width: stencil.width,
                        height: stencil.height,
                        data: stencil.data,
                    },
                    transform,
                    scale: None,
                    interpolate: stencil.interpolate,
                },
            ),
            EventView::FillRect(
                stencil.width,
                stencil.height,
                transform,
                pattern,
                FillRule::NonZero,
            ),
            EventView::Pop,
        ],
    }
}

/// Writes an SVG document, as a list of the steps that write it.
pub struct SvgRenderer<P> {
    pub events: Vec<SvgEvent<P>>,
}

impl<P> View for SvgRenderer<P> {
    type V = Seq<EventView<P>>;

    open spec fn view(&self) -> Seq<EventView<P>> {
        self.events@.map_values(|e: SvgEvent<P>| e@)
    }
}

/// How an image is to be scaled, as the value of a `style` attribute.
pub open spec fn image_style(interpolate: bool) -> Seq<char> {
    if interpolate {
        "image-rendering: smooth"@
    } else {
        "image-rendering: pixelated"@
    }
}

/// The steps that write an `image` element that shows the given samples. `color` is the number of
/// samples per pixel and of bits per sample.
pub open spec fn image_events<P>(
    width: u32,
    height: u32,
    color: (int, int),
    samples: Seq<int>,
    interpolate: bool,
    id: Option<Seq<char>>,
    transform: Affine,
) -> Seq<EventView<P>> {
    let start = seq![EventView::Start("image"@)];
    let id_attr = match id {
        Some(id) => seq![EventView::Attr("id"@, id)],
        None => seq![],
    };
    start + id_attr + seq![
        EventView::Transform(transform),
        EventView::Attr(
            "xlink:href"@,
            crate::data_uri::png_uri_prefix() + crate::data_uri::base64_text(
                crate::data_uri::png_encoding(samples, width, height, color.0, color.1),
            ),
        ),
        EventView::Number("width"@, width),
        EventView::Number("height"@, height),
        EventView::Attr("preserveAspectRatio"@, "none"@),
        EventView::Attr("style"@, image_style(interpolate)),
        EventView::End,
    ]
}

/// The steps that write an `image` element that shows samples of eight bits.
pub open spec fn byte_image_events<P>(
    width: u32,
    height: u32,
    channels: int,
    data: Seq<u8>,
    interpolate: bool,
    id: Option<Seq<char>>,
    transform: Affine,
) -> Seq<EventView<P>> {
    image_events(
        width,
        height,
        (channels, 8),
        crate::data_uri::byte_samples(data),
        interpolate,
        id,
        transform,
    )
}

impl<P> SvgRenderer<P> {
    /// A renderer that has written nothing yet.
    pub fn new() -> (r: Self)
        ensures
            r@ == Seq::<EventView<P>>::empty(),
    {
        let r = SvgRenderer { events: Vec::new() };
        assert(r@ =~= Seq::<EventView<P>>::empty());
        r
    }

    fn emit(&mut self, event: SvgEvent<P>)
        ensures
            final(self)@ == old(self)@.push(event@),
            final(self).events@ == old(self).events@.push(event),
    {
        self.events.push(event);
        assert(self@ =~= old(self)@.push(event@));
    }

    /// Writes an `image` element that shows the given pixels.
    pub fn write_image_bytes(
        &mut self,
        width: u32,
        height: u32,
        color: ColorType,
        data: Pixels<'_>,
        interpolate: bool,
        id: Option<String>,
        transform: Affine,
    )
        requires
            data.suits(width, height, color),
        ensures
            final(self)@ == old(self)@ + image_events::<P>(
                width,
                height,
                color@,
                data@,
                interpolate,
                match id {
                    Some(id) => Some(id@),
                    None => None,
                },
                transform,
            ),
            final(self).events@.subrange(0, old(self).events@.len() as int) == old(self).events@,
            crate::data_uri::reads_back(data@, width, height, color@.0, color@.1),
    {
        let style: &'static str = if interpolate {
            "image-rendering: smooth"
        } else {
            "image-rendering: pixelated"
        };
        let base64: String = to_base64_bytes(width, height, color, data);
        self.emit(SvgEvent::StartElement("image"));
        if let Some(id) = id {
            self.emit(SvgEvent::Attribute { name: "id", value: id });
        }
        self.emit(SvgEvent::Transform(transform));
        self.emit(SvgEvent::Attribute { name: "xlink:href", value: base64 });
        self.emit(SvgEvent::Number { name: "width", number: width });
        self.emit(SvgEvent::Number { name: "height", number: height });
        self.emit(SvgEvent::Attribute { name: "preserveAspectRatio", value: "none".to_string() });
        self.emit(SvgEvent::Attribute { name: "style", value: style.to_string() });
        self.emit(SvgEvent::EndElement);
        assert(self@ =~= old(self)@ + image_events::<P>(
            width,
            height,
            color@,
            data@,
            interpolate,
            match id {
                Some(id) => Some(id@),
                None => None,
            },
            transform,
        ));
    }

    /// Writes an `image` element that shows the given pixels, if they can be encoded, and says
    /// whether it was written. No element is opened otherwise.
    pub fn try_write_image_bytes(
        &mut self,
        width: u32,
        height: u32,
        color: ColorType,
        data: Pixels<'_>,
        interpolate: bool,
        id: Option<String>,
        transform: Affine,
    ) -> (written: bool)
        ensures
            written == data.suits(width, height, color),
            final(self)@ == (if data.suits(width, height, color) {
                old(self)@ + image_events::<P>(
                    width,
                    height,
                    color@,
                    data@,
                    interpolate,
                    match id {
                        Some(id) => Some(id@),
                        None => None,
                    },
                    transform,
                )
            } else {
                old(self)@
            }),
            final(self).events@.subrange(0, old(self).events@.len() as int) == old(self).events@,
            written ==> crate::data_uri::reads_back(data@, width, height, color@.0, color@.1),
            !written ==> final(self).events@ == old(self).events@,
    {
        let written: bool = data.is_suitable(width, height, color);
        if written {
            self.write_image_bytes(width, height, color, data, interpolate, id, transform);
        }
        written
    }

    /// Writes an `image` element that shows an image of any format.
    pub fn write_image(
        &mut self,
        image: &SourceImage,
        interpolate: bool,
        id: Option<String>,
        transform: Affine,
    )
        requires
            image.writable(),
        ensures
            final(self)@ == old(self)@ + byte_image_events::<P>(
                image.written_size().0,
                image.written_size().1,
                image.written_channels(),
                image.written_bytes(),
                interpolate,
                match id {
                    Some(id) => Some(id@),
                    None => None,
                },
                transform,
            ),
            final(self).events@.subrange(0, old(self).events@.len() as int) == old(self).events@,
            crate::data_uri::reads_back(
                crate::data_uri::byte_samples(image.written_bytes()),
                image.written_size().0,
                image.written_size().1,
                image.written_channels(),
                8,
            ),
    {
        match image {
            SourceImage::ImageRgb8(buf) => {
                self.write_image_bytes(
                    buf.width,
                    buf.height,
                    ColorType::Rgb8,
                    Pixels::Bytes(buf.data.as_slice()),
                    interpolate,
                    id,
                    transform,
                );
            },
            SourceImage::ImageRgba8(buf) => {
                self.write_image_bytes(
                    buf.width,
                    buf.height,
                    ColorType::Rgba8,
                    Pixels::Bytes(buf.data.as_slice()),
                    interpolate,
                    id,
                    transform,
                );
            },
            SourceImage::ImageLuma8(buf) => {
                self.write_image_bytes(
                    buf.width,
                    buf.height,
                    ColorType::L8,
                    Pixels::Bytes(buf.data.as_slice()),
                    interpolate,
                    id,
                    transform,
                );
            },
            SourceImage::Other(other) => {
                let rgba: PixelBuffer = other.to_rgba8();
                self.write_image_bytes(
                    rgba.width,
                    rgba.height,
                    ColorType::Rgba8,
                    Pixels::Bytes(rgba.data.as_slice()),
                    interpolate,
                    id,
                    transform,
                );
            },
        }
    }

    /// Writes an `image` element that shows an image of any format, if that image can be
    /// written, and says whether it was.
    pub fn try_write_image(
        &mut self,
        image: &SourceImage,
        interpolate: bool,
        id: Option<String>,
        transform: Affine,
    ) -> (written: bool)
        ensures
            written == image.writable(),
            final(self)@ == (if image.writable() {
                old(self)@ + byte_image_events::<P>(
                    image.written_size().0,
                    image.written_size().1,
                    image.written_channels(),
                    image.written_bytes(),
                    interpolate,
                    match id {
                        Some(id) => Some(id@),
                        None => None,
                    },
                    transform,
                )
            } else {
                old(self)@
            }),
            final(self).events@.subrange(0, old(self).events@.len() as int) == old(self).events@,
            written ==> crate::data_uri::reads_back(
                crate::data_uri::byte_samples(image.written_bytes()),
                image.written_size().0,
                image.written_size().1,
                image.written_channels(),
                8,
            ),
            !written ==> final(self).events@ == old(self).events@,
    {
        let written: bool = image.is_writable();
        if written {
            self.write_image(image, interpolate, id, transform);
        }
        written
    }

    /// Draws an image. An alpha image of the same layout is merged into its pixels; one of
    /// another layout masks it.
    pub fn draw_rgba_image(
        &mut self,
        rgb_data: RgbData,
        transform: Affine,
        alpha: Option<LumaData>,
    )
        requires
            rgba_drawable(rgb_data, alpha),
        ensures
            final(self)@ == old(self)@ + rgba_events::<P>(rgb_data, transform, alpha),
            final(self).events@.subrange(0, old(self).events@.len() as int) == old(self).events@,
            match alpha {
                Some(alpha) if same_layout(rgb_data, alpha) => crate::data_uri::reads_back(
                    crate::data_uri::byte_samples(interleaved(rgb_data.data@, alpha.data@)),
                    rgb_data.width,
                    rgb_data.height,
                    4,
                    8,
                ),
                _ => crate::data_uri::reads_back(
                    crate::data_uri::byte_samples(rgb_data.data@),
                    rgb_data.width,
                    rgb_data.height,
                    3,
                    8,
                ),
            },
    {
        if let Some(alpha) = alpha {
            if alpha.interpolate == rgb_data.interpolate && alpha.width == rgb_data.width
                && alpha.height == rgb_data.height {
                let rgba: Vec<u8> = interleave(rgb_data.data.as_slice(), alpha.data.as_slice());
                self.write_image_bytes(
                    rgb_data.width,
                    rgb_data.height,
                    ColorType::Rgba8,
                    Pixels::Bytes(rgba.as_slice()),
                    rgb_data.interpolate,
                    None,
                    transform,
                );
            } else {
                let RgbData { data, width, height, interpolate } = rgb_data;
                let image_buf: PixelBuffer = PixelBuffer::from_raw(
                    width,
                    height,
                    3,
                    data,
                ).unwrap();
                let scale: MaskScale = MaskScale {
                    x: Ratio { numerator: width, denominator: alpha.width },
                    y: Ratio { numerator: height, denominator: alpha.height },
                };
                let mask: ImageLuminanceMask = ImageLuminanceMask {
                    image: PixelBuffer::from_raw(
                        alpha.width,
                        alpha.height,
                        1,
                        alpha.data,
                    ).unwrap(),
                    transform,
                    scale: Some(scale),
                    interpolate: alpha.interpolate,
                };
                self.emit(SvgEvent::PushMaskedGroup(mask));
                let ghost pushed = self.events@;
                self.write_image_bytes(
                    image_buf.width,
                    image_buf.height,
                    ColorType::Rgb8,
                    Pixels::Bytes(image_buf.data.as_slice()),
                    interpolate,
                    None,
                    transform,
                );
                proof {
                    let n = old(self).events@.len() as int;
                    assert(self@.len() > n + 1);
                    let kept = self.events@.subrange(0, n + 1);
                    assert(kept == pushed);
                    assert(self.events@.subrange(0, n) =~= kept.subrange(0, n));
                }
                let ghost written = self.events@;
                self.emit(SvgEvent::PopGroup);
                proof {
                    let n = old(self).events@.len() as int;
                    assert(self.events@.subrange(0, n) =~= written.subrange(0, n));
                }
            }
        } else {
            self.write_image_bytes(
                rgb_data.width,
                rgb_data.height,
                ColorType::Rgb8,
                Pixels::Bytes(rgb_data.data.as_slice()),
                rgb_data.interpolate,
                None,
                transform,
            );
        }
        assert(self@ =~= old(self)@ + rgba_events::<P>(rgb_data, transform, alpha));
    }

    /// Draws a stencil with a color or a pattern.
    pub fn draw_stencil_image(&mut self, stencil: LumaData, transform: Affine, paint: Paint<P>)
        requires
            stencil_drawable(stencil, paint),
        ensures
            final(self)@ == old(self)@ + stencil_events(stencil, transform, paint),
            final(self).events@.subrange(0, old(self).events@.len() as int) == old(self).events@,
            paint matches Paint::Color(color) ==> crate::data_uri::reads_back(
                crate::data_uri::byte_samples(stencil_pixels(stencil.data@, color@)),
                stencil.width,
                stencil.height,
                4,
                8,
            ),
    {
        let interpolate: bool = stencil.interpolate;
        match paint {
            Paint::Color(color) => {
                let pixels: Vec<u8> = color_stencil(stencil.data.as_slice(), color);
                self.write_image_bytes(
                    stencil.width,
                    stencil.height,
                    ColorType::Rgba8,
                    Pixels::Bytes(pixels.as_slice()),
                    interpolate,
                    None,
                    transform,
                );
            },
            Paint::Pattern(pattern) => {
                let mask: ImageLuminanceMask = ImageLuminanceMask {
                    image: PixelBuffer::from_raw(
                        stencil.width,
                        stencil.height,
                        1,
                        stencil.data,
                    ).unwrap(),
                    transform,
                    scale: None,
                    interpolate,
                };
                self.emit(SvgEvent::PushMaskedGroup(mask));
                self.emit(
                    SvgEvent::FillRect {
                        width: stencil.width,
                        height: stencil.height,
                        transform,
                        pattern,
                        fill_rule: FillRule::NonZero,
                    },
                );
                self.emit(SvgEvent::PopGroup);
            },
        }
        assert(self@ =~= old(self)@ + stencil_events(stencil, transform, paint));
    }
}

/// Where the writing of a document stands: how many groups are open, and whether an element is.
pub ghost struct Nesting {
    pub groups: int,
    pub in_element: bool,
}

/// Where the writing stands after one more step, or nothing if the step is out of place.
/// Attributes belong in an open element; everything else belongs outside.
pub open spec fn nesting_after<P>(at: Nesting, event: EventView<P>) -> Option<Nesting> {
    match event {
        EventView::Start(_) => if at.in_element {
            None
        } else {
            Some(Nesting { in_element: true, ..at })
        },
        EventView::Attr(_, _) | EventView::Number(_, _) | EventView::Transform(_) => if at.in_element {
            Some(at)
        } else {
            None
        },
        EventView::End => if at.in_element {
            Some(Nesting { in_element: false, ..at })
        } else {
            None
        },
        EventView::Push(_) => if at.in_element {
            None
        } else {
            Some(Nesting { groups: at.groups + 1, ..at })
        },
        EventView::FillRect(_, _, _, _, _) => if at.in_element {
            None
        } else {
            Some(at)
        },
        EventView::Pop => if at.in_element || at.groups <= 0 {
            None
        } else {
            Some(Nesting { groups: at.groups - 1, ..at })
        },
    }
}

/// Where the writing stands after a list of steps, or nothing if one of them is out of place.
pub open spec fn nesting<P>(at: Nesting, events: Seq<EventView<P>>) -> Option<Nesting>
    decreases events.len(),
{
    if events.len() == 0 {
        Some(at)
    } else {
        match nesting(at, events.drop_last()) {
            Some(before) => nesting_after(before, events.last()),
            None => None,
        }
    }
}

proof fn lemma_nesting_push<P>(at: Nesting, events: Seq<EventView<P>>, event: EventView<P>)
    ensures
        nesting(at, events.push(event)) == (match nesting(at, events) {
            Some(before) => nesting_after(before, event),
            None => None,
        }),
{
    assert(events.push(event).drop_last() =~= events);
}

proof fn lemma_nesting_concat<P>(at: Nesting, a: Seq<EventView<P>>, b: Seq<EventView<P>>)
    ensures
        nesting(at, a + b) == (match nesting(at, a) {
            Some(mid) => nesting(mid, b),
            None => None,
        }),
    decreases b.len(),
{
    if b.len() == 0 {
        assert(a + b =~= a);
    } else {
        lemma_nesting_concat(at, a, b.drop_last());
        assert((a + b).drop_last() =~= a + b.drop_last());
    }
}

/// An `image` element is opened once and closed once, with all its attributes in between.
pub proof fn law_image_element_is_closed<P>(
    groups: int,
    width: u32,
    height: u32,
    color: (int, int),
    samples: Seq<int>,
    interpolate: bool,
    id: Option<Seq<char>>,
    transform: Affine,
)
    ensures
        nesting(
            Nesting { groups, in_element: false },
            image_events::<P>(width, height, color, samples, interpolate, id, transform),
        ) == Some(Nesting { groups, in_element: false }),
{
    let at = Nesting { groups, in_element: false };
    let events = image_events::<P>(width, height, color, samples, interpolate, id, transform);
    let n = events.len() as int;
    assert forall|k: int| 0 <= k < n implies events.take(k).push(#[trigger] events[k])
        =~= events.take(k + 1) by {}
    lemma_nesting_push(at, events.take(0), events[0]);
    lemma_nesting_push(at, events.take(1), events[1]);
    lemma_nesting_push(at, events.take(2), events[2]);
    lemma_nesting_push(at, events.take(3), events[3]);
    lemma_nesting_push(at, events.take(4), events[4]);
    lemma_nesting_push(at, events.take(5), events[5]);
    lemma_nesting_push(at, events.take(6), events[6]);
    lemma_nesting_push(at, events.take(7), events[7]);
    if id is Some {
        lemma_nesting_push(at, events.take(8), events[8]);
    }
    assert(nesting(at, events.take(0)) == Some(at));
    assert(events.take(n) =~= events);
}

/// Drawing an image leaves the groups that were open open, and no other group and no element.
pub proof fn law_drawing_an_image_is_closed<P>(
    groups: int,
    rgb: RgbData,
    transform: Affine,
    alpha: Option<LumaData>,
)
    requires
        groups >= 0,
    ensures
        nesting(Nesting { groups, in_element: false }, rgba_events::<P>(rgb, transform, alpha))
            == Some(Nesting { groups, in_element: false }),
{
    let at = Nesting { groups, in_element: false };
    let inner = Nesting { groups: groups + 1, in_element: false };
    law_image_element_is_closed::<P>(
        groups,
        rgb.width,
        rgb.height,
        (3int, 8int),
        crate::data_uri::byte_samples(rgb.data@),
        rgb.interpolate,
        None,
        transform,
    );
    if let Some(alpha) = alpha {
        law_image_element_is_closed::<P>(
            groups,
            rgb.width,
            rgb.height,
            (4int, 8int),
            crate::data_uri::byte_samples(interleaved(rgb.data@, alpha.data@)),
            rgb.interpolate,
            None,
            transform,
        );
        law_image_element_is_closed::<P>(
            groups + 1,
            rgb.width,
            rgb.height,
            (3int, 8int),
            crate::data_uri::byte_samples(rgb.data@),
            rgb.interpolate,
            None,
            transform,
        );
        let push = EventView::<P>::Push(alpha_mask(rgb, transform, alpha));
        let plain = byte_image_events::<P>(
            rgb.width,
            rgb.height,
            3,
            rgb.data@,
            rgb.interpolate,
            None,
            transform,
        );
        assert(seq![push].drop_last() =~= Seq::<EventView<P>>::empty());
        assert(nesting(at, seq![push].drop_last()) == Some(at));
        assert(nesting(at, seq![push]) == Some(inner));
        lemma_nesting_concat(at, seq![push], plain);
        lemma_nesting_push(at, seq![push] + plain, EventView::<P>::Pop);
        assert(seq![push] + plain + seq![EventView::<P>::Pop] =~= (seq![push] + plain).push(
            EventView::<P>::Pop,
        ));
    }
}

/// Drawing a stencil leaves the groups that were open open, and no other group and no element.
pub proof fn law_drawing_a_stencil_is_closed<P>(
    groups: int,
    stencil: LumaData,
    transform: Affine,
    paint: Paint<P>,
)
    requires
        groups >= 0,
    ensures
        nesting(Nesting { groups, in_element: false }, stencil_events(stencil, transform, paint))
            == Some(Nesting { groups, in_element: false }),
{
    let at = Nesting { groups, in_element: false };
    match paint {
        Paint::Color(color) => {
            law_image_element_is_closed::<P>(
                groups,
                stencil.width,
                stencil.height,
                (4int, 8int),
                crate::data_uri::byte_samples(stencil_pixels(stencil.data@, color@)),
                stencil.interpolate,
                None,
                transform,
            );
        },
        Paint::Pattern(_) => {
            let events = stencil_events(stencil, transform, paint);
            assert(events.take(0).push(events[0]) =~= events.take(1));
            assert(events.take(1).push(events[1]) =~= events.take(2));
            assert(events.take(2).push(events[2]) =~= events);
            assert(nesting(at, events.take(0)) == Some(at));
            lemma_nesting_push(at, events.take(0), events[0]);
            lemma_nesting_push(at, events.take(1), events[1]);
            lemma_nesting_push(at, events.take(2), events[2]);
        },
    }
}

/// A document that is in order stays in order when more is drawn that is closed in itself, and
/// the same groups are open then.
pub proof fn law_document_stays_in_order<P>(
    start: Nesting,
    at: Nesting,
    document: Seq<EventView<P>>,
    drawn: Seq<EventView<P>>,
)
    requires
        nesting(start, document) == Some(at),
        nesting(at, drawn) == Some(at),
    ensures
        nesting(start, document + drawn) == Some(at),
{
    lemma_nesting_concat(start, document, drawn);
}

/// Merging an alpha image into an RGB image of as many pixels loses nothing: the color samples
/// and the alpha samples can be read back.
pub proof fn law_interleaving_loses_nothing(rgb: Seq<u8>, alpha: Seq<u8>)
    requires
        rgb.len() == alpha.len() * 3,
    ensures
        interleaved(rgb, alpha).len() == alpha.len() * 4,
        forall|i: int|
            0 <= i < alpha.len() ==> interleaved(rgb, alpha)[i * 4 + 3] == #[trigger] alpha[i],
        forall|i: int|
            0 <= i < rgb.len() ==> interleaved(rgb, alpha)[i / 3 * 4 + i % 3] == #[trigger] rgb[i],
{
    assert forall|i: int| 0 <= i < rgb.len() implies interleaved(rgb, alpha)[i / 3 * 4 + i % 3]
        == #[trigger] rgb[i] by {
        let j = i / 3 * 4 + i % 3;
        assert(j / 4 == i / 3 && j % 4 == i % 3);
    }
}

} // verus!
