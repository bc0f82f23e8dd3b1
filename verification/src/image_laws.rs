use crate::context::FillRule;
use crate::data_uri::{data_uri, is_encodable, to_base64_bytes, ColorType, Pixels};
use crate::svg_image::{
    color_stencil, interleave, is_rgba_drawable, is_stencil_drawable, EventView, LumaData, Paint,
    PixelBuffer, RgbData, SourceImage, SvgEvent, SvgRenderer,
};
use kurbo::Affine;
use vstd::prelude::*;

verus! {

/// What the steps of an `image` element hold, one by one.
proof fn lemma_element<P>(
    events: Seq<SvgEvent<P>>,
    at: int,
    width: u32,
    height: u32,
    color: (int, int),
    samples: Seq<int>,
    interpolate: bool,
    id: Option<Seq<char>>,
    transform: Affine,
)
    requires
        0 <= at,
        at + crate::svg_image::image_events::<P>(
            width,
            height,
            color,
            samples,
            interpolate,
            id,
            transform,
        ).len() <= events.len(),
        forall|j: int|
            0 <= j < crate::svg_image::image_events::<P>(
                width,
                height,
                color,
                samples,
                interpolate,
                id,
                transform,
            ).len() ==> (#[trigger] events[at + j])@ == crate::svg_image::image_events::<P>(
                width,
                height,
                color,
                samples,
                interpolate,
                id,
                transform,
            )[j],
    ensures
        ({
            let k: int = if id is Some {
                1
            } else {
                0
            };
            &&& events[at]@ == EventView::<P>::Start("image"@)
            &&& id matches Some(text) ==> events[at + 1]@ == EventView::<P>::Attr("id"@, text)
            &&& events[at + 1 + k]@ == EventView::<P>::Transform(transform)
            &&& events[at + 2 + k]@ == EventView::<P>::Attr(
                "xlink:href"@,
                "data:image/png;base64,"@ + crate::data_uri::base64_text(
                    crate::data_uri::png_encoding(samples, width, height, color.0, color.1),
                ),
            )
            &&& events[at + 3 + k]@ == EventView::<P>::Number("width"@, width)
            &&& events[at + 4 + k]@ == EventView::<P>::Number("height"@, height)
            &&& events[at + 5 + k]@ == EventView::<P>::Attr("preserveAspectRatio"@, "none"@)
            &&& events[at + 6 + k]@ == EventView::<P>::Attr(
                "style"@,
                if interpolate {
                    "image-rendering: smooth"@
                } else {
                    "image-rendering: pixelated"@
                },
            )
            &&& events[at + 7 + k]@ == EventView::<P>::End
        }),
{
    let k: int = if id is Some {
        1
    } else {
        0
    };
    let steps = crate::svg_image::image_events::<P>(
        width,
        height,
        color,
        samples,
        interpolate,
        id,
        transform,
    );
    assert(steps.len() == 8 + k);
    assert(events[at + 0]@ == steps[0]);
    assert(events[at + 1]@ == steps[1]);
    assert(events[at + (1 + k)]@ == steps[1 + k]);
    assert(events[at + (2 + k)]@ == steps[2 + k]);
    assert(events[at + (3 + k)]@ == steps[3 + k]);
    assert(events[at + (4 + k)]@ == steps[4 + k]);
    assert(events[at + (5 + k)]@ == steps[5 + k]);
    assert(events[at + (6 + k)]@ == steps[6 + k]);
    assert(events[at + (7 + k)]@ == steps[7 + k]);
}

/// The steps that a renderer has added, as its view gives them.
proof fn lemma_added<P>(
    before: SvgRenderer<P>,
    after: SvgRenderer<P>,
    added: Seq<EventView<P>>,
)
    requires
        after@ == before@ + added,
    ensures
        after.events@.len() == before.events@.len() + added.len(),
        forall|j: int|
            0 <= j < added.len() ==> (#[trigger] after.events@[before.events@.len() + j])@
                == added[j],
{
    assert(after@.len() == after.events@.len());
    assert(before@.len() == before.events@.len());
    assert forall|j: int| 0 <= j < added.len() implies (#[trigger] after.events@[before.events@.len()
        + j])@ == added[j] by {
        let i = before.events@.len() + j;
        assert(after@[i] == after.events@[i]@);
        assert(after@[i] == added[j]);
    }
}

/// An `image` element is written at the end of the document: it is opened, has its id if there is
/// one, its transform, its pixels, its size, and how it is to be scaled, and it is closed. The file
/// in its `xlink:href` (the first part of what is returned) decodes to an image of the given size
/// and format with the given samples (the second part).
pub proof fn law_image_element_shows_the_pixels<P>(
    r: &mut SvgRenderer<P>,
    n: int,
    width: u32,
    height: u32,
    color: ColorType,
    data: Pixels<'_>,
    interpolate: bool,
    id: Option<String>,
    transform: Affine,
    k: int,
) -> (shown: (Seq<u8>, Seq<int>))
    requires
        n == old(r).events@.len(),
        call_ensures(
            SvgRenderer::<P>::write_image_bytes,
            (r, width, height, color, data, interpolate, id, transform),
            (),
        ),
        k == (if id is Some {
            1int
        } else {
            0int
        }),
    ensures
        final(r).events@.len() == n + 8 + k,
        final(r).events@.subrange(0, n) == old(r).events@,
        id matches Some(text) ==> (final(r).events@[n + 1] matches SvgEvent::Attribute { name, value } && name@ == "id"@ && value@ == text@),
        final(r).events@[n] matches SvgEvent::StartElement(name) && name@ == "image"@,
        final(r).events@[n + 1 + k] matches SvgEvent::Transform(t) && t == transform,
        final(r).events@[n + 2 + k] matches SvgEvent::Attribute { name, value } && name@ == "xlink:href"@
            && value@ == "data:image/png;base64,"@ + crate::data_uri::base64_text(shown.0),
        crate::data_uri::png_image(shown.0) == Some((width, height, match color {
                    ColorType::L8 | ColorType::L16 => 1int,
                    ColorType::La8 | ColorType::La16 => 2int,
                    ColorType::Rgb8 | ColorType::Rgb16 => 3int,
                    ColorType::Rgba8 | ColorType::Rgba16 => 4int,
                }, match color {
                    ColorType::L8 | ColorType::La8 | ColorType::Rgb8 | ColorType::Rgba8 => 8int,
                    _ => 16int,
                }, shown.1)),
        final(r).events@[n + 3 + k] matches SvgEvent::Number { name, number } && name@ == "width"@
            && number == width,
        final(r).events@[n + 4 + k] matches SvgEvent::Number { name, number } && name@ == "height"@
            && number == height,
        final(r).events@[n + 5 + k] matches SvgEvent::Attribute { name, value } && name@
            == "preserveAspectRatio"@ && value@ == "none"@,
        final(r).events@[n + 6 + k] matches SvgEvent::Attribute { name, value } && name@ == "style"@
            && value@ == (if interpolate {
            "image-rendering: smooth"@
        } else {
            "image-rendering: pixelated"@
        }),
        final(r).events@[n + 7 + k] is EndElement,
        match data {
            Pixels::Bytes(bytes) => shown.1.len() == bytes@.len() && forall|i: int|
                0 <= i < bytes@.len() ==> #[trigger] shown.1[i] == bytes@[i] as int,
            Pixels::Words(words) => shown.1.len() == words@.len() && forall|i: int|
                0 <= i < words@.len() ==> #[trigger] shown.1[i] == words@[i] as int,
        },
{
    let id_text: Option<Seq<char>> = match id {
        Some(id) => Some(id@),
        None => None,
    };
    let added = crate::svg_image::image_events::<P>(
        width,
        height,
        color@,
        data@,
        interpolate,
        id_text,
        transform,
    );
    lemma_added(*old(r), *final(r), added);
    lemma_element(
        final(r).events@,
        n,
        width,
        height,
        color@,
        data@,
        interpolate,
        id_text,
        transform,
    );
    (crate::data_uri::png_encoding(data@, width, height, color@.0, color@.1), data@)
}

/// Pixels that are written after a test make the same element as without one.
pub proof fn law_tried_pixels_are_shown<P>(
    r: &mut SvgRenderer<P>,
    n: int,
    width: u32,
    height: u32,
    color: ColorType,
    data: Pixels<'_>,
    interpolate: bool,
    id: Option<String>,
    transform: Affine,
    k: int,
) -> (shown: (Seq<u8>, Seq<int>))
    requires
        n == old(r).events@.len(),
        call_ensures(
            SvgRenderer::<P>::try_write_image_bytes,
            (r, width, height, color, data, interpolate, id, transform),
            true,
        ),
        k == (if id is Some {
            1int
        } else {
            0int
        }),
    ensures
        final(r).events@.len() == n + 8 + k,
        final(r).events@.subrange(0, n) == old(r).events@,
        id matches Some(text) ==> (final(r).events@[n + 1] matches SvgEvent::Attribute { name, value } && name@ == "id"@ && value@ == text@),
        final(r).events@[n] matches SvgEvent::StartElement(name) && name@ == "image"@,
        final(r).events@[n + 1 + k] matches SvgEvent::Transform(t) && t == transform,
        final(r).events@[n + 2 + k] matches SvgEvent::Attribute { name, value } && name@ == "xlink:href"@
            && value@ == "data:image/png;base64,"@ + crate::data_uri::base64_text(shown.0),
        crate::data_uri::png_image(shown.0) == Some((width, height, match color {
                    ColorType::L8 | ColorType::L16 => 1int,
                    ColorType::La8 | ColorType::La16 => 2int,
                    ColorType::Rgb8 | ColorType::Rgb16 => 3int,
                    ColorType::Rgba8 | ColorType::Rgba16 => 4int,
                }, match color {
                    ColorType::L8 | ColorType::La8 | ColorType::Rgb8 | ColorType::Rgba8 => 8int,
                    _ => 16int,
                }, shown.1)),
        final(r).events@[n + 3 + k] matches SvgEvent::Number { name, number } && name@ == "width"@
            && number == width,
        final(r).events@[n + 4 + k] matches SvgEvent::Number { name, number } && name@ == "height"@
            && number == height,
        final(r).events@[n + 5 + k] matches SvgEvent::Attribute { name, value } && name@
            == "preserveAspectRatio"@ && value@ == "none"@,
        final(r).events@[n + 6 + k] matches SvgEvent::Attribute { name, value } && name@ == "style"@
            && value@ == (if interpolate {
            "image-rendering: smooth"@
        } else {
            "image-rendering: pixelated"@
        }),
        final(r).events@[n + 7 + k] is EndElement,
        match data {
            Pixels::Bytes(bytes) => shown.1.len() == bytes@.len() && forall|i: int|
                0 <= i < bytes@.len() ==> #[trigger] shown.1[i] == bytes@[i] as int,
            Pixels::Words(words) => shown.1.len() == words@.len() && forall|i: int|
                0 <= i < words@.len() ==> #[trigger] shown.1[i] == words@[i] as int,
        },
{
    let id_text: Option<Seq<char>> = match id {
        Some(id) => Some(id@),
        None => None,
    };
    let added = crate::svg_image::image_events::<P>(
        width,
        height,
        color@,
        data@,
        interpolate,
        id_text,
        transform,
    );
    lemma_added(*old(r), *final(r), added);
    lemma_element(
        final(r).events@,
        n,
        width,
        height,
        color@,
        data@,
        interpolate,
        id_text,
        transform,
    );
    (crate::data_uri::png_encoding(data@, width, height, color@.0, color@.1), data@)
}

/// An image without an alpha image is drawn as an `image` element of its own size that shows its
/// pixels.
pub proof fn law_opaque_image_is_shown<P>(
    r: &mut SvgRenderer<P>,
    n: int,
    rgb: RgbData,
    transform: Affine,
) -> (shown: (Seq<u8>, Seq<int>))
    requires
        n == old(r).events@.len(),
        call_ensures(SvgRenderer::<P>::draw_rgba_image, (r, rgb, transform, None), ()),
    ensures
        final(r).events@.len() == n + 8,
        final(r).events@.subrange(0, n) == old(r).events@,
        final(r).events@[n] matches SvgEvent::StartElement(name) && name@ == "image"@,
        final(r).events@[n + 1] matches SvgEvent::Transform(t) && t == transform,
        final(r).events@[n + 2] matches SvgEvent::Attribute { name, value } && name@ == "xlink:href"@
            && value@ == "data:image/png;base64,"@ + crate::data_uri::base64_text(shown.0),
        crate::data_uri::png_image(shown.0) == Some((rgb.width, rgb.height, 3int, 8int, shown.1)),
        final(r).events@[n + 3] matches SvgEvent::Number { name, number } && name@ == "width"@
            && number == rgb.width,
        final(r).events@[n + 4] matches SvgEvent::Number { name, number } && name@ == "height"@
            && number == rgb.height,
        final(r).events@[n + 5] matches SvgEvent::Attribute { name, value } && name@
            == "preserveAspectRatio"@ && value@ == "none"@,
        final(r).events@[n + 6] matches SvgEvent::Attribute { name, value } && name@ == "style"@
            && value@ == (if rgb.interpolate {
            "image-rendering: smooth"@
        } else {
            "image-rendering: pixelated"@
        }),
        final(r).events@[n + 7] is EndElement,
        shown.1.len() == rgb.data@.len(),
        forall|i: int| 0 <= i < rgb.data@.len() ==> #[trigger] shown.1[i] == rgb.data@[i] as int,
{
    lemma_added(
        *old(r),
        *final(r),
        crate::svg_image::rgba_events::<P>(rgb, transform, None),
    );
    let samples = crate::data_uri::byte_samples(rgb.data@);
    lemma_element(
        final(r).events@,
        n,
        rgb.width,
        rgb.height,
        (3int, 8),
        samples,
        rgb.interpolate,
        None,
        transform,
    );
    (crate::data_uri::png_encoding(samples, rgb.width, rgb.height, 3int, 8), samples)
}

/// An alpha image of the same size that is scaled alike is merged into the image: an `image`
/// element shows each pixel's color with its alpha sample.
pub proof fn law_alpha_of_the_same_layout_is_merged<P>(
    r: &mut SvgRenderer<P>,
    n: int,
    rgb: RgbData,
    transform: Affine,
    alpha: LumaData,
) -> (shown: (Seq<u8>, Seq<int>))
    requires
        n == old(r).events@.len(),
        call_ensures(SvgRenderer::<P>::draw_rgba_image, (r, rgb, transform, Some(alpha)), ()),
        alpha.width == rgb.width,
        alpha.height == rgb.height,
        alpha.interpolate == rgb.interpolate,
    ensures
        final(r).events@.len() == n + 8,
        final(r).events@.subrange(0, n) == old(r).events@,
        final(r).events@[n] matches SvgEvent::StartElement(name) && name@ == "image"@,
        final(r).events@[n + 1] matches SvgEvent::Transform(t) && t == transform,
        final(r).events@[n + 2] matches SvgEvent::Attribute { name, value } && name@ == "xlink:href"@
            && value@ == "data:image/png;base64,"@ + crate::data_uri::base64_text(shown.0),
        crate::data_uri::png_image(shown.0) == Some((rgb.width, rgb.height, 4int, 8int, shown.1)),
        final(r).events@[n + 3] matches SvgEvent::Number { name, number } && name@ == "width"@
            && number == rgb.width,
        final(r).events@[n + 4] matches SvgEvent::Number { name, number } && name@ == "height"@
            && number == rgb.height,
        final(r).events@[n + 5] matches SvgEvent::Attribute { name, value } && name@
            == "preserveAspectRatio"@ && value@ == "none"@,
        final(r).events@[n + 6] matches SvgEvent::Attribute { name, value } && name@ == "style"@
            && value@ == (if rgb.interpolate {
            "image-rendering: smooth"@
        } else {
            "image-rendering: pixelated"@
        }),
        final(r).events@[n + 7] is EndElement,
        forall|i: int, c: int|
            0 <= i && 0 <= c < 3 && i * 4 + c < shown.1.len() ==> #[trigger] shown.1[i * 4 + c]
                == rgb.data@[i * 3 + c] as int,
        forall|i: int|
            0 <= i && i * 4 + 3 < shown.1.len() ==> #[trigger] shown.1[i * 4 + 3]
                == alpha.data@[i] as int,
        rgb.data@.len() / 3 <= alpha.data@.len() ==> shown.1.len() == rgb.data@.len() / 3 * 4,
        alpha.data@.len() <= rgb.data@.len() / 3 ==> shown.1.len() == alpha.data@.len() * 4,
{
    lemma_added(
        *old(r),
        *final(r),
        crate::svg_image::rgba_events::<P>(rgb, transform, Some(alpha)),
    );
    let merged = crate::svg_image::interleaved(rgb.data@, alpha.data@);
    let samples = crate::data_uri::byte_samples(merged);
    lemma_element(
        final(r).events@,
        n,
        rgb.width,
        rgb.height,
        (4int, 8),
        samples,
        rgb.interpolate,
        None,
        transform,
    );
    (crate::data_uri::png_encoding(samples, rgb.width, rgb.height, 4int, 8), samples)
}

/// An alpha image of another layout masks the image, and covers it exactly: the mask, which is
/// the alpha image, is scaled to the width and the height of the image before it is transformed
/// like the image. The group behind the mask holds the image and is closed.
pub proof fn law_alpha_of_another_layout_covers_the_image<P>(
    r: &mut SvgRenderer<P>,
    n: int,
    rgb: RgbData,
    transform: Affine,
    alpha: LumaData,
) -> (shown: (Seq<u8>, Seq<int>))
    requires
        n == old(r).events@.len(),
        call_ensures(SvgRenderer::<P>::draw_rgba_image, (r, rgb, transform, Some(alpha)), ()),
        alpha.width != rgb.width || alpha.height != rgb.height || alpha.interpolate
            != rgb.interpolate,
    ensures
        final(r).events@.len() == n + 10,
        final(r).events@.subrange(0, n) == old(r).events@,
        final(r).events@[n] matches SvgEvent::PushMaskedGroup(mask) && {
            &&& mask.image.width == alpha.width
            &&& mask.image.height == alpha.height
            &&& mask.image.data@ == alpha.data@
            &&& mask.transform == transform
            &&& mask.interpolate == alpha.interpolate
            &&& mask.scale matches Some(s) && {
                &&& s.x.denominator == mask.image.width
                &&& s.y.denominator == mask.image.height
                &&& mask.image.width * s.x.numerator == rgb.width * s.x.denominator
                &&& mask.image.height * s.y.numerator == rgb.height * s.y.denominator
                &&& s.x.numerator == rgb.width
                &&& s.y.numerator == rgb.height
            }
        },
        final(r).events@[n + 1] matches SvgEvent::StartElement(name) && name@ == "image"@,
        final(r).events@[n + 1 + 1] matches SvgEvent::Transform(t) && t == transform,
        final(r).events@[n + 1 + 2] matches SvgEvent::Attribute { name, value } && name@ == "xlink:href"@
            && value@ == "data:image/png;base64,"@ + crate::data_uri::base64_text(shown.0),
        crate::data_uri::png_image(shown.0) == Some((rgb.width, rgb.height, 3int, 8int, shown.1)),
        final(r).events@[n + 1 + 3] matches SvgEvent::Number { name, number } && name@ == "width"@
            && number == rgb.width,
        final(r).events@[n + 1 + 4] matches SvgEvent::Number { name, number } && name@ == "height"@
            && number == rgb.height,
        final(r).events@[n + 1 + 5] matches SvgEvent::Attribute { name, value } && name@
            == "preserveAspectRatio"@ && value@ == "none"@,
        final(r).events@[n + 1 + 6] matches SvgEvent::Attribute { name, value } && name@ == "style"@
            && value@ == (if rgb.interpolate {
            "image-rendering: smooth"@
        } else {
            "image-rendering: pixelated"@
        }),
        final(r).events@[n + 1 + 7] is EndElement,
        shown.1.len() == rgb.data@.len(),
        forall|i: int| 0 <= i < rgb.data@.len() ==> #[trigger] shown.1[i] == rgb.data@[i] as int,
        final(r).events@[n + 9] is PopGroup,
{
    let added = crate::svg_image::rgba_events::<P>(rgb, transform, Some(alpha));
    lemma_added(*old(r), *final(r), added);
    assert(final(r).events@[n + 0]@ == added[0]);
    assert(final(r).events@[n + 9]@ == added[9]);
    assert(alpha.width * rgb.width == rgb.width * alpha.width) by (nonlinear_arith);
    assert(alpha.height * rgb.height == rgb.height * alpha.height) by (nonlinear_arith);
    let plain = crate::svg_image::byte_image_events::<P>(
        rgb.width,
        rgb.height,
        3,
        rgb.data@,
        rgb.interpolate,
        None,
        transform,
    );
    assert forall|j: int| 0 <= j < plain.len() implies (#[trigger] final(r).events@[(n + 1) + j])@
        == plain[j] by {
        assert(final(r).events@[n + (1 + j)]@ == added[1 + j]);
        assert(added[1 + j] == plain[j]);
    }
    let samples = crate::data_uri::byte_samples(rgb.data@);
    lemma_element(
        final(r).events@,
        n + 1,
        rgb.width,
        rgb.height,
        (3int, 8),
        samples,
        rgb.interpolate,
        None,
        transform,
    );
    (crate::data_uri::png_encoding(samples, rgb.width, rgb.height, 3int, 8), samples)
}

/// A colored stencil is shown at its own size: an `image` element of the stencil's width and
/// height, whose file decodes to that many RGBA8 pixels. The pixel in column `x` and row `y` has
/// the color if the stencil's sample there is 255, and is clear otherwise.
pub proof fn law_colored_stencil_is_shown_at_its_own_size<P>(
    r: &mut SvgRenderer<P>,
    n: int,
    stencil: LumaData,
    transform: Affine,
    color: [u8; 4],
) -> (shown: (Seq<u8>, Seq<int>))
    requires
        n == old(r).events@.len(),
        call_ensures(
            SvgRenderer::<P>::draw_stencil_image,
            (r, stencil, transform, Paint::Color(color)),
            (),
        ),
    ensures
        final(r).events@.len() == n + 8,
        final(r).events@.subrange(0, n) == old(r).events@,
        final(r).events@[n] matches SvgEvent::StartElement(name) && name@ == "image"@,
        final(r).events@[n + 1] matches SvgEvent::Transform(t) && t == transform,
        final(r).events@[n + 2] matches SvgEvent::Attribute { name, value } && name@ == "xlink:href"@
            && value@ == "data:image/png;base64,"@ + crate::data_uri::base64_text(shown.0),
        crate::data_uri::png_image(shown.0) == Some((stencil.width, stencil.height, 4int, 8int, shown.1)),
        final(r).events@[n + 3] matches SvgEvent::Number { name, number } && name@ == "width"@
            && number == stencil.width,
        final(r).events@[n + 4] matches SvgEvent::Number { name, number } && name@ == "height"@
            && number == stencil.height,
        final(r).events@[n + 5] matches SvgEvent::Attribute { name, value } && name@
            == "preserveAspectRatio"@ && value@ == "none"@,
        final(r).events@[n + 6] matches SvgEvent::Attribute { name, value } && name@ == "style"@
            && value@ == (if stencil.interpolate {
            "image-rendering: smooth"@
        } else {
            "image-rendering: pixelated"@
        }),
        final(r).events@[n + 7] is EndElement,
        shown.1.len() == stencil.data@.len() * 4,
        forall|i: int, c: int|
            0 <= i < stencil.data@.len() && 0 <= c < 4 ==> #[trigger] shown.1[i * 4 + c] == (
            if stencil.data@[i] == 255 {
                color@[c] as int
            } else {
                0int
            }),
        stencil.data@.len() == stencil.width * stencil.height ==> forall|x: int, y: int, c: int|
            0 <= x < stencil.width && 0 <= y < stencil.height && 0 <= c < 4 ==> #[trigger] shown.1[(y
                * stencil.width + x) * 4 + c] == (if stencil.data@[y * stencil.width + x] == 255 {
                color@[c] as int
            } else {
                0int
            }),
{
    let paint = Paint::<P>::Color(color);
    lemma_added(
        *old(r),
        *final(r),
        crate::svg_image::stencil_events(stencil, transform, paint),
    );
    let pixels = crate::svg_image::stencil_pixels(stencil.data@, color@);
    let w = stencil.width as int;
    let h = stencil.height as int;
    assert forall|i: int, c: int| 0 <= i < stencil.data@.len() && 0 <= c < 4 implies #[trigger] (
    crate::data_uri::byte_samples(pixels)[i * 4 + c]) == (if stencil.data@[i] == 255 {
        color@[c] as int
    } else {
        0int
    }) by {
        assert((i * 4 + c) / 4 == i && (i * 4 + c) % 4 == c);
    }
    if stencil.data@.len() == w * h {
        assert forall|x: int, y: int, c: int|
            0 <= x < w && 0 <= y < h && 0 <= c < 4 implies #[trigger] (
        crate::data_uri::byte_samples(pixels)[(y * w + x) * 4 + c]) == (if stencil.data@[y * w + x]
            == 255 {
            color@[c] as int
        } else {
            0int
        }) by {
            assert(0 <= y * w + x < w * h) by (nonlinear_arith)
                requires
                    0 <= x < w,
                    0 <= y < h,
            ;
            let i = y * w + x;
            assert(0 <= i < stencil.data@.len());
            assert((i * 4 + c) / 4 == i && (i * 4 + c) % 4 == c);
        }
    }
    let samples = crate::data_uri::byte_samples(pixels);
    lemma_element(
        final(r).events@,
        n,
        stencil.width,
        stencil.height,
        (4int, 8),
        samples,
        stencil.interpolate,
        None,
        transform,
    );
    (crate::data_uri::png_encoding(samples, stencil.width, stencil.height, 4int, 8), samples)
}

/// A stencil that is filled with a pattern is a rectangle of the stencil's size, filled with the
/// pattern by the nonzero rule, behind the stencil as a mask.
pub proof fn law_patterned_stencil_masks_a_rectangle<P>(
    r: &mut SvgRenderer<P>,
    n: int,
    stencil: LumaData,
    transform: Affine,
    pattern: P,
)
    requires
        n == old(r).events@.len(),
        call_ensures(
            SvgRenderer::<P>::draw_stencil_image,
            (r, stencil, transform, Paint::Pattern(pattern)),
            (),
        ),
    ensures
        final(r).events@.len() == n + 3,
        final(r).events@.subrange(0, n) == old(r).events@,
        final(r).events@[n] matches SvgEvent::PushMaskedGroup(mask) && {
            &&& mask.image.width == stencil.width
            &&& mask.image.height == stencil.height
            &&& mask.image.data@ == stencil.data@
            &&& mask.transform == transform
            &&& mask.scale is None
            &&& mask.interpolate == stencil.interpolate
        },
        final(r).events@[n + 1] matches SvgEvent::FillRect {
            width,
            height,
            transform: placed,
            pattern: filled,
            fill_rule,
        } && width == stencil.width && height == stencil.height && placed == transform && filled
            == pattern && fill_rule == FillRule::NonZero,
        final(r).events@[n + 2] is PopGroup,
{
    let added = crate::svg_image::stencil_events(stencil, transform, Paint::Pattern(pattern));
    lemma_added(*old(r), *final(r), added);
    assert(final(r).events@[n + 0]@ == added[0]);
    assert(final(r).events@[n + 1]@ == added[1]);
    assert(final(r).events@[n + 2]@ == added[2]);
}

/// An image in RGB8, RGBA8 or L8 is shown with its own samples, and any other image with what it
/// is as RGBA8.
pub proof fn law_image_of_any_format_is_shown<P>(
    r: &mut SvgRenderer<P>,
    n: int,
    image: &SourceImage,
    interpolate: bool,
    id: Option<String>,
    transform: Affine,
    k: int,
    width: u32,
    height: u32,
    channels: int,
    data: Seq<u8>,
) -> (shown: (Seq<u8>, Seq<int>))
    requires
        n == old(r).events@.len(),
        call_ensures(
            SvgRenderer::<P>::write_image,
            (r, image, interpolate, id, transform),
            (),
        ),
        (width, height, channels, data) == (match *image {
            SourceImage::ImageRgb8(buf) => (buf.width, buf.height, 3int, buf.data@),
            SourceImage::ImageRgba8(buf) => (buf.width, buf.height, 4int, buf.data@),
            SourceImage::ImageLuma8(buf) => (buf.width, buf.height, 1int, buf.data@),
            SourceImage::Other(other) => (
                crate::svg_image::rgba8_image(other.image()).0,
                crate::svg_image::rgba8_image(other.image()).1,
                4int,
                crate::svg_image::rgba8_image(other.image()).2,
            ),
        }),
        k == (if id is Some {
            1int
        } else {
            0int
        }),
    ensures
        final(r).events@.len() == n + 8 + k,
        final(r).events@.subrange(0, n) == old(r).events@,
        id matches Some(text) ==> (final(r).events@[n + 1] matches SvgEvent::Attribute { name, value } && name@ == "id"@ && value@ == text@),
        final(r).events@[n] matches SvgEvent::StartElement(name) && name@ == "image"@,
        final(r).events@[n + 1 + k] matches SvgEvent::Transform(t) && t == transform,
        final(r).events@[n + 2 + k] matches SvgEvent::Attribute { name, value } && name@ == "xlink:href"@
            && value@ == "data:image/png;base64,"@ + crate::data_uri::base64_text(shown.0),
        crate::data_uri::png_image(shown.0) == Some((width, height, channels, 8int, shown.1)),
        final(r).events@[n + 3 + k] matches SvgEvent::Number { name, number } && name@ == "width"@
            && number == width,
        final(r).events@[n + 4 + k] matches SvgEvent::Number { name, number } && name@ == "height"@
            && number == height,
        final(r).events@[n + 5 + k] matches SvgEvent::Attribute { name, value } && name@
            == "preserveAspectRatio"@ && value@ == "none"@,
        final(r).events@[n + 6 + k] matches SvgEvent::Attribute { name, value } && name@ == "style"@
            && value@ == (if interpolate {
            "image-rendering: smooth"@
        } else {
            "image-rendering: pixelated"@
        }),
        final(r).events@[n + 7 + k] is EndElement,
        shown.1.len() == data.len(),
        forall|i: int| 0 <= i < data.len() ==> #[trigger] shown.1[i] == data[i] as int,
{
    let id_text: Option<Seq<char>> = match id {
        Some(id) => Some(id@),
        None => None,
    };
    let added = crate::svg_image::byte_image_events::<P>(
        width,
        height,
        channels,
        data,
        interpolate,
        id_text,
        transform,
    );
    lemma_added(*old(r), *final(r), added);
    let samples = crate::data_uri::byte_samples(data);
    lemma_element(
        final(r).events@,
        n,
        width,
        height,
        (channels, 8),
        samples,
        interpolate,
        id_text,
        transform,
    );
    (crate::data_uri::png_encoding(samples, width, height, channels, 8), samples)
}

/// An image of any format that is written after a test makes the same element as without one.
pub proof fn law_tried_image_is_shown<P>(
    r: &mut SvgRenderer<P>,
    n: int,
    image: &SourceImage,
    interpolate: bool,
    id: Option<String>,
    transform: Affine,
    k: int,
    width: u32,
    height: u32,
    channels: int,
    data: Seq<u8>,
) -> (shown: (Seq<u8>, Seq<int>))
    requires
        n == old(r).events@.len(),
        call_ensures(
            SvgRenderer::<P>::try_write_image,
            (r, image, interpolate, id, transform),
            true,
        ),
        (width, height, channels, data) == (match *image {
            SourceImage::ImageRgb8(buf) => (buf.width, buf.height, 3int, buf.data@),
            SourceImage::ImageRgba8(buf) => (buf.width, buf.height, 4int, buf.data@),
            SourceImage::ImageLuma8(buf) => (buf.width, buf.height, 1int, buf.data@),
            SourceImage::Other(other) => (
                crate::svg_image::rgba8_image(other.image()).0,
                crate::svg_image::rgba8_image(other.image()).1,
                4int,
                crate::svg_image::rgba8_image(other.image()).2,
            ),
        }),
        k == (if id is Some {
            1int
        } else {
            0int
        }),
    ensures
        final(r).events@.len() == n + 8 + k,
        final(r).events@.subrange(0, n) == old(r).events@,
        id matches Some(text) ==> (final(r).events@[n + 1] matches SvgEvent::Attribute { name, value } && name@ == "id"@ && value@ == text@),
        final(r).events@[n] matches SvgEvent::StartElement(name) && name@ == "image"@,
        final(r).events@[n + 1 + k] matches SvgEvent::Transform(t) && t == transform,
        final(r).events@[n + 2 + k] matches SvgEvent::Attribute { name, value } && name@ == "xlink:href"@
            && value@ == "data:image/png;base64,"@ + crate::data_uri::base64_text(shown.0),
        crate::data_uri::png_image(shown.0) == Some((width, height, channels, 8int, shown.1)),
        final(r).events@[n + 3 + k] matches SvgEvent::Number { name, number } && name@ == "width"@
            && number == width,
        final(r).events@[n + 4 + k] matches SvgEvent::Number { name, number } && name@ == "height"@
            && number == height,
        final(r).events@[n + 5 + k] matches SvgEvent::Attribute { name, value } && name@
            == "preserveAspectRatio"@ && value@ == "none"@,
        final(r).events@[n + 6 + k] matches SvgEvent::Attribute { name, value } && name@ == "style"@
            && value@ == (if interpolate {
            "image-rendering: smooth"@
        } else {
            "image-rendering: pixelated"@
        }),
        final(r).events@[n + 7 + k] is EndElement,
        shown.1.len() == data.len(),
        forall|i: int| 0 <= i < data.len() ==> #[trigger] shown.1[i] == data[i] as int,
{
    let id_text: Option<Seq<char>> = match id {
        Some(id) => Some(id@),
        None => None,
    };
    let added = crate::svg_image::byte_image_events::<P>(
        width,
        height,
        channels,
        data,
        interpolate,
        id_text,
        transform,
    );
    lemma_added(*old(r), *final(r), added);
    let samples = crate::data_uri::byte_samples(data);
    lemma_element(
        final(r).events@,
        n,
        width,
        height,
        (channels, 8),
        samples,
        interpolate,
        id_text,
        transform,
    );
    (crate::data_uri::png_encoding(samples, width, height, channels, 8), samples)
}

/// Pixels that cannot be encoded leave the document as it was, and all others are written:
/// those are pixels of the format's depth, exactly as many samples as an image with pixels takes.
pub proof fn law_only_whole_images_are_written<P>(
    r: &mut SvgRenderer<P>,
    width: u32,
    height: u32,
    color: ColorType,
    data: Pixels<'_>,
    interpolate: bool,
    id: Option<String>,
    transform: Affine,
    written: bool,
)
    requires
        call_ensures(
            SvgRenderer::<P>::try_write_image_bytes,
            (r, width, height, color, data, interpolate, id, transform),
            written,
        ),
    ensures
        written <==> {
            &&& width > 0
            &&& height > 0
            &&& match (data, color) {
                (Pixels::Bytes(bytes), ColorType::L8) => bytes@.len() == width * height,
                (Pixels::Bytes(bytes), ColorType::La8) => bytes@.len() == width * height * 2,
                (Pixels::Bytes(bytes), ColorType::Rgb8) => bytes@.len() == width * height * 3,
                (Pixels::Bytes(bytes), ColorType::Rgba8) => bytes@.len() == width * height * 4,
                (Pixels::Words(words), ColorType::L16) => words@.len() == width * height,
                (Pixels::Words(words), ColorType::La16) => words@.len() == width * height * 2,
                (Pixels::Words(words), ColorType::Rgb16) => words@.len() == width * height * 3,
                (Pixels::Words(words), ColorType::Rgba16) => words@.len() == width * height * 4,
                _ => false,
            }
        },
        !written ==> final(r).events@ == old(r).events@,
        written ==> final(r).events@.len() > old(r).events@.len(),
{
    assert(width * height * 1 == width * height);
    if written {
        let id_text: Option<Seq<char>> = match id {
            Some(id) => Some(id@),
            None => None,
        };
        lemma_added(
            *old(r),
            *final(r),
            crate::svg_image::image_events::<P>(
                width,
                height,
                color@,
                data@,
                interpolate,
                id_text,
                transform,
            ),
        );
    }
}

/// An image of any format is written exactly if it has pixels and exactly the bytes that they
/// take; otherwise the document stays as it was.
pub proof fn law_only_whole_images_of_any_format_are_written<P>(
    r: &mut SvgRenderer<P>,
    image: &SourceImage,
    interpolate: bool,
    id: Option<String>,
    transform: Affine,
    written: bool,
)
    requires
        call_ensures(
            SvgRenderer::<P>::try_write_image,
            (r, image, interpolate, id, transform),
            written,
        ),
    ensures
        written <==> match *image {
            SourceImage::ImageRgb8(buf) => buf.width > 0 && buf.height > 0 && buf.data@.len()
                == buf.width * buf.height * 3,
            SourceImage::ImageRgba8(buf) => buf.width > 0 && buf.height > 0 && buf.data@.len()
                == buf.width * buf.height * 4,
            SourceImage::ImageLuma8(buf) => buf.width > 0 && buf.height > 0 && buf.data@.len()
                == buf.width * buf.height,
            SourceImage::Other(other) => {
                let rgba = crate::svg_image::rgba8_image(other.image());
                rgba.0 > 0 && rgba.1 > 0 && rgba.2.len() == rgba.0 * rgba.1 * 4
            },
        },
        !written ==> final(r).events@ == old(r).events@,
        written ==> final(r).events@.len() > old(r).events@.len(),
{
    if let SourceImage::ImageLuma8(buf) = *image {
        assert(buf.width * buf.height * 1 == buf.width * buf.height);
    }
    if written {
        let id_text: Option<Seq<char>> = match id {
            Some(id) => Some(id@),
            None => None,
        };
        lemma_added(
            *old(r),
            *final(r),
            crate::svg_image::byte_image_events::<P>(
                image.written_size().0,
                image.written_size().1,
                image.written_channels(),
                image.written_bytes(),
                interpolate,
                id_text,
                transform,
            ),
        );
    }
}

/// Which images can be drawn. One without an alpha image, or with one of another layout, must have
/// pixels and exactly the bytes that they take, and the alpha image a byte for each of its pixels
/// at least. One with an alpha image of the same layout must have pixels, and as many of them must
/// have both a color and an alpha byte.
pub proof fn law_which_images_can_be_drawn(rgb: RgbData, alpha: Option<LumaData>, b: bool)
    requires
        call_ensures(is_rgba_drawable, (&rgb, &alpha), b),
    ensures
        alpha is None ==> (b <==> rgb.width > 0 && rgb.height > 0 && rgb.data@.len() == rgb.width
            * rgb.height * 3),
        alpha matches Some(a) ==> (a.width != rgb.width || a.height != rgb.height || a.interpolate
            != rgb.interpolate) ==> (b <==> rgb.width > 0 && rgb.height > 0 && rgb.data@.len()
            == rgb.width * rgb.height * 3 && a.data@.len() >= a.width * a.height),
        alpha matches Some(a) ==> (a.width == rgb.width && a.height == rgb.height && a.interpolate
            == rgb.interpolate && a.data@.len() == a.width * a.height && rgb.data@.len() == rgb.width
            * rgb.height * 3) ==> (b <==> rgb.width > 0 && rgb.height > 0),
        alpha matches Some(a) ==> (a.width == rgb.width && a.height == rgb.height && a.interpolate
            == rgb.interpolate && b) ==> {
            &&& rgb.data@.len() >= rgb.width * rgb.height * 3
            &&& a.data@.len() >= rgb.width * rgb.height
            &&& rgb.data@.len() / 3 == rgb.width * rgb.height || a.data@.len() == rgb.width
                * rgb.height
        },
{
    if let Some(a) = alpha {
        assert(a.width * a.height * 1 == a.width * a.height);
        let size = rgb.width * rgb.height;
        assert(size * 3 / 3 == size);
    }
}

/// Which stencils can be drawn: with a color, those that have pixels and a byte for each; with a
/// pattern, those with a byte for each pixel at least.
pub proof fn law_which_stencils_can_be_drawn<P>(stencil: LumaData, paint: Paint<P>, b: bool)
    requires
        call_ensures(is_stencil_drawable::<P>, (&stencil, &paint), b),
    ensures
        paint is Color ==> (b <==> stencil.width > 0 && stencil.height > 0 && stencil.data@.len()
            == stencil.width * stencil.height),
        paint is Pattern ==> (b <==> stencil.data@.len() >= stencil.width * stencil.height),
{
    let size = stencil.width * stencil.height;
    assert(size * 1 == size);
    assert(size * 4 == stencil.data@.len() * 4 <==> size == stencil.data@.len());
}

/// Interleaving puts each alpha byte behind the color that it belongs to, for as many pixels as
/// there are both whole colors and alpha bytes.
pub proof fn law_interleaving_keeps_pixels_together(rgb: &[u8], alpha: &[u8], rgba: Vec<u8>)
    requires
        call_ensures(interleave, (rgb, alpha), rgba),
    ensures
        rgb@.len() / 3 <= alpha@.len() ==> rgba@.len() == rgb@.len() / 3 * 4,
        alpha@.len() <= rgb@.len() / 3 ==> rgba@.len() == alpha@.len() * 4,
        forall|i: int, c: int|
            0 <= i && 0 <= c < 3 && i * 4 + c < rgba@.len() ==> #[trigger] rgba@[i * 4 + c]
                == rgb@[i * 3 + c],
        forall|i: int|
            0 <= i && i * 4 + 3 < rgba@.len() ==> #[trigger] rgba@[i * 4 + 3] == alpha@[i],
{
}

/// A stencil is colored where it is set, which is where its sample is 255, and clear elsewhere.
pub proof fn law_stencil_is_colored_where_it_is_set(
    stencil: &[u8],
    color: [u8; 4],
    rgba: Vec<u8>,
    i: int,
    c: int,
)
    requires
        call_ensures(color_stencil, (stencil, color), rgba),
        0 <= i < stencil@.len(),
        0 <= c < 4,
    ensures
        rgba@.len() == stencil@.len() * 4,
        stencil@[i] == 255 ==> rgba@[i * 4 + c] == color@[c],
        stencil@[i] != 255 ==> rgba@[i * 4 + c] == 0,
{
    assert((i * 4 + c) / 4 == i && (i * 4 + c) % 4 == c);
}

/// As many samples make an image that can be encoded as its pixels take.
pub proof fn law_samples_of_an_image(
    len: usize,
    width: u32,
    height: u32,
    color: ColorType,
    channels: u8,
    b: bool,
)
    requires
        call_ensures(is_encodable, (len, width, height, color), b),
        call_ensures(ColorType::channels, (color,), channels),
    ensures
        b <==> width > 0 && height > 0 && len == width * height * channels,
        channels == (match color {
            ColorType::L8 | ColorType::L16 => 1int,
            ColorType::La8 | ColorType::La16 => 2int,
            ColorType::Rgb8 | ColorType::Rgb16 => 3int,
            ColorType::Rgba8 | ColorType::Rgba16 => 4int,
        }),
{
}

/// Samples suit a format if they have its depth and make an image.
pub proof fn law_samples_that_suit_a_format(
    data: &Pixels<'_>,
    width: u32,
    height: u32,
    color: ColorType,
    b: bool,
    depth: u8,
    encodable: bool,
    len: usize,
)
    requires
        call_ensures(Pixels::<'_>::is_suitable, (data, width, height, color), b),
        call_ensures(ColorType::depth, (color,), depth),
        call_ensures(is_encodable, (len, width, height, color), encodable),
        len == (match *data {
            Pixels::Bytes(bytes) => bytes@.len(),
            Pixels::Words(words) => words@.len(),
        }),
    ensures
        b <==> encodable && (*data is Bytes <==> depth == 8),
        depth == 8 || depth == 16,
{
}

/// A renderer begins with an empty document.
pub proof fn law_document_begins_empty<P>(r: SvgRenderer<P>)
    requires
        call_ensures(SvgRenderer::<P>::new, (), r),
    ensures
        r.events@.len() == 0,
{
    assert(r@.len() == r.events@.len());
}

/// An image that is held as RGB8, RGBA8 or L8 keeps its size and its bytes, and any other image
/// is kept as it is.
pub proof fn law_formats_are_told_apart(image: image::DynamicImage, source: SourceImage)
    requires
        call_ensures(SourceImage::new, (image,), source),
    ensures
        match source {
            SourceImage::ImageRgb8(buf) => crate::svg_image::plain_pixels(image) == Some(
                (3int, buf.width, buf.height, buf.data@),
            ),
            SourceImage::ImageRgba8(buf) => crate::svg_image::plain_pixels(image) == Some(
                (4int, buf.width, buf.height, buf.data@),
            ),
            SourceImage::ImageLuma8(buf) => crate::svg_image::plain_pixels(image) == Some(
                (1int, buf.width, buf.height, buf.data@),
            ),
            SourceImage::Other(other) => crate::svg_image::plain_pixels(image) is None
                && crate::svg_image::rgba8_image(image) == crate::svg_image::rgba8_image(
                other.image(),
            ),
        },
{
}

/// A data URI is the Base64 text of the file behind the prefix of PNG images.
pub proof fn law_data_uri_is_the_text_of_the_file(png: &[u8], uri: String)
    requires
        call_ensures(data_uri, (png,), uri),
    ensures
        uri@ == "data:image/png;base64,"@ + crate::data_uri::base64_text(png@),
{
}

/// A buffer is taken for an image exactly if it holds a byte for each channel of each pixel, and
/// then it is the image's buffer.
pub proof fn law_buffer_holds_the_image(
    width: u32,
    height: u32,
    channels: u8,
    data: Vec<u8>,
    image: Option<PixelBuffer>,
)
    requires
        call_ensures(PixelBuffer::from_raw, (width, height, channels, data), image),
    ensures
        image is Some <==> data@.len() >= width * height * channels,
        image matches Some(buf) ==> buf.width == width && buf.height == height && buf.data == data,
{
}

/// A data URI holds the file of the image: any file with that URI decodes to it.
pub proof fn law_data_uri_holds_the_image(
    width: u32,
    height: u32,
    color: ColorType,
    data: Pixels<'_>,
    uri: String,
    file: Seq<u8>,
)
    requires
        call_ensures(to_base64_bytes, (width, height, color, data), uri),
        uri@ == "data:image/png;base64,"@ + crate::data_uri::base64_text(file),
    ensures
        crate::data_uri::png_image(file) matches Some((w, h, channels, depth, samples)) && {
            &&& w == width
            &&& h == height
            &&& channels == (match color {
                ColorType::L8 | ColorType::L16 => 1int,
                ColorType::La8 | ColorType::La16 => 2int,
                ColorType::Rgb8 | ColorType::Rgb16 => 3int,
                ColorType::Rgba8 | ColorType::Rgba16 => 4int,
            })
            &&& depth == (match color {
                ColorType::L8 | ColorType::La8 | ColorType::Rgb8 | ColorType::Rgba8 => 8int,
                _ => 16int,
            })
            &&& samples == data@
        },
{
}

} // verus!
