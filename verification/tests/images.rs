use base64::Engine;
use hayro_raster::context::FillRule;
use hayro_raster::data_uri::{data_uri, is_encodable, to_base64_bytes, ColorType, Pixels};
use hayro_raster::svg_image::{
    color_stencil, interleave, is_rgba_drawable, is_stencil_drawable, LumaData, Paint,
    PixelBuffer, RgbData, SourceImage, SvgEvent, SvgRenderer,
};
use kurbo::Affine;

const PREFIX: &str = "data:image/png;base64,";

fn decode(uri: &str) -> image::DynamicImage {
    assert!(uri.starts_with(PREFIX));
    let png = base64::engine::general_purpose::STANDARD.decode(&uri[PREFIX.len()..]).unwrap();
    image::load_from_memory(&png).unwrap()
}

fn place() -> Affine {
    Affine::translate((3.0, 4.0))
}

fn text<P>(event: &SvgEvent<P>) -> String {
    match event {
        SvgEvent::StartElement(name) => format!("<{name}"),
        SvgEvent::Attribute { name, value } => {
            if *name == "xlink:href" {
                format!("{name}=...")
            } else {
                format!("{name}={value}")
            }
        }
        SvgEvent::Number { name, number } => format!("{name}={number}"),
        SvgEvent::Transform(t) => {
            assert_eq!(*t, place());
            format!("transform")
        }
        SvgEvent::EndElement => format!("/>"),
        SvgEvent::PushMaskedGroup(_) => format!("push"),
        SvgEvent::FillRect { width, height, .. } => format!("rect {width} {height}"),
        SvgEvent::PopGroup => format!("pop"),
    }
}

fn texts<P>(renderer: &SvgRenderer<P>) -> Vec<String> {
    renderer.events.iter().map(text).collect()
}

fn href<P>(renderer: &SvgRenderer<P>) -> String {
    for event in &renderer.events {
        if let SvgEvent::Attribute { name: "xlink:href", value } = event {
            return value.clone();
        }
    }
    panic!("no image was written")
}

fn rgb(data: Vec<u8>, width: u32, height: u32) -> RgbData {
    RgbData { data, width, height, interpolate: false }
}

fn luma(data: Vec<u8>, width: u32, height: u32) -> LumaData {
    LumaData { data, width, height, interpolate: false }
}

#[test]
fn a_data_uri_is_standard_base64_with_padding() {
    assert_eq!(data_uri(&[]), "data:image/png;base64,");
    assert_eq!(data_uri(b"f"), "data:image/png;base64,Zg==");
    assert_eq!(data_uri(b"fo"), "data:image/png;base64,Zm8=");
    assert_eq!(data_uri(b"foo"), "data:image/png;base64,Zm9v");
    assert_eq!(data_uri(b"foobar"), "data:image/png;base64,Zm9vYmFy");
    assert_eq!(data_uri(&[0xfb, 0xff, 0xbf]), "data:image/png;base64,+/+/");
    assert_eq!(data_uri(&[0x00, 0x10, 0x83]), "data:image/png;base64,ABCD");
    assert_eq!(data_uri(&[0x69, 0xb7, 0x1d, 0x79]), "data:image/png;base64,abcdeQ==");
    assert_eq!(data_uri(&[0xd3, 0x5d, 0xb7, 0xe3]), "data:image/png;base64,01234w==");
}

#[test]
fn base64_loses_nothing() {
    let bytes: Vec<u8> = (0..=255).collect();
    let mut seen = vec![];
    for len in 0..=256 {
        let uri = data_uri(&bytes[..len]);
        let text = &uri[PREFIX.len()..];
        let back = base64::engine::general_purpose::STANDARD.decode(text).unwrap();
        assert_eq!(back, &bytes[..len]);
        assert!(!seen.contains(&uri));
        seen.push(uri);
    }
}

#[test]
fn an_image_is_encoded_as_png() {
    let uri = to_base64_bytes(2, 1, ColorType::Rgb8, Pixels::Bytes(&[1, 2, 3, 4, 5, 6]));
    assert!(uri.starts_with("data:image/png;base64,iVBORw0KGgo"));
    let image = decode(&uri);
    assert_eq!(image.color(), image::ColorType::Rgb8);
    assert_eq!((image.width(), image.height()), (2, 1));
    assert_eq!(image.into_bytes(), vec![1, 2, 3, 4, 5, 6]);

    let gray = decode(&to_base64_bytes(1, 2, ColorType::L8, Pixels::Bytes(&[7, 8])));
    assert_eq!(gray.color(), image::ColorType::L8);
    assert_eq!((gray.width(), gray.height()), (1, 2));
    assert_eq!(gray.into_bytes(), vec![7, 8]);

    let gray_alpha = decode(&to_base64_bytes(1, 2, ColorType::La8, Pixels::Bytes(&[7, 8, 9, 10])));
    assert_eq!(gray_alpha.color(), image::ColorType::La8);
    assert_eq!((gray_alpha.width(), gray_alpha.height()), (1, 2));
    assert_eq!(gray_alpha.into_bytes(), vec![7, 8, 9, 10]);

    let rgba = decode(&to_base64_bytes(1, 1, ColorType::Rgba8, Pixels::Bytes(&[1, 2, 3, 4])));
    assert_eq!(rgba.color(), image::ColorType::Rgba8);
    assert_eq!(rgba.into_bytes(), vec![1, 2, 3, 4]);
}

#[test]
fn an_image_is_encoded_alike_each_time() {
    let data: Vec<u8> = (0..48).collect();
    let once = to_base64_bytes(4, 4, ColorType::Rgb8, Pixels::Bytes(&data));
    let again = to_base64_bytes(4, 4, ColorType::Rgb8, Pixels::Bytes(&data));
    assert_eq!(once, again);
}

#[test]
fn only_images_with_the_right_number_of_bytes_can_be_encoded() {
    assert!(is_encodable(6, 2, 1, ColorType::Rgb8));
    assert!(!is_encodable(5, 2, 1, ColorType::Rgb8));
    assert!(!is_encodable(7, 2, 1, ColorType::Rgb8));
    assert!(is_encodable(8, 2, 1, ColorType::Rgba8));
    assert!(is_encodable(2, 2, 1, ColorType::L8));
    assert!(is_encodable(4, 2, 1, ColorType::La8));
    assert!(!is_encodable(0, 0, 1, ColorType::L8));
    assert!(!is_encodable(0, 1, 0, ColorType::L8));
    assert!(!is_encodable(0, u32::MAX, u32::MAX, ColorType::Rgba8));
    assert_eq!(ColorType::Rgba8.channels(), 4);
}

#[test]
fn an_image_element_has_its_attributes_in_order() {
    let mut renderer: SvgRenderer<()> = SvgRenderer::new();
    renderer.write_image_bytes(
        1,
        2,
        ColorType::L8,
        Pixels::Bytes(&[1, 2]),
        true,
        Some("i7".to_string()),
        place(),
    );
    assert_eq!(
        texts(&renderer),
        vec![
            "<image",
            "id=i7",
            "transform",
            "xlink:href=...",
            "width=1",
            "height=2",
            "preserveAspectRatio=none",
            "style=image-rendering: smooth",
            "/>",
        ]
    );
    assert_eq!(href(&renderer), to_base64_bytes(1, 2, ColorType::L8, Pixels::Bytes(&[1, 2])));
}

#[test]
fn an_image_without_alpha_is_drawn_as_rgb() {
    let mut renderer: SvgRenderer<()> = SvgRenderer::new();
    renderer.draw_rgba_image(rgb(vec![1, 2, 3], 1, 1), place(), None);
    assert_eq!(
        texts(&renderer),
        vec![
            "<image",
            "transform",
            "xlink:href=...",
            "width=1",
            "height=1",
            "preserveAspectRatio=none",
            "style=image-rendering: pixelated",
            "/>",
        ]
    );
    assert_eq!(decode(&href(&renderer)).into_bytes(), vec![1, 2, 3]);
}

#[test]
fn alpha_of_the_same_layout_is_merged() {
    let mut renderer: SvgRenderer<()> = SvgRenderer::new();
    renderer.draw_rgba_image(
        rgb(vec![1, 2, 3, 4, 5, 6], 2, 1),
        place(),
        Some(luma(vec![7, 8], 2, 1)),
    );
    assert_eq!(renderer.events.len(), 8);
    let image = decode(&href(&renderer));
    assert_eq!(image.color(), image::ColorType::Rgba8);
    assert_eq!(image.into_bytes(), vec![1, 2, 3, 7, 4, 5, 6, 8]);
}

#[test]
fn alpha_of_another_layout_is_a_mask() {
    let mut renderer: SvgRenderer<()> = SvgRenderer::new();
    renderer.draw_rgba_image(
        rgb(vec![1, 2, 3, 4, 5, 6], 2, 1),
        place(),
        Some(luma(vec![7, 8, 9, 10], 2, 2)),
    );
    let all = texts(&renderer);
    assert_eq!(all.len(), 10);
    assert_eq!((all[0].as_str(), all[9].as_str()), ("push", "pop"));
    match &renderer.events[0] {
        SvgEvent::PushMaskedGroup(mask) => {
            assert_eq!((mask.image.width, mask.image.height), (2, 2));
            assert_eq!(mask.image.data, vec![7, 8, 9, 10]);
            assert_eq!(mask.transform, place());
            assert!(!mask.interpolate);
            let scale = mask.scale.unwrap();
            assert_eq!((scale.x.numerator, scale.x.denominator), (2, 2));
            assert_eq!((scale.y.numerator, scale.y.denominator), (1, 2));
        }
        _ => panic!("no mask"),
    }
    assert_eq!(decode(&href(&renderer)).into_bytes(), vec![1, 2, 3, 4, 5, 6]);

    let mut smooth: SvgRenderer<()> = SvgRenderer::new();
    let mut alpha = luma(vec![7], 1, 1);
    alpha.interpolate = true;
    smooth.draw_rgba_image(rgb(vec![1, 2, 3], 1, 1), place(), Some(alpha));
    assert_eq!(texts(&smooth)[0], "push");
}

#[test]
fn a_colored_stencil_is_an_image() {
    let mut renderer: SvgRenderer<()> = SvgRenderer::new();
    renderer.draw_stencil_image(
        luma(vec![255, 254, 0, 255], 2, 2),
        place(),
        Paint::Color([9, 8, 7, 6]),
    );
    assert_eq!(renderer.events.len(), 8);
    assert_eq!(
        decode(&href(&renderer)).into_bytes(),
        vec![9, 8, 7, 6, 0, 0, 0, 0, 0, 0, 0, 0, 9, 8, 7, 6]
    );
}

#[test]
fn a_patterned_stencil_is_a_masked_rectangle() {
    let mut renderer: SvgRenderer<&'static str> = SvgRenderer::new();
    renderer.draw_stencil_image(
        luma(vec![255, 0, 1], 3, 1),
        place(),
        Paint::Pattern("stripes"),
    );
    assert_eq!(texts(&renderer), vec!["push", "rect 3 1", "pop"]);
    match &renderer.events[0] {
        SvgEvent::PushMaskedGroup(mask) => {
            assert_eq!(mask.image.data, vec![255, 0, 1]);
            assert!(mask.scale.is_none());
            assert_eq!(mask.transform, place());
        }
        _ => panic!("no mask"),
    }
    match &renderer.events[1] {
        SvgEvent::FillRect { transform, pattern, fill_rule, .. } => {
            assert_eq!(*fill_rule, FillRule::NonZero);
            assert_eq!(*transform, place());
            assert_eq!(*pattern, "stripes");
        }
        _ => panic!("no rectangle"),
    }
}

#[test]
fn images_are_written_in_their_format() {
    let cases = [
        (SourceImage::ImageRgb8(buffer(vec![1, 2, 3])), image::ColorType::Rgb8, vec![1, 2, 3]),
        (
            SourceImage::ImageRgba8(buffer(vec![1, 2, 3, 4])),
            image::ColorType::Rgba8,
            vec![1, 2, 3, 4],
        ),
        (SourceImage::ImageLuma8(buffer(vec![5])), image::ColorType::L8, vec![5]),
    ];
    for (source, color, bytes) in cases {
        assert!(source.is_writable());
        let mut renderer: SvgRenderer<()> = SvgRenderer::new();
        renderer.write_image(&source, false, None, place());
        let image = decode(&href(&renderer));
        assert_eq!(image.color(), color);
        assert_eq!(image.into_bytes(), bytes);
    }
}

fn buffer(data: Vec<u8>) -> PixelBuffer {
    PixelBuffer { width: 1, height: 1, data }
}

#[test]
fn images_of_other_formats_are_converted() {
    let gray = image::ImageBuffer::from_raw(1, 2, vec![10u8, 255, 20, 0]).unwrap();
    let source = SourceImage::new(image::DynamicImage::ImageLumaA8(gray));
    assert!(source.is_writable());
    let mut renderer: SvgRenderer<()> = SvgRenderer::new();
    renderer.write_image(&source, false, Some("m".to_string()), place());
    let written = decode(&href(&renderer));
    assert_eq!((written.width(), written.height()), (1, 2));
    assert_eq!(written.into_bytes(), vec![10, 10, 10, 255, 20, 20, 20, 0]);

    let deep = image::ImageBuffer::from_raw(1, 1, vec![65535u16, 0, 257]).unwrap();
    let source = SourceImage::new(image::DynamicImage::ImageRgb16(deep));
    let mut renderer: SvgRenderer<()> = SvgRenderer::new();
    renderer.write_image(&source, false, None, place());
    assert_eq!(decode(&href(&renderer)).into_bytes(), vec![255, 0, 1, 255]);

    let nothing = SourceImage::new(image::DynamicImage::new_luma_a8(0, 3));
    assert!(!nothing.is_writable());
    let mut renderer: SvgRenderer<()> = SvgRenderer::new();
    assert!(!renderer.try_write_image(&nothing, false, None, place()));
    assert!(renderer.events.is_empty());
    assert!(renderer.try_write_image(&source, false, None, place()));
    assert_eq!(decode(&href(&renderer)).into_bytes(), vec![255, 0, 1, 255]);
    assert!(!SourceImage::ImageLuma8(buffer(vec![1, 2])).is_writable());
}

#[test]
fn images_that_cannot_be_drawn_are_told_apart() {
    assert!(is_rgba_drawable(&rgb(vec![0; 3], 1, 1), &None));
    assert!(!is_rgba_drawable(&rgb(vec![0; 4], 1, 1), &None));
    assert!(!is_rgba_drawable(&rgb(vec![], 0, 1), &None));
    assert!(is_rgba_drawable(&rgb(vec![0; 3], 1, 1), &Some(luma(vec![0; 2], 1, 1))));
    assert!(is_rgba_drawable(&rgb(vec![0; 7], 1, 1), &Some(luma(vec![0; 1], 1, 1))));
    assert!(!is_rgba_drawable(&rgb(vec![0; 7], 1, 1), &Some(luma(vec![0; 3], 1, 1))));
    assert!(!is_rgba_drawable(&rgb(vec![0; 6], 1, 1), &Some(luma(vec![0; 2], 1, 1))));
    assert!(is_rgba_drawable(&rgb(vec![0; 3], 1, 1), &Some(luma(vec![0; 9], 2, 2))));
    assert!(!is_rgba_drawable(&rgb(vec![0; 3], 1, 1), &Some(luma(vec![0; 3], 2, 2))));

    assert!(is_stencil_drawable(&luma(vec![0; 2], 2, 1), &Paint::<()>::Color([0; 4])));
    assert!(!is_stencil_drawable(&luma(vec![0; 3], 2, 1), &Paint::<()>::Color([0; 4])));
    assert!(is_stencil_drawable(&luma(vec![0; 3], 2, 1), &Paint::Pattern(())));
    assert!(!is_stencil_drawable(&luma(vec![0; 1], 2, 1), &Paint::Pattern(())));
}

#[test]
fn pixels_and_alpha_are_interleaved() {
    assert_eq!(interleave(&[1, 2, 3, 4, 5, 6], &[7, 8]), vec![1, 2, 3, 7, 4, 5, 6, 8]);
    assert_eq!(interleave(&[1, 2, 3, 4, 5, 6], &[7]), vec![1, 2, 3, 7]);
    assert_eq!(interleave(&[1, 2, 3], &[7, 8]), vec![1, 2, 3, 7]);
    assert_eq!(interleave(&[1, 2, 3, 4], &[7]), vec![1, 2, 3, 7]);
    assert!(interleave(&[], &[7]).is_empty());
}

#[test]
fn a_stencil_is_colored_where_it_is_set() {
    assert_eq!(color_stencil(&[255, 128], [1, 2, 3, 4]), vec![1, 2, 3, 4, 0, 0, 0, 0]);
}

#[test]
fn a_buffer_must_have_room_for_the_image() {
    assert!(PixelBuffer::from_raw(2, 2, 1, vec![0; 4]).is_some());
    assert!(PixelBuffer::from_raw(2, 2, 1, vec![0; 5]).is_some());
    assert!(PixelBuffer::from_raw(2, 2, 1, vec![0; 3]).is_none());
    assert!(PixelBuffer::from_raw(u32::MAX, u32::MAX, 4, vec![0; 3]).is_none());
    let image = PixelBuffer::from_raw(1, 1, 3, vec![1, 2, 3]).unwrap();
    assert_eq!(image.data, vec![1, 2, 3]);
}

#[test]
fn the_formats_of_images_are_told_apart() {
    let image = image::ImageBuffer::from_raw(1, 1, vec![1u8, 2, 3]).unwrap();
    match SourceImage::new(image::DynamicImage::ImageRgb8(image)) {
        SourceImage::ImageRgb8(buf) => assert_eq!(buf.data, vec![1, 2, 3]),
        _ => panic!("not in RGB8"),
    }
    let image = image::ImageBuffer::from_raw(1, 1, vec![1u8, 2, 3, 4]).unwrap();
    match SourceImage::new(image::DynamicImage::ImageRgba8(image)) {
        SourceImage::ImageRgba8(buf) => assert_eq!(buf.data, vec![1, 2, 3, 4]),
        _ => panic!("not in RGBA8"),
    }
    let image = image::ImageBuffer::from_raw(2, 1, vec![5u8, 6]).unwrap();
    match SourceImage::new(image::DynamicImage::ImageLuma8(image)) {
        SourceImage::ImageLuma8(buf) => {
            assert_eq!((buf.width, buf.height), (2, 1));
            assert_eq!(buf.data, vec![5, 6]);
        }
        _ => panic!("not in L8"),
    }
    let image = image::ImageBuffer::from_raw(1, 1, vec![9u8, 128]).unwrap();
    match SourceImage::new(image::DynamicImage::ImageLumaA8(image)) {
        SourceImage::Other(other) => assert_eq!(other.to_rgba8().data, vec![9, 9, 9, 128]),
        _ => panic!("in a format that is written as it is"),
    }
}

#[test]
fn no_element_is_opened_for_pixels_that_cannot_be_encoded() {
    let mut renderer: SvgRenderer<()> = SvgRenderer::new();
    for (width, height, data) in [(1, 1, vec![0; 2]), (0, 1, vec![]), (1, 0, vec![])] {
        let written = renderer.try_write_image_bytes(
            width,
            height,
            ColorType::Rgb8,
            Pixels::Bytes(&data),
            false,
            None,
            place(),
        );
        assert!(!written);
        assert!(renderer.events.is_empty());
    }
    assert!(renderer.try_write_image_bytes(
        1,
        1,
        ColorType::Rgb8,
        Pixels::Bytes(&[1, 2, 3]),
        false,
        None,
        place(),
    ));
    assert_eq!(decode(&href(&renderer)).into_bytes(), vec![1, 2, 3]);
}

#[test]
fn samples_of_sixteen_bits_are_encoded_as_png() {
    let words: Vec<u16> = vec![0x0102, 0xfffe, 0x8000, 7, 0x1234, 0xabcd, 256, 255];
    let uri = to_base64_bytes(2, 4, ColorType::L16, Pixels::Words(&words));
    let image = decode(&uri);
    assert_eq!(image.color(), image::ColorType::L16);
    assert_eq!((image.width(), image.height()), (2, 4));
    assert_eq!(image.into_luma16().into_raw(), words);

    let image = decode(&to_base64_bytes(2, 2, ColorType::La16, Pixels::Words(&words)));
    assert_eq!(image.color(), image::ColorType::La16);
    assert_eq!(image.into_luma_alpha16().into_raw(), words);

    let image = decode(&to_base64_bytes(1, 2, ColorType::Rgb16, Pixels::Words(&words[..6])));
    assert_eq!(image.color(), image::ColorType::Rgb16);
    assert_eq!(image.into_rgb16().into_raw(), &words[..6]);

    let image = decode(&to_base64_bytes(1, 2, ColorType::Rgba16, Pixels::Words(&words)));
    assert_eq!(image.color(), image::ColorType::Rgba16);
    assert_eq!((image.width(), image.height()), (1, 2));
    assert_eq!(image.into_rgba16().into_raw(), words);
}

#[test]
fn samples_must_have_the_depth_of_the_format() {
    assert!(Pixels::Bytes(&[1, 2]).is_suitable(1, 2, ColorType::L8));
    assert!(Pixels::Words(&[1, 2]).is_suitable(1, 2, ColorType::L16));
    assert!(Pixels::Words(&[1, 2]).is_suitable(1, 1, ColorType::La16));
    assert!(!Pixels::Bytes(&[1, 2]).is_suitable(1, 2, ColorType::L16));
    assert!(!Pixels::Bytes(&[1, 2, 3, 4]).is_suitable(1, 2, ColorType::L16));
    assert!(!Pixels::Words(&[1, 2]).is_suitable(1, 2, ColorType::L8));
    assert!(!Pixels::Words(&[1, 2, 3]).is_suitable(1, 2, ColorType::L16));
    assert!(!Pixels::Words(&[]).is_suitable(0, 2, ColorType::Rgba16));
    assert_eq!((ColorType::La16.channels(), ColorType::La16.depth()), (2, 16));
    assert_eq!((ColorType::Rgb8.channels(), ColorType::Rgb8.depth()), (3, 8));
}

#[test]
fn an_image_element_shows_samples_of_sixteen_bits() {
    let mut renderer: SvgRenderer<()> = SvgRenderer::new();
    let words = [0x0102, 0x0304, 0x0506];
    renderer.write_image_bytes(
        1,
        1,
        ColorType::Rgb16,
        Pixels::Words(&words),
        false,
        None,
        place(),
    );
    assert_eq!(renderer.events.len(), 8);
    assert_eq!(decode(&href(&renderer)).into_rgb16().into_raw(), words);
    assert!(!renderer.try_write_image_bytes(
        1,
        1,
        ColorType::Rgb8,
        Pixels::Words(&words),
        false,
        None,
        place(),
    ));
    assert_eq!(renderer.events.len(), 8);
}
