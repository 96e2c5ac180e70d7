use image::{Rgba, RgbaImage};
use layercomp::render::{render_composite, RenderError};
use std::io::Cursor;

fn png_bytes(img: &image::DynamicImage) -> Vec<u8> {
    let mut buf: Vec<u8> = Vec::new();
    img.write_to(&mut Cursor::new(&mut buf), image::ImageOutputFormat::Png)
        .unwrap();
    buf
}

fn solid(width: u32, height: u32, pixel: [u8; 4]) -> Vec<u8> {
    png_bytes(&image::DynamicImage::ImageRgba8(RgbaImage::from_pixel(
        width,
        height,
        Rgba(pixel),
    )))
}

#[test]
fn no_assets_render_the_blank_canvas() {
    let out = render_composite(&Vec::new()).unwrap();
    let decoded = image::load_from_memory(&out).unwrap().to_rgba8();
    assert_eq!(decoded.dimensions(), (32, 32));
    assert_eq!(*decoded.get_pixel(0, 0), Rgba([0, 0, 0, 255]));
    assert_eq!(*decoded.get_pixel(31, 31), Rgba([0, 0, 0, 255]));
}

#[test]
fn single_opaque_asset_covers_the_canvas() {
    let assets = vec![solid(32, 32, [255, 0, 0, 255])];
    let out = render_composite(&assets).unwrap();
    let decoded = image::load_from_memory(&out).unwrap().to_rgba8();
    assert_eq!(decoded.dimensions(), (32, 32));
    assert_eq!(*decoded.get_pixel(0, 0), Rgba([255, 0, 0, 255]));
    assert_eq!(*decoded.get_pixel(31, 31), Rgba([255, 0, 0, 255]));
}

#[test]
fn later_layer_sits_on_top_where_opaque() {
    // Bottom layer: fully blue. Top layer: red in the upper half, fully
    // transparent in the lower half, so the bottom layer shows through there.
    let bottom = solid(32, 32, [0, 0, 255, 255]);
    let mut top_img = RgbaImage::from_pixel(32, 32, Rgba([0, 0, 0, 0]));
    for y in 0..16 {
        for x in 0..32 {
            top_img.put_pixel(x, y, Rgba([255, 0, 0, 255]));
        }
    }
    let top = png_bytes(&image::DynamicImage::ImageRgba8(top_img));
    let out = render_composite(&vec![bottom, top]).unwrap();
    let decoded = image::load_from_memory(&out).unwrap().to_rgba8();
    assert_eq!(*decoded.get_pixel(5, 5), Rgba([255, 0, 0, 255]));
    assert_eq!(*decoded.get_pixel(5, 20), Rgba([0, 0, 255, 255]));
}

#[test]
fn smaller_asset_leaves_the_rest_of_the_canvas() {
    let bottom = solid(32, 32, [0, 255, 0, 255]);
    let small = solid(8, 8, [255, 0, 0, 255]);
    let out = render_composite(&vec![bottom, small]).unwrap();
    let decoded = image::load_from_memory(&out).unwrap().to_rgba8();
    assert_eq!(*decoded.get_pixel(2, 2), Rgba([255, 0, 0, 255]));
    assert_eq!(*decoded.get_pixel(20, 20), Rgba([0, 255, 0, 255]));
}

#[test]
fn rendering_twice_gives_identical_bytes() {
    let assets = vec![solid(32, 32, [10, 20, 30, 255]), solid(16, 16, [200, 100, 0, 128])];
    let first = render_composite(&assets).unwrap();
    let second = render_composite(&assets).unwrap();
    assert_eq!(first, second);
}

#[test]
fn undecodable_asset_fails_with_its_position() {
    let good = solid(32, 32, [1, 2, 3, 255]);
    let garbage = vec![0u8, 1, 2, 3, 4];
    let result = render_composite(&vec![good, garbage]);
    assert_eq!(result, Err(RenderError::UndecodableAsset { position: 1 }));
}

#[test]
fn first_undecodable_asset_wins() {
    let good = solid(32, 32, [1, 2, 3, 255]);
    let result = render_composite(&vec![Vec::new(), good, vec![9u8]]);
    assert_eq!(result, Err(RenderError::UndecodableAsset { position: 0 }));
}
