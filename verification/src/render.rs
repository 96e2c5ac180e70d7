//! Compositing: a blank fixed-size canvas, one decoded asset overlaid per
//! layer in layer order, and the result encoded as PNG bytes. The pixel work
//! itself is done by the image crate behind trusted declarations; everything
//! around it — the order of the overlays, which asset stops the run, what the
//! produced bytes are a function of — is verified.

use vstd::prelude::*;

verus! {

/// The image crate's in-memory image. Opaque here: its observable content is
/// abstracted by `image_content`.
#[verifier::external_type_specification]
#[verifier::external_body]
pub struct ExDynamicImage(image::DynamicImage);

/// The image crate's error type, carried through and mapped to this
/// library's own error.
#[verifier::external_type_specification]
#[verifier::external_body]
pub struct ExImageError(image::ImageError);

/// The complete observable content of an in-memory image — dimensions, color
/// layout and pixel data — as one abstract sequence. Two images with equal
/// content behave alike under overlaying and encoding.
pub uninterp spec fn image_content(img: image::DynamicImage) -> Seq<u32>;

/// What image::load_from_memory returns for the given bytes: the content of
/// the decoded image, or nothing when the bytes do not decode. Decoding is a
/// pure function of the bytes.
pub uninterp spec fn decoded_content(bytes: Seq<u8>) -> Option<Seq<u32>>;

/// What image::RgbImage::new returns for the given dimensions: the content of
/// an all-zero (black) canvas.
pub uninterp spec fn blank_content(width: u32, height: u32) -> Seq<u32>;

/// What image::imageops::overlay leaves in its bottom image when the top
/// image is blended over it at the top-left corner.
pub uninterp spec fn overlay_content(base: Seq<u32>, top: Seq<u32>) -> Seq<u32>;

/// What encoding an image of the given content as PNG yields, or nothing when
/// that content cannot be PNG-encoded. Encoding is a pure function of the
/// content.
pub uninterp spec fn png_encoding(content: Seq<u32>) -> Option<Seq<u8>>;

/// Relies on image::load_from_memory: guesses the format and decodes, a
/// deterministic function of the input bytes alone.
#[verifier::external_body]
fn decode_image(bytes: &Vec<u8>) -> (r: Result<image::DynamicImage, image::ImageError>)
    ensures
        match r {
            Ok(img) => decoded_content(bytes@) == Some(image_content(img)),
            Err(_) => decoded_content(bytes@) is None,
        },
{
    image::load_from_memory(bytes)
}

/// Relies on image::RgbImage::new: an RGB buffer of the given size with every
/// pixel zeroed. The size bound keeps the buffer length far from overflowing,
/// which image::ImageBuffer::new panics on.
#[verifier::external_body]
fn new_canvas(width: u32, height: u32) -> (img: image::DynamicImage)
    requires
        width <= 4096,
        height <= 4096,
    ensures
        image_content(img) == blank_content(width, height),
{
    image::DynamicImage::ImageRgb8(image::RgbImage::new(width, height))
}

/// Relies on image::imageops::overlay: blends the top image over the bottom
/// one at the top-left corner, cropping whatever falls outside; a
/// deterministic function of the two images.
#[verifier::external_body]
fn overlay_onto(base: &mut image::DynamicImage, top: &image::DynamicImage)
    ensures
        image_content(*final(base)) == overlay_content(image_content(*old(base)), image_content(*top)),
{
    image::imageops::overlay(base, top, 0, 0);
}

/// Relies on image::DynamicImage::write_to with the PNG format: encodes into
/// the in-memory buffer, a deterministic function of the image.
#[verifier::external_body]
fn encode_png(img: &image::DynamicImage) -> (r: Result<Vec<u8>, image::ImageError>)
    ensures
        match r {
            Ok(bytes) => png_encoding(image_content(*img)) == Some(bytes@),
            Err(_) => png_encoding(image_content(*img)) is None,
        },
{
    let mut buffer: Vec<u8> = Vec::new();
    match img.write_to(&mut std::io::Cursor::new(&mut buffer), image::ImageOutputFormat::Png) {
        Ok(()) => Ok(buffer),
        Err(e) => Err(e),
    }
}

/// Why one composite could not be produced: the asset at the given position
/// in the permutation did not decode as an image, or the finished canvas
/// could not be encoded.
#[derive(Clone, Copy, Debug, PartialEq, Eq, Structural)]
pub enum RenderError {
    UndecodableAsset { position: usize },
    EncodingFailed,
}

/// The pairing of one layer's directory name with the option chosen for it.
pub struct Selection {
    pub layer: String,
    pub filename: String,
}

/// Pairs each layer directory name with the option the permutation picks for
/// it, position by position.
pub fn make_selections(layers: &Vec<String>, permutation: &Vec<String>) -> (r: Vec<Selection>)
    requires
        layers@.len() == permutation@.len(),
    ensures
        r@.len() == layers@.len(),
        forall|i: int|
            0 <= i < r@.len() ==> (#[trigger] r@[i]).layer@ == layers@[i]@ && r@[i].filename@
                == permutation@[i]@,
{
    let mut r: Vec<Selection> = Vec::new();
    let mut i: usize = 0;
    while i < layers.len()
        invariant
            i <= layers@.len(),
            layers@.len() == permutation@.len(),
            r@.len() == i,
            forall|j: int|
                0 <= j < i ==> (#[trigger] r@[j]).layer@ == layers@[j]@ && r@[j].filename@
                    == permutation@[j]@,
        decreases layers@.len() - i,
    {
        r.push(Selection { layer: layers[i].clone(), filename: permutation[i].clone() });
        i = i + 1;
    }
    r
}

/// The canvas content after overlaying the decodings of `assets`, in order,
/// onto `canvas`; nothing as soon as one asset does not decode.
pub open spec fn overlay_all(canvas: Seq<u32>, assets: Seq<Seq<u8>>) -> Option<Seq<u32>>
    decreases assets.len(),
{
    if assets.len() == 0 {
        Some(canvas)
    } else {
        match decoded_content(assets[0]) {
            Some(top) => overlay_all(overlay_content(canvas, top), assets.drop_first()),
            None => None,
        }
    }
}

/// The PNG bytes of one composite: a blank canvas of the fixed size, each
/// asset of the permutation overlaid in layer order, the result PNG-encoded.
pub open spec fn rendered_png(assets: Seq<Seq<u8>>) -> Option<Seq<u8>> {
    match overlay_all(blank_content(crate::CANVAS_SIZE, crate::CANVAS_SIZE), assets) {
        Some(content) => png_encoding(content),
        None => None,
    }
}

/// Law: the composite bytes are a function of the asset bytes alone, so
/// re-rendering the same permutation over unchanged assets reproduces the
/// output byte for byte.
pub proof fn lemma_render_reproducible(assets: Seq<Seq<u8>>, r1: Seq<u8>, r2: Seq<u8>)
    requires
        rendered_png(assets) == Some(r1),
        rendered_png(assets) == Some(r2),
    ensures
        r1 == r2,
{
}

/// Overlaying one more asset at the end either blends its decoding over the
/// accumulated canvas or fails the whole composite.
proof fn lemma_overlay_all_snoc(canvas: Seq<u32>, assets: Seq<Seq<u8>>, a: Seq<u8>)
    ensures
        overlay_all(canvas, assets.push(a)) == match overlay_all(canvas, assets) {
            Some(content) => match decoded_content(a) {
                Some(top) => Some(overlay_content(content, top)),
                None => None,
            },
            None => None,
        },
    decreases assets.len(),
{
    if assets.len() == 0 {
        assert(assets.push(a).drop_first() =~= Seq::<Seq<u8>>::empty());
        assert(assets.push(a)[0] == a);
        match decoded_content(a) {
            Some(top) => {
                assert(overlay_all(overlay_content(canvas, top), assets.push(a).drop_first())
                    == Some(overlay_content(canvas, top)));
            },
            None => {
            },
        }
    } else {
        match decoded_content(assets[0]) {
            Some(top) => {
                lemma_overlay_all_snoc(overlay_content(canvas, top), assets.drop_first(), a);
                assert(assets.push(a).drop_first() =~= assets.drop_first().push(a));
                assert(assets.push(a)[0] == assets[0]);
                assert(overlay_all(canvas, assets.push(a)) == overlay_all(
                    overlay_content(canvas, top),
                    assets.drop_first().push(a),
                ));
            },
            None => {
                assert(assets.push(a)[0] == assets[0]);
            },
        }
    }
}

/// Renders one composite out of the asset files chosen by one permutation,
/// handed over as their raw bytes in layer order: every asset is decoded and
/// overlaid onto a blank fixed-size canvas, lowest layer first, and the
/// canvas is encoded as PNG bytes. Fails on the first asset that does not
/// decode, naming its position, or when the canvas cannot be encoded.
pub fn render_composite(assets: &Vec<Vec<u8>>) -> (r: Result<Vec<u8>, RenderError>)
    ensures
        match r {
            Ok(bytes) => rendered_png(assets.deep_view()) == Some(bytes@),
            Err(e) => rendered_png(assets.deep_view()) is None && match e {
                RenderError::UndecodableAsset { position } => position < assets@.len()
                    && decoded_content(assets.deep_view()[position as int]) is None && (forall|
                    j: int,
                |
                    0 <= j < position ==> decoded_content(
                        #[trigger] assets.deep_view()[j],
                    ) is Some),
                RenderError::EncodingFailed => overlay_all(
                    blank_content(crate::CANVAS_SIZE, crate::CANVAS_SIZE),
                    assets.deep_view(),
                ) is Some,
            },
        },
{
    let ghost dv = assets.deep_view();
    let ghost blank = blank_content(crate::CANVAS_SIZE, crate::CANVAS_SIZE);
    let mut canvas = new_canvas(crate::CANVAS_SIZE, crate::CANVAS_SIZE);
    let mut i: usize = 0;
    while i < assets.len()
        invariant
            i <= assets@.len(),
            dv == assets.deep_view(),
            blank == blank_content(crate::CANVAS_SIZE, crate::CANVAS_SIZE),
            overlay_all(blank, dv.take(i as int)) == Some(image_content(canvas)),
            forall|j: int| 0 <= j < i ==> decoded_content(#[trigger] dv[j]) is Some,
        decreases assets@.len() - i,
    {
        proof {
            assert(dv[i as int] =~= assets@[i as int]@);
        }
        let top = match decode_image(&assets[i]) {
            Ok(img) => img,
            Err(_) => {
                proof {
                    lemma_overlay_all_snoc(blank, dv.take(i as int), dv[i as int]);
                    assert(dv.take(i + 1) =~= dv.take(i as int).push(dv[i as int]));
                    assert(overlay_all(blank, dv.take(i + 1)) is None);
                    lemma_overlay_all_none(blank, dv, i + 1);
                }
                return Err(RenderError::UndecodableAsset { position: i });
            },
        };
        proof {
            lemma_overlay_all_snoc(blank, dv.take(i as int), dv[i as int]);
            assert(dv.take(i + 1) =~= dv.take(i as int).push(dv[i as int]));
        }
        overlay_onto(&mut canvas, &top);
        i = i + 1;
    }
    proof {
        assert(dv.take(dv.len() as int) =~= dv);
    }
    match encode_png(&canvas) {
        Ok(bytes) => Ok(bytes),
        Err(_) => Err(RenderError::EncodingFailed),
    }
}

/// A composite whose asset prefix already failed to overlay fails as a whole.
proof fn lemma_overlay_all_none(canvas: Seq<u32>, assets: Seq<Seq<u8>>, k: int)
    requires
        0 <= k <= assets.len(),
        overlay_all(canvas, assets.take(k)) is None,
    ensures
        overlay_all(canvas, assets) is None,
    decreases assets.len() - k,
{
    if k == assets.len() {
        assert(assets.take(k) =~= assets);
    } else {
        lemma_overlay_all_snoc(canvas, assets.take(k), assets[k]);
        assert(assets.take(k + 1) =~= assets.take(k).push(assets[k]));
        lemma_overlay_all_none(canvas, assets, k + 1);
    }
}

} // verus!
