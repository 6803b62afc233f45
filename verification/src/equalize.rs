//! Camera images and the histogram equalization that precedes every inference.
use histogram_equalization::hist_equal_hsv_rgb;
use image::{DynamicImage, GrayImage, RgbImage};
use vstd::prelude::*;

verus! {

/// Width and height of a camera image, in pixels.
pub const EYE_SIDE: u32 = 128;

/// Number of pixels of a camera image.
pub const EYE_PIXELS: usize = 16384;

/// Channels of a colour pixel.
pub const RGB_CHANNELS: usize = 3;

/// Bytes of one row of a camera image in colour.
pub const EYE_STRIDE: u32 = 384;

/// Bytes of a camera image in colour.
pub const EYE_RGB_BYTES: usize = 49152;

/// Number of brightness levels that equalization tells apart.
pub const EQUALIZE_BINS: usize = 128;

/// `count` zero bytes: black, in grey and in colour.
pub open spec fn black(count: nat) -> Seq<u8> {
    Seq::new(count, |i: int| 0u8)
}

/// A grey image: `width * height` bytes, row by row.
pub struct ImageData {
    pub width: u32,
    pub height: u32,
    pub pixels: Vec<u8>,
}

impl ImageData {
    /// The image holds one byte for each of its pixels.
    pub open spec fn well_formed(self) -> bool {
        self.pixels@.len() == self.width * self.height
    }

    /// A well-formed image of the size that the cameras deliver.
    pub open spec fn is_eye_image(self) -> bool {
        &&& self.well_formed()
        &&& self.width == EYE_SIDE
        &&& self.height == EYE_SIDE
    }

    /// Two images show the same picture.
    pub open spec fn same_as(self, other: ImageData) -> bool {
        &&& self.width == other.width
        &&& self.height == other.height
        &&& self.pixels@ == other.pixels@
    }

    /// A black image.
    pub fn new(width: u32, height: u32) -> (r: ImageData)
        requires
            width * height <= usize::MAX,
        ensures
            r.well_formed(),
            r.width == width,
            r.height == height,
            r.pixels@ == black((width * height) as nat),
            r.pixels@.len() == width * height,
            forall|i: int| 0 <= i < width * height ==> #[trigger] r.pixels@[i] == 0,
    {
        assert(0 <= width * height) by (nonlinear_arith)
            requires
                width >= 0,
                height >= 0,
        ;
        let pixels: Vec<u8> = vec![0u8; width as usize * height as usize];
        assert(pixels@ =~= black((width * height) as nat));
        ImageData { width, height, pixels }
    }
}

impl Clone for ImageData {
    fn clone(&self) -> (r: ImageData)
        ensures
            r.same_as(*self),
            r.width == self.width,
            r.height == self.height,
            r.pixels@ == self.pixels@,
    {
        let pixels: Vec<u8> = self.pixels.clone();
        assert(pixels@ =~= self.pixels@);
        ImageData { width: self.width, height: self.height, pixels }
    }
}

/// The colour image that shows the grey image `gray`: each byte three times.
pub open spec fn gray_to_rgb(gray: Seq<u8>) -> Seq<u8> {
    Seq::new(3 * gray.len(), |i: int| gray[i / 3])
}

/// The brightness of one colour pixel: the weighted mean of its channels,
/// rounded down.
pub open spec fn luma(r: u8, g: u8, b: u8) -> u8 {
    ((2126 * r + 7152 * g + 722 * b) / 10000) as u8
}

/// The grey image of the brightness of each pixel of `rgb`.
pub open spec fn rgb_to_gray(rgb: Seq<u8>) -> Seq<u8> {
    Seq::new(rgb.len() / 3, |i: int| luma(rgb[3 * i], rgb[3 * i + 1], rgb[3 * i + 2]))
}

/// `out` is what `histogram_equalization::hist_equal_hsv_rgb` leaves in `dst`,
/// on some machine, for these arguments. The function picks vector
/// instructions by the processor that it finds, and these round otherwise than
/// its plain code: more than one `out` is possible.
pub uninterp spec fn hist_equal_hsv_rgb_leaves(
    src: Seq<u8>,
    src_stride: u32,
    dst: Seq<u8>,
    dst_stride: u32,
    width: u32,
    height: u32,
    bins_count: usize,
    out: Seq<u8>,
) -> bool;

/// Calls `image::DynamicImage::into_rgb8` on a grey image: every pixel of the
/// colour image has the grey value in all three channels.
#[verifier::external_body]
fn luma_into_rgb8(width: u32, height: u32, gray: Vec<u8>) -> (rgb: Vec<u8>)
    requires
        gray@.len() == width * height,
        3 * width * height <= usize::MAX,
    ensures
        rgb@ == gray_to_rgb(gray@),
{
    let image = GrayImage::from_raw(width, height, gray).unwrap();
    DynamicImage::ImageLuma8(image).into_rgb8().into_raw()
}

/// Calls `histogram_equalization::hist_equal_hsv_rgb`, which writes the
/// equalized image to `dst` and panics where the lengths do not fit the
/// strides. What it writes depends on the processor besides the arguments, so
/// that only the shape of the image is the same everywhere.
#[verifier::external_body]
fn equalize_hsv_rgb(
    src: &Vec<u8>,
    src_stride: u32,
    dst: &mut Vec<u8>,
    dst_stride: u32,
    width: u32,
    height: u32,
    bins_count: usize,
)
    requires
        0 < width,
        0 < height,
        3 * width * height <= i32::MAX,
        src_stride == 3 * width,
        dst_stride == 3 * width,
        src@.len() == 3 * width * height,
        old(dst)@.len() == 3 * width * height,
        2 <= bins_count <= 256,
    ensures
        final(dst)@.len() == old(dst)@.len(),
        hist_equal_hsv_rgb_leaves(
            src@,
            src_stride,
            old(dst)@,
            dst_stride,
            width,
            height,
            bins_count,
            final(dst)@,
        ),
{
    hist_equal_hsv_rgb(src, src_stride, dst, dst_stride, width, height, bins_count);
}

/// Calls `image::DynamicImage::into_luma8` on a colour image: every pixel of
/// the grey image is the brightness of the colour, in integer arithmetic.
#[verifier::external_body]
fn rgb_into_luma8(width: u32, height: u32, rgb: Vec<u8>) -> (gray: Vec<u8>)
    requires
        rgb@.len() == 3 * width * height,
    ensures
        gray@ == rgb_to_gray(rgb@),
{
    let image = RgbImage::from_raw(width, height, rgb).unwrap();
    DynamicImage::ImageRgb8(image).into_luma8().into_raw()
}

/// The grey camera image of an equalized colour image.
pub fn grayscale(rgb: Vec<u8>) -> (r: ImageData)
    requires
        rgb@.len() == EYE_RGB_BYTES,
    ensures
        r.is_eye_image(),
        r.pixels@ == rgb_to_gray(rgb@),
        r.width == 128,
        r.height == 128,
        forall|i: int|
            #![trigger r.pixels@[i]]
            0 <= i < 16384 ==> 10000 * r.pixels@[i] <= 2126 * rgb@[3 * i] + 7152 * rgb@[3 * i + 1]
                + 722 * rgb@[3 * i + 2] < 10000 * r.pixels@[i] + 10000,
{
    let pixels: Vec<u8> = rgb_into_luma8(EYE_SIDE, EYE_SIDE, rgb);
    ImageData { width: EYE_SIDE, height: EYE_SIDE, pixels }
}

/// `image` is the grey version of an equalization of the camera image `data`
/// over `EQUALIZE_BINS` levels.
pub open spec fn equalized(data: Seq<u8>, image: ImageData) -> bool {
    &&& image.is_eye_image()
    &&& exists|rgb: Seq<u8>|
        {
            &&& rgb.len() == EYE_RGB_BYTES
            &&& #[trigger] hist_equal_hsv_rgb_leaves(
                gray_to_rgb(data),
                EYE_STRIDE,
                black(EYE_RGB_BYTES as nat),
                EYE_STRIDE,
                EYE_SIDE,
                EYE_SIDE,
                EQUALIZE_BINS,
                rgb,
            )
            &&& image.pixels@ == rgb_to_gray(rgb)
        }
}

/// Spreads the brightness of a camera image over the full range: the image is
/// turned into colour, its histogram is equalized in HSV, and the brightness
/// of the outcome is returned.
pub fn equalize_histogram(data: &[u8; 16384]) -> (r: ImageData)
    ensures
        equalized(data@, r),
{
    let gray: Vec<u8> = vstd::slice::slice_to_vec(data.as_slice());
    let stride: usize = EYE_SIDE as usize * RGB_CHANNELS;
    let mut dst: Vec<u8> = vec![0u8; stride * EYE_SIDE as usize];
    assert(dst@ =~= black(EYE_RGB_BYTES as nat));
    let src: Vec<u8> = luma_into_rgb8(EYE_SIDE, EYE_SIDE, gray);
    equalize_hsv_rgb(
        &src,
        stride as u32,
        &mut dst,
        stride as u32,
        EYE_SIDE,
        EYE_SIDE,
        EQUALIZE_BINS,
    );
    grayscale(dst)
}

/// Black is zero everywhere.
pub proof fn law_black_is_zero(count: nat)
    ensures
        black(count).len() == count,
        forall|i: int| 0 <= i < count ==> #[trigger] black(count)[i] == 0,
{
}

/// Turned into colour, every pixel has its grey value in each of three channels.
pub proof fn law_colour_repeats_gray(gray: Seq<u8>, i: int, channel: int)
    requires
        0 <= i < gray.len(),
        0 <= channel < 3,
    ensures
        gray_to_rgb(gray).len() == 3 * gray.len(),
        gray_to_rgb(gray)[3 * i + channel] == gray[i],
{
}

/// The brightness of a colour is the weighted mean of its channels, rounded down:
/// it lies between the darkest and the brightest channel, and is the value of all
/// of them where they agree.
pub proof fn law_luma_is_rounded_mean(r: u8, g: u8, b: u8)
    ensures
        10000 * luma(r, g, b) <= 2126 * r + 7152 * g + 722 * b < 10000 * luma(r, g, b) + 10000,
        r <= luma(r, g, b) || g <= luma(r, g, b) || b <= luma(r, g, b),
        luma(r, g, b) <= r || luma(r, g, b) <= g || luma(r, g, b) <= b,
        r == g == b ==> luma(r, g, b) == r,
{
}

/// A brighter colour, channel by channel, never counts as darker.
pub proof fn law_luma_never_falls(r: u8, g: u8, b: u8, r2: u8, g2: u8, b2: u8)
    requires
        r <= r2,
        g <= g2,
        b <= b2,
    ensures
        luma(r, g, b) <= luma(r2, g2, b2),
{
    law_luma_is_rounded_mean(r, g, b);
    law_luma_is_rounded_mean(r2, g2, b2);
}

/// Made grey, an image has one pixel for every three bytes of colour, and each is
/// the weighted mean of its own three bytes, rounded down.
pub proof fn law_gray_is_rounded_mean(rgb: Seq<u8>, i: int)
    requires
        0 <= i < rgb.len() / 3,
    ensures
        rgb_to_gray(rgb).len() == rgb.len() / 3,
        10000 * rgb_to_gray(rgb)[i] <= 2126 * rgb[3 * i] + 7152 * rgb[3 * i + 1] + 722 * rgb[3 * i
            + 2] < 10000 * rgb_to_gray(rgb)[i] + 10000,
{
    law_luma_is_rounded_mean(rgb[3 * i], rgb[3 * i + 1], rgb[3 * i + 2]);
}

/// An equalized camera image is 128 by 128 pixels. There is a colour image that the
/// equalization over 128 levels leaves for the camera image, every byte of it three
/// times in, of which each pixel is the brightness, with nothing done to it: the
/// weighted mean of the pixel's own three bytes, rounded down.
pub proof fn law_equalized_is_brightness_of_equalization(data: Seq<u8>, image: ImageData)
    requires
        data.len() == 16384,
        equalized(data, image),
    ensures
        image.width == 128,
        image.height == 128,
        image.pixels@.len() == 16384,
        exists|src: Seq<u8>, dst: Seq<u8>, rgb: Seq<u8>|
            {
                &&& #[trigger] hist_equal_hsv_rgb_leaves(src, 384, dst, 384, 128, 128, 128, rgb)
                &&& src.len() == 49152 && dst.len() == 49152 && rgb.len() == 49152
                &&& forall|i: int| 0 <= i < 49152 ==> #[trigger] src[i] == data[i / 3]
                &&& forall|i: int| 0 <= i < 49152 ==> #[trigger] dst[i] == 0
                &&& forall|i: int|
                    #![trigger image.pixels@[i]]
                    0 <= i < 16384 ==> 10000 * image.pixels@[i] <= 2126 * rgb[3 * i] + 7152 * rgb[3
                        * i + 1] + 722 * rgb[3 * i + 2] < 10000 * image.pixels@[i] + 10000
            },
{
    let src = gray_to_rgb(data);
    let dst = black(49152);
    let rgb = choose|rgb: Seq<u8>| #[trigger]
        hist_equal_hsv_rgb_leaves(src, 384, dst, 384, 128, 128, 128, rgb) && rgb.len() == 49152
            && rgb_to_gray(rgb) == image.pixels@;
    assert forall|i: int| #![trigger image.pixels@[i]] 0 <= i < 16384 implies 10000
        * image.pixels@[i] <= 2126 * rgb[3 * i] + 7152 * rgb[3 * i + 1] + 722 * rgb[3 * i + 2]
        < 10000 * image.pixels@[i] + 10000 by {
        law_gray_is_rounded_mean(rgb, i);
    }
    assert(hist_equal_hsv_rgb_leaves(src, 384, dst, 384, 128, 128, 128, rgb));
}

/// Where the equalization in colour is grey, its levels are kept: the pixel has
/// the value of its three bytes, so that different levels stay different. And what
/// is brighter in every channel is never darker in the image.
pub proof fn law_equalized_keeps_levels(data: Seq<u8>, image: ImageData)
    requires
        data.len() == 16384,
        equalized(data, image),
    ensures
        exists|src: Seq<u8>, dst: Seq<u8>, rgb: Seq<u8>|
            {
                &&& #[trigger] hist_equal_hsv_rgb_leaves(src, 384, dst, 384, 128, 128, 128, rgb)
                &&& src.len() == 49152 && dst.len() == 49152 && rgb.len() == 49152
                &&& forall|i: int| 0 <= i < 49152 ==> #[trigger] src[i] == data[i / 3]
                &&& forall|i: int| 0 <= i < 49152 ==> #[trigger] dst[i] == 0
                &&& forall|i: int|
                    #![trigger image.pixels@[i]]
                    0 <= i < 16384 && rgb[3 * i] == rgb[3 * i + 1] == rgb[3 * i + 2]
                        ==> image.pixels@[i] == rgb[3 * i]
                &&& forall|i: int, j: int|
                    #![trigger image.pixels@[i], image.pixels@[j]]
                    0 <= i < 16384 && 0 <= j < 16384 && rgb[3 * i] <= rgb[3 * j] && rgb[3 * i + 1]
                        <= rgb[3 * j + 1] && rgb[3 * i + 2] <= rgb[3 * j + 2] ==> image.pixels@[i]
                        <= image.pixels@[j]
            },
{
    law_equalized_is_brightness_of_equalization(data, image);
}

} // verus!
