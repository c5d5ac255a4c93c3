//! Buffers, streams, scales and score layout of the SSIMULACRA2 pipeline.
//!
//! One instance is valid for a specific width and height. It holds 24 device
//! images: the two 8-bit RGB inputs, 12 full-size and 10 transposed
//! float RGB work images; so it needs at least `270 * width * height`
//! bytes of device memory (rows may be padded beyond that). Each of the six
//! scales halves the previous size, rounding up, and works on its own six
//! streams; each scale yields six measures for each of the three channels,
//! stored at `channel * 36 + scale * 6 + measure` of a 108-entry array.
use vstd::prelude::*;
use crate::image::Image;

verus! {

/// Number of scales the image pair is compared at.
pub const SCALES: usize = 6;

/// Number of colour channels (X, Y, B).
pub const CHANNELS: usize = 3;

/// Number of measures per channel and scale: SSIM, artifact and detail
/// loss, each as a mean and as a 4-norm.
pub const MEASURES: usize = 6;

/// Streams used by one scale.
pub const STREAMS_PER_SCALE: usize = 6;

/// Number of scores the pipeline produces.
pub const NUM_SCORES: usize = 108;

/// Number of device images of an instance.
pub const NUM_IMAGES: usize = 24;

/// A rectangle of an image, as the NPP functions take it.
#[derive(Clone, Copy)]
pub struct NppiRect {
    pub x: i32,
    pub y: i32,
    pub width: i32,
    pub height: i32,
}

/// A device allocation: its address and its line step in bytes.
pub struct DeviceBuffer {
    pub data: u64,
    pub line_step: i32,
}

/// Size of one device image of the pipeline.
pub struct BufferShape {
    pub width: u32,
    pub height: u32,
    pub num_samples: usize,
    pub sample_bytes: usize,
}

/// `x` divided by two, rounded up.
pub open spec fn half_up(x: int) -> int {
    (x + 1) / 2
}

/// `x` divided by `2^k`, rounded up, by `k` halvings.
pub open spec fn halved(x: int, k: nat) -> int
    decreases k,
{
    if k == 0 {
        x
    } else {
        half_up(halved(x, (k - 1) as nat))
    }
}

/// `x` divided by `d`, rounded up.
pub open spec fn ceil_div(x: int, d: int) -> int {
    (x + d - 1) / d
}

/// Where the score of `measure` for `channel` at `scale` is stored.
pub open spec fn score_slot(channel: int, scale: int, measure: int) -> int {
    channel * 36 + scale * 6 + measure
}

/// Shape of the `index`-th image of an instance for `width` by `height`
/// frames: two 8-bit RGB inputs, then twelve full-size float RGB images,
/// then ten transposed float RGB images.
pub open spec fn image_shape(width: u32, height: u32, index: int) -> BufferShape {
    if index < 2 {
        BufferShape { width, height, num_samples: 3, sample_bytes: 1 }
    } else if index < 14 {
        BufferShape { width, height, num_samples: 3, sample_bytes: 4 }
    } else {
        BufferShape { width: height, height: width, num_samples: 3, sample_bytes: 4 }
    }
}

/// Whether `img` has the shape `s`.
pub open spec fn has_shape(img: Image, s: BufferShape) -> bool {
    img.width == s.width && img.height == s.height && img.num_samples == s.num_samples
        && img.sample_bytes == s.sample_bytes
}

/// Device bytes of a pitched image: line step times height.
pub open spec fn image_mem(img: Image) -> int {
    img.line_step * img.height
}

/// Each row of `img` fits in its line step.
pub open spec fn rows_fit(img: Image) -> bool {
    img.line_step >= img.row_bytes()
}

/// Device images of the pipeline for one frame size.
pub struct Ssimulacra2 {
    pub ref_input: Image,
    pub dis_input: Image,
    pub ref_linear: Image,
    pub dis_linear: Image,
    pub ref_xyb: Image,
    pub dis_xyb: Image,
    pub tmp0: Image,
    pub tmp1: Image,
    pub tmp2: Image,
    pub tmp3: Image,
    pub tmp4: Image,
    pub tmp5: Image,
    pub tmp6: Image,
    pub tmp7: Image,
    pub tmpt0: Image,
    pub tmpt1: Image,
    pub tmpt2: Image,
    pub tmpt3: Image,
    pub tmpt4: Image,
    pub tmpt5: Image,
    pub tmpt6: Image,
    pub tmpt7: Image,
    pub tmpt8: Image,
    pub tmpt9: Image,
}

/// Device bytes of `imgs`, all together.
pub open spec fn images_mem(imgs: Seq<Image>) -> int
    decreases imgs.len(),
{
    if imgs.len() == 0 {
        0
    } else {
        images_mem(imgs.drop_last()) + image_mem(imgs.last())
    }
}

/// The fewest device bytes per pixel that the first `count` images of an
/// instance take: 3 for each 8-bit input, 12 for each float image.
pub open spec fn min_bytes_per_pixel(count: int) -> int {
    if count <= 2 {
        3 * count
    } else {
        6 + 12 * (count - 2)
    }
}

impl Ssimulacra2 {
    /// The images in allocation order.
    pub open spec fn images(self) -> Seq<Image> {
        seq![
            self.ref_input,
            self.dis_input,
            self.ref_linear,
            self.dis_linear,
            self.ref_xyb,
            self.dis_xyb,
            self.tmp0,
            self.tmp1,
            self.tmp2,
            self.tmp3,
            self.tmp4,
            self.tmp5,
            self.tmp6,
            self.tmp7,
            self.tmpt0,
            self.tmpt1,
            self.tmpt2,
            self.tmpt3,
            self.tmpt4,
            self.tmpt5,
            self.tmpt6,
            self.tmpt7,
            self.tmpt8,
            self.tmpt9,
        ]
    }

    /// Every image has the shape of its place for `width` by `height` frames.
    pub open spec fn shaped(self, width: u32, height: u32) -> bool {
        forall|i: int|
            0 <= i < NUM_IMAGES ==> has_shape(#[trigger] self.images()[i], image_shape(width, height, i))
    }

    /// Every image's rows fit in its line step.
    pub open spec fn pitches_fit(self) -> bool {
        forall|i: int| 0 <= i < NUM_IMAGES ==> rows_fit(#[trigger] self.images()[i])
    }

    /// Every line step is non-negative.
    pub open spec fn pitches_nonneg(self) -> bool {
        forall|i: int| 0 <= i < NUM_IMAGES ==> (#[trigger] self.images()[i]).line_step >= 0
    }

    /// Device bytes of all images.
    pub open spec fn total_mem(self) -> int {
        images_mem(self.images())
    }

    /// The pipeline's images over `buffers`, which are allocations in the
    /// order of [`image_shape`].
    pub fn new(width: u32, height: u32, buffers: &Vec<DeviceBuffer>) -> (s: Self)
        requires
            buffers@.len() == NUM_IMAGES,
        ensures
            s.shaped(width, height),
            forall|i: int|
                0 <= i < NUM_IMAGES ==> #[trigger] s.images()[i].data == buffers@[i].data
                    && s.images()[i].line_step == buffers@[i].line_step,
            s.ref_input == (Image { width: width, height: height, line_step: buffers@[0].line_step, data: buffers@[0].data, num_samples: 3, sample_bytes: 1 }),
            s.dis_input == (Image { width: width, height: height, line_step: buffers@[1].line_step, data: buffers@[1].data, num_samples: 3, sample_bytes: 1 }),
            s.ref_linear == (Image { width: width, height: height, line_step: buffers@[2].line_step, data: buffers@[2].data, num_samples: 3, sample_bytes: 4 }),
            s.dis_linear == (Image { width: width, height: height, line_step: buffers@[3].line_step, data: buffers@[3].data, num_samples: 3, sample_bytes: 4 }),
            s.ref_xyb == (Image { width: width, height: height, line_step: buffers@[4].line_step, data: buffers@[4].data, num_samples: 3, sample_bytes: 4 }),
            s.dis_xyb == (Image { width: width, height: height, line_step: buffers@[5].line_step, data: buffers@[5].data, num_samples: 3, sample_bytes: 4 }),
            s.tmp0 == (Image { width: width, height: height, line_step: buffers@[6].line_step, data: buffers@[6].data, num_samples: 3, sample_bytes: 4 }),
            s.tmp1 == (Image { width: width, height: height, line_step: buffers@[7].line_step, data: buffers@[7].data, num_samples: 3, sample_bytes: 4 }),
            s.tmp2 == (Image { width: width, height: height, line_step: buffers@[8].line_step, data: buffers@[8].data, num_samples: 3, sample_bytes: 4 }),
            s.tmp3 == (Image { width: width, height: height, line_step: buffers@[9].line_step, data: buffers@[9].data, num_samples: 3, sample_bytes: 4 }),
            s.tmp4 == (Image { width: width, height: height, line_step: buffers@[10].line_step, data: buffers@[10].data, num_samples: 3, sample_bytes: 4 }),
            s.tmp5 == (Image { width: width, height: height, line_step: buffers@[11].line_step, data: buffers@[11].data, num_samples: 3, sample_bytes: 4 }),
            s.tmp6 == (Image { width: width, height: height, line_step: buffers@[12].line_step, data: buffers@[12].data, num_samples: 3, sample_bytes: 4 }),
            s.tmp7 == (Image { width: width, height: height, line_step: buffers@[13].line_step, data: buffers@[13].data, num_samples: 3, sample_bytes: 4 }),
            s.tmpt0 == (Image { width: height, height: width, line_step: buffers@[14].line_step, data: buffers@[14].data, num_samples: 3, sample_bytes: 4 }),
            s.tmpt1 == (Image { width: height, height: width, line_step: buffers@[15].line_step, data: buffers@[15].data, num_samples: 3, sample_bytes: 4 }),
            s.tmpt2 == (Image { width: height, height: width, line_step: buffers@[16].line_step, data: buffers@[16].data, num_samples: 3, sample_bytes: 4 }),
            s.tmpt3 == (Image { width: height, height: width, line_step: buffers@[17].line_step, data: buffers@[17].data, num_samples: 3, sample_bytes: 4 }),
            s.tmpt4 == (Image { width: height, height: width, line_step: buffers@[18].line_step, data: buffers@[18].data, num_samples: 3, sample_bytes: 4 }),
            s.tmpt5 == (Image { width: height, height: width, line_step: buffers@[19].line_step, data: buffers@[19].data, num_samples: 3, sample_bytes: 4 }),
            s.tmpt6 == (Image { width: height, height: width, line_step: buffers@[20].line_step, data: buffers@[20].data, num_samples: 3, sample_bytes: 4 }),
            s.tmpt7 == (Image { width: height, height: width, line_step: buffers@[21].line_step, data: buffers@[21].data, num_samples: 3, sample_bytes: 4 }),
            s.tmpt8 == (Image { width: height, height: width, line_step: buffers@[22].line_step, data: buffers@[22].data, num_samples: 3, sample_bytes: 4 }),
            s.tmpt9 == (Image { width: height, height: width, line_step: buffers@[23].line_step, data: buffers@[23].data, num_samples: 3, sample_bytes: 4 }),
    {
        let shapes = image_shapes(width, height);
        let mut imgs: Vec<Image> = Vec::new();
        let mut i: usize = 0;
        while i < NUM_IMAGES
            invariant
                i <= NUM_IMAGES,
                buffers@.len() == NUM_IMAGES,
                shapes@.len() == NUM_IMAGES,
                forall|j: int| 0 <= j < NUM_IMAGES ==> #[trigger] shapes@[j] == image_shape(width, height, j),
                imgs@.len() == i,
                forall|j: int|
                    0 <= j < i ==> has_shape(#[trigger] imgs@[j], image_shape(width, height, j))
                        && imgs@[j].data == buffers@[j].data && imgs@[j].line_step == buffers@[j].line_step,
            decreases NUM_IMAGES - i,
        {
            let shape = &shapes[i];
            imgs.push(
                Image {
                    width: shape.width,
                    height: shape.height,
                    line_step: buffers[i].line_step,
                    data: buffers[i].data,
                    num_samples: shape.num_samples,
                    sample_bytes: shape.sample_bytes,
                },
            );
            i = i + 1;
        }
        let s = Ssimulacra2 {
            ref_input: imgs[0],
            dis_input: imgs[1],
            ref_linear: imgs[2],
            dis_linear: imgs[3],
            ref_xyb: imgs[4],
            dis_xyb: imgs[5],
            tmp0: imgs[6],
            tmp1: imgs[7],
            tmp2: imgs[8],
            tmp3: imgs[9],
            tmp4: imgs[10],
            tmp5: imgs[11],
            tmp6: imgs[12],
            tmp7: imgs[13],
            tmpt0: imgs[14],
            tmpt1: imgs[15],
            tmpt2: imgs[16],
            tmpt3: imgs[17],
            tmpt4: imgs[18],
            tmpt5: imgs[19],
            tmpt6: imgs[20],
            tmpt7: imgs[21],
            tmpt8: imgs[22],
            tmpt9: imgs[23],
        };
        assert(s.images() =~= imgs@);
        proof {
            lemma_images_in_place(s, width, height, buffers@);
        }
        s
    }

    /// The image at place `i` of the allocation order.
    fn image_at(&self, i: usize) -> (img: &Image)
        requires
            i < NUM_IMAGES,
        ensures
            *img == self.images()[i as int],
    {
        match i {
            0 => &self.ref_input,
            1 => &self.dis_input,
            2 => &self.ref_linear,
            3 => &self.dis_linear,
            4 => &self.ref_xyb,
            5 => &self.dis_xyb,
            6 => &self.tmp0,
            7 => &self.tmp1,
            8 => &self.tmp2,
            9 => &self.tmp3,
            10 => &self.tmp4,
            11 => &self.tmp5,
            12 => &self.tmp6,
            13 => &self.tmp7,
            14 => &self.tmpt0,
            15 => &self.tmpt1,
            16 => &self.tmpt2,
            17 => &self.tmpt3,
            18 => &self.tmpt4,
            19 => &self.tmpt5,
            20 => &self.tmpt6,
            21 => &self.tmpt7,
            22 => &self.tmpt8,
            _ => &self.tmpt9,
        }
    }

    /// Estimate the approximate memory usage: the device bytes of all
    /// images.
    pub fn mem_usage(&self) -> (n: usize)
        requires
            self.pitches_nonneg(),
            self.total_mem() <= usize::MAX,
        ensures
            n == self.total_mem(),
    {
        let ghost imgs = self.images();
        let mut n: usize = 0;
        let mut i: usize = 0;
        assert(imgs.take(0) =~= Seq::<Image>::empty());
        while i < NUM_IMAGES
            invariant
                imgs == self.images(),
                i <= NUM_IMAGES,
                self.pitches_nonneg(),
                self.total_mem() <= usize::MAX,
                n == images_mem(imgs.take(i as int)),
            decreases NUM_IMAGES - i,
        {
            let img = self.image_at(i);
            proof {
                assert(imgs.take(i + 1).drop_last() =~= imgs.take(i as int));
                lemma_images_mem_bounds(imgs, i as int);
                lemma_images_mem_bounds(imgs, i + 1);
                vstd::arithmetic::mul::lemma_mul_nonnegative(img.line_step as int, img.height as int);
            }
            n = n + img.device_mem_usage();
            i = i + 1;
        }
        assert(imgs.take(NUM_IMAGES as int) =~= imgs);
        n
    }
}

/// The bytes of the first `count` of `imgs`, all with non-negative line
/// steps, lie between zero and the bytes of all of them.
proof fn lemma_images_mem_bounds(imgs: Seq<Image>, count: int)
    requires
        0 <= count <= imgs.len(),
        forall|i: int| 0 <= i < imgs.len() ==> (#[trigger] imgs[i]).line_step >= 0,
    ensures
        0 <= images_mem(imgs.take(count)) <= images_mem(imgs),
    decreases imgs.len(),
{
    if imgs.len() > 0 {
        let rest = imgs.drop_last();
        let last = imgs.last();
        assert forall|i: int| 0 <= i < rest.len() implies (#[trigger] rest[i]).line_step >= 0 by {
            assert(rest[i] == imgs[i]);
        }
        vstd::arithmetic::mul::lemma_mul_nonnegative(last.line_step as int, last.height as int);
        if count == imgs.len() {
            lemma_images_mem_bounds(rest, rest.len() as int);
            assert(rest.take(rest.len() as int) =~= rest);
            assert(imgs.take(count) =~= imgs);
        } else {
            lemma_images_mem_bounds(rest, count);
            assert(imgs.take(count) =~= rest.take(count));
        }
    } else {
        assert(imgs.take(count) =~= imgs);
    }
}

/// An image whose rows fit in its line step takes at least
/// `num_samples * sample_bytes` bytes per pixel.
proof fn lemma_image_mem_lower_bound(img: Image, pixels: int, pixel_bytes: int)
    requires
        rows_fit(img),
        img.width * img.height == pixels,
        img.num_samples * img.sample_bytes == pixel_bytes,
    ensures
        image_mem(img) >= pixel_bytes * pixels,
{
    let rb = img.row_bytes();
    vstd::arithmetic::mul::lemma_mul_inequality(rb, img.line_step as int, img.height as int);
    assert(rb * img.height == pixel_bytes * pixels) by (nonlinear_arith)
        requires
            rb == img.width * img.num_samples * img.sample_bytes,
            img.width * img.height == pixels,
            img.num_samples * img.sample_bytes == pixel_bytes,
    ;
}

/// The first images of an instance, each with the shape of its place and
/// rows that fit in their line steps, take at least
/// [`min_bytes_per_pixel`] bytes per pixel of the frame.
proof fn lemma_images_mem_lower_bound(imgs: Seq<Image>, width: u32, height: u32)
    requires
        imgs.len() <= NUM_IMAGES,
        forall|i: int|
            0 <= i < imgs.len() ==> rows_fit(#[trigger] imgs[i]) && has_shape(
                imgs[i],
                image_shape(width, height, i),
            ),
    ensures
        images_mem(imgs) >= min_bytes_per_pixel(imgs.len() as int) * (width * height),
    decreases imgs.len(),
{
    if imgs.len() > 0 {
        let rest = imgs.drop_last();
        let k = rest.len() as int;
        let last = imgs.last();
        assert forall|i: int| 0 <= i < rest.len() implies rows_fit(#[trigger] rest[i]) && has_shape(
            rest[i],
            image_shape(width, height, i),
        ) by {
            assert(rest[i] == imgs[i]);
        }
        lemma_images_mem_lower_bound(rest, width, height);
        assert(last == imgs[k]);
        assert(rows_fit(imgs[k]) && has_shape(imgs[k], image_shape(width, height, k)));
        let pixels = width * height;
        assert(last.width * last.height == pixels) by (nonlinear_arith)
            requires
                pixels == width * height,
                (last.width == width && last.height == height) || (last.width == height
                    && last.height == width),
        ;
        let pixel_bytes: int = if k < 2 {
            3
        } else {
            12
        };
        assert(last.num_samples * last.sample_bytes == pixel_bytes) by (nonlinear_arith)
            requires
                last.num_samples == 3,
                last.sample_bytes == (if k < 2 {
                    1int
                } else {
                    4int
                }),
                pixel_bytes == (if k < 2 {
                    3int
                } else {
                    12int
                }),
        ;
        lemma_image_mem_lower_bound(last, pixels, pixel_bytes);
        assert(min_bytes_per_pixel(k) * pixels + pixel_bytes * pixels == min_bytes_per_pixel(k + 1)
            * pixels) by (nonlinear_arith)
            requires
                min_bytes_per_pixel(k) + pixel_bytes == min_bytes_per_pixel(k + 1),
        ;
        assert(images_mem(imgs) == images_mem(rest) + image_mem(last));
    } else {
        assert(0 * (width * height) == 0) by (nonlinear_arith);
    }
}

/// The pipeline's images, with every row fitting in its line step, take at
/// least `270 * width * height` bytes of device memory.
pub proof fn lemma_min_mem_usage(s: Ssimulacra2, width: u32, height: u32)
    requires
        s.shaped(width, height),
        s.pitches_fit(),
    ensures
        s.total_mem() >= 270 * width * height,
{
    lemma_images_mem_lower_bound(s.images(), width, height);
    assert(270 * (width * height) == 270 * width * height) by (nonlinear_arith);
}

/// Each named image of an instance built by [`Ssimulacra2::new`] lies over
/// the allocation of its own place in the allocation order and has the
/// size and sample type of that place: the two inputs are 8-bit RGB frames,
/// the next twelve images float RGB frames, the last ten float RGB
/// transposed frames.
pub proof fn lemma_images_in_place(
    s: Ssimulacra2,
    width: u32,
    height: u32,
    buffers: Seq<DeviceBuffer>,
)
    requires
        buffers.len() == NUM_IMAGES,
        s.shaped(width, height),
        forall|i: int|
            0 <= i < NUM_IMAGES ==> #[trigger] s.images()[i].data == buffers[i].data
                && s.images()[i].line_step == buffers[i].line_step,
    ensures
        s.ref_input == (Image { width: width, height: height, line_step: buffers[0].line_step, data: buffers[0].data, num_samples: 3, sample_bytes: 1 }),
        s.dis_input == (Image { width: width, height: height, line_step: buffers[1].line_step, data: buffers[1].data, num_samples: 3, sample_bytes: 1 }),
        s.ref_linear == (Image { width: width, height: height, line_step: buffers[2].line_step, data: buffers[2].data, num_samples: 3, sample_bytes: 4 }),
        s.dis_linear == (Image { width: width, height: height, line_step: buffers[3].line_step, data: buffers[3].data, num_samples: 3, sample_bytes: 4 }),
        s.ref_xyb == (Image { width: width, height: height, line_step: buffers[4].line_step, data: buffers[4].data, num_samples: 3, sample_bytes: 4 }),
        s.dis_xyb == (Image { width: width, height: height, line_step: buffers[5].line_step, data: buffers[5].data, num_samples: 3, sample_bytes: 4 }),
        s.tmp0 == (Image { width: width, height: height, line_step: buffers[6].line_step, data: buffers[6].data, num_samples: 3, sample_bytes: 4 }),
        s.tmp1 == (Image { width: width, height: height, line_step: buffers[7].line_step, data: buffers[7].data, num_samples: 3, sample_bytes: 4 }),
        s.tmp2 == (Image { width: width, height: height, line_step: buffers[8].line_step, data: buffers[8].data, num_samples: 3, sample_bytes: 4 }),
        s.tmp3 == (Image { width: width, height: height, line_step: buffers[9].line_step, data: buffers[9].data, num_samples: 3, sample_bytes: 4 }),
        s.tmp4 == (Image { width: width, height: height, line_step: buffers[10].line_step, data: buffers[10].data, num_samples: 3, sample_bytes: 4 }),
        s.tmp5 == (Image { width: width, height: height, line_step: buffers[11].line_step, data: buffers[11].data, num_samples: 3, sample_bytes: 4 }),
        s.tmp6 == (Image { width: width, height: height, line_step: buffers[12].line_step, data: buffers[12].data, num_samples: 3, sample_bytes: 4 }),
        s.tmp7 == (Image { width: width, height: height, line_step: buffers[13].line_step, data: buffers[13].data, num_samples: 3, sample_bytes: 4 }),
        s.tmpt0 == (Image { width: height, height: width, line_step: buffers[14].line_step, data: buffers[14].data, num_samples: 3, sample_bytes: 4 }),
        s.tmpt1 == (Image { width: height, height: width, line_step: buffers[15].line_step, data: buffers[15].data, num_samples: 3, sample_bytes: 4 }),
        s.tmpt2 == (Image { width: height, height: width, line_step: buffers[16].line_step, data: buffers[16].data, num_samples: 3, sample_bytes: 4 }),
        s.tmpt3 == (Image { width: height, height: width, line_step: buffers[17].line_step, data: buffers[17].data, num_samples: 3, sample_bytes: 4 }),
        s.tmpt4 == (Image { width: height, height: width, line_step: buffers[18].line_step, data: buffers[18].data, num_samples: 3, sample_bytes: 4 }),
        s.tmpt5 == (Image { width: height, height: width, line_step: buffers[19].line_step, data: buffers[19].data, num_samples: 3, sample_bytes: 4 }),
        s.tmpt6 == (Image { width: height, height: width, line_step: buffers[20].line_step, data: buffers[20].data, num_samples: 3, sample_bytes: 4 }),
        s.tmpt7 == (Image { width: height, height: width, line_step: buffers[21].line_step, data: buffers[21].data, num_samples: 3, sample_bytes: 4 }),
        s.tmpt8 == (Image { width: height, height: width, line_step: buffers[22].line_step, data: buffers[22].data, num_samples: 3, sample_bytes: 4 }),
        s.tmpt9 == (Image { width: height, height: width, line_step: buffers[23].line_step, data: buffers[23].data, num_samples: 3, sample_bytes: 4 }),
{
    assert(s.images()[0] == s.ref_input);
    assert(has_shape(s.images()[0], image_shape(width, height, 0)));
    assert(s.images()[0].data == buffers[0].data && s.images()[0].line_step == buffers[0].line_step);
    assert(s.images()[1] == s.dis_input);
    assert(has_shape(s.images()[1], image_shape(width, height, 1)));
    assert(s.images()[1].data == buffers[1].data && s.images()[1].line_step == buffers[1].line_step);
    assert(s.images()[2] == s.ref_linear);
    assert(has_shape(s.images()[2], image_shape(width, height, 2)));
    assert(s.images()[2].data == buffers[2].data && s.images()[2].line_step == buffers[2].line_step);
    assert(s.images()[3] == s.dis_linear);
    assert(has_shape(s.images()[3], image_shape(width, height, 3)));
    assert(s.images()[3].data == buffers[3].data && s.images()[3].line_step == buffers[3].line_step);
    assert(s.images()[4] == s.ref_xyb);
    assert(has_shape(s.images()[4], image_shape(width, height, 4)));
    assert(s.images()[4].data == buffers[4].data && s.images()[4].line_step == buffers[4].line_step);
    assert(s.images()[5] == s.dis_xyb);
    assert(has_shape(s.images()[5], image_shape(width, height, 5)));
    assert(s.images()[5].data == buffers[5].data && s.images()[5].line_step == buffers[5].line_step);
    assert(s.images()[6] == s.tmp0);
    assert(has_shape(s.images()[6], image_shape(width, height, 6)));
    assert(s.images()[6].data == buffers[6].data && s.images()[6].line_step == buffers[6].line_step);
    assert(s.images()[7] == s.tmp1);
    assert(has_shape(s.images()[7], image_shape(width, height, 7)));
    assert(s.images()[7].data == buffers[7].data && s.images()[7].line_step == buffers[7].line_step);
    assert(s.images()[8] == s.tmp2);
    assert(has_shape(s.images()[8], image_shape(width, height, 8)));
    assert(s.images()[8].data == buffers[8].data && s.images()[8].line_step == buffers[8].line_step);
    assert(s.images()[9] == s.tmp3);
    assert(has_shape(s.images()[9], image_shape(width, height, 9)));
    assert(s.images()[9].data == buffers[9].data && s.images()[9].line_step == buffers[9].line_step);
    assert(s.images()[10] == s.tmp4);
    assert(has_shape(s.images()[10], image_shape(width, height, 10)));
    assert(s.images()[10].data == buffers[10].data && s.images()[10].line_step == buffers[10].line_step);
    assert(s.images()[11] == s.tmp5);
    assert(has_shape(s.images()[11], image_shape(width, height, 11)));
    assert(s.images()[11].data == buffers[11].data && s.images()[11].line_step == buffers[11].line_step);
    assert(s.images()[12] == s.tmp6);
    assert(has_shape(s.images()[12], image_shape(width, height, 12)));
    assert(s.images()[12].data == buffers[12].data && s.images()[12].line_step == buffers[12].line_step);
    assert(s.images()[13] == s.tmp7);
    assert(has_shape(s.images()[13], image_shape(width, height, 13)));
    assert(s.images()[13].data == buffers[13].data && s.images()[13].line_step == buffers[13].line_step);
    assert(s.images()[14] == s.tmpt0);
    assert(has_shape(s.images()[14], image_shape(width, height, 14)));
    assert(s.images()[14].data == buffers[14].data && s.images()[14].line_step == buffers[14].line_step);
    assert(s.images()[15] == s.tmpt1);
    assert(has_shape(s.images()[15], image_shape(width, height, 15)));
    assert(s.images()[15].data == buffers[15].data && s.images()[15].line_step == buffers[15].line_step);
    assert(s.images()[16] == s.tmpt2);
    assert(has_shape(s.images()[16], image_shape(width, height, 16)));
    assert(s.images()[16].data == buffers[16].data && s.images()[16].line_step == buffers[16].line_step);
    assert(s.images()[17] == s.tmpt3);
    assert(has_shape(s.images()[17], image_shape(width, height, 17)));
    assert(s.images()[17].data == buffers[17].data && s.images()[17].line_step == buffers[17].line_step);
    assert(s.images()[18] == s.tmpt4);
    assert(has_shape(s.images()[18], image_shape(width, height, 18)));
    assert(s.images()[18].data == buffers[18].data && s.images()[18].line_step == buffers[18].line_step);
    assert(s.images()[19] == s.tmpt5);
    assert(has_shape(s.images()[19], image_shape(width, height, 19)));
    assert(s.images()[19].data == buffers[19].data && s.images()[19].line_step == buffers[19].line_step);
    assert(s.images()[20] == s.tmpt6);
    assert(has_shape(s.images()[20], image_shape(width, height, 20)));
    assert(s.images()[20].data == buffers[20].data && s.images()[20].line_step == buffers[20].line_step);
    assert(s.images()[21] == s.tmpt7);
    assert(has_shape(s.images()[21], image_shape(width, height, 21)));
    assert(s.images()[21].data == buffers[21].data && s.images()[21].line_step == buffers[21].line_step);
    assert(s.images()[22] == s.tmpt8);
    assert(has_shape(s.images()[22], image_shape(width, height, 22)));
    assert(s.images()[22].data == buffers[22].data && s.images()[22].line_step == buffers[22].line_step);
    assert(s.images()[23] == s.tmpt9);
    assert(has_shape(s.images()[23], image_shape(width, height, 23)));
    assert(s.images()[23].data == buffers[23].data && s.images()[23].line_step == buffers[23].line_step);
}

/// `rect` as used at `scale`: its size halved, rounding up, `scale` times.
pub open spec fn scaled_rect(rect: NppiRect, scale: nat) -> NppiRect {
    NppiRect {
        x: rect.x,
        y: rect.y,
        width: halved(rect.width as int, scale) as i32,
        height: halved(rect.height as int, scale) as i32,
    }
}

/// A rectangle that can be halved repeatedly: non-negative and below
/// `i32::MAX` in each dimension.
pub open spec fn halvable(rect: NppiRect) -> bool {
    0 <= rect.width < i32::MAX && 0 <= rect.height < i32::MAX
}

/// Halving `k` times rounds `x / 2^k` up, and stays within `0..=x`.
pub proof fn lemma_halved_is_ceil_div(x: int, k: nat)
    requires
        x >= 0,
    ensures
        halved(x, k) == ceil_div(x, vstd::arithmetic::power2::pow2(k) as int),
        0 <= halved(x, k) <= x,
    decreases k,
{
    vstd::arithmetic::power2::lemma_pow2_pos(k);
    if k == 0 {
        vstd::arithmetic::power2::lemma2_to64();
    } else {
        lemma_halved_is_ceil_div(x, (k - 1) as nat);
        let d = vstd::arithmetic::power2::pow2((k - 1) as nat) as int;
        vstd::arithmetic::power2::lemma_pow2_pos((k - 1) as nat);
        vstd::arithmetic::power2::lemma_pow2_unfold(k);
        let a = x + d - 1;
        vstd::arithmetic::div_mod::lemma_hoist_over_denominator(a, 1, d as nat);
        vstd::arithmetic::div_mod::lemma_div_denominator(a + d, d, 2);
        assert(d * 2 == vstd::arithmetic::power2::pow2(k));
    }
}

/// At scale `s`, a rectangle of non-negative size keeps its origin and has
/// each dimension divided by `2^s`, rounding up.
pub proof fn lemma_scaled_rect_divides(rect: NppiRect, s: nat)
    requires
        halvable(rect),
    ensures
        scaled_rect(rect, s).x == rect.x,
        scaled_rect(rect, s).y == rect.y,
        scaled_rect(rect, s).width == (rect.width + vstd::arithmetic::power2::pow2(s) - 1)
            / (vstd::arithmetic::power2::pow2(s) as int),
        scaled_rect(rect, s).height == (rect.height + vstd::arithmetic::power2::pow2(s) - 1)
            / (vstd::arithmetic::power2::pow2(s) as int),
{
    lemma_halved_is_ceil_div(rect.width as int, s);
    lemma_halved_is_ceil_div(rect.height as int, s);
}

/// The size of an image at the next scale: each dimension halved, rounding
/// up.
pub fn half_rect(rect: NppiRect) -> (half: NppiRect)
    requires
        halvable(rect),
    ensures
        half.x == rect.x,
        half.y == rect.y,
        half.width == half_up(rect.width as int),
        half.height == half_up(rect.height as int),
{
    NppiRect { x: rect.x, y: rect.y, width: (rect.width + 1) / 2, height: (rect.height + 1) / 2 }
}

/// The rectangles of every scale, for the image size `size` and the
/// transposed size `sizet`: scale `s` uses both halved `s` times.
pub fn scale_rects(size: NppiRect, sizet: NppiRect) -> (rects: Vec<(NppiRect, NppiRect)>)
    requires
        halvable(size),
        halvable(sizet),
    ensures
        rects@.len() == SCALES,
        forall|s: int|
            0 <= s < SCALES ==> (#[trigger] rects@[s]).0 == scaled_rect(size, s as nat)
                && rects@[s].1 == scaled_rect(sizet, s as nat),
        forall|s: int|
            0 <= s < SCALES ==> {
                let d = vstd::arithmetic::power2::pow2(s as nat) as int;
                &&& (#[trigger] rects@[s]).0.x == size.x && rects@[s].0.y == size.y
                &&& rects@[s].0.width == (size.width + d - 1) / d
                &&& rects@[s].0.height == (size.height + d - 1) / d
                &&& rects@[s].1.x == sizet.x && rects@[s].1.y == sizet.y
                &&& rects@[s].1.width == (sizet.width + d - 1) / d
                &&& rects@[s].1.height == (sizet.height + d - 1) / d
            },
{
    let mut cur = size;
    let mut curt = sizet;
    let mut rects: Vec<(NppiRect, NppiRect)> = Vec::new();
    let mut s: usize = 0;
    proof {
        lemma_halved_is_ceil_div(size.width as int, 0);
        lemma_halved_is_ceil_div(size.height as int, 0);
        lemma_halved_is_ceil_div(sizet.width as int, 0);
        lemma_halved_is_ceil_div(sizet.height as int, 0);
    }
    while s < SCALES
        invariant
            halvable(size),
            halvable(sizet),
            s <= SCALES,
            rects@.len() == s,
            cur == scaled_rect(size, s as nat),
            curt == scaled_rect(sizet, s as nat),
            halvable(cur),
            halvable(curt),
            forall|i: int|
                0 <= i < s ==> (#[trigger] rects@[i]).0 == scaled_rect(size, i as nat)
                    && rects@[i].1 == scaled_rect(sizet, i as nat),
        decreases SCALES - s,
    {
        rects.push((cur, curt));
        proof {
            lemma_halved_is_ceil_div(size.width as int, (s + 1) as nat);
            lemma_halved_is_ceil_div(size.height as int, (s + 1) as nat);
            lemma_halved_is_ceil_div(sizet.width as int, (s + 1) as nat);
            lemma_halved_is_ceil_div(sizet.height as int, (s + 1) as nat);
            lemma_halved_is_ceil_div(size.width as int, s as nat);
            lemma_halved_is_ceil_div(size.height as int, s as nat);
            lemma_halved_is_ceil_div(sizet.width as int, s as nat);
            lemma_halved_is_ceil_div(sizet.height as int, s as nat);
        }
        cur = half_rect(cur);
        curt = half_rect(curt);
        s = s + 1;
    }
    assert forall|i: int| 0 <= i < SCALES implies {
        let d = vstd::arithmetic::power2::pow2(i as nat) as int;
        &&& (#[trigger] rects@[i]).0.x == size.x && rects@[i].0.y == size.y
        &&& rects@[i].0.width == (size.width + d - 1) / d
        &&& rects@[i].0.height == (size.height + d - 1) / d
        &&& rects@[i].1.x == sizet.x && rects@[i].1.y == sizet.y
        &&& rects@[i].1.width == (sizet.width + d - 1) / d
        &&& rects@[i].1.height == (sizet.height + d - 1) / d
    } by {
        lemma_scaled_rect_divides(size, i as nat);
        lemma_scaled_rect_divides(sizet, i as nat);
    }
    rects
}

/// Index of the stream that work `i` of `scale` runs on.
pub fn scale_stream(scale: usize, i: usize) -> (stream: usize)
    requires
        scale < SCALES,
        i < STREAMS_PER_SCALE,
    ensures
        stream == scale * 6 + i,
        stream < SCALES * STREAMS_PER_SCALE,
{
    scale * STREAMS_PER_SCALE + i
}

/// Where the score of `measure` for `channel` at `scale` is stored.
pub fn score_index(channel: usize, scale: usize, measure: usize) -> (slot: usize)
    requires
        channel < CHANNELS,
        scale < SCALES,
        measure < MEASURES,
    ensures
        slot == score_slot(channel as int, scale as int, measure as int),
        slot < NUM_SCORES,
{
    channel * 6 * 6 + scale * 6 + measure
}

/// The score layout is a one-to-one map from (channel, scale, measure) onto
/// the 108 score slots.
pub proof fn lemma_score_layout()
    ensures
        forall|c1: int, s1: int, m1: int, c2: int, s2: int, m2: int|
            0 <= c1 < 3 && 0 <= s1 < 6 && 0 <= m1 < 6 && 0 <= c2 < 3 && 0 <= s2 < 6 && 0 <= m2 < 6
                && #[trigger] score_slot(c1, s1, m1) == #[trigger] score_slot(c2, s2, m2) ==> c1
                == c2 && s1 == s2 && m1 == m2,
        forall|c: int, s: int, m: int|
            0 <= c < 3 && 0 <= s < 6 && 0 <= m < 6 ==> 0 <= #[trigger] score_slot(c, s, m) < 108,
        forall|i: int|
            0 <= i < 108 ==> #[trigger] score_slot(i / 36, (i % 36) / 6, i % 6) == i && 0 <= i
                / 36 < 3 && 0 <= (i % 36) / 6 < 6 && 0 <= i % 6 < 6,
{
}

/// The shapes of the images to allocate for `width` by `height` frames, in
/// the order [`Ssimulacra2::new`] takes the allocations.
pub fn image_shapes(width: u32, height: u32) -> (shapes: Vec<BufferShape>)
    ensures
        shapes@.len() == NUM_IMAGES,
        forall|i: int| 0 <= i < NUM_IMAGES ==> #[trigger] shapes@[i] == image_shape(width, height, i),
{
    let mut shapes: Vec<BufferShape> = Vec::new();
    let mut i: usize = 0;
    while i < NUM_IMAGES
        invariant
            i <= NUM_IMAGES,
            shapes@.len() == i,
            forall|j: int| 0 <= j < i ==> #[trigger] shapes@[j] == image_shape(width, height, j),
        decreases NUM_IMAGES - i,
    {
        let shape = if i < 2 {
            BufferShape { width, height, num_samples: 3, sample_bytes: 1 }
        } else if i < 14 {
            BufferShape { width, height, num_samples: 3, sample_bytes: 4 }
        } else {
            BufferShape { width: height, height: width, num_samples: 3, sample_bytes: 4 }
        };
        shapes.push(shape);
        i = i + 1;
    }
    shapes
}

} // verus!
