//! The sampling driver: it turns a world and a camera into a frame of
//! accumulated colours, whole or in bands of rows that can be rendered
//! independently and joined afterwards.

use crate::camera::Camera;
use crate::fixed::{quot, Fixed, SCALE};
use crate::helpers::{in_unit_disk, is_fraction, random_f32};
use crate::hittable::Hittable;
use crate::ray::{is_color, Ray};
use crate::vec3::{Color, Vec3};
use rand::rngs::StdRng;
use vstd::prelude::*;

verus! {

/// The height of an image of the given width and aspect ratio: the width
/// divided by the ratio, rounded toward zero and limited to what a machine
/// integer holds.
pub open spec fn spec_image_height(image_width: int, aspect_ratio: Fixed) -> int {
    let exact = quot(
        Fixed::spec_from_int(image_width).spec_saturating_div(aspect_ratio)@,
        SCALE as int,
    );
    if exact > i32::MAX {
        i32::MAX as int
    } else if exact < i32::MIN {
        i32::MIN as int
    } else {
        exact
    }
}

/// The place of the pixel in column `i` from the left and row `j` from the
/// bottom within a frame that is stored row by row from the top.
pub open spec fn spec_pixel_index(width: int, height: int, i: int, j: int) -> int {
    width * (height - j - 1) + i
}

/// The image-plane coordinate of a pixel that is jittered by the fraction
/// `jitter` of a pixel: `(pixel + jitter) / (size - 1)`, or `pixel + jitter`
/// where the image is a single pixel across.
pub open spec fn spec_coordinate(pixel: int, jitter: Fixed, size: int) -> Fixed {
    let span = if size > 1 {
        size - 1
    } else {
        1
    };
    (Fixed::spec_from_int(pixel) + jitter).spec_div(Fixed::spec_from_int(span))
}

/// Whether `ray` is a camera ray through the pixel `(i, j)`, jittered within
/// the pixel and leaving the lens at some point of the unit disk.
pub open spec fn is_camera_ray(camera: Camera, width: int, height: int, i: int, j: int, ray: Ray)
    -> bool {
    exists|ju: Fixed, jv: Fixed, lens: Vec3|
        is_fraction(ju) && is_fraction(jv) && in_unit_disk(lens) && ray
            == #[trigger] camera.spec_ray(
            spec_coordinate(i, ju, width),
            spec_coordinate(j, jv, height),
            lens,
        )
}

/// Whether `c` is a colour that one sample of the pixel `(i, j)` can yield.
pub open spec fn is_sample(
    camera: Camera,
    world: Seq<Hittable>,
    width: int,
    height: int,
    depth: int,
    i: int,
    j: int,
    c: Color,
) -> bool {
    exists|ray: Ray|
        is_camera_ray(camera, width, height, i, j, ray) && #[trigger] is_color(
            ray,
            world,
            depth,
            c,
        )
}

/// The sum of the colours gathered so far and one more.
pub open spec fn accumulate(gathered: Color, sample: Color) -> Color {
    gathered + sample
}

/// Whether `c` is a sum of `samples` colours that samples of the pixel
/// `(i, j)` can yield, added up in order from black.
pub open spec fn is_pixel(
    camera: Camera,
    world: Seq<Hittable>,
    width: int,
    height: int,
    depth: int,
    i: int,
    j: int,
    samples: int,
    c: Color,
) -> bool
    decreases samples,
{
    if samples <= 0 {
        c == Vec3::spec_zero()
    } else {
        exists|gathered: Color, sample: Color|
            {
                &&& is_pixel(camera, world, width, height, depth, i, j, samples - 1, gathered)
                &&& is_sample(camera, world, width, height, depth, i, j, sample)
                &&& c == #[trigger] accumulate(gathered, sample)
            }
    }
}

/// A pixel sum and one more sample make the next pixel sum.
pub proof fn lemma_pixel_step(
    camera: Camera,
    world: Seq<Hittable>,
    width: int,
    height: int,
    depth: int,
    i: int,
    j: int,
    samples: int,
    gathered: Color,
    sample: Color,
)
    requires
        samples >= 0,
        is_pixel(camera, world, width, height, depth, i, j, samples, gathered),
        is_sample(camera, world, width, height, depth, i, j, sample),
    ensures
        is_pixel(camera, world, width, height, depth, i, j, samples + 1, gathered + sample),
{
    assert(gathered + sample == accumulate(gathered, sample));
}

/// The place within a band of the pixel in column `i` and frame row `row`,
/// where the band starts at frame row `first_row`.
pub open spec fn spec_band_index(width: int, first_row: int, i: int, row: int) -> int {
    width * (row - first_row) + i
}

/// Whether `band` holds the frame rows from `first_row` up to, not
/// including, `last_row`, counted from the top: one pixel sum for each
/// pixel, row by row.
pub open spec fn is_band(
    band: Seq<Color>,
    camera: Camera,
    world: Seq<Hittable>,
    width: int,
    height: int,
    samples: int,
    depth: int,
    first_row: int,
    last_row: int,
) -> bool {
    &&& band.len() == width * (last_row - first_row)
    &&& forall|i: int, row: int|
        0 <= i < width && first_row <= row < last_row ==> is_pixel(
            camera,
            world,
            width,
            height,
            depth,
            i,
            height - 1 - row,
            samples,
            #[trigger] band[spec_band_index(width, first_row, i, row)],
        )
}

/// How many pixels an image of the given size has; none if a side is not
/// positive.
pub open spec fn spec_pixel_count(width: int, height: int) -> int {
    if width > 0 && height > 0 {
        width * height
    } else {
        0
    }
}

/// Whether `frame` is a rendering of the world: it holds, for each pixel
/// `(i, j)` and at that pixel's place, a sum of `samples` colours that
/// samples of the pixel can yield.
pub open spec fn is_frame(
    frame: Seq<Color>,
    camera: Camera,
    world: Seq<Hittable>,
    width: int,
    height: int,
    samples: int,
    depth: int,
) -> bool {
    &&& frame.len() == spec_pixel_count(width, height)
    &&& forall|i: int, j: int|
        0 <= i < width && 0 <= j < height ==> is_pixel(
            camera,
            world,
            width,
            height,
            depth,
            i,
            j,
            samples,
            #[trigger] frame[spec_pixel_index(width, height, i, j)],
        )
}

/// The band that holds all rows of a frame is the frame.
pub proof fn lemma_full_band_is_frame(
    band: Seq<Color>,
    camera: Camera,
    world: Seq<Hittable>,
    width: int,
    height: int,
    samples: int,
    depth: int,
)
    requires
        0 <= width,
        0 <= height,
        is_band(band, camera, world, width, height, samples, depth, 0, height),
    ensures
        is_frame(band, camera, world, width, height, samples, depth),
{
    assert(width * height == spec_pixel_count(width, height)) by (nonlinear_arith)
        requires
            0 <= width,
            0 <= height,
    ;
    assert forall|i: int, j: int| 0 <= i < width && 0 <= j < height implies is_pixel(
        camera,
        world,
        width,
        height,
        depth,
        i,
        j,
        samples,
        #[trigger] band[spec_pixel_index(width, height, i, j)],
    ) by {
        let row = height - 1 - j;
        assert(spec_band_index(width, 0, i, row) == spec_pixel_index(width, height, i, j));
    }
}

/// Every pixel has a place of its own in the frame: places lie within the
/// frame, and different pixels have different places.
pub proof fn lemma_pixel_index_injective(
    width: int,
    height: int,
    i1: int,
    j1: int,
    i2: int,
    j2: int,
)
    requires
        0 <= i1 < width,
        0 <= j1 < height,
        0 <= i2 < width,
        0 <= j2 < height,
    ensures
        0 <= spec_pixel_index(width, height, i1, j1) < width * height,
        spec_pixel_index(width, height, i1, j1) == spec_pixel_index(width, height, i2, j2) ==> i1
            == i2 && j1 == j2,
{
    let r1 = height - j1 - 1;
    let r2 = height - j2 - 1;
    assert(0 <= width * r1 && width * r1 + width <= width * height) by (nonlinear_arith)
        requires
            0 <= r1 < height,
            0 < width,
    ;
    if r1 < r2 {
        assert(width * r1 + width <= width * r2) by (nonlinear_arith)
            requires
                r1 + 1 <= r2,
                0 < width,
        ;
    } else if r2 < r1 {
        assert(width * r2 + width <= width * r1) by (nonlinear_arith)
            requires
                r2 + 1 <= r1,
                0 < width,
        ;
    }
}

/// The height of an image of the given width and aspect ratio.
pub fn image_height(image_width: i32, aspect_ratio: Fixed) -> (height: i32)
    ensures
        height == spec_image_height(image_width as int, aspect_ratio),
{
    let exact = Fixed::from_int(image_width).saturating_div(aspect_ratio).trunc();
    if exact > i32::MAX as i64 {
        i32::MAX
    } else if exact < i32::MIN as i64 {
        i32::MIN
    } else {
        exact as i32
    }
}

/// The place of the pixel in column `i` from the left and row `j` from the
/// bottom within a frame stored row by row from the top.
pub fn pixel_index(image_width: i32, image_height: i32, i: i32, j: i32) -> (index: usize)
    requires
        0 <= i < image_width,
        0 <= j < image_height,
        image_width * image_height <= usize::MAX,
    ensures
        index == spec_pixel_index(image_width as int, image_height as int, i as int, j as int),
        index < image_width * image_height,
{
    proof {
        lemma_pixel_index_injective(
            image_width as int,
            image_height as int,
            i as int,
            j as int,
            i as int,
            j as int,
        );
    }
    let row: i64 = (image_height - j - 1) as i64;
    assert(0 <= (image_width as i64) * row <= 0x4000_0000_0000_0000) by (nonlinear_arith)
        requires
            0 <= image_width as i64 <= 0x8000_0000,
            0 <= row <= 0x8000_0000,
    ;
    ((image_width as i64) * row + (i as i64)) as usize
}

/// The image-plane coordinate of a jittered pixel.
pub fn coordinate(pixel: i32, jitter: Fixed, size: i32) -> (r: Fixed)
    ensures
        r == spec_coordinate(pixel as int, jitter, size as int),
{
    let span: i32 = if size > 1 {
        size - 1
    } else {
        1
    };
    (Fixed::from_int(pixel) + jitter) / Fixed::from_int(span)
}

/// Takes one sample of the pixel `(i, j)`: a camera ray through a random
/// point of the pixel is followed for at most `max_depth` bounces.
pub fn sample(
    world: &[Hittable],
    camera: &Camera,
    image_width: i32,
    image_height: i32,
    max_depth: i32,
    i: i32,
    j: i32,
    rng: &mut StdRng,
) -> (c: Color)
    ensures
        is_sample(
            *camera,
            world@,
            image_width as int,
            image_height as int,
            max_depth as int,
            i as int,
            j as int,
            c,
        ),
{
    let ju = random_f32(rng);
    let jv = random_f32(rng);
    let u = coordinate(i, ju, image_width);
    let v = coordinate(j, jv, image_height);
    let ray = camera.get_ray(u, v, rng);
    ray.color(world, max_depth, rng)
}

/// Adds up `samples_per_pixel` samples of the pixel `(i, j)`. The sum is
/// left undivided.
pub fn sample_pixel(
    world: &[Hittable],
    camera: &Camera,
    image_width: i32,
    image_height: i32,
    samples_per_pixel: i32,
    max_depth: i32,
    i: i32,
    j: i32,
    rng: &mut StdRng,
) -> (c: Color)
    ensures
        is_pixel(
            *camera,
            world@,
            image_width as int,
            image_height as int,
            max_depth as int,
            i as int,
            j as int,
            samples_per_pixel as int,
            c,
        ),
{
    let mut color = Vec3::zero();
    let mut taken: i32 = 0;
    while taken < samples_per_pixel
        invariant
            0 <= taken,
            taken <= samples_per_pixel || taken == 0,
            is_pixel(
                *camera,
                world@,
                image_width as int,
                image_height as int,
                max_depth as int,
                i as int,
                j as int,
                taken as int,
                color,
            ),
        decreases samples_per_pixel - taken,
    {
        let one = sample(world, camera, image_width, image_height, max_depth, i, j, rng);
        proof {
            lemma_pixel_step(
                *camera,
                world@,
                image_width as int,
                image_height as int,
                max_depth as int,
                i as int,
                j as int,
                taken as int,
                color,
                one,
            );
        }
        color = color + one;
        taken = taken + 1;
    }
    color
}

/// Renders the frame rows from `first_row` up to, not including, `last_row`,
/// counted from the top. The band holds one pixel sum per pixel, row by row.
pub fn render_band(
    world: &[Hittable],
    camera: &Camera,
    image_width: i32,
    image_height: i32,
    samples_per_pixel: i32,
    max_depth: i32,
    first_row: i32,
    last_row: i32,
    rng: &mut StdRng,
) -> (band: Vec<Color>)
    requires
        0 <= image_width,
        0 <= first_row <= last_row <= image_height,
    ensures
        is_band(
            band@,
            *camera,
            world@,
            image_width as int,
            image_height as int,
            samples_per_pixel as int,
            max_depth as int,
            first_row as int,
            last_row as int,
        ),
{
    let mut band: Vec<Color> = Vec::new();
    let mut row: i32 = first_row;
    let ghost width = image_width as int;
    while row < last_row
        invariant
            0 <= image_width,
            width == image_width,
            0 <= first_row <= row <= last_row <= image_height,
            is_band(
                band@,
                *camera,
                world@,
                width,
                image_height as int,
                samples_per_pixel as int,
                max_depth as int,
                first_row as int,
                row as int,
            ),
        decreases last_row - row,
    {
        let j: i32 = image_height - 1 - row;
        let mut i: i32 = 0;
        let ghost done = band@;
        while i < image_width
            invariant
                0 <= i <= image_width,
                width == image_width,
                0 <= first_row <= row < last_row <= image_height,
                j == image_height - 1 - row,
                band@.len() == done.len() + i,
                done.len() == width * (row - first_row),
                forall|k: int| 0 <= k < done.len() ==> band@[k] == done[k],
                forall|col: int|
                    0 <= col < i ==> is_pixel(
                        *camera,
                        world@,
                        width,
                        image_height as int,
                        max_depth as int,
                        col,
                        j as int,
                        samples_per_pixel as int,
                        #[trigger] band@[done.len() + col],
                    ),
            decreases image_width - i,
        {
            let c = sample_pixel(
                world,
                camera,
                image_width,
                image_height,
                samples_per_pixel,
                max_depth,
                i,
                j,
                rng,
            );
            band.push(c);
            i = i + 1;
        }
        proof {
            assert(width * (row + 1 - first_row) == width * (row - first_row) + width)
                by (nonlinear_arith);
            assert forall|col: int, r: int|
                0 <= col < width && first_row <= r < row + 1 implies is_pixel(
                *camera,
                world@,
                width,
                image_height as int,
                max_depth as int,
                col,
                image_height - 1 - r,
                samples_per_pixel as int,
                #[trigger] band@[spec_band_index(width, first_row as int, col, r)],
            ) by {
                if r < row {
                    assert(width * (r - first_row) + width <= width * (row - first_row))
                        by (nonlinear_arith)
                        requires
                            r + 1 <= row,
                            0 <= width,
                    ;
                    let k = spec_band_index(width, first_row as int, col, r);
                    assert(band@[k] == done[k]);
                } else {
                }
            }
        }
        row = row + 1;
    }
    band
}

/// Renders the world as the camera sees it: for every pixel,
/// `samples_per_pixel` jittered camera rays are followed for at most
/// `max_depth` bounces and their colours added up. The frame holds the sums
/// row by row from the top; dividing by the number of samples is left to
/// whoever encodes the frame. An image without area has an empty frame.
pub fn render(
    world: &[Hittable],
    camera: &Camera,
    image_width: i32,
    image_height: i32,
    samples_per_pixel: i32,
    max_depth: i32,
    rng: &mut StdRng,
) -> (frame: Vec<Color>)
    ensures
        is_frame(
            frame@,
            *camera,
            world@,
            image_width as int,
            image_height as int,
            samples_per_pixel as int,
            max_depth as int,
        ),
{
    if image_width <= 0 || image_height <= 0 {
        return Vec::new();
    }
    let frame = render_band(
        world,
        camera,
        image_width,
        image_height,
        samples_per_pixel,
        max_depth,
        0,
        image_height,
        rng,
    );
    proof {
        lemma_full_band_is_frame(
            frame@,
            *camera,
            world@,
            image_width as int,
            image_height as int,
            samples_per_pixel as int,
            max_depth as int,
        );
    }
    frame
}

/// The first frame row of the band of worker `k`, where `rows` rows are
/// shared out among `workers` workers as evenly as can be.
pub open spec fn spec_band_start(rows: int, workers: int, k: int) -> int {
    (k * rows) / workers
}

/// The bands of the workers divide the rows among them: the first band starts
/// at the first row, the last band ends behind the last row, and each band
/// ends where the next one starts, so that no row belongs to two bands and
/// none is left out.
pub proof fn lemma_bands_partition(rows: int, workers: int, k: int)
    requires
        rows >= 0,
        workers > 0,
        0 <= k < workers,
    ensures
        spec_band_start(rows, workers, 0) == 0,
        spec_band_start(rows, workers, workers) == rows,
        0 <= spec_band_start(rows, workers, k) <= spec_band_start(rows, workers, k + 1) <= rows,
{
    assert(0 * rows == 0);
    assert(0 <= k * rows <= (k + 1) * rows <= workers * rows) by (nonlinear_arith)
        requires
            rows >= 0,
            0 <= k < workers,
    ;
    vstd::arithmetic::div_mod::lemma_div_is_ordered(0, k * rows, workers);
    vstd::arithmetic::div_mod::lemma_div_is_ordered(k * rows, (k + 1) * rows, workers);
    vstd::arithmetic::div_mod::lemma_div_is_ordered((k + 1) * rows, workers * rows, workers);
}

/// Every row belongs to the band of some worker.
pub proof fn lemma_bands_cover(rows: int, workers: int, row: int) -> (k: int)
    requires
        workers > 0,
        0 <= row < rows,
    ensures
        0 <= k < workers,
        spec_band_start(rows, workers, k) <= row < spec_band_start(rows, workers, k + 1),
{
    lemma_bands_partition(rows, workers, 0);
    lemma_band_search(rows, workers, row, workers)
}

/// Among the first `upto` bands, one holds the row if the row lies before the
/// end of the last of them.
proof fn lemma_band_search(rows: int, workers: int, row: int, upto: int) -> (k: int)
    requires
        workers > 0,
        0 <= row < rows,
        0 < upto <= workers,
        row < spec_band_start(rows, workers, upto),
    ensures
        0 <= k < upto,
        spec_band_start(rows, workers, k) <= row < spec_band_start(rows, workers, k + 1),
    decreases upto,
{
    if spec_band_start(rows, workers, upto - 1) <= row {
        upto - 1
    } else {
        if upto == 1 {
            lemma_bands_partition(rows, workers, 0);
        }
        lemma_band_search(rows, workers, row, upto - 1)
    }
}

/// The rows of worker `k` out of `workers`: the first row of its band and
/// the row behind its last, counted from the top of the frame.
pub fn band_rows(rows: i32, workers: i32, k: i32) -> (band: (i32, i32))
    requires
        rows >= 0,
        workers > 0,
        0 <= k < workers,
    ensures
        band.0 == spec_band_start(rows as int, workers as int, k as int),
        band.1 == spec_band_start(rows as int, workers as int, k + 1),
        0 <= band.0 <= band.1 <= rows,
{
    proof {
        lemma_bands_partition(rows as int, workers as int, k as int);
    }
    assert(0 <= (k as i64) * (rows as i64) <= ((k as i64) + 1) * (rows as i64)
        <= 0x4000_0000_0000_0000) by (nonlinear_arith)
        requires
            0 <= k as i64 <= 0x8000_0000,
            0 <= rows as i64 <= 0x8000_0000,
    ;
    let first: i64 = ((k as i64) * (rows as i64)) / (workers as i64);
    let last: i64 = (((k as i64) + 1) * (rows as i64)) / (workers as i64);
    (first as i32, last as i32)
}

/// The bands laid end to end.
pub open spec fn spec_join(bands: Seq<Vec<Color>>) -> Seq<Color>
    decreases bands.len(),
{
    if bands.len() == 0 {
        Seq::empty()
    } else {
        spec_join(bands.drop_last()) + bands.last()@
    }
}

/// A band followed by the band of the rows that come next is the band of
/// both ranges of rows.
pub proof fn lemma_bands_join(
    upper: Seq<Color>,
    lower: Seq<Color>,
    camera: Camera,
    world: Seq<Hittable>,
    width: int,
    height: int,
    samples: int,
    depth: int,
    first_row: int,
    middle_row: int,
    last_row: int,
)
    requires
        0 <= width,
        first_row <= middle_row <= last_row,
        is_band(upper, camera, world, width, height, samples, depth, first_row, middle_row),
        is_band(lower, camera, world, width, height, samples, depth, middle_row, last_row),
    ensures
        is_band(upper + lower, camera, world, width, height, samples, depth, first_row, last_row),
{
    let joined = upper + lower;
    assert(width * (last_row - first_row) == width * (middle_row - first_row) + width * (last_row
        - middle_row)) by (nonlinear_arith);
    assert forall|i: int, row: int| 0 <= i < width && first_row <= row < last_row implies is_pixel(
        camera,
        world,
        width,
        height,
        depth,
        i,
        height - 1 - row,
        samples,
        #[trigger] joined[spec_band_index(width, first_row, i, row)],
    ) by {
        let k = spec_band_index(width, first_row, i, row);
        if row < middle_row {
            assert(0 <= width * (row - first_row) && width * (row - first_row) + width <= width * (
            middle_row - first_row)) by (nonlinear_arith)
                requires
                    first_row <= row,
                    row + 1 <= middle_row,
                    0 <= width,
            ;
        } else {
            let m = spec_band_index(width, middle_row, i, row);
            assert(width * (row - first_row) == width * (middle_row - first_row) + width * (row
                - middle_row)) by (nonlinear_arith);
            assert(0 <= width * (row - middle_row) && width * (row - middle_row) + width <= width
                * (last_row - middle_row)) by (nonlinear_arith)
                requires
                    middle_row <= row,
                    row + 1 <= last_row,
                    0 <= width,
            ;
            assert(k == upper.len() + m);
        }
    }
}

/// Bands that the workers rendered, each for its own rows, join to a frame.
pub proof fn lemma_bands_make_frame(
    bands: Seq<Vec<Color>>,
    camera: Camera,
    world: Seq<Hittable>,
    width: int,
    height: int,
    samples: int,
    depth: int,
)
    requires
        0 <= width,
        0 <= height,
        bands.len() > 0,
        forall|k: int|
            0 <= k < bands.len() ==> is_band(
                (#[trigger] bands[k])@,
                camera,
                world,
                width,
                height,
                samples,
                depth,
                spec_band_start(height, bands.len() as int, k),
                spec_band_start(height, bands.len() as int, k + 1),
            ),
    ensures
        is_frame(spec_join(bands), camera, world, width, height, samples, depth),
{
    lemma_bands_prefix(bands, camera, world, width, height, samples, depth, bands.len() as int);
    lemma_bands_partition(height, bands.len() as int, 0);
    assert(bands.take(bands.len() as int) == bands);
    lemma_full_band_is_frame(spec_join(bands), camera, world, width, height, samples, depth);
}

/// The first `upto` bands join to the band of all their rows.
proof fn lemma_bands_prefix(
    bands: Seq<Vec<Color>>,
    camera: Camera,
    world: Seq<Hittable>,
    width: int,
    height: int,
    samples: int,
    depth: int,
    upto: int,
)
    requires
        0 <= width,
        0 <= height,
        0 <= upto <= bands.len(),
        bands.len() > 0,
        forall|k: int|
            0 <= k < bands.len() ==> is_band(
                (#[trigger] bands[k])@,
                camera,
                world,
                width,
                height,
                samples,
                depth,
                spec_band_start(height, bands.len() as int, k),
                spec_band_start(height, bands.len() as int, k + 1),
            ),
    ensures
        is_band(
            spec_join(bands.take(upto)),
            camera,
            world,
            width,
            height,
            samples,
            depth,
            0,
            spec_band_start(height, bands.len() as int, upto),
        ),
    decreases upto,
{
    let workers = bands.len() as int;
    lemma_bands_partition(height, workers, 0);
    if upto == 0 {
    } else {
        lemma_bands_prefix(bands, camera, world, width, height, samples, depth, upto - 1);
        lemma_bands_partition(height, workers, upto - 1);
        assert(bands.take(upto).drop_last() == bands.take(upto - 1));
        lemma_bands_join(
            spec_join(bands.take(upto - 1)),
            bands[upto - 1]@,
            camera,
            world,
            width,
            height,
            samples,
            depth,
            0,
            spec_band_start(height, workers, upto - 1),
            spec_band_start(height, workers, upto),
        );
    }
}

/// Lays the bands end to end, the first band first.
pub fn assemble(bands: &Vec<Vec<Color>>) -> (frame: Vec<Color>)
    ensures
        frame@ == spec_join(bands@),
{
    let mut frame: Vec<Color> = Vec::new();
    let mut k: usize = 0;
    while k < bands.len()
        invariant
            k <= bands.len(),
            frame@ == spec_join(bands@.take(k as int)),
        decreases bands.len() - k,
    {
        let band = &bands[k];
        let ghost before = frame@;
        let mut n: usize = 0;
        while n < band.len()
            invariant
                n <= band.len(),
                frame@ == before + band@.take(n as int),
            decreases band.len() - n,
        {
            frame.push(band[n]);
            n = n + 1;
        }
        proof {
            assert(bands@.take(k + 1).drop_last() == bands@.take(k as int));
        }
        k = k + 1;
    }
    proof {
        assert(bands@.take(k as int) == bands@);
    }
    frame
}

} // verus!
