//! A raster image in memory: 8-bit red, green, blue and alpha for each pixel,
//! rows from top to bottom, each from left to right.

use vstd::prelude::*;

verus! {

/// One pixel's colour.
#[derive(Clone, Copy, Debug, PartialEq, Eq, Structural)]
pub struct Rgba {
    pub r: u8,
    pub g: u8,
    pub b: u8,
    pub a: u8,
}

/// An image of `width` by `height` pixels, four bytes for each.
#[derive(Debug)]
pub struct Raster {
    pub width: u32,
    pub height: u32,
    pub pixels: Vec<u8>,
}

/// The most bytes that one image of a conversion may take.
pub const MAX_IMAGE_BYTES: u32 = 0x7fff_ffff;

/// The place of pixel `(x, y)`'s first byte in an image `width` wide.
pub open spec fn offset_of(width: int, x: int, y: int) -> int {
    4 * (y * width + x)
}

/// The colour that `pixels` holds at byte `offset`.
pub open spec fn color_at(pixels: Seq<u8>, offset: int) -> Rgba {
    Rgba { r: pixels[offset], g: pixels[offset + 1], b: pixels[offset + 2], a: pixels[offset + 3] }
}

/// One of a colour's four bytes: red, green, blue, alpha for 0, 1, 2, 3.
pub open spec fn channel(color: Rgba, ch: int) -> u8 {
    if ch == 0 {
        color.r
    } else if ch == 1 {
        color.g
    } else if ch == 2 {
        color.b
    } else {
        color.a
    }
}

/// The pixel bytes of an image of one colour.
pub open spec fn uniform_pixels(width: int, height: int, color: Rgba) -> Seq<u8> {
    Seq::new((4 * (width * height)) as nat, |k: int| channel(color, k % 4))
}

/// The pixel bytes of an image `width` wide after the square of side `side`
/// whose top left pixel is `(x0, y0)` was painted in `color`.
pub open spec fn square_filled(
    width: int,
    pixels: Seq<u8>,
    x0: int,
    y0: int,
    side: int,
    color: Rgba,
) -> Seq<u8> {
    Seq::new(
        pixels.len(),
        |k: int|
            if in_square(x0, y0, side, (k / 4) % width, (k / 4) / width) {
                channel(color, k % 4)
            } else {
                pixels[k]
            },
    )
}

/// Every byte of an image is one channel of one of its pixels: byte `k`
/// belongs to pixel `((k / 4) % width, (k / 4) / width)`.
pub proof fn lemma_byte_is_channel(width: int, height: int, pixels: Seq<u8>, k: int)
    requires
        width >= 0,
        height >= 0,
        pixels.len() == 4 * (width * height),
        0 <= k < pixels.len(),
    ensures
        0 <= (k / 4) % width < width,
        0 <= (k / 4) / width < height,
        offset_of(width, (k / 4) % width, (k / 4) / width) + k % 4 == k,
        pixels[k] == channel(
            color_at(pixels, offset_of(width, (k / 4) % width, (k / 4) / width)),
            k % 4,
        ),
{
    let p = k / 4;
    assert(width > 0) by (nonlinear_arith)
        requires
            width >= 0,
            4 * (width * height) > 0,
    ;
    assert(0 <= p < width * height);
    vstd::arithmetic::div_mod::lemma_fundamental_div_mod(p, width);
    vstd::arithmetic::div_mod::lemma_mod_bound(p, width);
    let x = p % width;
    let y = p / width;
    assert(width * y == y * width) by (nonlinear_arith);
    assert(0 <= y < height) by (nonlinear_arith)
        requires
            0 <= p < width * height,
            p == width * y + x,
            0 <= x < width,
            width > 0,
    ;
}

/// A pixel's four bytes lie within the image's bytes.
pub proof fn lemma_offset_in_range(width: int, height: int, x: int, y: int)
    requires
        0 <= x < width,
        0 <= y < height,
    ensures
        0 <= offset_of(width, x, y),
        offset_of(width, x, y) + 4 <= 4 * (width * height),
        0 <= y * width <= (height - 1) * width,
{
    assert(y * width + width <= height * width) by (nonlinear_arith)
        requires
            y + 1 <= height,
            width >= 0,
    ;
    assert(0 <= y * width) by (nonlinear_arith)
        requires
            y >= 0,
            width >= 0,
    ;
    assert(height * width == width * height) by (nonlinear_arith);
    assert((height - 1) * width == height * width - width) by (nonlinear_arith);
}

/// Two pixels of one image with the same offset are the same pixel.
pub proof fn lemma_offset_injective(width: int, x1: int, y1: int, x2: int, y2: int)
    requires
        0 <= x1 < width,
        0 <= x2 < width,
        0 <= y1,
        0 <= y2,
        offset_of(width, x1, y1) == offset_of(width, x2, y2),
    ensures
        x1 == x2,
        y1 == y2,
{
    if y1 < y2 {
        assert(y1 * width + width <= y2 * width) by (nonlinear_arith)
            requires
                y1 + 1 <= y2,
                width >= 0,
        ;
    } else if y2 < y1 {
        assert(y2 * width + width <= y1 * width) by (nonlinear_arith)
            requires
                y2 + 1 <= y1,
                width >= 0,
        ;
    }
}

impl Raster {
    /// The image holds exactly the bytes of its pixels.
    pub open spec fn wf(&self) -> bool {
        self.pixels@.len() == 4 * (self.width * self.height)
    }

    /// Whether `(x, y)` is a pixel of the image.
    pub open spec fn contains(&self, x: int, y: int) -> bool {
        0 <= x < self.width && 0 <= y < self.height
    }

    /// The colour of pixel `(x, y)`.
    pub open spec fn pixel_at(&self, x: int, y: int) -> Rgba {
        color_at(self.pixels@, offset_of(self.width as int, x, y))
    }

    /// An image of one colour.
    pub fn filled(width: u32, height: u32, color: Rgba) -> (image: Raster)
        requires
            4 * (width * height) <= usize::MAX,
        ensures
            image.wf(),
            image.width == width,
            image.height == height,
            image.pixels@ == uniform_pixels(width as int, height as int, color),
            forall|x: int, y: int| image.contains(x, y) ==> #[trigger] image.pixel_at(x, y) == color,
    {
        let count: usize = width as usize * height as usize;
        let mut pixels: Vec<u8> = Vec::new();
        let mut i: usize = 0;
        while i < count
            invariant
                i <= count,
                count == width * height,
                pixels@.len() == 4 * i,
                forall|k: int| 0 <= k < i ==> color_at(pixels@, #[trigger] (4 * k)) == color,
            decreases count - i,
        {
            let ghost before = pixels@;
            pixels.push(color.r);
            pixels.push(color.g);
            pixels.push(color.b);
            pixels.push(color.a);
            proof {
                assert forall|k: int| 0 <= k < i + 1 implies color_at(pixels@, #[trigger] (4 * k))
                    == color by {
                    if k < i {
                        assert(color_at(before, 4 * k) == color);
                    }
                }
            }
            i = i + 1;
        }
        let image = Raster { width, height, pixels };
        proof {
            assert forall|x: int, y: int| image.contains(x, y) implies #[trigger] image.pixel_at(
                x,
                y,
            ) == color by {
                lemma_offset_in_range(width as int, height as int, x, y);
                let k = y * width + x;
                assert(color_at(image.pixels@, 4 * k) == color);
            }
            assert forall|k: int| 0 <= k < image.pixels@.len() implies image.pixels@[k] == channel(
                color,
                k % 4,
            ) by {
                lemma_byte_is_channel(width as int, height as int, image.pixels@, k);
                assert(image.contains((k / 4) % (width as int), (k / 4) / (width as int)));
            }
            assert(image.pixels@ =~= uniform_pixels(width as int, height as int, color));
        }
        image
    }

    /// The colour of pixel `(x, y)`.
    pub fn get_pixel(&self, x: u32, y: u32) -> (color: Rgba)
        requires
            self.wf(),
            x < self.width,
            y < self.height,
        ensures
            color == self.pixel_at(x as int, y as int),
    {
        proof {
            lemma_offset_in_range(self.width as int, self.height as int, x as int, y as int);
        }
        let len = self.pixels.len();
        let at: usize = 4 * (y as usize * self.width as usize + x as usize);
        assert(at + 4 <= len);
        Rgba {
            r: self.pixels[at],
            g: self.pixels[at + 1],
            b: self.pixels[at + 2],
            a: self.pixels[at + 3],
        }
    }

    /// Sets pixel `(x, y)` to `color` and leaves every other pixel as it is.
    pub fn put_pixel(&mut self, x: u32, y: u32, color: Rgba)
        requires
            old(self).wf(),
            x < old(self).width,
            y < old(self).height,
        ensures
            final(self).wf(),
            final(self).width == old(self).width,
            final(self).height == old(self).height,
            final(self).pixel_at(x as int, y as int) == color,
            forall|i: int, j: int|
                old(self).contains(i, j) && (i != x || j != y) ==> #[trigger] final(self).pixel_at(
                    i,
                    j,
                ) == old(self).pixel_at(i, j),
    {
        proof {
            lemma_offset_in_range(self.width as int, self.height as int, x as int, y as int);
        }
        let len = self.pixels.len();
        let at: usize = 4 * (y as usize * self.width as usize + x as usize);
        assert(at + 4 <= len);
        self.pixels.set(at, color.r);
        self.pixels.set(at + 1, color.g);
        self.pixels.set(at + 2, color.b);
        self.pixels.set(at + 3, color.a);
        proof {
            assert forall|i: int, j: int| old(self).contains(i, j) && (i != x || j != y) implies #[trigger] self.pixel_at(
                i,
                j,
            ) == old(self).pixel_at(i, j) by {
                lemma_offset_in_range(self.width as int, self.height as int, i, j);
                if offset_of(self.width as int, i, j) == offset_of(
                    self.width as int,
                    x as int,
                    y as int,
                ) {
                    lemma_offset_injective(self.width as int, i, j, x as int, y as int);
                }
            }
        }
    }

    /// Paints the square of side `side` whose top left pixel is `(x0, y0)`
    /// in `color` and leaves every other pixel as it is.
    pub fn fill_square(&mut self, x0: u32, y0: u32, side: u32, color: Rgba)
        requires
            old(self).wf(),
            x0 + side <= old(self).width,
            y0 + side <= old(self).height,
        ensures
            final(self).wf(),
            final(self).width == old(self).width,
            final(self).height == old(self).height,
            final(self).pixels@ == square_filled(
                old(self).width as int,
                old(self).pixels@,
                x0 as int,
                y0 as int,
                side as int,
                color,
            ),
            forall|i: int, j: int|
                old(self).contains(i, j) ==> #[trigger] final(self).pixel_at(i, j) == if in_square(
                    x0 as int,
                    y0 as int,
                    side as int,
                    i,
                    j,
                ) {
                    color
                } else {
                    old(self).pixel_at(i, j)
                },
    {
        let mut dy: u32 = 0;
        while dy < side
            invariant
                dy <= side,
                self.wf(),
                self.width == old(self).width,
                self.height == old(self).height,
                x0 + side <= self.width,
                y0 + side <= self.height,
                forall|i: int, j: int|
                    old(self).contains(i, j) ==> #[trigger] self.pixel_at(i, j) == if in_square(
                        x0 as int,
                        y0 as int,
                        side as int,
                        i,
                        j,
                    ) && j < y0 + dy {
                        color
                    } else {
                        old(self).pixel_at(i, j)
                    },
            decreases side - dy,
        {
            let mut dx: u32 = 0;
            while dx < side
                invariant
                    dx <= side,
                    dy < side,
                    self.wf(),
                    self.width == old(self).width,
                    self.height == old(self).height,
                    x0 + side <= self.width,
                    y0 + side <= self.height,
                    forall|i: int, j: int|
                        old(self).contains(i, j) ==> #[trigger] self.pixel_at(i, j) == if in_square(
                            x0 as int,
                            y0 as int,
                            side as int,
                            i,
                            j,
                        ) && (j < y0 + dy || (j == y0 + dy && i < x0 + dx)) {
                            color
                        } else {
                            old(self).pixel_at(i, j)
                        },
                decreases side - dx,
            {
                self.put_pixel(x0 + dx, y0 + dy, color);
                dx = dx + 1;
            }
            dy = dy + 1;
        }
        proof {
            let width = self.width as int;
            let height = self.height as int;
            let target = square_filled(
                width,
                old(self).pixels@,
                x0 as int,
                y0 as int,
                side as int,
                color,
            );
            assert forall|k: int| 0 <= k < target.len() implies self.pixels@[k] == target[k] by {
                lemma_byte_is_channel(width, height, self.pixels@, k);
                lemma_byte_is_channel(width, height, old(self).pixels@, k);
                let x = (k / 4) % width;
                let y = (k / 4) / width;
                assert(old(self).contains(x, y));
                assert(self.pixel_at(x, y) == if in_square(x0 as int, y0 as int, side as int, x, y) {
                    color
                } else {
                    old(self).pixel_at(x, y)
                });
            }
            assert(self.pixels@ =~= target);
        }
    }
}

/// The pixel bytes of the rectangle of `width` by `height` pixels whose top
/// left pixel is `(x, y)` of an image `src_width` wide.
pub open spec fn cropped_pixels(
    src_width: int,
    pixels: Seq<u8>,
    x: int,
    y: int,
    width: int,
    height: int,
) -> Seq<u8> {
    Seq::new(
        (4 * (width * height)) as nat,
        |k: int| pixels[offset_of(src_width, x + (k / 4) % width, y + (k / 4) / width) + k % 4],
    )
}

/// Whether pixel `(i, j)` lies in the square of side `side` whose top left
/// pixel is `(x0, y0)`.
pub open spec fn in_square(x0: int, y0: int, side: int, i: int, j: int) -> bool {
    x0 <= i < x0 + side && y0 <= j < y0 + side
}

} // verus!
