//! A generated image, for trying out the writer without an input file.
use crate::image::{blank, Image, RGBA};
use vstd::prelude::*;

verus! {

/// The pixel of the sample image at column `x`, row `y`: opaque red, with
/// green rising to the right and blue rising downwards.
pub open spec fn sample_pixel(x: int, y: int) -> RGBA {
    RGBA { r: 0xFF, g: x as u8, b: y as u8, a: 0xFF }
}

/// Whether pixel `k` of a row-major 255-column image lies in a column before
/// `x`, or in column `x` above row `y`.
spec fn filled(k: int, x: int, y: int) -> bool {
    k % 255 < x || (k % 255 == x && k / 255 < y)
}

/// A 255 by 200 image in which the green channel is the column and the blue
/// channel the row.
pub fn make_image() -> (image: Image)
    ensures
        image.wf(),
        image.width() == 255,
        image.height() == 200,
        forall|x: int, y: int|
            0 <= x < 255 && 0 <= y < 200 ==> #[trigger] image.pixels()[image.index_of(x, y)]
                == sample_pixel(x, y),
{
    let mut image = Image::new(255, 200);
    let ghost n: nat = 255 * 200;
    let mut x: u32 = 0;
    while x < 255
        invariant
            x <= 255,
            n == 255 * 200,
            image.wf(),
            image.width() == 255,
            image.height() == 200,
            image.pixels() == Seq::new(
                n,
                |k: int|
                    if filled(k, x as int, 0) {
                        sample_pixel(k % 255, k / 255)
                    } else {
                        blank()
                    },
            ),
        decreases 255 - x,
    {
        let mut y: u32 = 0;
        while y < 200
            invariant
                x < 255,
                y <= 200,
                n == 255 * 200,
                image.wf(),
                image.width() == 255,
                image.height() == 200,
                image.pixels() == Seq::new(
                    n,
                    |k: int|
                        if filled(k, x as int, y as int) {
                            sample_pixel(k % 255, k / 255)
                        } else {
                            blank()
                        },
                ),
            decreases 200 - y,
        {
            let ghost old_pixels = image.pixels();
            image.write(x, y, RGBA::new(0xFF, x as u8, y as u8, 0xFF));
            proof {
                let i = y * 255 + x;
                assert(i % 255 == x && i / 255 == y) by (nonlinear_arith)
                    requires
                        i == y * 255 + x,
                        0 <= x < 255,
                ;
                assert forall|k: int| 0 <= k < n implies #[trigger] filled(k, x as int, y + 1)
                    == (filled(k, x as int, y as int) || k == i) by {
                    if k % 255 == x && k / 255 == y {
                        assert(k == i) by (nonlinear_arith)
                            requires
                                k % 255 == x,
                                k / 255 == y,
                                i == y * 255 + x,
                        ;
                    }
                }
            }
            y = y + 1;
            assert(image.pixels() =~= Seq::new(
                n,
                |k: int|
                    if filled(k, x as int, y as int) {
                        sample_pixel(k % 255, k / 255)
                    } else {
                        blank()
                    },
            ));
        }
        proof {
            assert forall|k: int| 0 <= k < n implies #[trigger] filled(k, x + 1, 0) == filled(
                k,
                x as int,
                200,
            ) by {
                assert(k / 255 < 200) by (nonlinear_arith)
                    requires
                        0 <= k < 255 * 200,
                ;
            }
        }
        x = x + 1;
        assert(image.pixels() =~= Seq::new(
            n,
            |k: int|
                if filled(k, x as int, 0) {
                    sample_pixel(k % 255, k / 255)
                } else {
                    blank()
                },
        ));
    }
    proof {
        assert forall|x: int, y: int| 0 <= x < 255 && 0 <= y < 200 implies #[trigger] image.pixels()[image.index_of(x, y)]
            == sample_pixel(x, y) by {
            let i = y * 255 + x;
            assert(i % 255 == x && i / 255 == y && 0 <= i < 255 * 200) by (nonlinear_arith)
                requires
                    i == y * 255 + x,
                    0 <= x < 255,
                    0 <= y < 200,
            ;
        }
    }
    image
}

} // verus!
