//! The program's icon: a blue arrow pointing down on a dark ground.

use crate::types::Color;
use vstd::prelude::*;

verus! {

/// The icon is as wide as it is high.
pub const ICON_SIZE: usize = 32;

/// The pixel at `x`, `y` is in the shaft of the arrow.
pub open spec fn in_shaft(x: int, y: int) -> bool {
    13 <= x <= 19 && 6 <= y <= 20
}

/// The pixel at `x`, `y` is in the head of the arrow, which is widest at its
/// top row, grows narrower by one pixel on each side from row to row, and ends
/// in a single pixel.
pub open spec fn in_head(x: int, y: int) -> bool {
    20 <= y <= 26 && 16 - (26 - y) <= x <= 16 + (26 - y)
}

/// The pixel at `x`, `y` is in the arrow.
pub open spec fn in_arrow(x: int, y: int) -> bool {
    in_shaft(x, y) || in_head(x, y)
}

/// The colour of the pixel at `x`, `y`.
pub open spec fn pixel(x: int, y: int) -> Color {
    if in_arrow(x, y) {
        Color { r: 88, g: 166, b: 255 }
    } else {
        Color { r: 13, g: 17, b: 23 }
    }
}

/// The arrow points down: its head is wider than its shaft, each of the head's
/// rows stands within the row above it and leaves a pixel free on each side,
/// and the lowest row is a single pixel with nothing below it.
pub proof fn law_arrow_points_down()
    ensures
        forall|x: int| in_shaft(x, 20) ==> #[trigger] in_head(x, 20),
        in_head(10, 20) && in_head(22, 20) && !in_shaft(10, 20) && !in_shaft(22, 20),
        forall|x: int, y: int|
            20 <= y < 26 && #[trigger] in_head(x, y + 1) ==> in_head(x - 1, y) && in_head(x, y)
                && in_head(x + 1, y),
        forall|x: int| #[trigger] in_arrow(x, 26) <==> x == 16,
        forall|x: int, y: int| y > 26 ==> !#[trigger] in_arrow(x, y),
{
}

/// The bytes at the place of pixel `k`, counted row by row, are its colour and
/// full opacity.
pub open spec fn shows_pixel(bytes: Seq<u8>, k: int) -> bool {
    let c = pixel(k % 32, k / 32);
    &&& bytes[4 * k] == c.r
    &&& bytes[4 * k + 1] == c.g
    &&& bytes[4 * k + 2] == c.b
    &&& bytes[4 * k + 3] == 255
}

/// The icon, row by row, four bytes for each pixel: red, green, blue and full
/// opacity.
pub fn icon_rgba() -> (r: Vec<u8>)
    ensures
        r@.len() == 4 * ICON_SIZE * ICON_SIZE,
        forall|k: int| 0 <= k < ICON_SIZE * ICON_SIZE ==> #[trigger] shows_pixel(r@, k),
{
    let mut out: Vec<u8> = Vec::new();
    let mut k: usize = 0;
    while k < ICON_SIZE * ICON_SIZE
        invariant
            k <= ICON_SIZE * ICON_SIZE,
            out@.len() == 4 * k,
            forall|j: int| 0 <= j < k ==> #[trigger] shows_pixel(out@, j),
        decreases ICON_SIZE * ICON_SIZE - k,
    {
        let x: usize = k % ICON_SIZE;
        let y: usize = k / ICON_SIZE;
        let shaft = 13 <= x && x <= 19 && 6 <= y && y <= 20;
        let head = 20 <= y && y <= 26 && y <= x + 10 && x + y <= 42;
        let c = if shaft || head {
            Color { r: 88, g: 166, b: 255 }
        } else {
            Color { r: 13, g: 17, b: 23 }
        };
        let ghost before = out@;
        out.push(c.r);
        out.push(c.g);
        out.push(c.b);
        out.push(255);
        assert forall|j: int| 0 <= j < k + 1 implies #[trigger] shows_pixel(out@, j) by {
            if j < k {
                assert(shows_pixel(before, j));
            } else {
                assert(c == pixel(j % 32, j / 32));
            }
        }
        k += 1;
    }
    out
}

} // verus!
