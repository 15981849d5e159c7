//! Masks for the laser beams: a pattern's outline, drawn with a brush into a square
//! of bytes.
use vstd::prelude::*;

verus! {

broadcast use vstd::seq::group_seq_axioms;

/// The side of a mask, in pixels.
pub const COOKIE_SIZE: usize = 256;

/// The pixel is under the brush at a point: at most one off in each direction.
pub open spec fn touches(p: (i32, i32), x: int, y: int) -> bool {
    -1 <= x - p.0 <= 1 && -1 <= y - p.1 <= 1
}

/// Some of the points has the pixel under its brush.
pub open spec fn inked(points: Seq<(i32, i32)>, x: int, y: int) -> bool {
    exists|i: int| 0 <= i < points.len() && touches(#[trigger] points[i], x, y)
}

/// The mask of the points: white where the brush went, black elsewhere.
pub open spec fn is_mask(data: Seq<u8>, points: Seq<(i32, i32)>) -> bool {
    &&& data.len() == COOKIE_SIZE * COOKIE_SIZE
    &&& forall|x: int, y: int|
        0 <= x < COOKIE_SIZE && 0 <= y < COOKIE_SIZE ==> #[trigger] data[y * COOKIE_SIZE + x] == (if inked(points, x, y) {
            255u8
        } else {
            0u8
        })
}

/// The point is far enough from the ends of its range for the brush.
pub open spec fn in_reach(p: (i32, i32)) -> bool {
    i32::MIN < p.0 < i32::MAX && i32::MIN < p.1 < i32::MAX
}

/// The pixels of a mask do not overlap.
proof fn lemma_pixels(x: int, y: int, a: int, b: int)
    requires
        0 <= x < COOKIE_SIZE,
        0 <= a < COOKIE_SIZE,
        0 <= y < COOKIE_SIZE,
        0 <= b < COOKIE_SIZE,
    ensures
        y * COOKIE_SIZE + x == b * COOKIE_SIZE + a ==> x == a && y == b,
        0 <= y * COOKIE_SIZE + x < COOKIE_SIZE * COOKIE_SIZE,
{
}

/// Draws one point into a mask.
fn plot(data: &mut Vec<u8>, p: (i32, i32), Ghost(done): Ghost<Seq<(i32, i32)>>)
    requires
        is_mask(old(data)@, done),
        in_reach(p),
    ensures
        is_mask(final(data)@, done.push(p)),
{
    let n: i32 = COOKIE_SIZE as i32;
    let ghost before = data@;
    let mut dy: i32 = -1;
    while dy <= 1
        invariant
            -1 <= dy <= 2,
            n == COOKIE_SIZE,
            in_reach(p),
            is_mask(before, done),
            data@.len() == before.len(),
            forall|x: int, y: int|
                0 <= x < COOKIE_SIZE && 0 <= y < COOKIE_SIZE ==> #[trigger] data@[y * COOKIE_SIZE + x] == (if touches(p, x, y) && y
                    - p.1 < dy {
                    255u8
                } else {
                    before[y * COOKIE_SIZE + x]
                }),
        decreases 2 - dy,
    {
        let mut dx: i32 = -1;
        while dx <= 1
            invariant
                -1 <= dy <= 1,
                -1 <= dx <= 2,
                n == COOKIE_SIZE,
                in_reach(p),
                is_mask(before, done),
                data@.len() == before.len(),
                forall|x: int, y: int|
                    0 <= x < COOKIE_SIZE && 0 <= y < COOKIE_SIZE ==> #[trigger] data@[y * COOKIE_SIZE + x] == (if touches(p, x, y)
                        && (y - p.1 < dy || (y - p.1 == dy && x - p.0 < dx)) {
                        255u8
                    } else {
                        before[y * COOKIE_SIZE + x]
                    }),
            decreases 2 - dx,
        {
            let px: i32 = p.0 + dx;
            let py: i32 = p.1 + dy;
            if px >= 0 && py >= 0 && px < n && py < n {
                let ghost was = data@;
                let k: usize = py as usize * COOKIE_SIZE + px as usize;
                data.set(k, 255);
                proof {
                    assert forall|x: int, y: int| 0 <= x < COOKIE_SIZE && 0 <= y < COOKIE_SIZE implies #[trigger] data@[y
                        * COOKIE_SIZE + x] == (if touches(p, x, y) && (y - p.1 < dy || (y - p.1 == dy && x - p.0 < dx + 1)) {
                        255u8
                    } else {
                        before[y * COOKIE_SIZE + x]
                    }) by {
                        lemma_pixels(x, y, px as int, py as int);
                        assert(was[y * COOKIE_SIZE + x] == (if touches(p, x, y) && (y - p.1 < dy || (y - p.1 == dy && x - p.0 < dx)) {
                            255u8
                        } else {
                            before[y * COOKIE_SIZE + x]
                        }));
                    }
                }
            }
            dx = dx + 1;
        }
        dy = dy + 1;
    }
    proof {
        let points = done.push(p);
        assert forall|x: int, y: int| 0 <= x < COOKIE_SIZE && 0 <= y < COOKIE_SIZE implies #[trigger] data@[y * COOKIE_SIZE + x] == (
        if inked(points, x, y) {
            255u8
        } else {
            0u8
        }) by {
            assert(before[y * COOKIE_SIZE + x] == (if inked(done, x, y) {
                255u8
            } else {
                0u8
            }));
            if inked(points, x, y) {
                let i = choose|i: int| 0 <= i < points.len() && touches(#[trigger] points[i], x, y);
                if i < done.len() {
                    assert(touches(done[i], x, y));
                }
            }
            if inked(done, x, y) {
                let i = choose|i: int| 0 <= i < done.len() && touches(#[trigger] done[i], x, y);
                assert(touches(points[i], x, y));
            }
            assert(points[done.len() as int] == p);
        }
    }
}

/// Draws points into a new mask, each with a brush of three by three pixels so that
/// thin lines survive.
pub fn build_mask(points: &Vec<(i32, i32)>) -> (r: Vec<u8>)
    requires
        forall|i: int| 0 <= i < points@.len() ==> in_reach(#[trigger] points@[i]),
    ensures
        is_mask(r@, points@),
{
    let mut data: Vec<u8> = Vec::new();
    let total: usize = COOKIE_SIZE * COOKIE_SIZE;
    while data.len() < total
        invariant
            total == COOKIE_SIZE * COOKIE_SIZE,
            data@.len() <= total,
            forall|i: int| 0 <= i < data@.len() ==> data@[i] == 0u8,
        decreases total - data@.len(),
    {
        data.push(0);
    }
    proof {
        assert forall|x: int, y: int| 0 <= x < COOKIE_SIZE && 0 <= y < COOKIE_SIZE implies #[trigger] data@[y * COOKIE_SIZE + x]
            == 0u8 by {
            lemma_pixels(x, y, 0, 0);
        }
        assert(is_mask(data@, points@.take(0)));
    }
    let mut i: usize = 0;
    while i < points.len()
        invariant
            i <= points@.len(),
            forall|i: int| 0 <= i < points@.len() ==> in_reach(#[trigger] points@[i]),
            is_mask(data@, points@.take(i as int)),
        decreases points@.len() - i,
    {
        plot(&mut data, points[i], Ghost(points@.take(i as int)));
        assert(points@.take(i + 1) =~= points@.take(i as int).push(points@[i as int]));
        i = i + 1;
    }
    assert(points@.take(points@.len() as int) =~= points@);
    data
}

} // verus!
