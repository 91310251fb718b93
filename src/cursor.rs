use vstd::prelude::*;

use crate::motion::{Position, UNIT};

verus! {

/// Largest magnitude of a matrix entry, in millionths (about a million
/// units).
pub const ENTRY_LIMIT: i64 = 0x100_0000_0000;

/// A 4x4 matrix, column-major: the entry at row `i` and column `j` is
/// `m[4 * j + i]`, in millionths.
#[derive(Clone, Copy, Debug, PartialEq, Eq)]
pub struct Mat4 {
    pub m: [i64; 16],
}

impl Mat4 {
    pub open spec fn at(self, i: int, j: int) -> int {
        self.m@[4 * j + i] as int
    }

    pub open spec fn wf(self) -> bool {
        forall|k: int| 0 <= k < 16 ==> -ENTRY_LIMIT <= #[trigger] self.m@[k] <= ENTRY_LIMIT
    }
}

/// Row `i` of `m` times the column vector `v`.
pub open spec fn row_times(m: Mat4, i: int, v: (int, int, int, int)) -> int {
    m.at(i, 0) * v.0 + m.at(i, 1) * v.1 + m.at(i, 2) * v.2 + m.at(i, 3) * v.3
}

/// `m` times the column vector `v`.
pub open spec fn times(m: Mat4, v: (int, int, int, int)) -> (int, int, int, int) {
    (row_times(m, 0, v), row_times(m, 1, v), row_times(m, 2, v), row_times(m, 3, v))
}

/// `a / b` rounded down, for either sign of `b`.
pub open spec fn ratio(a: int, b: int) -> int {
    if b > 0 {
        a / b
    } else {
        (-a) / (-b)
    }
}

/// A screen coordinate in `[0, size]` as a normalised device coordinate in
/// `[-1, 1]`, in millionths, rounded down.
pub open spec fn ndc(pos: int, size: int) -> int {
    (2 * pos * UNIT) / size - UNIT
}

/// The pointer lies on a screen of positive size.
pub open spec fn on_screen(pos: (i64, i64), size: (i64, i64)) -> bool {
    0 < size.0 && 0 < size.1 && 0 <= pos.0 <= size.0 && 0 <= pos.1 <= size.1
}

/// The homogeneous world point, at scale `UNIT` cubed, of the screen point
/// `pos` on the near plane: the camera's world transform times its inverse
/// projection times the normalised device point `(x, y, -1, 1)`.
pub open spec fn homogeneous(
    pos: (i64, i64),
    size: (i64, i64),
    inverse_projection: Mat4,
    camera_transform: Mat4,
) -> (int, int, int, int) {
    let v = (ndc(pos.0 as int, size.0 as int), ndc(pos.1 as int, size.1 as int), -UNIT as int, UNIT as int);
    times(camera_transform, times(inverse_projection, v))
}

/// The world point of the pointer, if it can be resolved: the pointer is
/// present and on a screen of positive size, the projection is finite there
/// (the homogeneous weight is not zero), and the point fits in a `Position`.
pub open spec fn world_point(
    screen_pos: Option<(i64, i64)>,
    size: (i64, i64),
    inverse_projection: Mat4,
    camera_transform: Mat4,
) -> Option<(int, int)> {
    match screen_pos {
        None => None,
        Some(pos) => if !on_screen(pos, size) {
            None
        } else {
            let r = homogeneous(pos, size, inverse_projection, camera_transform);
            if r.3 == 0 {
                None
            } else {
                let x = ratio(r.0 * UNIT, r.3);
                let y = ratio(r.1 * UNIT, r.3);
                if i64::MIN <= x <= i64::MAX && i64::MIN <= y <= i64::MAX {
                    Some((x, y))
                } else {
                    None
                }
            }
        },
    }
}

proof fn lemma_product_bound(a: int, b: int, la: int, lb: int)
    requires
        -la <= a <= la,
        -lb <= b <= lb,
    ensures
        -(la * lb) <= a * b <= la * lb,
{
    assert(-(la * lb) <= a * b <= la * lb) by (nonlinear_arith)
        requires -la <= a <= la, -lb <= b <= lb;
}

/// Row `i` of `m` times `v`, each component of `v` within `vb`.
fn row(m: &Mat4, i: usize, v: (i128, i128, i128, i128), vb: i128) -> (r: i128)
    requires
        m.wf(),
        i < 4,
        0 < vb <= 0x1_0000_0000_0000_0000,
        -vb <= v.0 <= vb,
        -vb <= v.1 <= vb,
        -vb <= v.2 <= vb,
        -vb <= v.3 <= vb,
    ensures
        r == row_times(*m, i as int, (v.0 as int, v.1 as int, v.2 as int, v.3 as int)),
        -4 * ENTRY_LIMIT * vb <= r <= 4 * ENTRY_LIMIT * vb,
{
    let a0 = m.m[i] as i128;
    let a1 = m.m[4 + i] as i128;
    let a2 = m.m[8 + i] as i128;
    let a3 = m.m[12 + i] as i128;
    proof {
        assert(-ENTRY_LIMIT <= m.m@[i as int] <= ENTRY_LIMIT);
        assert(-ENTRY_LIMIT <= m.m@[4 + i] <= ENTRY_LIMIT);
        assert(-ENTRY_LIMIT <= m.m@[8 + i] <= ENTRY_LIMIT);
        assert(-ENTRY_LIMIT <= m.m@[12 + i] <= ENTRY_LIMIT);
        lemma_product_bound(a0 as int, v.0 as int, ENTRY_LIMIT as int, vb as int);
        lemma_product_bound(a1 as int, v.1 as int, ENTRY_LIMIT as int, vb as int);
        lemma_product_bound(a2 as int, v.2 as int, ENTRY_LIMIT as int, vb as int);
        lemma_product_bound(a3 as int, v.3 as int, ENTRY_LIMIT as int, vb as int);
        assert(ENTRY_LIMIT * vb <= ENTRY_LIMIT * 0x1_0000_0000_0000_0000) by (nonlinear_arith)
            requires vb <= 0x1_0000_0000_0000_0000;
        assert(4 * ENTRY_LIMIT * vb == 4 * (ENTRY_LIMIT * vb)) by (nonlinear_arith);
        assert(-4 * ENTRY_LIMIT * vb == -4 * (ENTRY_LIMIT * vb)) by (nonlinear_arith);
    }
    a0 * v.0 + a1 * v.1 + a2 * v.2 + a3 * v.3
}

/// A screen coordinate in `[0, size]` as a normalised device coordinate.
fn to_ndc(pos: i64, size: i64) -> (r: i128)
    requires
        0 < size,
        0 <= pos <= size,
    ensures
        r == ndc(pos as int, size as int),
        -UNIT <= r <= UNIT,
{
    assert(0 <= 2 * pos * UNIT <= 2 * 0x8000_0000_0000_0000 * UNIT) by (nonlinear_arith)
        requires 0 <= pos <= 0x8000_0000_0000_0000;
    let n: i128 = 2 * pos as i128 * UNIT as i128;
    proof {
        assert(2 * size * UNIT == 2 * UNIT * size) by (nonlinear_arith);
        assert(0 <= n <= 2 * size * UNIT) by (nonlinear_arith)
            requires n == 2 * pos * UNIT, 0 <= pos <= size;
        assert((n as int) / (size as int) <= 2 * UNIT) by {
            vstd::arithmetic::div_mod::lemma_div_is_ordered(n as int, 2 * UNIT * size, size as int);
            vstd::arithmetic::div_mod::lemma_div_multiples_vanish(2 * UNIT as int, size as int);
        }
        vstd::arithmetic::div_mod::lemma_div_pos_is_pos(n as int, size as int);
    }
    n / size as i128 - UNIT as i128
}

/// `a / b` rounded down, for either sign of `b`.
fn ratio_exec(a: i128, b: i128) -> (r: Option<i128>)
    requires
        b != 0,
        -0x1000_0000_0000_0000_0000_0000_0000_0000 <= a <= 0x1000_0000_0000_0000_0000_0000_0000_0000,
        -0x1000_0000_0000_0000_0000_0000_0000_0000 <= b <= 0x1000_0000_0000_0000_0000_0000_0000_0000,
    ensures
        r == (if i128::MIN <= ratio(a as int, b as int) <= i128::MAX {
            Some(ratio(a as int, b as int) as i128)
        } else {
            None
        }),
{
    if b > 0 {
        a.checked_div_euclid(b)
    } else {
        (-a).checked_div_euclid(-b)
    }
}

/// The world-space point under the pointer. `screen_pos` is the pointer in
/// millionths of a pixel from the bottom-left corner, if it is over the
/// window; `screen_size` the window's size in millionths of a pixel. The
/// pointer is mapped to normalised device coordinates, placed on the near
/// plane, and carried back through the inverse projection and the camera's
/// world transform; the depth is dropped.
pub fn cursor_world_position(
    screen_pos: Option<(i64, i64)>,
    screen_size: (i64, i64),
    inverse_projection: &Mat4,
    camera_transform: &Mat4,
) -> (r: Option<Position>)
    requires
        inverse_projection.wf(),
        camera_transform.wf(),
    ensures
        r matches Some(p) ==> world_point(
            screen_pos,
            screen_size,
            *inverse_projection,
            *camera_transform,
        ) == Some((p.x as int, p.y as int)),
        r is None ==> world_point(screen_pos, screen_size, *inverse_projection, *camera_transform)
            is None,
{
    let pos = match screen_pos {
        None => {
            return None;
        },
        Some(p) => p,
    };
    if !(0 < screen_size.0 && 0 < screen_size.1 && 0 <= pos.0 && pos.0 <= screen_size.0 && 0
        <= pos.1 && pos.1 <= screen_size.1) {
        return None;
    }
    let unit = UNIT as i128;
    let v = (to_ndc(pos.0, screen_size.0), to_ndc(pos.1, screen_size.1), -unit, unit);
    let u = (
        row(inverse_projection, 0, v, unit),
        row(inverse_projection, 1, v, unit),
        row(inverse_projection, 2, v, unit),
        row(inverse_projection, 3, v, unit),
    );
    let ub: i128 = 4 * ENTRY_LIMIT as i128 * unit;
    let w = (
        row(camera_transform, 0, u, ub),
        row(camera_transform, 1, u, ub),
        row(camera_transform, 2, u, ub),
        row(camera_transform, 3, u, ub),
    );
    if w.3 == 0 {
        return None;
    }
    let x = match ratio_exec(w.0 * unit, w.3) {
        Some(x) => x,
        None => {
            return None;
        },
    };
    let y = match ratio_exec(w.1 * unit, w.3) {
        Some(y) => y,
        None => {
            return None;
        },
    };
    if x < i64::MIN as i128 || x > i64::MAX as i128 || y < i64::MIN as i128 || y > i64::MAX as i128 {
        return None;
    }
    Some(Position { x: x as i64, y: y as i64 })
}

/// `m` is the identity, at scale `UNIT`.
pub open spec fn is_identity(m: Mat4) -> bool {
    forall|i: int, j: int|
        0 <= i < 4 && 0 <= j < 4 ==> #[trigger] m.at(i, j) == if i == j {
            UNIT as int
        } else {
            0
        }
}

/// `m` is the inverse of an orthographic projection centred on the world
/// origin, with half extents `hx` and `hy`: it scales device `x` and `y` by
/// those and keeps the weight; its depth row is free.
pub open spec fn is_centred_ortho_inverse(m: Mat4, hx: int, hy: int) -> bool {
    &&& m.at(0, 0) == hx && m.at(0, 1) == 0 && m.at(0, 2) == 0 && m.at(0, 3) == 0
    &&& m.at(1, 0) == 0 && m.at(1, 1) == hy && m.at(1, 2) == 0 && m.at(1, 3) == 0
    &&& m.at(3, 0) == 0 && m.at(3, 1) == 0 && m.at(3, 2) == 0 && m.at(3, 3) == UNIT
}

/// With an identity camera transform and a centred orthographic projection,
/// the centre of the screen maps to the world origin, and an absent pointer
/// maps to nothing.
pub proof fn lemma_center_maps_to_origin(
    w: i64,
    h: i64,
    inverse_projection: Mat4,
    camera_transform: Mat4,
    hx: int,
    hy: int,
)
    requires
        0 < w,
        0 < h,
        w % 2 == 0,
        h % 2 == 0,
        is_identity(camera_transform),
        is_centred_ortho_inverse(inverse_projection, hx, hy),
    ensures
        world_point(Some(((w / 2) as i64, (h / 2) as i64)), (w, h), inverse_projection, camera_transform) == Some(
            (0int, 0int),
        ),
        world_point(None, (w, h), inverse_projection, camera_transform) is None,
{
    let u = UNIT as int;
    assert(ndc((w / 2) as int, w as int) == 0) by {
        assert(2 * (w / 2) * u == u * w) by (nonlinear_arith)
            requires w % 2 == 0, w == 2 * (w / 2) + w % 2;
        vstd::arithmetic::div_mod::lemma_div_multiples_vanish(u, w as int);
    }
    assert(ndc((h / 2) as int, h as int) == 0) by {
        assert(2 * (h / 2) * u == u * h) by (nonlinear_arith)
            requires h % 2 == 0, h == 2 * (h / 2) + h % 2;
        vstd::arithmetic::div_mod::lemma_div_multiples_vanish(u, h as int);
    }
    let v = (0int, 0int, -u, u);
    let p = times(inverse_projection, v);
    assert(p.0 == 0 && p.1 == 0 && p.3 == u * u);
    let c = camera_transform;
    assert(c.at(0, 0) == u && c.at(0, 1) == 0 && c.at(0, 2) == 0 && c.at(0, 3) == 0);
    assert(c.at(1, 0) == 0 && c.at(1, 1) == u && c.at(1, 2) == 0 && c.at(1, 3) == 0);
    assert(c.at(3, 0) == 0 && c.at(3, 1) == 0 && c.at(3, 2) == 0 && c.at(3, 3) == u);
    let r = times(c, p);
    assert(r.0 == 0 && r.1 == 0);
    assert(r.3 == u * (u * u));
    assert(r.3 > 0) by (nonlinear_arith)
        requires r.3 == u * (u * u), u > 0;
    assert(homogeneous(((w / 2) as i64, (h / 2) as i64), (w, h), inverse_projection, camera_transform) == r);
    assert(ratio(0, r.3) == 0);
}

} // verus!
