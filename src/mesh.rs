use vstd::prelude::*;

verus! {

/// Index `c` (0 to 11) of the four triangles that replace triangle `t` of `ind` when it is
/// split at its edge midpoints, the midpoints of triangle `t` being vertices
/// `base + 3t` (a-b), `base + 3t + 1` (b-c) and `base + 3t + 2` (c-a).
pub open spec fn subdivision_entry(ind: Seq<u32>, base: int, t: int, c: int) -> int {
    let a = ind[3 * t] as int;
    let b = ind[3 * t + 1] as int;
    let cc = ind[3 * t + 2] as int;
    let ab = base + 3 * t;
    let bc = base + 3 * t + 1;
    let ca = base + 3 * t + 2;
    if c == 0 {
        a
    } else if c == 1 {
        ab
    } else if c == 2 {
        ca
    } else if c == 3 {
        b
    } else if c == 4 {
        bc
    } else if c == 5 {
        ab
    } else if c == 6 {
        cc
    } else if c == 7 {
        ca
    } else if c == 8 {
        bc
    } else if c == 9 {
        ab
    } else if c == 10 {
        bc
    } else {
        ca
    }
}

/// Indices of one subdivision step: each whole triangle of `indices` becomes four, its
/// three corners each keeping a corner triangle and the midpoints forming the middle one.
/// The midpoints of triangle `t` are the vertices appended after the first `vertex_count`,
/// three per triangle, in triangle order. A trailing partial triangle is dropped.
pub fn subdivide_indices(indices: &Vec<u32>, vertex_count: u32) -> (r: Vec<u32>)
    requires
        vertex_count + indices@.len() <= u32::MAX,
    ensures
        r@.len() == 12 * (indices@.len() / 3),
        forall|k: int|
            0 <= k < r@.len() ==> #[trigger] r@[k] as int == subdivision_entry(
                indices@,
                vertex_count as int,
                k / 12,
                k % 12,
            ),
{
    let n = indices.len() / 3;
    let mut r: Vec<u32> = Vec::new();
    let mut t: usize = 0;
    while t < n
        invariant
            n == indices@.len() / 3,
            vertex_count + indices@.len() <= u32::MAX,
            t <= n,
            r@.len() == 12 * t,
            forall|u: int, c: int|
                0 <= u < t && 0 <= c < 12 ==> r@[12 * u + c] as int == subdivision_entry(
                    indices@,
                    vertex_count as int,
                    u,
                    c,
                ),
        decreases n - t,
    {
        let a = indices[3 * t];
        let b = indices[3 * t + 1];
        let c = indices[3 * t + 2];
        let ab = vertex_count + (3 * t) as u32;
        let bc = ab + 1;
        let ca = ab + 2;
        let ghost prev = r@;
        r.push(a);
        r.push(ab);
        r.push(ca);
        r.push(b);
        r.push(bc);
        r.push(ab);
        r.push(c);
        r.push(ca);
        r.push(bc);
        r.push(ab);
        r.push(bc);
        r.push(ca);
        proof {
            assert forall|u: int, k: int|
                0 <= u < t + 1 && 0 <= k < 12 implies r@[12 * u + k] as int == subdivision_entry(
                indices@,
                vertex_count as int,
                u,
                k,
            ) by {
                if u < t {
                    assert(r@[12 * u + k] == prev[12 * u + k]);
                }
            }
        }
        t += 1;
    }
    proof {
        assert forall|k: int| 0 <= k < r@.len() implies #[trigger] r@[k] as int == subdivision_entry(
            indices@,
            vertex_count as int,
            k / 12,
            k % 12,
        ) by {
            let u = k / 12;
            let c = k % 12;
            assert(k == 12 * u + c);
            assert(0 <= u < n);
        }
    }
    r
}

/// Corner `c` of triangle `i` of the top fan of a UV sphere: the pole (vertex 0) and two
/// neighbouring vertices of the first ring.
pub open spec fn top_fan_entry(slices: int, i: int, c: int) -> int {
    if c == 0 {
        0
    } else if c == 1 {
        i + 1
    } else {
        (i + 1) % slices + 1
    }
}

/// Entry `c` of the quad between rings `i` and `i + 1` at slice `j`, as two triangles
/// a-b-c' and c'-d-a, where ring `i` starts at vertex `i * slices + 1`.
pub open spec fn band_entry(slices: int, i: int, j: int, c: int) -> int {
    let a = i * slices + j + 1;
    let b = i * slices + (j + 1) % slices + 1;
    let cc = (i + 1) * slices + (j + 1) % slices + 1;
    let d = (i + 1) * slices + j + 1;
    if c == 0 {
        a
    } else if c == 1 {
        b
    } else if c == 2 || c == 3 {
        cc
    } else if c == 4 {
        d
    } else {
        a
    }
}

/// Corner `c` of triangle `i` of the bottom fan: the last vertex (the bottom pole) and two
/// neighbouring vertices of the last ring, counted back from the end.
pub open spec fn bottom_fan_entry(slices: int, stacks: int, i: int, c: int) -> int {
    let v = slices * stacks + 2;
    if c == 0 {
        v - 1
    } else if c == 1 {
        v - 2 - i
    } else {
        v - 2 - (i + 1) % slices
    }
}

/// Triangle indices of a UV sphere with `stacks` rings of `slices` vertices between two
/// poles: vertex 0 is the top pole, ring `i` holds vertices `i * slices + 1` onwards and the
/// last vertex is the bottom pole. First the top fan, then one quad per ring gap and slice,
/// then the bottom fan.
pub fn sphere_uv_indices(slices: u32, stacks: u32) -> (r: Vec<u32>)
    requires
        stacks >= 1,
        slices * stacks + 2 <= u32::MAX,
    ensures
        r@.len() == 6 * slices * stacks,
        forall|i: int, c: int|
            0 <= i < slices && 0 <= c < 3 ==> r@[3 * i + c] as int == top_fan_entry(
                slices as int,
                i,
                c,
            ),
        forall|i: int, j: int, c: int|
            0 <= i < stacks - 1 && 0 <= j < slices && 0 <= c < 6 ==> r@[3 * slices + 6 * (i
                * slices + j) + c] as int == band_entry(slices as int, i, j, c),
        forall|i: int, c: int|
            0 <= i < slices && 0 <= c < 3 ==> r@[3 * slices + 6 * slices * (stacks - 1) + 3 * i
                + c] as int == bottom_fan_entry(slices as int, stacks as int, i, c),
{
    let mut r: Vec<u32> = Vec::new();
    let mut i: u32 = 0;
    while i < slices
        invariant
            i <= slices,
            r@.len() == 3 * i,
            forall|x: int, c: int|
                0 <= x < i && 0 <= c < 3 ==> r@[3 * x + c] as int == top_fan_entry(
                    slices as int,
                    x,
                    c,
                ),
        decreases slices - i,
    {
        let ghost prev = r@;
        r.push(0);
        r.push(i + 1);
        r.push((i + 1) % slices + 1);
        proof {
            assert forall|x: int, c: int| 0 <= x < i + 1 && 0 <= c < 3 implies r@[3 * x + c] as int
                == top_fan_entry(slices as int, x, c) by {
                if x < i {
                    assert(r@[3 * x + c] == prev[3 * x + c]);
                }
            }
        }
        i += 1;
    }
    let ghost top = r@;
    let mut i: u32 = 0;
    while i < stacks - 1
        invariant
            stacks >= 1,
            slices * stacks + 2 <= u32::MAX,
            i <= stacks - 1,
            r@.len() == 3 * slices + 6 * (i * slices),
            forall|k: int| 0 <= k < 3 * slices ==> r@[k] == top[k],
            top.len() == 3 * slices,
            forall|x: int, j: int, c: int|
                0 <= x < i && 0 <= j < slices && 0 <= c < 6 ==> r@[3 * slices + 6 * (x * slices
                    + j) + c] as int == band_entry(slices as int, x, j, c),
        decreases stacks - 1 - i,
    {
        proof {
            assert((i + 1) * slices + slices <= slices * stacks) by (nonlinear_arith)
                requires
                    i + 1 <= stacks - 1,
            ;
            assert((i + 1) * slices == i * slices + slices) by (nonlinear_arith);
        }
        let row = i * slices;
        let next_row = row + slices;
        let mut j: u32 = 0;
        while j < slices
            invariant
                stacks >= 1,
                slices * stacks + 2 <= u32::MAX,
                i < stacks - 1,
                row == i * slices,
                next_row == (i + 1) * slices,
                next_row == row + slices,
                next_row + slices <= slices * stacks,
                j <= slices,
                r@.len() == 3 * slices + 6 * (i * slices + j),
                forall|k: int| 0 <= k < 3 * slices ==> r@[k] == top[k],
                forall|x: int, y: int, c: int|
                    ((0 <= x < i && 0 <= y < slices) || (x == i && 0 <= y < j)) && 0 <= c < 6
                        ==> r@[3 * slices + 6 * (x * slices + y) + c] as int == band_entry(
                        slices as int,
                        x,
                        y,
                        c,
                    ),
            decreases slices - j,
        {
            let a = row + j + 1;
            let b = row + (j + 1) % slices + 1;
            let c = next_row + (j + 1) % slices + 1;
            let d = next_row + j + 1;
            let ghost prev = r@;
            r.push(a);
            r.push(b);
            r.push(c);
            r.push(c);
            r.push(d);
            r.push(a);
            proof {
                assert forall|k: int| 0 <= k < 3 * slices implies r@[k] == top[k] by {
                    assert(r@[k] == prev[k]);
                }
                assert forall|x: int, y: int, cc: int|
                    ((0 <= x < i && 0 <= y < slices) || (x == i && 0 <= y < j + 1)) && 0 <= cc
                        < 6 implies r@[3 * slices + 6 * (x * slices + y) + cc] as int
                    == band_entry(slices as int, x, y, cc) by {
                    if x < i || y < j {
                        if x < i {
                            assert(x * slices + y < i * slices) by (nonlinear_arith)
                                requires
                                    x < i,
                                    y < slices,
                            ;
                        }
                        assert(r@[3 * slices + 6 * (x * slices + y) + cc] == prev[3 * slices + 6
                            * (x * slices + y) + cc]);
                    }
                }
            }
            j += 1;
        }
        proof {
            assert(6 * (i * slices + slices) == 6 * ((i + 1) * slices));
        }
        i += 1;
    }
    proof {
        assert(3 * slices + 6 * ((stacks - 1) * slices) == 3 * slices + 6 * slices * (stacks - 1))
            by (nonlinear_arith);
    }
    let ghost middle = r@;
    assert forall|x: int, y: int, c: int|
        0 <= x < stacks - 1 && 0 <= y < slices && 0 <= c < 6 implies 3 * slices + 6 * (x * slices
        + y) + c < middle.len() && middle[3 * slices + 6 * (x * slices + y) + c] as int
        == band_entry(slices as int, x, y, c) by {
        assert(x * slices + y < (stacks - 1) * slices) by (nonlinear_arith)
            requires
                x < stacks - 1,
                y < slices,
        ;
    }
    let v = slices * stacks + 2;
    let mut i: u32 = 0;
    while i < slices
        invariant
            stacks >= 1,
            v == slices * stacks + 2,
            v <= u32::MAX,
            i <= slices,
            middle.len() == 3 * slices + 6 * slices * (stacks - 1),
            r@.len() == middle.len() + 3 * i,
            forall|k: int| 0 <= k < middle.len() ==> r@[k] == middle[k],
            forall|x: int, c: int|
                0 <= x < i && 0 <= c < 3 ==> r@[middle.len() + 3 * x + c] as int
                    == bottom_fan_entry(slices as int, stacks as int, x, c),
        decreases slices - i,
    {
        proof {
            assert(slices <= slices * stacks) by (nonlinear_arith)
                requires
                    stacks >= 1,
            ;
        }
        let ghost prev = r@;
        r.push(v - 1);
        r.push(v - 2 - i);
        r.push(v - 2 - (i + 1) % slices);
        proof {
            assert forall|k: int| 0 <= k < middle.len() implies r@[k] == middle[k] by {
                assert(r@[k] == prev[k]);
            }
            assert forall|x: int, c: int| 0 <= x < i + 1 && 0 <= c < 3 implies r@[middle.len() + 3
                * x + c] as int == bottom_fan_entry(slices as int, stacks as int, x, c) by {
                if x < i {
                    assert(r@[middle.len() + 3 * x + c] == prev[middle.len() + 3 * x + c]);
                }
            }
        }
        i += 1;
    }
    proof {
        assert(middle.len() + 3 * slices == 6 * slices * stacks) by (nonlinear_arith)
            requires
                middle.len() == 3 * slices + 6 * slices * (stacks - 1),
        ;
    }
    r
}

/// The two triangles of the unit plane on the XZ plane, over its corners in order.
pub fn plane_indices() -> (r: Vec<u32>)
    ensures
        r@ == seq![0u32, 1, 2, 2, 3, 0],
{
    let r: Vec<u32> = vec![0, 1, 2, 2, 3, 0];
    proof {
        assert(r@ =~= seq![0u32, 1, 2, 2, 3, 0]);
    }
    r
}

} // verus!
