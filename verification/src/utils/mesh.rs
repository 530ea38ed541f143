use vstd::prelude::*;

verus! {

/// Wether a triangle uses the vertex with index `v`.
pub open spec fn face_has(f: [usize; 3], v: int) -> bool {
    f[0] == v || f[1] == v || f[2] == v
}

/// Wether some triangle of `faces` uses the vertex with index `v`.
pub open spec fn used_by(faces: Seq<[usize; 3]>, v: int) -> bool {
    exists|f: int| 0 <= f < faces.len() && #[trigger] face_has(faces[f], v)
}

/// Every corner of every triangle indexes one of `n` vertices.
pub open spec fn indices_below(faces: Seq<[usize; 3]>, n: int) -> bool {
    forall|f: int, k: int| 0 <= f < faces.len() && 0 <= k < 3 ==> #[trigger] faces[f][k] < n
}

/// Removes vertices that are not used by a triangle and corrects the triangle indices. A
/// vertex is removed by moving the last vertex into its place. Without triangles one vertex
/// is kept (if there is one).
pub fn remove_unused_vertices<T>(vertices: &mut Vec<T>, faces: &mut Vec<[usize; 3]>)
    requires
        indices_below(old(faces)@, old(vertices)@.len() as int),
    ensures
        final(faces)@.len() == old(faces)@.len(),
        final(vertices)@.len() <= old(vertices)@.len(),
        indices_below(final(faces)@, final(vertices)@.len() as int),
        forall|f: int, k: int|
            0 <= f < final(faces)@.len() && 0 <= k < 3 ==> final(vertices)@[#[trigger] final(faces)@[f][k] as int]
                == old(vertices)@[old(faces)@[f][k] as int],
        old(faces)@.len() > 0 ==> forall|j: int|
            0 <= j < final(vertices)@.len() ==> #[trigger] used_by(final(faces)@, j),
        old(faces)@.len() == 0 ==> final(vertices)@.len() == if old(vertices)@.len() == 0 {
            0int
        } else {
            1int
        },
        exists|pos: Seq<int>|
            {
                &&& pos.len() == final(vertices)@.len()
                &&& forall|j: int| 0 <= j < pos.len() ==> 0 <= #[trigger] pos[j] < old(vertices)@.len()
                    && final(vertices)@[j] == old(vertices)@[pos[j]]
                &&& forall|a: int, b: int| 0 <= a < b < pos.len() ==> pos[a] != pos[b]
                &&& forall|x: int| 0 <= x < old(vertices)@.len() && #[trigger] used_by(old(faces)@, x)
                    ==> pos.contains(x)
            },
{
    let ghost ov = vertices@;
    let ghost of = faces@;
    let n0 = vertices.len();
    // which vertices are used
    let mut marks: Vec<bool> = Vec::new();
    let mut j: usize = 0;
    while j < n0
        invariant
            n0 == vertices@.len(),
            j <= n0,
            marks@.len() == j,
            forall|q: int| 0 <= q < j ==> !#[trigger] marks@[q],
        decreases n0 - j,
    {
        marks.push(false);
        j = j + 1;
    }
    let mut q: usize = 0;
    while q < faces.len()
        invariant
            faces@ == of,
            vertices@ == ov,
            n0 == ov.len(),
            indices_below(of, n0 as int),
            q <= of.len(),
            marks@.len() == n0,
            forall|v: int|
                0 <= v < n0 ==> #[trigger] marks@[v] == exists|f: int| 0 <= f < q && #[trigger] face_has(of[f], v),
        decreases of.len() - q,
    {
        let f = faces[q];
        assert(f[0] < n0 && f[1] < n0 && f[2] < n0) by {
            assert(of[q as int][0] < n0);
            assert(of[q as int][1] < n0);
            assert(of[q as int][2] < n0);
        }
        let ghost pm = marks@;
        marks.set(f[0], true);
        marks.set(f[1], true);
        marks.set(f[2], true);
        assert forall|v: int| 0 <= v < n0 implies #[trigger] marks@[v] == exists|g: int| 0 <= g < q + 1 && #[trigger] face_has(of[g], v) by {
            if face_has(f, v) {
                assert(face_has(of[q as int], v));
            } else {
                assert(marks@[v] == pm[v]);
                if exists|g: int| 0 <= g < q + 1 && #[trigger] face_has(of[g], v) {
                    let g = choose|g: int| 0 <= g < q + 1 && #[trigger] face_has(of[g], v);
                    assert(g != q);
                }
            }
        }
        q = q + 1;
    }
    let ghost mut pos: Seq<int> = Seq::new(n0 as nat, |x: int| x);
    let mut i: usize = 0;
    while i < n0
        invariant
            n0 == ov.len(),
            i <= n0,
            vertices@.len() <= n0,
            marks@.len() == vertices@.len(),
            faces@.len() == of.len(),
            indices_below(faces@, vertices@.len() as int),
            forall|v: int| 0 <= v < vertices@.len() ==> #[trigger] marks@[v] == used_by(faces@, v),
            pos.len() == vertices@.len(),
            forall|x: int| 0 <= x < pos.len() ==> 0 <= #[trigger] pos[x] < ov.len() && vertices@[x] == ov[pos[x]],
            forall|a: int, b: int| 0 <= a < b < pos.len() ==> pos[a] != pos[b],
            forall|f: int, k: int| 0 <= f < of.len() && 0 <= k < 3 ==> pos[#[trigger] faces@[f][k] as int] == of[f][k],
            forall|v: int|
                0 <= v < i && v < vertices@.len() && (faces@.len() > 0 || v + 1 < vertices@.len())
                    ==> #[trigger] marks@[v],
            faces@.len() == 0 && i > 0 ==> vertices@.len() <= 1,
            faces@.len() == 0 && n0 > 0 ==> vertices@.len() > 0,
        decreases n0 - i,
    {
        while i < vertices.len() && !marks[i] && (i + 1 < vertices.len() || faces.len() > 0)
            invariant
                n0 == ov.len(),
                i < n0,
                vertices@.len() <= n0,
                marks@.len() == vertices@.len(),
                faces@.len() == of.len(),
                indices_below(faces@, vertices@.len() as int),
                forall|v: int| 0 <= v < vertices@.len() ==> #[trigger] marks@[v] == used_by(faces@, v),
                pos.len() == vertices@.len(),
                forall|x: int| 0 <= x < pos.len() ==> 0 <= #[trigger] pos[x] < ov.len() && vertices@[x] == ov[pos[x]],
                forall|a: int, b: int| 0 <= a < b < pos.len() ==> pos[a] != pos[b],
                forall|f: int, k: int| 0 <= f < of.len() && 0 <= k < 3 ==> pos[#[trigger] faces@[f][k] as int] == of[f][k],
                forall|v: int|
                    0 <= v < i && v < vertices@.len() && (faces@.len() > 0 || v + 1 < vertices@.len())
                        ==> #[trigger] marks@[v],
                faces@.len() == 0 && i > 0 ==> vertices@.len() <= 1,
                faces@.len() == 0 && n0 > 0 ==> vertices@.len() > 0,
            decreases vertices@.len(),
        {
            let ghost pre = faces@;
            let ghost pmarks = marks@;
            let ghost ppos = pos;
            let ghost old_len = vertices@.len();
            vertices.swap_remove(i);
            marks.swap_remove(i);
            let last = vertices.len();
            proof {
                pos = ppos.update(i as int, ppos[last as int]).drop_last();
            }
            let mut g: usize = 0;
            while g < faces.len()
                invariant
                    faces@.len() == pre.len(),
                    g <= pre.len(),
                    forall|f: int, k: int| 0 <= f < pre.len() && 0 <= k < 3 ==> #[trigger] faces@[f][k]
                        == if f < g && pre[f][k] == last { i } else { pre[f][k] },
                decreases pre.len() - g,
            {
                let mut fc = faces[g];
                if fc[0] == last {
                    fc[0] = i;
                }
                if fc[1] == last {
                    fc[1] = i;
                }
                if fc[2] == last {
                    fc[2] = i;
                }
                let ghost fp = faces@;
                faces.set(g, fc);
                assert forall|f: int, k: int| 0 <= f < pre.len() && 0 <= k < 3 implies #[trigger] faces@[f][k]
                    == if f < g + 1 && pre[f][k] == last { i } else { pre[f][k] } by {
                    if f != g {
                        assert(faces@[f] == fp[f]);
                    } else {
                        assert(fp[f] == pre[f]);
                    }
                }
                g = g + 1;
            }
            proof {
                // no triangle used vertex i
                assert(!pmarks[i as int]);
                assert forall|f: int, k: int| 0 <= f < pre.len() && 0 <= k < 3 implies #[trigger] pre[f][k] != i by {
                    if pre[f][k] == i {
                        assert(face_has(pre[f], i as int));
                        assert(used_by(pre, i as int));
                    }
                }
                assert forall|f: int, k: int| 0 <= f < of.len() && 0 <= k < 3 implies #[trigger] faces@[f][k] < vertices@.len()
                    && pos[faces@[f][k] as int] == of[f][k] by {
                    assert(pre[f][k] < old_len);
                    assert(ppos[pre[f][k] as int] == of[f][k]);
                }
                assert forall|v: int| 0 <= v < vertices@.len() implies #[trigger] marks@[v] == used_by(faces@, v) by {
                    let src = if v == i { last as int } else { v };
                    assert(marks@[v] == pmarks[src]);
                    assert(pmarks[src] == used_by(pre, src));
                    if used_by(pre, src) {
                        let f = choose|f: int| 0 <= f < pre.len() && #[trigger] face_has(pre[f], src);
                        assert(face_has(faces@[f], v)) by {
                            let k = if pre[f][0] == src { 0int } else if pre[f][1] == src { 1int } else { 2int };
                            assert(faces@[f][k] == v);
                        }
                    }
                    if used_by(faces@, v) {
                        let f = choose|f: int| 0 <= f < faces@.len() && #[trigger] face_has(faces@[f], v);
                        assert(face_has(pre[f], src)) by {
                            let k = if faces@[f][0] == v { 0int } else if faces@[f][1] == v { 1int } else { 2int };
                            assert(faces@[f][k] == v);
                        }
                    }
                }
                assert forall|x: int| 0 <= x < pos.len() implies 0 <= #[trigger] pos[x] < ov.len() && vertices@[x] == ov[pos[x]] by {
                    if x == i {
                        assert(ppos[last as int] < ov.len());
                    } else {
                        assert(ppos[x] < ov.len());
                    }
                }
                assert forall|a: int, b: int| 0 <= a < b < pos.len() implies pos[a] != pos[b] by {
                    let aa = if a == i { last as int } else { a };
                    let bb = if b == i { last as int } else { b };
                    assert(pos[a] == ppos[aa] && pos[b] == ppos[bb]);
                    if aa < bb {
                        assert(ppos[aa] != ppos[bb]);
                    } else {
                        assert(ppos[bb] != ppos[aa]);
                    }
                }
                assert forall|v: int|
                    0 <= v < i && v < vertices@.len() && (faces@.len() > 0 || v + 1 < vertices@.len())
                        implies #[trigger] marks@[v] by {
                    assert(marks@[v] == pmarks[v]);
                }
            }
        }
        i = i + 1;
    }
    proof {
        assert forall|f: int, k: int| 0 <= f < faces@.len() && 0 <= k < 3 implies vertices@[#[trigger] faces@[f][k] as int]
            == ov[of[f][k] as int] by {
            assert(faces@[f][k] < vertices@.len());
        }
        if of.len() > 0 {
            assert forall|j: int| 0 <= j < vertices@.len() implies #[trigger] used_by(faces@, j) by {
                assert(marks@[j]);
            }
        }
        assert forall|x: int| 0 <= x < ov.len() && #[trigger] used_by(of, x) implies pos.contains(x) by {
            let f = choose|f: int| 0 <= f < of.len() && #[trigger] face_has(of[f], x);
            let k = if of[f][0] == x { 0int } else if of[f][1] == x { 1int } else { 2int };
            assert(of[f][k] == x);
            assert(pos[faces@[f][k] as int] == x);
        }
    }
}

} // verus!
