//! Whole-solid rendering: the wireframe cube and the lit, filled solid.
//!
//! Both composites are stated end to end: the vertices run through the
//! rotator (for the lit solid), the projector, the shader and the triangle
//! or line rasterizer, and the contract says the buffer is transformed by
//! exactly the fold of those primitives' specs over the caller-supplied
//! face and edge tables.

use vstd::prelude::*;
use crate::fixed::{div_trunc_i64, lemma_trunc_div_bound, trunc_div, SCALE};
use crate::framebuffer::{fb_wf, Framebuffer};
use crate::line::{line_paint, COORD_LIMIT};
use crate::project::project_pt;
use crate::rotate::{centroid3, rotate_point, MAX_POINTS, ROT_LIMIT};
use crate::shade::{apply_brightness, brightness_of, cross_vec, dot3, normal_vec, VEC_LIMIT};
use crate::triangle::fill_tri_paint;

verus! {

/// A sequence of integer triples standing for screen-space vertices.
pub open spec fn pts3_view(s: Seq<(isize, isize, isize)>) -> Seq<(int, int, int)> {
    Seq::new(s.len(), |i: int| (s[i].0 as int, s[i].1 as int, s[i].2 as int))
}

/// A sequence of integer triples standing for fixed-point vertices.
pub open spec fn fx3_view(s: Seq<(i64, i64, i64)>) -> Seq<(int, int, int)> {
    Seq::new(s.len(), |i: int| (s[i].0 as int, s[i].1 as int, s[i].2 as int))
}

/// Every 3D point of the sequence projected to the screen.
pub open spec fn project_seq(pts: Seq<(int, int, int)>, fov: int, vd: int, w: int, h: int) -> Seq<
    (int, int),
> {
    Seq::new(pts.len(), |i: int| project_pt(pts[i].0, pts[i].1, pts[i].2, fov, vd, w, h))
}

/// A fixed-point point brought to whole world units, truncated toward zero.
pub open spec fn world_of(p: (int, int, int)) -> (int, int, int) {
    (
        trunc_div(p.0, SCALE as int),
        trunc_div(p.1, SCALE as int),
        trunc_div(p.2, SCALE as int),
    )
}

/// Every point of the sequence brought to whole world units.
pub open spec fn worlds(pts: Seq<(int, int, int)>) -> Seq<(int, int, int)> {
    Seq::new(pts.len(), |i: int| world_of(pts[i]))
}

/// The whole vertex set rotated about its centroid.
pub open spec fn rotated_pts(
    vs: Seq<(i64, i64, i64)>,
    sx: int,
    cx: int,
    sy: int,
    cy: int,
    sz: int,
    cz: int,
) -> Seq<(int, int, int)> {
    Seq::new(vs.len(), |i: int| rotate_point(fx3_view(vs)[i], centroid3(vs), sx, cx, sy, cy, sz, cz))
}

/// The buffer after drawing the edges from table entry `k` on: each entry
/// names two screen points, joined by a stepped line.
pub open spec fn edges_paint(
    buf: Seq<u32>,
    w: int,
    h: int,
    pts: Seq<(int, int)>,
    edges: Seq<(usize, usize)>,
    c: u32,
    k: int,
) -> Seq<u32>
    decreases edges.len() - k,
{
    if k < 0 || k >= edges.len() {
        buf
    } else {
        let e = edges[k];
        let p0 = pts[e.0 as int];
        let p1 = pts[e.1 as int];
        edges_paint(line_paint(buf, w, h, p0.0, p0.1, p1.0, p1.1, c), w, h, pts, edges, c, k + 1)
    }
}

/// The color of one face: the base color scaled by the brightness its
/// rotated normal receives from the light direction.
pub open spec fn face_color(
    rot: Seq<(int, int, int)>,
    f: (usize, usize, usize),
    light: (int, int, int),
    base: u32,
) -> u32 {
    apply_brightness(base, brightness_of(normal_vec(rot[f.0 as int], rot[f.1 as int], rot[f.2 as int]), light)) as u32
}

/// The buffer after filling the faces from table entry `k` on: each entry
/// names three rotated vertices, whose screen triangle is filled with the
/// face's shaded color. A degenerate face (zero cross product, so no
/// normal) is skipped.
pub open spec fn faces_paint(
    buf: Seq<u32>,
    w: int,
    h: int,
    rot: Seq<(int, int, int)>,
    scr: Seq<(int, int)>,
    faces: Seq<(usize, usize, usize)>,
    light: (int, int, int),
    base: u32,
    k: int,
) -> Seq<u32>
    decreases faces.len() - k,
{
    if k < 0 || k >= faces.len() {
        buf
    } else {
        let f = faces[k];
        let cr = cross_vec(rot[f.0 as int], rot[f.1 as int], rot[f.2 as int]);
        let buf2 = if cr == (0int, 0int, 0int) {
            buf
        } else {
            fill_tri_paint(
                buf,
                w,
                h,
                scr[f.0 as int],
                scr[f.1 as int],
                scr[f.2 as int],
                face_color(rot, f, light, base),
            )
        };
        faces_paint(buf2, w, h, rot, scr, faces, light, base, k + 1)
    }
}

impl Framebuffer {
    /// Projects every vertex and draws each table edge as a stepped line in
    /// `color`: the buffer is transformed by exactly the fold of line
    /// drawings over the projected endpoints.
    pub fn draw_cube(
        &mut self,
        vertices: Vec<(isize, isize, isize)>,
        edges: &Vec<(usize, usize)>,
        fov: isize,
        viewer_distance: isize,
        color: u32,
    )
        requires
            fb_wf(*old(self)),
            old(self).width as int <= COORD_LIMIT as int,
            old(self).height as int <= COORD_LIMIT as int,
            -(COORD_LIMIT as int) <= fov as int <= COORD_LIMIT as int,
            -(COORD_LIMIT as int) <= viewer_distance as int <= COORD_LIMIT as int,
            forall|i: int|
                0 <= i < vertices@.len() ==> {
                    &&& -(COORD_LIMIT as int) <= #[trigger] vertices@[i].0 as int <= COORD_LIMIT
                        as int
                    &&& -(COORD_LIMIT as int) <= vertices@[i].1 as int <= COORD_LIMIT as int
                    &&& -(COORD_LIMIT as int) <= vertices@[i].2 as int <= COORD_LIMIT as int
                    &&& vertices@[i].2 as int + viewer_distance as int != 0
                },
            forall|i: int|
                0 <= i < vertices@.len() ==> {
                    let pt = #[trigger] project_seq(
                        pts3_view(vertices@),
                        fov as int,
                        viewer_distance as int,
                        old(self).width as int,
                        old(self).height as int,
                    )[i];
                    &&& -(COORD_LIMIT as int) <= pt.0 <= COORD_LIMIT as int
                    &&& -(COORD_LIMIT as int) <= pt.1 <= COORD_LIMIT as int
                },
            forall|k: int|
                0 <= k < edges@.len() ==> #[trigger] edges@[k].0 < vertices@.len()
                    && edges@[k].1 < vertices@.len(),
        ensures
            fb_wf(*final(self)),
            final(self).width == old(self).width,
            final(self).height == old(self).height,
            final(self).buffer@ == edges_paint(
                old(self).buffer@,
                old(self).width as int,
                old(self).height as int,
                project_seq(
                    pts3_view(vertices@),
                    fov as int,
                    viewer_distance as int,
                    old(self).width as int,
                    old(self).height as int,
                ),
                edges@,
                color,
                0,
            ),
    {
        let ghost w = old(self).width as int;
        let ghost h = old(self).height as int;
        let ghost scr = project_seq(pts3_view(vertices@), fov as int, viewer_distance as int, w, h);
        let n: usize = vertices.len();
        let mut flat: Vec<(isize, isize)> = Vec::new();
        let mut i: usize = 0;
        while i < n
            invariant
                n == vertices@.len(),
                0 <= i <= n,
                flat@.len() == i,
                w == old(self).width as int,
                h == old(self).height as int,
                self.width == old(self).width,
                self.height == old(self).height,
                self.width as int <= COORD_LIMIT as int,
                self.height as int <= COORD_LIMIT as int,
                fb_wf(*self),
                self.buffer@ == old(self).buffer@,
                -(COORD_LIMIT as int) <= fov as int <= COORD_LIMIT as int,
                -(COORD_LIMIT as int) <= viewer_distance as int <= COORD_LIMIT as int,
                scr == project_seq(pts3_view(vertices@), fov as int, viewer_distance as int, w, h),
                forall|j: int|
                    0 <= j < vertices@.len() ==> {
                        &&& -(COORD_LIMIT as int) <= #[trigger] vertices@[j].0 as int
                            <= COORD_LIMIT as int
                        &&& -(COORD_LIMIT as int) <= vertices@[j].1 as int <= COORD_LIMIT as int
                        &&& -(COORD_LIMIT as int) <= vertices@[j].2 as int <= COORD_LIMIT as int
                        &&& vertices@[j].2 as int + viewer_distance as int != 0
                    },
                forall|j: int|
                    0 <= j < vertices@.len() ==> {
                        &&& -(COORD_LIMIT as int) <= (#[trigger] scr[j]).0 <= COORD_LIMIT as int
                        &&& -(COORD_LIMIT as int) <= scr[j].1 <= COORD_LIMIT as int
                    },
                forall|j: int|
                    0 <= j < i ==> (#[trigger] flat@[j].0 as int, flat@[j].1 as int) == scr[j],
            decreases n - i,
        {
            let v = vertices[i];
            proof {
                assert(pts3_view(vertices@)[i as int] == (v.0 as int, v.1 as int, v.2 as int));
                assert(scr[i as int] == project_pt(
                    v.0 as int,
                    v.1 as int,
                    v.2 as int,
                    fov as int,
                    viewer_distance as int,
                    w,
                    h,
                ));
            }
            let p = self.project_3d_to_2d(v.0, v.1, v.2, fov, viewer_distance);
            flat.push(p);
            i = i + 1;
        }
        let m: usize = edges.len();
        let ghost target = edges_paint(old(self).buffer@, w, h, scr, edges@, color, 0);
        let mut k: usize = 0;
        while k < m
            invariant
                m == edges@.len(),
                0 <= k <= m,
                n == vertices@.len(),
                flat@.len() == n,
                w == old(self).width as int,
                h == old(self).height as int,
                self.width == old(self).width,
                self.height == old(self).height,
                fb_wf(*self),
                forall|j: int|
                    0 <= j < edges@.len() ==> #[trigger] edges@[j].0 < vertices@.len()
                        && edges@[j].1 < vertices@.len(),
                forall|j: int|
                    0 <= j < vertices@.len() ==> {
                        &&& -(COORD_LIMIT as int) <= (#[trigger] scr[j]).0 <= COORD_LIMIT as int
                        &&& -(COORD_LIMIT as int) <= scr[j].1 <= COORD_LIMIT as int
                    },
                forall|j: int|
                    0 <= j < n ==> (#[trigger] flat@[j].0 as int, flat@[j].1 as int) == scr[j],
                edges_paint(self.buffer@, w, h, scr, edges@, color, k as int) == target,
            decreases m - k,
        {
            let e = edges[k];
            let p0 = flat[e.0];
            let p1 = flat[e.1];
            self.draw_line(p0.0, p0.1, p1.0, p1.1, color);
            k = k + 1;
        }
    }

    /// Renders a lit solid: rotates the vertex set about its centroid,
    /// projects it, fills every table face with the base color scaled by
    /// its flat-shading brightness (degenerate faces, which have no normal,
    /// are skipped), then draws every table edge on top in `edge_color`.
    /// The buffer is transformed by exactly the fold of those primitives.
    pub fn draw_filled_cube_with_lighting(
        &mut self,
        vertices: Vec<(i64, i64, i64)>,
        sin_x: i64,
        cos_x: i64,
        sin_y: i64,
        cos_y: i64,
        sin_z: i64,
        cos_z: i64,
        base_color: u32,
        light_dir: (i64, i64, i64),
        edge_color: u32,
        faces: &Vec<(usize, usize, usize)>,
        edges: &Vec<(usize, usize)>,
        fov: isize,
        viewer_distance: isize,
    )
        requires
            fb_wf(*old(self)),
            old(self).width as int <= COORD_LIMIT as int,
            old(self).height as int <= COORD_LIMIT as int,
            1 <= vertices@.len() <= MAX_POINTS as int,
            forall|i: int|
                0 <= i < vertices@.len() ==> {
                    &&& -(ROT_LIMIT as int) <= #[trigger] vertices@[i].0 as int <= ROT_LIMIT as int
                    &&& -(ROT_LIMIT as int) <= vertices@[i].1 as int <= ROT_LIMIT as int
                    &&& -(ROT_LIMIT as int) <= vertices@[i].2 as int <= ROT_LIMIT as int
                },
            -(SCALE as int) <= sin_x as int <= SCALE as int,
            -(SCALE as int) <= cos_x as int <= SCALE as int,
            -(SCALE as int) <= sin_y as int <= SCALE as int,
            -(SCALE as int) <= cos_y as int <= SCALE as int,
            -(SCALE as int) <= sin_z as int <= SCALE as int,
            -(SCALE as int) <= cos_z as int <= SCALE as int,
            -(VEC_LIMIT as int) <= light_dir.0 as int <= VEC_LIMIT as int,
            -(VEC_LIMIT as int) <= light_dir.1 as int <= VEC_LIMIT as int,
            -(VEC_LIMIT as int) <= light_dir.2 as int <= VEC_LIMIT as int,
            -(COORD_LIMIT as int) <= fov as int <= COORD_LIMIT as int,
            -(COORD_LIMIT as int) <= viewer_distance as int <= COORD_LIMIT as int,
            forall|k: int|
                0 <= k < faces@.len() ==> #[trigger] faces@[k].0 < vertices@.len()
                    && faces@[k].1 < vertices@.len() && faces@[k].2 < vertices@.len(),
            forall|k: int|
                0 <= k < edges@.len() ==> #[trigger] edges@[k].0 < vertices@.len()
                    && edges@[k].1 < vertices@.len(),
            ({
                let rot = rotated_pts(
                    vertices@,
                    sin_x as int,
                    cos_x as int,
                    sin_y as int,
                    cos_y as int,
                    sin_z as int,
                    cos_z as int,
                );
                let scr = project_seq(
                    worlds(rot),
                    fov as int,
                    viewer_distance as int,
                    old(self).width as int,
                    old(self).height as int,
                );
                &&& forall|i: int|
                    0 <= i < rot.len() ==> (#[trigger] worlds(rot)[i]).2 + viewer_distance as int
                        != 0
                &&& forall|i: int|
                    0 <= i < scr.len() ==> {
                        &&& -(COORD_LIMIT as int) <= (#[trigger] scr[i]).0 <= COORD_LIMIT as int
                        &&& -(COORD_LIMIT as int) <= scr[i].1 <= COORD_LIMIT as int
                    }
            }),
        ensures
            fb_wf(*final(self)),
            final(self).width == old(self).width,
            final(self).height == old(self).height,
            final(self).buffer@ == ({
                let rot = rotated_pts(
                    vertices@,
                    sin_x as int,
                    cos_x as int,
                    sin_y as int,
                    cos_y as int,
                    sin_z as int,
                    cos_z as int,
                );
                let scr = project_seq(
                    worlds(rot),
                    fov as int,
                    viewer_distance as int,
                    old(self).width as int,
                    old(self).height as int,
                );
                let light = (light_dir.0 as int, light_dir.1 as int, light_dir.2 as int);
                let filled = faces_paint(
                    old(self).buffer@,
                    old(self).width as int,
                    old(self).height as int,
                    rot,
                    scr,
                    faces@,
                    light,
                    base_color,
                    0,
                );
                edges_paint(
                    filled,
                    old(self).width as int,
                    old(self).height as int,
                    scr,
                    edges@,
                    edge_color,
                    0,
                )
            }),
    {
        let ghost w = old(self).width as int;
        let ghost h = old(self).height as int;
        let ghost rot = rotated_pts(
            vertices@,
            sin_x as int,
            cos_x as int,
            sin_y as int,
            cos_y as int,
            sin_z as int,
            cos_z as int,
        );
        let ghost scr = project_seq(worlds(rot), fov as int, viewer_distance as int, w, h);
        let ghost light = (light_dir.0 as int, light_dir.1 as int, light_dir.2 as int);
        let n: usize = vertices.len();
        let rotated: Vec<(i64, i64, i64)> = self.rotate_cube(
            &vertices,
            sin_x,
            cos_x,
            sin_y,
            cos_y,
            sin_z,
            cos_z,
        );
        proof {
            assert forall|i: int| 0 <= i < n as int implies #[trigger] fx3_view(rotated@)[i]
                == rot[i] by {
                assert(fx3_view(rotated@)[i] == (rotated@[i].0 as int, rotated@[i].1 as int,
                rotated@[i].2 as int));
            }
            assert(fx3_view(rotated@) =~= rot);
        }
        // Project every rotated vertex, brought to whole world units.
        let mut flat: Vec<(isize, isize)> = Vec::new();
        let mut i: usize = 0;
        while i < n
            invariant
                n == vertices@.len(),
                rotated@.len() == n,
                0 <= i <= n,
                flat@.len() == i,
                w == old(self).width as int,
                h == old(self).height as int,
                self.width == old(self).width,
                self.height == old(self).height,
                self.width as int <= COORD_LIMIT as int,
                self.height as int <= COORD_LIMIT as int,
                fb_wf(*self),
                self.buffer@ == old(self).buffer@,
                -(COORD_LIMIT as int) <= fov as int <= COORD_LIMIT as int,
                -(COORD_LIMIT as int) <= viewer_distance as int <= COORD_LIMIT as int,
                fx3_view(rotated@) == rot,
                scr == project_seq(worlds(rot), fov as int, viewer_distance as int, w, h),
                forall|j: int|
                    0 <= j < rotated@.len() ==> {
                        &&& -(VEC_LIMIT as int) <= #[trigger] rotated@[j].0 as int <= VEC_LIMIT
                            as int
                        &&& -(VEC_LIMIT as int) <= rotated@[j].1 as int <= VEC_LIMIT as int
                        &&& -(VEC_LIMIT as int) <= rotated@[j].2 as int <= VEC_LIMIT as int
                    },
                forall|j: int|
                    0 <= j < rot.len() ==> (#[trigger] worlds(rot)[j]).2 + viewer_distance as int
                        != 0,
                forall|j: int|
                    0 <= j < scr.len() ==> {
                        &&& -(COORD_LIMIT as int) <= (#[trigger] scr[j]).0 <= COORD_LIMIT as int
                        &&& -(COORD_LIMIT as int) <= scr[j].1 <= COORD_LIMIT as int
                    },
                forall|j: int|
                    0 <= j < i ==> (#[trigger] flat@[j].0 as int, flat@[j].1 as int) == scr[j],
            decreases n - i,
        {
            let r = rotated[i];
            proof {
                lemma_trunc_div_bound(r.0 as int, SCALE as int, 8192);
                lemma_trunc_div_bound(r.1 as int, SCALE as int, 8192);
                lemma_trunc_div_bound(r.2 as int, SCALE as int, 8192);
            }
            let wx: i64 = div_trunc_i64(r.0, SCALE);
            let wy: i64 = div_trunc_i64(r.1, SCALE);
            let wz: i64 = div_trunc_i64(r.2, SCALE);
            proof {
                assert(rot[i as int] == (r.0 as int, r.1 as int, r.2 as int));
                assert(worlds(rot)[i as int] == (wx as int, wy as int, wz as int));
                assert(scr[i as int] == project_pt(
                    wx as int,
                    wy as int,
                    wz as int,
                    fov as int,
                    viewer_distance as int,
                    w,
                    h,
                ));
            }
            let p = self.project_3d_to_2d(
                wx as isize,
                wy as isize,
                wz as isize,
                fov,
                viewer_distance,
            );
            flat.push(p);
            i = i + 1;
        }
        // Fill every face with its shaded color.
        let ghost filled = faces_paint(old(self).buffer@, w, h, rot, scr, faces@, light, base_color, 0);
        let nf: usize = faces.len();
        let mut k: usize = 0;
        while k < nf
            invariant
                nf == faces@.len(),
                0 <= k <= nf,
                n == vertices@.len(),
                rotated@.len() == n,
                flat@.len() == n,
                w == old(self).width as int,
                h == old(self).height as int,
                self.width == old(self).width,
                self.height == old(self).height,
                self.width as int <= COORD_LIMIT as int,
                self.height as int <= COORD_LIMIT as int,
                fb_wf(*self),
                fx3_view(rotated@) == rot,
                light == (light_dir.0 as int, light_dir.1 as int, light_dir.2 as int),
                -(VEC_LIMIT as int) <= light_dir.0 as int <= VEC_LIMIT as int,
                -(VEC_LIMIT as int) <= light_dir.1 as int <= VEC_LIMIT as int,
                -(VEC_LIMIT as int) <= light_dir.2 as int <= VEC_LIMIT as int,
                forall|j: int|
                    0 <= j < faces@.len() ==> #[trigger] faces@[j].0 < vertices@.len()
                        && faces@[j].1 < vertices@.len() && faces@[j].2 < vertices@.len(),
                forall|j: int|
                    0 <= j < rotated@.len() ==> {
                        &&& -(VEC_LIMIT as int) <= #[trigger] rotated@[j].0 as int <= VEC_LIMIT
                            as int
                        &&& -(VEC_LIMIT as int) <= rotated@[j].1 as int <= VEC_LIMIT as int
                        &&& -(VEC_LIMIT as int) <= rotated@[j].2 as int <= VEC_LIMIT as int
                    },
                forall|j: int|
                    0 <= j < scr.len() ==> {
                        &&& -(COORD_LIMIT as int) <= (#[trigger] scr[j]).0 <= COORD_LIMIT as int
                        &&& -(COORD_LIMIT as int) <= scr[j].1 <= COORD_LIMIT as int
                    },
                scr.len() == n,
                forall|j: int|
                    0 <= j < n ==> (#[trigger] flat@[j].0 as int, flat@[j].1 as int) == scr[j],
                faces_paint(self.buffer@, w, h, rot, scr, faces@, light, base_color, k as int)
                    == filled,
            decreases nf - k,
        {
            let f = faces[k];
            let v1 = rotated[f.0];
            let v2 = rotated[f.1];
            let v3 = rotated[f.2];
            let cr = Self::cross_product(v1, v2, v3);
            proof {
                assert(rot[f.0 as int] == (v1.0 as int, v1.1 as int, v1.2 as int));
                assert(rot[f.1 as int] == (v2.0 as int, v2.1 as int, v2.2 as int));
                assert(rot[f.2 as int] == (v3.0 as int, v3.1 as int, v3.2 as int));
            }
            if cr.0 != 0 || cr.1 != 0 || cr.2 != 0 {
                let normal = Self::calculate_normal(v1, v2, v3);
                let brightness: i64 = Self::calculate_brightness(normal, light_dir);
                proof {
                    let nsp = normal_vec(rot[f.0 as int], rot[f.1 as int], rot[f.2 as int]);
                    let d = dot3(nsp, light);
                    assert(-(3 * (SCALE as int) * (VEC_LIMIT as int)) <= d <= 3 * (SCALE
                        as int) * (VEC_LIMIT as int)) by (nonlinear_arith)
                        requires
                            d == nsp.0 * light.0 + nsp.1 * light.1 + nsp.2 * light.2,
                            -(SCALE as int) <= nsp.0 <= SCALE as int,
                            -(SCALE as int) <= nsp.1 <= SCALE as int,
                            -(SCALE as int) <= nsp.2 <= SCALE as int,
                            -(VEC_LIMIT as int) <= light.0 <= VEC_LIMIT as int,
                            -(VEC_LIMIT as int) <= light.1 <= VEC_LIMIT as int,
                            -(VEC_LIMIT as int) <= light.2 <= VEC_LIMIT as int,
                    ;
                    lemma_trunc_div_bound(d, SCALE as int, 3 * (VEC_LIMIT as int));
                }
                let shaded: u32 = Self::apply_brightness_to_color(base_color, brightness);
                proof {
                    let fc = apply_brightness(
                        base_color,
                        brightness_of(
                            normal_vec(rot[f.0 as int], rot[f.1 as int], rot[f.2 as int]),
                            light,
                        ),
                    );
                    assert(0 <= fc < 0x1000000);
                    assert(shaded == face_color(rot, (f.0, f.1, f.2), light, base_color));
                    assert((flat@[f.0 as int].0 as int, flat@[f.0 as int].1 as int) == scr[f.0
                        as int]);
                    assert((flat@[f.1 as int].0 as int, flat@[f.1 as int].1 as int) == scr[f.1
                        as int]);
                    assert((flat@[f.2 as int].0 as int, flat@[f.2 as int].1 as int) == scr[f.2
                        as int]);
                }
                self.fill_triangle(flat[f.0], flat[f.1], flat[f.2], shaded);
            }
            k = k + 1;
        }
        // Highlight every edge on top.
        let m: usize = edges.len();
        let ghost target = edges_paint(filled, w, h, scr, edges@, edge_color, 0);
        let mut j: usize = 0;
        while j < m
            invariant
                m == edges@.len(),
                0 <= j <= m,
                n == vertices@.len(),
                flat@.len() == n,
                scr.len() == n,
                w == old(self).width as int,
                h == old(self).height as int,
                self.width == old(self).width,
                self.height == old(self).height,
                fb_wf(*self),
                forall|q: int|
                    0 <= q < edges@.len() ==> #[trigger] edges@[q].0 < vertices@.len()
                        && edges@[q].1 < vertices@.len(),
                forall|q: int|
                    0 <= q < scr.len() ==> {
                        &&& -(COORD_LIMIT as int) <= (#[trigger] scr[q]).0 <= COORD_LIMIT as int
                        &&& -(COORD_LIMIT as int) <= scr[q].1 <= COORD_LIMIT as int
                    },
                forall|q: int|
                    0 <= q < n ==> (#[trigger] flat@[q].0 as int, flat@[q].1 as int) == scr[q],
                edges_paint(self.buffer@, w, h, scr, edges@, edge_color, j as int) == target,
            decreases m - j,
        {
            let e = edges[j];
            let p0 = flat[e.0];
            let p1 = flat[e.1];
            self.draw_line(p0.0, p0.1, p1.0, p1.1, edge_color);
            j = j + 1;
        }
    }
}

} // verus!
