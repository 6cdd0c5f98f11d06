//! Greedy merging of the visible voxel faces of a chunk into quads.
//!
//! Every side is merged on its own, one layer of voxels at a time. A layer is
//! scanned row by row; a face that is visible and not yet part of a quad
//! starts a new quad, which grows along the row as far as the faces are
//! visible, unmerged and of the same kind, and then row by row as long as
//! the whole width can be added.

use vstd::prelude::*;
use crate::chunk::index_of;
use crate::chunk::to_index;
use crate::chunk::within_bounds;
use crate::chunk::Chunk;
use crate::chunk::AXIS_SIZE;
use crate::chunk::BUFFER_SIZE;
use crate::math::max2;
use crate::math::min2;
use crate::math::IVec3;
use crate::mesh::corner;
use crate::mesh::corner_of;
use crate::mesh::MAX_FACES;
use crate::voxel::FacesOcclusion;
use crate::voxel::occlusion_view;
use crate::voxel::Kind;
use crate::voxel::Side;
use crate::voxel::VoxelFace;
use crate::voxel::SIDE_COUNT;

verus! {

/// The smallest of four integers.
pub open spec fn min4(a: int, b: int, c: int, d: int) -> int {
    min2(min2(a, b), min2(c, d))
}

/// The largest of four integers.
pub open spec fn max4(a: int, b: int, c: int, d: int) -> int {
    max2(max2(a, b), max2(c, d))
}

/// The corner voxel of the box from `lo` to `hi` that lies towards `corner`
/// of the unit cube.
pub open spec fn pick(lo: IVec3, hi: IVec3, corner: IVec3) -> IVec3 {
    IVec3 {
        x: if corner.x == 0 { lo.x } else { hi.x },
        y: if corner.y == 0 { lo.y } else { hi.y },
        z: if corner.z == 0 { lo.z } else { hi.z },
    }
}

/// The coordinate of `p` along the axis that `side` faces.
pub open spec fn normal_coord(side: Side, p: IVec3) -> int {
    match side {
        Side::Right | Side::Left => p.x as int,
        Side::Up | Side::Down => p.y as int,
        Side::Front | Side::Back => p.z as int,
    }
}

impl VoxelFace {
    /// The corner voxel with the smallest coordinates.
    pub open spec fn lo(self) -> IVec3 {
        let v = self.vertices;
        IVec3 {
            x: min4(v[0].x as int, v[1].x as int, v[2].x as int, v[3].x as int) as i32,
            y: min4(v[0].y as int, v[1].y as int, v[2].y as int, v[3].y as int) as i32,
            z: min4(v[0].z as int, v[1].z as int, v[2].z as int, v[3].z as int) as i32,
        }
    }

    /// The corner voxel with the largest coordinates.
    pub open spec fn hi(self) -> IVec3 {
        let v = self.vertices;
        IVec3 {
            x: max4(v[0].x as int, v[1].x as int, v[2].x as int, v[3].x as int) as i32,
            y: max4(v[0].y as int, v[1].y as int, v[2].y as int, v[3].y as int) as i32,
            z: max4(v[0].z as int, v[1].z as int, v[2].z as int, v[3].z as int) as i32,
        }
    }

    /// Whether the voxel at `p` is one of those whose face this quad
    /// replaces.
    pub open spec fn covers(self, p: IVec3) -> bool {
        &&& self.lo().x <= p.x <= self.hi().x
        &&& self.lo().y <= p.y <= self.hi().y
        &&& self.lo().z <= p.z <= self.hi().z
    }

    /// The quad is a rectangle of voxels of one layer of a chunk, one voxel
    /// thick along the axis of its side, and its vertices are the corner
    /// voxels in the order of the corners of the unit cube's face.
    pub open spec fn is_quad(self) -> bool {
        &&& within_bounds(self.lo())
        &&& within_bounds(self.hi())
        &&& normal_coord(self.side, self.lo()) == normal_coord(self.side, self.hi())
        &&& forall|i: int|
            0 <= i < 4 ==> #[trigger] self.vertices[i] == pick(
                self.lo(),
                self.hi(),
                corner_of(self.side, i),
            )
    }
}

/// Whether the face of the voxel at `p` on `side` is visible.
pub open spec fn visible(occlusion: Seq<Seq<bool>>, side: Side, p: IVec3) -> bool {
    !occlusion[index_of(p)][side.index_spec()]
}

/// `face` is a quad, and every voxel face that it replaces is visible and of
/// the quad's kind.
pub open spec fn merges_only_equals(
    face: VoxelFace,
    occlusion: Seq<Seq<bool>>,
    kinds: Seq<Kind>,
) -> bool {
    &&& face.is_quad()
    &&& forall|p: IVec3| #[trigger]
        face.covers(p) ==> visible(occlusion, face.side, p) && kinds[index_of(p)] == face.kind
}

/// Some quad of `faces` on `side` replaces the face of the voxel at `p`.
pub open spec fn covered(faces: Seq<VoxelFace>, side: Side, p: IVec3) -> bool {
    exists|k: int| 0 <= k < faces.len() && (#[trigger] faces[k]).side == side && faces[k].covers(p)
}

/// `faces` is a merging of the visible faces of a chunk: every quad joins
/// only visible faces of one side and one kind that form a rectangle, every
/// visible face is part of a quad, and no face is part of two quads.
pub open spec fn is_merge_of(
    faces: Seq<VoxelFace>,
    occlusion: Seq<Seq<bool>>,
    kinds: Seq<Kind>,
) -> bool {
    &&& forall|k: int|
        0 <= k < faces.len() ==> merges_only_equals(#[trigger] faces[k], occlusion, kinds)
    &&& forall|side: Side, p: IVec3|
        within_bounds(p) && #[trigger] visible(occlusion, side, p) ==> covered(faces, side, p)
    &&& forall|i: int, j: int, p: IVec3|
        0 <= i < j < faces.len() && faces[i].side == faces[j].side && #[trigger] faces[i].covers(p)
            ==> !#[trigger] faces[j].covers(p)
}

/// Number of voxels in one layer of a chunk.
pub const LAYER_SIZE: usize = AXIS_SIZE * AXIS_SIZE;

/// The coordinate of `p` along the rows of the layers of `side`.
pub open spec fn u_coord(side: Side, p: IVec3) -> int {
    match side {
        Side::Right | Side::Left => p.z as int,
        Side::Up | Side::Down => p.x as int,
        Side::Front | Side::Back => p.x as int,
    }
}

/// The coordinate of `p` across the rows of the layers of `side`.
pub open spec fn w_coord(side: Side, p: IVec3) -> int {
    match side {
        Side::Right | Side::Left => p.y as int,
        Side::Up | Side::Down => p.z as int,
        Side::Front | Side::Back => p.y as int,
    }
}

/// The voxel of layer `n` of `side` in column `u` of row `w`.
pub open spec fn cell(side: Side, n: int, u: int, w: int) -> IVec3 {
    match side {
        Side::Right | Side::Left => IVec3 { x: n as i32, y: w as i32, z: u as i32 },
        Side::Up | Side::Down => IVec3 { x: u as i32, y: n as i32, z: w as i32 },
        Side::Front | Side::Back => IVec3 { x: u as i32, y: w as i32, z: n as i32 },
    }
}

/// The voxel of layer `n` of `side` at position `c` of the row-by-row scan.
pub open spec fn flat_cell(side: Side, n: int, c: int) -> IVec3 {
    cell(side, n, c % (AXIS_SIZE as int), c / (AXIS_SIZE as int))
}

/// Whether scan position `c` lies in columns `u0..=u1` of rows `w0..=w1`.
pub open spec fn in_rect(c: int, u0: int, u1: int, w0: int, w1: int) -> bool {
    u0 <= c % (AXIS_SIZE as int) <= u1 && w0 <= c / (AXIS_SIZE as int) <= w1
}

/// Whether the face at scan position `c` of layer `n` can join a quad of
/// `kind`: it is visible, of that kind, and not yet part of a quad.
pub open spec fn mergeable(
    occlusion: Seq<Seq<bool>>,
    kinds: Seq<Kind>,
    merged: Seq<bool>,
    side: Side,
    kind: Kind,
    n: int,
    c: int,
) -> bool {
    &&& !merged[c]
    &&& visible(occlusion, side, flat_cell(side, n, c))
    &&& kinds[index_of(flat_cell(side, n, c))] == kind
}

fn cell_at(side: Side, n: usize, u: usize, w: usize) -> (p: IVec3)
    requires
        n < AXIS_SIZE,
        u < AXIS_SIZE,
        w < AXIS_SIZE,
    ensures
        p == cell(side, n as int, u as int, w as int),
        p == flat_cell(side, n as int, w * AXIS_SIZE + u),
        within_bounds(p),
{
    match side {
        Side::Right | Side::Left => IVec3 { x: n as i32, y: w as i32, z: u as i32 },
        Side::Up | Side::Down => IVec3 { x: u as i32, y: n as i32, z: w as i32 },
        Side::Front | Side::Back => IVec3 { x: u as i32, y: w as i32, z: n as i32 },
    }
}

fn can_merge(
    occlusion: &Vec<FacesOcclusion>,
    chunk: &Chunk,
    merged: &Vec<bool>,
    side: Side,
    kind: Kind,
    n: usize,
    u: usize,
    w: usize,
) -> (ok: bool)
    requires
        occlusion@.len() == BUFFER_SIZE,
        merged@.len() == LAYER_SIZE,
        n < AXIS_SIZE,
        u < AXIS_SIZE,
        w < AXIS_SIZE,
    ensures
        ok == mergeable(occlusion_view(occlusion@), chunk@, merged@, side, kind, n as int, w * AXIS_SIZE + u),
{
    let p = cell_at(side, n, u, w);
    !merged[w * AXIS_SIZE + u] && !occlusion[to_index(p)][side.index()]
        && chunk.get_voxel_kind(p) == kind
}

fn row_mergeable(
    occlusion: &Vec<FacesOcclusion>,
    chunk: &Chunk,
    merged: &Vec<bool>,
    side: Side,
    kind: Kind,
    n: usize,
    u0: usize,
    u1: usize,
    w: usize,
) -> (ok: bool)
    requires
        occlusion@.len() == BUFFER_SIZE,
        merged@.len() == LAYER_SIZE,
        n < AXIS_SIZE,
        u0 <= u1 < AXIS_SIZE,
        w < AXIS_SIZE,
    ensures
        ok == (forall|c: int|
            in_rect(c, u0 as int, u1 as int, w as int, w as int) ==> #[trigger] mergeable(
                occlusion_view(occlusion@),
                chunk@,
                merged@,
                side,
                kind,
                n as int,
                c,
            )),
{
    let mut u = u0;
    while u <= u1
        invariant
            occlusion@.len() == BUFFER_SIZE,
            merged@.len() == LAYER_SIZE,
            n < AXIS_SIZE,
            u0 <= u <= u1 + 1,
            u1 < AXIS_SIZE,
            w < AXIS_SIZE,
            forall|c: int|
                in_rect(c, u0 as int, u - 1, w as int, w as int) ==> #[trigger] mergeable(
                    occlusion_view(occlusion@),
                    chunk@,
                    merged@,
                    side,
                    kind,
                    n as int,
                    c,
                ),
        decreases u1 + 1 - u,
    {
        if !can_merge(occlusion, chunk, merged, side, kind, n, u, w) {
            assert(in_rect(w * AXIS_SIZE + u, u0 as int, u1 as int, w as int, w as int));
            assert(!mergeable(
                occlusion_view(occlusion@),
                chunk@,
                merged@,
                side,
                kind,
                n as int,
                w * AXIS_SIZE + u,
            ));
            return false;
        }
        assert forall|c: int| in_rect(c, u0 as int, u as int, w as int, w as int) implies #[trigger]
            mergeable(occlusion_view(occlusion@), chunk@, merged@, side, kind, n as int, c) by {
            if c % (AXIS_SIZE as int) == u {
                assert(c == w * AXIS_SIZE + u);
            }
        }
        u += 1;
    }
    true
}

fn mark(merged: &mut Vec<bool>, u0: usize, u1: usize, w0: usize, w1: usize)
    requires
        old(merged)@.len() == LAYER_SIZE,
        u0 <= u1 < AXIS_SIZE,
        w0 <= w1 < AXIS_SIZE,
    ensures
        final(merged)@.len() == LAYER_SIZE,
        forall|c: int|
            0 <= c < LAYER_SIZE ==> #[trigger] final(merged)@[c] == (old(merged)@[c] || in_rect(
                c,
                u0 as int,
                u1 as int,
                w0 as int,
                w1 as int,
            )),
{
    let mut w = w0;
    while w <= w1
        invariant
            merged@.len() == LAYER_SIZE,
            u0 <= u1 < AXIS_SIZE,
            w0 <= w <= w1 + 1,
            w1 < AXIS_SIZE,
            forall|c: int|
                0 <= c < LAYER_SIZE ==> #[trigger] merged@[c] == (old(merged)@[c] || in_rect(
                    c,
                    u0 as int,
                    u1 as int,
                    w0 as int,
                    w - 1,
                )),
        decreases w1 + 1 - w,
    {
        let mut u = u0;
        while u <= u1
            invariant
                merged@.len() == LAYER_SIZE,
                u0 <= u <= u1 + 1,
                u1 < AXIS_SIZE,
                w0 <= w <= w1,
                w1 < AXIS_SIZE,
                forall|c: int|
                    0 <= c < LAYER_SIZE ==> #[trigger] merged@[c] == (old(merged)@[c] || in_rect(
                        c,
                        u0 as int,
                        u1 as int,
                        w0 as int,
                        w - 1,
                    ) || in_rect(c, u0 as int, u - 1, w as int, w as int)),
            decreases u1 + 1 - u,
        {
            merged[w * AXIS_SIZE + u] = true;
            u += 1;
        }
        w += 1;
    }
}

/// Whether `p` lies in layer `n` of `side`, in columns `u0..=u1` of rows
/// `w0..=w1`.
pub open spec fn rect_has(side: Side, n: int, u0: int, u1: int, w0: int, w1: int, p: IVec3) -> bool {
    &&& normal_coord(side, p) == n
    &&& u0 <= u_coord(side, p) <= u1
    &&& w0 <= w_coord(side, p) <= w1
}

fn pick_corner(lo: IVec3, hi: IVec3, corner: IVec3) -> (v: IVec3)
    ensures
        v == pick(lo, hi, corner),
{
    IVec3 {
        x: if corner.x == 0 { lo.x } else { hi.x },
        y: if corner.y == 0 { lo.y } else { hi.y },
        z: if corner.z == 0 { lo.z } else { hi.z },
    }
}

/// The quad on `side` that joins the faces of layer `n` in columns `u0..=u1`
/// of rows `w0..=w1`.
fn make_face(side: Side, kind: Kind, n: usize, u0: usize, u1: usize, w0: usize, w1: usize) -> (face:
    VoxelFace)
    requires
        n < AXIS_SIZE,
        u0 <= u1 < AXIS_SIZE,
        w0 <= w1 < AXIS_SIZE,
    ensures
        face.side == side,
        face.kind == kind,
        face.is_quad(),
        normal_coord(side, face.lo()) == n,
        face.lo() == cell(side, n as int, u0 as int, w0 as int),
        face.hi() == cell(side, n as int, u1 as int, w1 as int),
        start_of(face) == w0 * AXIS_SIZE + u0,
        forall|p: IVec3| #[trigger]
            face.covers(p) <==> rect_has(
                side,
                n as int,
                u0 as int,
                u1 as int,
                w0 as int,
                w1 as int,
                p,
            ),
{
    let lo = cell_at(side, n, u0, w0);
    let hi = cell_at(side, n, u1, w1);
    let vertices = [
        pick_corner(lo, hi, corner(side, 0)),
        pick_corner(lo, hi, corner(side, 1)),
        pick_corner(lo, hi, corner(side, 2)),
        pick_corner(lo, hi, corner(side, 3)),
    ];
    let face = VoxelFace { vertices, side, kind };
    proof {
        assert(face.vertices[0] == pick(lo, hi, corner_of(side, 0)));
        assert(face.vertices[1] == pick(lo, hi, corner_of(side, 1)));
        assert(face.vertices[2] == pick(lo, hi, corner_of(side, 2)));
        assert(face.vertices[3] == pick(lo, hi, corner_of(side, 3)));
        assert(face.lo() == lo);
        assert(face.hi() == hi);
    }
    face
}

/// The scan position at which the quad `face` starts within its layer: that
/// of its corner voxel with the smallest coordinates.
pub open spec fn start_of(face: VoxelFace) -> int {
    w_coord(face.side, face.lo()) * AXIS_SIZE + u_coord(face.side, face.lo())
}

/// Whether the quad `a` comes before the quad `b` in the order of the scan:
/// by side index, then by layer, then by the scan position of the start.
pub open spec fn scanned_before(a: VoxelFace, b: VoxelFace) -> bool {
    a.side.index_spec() < b.side.index_spec() || (a.side == b.side && (normal_coord(
        a.side,
        a.lo(),
    ) < normal_coord(b.side, b.lo()) || (normal_coord(a.side, a.lo()) == normal_coord(
        b.side,
        b.lo(),
    ) && start_of(a) < start_of(b))))
}

/// Whether `faces` lists its quads in the order of the scan.
pub open spec fn in_scan_order(faces: Seq<VoxelFace>) -> bool {
    forall|i: int, j: int|
        0 <= i < j < faces.len() ==> scanned_before(#[trigger] faces[i], #[trigger] faces[j])
}

/// Some quad that comes before `faces[k]`, on the same side, replaces the
/// face of the voxel at `p`.
pub open spec fn covered_before(faces: Seq<VoxelFace>, k: int, p: IVec3) -> bool {
    exists|j: int|
        0 <= j < k && (#[trigger] faces[j]).side == faces[k].side && faces[j].covers(p)
}

/// Whether the face of the voxel at `p` could have joined the quad
/// `faces[k]` when that quad was made: it is visible, of the quad's kind, and
/// part of no quad that comes before.
pub open spec fn joinable(
    faces: Seq<VoxelFace>,
    k: int,
    occlusion: Seq<Seq<bool>>,
    kinds: Seq<Kind>,
    p: IVec3,
) -> bool {
    &&& visible(occlusion, faces[k].side, p)
    &&& kinds[index_of(p)] == faces[k].kind
    &&& !covered_before(faces, k, p)
}

/// The quad `faces[k]` has grown as far as it could: along its first row
/// until the next face could not join, and then row by row until some face
/// of the next row could not join.
#[verifier::opaque]
pub open spec fn maximal(
    faces: Seq<VoxelFace>,
    k: int,
    occlusion: Seq<Seq<bool>>,
    kinds: Seq<Kind>,
) -> bool {
    let side = faces[k].side;
    let n = normal_coord(side, faces[k].lo());
    let u0 = u_coord(side, faces[k].lo());
    let u1 = u_coord(side, faces[k].hi());
    let w0 = w_coord(side, faces[k].lo());
    let w1 = w_coord(side, faces[k].hi());
    &&& u1 + 1 < AXIS_SIZE ==> !joinable(faces, k, occlusion, kinds, cell(side, n, u1 + 1, w0))
    &&& w1 + 1 < AXIS_SIZE ==> exists|u: int|
        u0 <= u <= u1 && !#[trigger] joinable(
            faces,
            k,
            occlusion,
            kinds,
            cell(side, n, u, w1 + 1),
        )
}

/// Every quad of `faces` has grown as far as it could.
pub open spec fn is_greedy(faces: Seq<VoxelFace>, occlusion: Seq<Seq<bool>>, kinds: Seq<Kind>) -> bool {
    forall|k: int| 0 <= k < faces.len() ==> #[trigger] maximal(faces, k, occlusion, kinds)
}

/// `faces` is the greedy merging of the visible faces of a chunk: a merging
/// whose quads are listed in the order of the scan and have each grown as
/// far as they could.
pub open spec fn is_greedy_merge_of(
    faces: Seq<VoxelFace>,
    occlusion: Seq<Seq<bool>>,
    kinds: Seq<Kind>,
) -> bool {
    &&& is_merge_of(faces, occlusion, kinds)
    &&& is_greedy(faces, occlusion, kinds)
    &&& in_scan_order(faces)
}

/// Whether a quad has grown as far as it could depends only on the quads up
/// to and including it.
pub proof fn lemma_maximal_of_prefix(
    a: Seq<VoxelFace>,
    b: Seq<VoxelFace>,
    k: int,
    occlusion: Seq<Seq<bool>>,
    kinds: Seq<Kind>,
)
    requires
        0 <= k < a.len() <= b.len(),
        forall|j: int| 0 <= j <= k ==> a[j] == b[j],
        maximal(a, k, occlusion, kinds),
    ensures
        maximal(b, k, occlusion, kinds),
{
    reveal(maximal);
    let side = a[k].side;
    let n = normal_coord(side, a[k].lo());
    let u0 = u_coord(side, a[k].lo());
    let u1 = u_coord(side, a[k].hi());
    let w0 = w_coord(side, a[k].lo());
    let w1 = w_coord(side, a[k].hi());
    assert forall|p: IVec3| joinable(b, k, occlusion, kinds, p) implies joinable(
        a,
        k,
        occlusion,
        kinds,
        p,
    ) by {
        if covered_before(a, k, p) {
            let j = choose|j: int|
                0 <= j < k && (#[trigger] a[j]).side == a[k].side && a[j].covers(p);
            assert(b[j].side == b[k].side && b[j].covers(p));
        }
    }
    if w1 + 1 < AXIS_SIZE {
        let u = choose|u: int|
            u0 <= u <= u1 && !#[trigger] joinable(
                a,
                k,
                occlusion,
                kinds,
                cell(side, n, u, w1 + 1),
            );
        assert(!joinable(b, k, occlusion, kinds, cell(side, n, u, w1 + 1)));
    }
}

/// Some quad among `faces[from..]` on `side` replaces the face of the voxel
/// at `p`.
pub open spec fn covered_from(faces: Seq<VoxelFace>, from: int, side: Side, p: IVec3) -> bool {
    exists|k: int|
        from <= k < faces.len() && (#[trigger] faces[k]).side == side && faces[k].covers(p)
}

/// `face` is a valid quad of layer `n` of `side`.
pub open spec fn layer_face(
    face: VoxelFace,
    occlusion: Seq<Seq<bool>>,
    kinds: Seq<Kind>,
    side: Side,
    n: int,
) -> bool {
    &&& merges_only_equals(face, occlusion, kinds)
    &&& face.side == side
    &&& normal_coord(side, face.lo()) == n
}

/// What holds while a layer is scanned, before scan position `t`: `owner`
/// records for every position the quad that covers it, if any.
spec fn layer_inv(
    faces: Seq<VoxelFace>,
    before: Seq<VoxelFace>,
    merged: Seq<bool>,
    owner: Seq<int>,
    occlusion: Seq<Seq<bool>>,
    kinds: Seq<Kind>,
    side: Side,
    n: int,
    t: int,
) -> bool {
    let start = before.len();
    &&& merged.len() == LAYER_SIZE
    &&& owner.len() == LAYER_SIZE
    &&& start <= faces.len() <= start + t
    &&& forall|k: int| 0 <= k < start ==> #[trigger] faces[k] == before[k]
    &&& forall|k: int|
        start <= k < faces.len() ==> layer_face(#[trigger] faces[k], occlusion, kinds, side, n)
    &&& forall|c: int| 0 <= c < LAYER_SIZE ==> (#[trigger] merged[c] <==> owner[c] >= 0)
    &&& forall|c: int|
        0 <= c < LAYER_SIZE && (#[trigger] owner[c]) >= 0 ==> start <= owner[c] < faces.len()
            && faces[owner[c]].covers(flat_cell(side, n, c))
    &&& forall|k: int, c: int|
        start <= k < faces.len() && 0 <= c < LAYER_SIZE && #[trigger] faces[k].covers(
            flat_cell(side, n, c),
        ) ==> owner[c] == k
    &&& forall|c: int|
        0 <= c < t && 0 <= c < LAYER_SIZE ==> #[trigger] merged[c] || !visible(
            occlusion,
            side,
            flat_cell(side, n, c),
        )
    &&& forall|k: int| start <= k < faces.len() ==> start_of(#[trigger] faces[k]) < t
    &&& forall|i: int, j: int|
        start <= i < j < faces.len() ==> start_of(#[trigger] faces[i]) < start_of(
            #[trigger] faces[j],
        )
}

/// A voxel within bounds is the cell of its own layer at its own scan
/// position.
proof fn lemma_flat_of(side: Side, p: IVec3)
    requires
        within_bounds(p),
    ensures
        0 <= w_coord(side, p) * AXIS_SIZE + u_coord(side, p) < LAYER_SIZE,
        flat_cell(
            side,
            normal_coord(side, p),
            w_coord(side, p) * AXIS_SIZE + u_coord(side, p),
        ) == p,
{
}

/// The cell at a scan position has that position's column and row.
proof fn lemma_flat_cell_coords(side: Side, n: int, c: int)
    requires
        0 <= n < AXIS_SIZE,
        0 <= c < LAYER_SIZE,
    ensures
        within_bounds(flat_cell(side, n, c)),
        normal_coord(side, flat_cell(side, n, c)) == n,
        u_coord(side, flat_cell(side, n, c)) == c % (AXIS_SIZE as int),
        w_coord(side, flat_cell(side, n, c)) == c / (AXIS_SIZE as int),
{
}

/// A quad covers only voxels of its own layer.
pub proof fn lemma_covers_own_layer(face: VoxelFace, p: IVec3)
    requires
        face.is_quad(),
        face.covers(p),
    ensures
        within_bounds(p),
        normal_coord(face.side, p) == normal_coord(face.side, face.lo()),
{
}

/// Merges layer `n` of `side`, appending its quads to `faces`.
fn merge_layer(
    occlusion: &Vec<FacesOcclusion>,
    chunk: &Chunk,
    side: Side,
    n: usize,
    faces: &mut Vec<VoxelFace>,
)
    requires
        occlusion@.len() == BUFFER_SIZE,
        n < AXIS_SIZE,
    ensures
        old(faces)@.len() <= final(faces)@.len() <= old(faces)@.len() + LAYER_SIZE,
        forall|k: int| 0 <= k < old(faces)@.len() ==> #[trigger] final(faces)@[k] == old(faces)@[k],
        forall|k: int|
            old(faces)@.len() <= k < final(faces)@.len() ==> layer_face(
                #[trigger] final(faces)@[k],
                occlusion_view(occlusion@),
                chunk@,
                side,
                n as int,
            ),
        forall|p: IVec3|
            within_bounds(p) && normal_coord(side, p) == n && #[trigger] visible(
                occlusion_view(occlusion@),
                side,
                p,
            ) ==> covered_from(final(faces)@, old(faces)@.len() as int, side, p),
        forall|i: int, j: int, p: IVec3|
            old(faces)@.len() <= i < j < final(faces)@.len() && #[trigger] final(faces)@[i].covers(
                p,
            ) ==> !#[trigger] final(faces)@[j].covers(p),
        forall|i: int, j: int|
            old(faces)@.len() <= i < j < final(faces)@.len() ==> start_of(
                #[trigger] final(faces)@[i],
            ) < start_of(#[trigger] final(faces)@[j]),
        forall|k: int|
            old(faces)@.len() <= k < final(faces)@.len() ==> #[trigger] maximal(
                final(faces)@,
                k,
                occlusion_view(occlusion@),
                chunk@,
            ),
{
    let ghost before = faces@;
    let mut merged: Vec<bool> = vec![false; LAYER_SIZE];
    let ghost mut owner: Seq<int> = Seq::new(LAYER_SIZE as nat, |c: int| -1int);
    let mut w: usize = 0;
    while w < AXIS_SIZE
        invariant
            occlusion@.len() == BUFFER_SIZE,
            n < AXIS_SIZE,
            w <= AXIS_SIZE,
            layer_inv(
                faces@,
                before,
                merged@,
                owner,
                occlusion_view(occlusion@),
                chunk@,
                side,
                n as int,
                w * AXIS_SIZE,
            ),
            forall|k: int|
                before.len() <= k < faces@.len() ==> #[trigger] maximal(
                    faces@,
                    k,
                    occlusion_view(occlusion@),
                    chunk@,
                ),
        decreases AXIS_SIZE - w,
    {
        let mut u: usize = 0;
        while u < AXIS_SIZE
            invariant
                occlusion@.len() == BUFFER_SIZE,
                n < AXIS_SIZE,
                w < AXIS_SIZE,
                u <= AXIS_SIZE,
                layer_inv(
                    faces@,
                    before,
                    merged@,
                    owner,
                    occlusion_view(occlusion@),
                    chunk@,
                    side,
                    n as int,
                    w * AXIS_SIZE + u,
                ),
                forall|k: int|
                    before.len() <= k < faces@.len() ==> #[trigger] maximal(
                        faces@,
                        k,
                        occlusion_view(occlusion@),
                        chunk@,
                    ),
            decreases AXIS_SIZE - u,
        {
            let t = w * AXIS_SIZE + u;
            let p = cell_at(side, n, u, w);
            if !merged[t] && !occlusion[to_index(p)][side.index()] {
                let kind = chunk.get_voxel_kind(p);
                let u1 = grow_along_row(occlusion, chunk, &merged, side, kind, n, u, w);
                let w1 = grow_across_rows(occlusion, chunk, &merged, side, kind, n, u, u1, w);
                let ghost merged_before = merged@;
                let ghost owner_before = owner;
                let ghost faces_before = faces@;
                mark(&mut merged, u, u1, w, w1);
                let face = make_face(side, kind, n, u, u1, w, w1);
                faces.push(face);
                proof {
                    let index = faces_before.len() as int;
                    owner =
                    Seq::new(
                        LAYER_SIZE as nat,
                        |c: int|
                            if in_rect(c, u as int, u1 as int, w as int, w1 as int) {
                                index
                            } else {
                                owner_before[c]
                            },
                    );
                    lemma_layer_step_maximal(
                        faces_before,
                        before,
                        merged_before,
                        owner_before,
                        occlusion_view(occlusion@),
                        chunk@,
                        side,
                        n as int,
                        t as int,
                        face,
                        u as int,
                        u1 as int,
                        w as int,
                        w1 as int,
                    );
                    lemma_layer_step(
                        faces_before,
                        before,
                        merged_before,
                        owner_before,
                        occlusion_view(occlusion@),
                        chunk@,
                        side,
                        n as int,
                        t as int,
                        face,
                        u as int,
                        u1 as int,
                        w as int,
                        w1 as int,
                        merged@,
                        owner,
                    );
                }
            }
            u += 1;
        }
        w += 1;
    }
    proof {
        let start = before.len() as int;
        assert forall|p: IVec3|
            within_bounds(p) && normal_coord(side, p) == n && #[trigger] visible(
                occlusion_view(occlusion@),
                side,
                p,
            ) implies covered_from(faces@, start, side, p) by {
            lemma_flat_of(side, p);
            let c = w_coord(side, p) * AXIS_SIZE + u_coord(side, p);
            assert(merged@[c]);
            let k = owner[c];
            assert(faces@[k].covers(flat_cell(side, n as int, c)));
            assert(layer_face(faces@[k], occlusion_view(occlusion@), chunk@, side, n as int));
        }
        assert forall|i: int, j: int, p: IVec3|
            start <= i < j < faces@.len() && #[trigger] faces@[i].covers(p) implies !#[trigger]
            faces@[j].covers(p) by {
            if faces@[j].covers(p) {
                assert(layer_face(faces@[i], occlusion_view(occlusion@), chunk@, side, n as int));
                assert(layer_face(faces@[j], occlusion_view(occlusion@), chunk@, side, n as int));
                lemma_covers_own_layer(faces@[i], p);
                lemma_flat_of(side, p);
                let c = w_coord(side, p) * AXIS_SIZE + u_coord(side, p);
                assert(faces@[i].covers(flat_cell(side, n as int, c)));
                assert(faces@[j].covers(flat_cell(side, n as int, c)));
                assert(owner[c] == i);
                assert(owner[c] == j);
            }
        }
    }
}

/// The last column to which a quad of `kind` that starts in column `u` of
/// row `w` extends.
fn grow_along_row(
    occlusion: &Vec<FacesOcclusion>,
    chunk: &Chunk,
    merged: &Vec<bool>,
    side: Side,
    kind: Kind,
    n: usize,
    u: usize,
    w: usize,
) -> (u1: usize)
    requires
        occlusion@.len() == BUFFER_SIZE,
        merged@.len() == LAYER_SIZE,
        n < AXIS_SIZE,
        u < AXIS_SIZE,
        w < AXIS_SIZE,
        mergeable(occlusion_view(occlusion@), chunk@, merged@, side, kind, n as int, w * AXIS_SIZE + u),
    ensures
        u <= u1 < AXIS_SIZE,
        forall|c: int|
            in_rect(c, u as int, u1 as int, w as int, w as int) ==> #[trigger] mergeable(
                occlusion_view(occlusion@),
                chunk@,
                merged@,
                side,
                kind,
                n as int,
                c,
            ),
        u1 + 1 < AXIS_SIZE ==> !mergeable(
            occlusion_view(occlusion@),
            chunk@,
            merged@,
            side,
            kind,
            n as int,
            w * AXIS_SIZE + u1 + 1,
        ),
{
    let mut u1 = u;
    assert forall|c: int| in_rect(c, u as int, u as int, w as int, w as int) implies #[trigger]
        mergeable(occlusion_view(occlusion@), chunk@, merged@, side, kind, n as int, c) by {
        assert(c == w * AXIS_SIZE + u);
    }
    while u1 + 1 < AXIS_SIZE
        invariant
            occlusion@.len() == BUFFER_SIZE,
            merged@.len() == LAYER_SIZE,
            n < AXIS_SIZE,
            u <= u1 < AXIS_SIZE,
            w < AXIS_SIZE,
            forall|c: int|
                in_rect(c, u as int, u1 as int, w as int, w as int) ==> #[trigger] mergeable(
                    occlusion_view(occlusion@),
                    chunk@,
                    merged@,
                    side,
                    kind,
                    n as int,
                    c,
                ),
        decreases AXIS_SIZE - u1,
    {
        if !can_merge(occlusion, chunk, merged, side, kind, n, u1 + 1, w) {
            return u1;
        }
        assert forall|c: int| in_rect(c, u as int, u1 + 1, w as int, w as int) implies #[trigger]
            mergeable(occlusion_view(occlusion@), chunk@, merged@, side, kind, n as int, c) by {
            if c % (AXIS_SIZE as int) == u1 + 1 {
                assert(c == w * AXIS_SIZE + (u1 + 1));
            }
        }
        u1 += 1;
    }
    u1
}

/// The last row to which a quad of `kind` that spans columns `u0..=u1` of
/// row `w` extends.
fn grow_across_rows(
    occlusion: &Vec<FacesOcclusion>,
    chunk: &Chunk,
    merged: &Vec<bool>,
    side: Side,
    kind: Kind,
    n: usize,
    u0: usize,
    u1: usize,
    w: usize,
) -> (w1: usize)
    requires
        occlusion@.len() == BUFFER_SIZE,
        merged@.len() == LAYER_SIZE,
        n < AXIS_SIZE,
        u0 <= u1 < AXIS_SIZE,
        w < AXIS_SIZE,
        forall|c: int|
            in_rect(c, u0 as int, u1 as int, w as int, w as int) ==> #[trigger] mergeable(
                occlusion_view(occlusion@),
                chunk@,
                merged@,
                side,
                kind,
                n as int,
                c,
            ),
    ensures
        w <= w1 < AXIS_SIZE,
        forall|c: int|
            in_rect(c, u0 as int, u1 as int, w as int, w1 as int) ==> #[trigger] mergeable(
                occlusion_view(occlusion@),
                chunk@,
                merged@,
                side,
                kind,
                n as int,
                c,
            ),
        w1 + 1 < AXIS_SIZE ==> exists|c: int|
            in_rect(c, u0 as int, u1 as int, w1 + 1, w1 + 1) && !#[trigger] mergeable(
                occlusion_view(occlusion@),
                chunk@,
                merged@,
                side,
                kind,
                n as int,
                c,
            ),
{
    let mut w1 = w;
    while w1 + 1 < AXIS_SIZE
        invariant
            occlusion@.len() == BUFFER_SIZE,
            merged@.len() == LAYER_SIZE,
            n < AXIS_SIZE,
            u0 <= u1 < AXIS_SIZE,
            w <= w1 < AXIS_SIZE,
            forall|c: int|
                in_rect(c, u0 as int, u1 as int, w as int, w1 as int) ==> #[trigger] mergeable(
                    occlusion_view(occlusion@),
                    chunk@,
                    merged@,
                    side,
                    kind,
                    n as int,
                    c,
                ),
        decreases AXIS_SIZE - w1,
    {
        if !row_mergeable(occlusion, chunk, merged, side, kind, n, u0, u1, w1 + 1) {
            return w1;
        }
        w1 += 1;
    }
    w1
}

/// A quad that stopped growing where the next face, or some face of the
/// next row, could not be merged has grown as far as it could: a face that
/// was merged already is part of a quad that comes before.
proof fn lemma_new_quad_is_maximal(
    faces: Seq<VoxelFace>,
    merged: Seq<bool>,
    owner: Seq<int>,
    occlusion: Seq<Seq<bool>>,
    kinds: Seq<Kind>,
    side: Side,
    n: int,
    face: VoxelFace,
    u0: int,
    u1: int,
    w0: int,
    w1: int,
)
    requires
        0 <= n < AXIS_SIZE,
        0 <= u0 <= u1 < AXIS_SIZE,
        0 <= w0 <= w1 < AXIS_SIZE,
        merged.len() == LAYER_SIZE,
        owner.len() == LAYER_SIZE,
        forall|c: int|
            0 <= c < LAYER_SIZE && #[trigger] merged[c] ==> 0 <= owner[c] < faces.len()
                && faces[owner[c]].side == side && faces[owner[c]].covers(flat_cell(side, n, c)),
        face.side == side,
        face.lo() == cell(side, n, u0, w0),
        face.hi() == cell(side, n, u1, w1),
        u1 + 1 < AXIS_SIZE ==> !mergeable(
            occlusion,
            kinds,
            merged,
            side,
            face.kind,
            n,
            w0 * AXIS_SIZE + u1 + 1,
        ),
        w1 + 1 < AXIS_SIZE ==> exists|c: int|
            in_rect(c, u0, u1, w1 + 1, w1 + 1) && !#[trigger] mergeable(
                occlusion,
                kinds,
                merged,
                side,
                face.kind,
                n,
                c,
            ),
    ensures
        maximal(faces.push(face), faces.len() as int, occlusion, kinds),
{
    reveal(maximal);
    let after = faces.push(face);
    let index = faces.len() as int;
    assert(after[index] == face);
    assert(normal_coord(side, face.lo()) == n);
    assert(u_coord(side, face.lo()) == u0);
    assert(u_coord(side, face.hi()) == u1);
    assert(w_coord(side, face.lo()) == w0);
    assert(w_coord(side, face.hi()) == w1);
    if u1 + 1 < AXIS_SIZE {
        let c = w0 * AXIS_SIZE + u1 + 1;
        let p = cell(side, n, u1 + 1, w0);
        assert(flat_cell(side, n, c) == p);
        lemma_unmergeable_cannot_join(faces, merged, owner, occlusion, kinds, side, n, face, c);
    }
    if w1 + 1 < AXIS_SIZE {
        let c = choose|c: int|
            in_rect(c, u0, u1, w1 + 1, w1 + 1) && !#[trigger] mergeable(
                occlusion,
                kinds,
                merged,
                side,
                face.kind,
                n,
                c,
            );
        let u = c % (AXIS_SIZE as int);
        assert(flat_cell(side, n, c) == cell(side, n, u, w1 + 1));
        lemma_unmergeable_cannot_join(faces, merged, owner, occlusion, kinds, side, n, face, c);
        assert(u0 <= u <= u1 && !joinable(after, index, occlusion, kinds, cell(side, n, u, w1 + 1)));
    }
}

/// A face that cannot be merged into a new quad cannot join it.
proof fn lemma_unmergeable_cannot_join(
    faces: Seq<VoxelFace>,
    merged: Seq<bool>,
    owner: Seq<int>,
    occlusion: Seq<Seq<bool>>,
    kinds: Seq<Kind>,
    side: Side,
    n: int,
    face: VoxelFace,
    c: int,
)
    requires
        0 <= c < LAYER_SIZE,
        merged.len() == LAYER_SIZE,
        owner.len() == LAYER_SIZE,
        merged[c] ==> 0 <= owner[c] < faces.len() && faces[owner[c]].side == side
            && faces[owner[c]].covers(flat_cell(side, n, c)),
        face.side == side,
        !mergeable(occlusion, kinds, merged, side, face.kind, n, c),
    ensures
        !joinable(faces.push(face), faces.len() as int, occlusion, kinds, flat_cell(side, n, c)),
{
    let after = faces.push(face);
    let index = faces.len() as int;
    assert(after[index] == face);
    if merged[c] {
        let j = owner[c];
        assert(after[j] == faces[j]);
        assert(after[j].side == after[index].side && after[j].covers(flat_cell(side, n, c)));
        assert(covered_before(after, index, flat_cell(side, n, c)));
    }
}

/// Adding a quad that has grown as far as it could keeps every quad of the
/// layer so.
proof fn lemma_layer_step_maximal(
    faces: Seq<VoxelFace>,
    before: Seq<VoxelFace>,
    merged: Seq<bool>,
    owner: Seq<int>,
    occlusion: Seq<Seq<bool>>,
    kinds: Seq<Kind>,
    side: Side,
    n: int,
    t: int,
    face: VoxelFace,
    u0: int,
    u1: int,
    w0: int,
    w1: int,
)
    requires
        0 <= n < AXIS_SIZE,
        0 <= u0 <= u1 < AXIS_SIZE,
        0 <= w0 <= w1 < AXIS_SIZE,
        layer_inv(faces, before, merged, owner, occlusion, kinds, side, n, t),
        forall|k: int|
            before.len() <= k < faces.len() ==> #[trigger] maximal(faces, k, occlusion, kinds),
        face.side == side,
        face.lo() == cell(side, n, u0, w0),
        face.hi() == cell(side, n, u1, w1),
        u1 + 1 < AXIS_SIZE ==> !mergeable(
            occlusion,
            kinds,
            merged,
            side,
            face.kind,
            n,
            w0 * AXIS_SIZE + u1 + 1,
        ),
        w1 + 1 < AXIS_SIZE ==> exists|c: int|
            in_rect(c, u0, u1, w1 + 1, w1 + 1) && !#[trigger] mergeable(
                occlusion,
                kinds,
                merged,
                side,
                face.kind,
                n,
                c,
            ),
    ensures
        forall|k: int|
            before.len() <= k < faces.len() + 1 ==> #[trigger] maximal(
                faces.push(face),
                k,
                occlusion,
                kinds,
            ),
{
    let after = faces.push(face);
    let index = faces.len() as int;
    assert forall|c: int| 0 <= c < LAYER_SIZE && #[trigger] merged[c] implies 0 <= owner[c]
        < faces.len() && faces[owner[c]].side == side && faces[owner[c]].covers(
        flat_cell(side, n, c),
    ) by {
        assert(owner[c] >= 0);
        assert(layer_face(faces[owner[c]], occlusion, kinds, side, n));
    }
    lemma_new_quad_is_maximal(
        faces,
        merged,
        owner,
        occlusion,
        kinds,
        side,
        n,
        face,
        u0,
        u1,
        w0,
        w1,
    );
    assert forall|k: int| before.len() <= k < after.len() implies #[trigger] maximal(
        after,
        k,
        occlusion,
        kinds,
    ) by {
        if k < index {
            lemma_maximal_of_prefix(faces, after, k, occlusion, kinds);
        }
    }
}

/// Adding the quad over columns `u0..=u1` of rows `w0..=w1`, all of whose
/// faces can be merged, keeps the scan's invariant and settles position `t`.
proof fn lemma_layer_step(
    faces: Seq<VoxelFace>,
    before: Seq<VoxelFace>,
    merged: Seq<bool>,
    owner: Seq<int>,
    occlusion: Seq<Seq<bool>>,
    kinds: Seq<Kind>,
    side: Side,
    n: int,
    t: int,
    face: VoxelFace,
    u0: int,
    u1: int,
    w0: int,
    w1: int,
    merged_after: Seq<bool>,
    owner_after: Seq<int>,
)
    requires
        0 <= n < AXIS_SIZE,
        0 <= u0 <= u1 < AXIS_SIZE,
        0 <= w0 <= w1 < AXIS_SIZE,
        t == w0 * AXIS_SIZE + u0,
        layer_inv(faces, before, merged, owner, occlusion, kinds, side, n, t),
        forall|c: int|
            in_rect(c, u0, u1, w0, w1) ==> #[trigger] mergeable(
                occlusion,
                kinds,
                merged,
                side,
                face.kind,
                n,
                c,
            ),
        face.side == side,
        face.is_quad(),
        normal_coord(side, face.lo()) == n,
        start_of(face) == t,
        forall|p: IVec3| #[trigger] face.covers(p) <==> rect_has(side, n, u0, u1, w0, w1, p),
        merged_after.len() == LAYER_SIZE,
        forall|c: int|
            0 <= c < LAYER_SIZE ==> #[trigger] merged_after[c] == (merged[c] || in_rect(
                c,
                u0,
                u1,
                w0,
                w1,
            )),
        owner_after == Seq::new(
            LAYER_SIZE as nat,
            |c: int|
                if in_rect(c, u0, u1, w0, w1) {
                    faces.len() as int
                } else {
                    owner[c]
                },
        ),
    ensures
        layer_inv(
            faces.push(face),
            before,
            merged_after,
            owner_after,
            occlusion,
            kinds,
            side,
            n,
            t + 1,
        ),
{
    let after = faces.push(face);
    let start = before.len() as int;
    let index = faces.len() as int;
    assert forall|p: IVec3| #[trigger] face.covers(p) implies visible(occlusion, face.side, p)
        && kinds[index_of(p)] == face.kind by {
        lemma_covers_own_layer(face, p);
        lemma_flat_of(side, p);
        let c = w_coord(side, p) * AXIS_SIZE + u_coord(side, p);
        assert(in_rect(c, u0, u1, w0, w1));
        assert(mergeable(occlusion, kinds, merged, side, face.kind, n, c));
    }
    assert forall|k: int| start <= k < after.len() implies layer_face(
        #[trigger] after[k],
        occlusion,
        kinds,
        side,
        n,
    ) by {
        if k < index {
            assert(after[k] == faces[k]);
        }
    }
    assert forall|c: int| 0 <= c < LAYER_SIZE implies (#[trigger] merged_after[c]
        <==> owner_after[c] >= 0) by {
        assert(merged[c] <==> owner[c] >= 0);
    }
    assert forall|c: int| 0 <= c < LAYER_SIZE && (#[trigger] owner_after[c]) >= 0 implies start
        <= owner_after[c] < after.len() && after[owner_after[c]].covers(flat_cell(side, n, c)) by {
        lemma_flat_cell_coords(side, n, c);
        if in_rect(c, u0, u1, w0, w1) {
            assert(rect_has(side, n, u0, u1, w0, w1, flat_cell(side, n, c)));
        } else {
            assert(owner[c] >= 0);
            assert(after[owner[c]] == faces[owner[c]]);
        }
    }
    assert forall|k: int, c: int|
        start <= k < after.len() && 0 <= c < LAYER_SIZE && #[trigger] after[k].covers(
            flat_cell(side, n, c),
        ) implies owner_after[c] == k by {
        lemma_flat_cell_coords(side, n, c);
        if k < index {
            assert(after[k] == faces[k]);
            assert(faces[k].covers(flat_cell(side, n, c)));
            assert(owner[c] == k);
            if in_rect(c, u0, u1, w0, w1) {
                assert(mergeable(occlusion, kinds, merged, side, face.kind, n, c));
                assert(merged[c] <==> owner[c] >= 0);
            }
        } else {
            assert(rect_has(side, n, u0, u1, w0, w1, flat_cell(side, n, c)));
        }
    }
    assert forall|c: int| 0 <= c < t + 1 && 0 <= c < LAYER_SIZE implies #[trigger] merged_after[c]
        || !visible(occlusion, side, flat_cell(side, n, c)) by {
        if c == t {
            assert(in_rect(c, u0, u1, w0, w1));
        } else {
            assert(merged[c] || !visible(occlusion, side, flat_cell(side, n, c)));
        }
    }
    assert forall|k: int| 0 <= k < start implies #[trigger] after[k] == before[k] by {
        assert(after[k] == faces[k]);
    }
    assert forall|k: int| start <= k < after.len() implies start_of(#[trigger] after[k]) < t
        + 1 by {
        if k < index {
            assert(after[k] == faces[k]);
        }
    }
    assert forall|i: int, j: int| start <= i < j < after.len() implies start_of(
        #[trigger] after[i],
    ) < start_of(#[trigger] after[j]) by {
        assert(after[i] == faces[i]);
        if j < index {
            assert(after[j] == faces[j]);
        }
    }
}

/// Merges the visible faces on `side`, layer by layer, appending the quads
/// to `faces`.
fn merge_side(
    occlusion: &Vec<FacesOcclusion>,
    chunk: &Chunk,
    side: Side,
    faces: &mut Vec<VoxelFace>,
)
    requires
        occlusion@.len() == BUFFER_SIZE,
    ensures
        old(faces)@.len() <= final(faces)@.len() <= old(faces)@.len() + BUFFER_SIZE,
        forall|k: int| 0 <= k < old(faces)@.len() ==> #[trigger] final(faces)@[k] == old(faces)@[k],
        forall|k: int|
            old(faces)@.len() <= k < final(faces)@.len() ==> merges_only_equals(
                #[trigger] final(faces)@[k],
                occlusion_view(occlusion@),
                chunk@,
            ) && final(faces)@[k].side == side,
        forall|p: IVec3|
            within_bounds(p) && #[trigger] visible(occlusion_view(occlusion@), side, p) ==> covered_from(
                final(faces)@,
                old(faces)@.len() as int,
                side,
                p,
            ),
        forall|i: int, j: int, p: IVec3|
            old(faces)@.len() <= i < j < final(faces)@.len() && #[trigger] final(faces)@[i].covers(
                p,
            ) ==> !#[trigger] final(faces)@[j].covers(p),
        forall|i: int, j: int|
            old(faces)@.len() <= i < j < final(faces)@.len() ==> scanned_before(
                #[trigger] final(faces)@[i],
                #[trigger] final(faces)@[j],
            ),
        forall|k: int|
            old(faces)@.len() <= k < final(faces)@.len() ==> #[trigger] maximal(
                final(faces)@,
                k,
                occlusion_view(occlusion@),
                chunk@,
            ),
{
    let ghost before = faces@;
    let ghost start = faces@.len() as int;
    let mut n: usize = 0;
    while n < AXIS_SIZE
        invariant
            occlusion@.len() == BUFFER_SIZE,
            n <= AXIS_SIZE,
            start == before.len(),
            start <= faces@.len() <= start + n * LAYER_SIZE,
            forall|k: int| 0 <= k < start ==> #[trigger] faces@[k] == before[k],
            forall|k: int|
                start <= k < faces@.len() ==> merges_only_equals(
                    #[trigger] faces@[k],
                    occlusion_view(occlusion@),
                    chunk@,
                ) && faces@[k].side == side && normal_coord(side, faces@[k].lo()) < n,
            forall|p: IVec3|
                within_bounds(p) && normal_coord(side, p) < n && #[trigger] visible(
                    occlusion_view(occlusion@),
                    side,
                    p,
                ) ==> covered_from(faces@, start, side, p),
            forall|i: int, j: int, p: IVec3|
                start <= i < j < faces@.len() && #[trigger] faces@[i].covers(p)
                    ==> !#[trigger] faces@[j].covers(p),
            forall|i: int, j: int|
                start <= i < j < faces@.len() ==> scanned_before(
                    #[trigger] faces@[i],
                    #[trigger] faces@[j],
                ),
            forall|k: int|
                start <= k < faces@.len() ==> #[trigger] maximal(
                    faces@,
                    k,
                    occlusion_view(occlusion@),
                    chunk@,
                ),
        decreases AXIS_SIZE - n,
    {
        let ghost earlier = faces@;
        merge_layer(occlusion, chunk, side, n, faces);
        proof {
            let mid = earlier.len() as int;
            assert(LAYER_SIZE == 256);
            assert forall|k: int| start <= k < faces@.len() implies merges_only_equals(
                #[trigger] faces@[k],
                occlusion_view(occlusion@),
                chunk@,
            ) && faces@[k].side == side && normal_coord(side, faces@[k].lo()) < n + 1 by {
                if k < mid {
                    assert(faces@[k] == earlier[k]);
                } else {
                    assert(layer_face(faces@[k], occlusion_view(occlusion@), chunk@, side, n as int));
                }
            }
            assert forall|p: IVec3|
                within_bounds(p) && normal_coord(side, p) < n + 1 && #[trigger] visible(
                    occlusion_view(occlusion@),
                    side,
                    p,
                ) implies covered_from(faces@, start, side, p) by {
                if normal_coord(side, p) < n {
                    assert(covered_from(earlier, start, side, p));
                    let k = choose|k: int|
                        start <= k < earlier.len() && (#[trigger] earlier[k]).side == side
                            && earlier[k].covers(p);
                    assert(faces@[k] == earlier[k]);
                } else {
                    assert(covered_from(faces@, mid, side, p));
                    let k = choose|k: int|
                        mid <= k < faces@.len() && (#[trigger] faces@[k]).side == side
                            && faces@[k].covers(p);
                    assert(faces@[k].side == side && faces@[k].covers(p));
                }
            }
            assert forall|i: int, j: int, p: IVec3|
                start <= i < j < faces@.len() && #[trigger] faces@[i].covers(p) implies !#[trigger]
                faces@[j].covers(p) by {
                if faces@[j].covers(p) {
                    if j < mid {
                        assert(faces@[i] == earlier[i]);
                        assert(faces@[j] == earlier[j]);
                    } else if i < mid {
                        assert(faces@[i] == earlier[i]);
                        assert(layer_face(faces@[j], occlusion_view(occlusion@), chunk@, side, n as int));
                        lemma_covers_own_layer(faces@[i], p);
                        lemma_covers_own_layer(faces@[j], p);
                    }
                }
            }
            assert forall|k: int| 0 <= k < start implies #[trigger] faces@[k] == before[k] by {
                assert(faces@[k] == earlier[k]);
            }
            assert forall|i: int, j: int| start <= i < j < faces@.len() implies scanned_before(
                #[trigger] faces@[i],
                #[trigger] faces@[j],
            ) by {
                if j < mid {
                    assert(faces@[i] == earlier[i]);
                    assert(faces@[j] == earlier[j]);
                } else if i < mid {
                    assert(faces@[i] == earlier[i]);
                    assert(layer_face(faces@[j], occlusion_view(occlusion@), chunk@, side, n as int));
                } else {
                    assert(layer_face(faces@[i], occlusion_view(occlusion@), chunk@, side, n as int));
                    assert(layer_face(faces@[j], occlusion_view(occlusion@), chunk@, side, n as int));
                }
            }
            assert forall|k: int| start <= k < faces@.len() implies #[trigger] maximal(
                faces@,
                k,
                occlusion_view(occlusion@),
                chunk@,
            ) by {
                if k < mid {
                    assert forall|j: int| 0 <= j <= k implies earlier[j] == faces@[j] by {}
                    lemma_maximal_of_prefix(
                        earlier,
                        faces@,
                        k,
                        occlusion_view(occlusion@),
                        chunk@,
                    );
                }
            }
        }
        n += 1;
    }
}

/// Merges the visible faces of `chunk`, as recorded in `occlusion`, into
/// quads: side by side in index order, each side layer by layer from the
/// lowest coordinate, each layer row by row.
pub fn merge_faces(occlusion: &Vec<FacesOcclusion>, chunk: &Chunk) -> (faces: Vec<VoxelFace>)
    requires
        occlusion@.len() == BUFFER_SIZE,
    ensures
        is_greedy_merge_of(faces@, occlusion_view(occlusion@), chunk@),
        faces@.len() <= MAX_FACES,
{
    let mut faces: Vec<VoxelFace> = Vec::new();
    let mut s: usize = 0;
    while s < SIDE_COUNT
        invariant
            occlusion@.len() == BUFFER_SIZE,
            s <= SIDE_COUNT,
            faces@.len() <= s * BUFFER_SIZE,
            forall|k: int|
                0 <= k < faces@.len() ==> merges_only_equals(
                    #[trigger] faces@[k],
                    occlusion_view(occlusion@),
                    chunk@,
                ) && faces@[k].side.index_spec() < s,
            forall|side: Side, p: IVec3|
                side.index_spec() < s && within_bounds(p) && #[trigger] visible(
                    occlusion_view(occlusion@),
                    side,
                    p,
                ) ==> covered(faces@, side, p),
            forall|i: int, j: int, p: IVec3|
                0 <= i < j < faces@.len() && faces@[i].side == faces@[j].side
                    && #[trigger] faces@[i].covers(p) ==> !#[trigger] faces@[j].covers(p),
            in_scan_order(faces@),
            is_greedy(faces@, occlusion_view(occlusion@), chunk@),
        decreases SIDE_COUNT - s,
    {
        let ghost earlier = faces@;
        let current = Side::from_index(s);
        merge_side(occlusion, chunk, current, &mut faces);
        proof {
            let mid = earlier.len() as int;
            assert(BUFFER_SIZE == 4096);
            assert forall|k: int| 0 <= k < faces@.len() implies merges_only_equals(
                #[trigger] faces@[k],
                occlusion_view(occlusion@),
                chunk@,
            ) && faces@[k].side.index_spec() < s + 1 by {
                if k < mid {
                    assert(faces@[k] == earlier[k]);
                }
            }
            assert forall|side: Side, p: IVec3|
                side.index_spec() < s + 1 && within_bounds(p) && #[trigger] visible(
                    occlusion_view(occlusion@),
                    side,
                    p,
                ) implies covered(faces@, side, p) by {
                if side.index_spec() < s {
                    assert(covered(earlier, side, p));
                    let k = choose|k: int|
                        0 <= k < earlier.len() && (#[trigger] earlier[k]).side == side
                            && earlier[k].covers(p);
                    assert(faces@[k] == earlier[k]);
                } else {
                    assert(side == current);
                    assert(covered_from(faces@, mid, side, p));
                    let k = choose|k: int|
                        mid <= k < faces@.len() && (#[trigger] faces@[k]).side == side
                            && faces@[k].covers(p);
                    assert(faces@[k].side == side && faces@[k].covers(p));
                }
            }
            assert forall|i: int, j: int, p: IVec3|
                0 <= i < j < faces@.len() && faces@[i].side == faces@[j].side
                    && #[trigger] faces@[i].covers(p) implies !#[trigger] faces@[j].covers(p) by {
                if j < mid {
                    assert(faces@[i] == earlier[i]);
                    assert(faces@[j] == earlier[j]);
                } else if i < mid {
                    assert(faces@[i] == earlier[i]);
                }
            }
            assert forall|i: int, j: int| 0 <= i < j < faces@.len() implies scanned_before(
                #[trigger] faces@[i],
                #[trigger] faces@[j],
            ) by {
                if j < mid {
                    assert(faces@[i] == earlier[i]);
                    assert(faces@[j] == earlier[j]);
                } else if i < mid {
                    assert(faces@[i] == earlier[i]);
                }
            }
            assert forall|k: int| 0 <= k < faces@.len() implies #[trigger] maximal(
                faces@,
                k,
                occlusion_view(occlusion@),
                chunk@,
            ) by {
                if k < mid {
                    assert forall|j: int| 0 <= j <= k implies earlier[j] == faces@[j] by {}
                    lemma_maximal_of_prefix(
                        earlier,
                        faces@,
                        k,
                        occlusion_view(occlusion@),
                        chunk@,
                    );
                }
            }
        }
        s += 1;
    }
    proof {
        assert forall|side: Side, p: IVec3|
            within_bounds(p) && #[trigger] visible(occlusion_view(occlusion@), side, p) implies covered(
            faces@,
            side,
            p,
        ) by {
            assert(side.index_spec() < SIDE_COUNT);
        }
    }
    faces
}

} // verus!
