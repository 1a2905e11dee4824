//! Meshes: vertices with the indices that join them into primitives.

use vstd::prelude::*;
use crate::frame::Viewport;
use crate::image::Extent;

verus! {

/// Vertices of some layout `V`, and indices into them.
#[derive(Clone, Debug, PartialEq, Eq)]
pub struct Mesh<V> {
    pub vertices: Vec<V>,
    pub indices: Vec<u32>,
}

/// Three scalars.
#[derive(Clone, Copy, Debug, PartialEq, Eq)]
pub struct Triple<T> {
    pub x: T,
    pub y: T,
    pub z: T,
}

/// Two scalars.
#[derive(Clone, Copy, Debug, PartialEq, Eq)]
pub struct Pair<T> {
    pub u: T,
    pub v: T,
}

/// A vertex with a position, a texture coordinate and a normal, over
/// scalars of type `T`.
#[derive(Clone, Copy, Debug, PartialEq, Eq)]
pub struct PosTexNorm<T> {
    pub position: Triple<T>,
    pub tex_coord: Pair<T>,
    pub normal: Triple<T>,
}

/// A vertex with a position, a texture coordinate, a normal and a tangent,
/// over scalars of type `T`.
#[derive(Clone, Copy, Debug, PartialEq, Eq)]
pub struct PosTexNormTan<T> {
    pub position: Triple<T>,
    pub tex_coord: Pair<T>,
    pub normal: Triple<T>,
    pub tangent: Triple<T>,
}

/// The three scalars of `flat` that make up element `i`.
pub open spec fn triple_at<T>(flat: Seq<T>, i: int) -> Triple<T> {
    Triple { x: flat[3 * i], y: flat[3 * i + 1], z: flat[3 * i + 2] }
}

/// Groups `flat` into triples; scalars left over at the end are dropped.
pub fn triples<T: Copy>(flat: &Vec<T>) -> (grouped: Vec<Triple<T>>)
    ensures
        grouped@ == Seq::new((flat@.len() / 3) as nat, |i: int| triple_at(flat@, i)),
{
    let count = flat.len() / 3;
    let mut grouped: Vec<Triple<T>> = Vec::new();
    let mut i: usize = 0;
    while i < count
        invariant
            0 <= i <= count,
            count == flat@.len() / 3,
            flat@.len() <= usize::MAX,
            grouped@ == Seq::new(i as nat, |m: int| triple_at(flat@, m)),
        decreases count - i,
    {
        grouped.push(Triple { x: flat[3 * i], y: flat[3 * i + 1], z: flat[3 * i + 2] });
        i += 1;
    }
    grouped
}

/// Whether `pair` is the texture coordinate of vertex number `i`: the two
/// scalars of `texcoords` for it, the second one turned over by `flip`, or
/// `zero` twice where `texcoords` does not hold both.
pub open spec fn is_tex_coord_at<T, F: Fn(T) -> T>(
    texcoords: Seq<T>,
    flip: F,
    zero: T,
    i: int,
    pair: Pair<T>,
) -> bool {
    if 2 * i + 1 < texcoords.len() {
        pair.u == texcoords[2 * i] && call_ensures(flip, (texcoords[2 * i + 1],), pair.v)
    } else {
        pair == (Pair { u: zero, v: zero })
    }
}

/// Whether `vertex` is vertex number `i` of a mesh given as flat lists of
/// scalars.
pub open spec fn is_vertex_at<T, F: Fn(T) -> T>(
    positions: Seq<T>,
    normals: Seq<T>,
    texcoords: Seq<T>,
    flip: F,
    zero: T,
    i: int,
    vertex: PosTexNorm<T>,
) -> bool {
    &&& vertex.position == triple_at(positions, i)
    &&& vertex.normal == triple_at(normals, i)
    &&& is_tex_coord_at(texcoords, flip, zero, i, vertex.tex_coord)
}

/// Whether `normals` has a normal for each position of `positions`.
pub open spec fn normals_cover<T>(positions: Seq<T>, normals: Seq<T>) -> bool {
    3 * (positions.len() / 3) <= normals.len()
}

/// Whether `normals` has a normal for each position of `positions`.
pub fn has_normals<T>(positions: &Vec<T>, normals: &Vec<T>) -> (covered: bool)
    ensures
        covered == normals_cover(positions@, normals@),
{
    positions.len() / 3 <= normals.len() / 3
}

/// Builds a mesh from flat lists: three scalars of `positions` and of
/// `normals` for each vertex, and two of `texcoords`, of which the second
/// is turned over by `flip`, because the rows of a texture run the other
/// way than those of the file. A vertex for which `texcoords` does not hold
/// both scalars gets `zero` twice. The indices are taken as they are.
pub fn convert_mesh<T: Copy, F: Fn(T) -> T>(
    positions: &Vec<T>,
    normals: &Vec<T>,
    texcoords: &Vec<T>,
    indices: &Vec<u32>,
    flip: F,
    zero: T,
) -> (mesh: Mesh<PosTexNorm<T>>)
    requires
        normals_cover(positions@, normals@),
        forall|k: int| 0 <= k < texcoords@.len() ==> call_requires(flip, (#[trigger] texcoords@[k],)),
    ensures
        mesh.vertices@.len() == positions@.len() / 3,
        forall|i: int|
            0 <= i < mesh.vertices@.len() ==> is_vertex_at(
                positions@,
                normals@,
                texcoords@,
                flip,
                zero,
                i,
                #[trigger] mesh.vertices@[i],
            ),
        mesh.indices@ == indices@,
{
    let count = positions.len() / 3;
    let mut vertices: Vec<PosTexNorm<T>> = Vec::new();
    let mut i: usize = 0;
    while i < count
        invariant
            0 <= i <= count,
            count == positions@.len() / 3,
            positions@.len() <= usize::MAX,
            3 * count <= normals@.len(),
            forall|k: int|
                0 <= k < texcoords@.len() ==> call_requires(flip, (#[trigger] texcoords@[k],)),
            vertices@.len() == i,
            forall|m: int|
                0 <= m < i ==> is_vertex_at(
                    positions@,
                    normals@,
                    texcoords@,
                    flip,
                    zero,
                    m,
                    #[trigger] vertices@[m],
                ),
        decreases count - i,
    {
        let tex_coord = if texcoords.len() <= i * 2 + 1 {
            Pair { u: zero, v: zero }
        } else {
            Pair { u: texcoords[i * 2], v: flip(texcoords[i * 2 + 1]) }
        };
        vertices.push(
            PosTexNorm {
                position: Triple {
                    x: positions[3 * i],
                    y: positions[3 * i + 1],
                    z: positions[3 * i + 2],
                },
                tex_coord,
                normal: Triple { x: normals[3 * i], y: normals[3 * i + 1], z: normals[3 * i + 2] },
            },
        );
        i += 1;
    }
    Mesh { vertices, indices: copy_indices(indices) }
}

/// `vertex` with the tangent `tangent`.
pub open spec fn with_tangent<T>(vertex: PosTexNorm<T>, tangent: Triple<T>) -> PosTexNormTan<T> {
    PosTexNormTan {
        position: vertex.position,
        tex_coord: vertex.tex_coord,
        normal: vertex.normal,
        tangent,
    }
}

/// Gives each vertex of `mesh` the tangent that stands at its place in
/// `tangents`. Positions, texture coordinates, normals and indices are
/// kept.
pub fn with_tangents<T: Copy>(mesh: &Mesh<PosTexNorm<T>>, tangents: &Vec<Triple<T>>) -> (result:
    Mesh<PosTexNormTan<T>>)
    requires
        tangents@.len() == mesh.vertices@.len(),
    ensures
        result.vertices@ == Seq::new(
            mesh.vertices@.len(),
            |i: int| with_tangent(mesh.vertices@[i], tangents@[i]),
        ),
        result.indices@ == mesh.indices@,
{
    let mut vertices: Vec<PosTexNormTan<T>> = Vec::new();
    let mut i: usize = 0;
    while i < mesh.vertices.len()
        invariant
            0 <= i <= mesh.vertices@.len(),
            tangents@.len() == mesh.vertices@.len(),
            vertices@ == Seq::new(
                i as nat,
                |m: int| with_tangent(mesh.vertices@[m], tangents@[m]),
            ),
        decreases mesh.vertices@.len() - i,
    {
        let vertex = mesh.vertices[i];
        vertices.push(
            PosTexNormTan {
                position: vertex.position,
                tex_coord: vertex.tex_coord,
                normal: vertex.normal,
                tangent: tangents[i],
            },
        );
        i += 1;
    }
    Mesh { vertices, indices: copy_indices(&mesh.indices) }
}

fn copy_indices(indices: &Vec<u32>) -> (copy: Vec<u32>)
    ensures
        copy@ == indices@,
{
    let mut copy: Vec<u32> = Vec::new();
    let mut i: usize = 0;
    while i < indices.len()
        invariant
            0 <= i <= indices@.len(),
            copy@ == indices@.subrange(0, i as int),
        decreases indices@.len() - i,
    {
        copy.push(indices[i]);
        i += 1;
    }
    copy
}

/// A vertex with a position only.
#[derive(Clone, Copy, Debug, PartialEq, Eq)]
pub struct Pos<T> {
    pub position: Triple<T>,
}

/// How many vertices the first `n` of `meshes` have together.
pub open spec fn vertex_total<V>(meshes: Seq<Mesh<V>>, n: int) -> int
    decreases n,
{
    if n <= 0 {
        0
    } else {
        vertex_total(meshes, n - 1) + meshes[n - 1].vertices@.len()
    }
}

/// The positions of `vertices`, in order.
pub open spec fn positions_of<T>(vertices: Seq<PosTexNorm<T>>) -> Seq<Pos<T>> {
    Seq::new(vertices.len(), |k: int| Pos { position: vertices[k].position })
}

/// The positions of the vertices of the first `n` of `meshes`, one mesh
/// after the other.
pub open spec fn merged_vertices<T>(meshes: Seq<Mesh<PosTexNorm<T>>>, n: int) -> Seq<Pos<T>>
    decreases n,
{
    if n <= 0 {
        Seq::empty()
    } else {
        merged_vertices(meshes, n - 1) + positions_of(meshes[n - 1].vertices@)
    }
}

/// `indices`, each moved up by `offset`.
pub open spec fn shifted(indices: Seq<u32>, offset: int) -> Seq<u32> {
    Seq::new(indices.len(), |k: int| (indices[k] + offset) as u32)
}

/// The indices of the first `n` of `meshes`, one mesh after the other, each
/// moved up by the number of vertices of the meshes before its own.
pub open spec fn merged_indices<V>(meshes: Seq<Mesh<V>>, n: int) -> Seq<u32>
    decreases n,
{
    if n <= 0 {
        Seq::empty()
    } else {
        merged_indices(meshes, n - 1) + shifted(
            meshes[n - 1].indices@,
            vertex_total(meshes, n - 1),
        )
    }
}

/// Whether the first `n` of `meshes` can be merged: the number of their
/// vertices and every index, moved up, must fit in 32 bits.
pub open spec fn merge_fits<V>(meshes: Seq<Mesh<V>>, n: int) -> bool
    decreases n,
{
    if n <= 0 {
        true
    } else {
        &&& merge_fits(meshes, n - 1)
        &&& vertex_total(meshes, n) <= u32::MAX
        &&& forall|k: int|
            0 <= k < meshes[n - 1].indices@.len() ==> #[trigger] meshes[n - 1].indices@[k]
                + vertex_total(meshes, n - 1) <= u32::MAX
    }
}

/// The number of vertices of meshes is never negative.
pub proof fn lemma_vertex_total_nonnegative<V>(meshes: Seq<Mesh<V>>, n: int)
    ensures
        0 <= vertex_total(meshes, n),
    decreases n,
{
    if n > 0 {
        lemma_vertex_total_nonnegative(meshes, n - 1);
    }
}

/// Merging keeps every vertex: the merged mesh has as many as the meshes
/// have together.
pub proof fn lemma_merged_lengths<T>(meshes: Seq<Mesh<PosTexNorm<T>>>, n: int)
    ensures
        merged_vertices(meshes, n).len() == vertex_total(meshes, n),
    decreases n,
{
    if n > 0 {
        lemma_merged_lengths(meshes, n - 1);
    }
}

/// Meshes that can be merged can be merged up to any point.
pub proof fn lemma_merge_fits_prefix<V>(meshes: Seq<Mesh<V>>, n: int, limit: int)
    requires
        0 <= n <= limit,
        merge_fits(meshes, limit),
    ensures
        merge_fits(meshes, n),
    decreases limit,
{
    if n < limit {
        lemma_merge_fits_prefix(meshes, n, limit - 1);
    }
}

/// An index that points into its own mesh points, after merging, to the
/// position of the same vertex.
pub proof fn lemma_merged_index_points_to_same_vertex<T>(
    meshes: Seq<Mesh<PosTexNorm<T>>>,
    m: int,
    k: int,
)
    requires
        0 <= m < meshes.len(),
        merge_fits(meshes, m + 1),
        0 <= k < meshes[m].indices@.len(),
        meshes[m].indices@[k] < meshes[m].vertices@.len(),
    ensures
        shifted(meshes[m].indices@, vertex_total(meshes, m))[k] < merged_vertices(
            meshes,
            m + 1,
        ).len(),
        merged_vertices(meshes, m + 1)[shifted(
            meshes[m].indices@,
            vertex_total(meshes, m),
        )[k] as int].position == meshes[m].vertices@[meshes[m].indices@[k] as int].position,
{
    lemma_merged_lengths(meshes, m);
    lemma_vertex_total_nonnegative(meshes, m);
}

fn shifted_fit(indices: &Vec<u32>, offset: u32) -> (fits: bool)
    ensures
        fits == forall|k: int| 0 <= k < indices@.len() ==> #[trigger] indices@[k] + offset <= u32::MAX,
{
    let mut k: usize = 0;
    while k < indices.len()
        invariant
            0 <= k <= indices@.len(),
            forall|m: int| 0 <= m < k ==> #[trigger] indices@[m] + offset <= u32::MAX,
        decreases indices@.len() - k,
    {
        if indices[k] > u32::MAX - offset {
            return false;
        }
        k += 1;
    }
    true
}

/// Whether `meshes` can be merged.
pub fn can_merge<V>(meshes: &Vec<Mesh<V>>) -> (fits: bool)
    ensures
        fits == merge_fits(meshes@, meshes@.len() as int),
{
    let mut offset: u32 = 0;
    let mut n: usize = 0;
    while n < meshes.len()
        invariant
            0 <= n <= meshes@.len(),
            merge_fits(meshes@, n as int),
            offset == vertex_total(meshes@, n as int),
        decreases meshes@.len() - n,
    {
        let count = meshes[n].vertices.len();
        if count > (u32::MAX - offset) as usize || !shifted_fit(&meshes[n].indices, offset) {
            proof {
                if merge_fits(meshes@, meshes@.len() as int) {
                    lemma_merge_fits_prefix(meshes@, n as int + 1, meshes@.len() as int);
                }
            }
            return false;
        }
        offset = offset + count as u32;
        n += 1;
    }
    true
}

/// Merges `meshes` into one mesh that holds positions only: the vertices of
/// each mesh follow those of the mesh before it, and each index is moved up
/// by the number of vertices that stand before those of its own mesh.
pub fn merge<T: Copy>(meshes: &Vec<Mesh<PosTexNorm<T>>>) -> (merged: Mesh<Pos<T>>)
    requires
        merge_fits(meshes@, meshes@.len() as int),
    ensures
        merged.vertices@ == merged_vertices(meshes@, meshes@.len() as int),
        merged.indices@ == merged_indices(meshes@, meshes@.len() as int),
{
    let mut vertices: Vec<Pos<T>> = Vec::new();
    let mut indices: Vec<u32> = Vec::new();
    let mut offset: u32 = 0;
    let mut n: usize = 0;
    while n < meshes.len()
        invariant
            0 <= n <= meshes@.len(),
            merge_fits(meshes@, meshes@.len() as int),
            offset == vertex_total(meshes@, n as int),
            vertices@ == merged_vertices(meshes@, n as int),
            indices@ == merged_indices(meshes@, n as int),
        decreases meshes@.len() - n,
    {
        let mesh = &meshes[n];
        proof {
            lemma_merge_fits_prefix(meshes@, n as int + 1, meshes@.len() as int);
        }
        let ghost vertices_before = vertices@;
        let ghost projected = positions_of(mesh.vertices@);
        let mut v: usize = 0;
        while v < mesh.vertices.len()
            invariant
                0 <= v <= mesh.vertices@.len(),
                projected == positions_of(mesh.vertices@),
                vertices@ == vertices_before + projected.subrange(0, v as int),
            decreases mesh.vertices@.len() - v,
        {
            vertices.push(Pos { position: mesh.vertices[v].position });
            v += 1;
        }
        let ghost indices_before = indices@;
        let ghost moved = shifted(mesh.indices@, offset as int);
        let mut k: usize = 0;
        while k < mesh.indices.len()
            invariant
                0 <= k <= mesh.indices@.len(),
                moved == shifted(mesh.indices@, offset as int),
                forall|m: int|
                    0 <= m < mesh.indices@.len() ==> #[trigger] mesh.indices@[m] + offset
                        <= u32::MAX,
                indices@ == indices_before + moved.subrange(0, k as int),
            decreases mesh.indices@.len() - k,
        {
            indices.push(mesh.indices[k] + offset);
            k += 1;
        }
        offset = offset + mesh.vertices.len() as u32;
        n += 1;
    }
    Mesh { vertices, indices }
}

/// Merges `meshes` as `merge` does, if they can be merged.
pub fn try_merge<T: Copy>(meshes: &Vec<Mesh<PosTexNorm<T>>>) -> (merged: Option<Mesh<Pos<T>>>)
    ensures
        match merged {
            Some(mesh) => merge_fits(meshes@, meshes@.len() as int) && mesh.vertices@
                == merged_vertices(meshes@, meshes@.len() as int) && mesh.indices@
                == merged_indices(meshes@, meshes@.len() as int),
            None => !merge_fits(meshes@, meshes@.len() as int),
        },
{
    if can_merge(meshes) {
        Some(merge(meshes))
    } else {
        None
    }
}

/// The indices 0, 1, 2, and so on, `count` of them.
pub fn sequential_indices(count: u32) -> (indices: Vec<u32>)
    ensures
        indices@ == Seq::new(count as nat, |k: int| k as u32),
{
    let mut indices: Vec<u32> = Vec::new();
    let mut k: u32 = 0;
    while k < count
        invariant
            0 <= k <= count,
            indices@ == Seq::new(k as nat, |m: int| m as u32),
        decreases count - k,
    {
        indices.push(k);
        k += 1;
    }
    indices
}

/// Where patch number `index` lies in an image that is divided into patches
/// of dimensions `patch`, `columns` to a row, counted row by row.
pub open spec fn patch_origin(index: u32, columns: u32, patch: Extent) -> (int, int) {
    ((index % columns) * patch.width, (index / columns) * patch.height)
}

/// The viewport of patch number `index` in an image that is divided into
/// patches of dimensions `patch`, `columns` to a row, counted row by row;
/// none without columns or if the patch lies beyond what 32 bits can
/// address.
pub fn patch_viewport(index: u32, columns: u32, patch: Extent) -> (viewport: Option<Viewport>)
    ensures
        match viewport {
            Some(v) => columns > 0 && v.x == patch_origin(index, columns, patch).0 && v.y
                == patch_origin(index, columns, patch).1 && v.width == patch.width && v.height
                == patch.height,
            None => columns == 0 || patch_origin(index, columns, patch).0 > u32::MAX
                || patch_origin(index, columns, patch).1 > u32::MAX,
        },
{
    if columns == 0 {
        return None;
    }
    let column = index % columns;
    let row = index / columns;
    assert(column * patch.width <= 0xffff_ffff * 0xffff_ffff) by (nonlinear_arith)
        requires
            0 <= column <= 0xffff_ffff,
            0 <= patch.width <= 0xffff_ffff,
    ;
    assert(row * patch.height <= 0xffff_ffff * 0xffff_ffff) by (nonlinear_arith)
        requires
            0 <= row <= 0xffff_ffff,
            0 <= patch.height <= 0xffff_ffff,
    ;
    let x = column as u64 * patch.width as u64;
    let y = row as u64 * patch.height as u64;
    if x > u32::MAX as u64 || y > u32::MAX as u64 {
        return None;
    }
    Some(Viewport { x: x as u32, y: y as u32, width: patch.width, height: patch.height })
}

} // verus!
