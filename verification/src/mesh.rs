//! Index bookkeeping of a triangle mesh: which faces a loaded model yields
//! and when it is refused.
use vstd::prelude::*;
use vstd::std_specs::convert::FromSpecImpl;
use obj::ObjError;
use obj::MtlLibsLoadError;

verus! {

/// The error that `obj` reports when a model file cannot be read or parsed.
/// Nothing inside it is inspected here.
#[verifier::external_type_specification]
#[verifier::external_body]
pub struct ExObjError(ObjError);

/// The error that `obj` reports when material libraries cannot be loaded.
/// Nothing inside it is inspected here.
#[verifier::external_type_specification]
#[verifier::external_body]
pub struct ExMtlLibsLoadError(MtlLibsLoadError);

/// Why a mesh could not be built.
#[derive(Debug)]
pub enum MeshError {
    MeshLoadError(ObjError),
    MaterialLoadError(MtlLibsLoadError),
    /// Some face is not a triangle.
    UntriangulatedError,
}

impl From<ObjError> for MeshError {
    fn from(x: ObjError) -> (e: MeshError) {
        MeshError::MeshLoadError(x)
    }
}

impl FromSpecImpl<ObjError> for MeshError {
    open spec fn obeys_from_spec() -> bool {
        true
    }

    open spec fn from_spec(x: ObjError) -> MeshError {
        MeshError::MeshLoadError(x)
    }
}

impl From<MtlLibsLoadError> for MeshError {
    fn from(x: MtlLibsLoadError) -> (e: MeshError) {
        MeshError::MaterialLoadError(x)
    }
}

impl FromSpecImpl<MtlLibsLoadError> for MeshError {
    open spec fn obeys_from_spec() -> bool {
        true
    }

    open spec fn from_spec(x: MtlLibsLoadError) -> MeshError {
        MeshError::MaterialLoadError(x)
    }
}

/// One corner of a face as the model file gives it: the position index and,
/// where present, the texture-coordinate and normal indices.
#[derive(Clone, Copy, Debug, PartialEq, Eq, Structural)]
pub struct IndexTuple {
    pub position: usize,
    pub texture: Option<usize>,
    pub normal: Option<usize>,
}

/// A face of the model with the number of the group it came from.
#[derive(Debug)]
pub struct Polygon {
    pub group: usize,
    pub corners: Vec<IndexTuple>,
}

/// A triangle of the mesh by indices into the shared position, normal and
/// texture-coordinate arrays, with the index of its material.
#[derive(Clone, Copy, Debug, PartialEq, Eq)]
pub struct MeshTri {
    pub vertex_indices: (usize, usize, usize),
    pub normal_indices: (usize, usize, usize),
    pub texture_indices: (usize, usize, usize),
    pub material_index: usize,
}

/// Whether a corner names a position, a texture coordinate and a normal
/// that all exist.
pub open spec fn corner_complete(c: IndexTuple, positions: usize, textures: usize, normals: usize) -> bool {
    &&& c.position < positions
    &&& c.texture matches Some(t) && t < textures
    &&& c.normal matches Some(n) && n < normals
}

/// Whether the faces up to and including number `p` all have three
/// corners.
pub open spec fn triangles_through(polygons: Seq<Polygon>, p: int) -> bool {
    forall|q: int| 0 <= q <= p ==> (#[trigger] polygons[q]).corners@.len() == 3
}

/// Whether every corner is complete in each face that is reached before a
/// face without three corners turns up.
pub open spec fn polygons_complete(
    polygons: Seq<Polygon>,
    positions: usize,
    textures: usize,
    normals: usize,
) -> bool {
    forall|p: int, k: int|
        0 <= p < polygons.len() && triangles_through(polygons, p) && 0 <= k < 3 ==> corner_complete(
            #[trigger] polygons[p].corners@[k],
            positions,
            textures,
            normals,
        )
}

/// Whether every face has exactly three corners.
pub open spec fn triangulated(polygons: Seq<Polygon>) -> bool {
    forall|p: int| 0 <= p < polygons.len() ==> (#[trigger] polygons[p]).corners@.len() == 3
}

/// The triangle that a complete three-cornered face becomes. Its material
/// is that of its group.
pub open spec fn face_of(polygon: Polygon) -> MeshTri {
    let c0 = polygon.corners@[0];
    let c1 = polygon.corners@[1];
    let c2 = polygon.corners@[2];
    MeshTri {
        vertex_indices: (c0.position, c1.position, c2.position),
        normal_indices: (c0.normal.unwrap(), c1.normal.unwrap(), c2.normal.unwrap()),
        texture_indices: (c0.texture.unwrap(), c1.texture.unwrap(), c2.texture.unwrap()),
        material_index: polygon.group,
    }
}

/// Whether all three corners of a triangle point into arrays of the given
/// lengths.
pub open spec fn tri_in_range(t: MeshTri, positions: usize, textures: usize, normals: usize) -> bool {
    &&& t.vertex_indices.0 < positions && t.vertex_indices.1 < positions && t.vertex_indices.2
        < positions
    &&& t.texture_indices.0 < textures && t.texture_indices.1 < textures && t.texture_indices.2
        < textures
    &&& t.normal_indices.0 < normals && t.normal_indices.1 < normals && t.normal_indices.2
        < normals
}

fn corner_is_complete(c: &IndexTuple, positions: usize, textures: usize, normals: usize) -> (b: bool)
    ensures
        b == corner_complete(*c, positions, textures, normals),
{
    let texture_ok: bool = match c.texture {
        Some(t) => t < textures,
        None => false,
    };
    let normal_ok: bool = match c.normal {
        Some(n) => n < normals,
        None => false,
    };
    c.position < positions && texture_ok && normal_ok
}

/// Tests whether the faces can be turned into triangles without meeting a
/// missing or stray index: every face is looked at, in order, up to the
/// first that is not a triangle.
pub fn polygons_are_complete(
    polygons: &Vec<Polygon>,
    positions: usize,
    textures: usize,
    normals: usize,
) -> (b: bool)
    ensures
        b == polygons_complete(polygons@, positions, textures, normals),
{
    let mut p: usize = 0;
    while p < polygons.len()
        invariant
            p <= polygons@.len(),
            p > 0 ==> triangles_through(polygons@, p - 1),
            forall|q: int, k: int|
                0 <= q < p && 0 <= k < 3 ==> corner_complete(
                    #[trigger] polygons@[q].corners@[k],
                    positions,
                    textures,
                    normals,
                ),
        decreases polygons@.len() - p,
    {
        let corners = &polygons[p].corners;
        if corners.len() != 3 {
            assert(!triangles_through(polygons@, p as int));
            assert forall|q: int| p <= q < polygons@.len() implies !triangles_through(polygons@, q) by {
                if triangles_through(polygons@, q) {
                    assert(polygons@[p as int].corners@.len() == 3);
                }
            }
            return true;
        }
        let complete: bool = corner_is_complete(&corners[0], positions, textures, normals)
            && corner_is_complete(&corners[1], positions, textures, normals) && corner_is_complete(
            &corners[2],
            positions,
            textures,
            normals,
        );
        if !complete {
            assert(triangles_through(polygons@, p as int));
            return false;
        }
        assert(triangles_through(polygons@, p as int));
        p = p + 1;
    }
    true
}

/// Turns the faces of a model into mesh triangles.
///
/// The model is refused with `UntriangulatedError` exactly when some face
/// does not have three corners. Otherwise every face yields its triangle,
/// in order, with indices that all lie in range. The faces looked at on the
/// way must name existing positions, texture coordinates and normals.
pub fn mesh_triangles(polygons: &Vec<Polygon>, positions: usize, textures: usize, normals: usize) -> (r:
    Result<Vec<MeshTri>, MeshError>)
    requires
        polygons_complete(polygons@, positions, textures, normals),
    ensures
        r is Ok <==> triangulated(polygons@),
        r matches Err(e) ==> e is UntriangulatedError,
        r matches Ok(tris) ==> {
            &&& tris@.len() == polygons@.len()
            &&& forall|p: int| 0 <= p < tris@.len() ==> #[trigger] tris@[p] == face_of(polygons@[p])
            &&& forall|p: int|
                0 <= p < tris@.len() ==> tri_in_range(#[trigger] tris@[p], positions, textures, normals)
        },
{
    let mut tris: Vec<MeshTri> = Vec::new();
    let mut p: usize = 0;
    while p < polygons.len()
        invariant
            p <= polygons@.len(),
            polygons_complete(polygons@, positions, textures, normals),
            tris@.len() == p,
            forall|q: int| 0 <= q < p ==> (#[trigger] polygons@[q]).corners@.len() == 3,
            forall|q: int| 0 <= q < p ==> #[trigger] tris@[q] == face_of(polygons@[q]),
            forall|q: int|
                0 <= q < p ==> tri_in_range(#[trigger] tris@[q], positions, textures, normals),
        decreases polygons@.len() - p,
    {
        let polygon = &polygons[p];
        if polygon.corners.len() != 3 {
            return Err(MeshError::UntriangulatedError);
        }
        let c0 = polygon.corners[0];
        let c1 = polygon.corners[1];
        let c2 = polygon.corners[2];
        proof {
            assert(triangles_through(polygons@, p as int));
            assert(corner_complete(polygons@[p as int].corners@[0], positions, textures, normals));
            assert(corner_complete(polygons@[p as int].corners@[1], positions, textures, normals));
            assert(corner_complete(polygons@[p as int].corners@[2], positions, textures, normals));
        }
        let tri = MeshTri {
            vertex_indices: (c0.position, c1.position, c2.position),
            normal_indices: (c0.normal.unwrap(), c1.normal.unwrap(), c2.normal.unwrap()),
            texture_indices: (c0.texture.unwrap(), c1.texture.unwrap(), c2.texture.unwrap()),
            material_index: polygon.group,
        };
        tris.push(tri);
        p = p + 1;
    }
    Ok(tris)
}

} // verus!
