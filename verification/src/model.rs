//! Models: geometry re-indexed for drawing.
//!
//! Imported geometry names each corner of a primitive by a triple of indices
//! (position, texture coordinate, normal). Drawing wants one vertex per
//! distinct triple and a list of vertex indices: this module computes both.

use vstd::prelude::*;
use std::collections::BTreeMap;
use crate::resource::LoadError;

verus! {

/// Indices of a corner as imported: position, then the optional texture
/// coordinate, then the optional normal.
pub type VTNIndex = (usize, Option<usize>, Option<usize>);

/// An imported primitive.
#[derive(Clone, Copy, Debug, PartialEq, Eq)]
pub enum Primitive {
    Point(VTNIndex),
    Line(VTNIndex, VTNIndex),
    Triangle(VTNIndex, VTNIndex, VTNIndex),
}

/// How the vertices of a part are assembled when it is drawn.
#[derive(Clone, Copy, Debug, PartialEq, Eq, Structural)]
pub enum Mode {
    Point,
    Line,
    Triangle,
}

/// The triple that makes a vertex: position, normal, and the optional
/// texture coordinate.
#[derive(Clone, Copy, Debug, PartialEq, Eq)]
pub struct VertexKey {
    pub position: usize,
    pub normal: usize,
    pub texture: Option<usize>,
}

/// Why geometry cannot be converted.
#[derive(Clone, Copy, Debug, PartialEq, Eq, Structural)]
pub enum ModelError {
    /// A corner has no normal.
    UnsupportedVertex,
    /// The geometry has no primitive.
    NoShape,
}

impl ModelError {
    /// The name of the error, as text.
    pub open spec fn name(self) -> Seq<char> {
        match self {
            ModelError::UnsupportedVertex => "UnsupportedVertex"@,
            ModelError::NoShape => "NoShape"@,
        }
    }

    /// The name of the error, as text.
    pub fn describe(&self) -> (text: String)
        ensures
            text@ == self.name(),
    {
        match self {
            ModelError::UnsupportedVertex => "UnsupportedVertex".to_string(),
            ModelError::NoShape => "NoShape".to_string(),
        }
    }
}

/// One drawable part of a model: its distinct vertices, the vertex index of
/// every corner in drawing order, and the assembly mode.
#[derive(Debug, PartialEq, Eq)]
pub struct Part {
    pub vertices: Vec<VertexKey>,
    pub indices: Vec<usize>,
    pub mode: Mode,
}

impl Part {
    /// A part from its vertices, indices and mode.
    pub fn new(vertices: Vec<VertexKey>, indices: Vec<usize>, mode: Mode) -> (part: Part)
        ensures
            part.vertices == vertices,
            part.indices == indices,
            part.mode == mode,
    {
        Part { vertices, indices, mode }
    }

    /// Whether the part is the conversion of the primitives `shapes`.
    pub open spec fn converts(&self, shapes: Seq<Primitive>) -> bool {
        &&& shapes.len() > 0
        &&& self.mode == mode_of(shapes[0])
        &&& self.vertices@ == distinct_keys(all_keys(shapes))
        &&& self.indices@.len() == all_keys(shapes).len()
        &&& forall|i: int|
            0 <= i < self.indices@.len() ==> (#[trigger] self.indices@[i]) < self.vertices@.len()
                && self.vertices@[self.indices@[i] as int] == all_keys(shapes)[i]
    }
}

/// A model: its parts, in order.
#[derive(Debug, PartialEq, Eq)]
pub struct Model {
    pub parts: Vec<Part>,
}

impl Model {
    /// A model made of the parts.
    pub fn from_parts(parts: Vec<Part>) -> (model: Model)
        ensures
            model.parts == parts,
    {
        Model { parts }
    }
}

impl IntoIterator for Model {
    type Item = Part;

    type IntoIter = std::vec::IntoIter<Part>;

    /// The parts, one after the other, in order.
    fn into_iter(self) -> (iter: std::vec::IntoIter<Part>)
        ensures
            iter == vstd::std_specs::vec::spec_into_iter(self.parts),
    {
        self.parts.into_iter()
    }
}

/// Imported geometry: its primitives, in order.
#[derive(Debug, PartialEq, Eq)]
pub struct Geometry {
    pub shapes: Vec<Primitive>,
}

/// The vertex key of a corner that has a normal.
pub open spec fn key_of(i: VTNIndex) -> VertexKey {
    VertexKey { position: i.0, normal: i.2.unwrap(), texture: i.1 }
}

/// Whether every corner of the primitive has a normal.
pub open spec fn has_normals(prim: Primitive) -> bool {
    match prim {
        Primitive::Point(i) => i.2 is Some,
        Primitive::Line(i, j) => i.2 is Some && j.2 is Some,
        Primitive::Triangle(i, j, k) => i.2 is Some && j.2 is Some && k.2 is Some,
    }
}

/// The vertex keys of the corners of a primitive, in order.
pub open spec fn keys_of(prim: Primitive) -> Seq<VertexKey> {
    match prim {
        Primitive::Point(i) => seq![key_of(i)],
        Primitive::Line(i, j) => seq![key_of(i), key_of(j)],
        Primitive::Triangle(i, j, k) => seq![key_of(i), key_of(j), key_of(k)],
    }
}

/// The assembly mode that fits a primitive.
pub open spec fn mode_of(prim: Primitive) -> Mode {
    match prim {
        Primitive::Point(_) => Mode::Point,
        Primitive::Line(_, _) => Mode::Line,
        Primitive::Triangle(_, _, _) => Mode::Triangle,
    }
}

/// The vertex keys of all corners of the primitives, in drawing order.
pub open spec fn all_keys(shapes: Seq<Primitive>) -> Seq<VertexKey>
    decreases shapes.len(),
{
    if shapes.len() == 0 {
        Seq::empty()
    } else {
        all_keys(shapes.drop_last()) + keys_of(shapes.last())
    }
}

/// The distinct keys of `keys`, each at the place of its first occurrence.
pub open spec fn distinct_keys(keys: Seq<VertexKey>) -> Seq<VertexKey>
    decreases keys.len(),
{
    if keys.len() == 0 {
        Seq::empty()
    } else {
        let before = distinct_keys(keys.drop_last());
        if before.contains(keys.last()) {
            before
        } else {
            before.push(keys.last())
        }
    }
}

/// Why the primitives cannot be converted, if they cannot: there is none, or
/// a corner has no normal.
pub open spec fn geometry_error(shapes: Seq<Primitive>) -> Option<ModelError> {
    if shapes.len() == 0 {
        Some(ModelError::NoShape)
    } else if exists|p: int| 0 <= p < shapes.len() && !has_normals(#[trigger] shapes[p]) {
        Some(ModelError::UnsupportedVertex)
    } else {
        None
    }
}

/// Distinct keys hold no key twice.
pub proof fn lemma_distinct_keys_no_duplicates(keys: Seq<VertexKey>)
    ensures
        distinct_keys(keys).no_duplicates(),
    decreases keys.len(),
{
    if keys.len() > 0 {
        lemma_distinct_keys_no_duplicates(keys.drop_last());
    }
}

/// Convert an imported index triple into a vertex key, raising an error if
/// the normal is missing.
pub fn vtnindex_to_key(i: VTNIndex) -> (r: Result<VertexKey, ModelError>)
    ensures
        r == (if i.2 is Some {
            Ok::<VertexKey, ModelError>(key_of(i))
        } else {
            Err(ModelError::UnsupportedVertex)
        }),
{
    match i {
        (pi, ti, Some(ni)) => Ok(VertexKey { position: pi, normal: ni, texture: ti }),
        _ => Err(ModelError::UnsupportedVertex),
    }
}

/// Create the vertex keys of a primitive. If any corner lacks its normal,
/// `ModelError::UnsupportedVertex` is returned instead.
pub fn create_keys_from_primitive(prim: Primitive) -> (r: Result<Vec<VertexKey>, ModelError>)
    ensures
        match r {
            Ok(keys) => has_normals(prim) && keys@ == keys_of(prim),
            Err(e) => !has_normals(prim) && e == ModelError::UnsupportedVertex,
        },
{
    let mut keys: Vec<VertexKey> = Vec::new();
    match prim {
        Primitive::Point(i) => {
            let a = vtnindex_to_key(i)?;
            keys.push(a);
        },
        Primitive::Line(i, j) => {
            let a = vtnindex_to_key(i)?;
            let b = vtnindex_to_key(j)?;
            keys.push(a);
            keys.push(b);
        },
        Primitive::Triangle(i, j, k) => {
            let a = vtnindex_to_key(i)?;
            let b = vtnindex_to_key(j)?;
            let c = vtnindex_to_key(k)?;
            keys.push(a);
            keys.push(b);
            keys.push(c);
        },
    }
    proof {
        assert(keys@ =~= keys_of(prim));
    }
    Ok(keys)
}

/// The assembly mode that fits a primitive.
pub fn guess_mode(prim: Primitive) -> (mode: Mode)
    ensures
        mode == mode_of(prim),
{
    match prim {
        Primitive::Point(_) => Mode::Point,
        Primitive::Line(_, _) => Mode::Line,
        Primitive::Triangle(_, _, _) => Mode::Triangle,
    }
}

/// The key as a triple, the form in which vertices are looked up.
pub open spec fn triple_of(key: VertexKey) -> (usize, usize, Option<usize>) {
    (key.position, key.normal, key.texture)
}

/// Whether `index_map` gives each vertex its index, and knows no other
/// triple.
pub open spec fn indexes(
    index_map: Map<(usize, usize, Option<usize>), usize>,
    vertices: Seq<VertexKey>,
) -> bool {
    &&& forall|i: int|
        0 <= i < vertices.len() ==> index_map.dom().contains(triple_of(#[trigger] vertices[i]))
    &&& forall|t: (usize, usize, Option<usize>)| #[trigger]
        index_map.dom().contains(t) ==> index_map[t] < vertices.len() && triple_of(
            vertices[index_map[t] as int],
        ) == t
}

/// Convert imported primitives into distinct vertices and the vertex index
/// of every corner. The indices are regenerated on the fly: a triple seen
/// before keeps the index it was given, a new one gets the next index.
pub fn convert_geometry(shapes: &Vec<Primitive>) -> (r: Result<Part, ModelError>)
    ensures
        match r {
            Ok(part) => geometry_error(shapes@) is None && part.converts(shapes@),
            Err(e) => geometry_error(shapes@) == Some(e),
        },
{
    if shapes.len() == 0 {
        return Err(ModelError::NoShape);
    }
    let mut vertices: Vec<VertexKey> = Vec::new();
    let mut indices: Vec<usize> = Vec::new();
    let mut index_map: BTreeMap<(usize, usize, Option<usize>), usize> = BTreeMap::new();
    let mode = guess_mode(shapes[0]);
    let ghost mut seen: Seq<VertexKey> = Seq::empty();

    let mut p: usize = 0;
    while p < shapes.len()
        invariant
            p <= shapes.len(),
            forall|q: int| 0 <= q < p ==> has_normals(#[trigger] shapes@[q]),
            seen == all_keys(shapes@.take(p as int)),
            vertices@ == distinct_keys(seen),
            indexes(index_map@, vertices@),
            indices@.len() == seen.len(),
            forall|i: int|
                0 <= i < indices@.len() ==> (#[trigger] indices@[i]) < vertices@.len()
                    && vertices@[indices@[i] as int] == seen[i],
        decreases shapes.len() - p,
    {
        let keys = match create_keys_from_primitive(shapes[p]) {
            Ok(keys) => keys,
            Err(e) => {
                return Err(e);
            },
        };
        let ghost base = seen;
        let mut k: usize = 0;
        while k < keys.len()
            invariant
                k <= keys.len(),
                seen == base + keys@.take(k as int),
                vertices@ == distinct_keys(seen),
                indexes(index_map@, vertices@),
                indices@.len() == seen.len(),
                forall|i: int|
                    0 <= i < indices@.len() ==> (#[trigger] indices@[i]) < vertices@.len()
                        && vertices@[indices@[i] as int] == seen[i],
            decreases keys.len() - k,
        {
            let key = keys[k];
            let ghost next = seen.push(key);
            proof {
                assert(next.drop_last() =~= seen);
                assert(next =~= base + keys@.take(k + 1));
            }
            let triple = (key.position, key.normal, key.texture);
            let ghost known = vertices@;
            let ghost mapped = index_map@;
            match index_map.get(&triple) {
                Some(index) => {
                    // that triplet already exists; just append the index
                    proof {
                        assert(known[*index as int] == key);
                    }
                    indices.push(*index);
                },
                None => {
                    // this is a new, not yet discovered triplet; create the
                    // corresponding vertex and map the triplet to its index
                    proof {
                        if known.contains(key) {
                            let i = choose|i: int| 0 <= i < known.len() && known[i] == key;
                            assert(mapped.dom().contains(triple_of(known[i])));
                        }
                    }
                    let index = vertices.len();
                    vertices.push(key);
                    indices.push(index);
                    index_map.insert(triple, index);
                    proof {
                        assert forall|i: int| 0 <= i < vertices@.len() implies index_map@.dom().contains(
                            triple_of(#[trigger] vertices@[i]),
                        ) by {
                            if i < known.len() {
                                assert(mapped.dom().contains(triple_of(known[i])));
                            }
                        }
                        assert forall|t: (usize, usize, Option<usize>)| #[trigger]
                            index_map@.dom().contains(t) implies index_map@[t] < vertices@.len()
                            && triple_of(vertices@[index_map@[t] as int]) == t by {
                            if t != triple {
                                assert(mapped.dom().contains(t));
                            }
                        }
                    }
                },
            }
            proof {
                seen = next;
            }
            k += 1;
        }
        proof {
            assert(keys@.take(k as int) =~= keys@);
            assert(shapes@.take(p + 1).drop_last() =~= shapes@.take(p as int));
        }
        p += 1;
    }
    proof {
        assert(shapes@.take(p as int) =~= shapes@);
    }
    Ok(Part::new(vertices, indices, mode))
}

/// Whether part `g` is the conversion of geometry `g`.
pub open spec fn part_converts(geometries: Seq<Geometry>, parts: Seq<Part>, g: int) -> bool {
    geometry_error(geometries[g].shapes@) is None && parts[g].converts(geometries[g].shapes@)
}

/// Whether a geometry before place `g` cannot be converted.
pub open spec fn fails_before(geometries: Seq<Geometry>, g: int) -> bool {
    exists|h: int| 0 <= h < g && geometry_error((#[trigger] geometries[h]).shapes@) is Some
}

/// Whether geometry `g` is the first that cannot be converted, and `e` says
/// why it cannot.
pub open spec fn first_failure(geometries: Seq<Geometry>, g: int, e: ModelError) -> bool {
    &&& 0 <= g < geometries.len()
    &&& geometry_error(geometries[g].shapes@) == Some(e)
    &&& !fails_before(geometries, g)
}

/// Turn imported geometries into a `Model` with one part for each, in
/// order; the error of the first geometry that cannot be converted otherwise.
pub fn convert_obj(geometries: &Vec<Geometry>) -> (r: Result<Model, ModelError>)
    ensures
        match r {
            Ok(model) => {
                &&& model.parts@.len() == geometries@.len()
                &&& forall|g: int|
                    0 <= g < geometries@.len() ==> #[trigger] part_converts(geometries@, model.parts@, g)
            },
            Err(e) => exists|g: int| #[trigger] first_failure(geometries@, g, e),
        },
{
    let mut parts: Vec<Part> = Vec::new();
    let mut g: usize = 0;
    while g < geometries.len()
        invariant
            g <= geometries.len(),
            parts@.len() == g,
            forall|h: int| 0 <= h < g ==> #[trigger] part_converts(geometries@, parts@, h),
        decreases geometries.len() - g,
    {
        let ghost done = parts@;
        match convert_geometry(&geometries[g].shapes) {
            Ok(part) => {
                parts.push(part);
            },
            Err(e) => {
                proof {
                    if fails_before(geometries@, g as int) {
                        let h = choose|h: int|
                            0 <= h < g && geometry_error((#[trigger] geometries@[h]).shapes@) is Some;
                        assert(part_converts(geometries@, parts@, h));
                    }
                    assert(first_failure(geometries@, g as int, e));
                }
                return Err(e);
            },
        }
        proof {
            assert forall|h: int| 0 <= h < g + 1 implies #[trigger] part_converts(
                geometries@,
                parts@,
                h,
            ) by {
                if h < g {
                    assert(part_converts(geometries@, done, h));
                    assert(parts@[h] == done[h]);
                }
            }
        }
        g += 1;
    }
    Ok(Model::from_parts(parts))
}

/// Converts imported geometries as [`convert_obj`] does, and reports a
/// failure as a load error that carries the name of the model error.
pub fn load_model(geometries: &Vec<Geometry>) -> (r: Result<Model, LoadError>)
    ensures
        match r {
            Ok(model) => {
                &&& model.parts@.len() == geometries@.len()
                &&& forall|g: int|
                    0 <= g < geometries@.len() ==> #[trigger] part_converts(geometries@, model.parts@, g)
            },
            Err(LoadError::ConversionFailed(reason)) => exists|g: int, e: ModelError|
                #[trigger] first_failure(geometries@, g, e) && reason@ == e.name(),
            Err(_) => false,
        },
{
    match convert_obj(geometries) {
        Ok(model) => Ok(model),
        Err(e) => {
            proof {
                let g = choose|g: int| #[trigger] first_failure(geometries@, g, e);
                assert(first_failure(geometries@, g, e));
            }
            Err(LoadError::ConversionFailed(e.describe()))
        },
    }
}

} // verus!
