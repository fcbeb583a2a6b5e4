//! Turning the mesh of a COLLADA document into vertex data the renderer can use.
//!
//! A COLLADA `<mesh>` keeps each vertex attribute (position, normal, texture coordinates) in a
//! `<source>` array of its own, and a `<triangles>` element lists, for every vertex, one index
//! into the sources per `<input>`. The indices of a vertex are grouped together: with `n` inputs,
//! the `i`-th input's index of vertex `v` is `p[v * n + i]`. This module resolves which source
//! each input reads and regroups the indices per vertex, so that the attribute values of every
//! vertex can be gathered in the order of the positions. The document itself is parsed
//! elsewhere; the types here hold the parts of it that decide the layout.

use std::collections::HashMap;
use vstd::prelude::*;
use vstd::string::StringExecFns;

verus! {

/// Why a COLLADA mesh cannot be turned into vertex data.
#[derive(Debug, Clone, PartialEq, Eq)]
pub enum Error {
    IncorrectPrimitiveIndicesCount { primitive_count: usize, stride: usize, index_count: usize },
    /// Indicates that there was an input with the "NORMAL" semantic but the associated source
    /// was missing.
    MissingNormalSource,
    /// Indicates that an `<input>` element specified a `<source>` element that was missing.
    MissingSourceData,
    /// Indicates that the `<source>` element with the "POSITION" semantic was missing an array
    /// element.
    MissingPositionData,
    /// Indicates that the `<source>` element with the "NORMAL" semantic was missing an array
    /// element.
    MissingNormalData,
    /// Indicates that a `<vertices>` element had an `<input>` element with no "POSITION"
    /// semantic.
    MissingPositionSemantic,
    /// Indicates that the `<mesh>` had no primitive elements.
    MissingPrimitiveElement,
    /// Indicates that the primitive element had no `<p>` child element.
    MissingPrimitiveIndices,
    UnsupportedGeometricElement,
    UnsupportedPrimitiveType,
    /// Indicates that a `<source>` element's array element was of a type other than
    /// `<float_array>`.
    UnsupportedSourceData,
}

/// An `<input>` element: which attribute it supplies and the id of the source holding it.
#[derive(Debug, Clone)]
pub struct Input {
    pub semantic: String,
    pub source: String,
}

/// The kind of array a `<source>` element holds.
#[derive(Debug, Clone, Copy, PartialEq, Eq, Structural)]
pub enum ArrayElement {
    Float,
    Other,
}

/// A `<source>` element: its id and the kind of its array, if it has one.
#[derive(Debug, Clone)]
pub struct Source {
    pub id: String,
    pub array_element: Option<ArrayElement>,
}

/// A `<triangles>` element: its inputs, the number of triangles and the indices.
#[derive(Debug, Clone)]
pub struct Triangles {
    pub input: Vec<Input>,
    pub count: usize,
    pub p: Option<Vec<usize>>,
}

/// A primitive element of a mesh; only triangles are supported.
#[derive(Debug, Clone)]
pub enum PrimitiveElements {
    Triangles(Triangles),
    Other,
}

/// A `<mesh>` element: its sources, the inputs of its `<vertices>` element and its primitive
/// elements.
#[derive(Debug, Clone)]
pub struct Mesh {
    pub source: Vec<Source>,
    pub vertices: Vec<Input>,
    pub primitive_elements: Vec<PrimitiveElements>,
}

/// The geometric element of a `<geometry>`; only meshes are supported.
#[derive(Debug, Clone)]
pub enum GeometricElement {
    Mesh(Mesh),
    Other,
}

#[derive(Debug, Clone)]
pub struct Geometry {
    pub geometric_element: GeometricElement,
}

/// The vertex attributes the renderer uses.
#[derive(Debug, Clone, Copy, PartialEq, Eq, Structural)]
pub enum VertexSemantic {
    Position,
    Normal,
    TexCoord,
}

/// One attribute read for every vertex: which input offset holds its index, the attribute's
/// semantic (`None` for semantics the renderer does not use) and the index of its source.
#[derive(Debug, Clone)]
pub struct IndexMapper {
    pub offset: usize,
    pub name: String,
    pub semantic: Option<VertexSemantic>,
    pub source: usize,
}

/// The vertex data of a mesh: the attributes every vertex reads, for each vertex the index of
/// each attribute's value in its source, and the vertex indices of the triangles.
#[derive(Debug, Clone)]
pub struct MeshLayout {
    pub attributes: Vec<IndexMapper>,
    pub vertices: Vec<Vec<usize>>,
    pub indices: Vec<u32>,
}

/// The renderer's name for each supported semantic.
pub open spec fn semantic_of(name: Seq<char>) -> Option<VertexSemantic> {
    if name == "POSITION"@ {
        Some(VertexSemantic::Position)
    } else if name == "NORMAL"@ {
        Some(VertexSemantic::Normal)
    } else if name == "TEXCOORD"@ {
        Some(VertexSemantic::TexCoord)
    } else {
        None
    }
}

/// The index of the first source at or after `i` among `sources` whose id is `id`.
pub open spec fn find_source(sources: Seq<Source>, id: Seq<char>, i: int) -> Option<int>
    decreases sources.len() - i,
{
    if i < 0 || i >= sources.len() {
        None
    } else if sources[i].id@ == id {
        Some(i)
    } else {
        find_source(sources, id, i + 1)
    }
}

/// The source an input with semantic `semantic` and source id `id` reads: it must exist and
/// hold a float array. For a `NORMAL` input a missing source is reported as a missing normal
/// source and a missing array as missing normal data; for any other input, as missing source
/// data and missing position data.
pub open spec fn resolve_source(sources: Seq<Source>, semantic: Seq<char>, id: Seq<char>) -> Result<int, Error> {
    match find_source(sources, id, 0) {
        None => if semantic == "NORMAL"@ {
            Err(Error::MissingNormalSource)
        } else {
            Err(Error::MissingSourceData)
        },
        Some(i) => match sources[i].array_element {
            None => if semantic == "NORMAL"@ {
                Err(Error::MissingNormalData)
            } else {
                Err(Error::MissingPositionData)
            },
            Some(ArrayElement::Float) => Ok(i),
            Some(ArrayElement::Other) => Err(Error::UnsupportedSourceData),
        },
    }
}

/// An attribute as the specification sees it.
pub struct MapperView {
    pub offset: int,
    pub name: Seq<char>,
    pub source: int,
}

/// The `(semantic, source id)` pairs an input at some offset stands for: a `VERTEX` input
/// stands for every input of the `<vertices>` element, any other input for itself.
pub open spec fn input_refs(vertices: Seq<Input>, input: Input) -> Seq<(Seq<char>, Seq<char>)> {
    if input.semantic@ == "VERTEX"@ {
        vertices.map_values(|i: Input| (i.semantic@, i.source@))
    } else {
        seq![(input.semantic@, input.source@)]
    }
}

/// A `VERTEX` input stands for every input of the `<vertices>` element, in order: one pair per
/// `<vertices>` input, the `i`-th with that input's semantic and source. Any other input stands
/// for itself alone.
pub proof fn lemma_vertex_input_stands_for_vertices(vertices: Seq<Input>, input: Input)
    ensures
        input.semantic@ == "VERTEX"@ ==> input_refs(vertices, input).len() == vertices.len(),
        input.semantic@ == "VERTEX"@ ==> forall|i: int|
            0 <= i < vertices.len() ==> (#[trigger] input_refs(vertices, input)[i]).0 == vertices[i].semantic@
                && input_refs(vertices, input)[i].1 == vertices[i].source@,
        input.semantic@ != "VERTEX"@ ==> input_refs(vertices, input).len() == 1,
        input.semantic@ != "VERTEX"@ ==> input_refs(vertices, input)[0] == (input.semantic@, input.source@),
{
}

/// The source that `find_source` finds comes at or after where the search starts, lies among
/// the sources, and has the id searched for.
pub proof fn lemma_find_source_finds_id(sources: Seq<Source>, id: Seq<char>, i: int)
    ensures
        find_source(sources, id, i) matches Some(j) ==> i <= j < sources.len() && sources[j].id@ == id,
    decreases sources.len() - i,
{
    if 0 <= i < sources.len() && sources[i].id@ != id {
        lemma_find_source_finds_id(sources, id, i + 1);
    }
}

/// Reading the pairs `refs` at `offset` gives one attribute per pair, in order: the `i`-th at
/// `offset`, named by the `i`-th pair's semantic, reading a source that holds a float array and
/// whose id is the `i`-th pair's source id.
pub proof fn lemma_mappers_follow_refs(sources: Seq<Source>, offset: int, refs: Seq<(Seq<char>, Seq<char>)>)
    ensures
        mappers_for(sources, offset, refs) matches Ok(ms) ==> {
            &&& ms.len() == refs.len()
            &&& forall|i: int|
                0 <= i < refs.len() ==> {
                    &&& (#[trigger] ms[i]).offset == offset
                    &&& ms[i].name == refs[i].0
                    &&& 0 <= ms[i].source < sources.len()
                    &&& sources[ms[i].source].id@ == refs[i].1
                    &&& sources[ms[i].source].array_element == Some(ArrayElement::Float)
                }
        },
    decreases refs.len(),
{
    if refs.len() > 0 {
        lemma_mappers_follow_refs(sources, offset, refs.drop_last());
        lemma_find_source_finds_id(sources, refs.last().1, 0);
        if let Ok(ms) = mappers_for(sources, offset, refs) {
            let before = mappers_for(sources, offset, refs.drop_last())->Ok_0;
            assert forall|i: int| 0 <= i < refs.len() implies {
                &&& (#[trigger] ms[i]).offset == offset
                &&& ms[i].name == refs[i].0
                &&& 0 <= ms[i].source < sources.len()
                &&& sources[ms[i].source].id@ == refs[i].1
                &&& sources[ms[i].source].array_element == Some(ArrayElement::Float)
            } by {
                if i < refs.len() - 1 {
                    assert(ms[i] == before[i]);
                    assert(refs[i] == refs.drop_last()[i]);
                }
            }
        }
    }
}

/// The attributes for the pairs `refs`, all read at `offset`, in order; the first pair whose
/// source cannot be read gives the error.
pub open spec fn mappers_for(sources: Seq<Source>, offset: int, refs: Seq<(Seq<char>, Seq<char>)>) -> Result<Seq<MapperView>, Error>
    decreases refs.len(),
{
    if refs.len() == 0 {
        Ok(Seq::empty())
    } else {
        match mappers_for(sources, offset, refs.drop_last()) {
            Err(e) => Err(e),
            Ok(before) => match resolve_source(sources, refs.last().0, refs.last().1) {
                Err(e) => Err(e),
                Ok(source) => Ok(before.push(MapperView { offset, name: refs.last().0, source })),
            },
        }
    }
}

/// The attributes of the primitive inputs `inputs`, the `k`-th input giving offset `k`.
pub open spec fn source_map(mesh: Mesh, inputs: Seq<Input>) -> Result<Seq<MapperView>, Error>
    decreases inputs.len(),
{
    if inputs.len() == 0 {
        Ok(Seq::empty())
    } else {
        match source_map(mesh, inputs.drop_last()) {
            Err(e) => Err(e),
            Ok(before) => match mappers_for(
                mesh.source@,
                inputs.len() - 1,
                input_refs(mesh.vertices@, inputs.last()),
            ) {
                Err(e) => Err(e),
                Ok(more) => Ok(before + more),
            },
        }
    }
}

/// The number of attributes that the primitive inputs `inputs` give: a `VERTEX` input gives one
/// per `<vertices>` input, any other input gives one.
pub open spec fn attribute_count(vertex_inputs: nat, inputs: Seq<Input>) -> nat
    decreases inputs.len(),
{
    if inputs.len() == 0 {
        0
    } else {
        attribute_count(vertex_inputs, inputs.drop_last()) + if inputs.last().semantic@ == "VERTEX"@ {
            vertex_inputs
        } else {
            1
        }
    }
}

/// The attributes of the primitive inputs come input by input: there are as many as the
/// inputs give (a `VERTEX` input one per `<vertices>` input), and each is read at the offset of
/// one of the inputs.
pub proof fn lemma_source_map_counts(mesh: Mesh, inputs: Seq<Input>)
    ensures
        source_map(mesh, inputs) matches Ok(ms) ==> {
            &&& ms.len() == attribute_count(mesh.vertices@.len(), inputs)
            &&& forall|i: int| 0 <= i < ms.len() ==> 0 <= (#[trigger] ms[i]).offset < inputs.len()
        },
    decreases inputs.len(),
{
    if inputs.len() > 0 {
        lemma_source_map_counts(mesh, inputs.drop_last());
        let refs = input_refs(mesh.vertices@, inputs.last());
        lemma_vertex_input_stands_for_vertices(mesh.vertices@, inputs.last());
        lemma_mappers_follow_refs(mesh.source@, inputs.len() - 1, refs);
        if let Ok(ms) = source_map(mesh, inputs) {
            let before = source_map(mesh, inputs.drop_last())->Ok_0;
            let more = mappers_for(mesh.source@, inputs.len() - 1, refs)->Ok_0;
            assert(ms == before + more);
            assert forall|i: int| 0 <= i < ms.len() implies 0 <= (#[trigger] ms[i]).offset < inputs.len() by {
                if i < before.len() {
                    assert(ms[i] == before[i]);
                } else {
                    assert(ms[i] == more[i - before.len()]);
                }
            }
        }
    }
}

/// `layout` is the vertex data for `mappers` over the triangles `t` with indices `p`.
pub open spec fn layout_matches(layout: MeshLayout, mappers: Seq<MapperView>, t: Triangles, p: Seq<usize>) -> bool {
    let stride = t.input@.len();
    let vertex_count = t.count * 3;
    &&& layout.attributes@.len() == mappers.len()
    &&& forall|a: int|
        0 <= a < mappers.len() ==> {
            let m = #[trigger] layout.attributes@[a];
            &&& m.offset == mappers[a].offset
            &&& m.name@ == mappers[a].name
            &&& m.semantic == semantic_of(mappers[a].name)
            &&& m.source == mappers[a].source
        }
    &&& layout.vertices@.len() == vertex_count
    &&& forall|v: int|
        0 <= v < vertex_count ==> {
            let vertex = #[trigger] layout.vertices@[v];
            &&& vertex@.len() == mappers.len()
            &&& forall|a: int|
                0 <= a < mappers.len() ==> #[trigger] vertex@[a] == p[v * stride + mappers[a].offset]
        }
    &&& layout.indices@.len() == vertex_count
    &&& forall|v: int| 0 <= v < vertex_count ==> #[trigger] layout.indices@[v] == v
}

/// A mesh whose only triangles element has no inputs and an empty index list cannot be
/// regrouped: there is no group size to split the indices by.
pub open spec fn has_empty_inputs(mesh: Mesh) -> bool {
    &&& mesh.primitive_elements@.len() > 0
    &&& mesh.primitive_elements@[0] matches PrimitiveElements::Triangles(t)
    &&& t.input@.len() == 0
    &&& t.p matches Some(p) && p@.len() == 0
}

/// The vertices of a mesh whose index count matches its triangles fit the 32-bit vertex indices
/// of the renderer.
pub open spec fn fits_index_range(mesh: Mesh) -> bool {
    mesh.primitive_elements@.len() > 0 ==> (mesh.primitive_elements@[0] matches PrimitiveElements::Triangles(t)
        ==> (t.p matches Some(p) && t.count * t.input@.len() * 3 == p@.len() ==> t.count * 3 <= u32::MAX))
}

/// The attributes of a mesh's vertices, or why the mesh cannot be turned into vertex data: the
/// first primitive element must be triangles with indices, `count * inputs * 3` of them, and
/// every input's source must hold a float array.
pub open spec fn collada_mappers(mesh: Mesh) -> Result<Seq<MapperView>, Error> {
    if mesh.primitive_elements@.len() == 0 {
        Err(Error::MissingPrimitiveElement)
    } else {
        match mesh.primitive_elements@[0] {
            PrimitiveElements::Other => Err(Error::UnsupportedPrimitiveType),
            PrimitiveElements::Triangles(t) => match t.p {
                None => Err(Error::MissingPrimitiveIndices),
                Some(p) => if t.count * t.input@.len() * 3 != p@.len() {
                    Err(
                        Error::IncorrectPrimitiveIndicesCount {
                            primitive_count: t.count,
                            stride: t.input@.len() as usize,
                            index_count: p@.len() as usize,
                        },
                    )
                } else {
                    source_map(mesh, t.input@)
                },
            },
        }
    }
}

/// The specification's view of an attribute.
pub open spec fn mapper_view(m: IndexMapper) -> MapperView {
    MapperView { offset: m.offset as int, name: m.name@, source: m.source as int }
}

/// An error found among the first `k` inputs is the error of all of them.
proof fn lemma_source_map_prefix(mesh: Mesh, inputs: Seq<Input>, k: int)
    requires
        0 <= k <= inputs.len(),
        source_map(mesh, inputs.take(k)) is Err,
    ensures
        source_map(mesh, inputs) == source_map(mesh, inputs.take(k)),
    decreases inputs.len(),
{
    if k < inputs.len() {
        assert(inputs.drop_last().take(k) =~= inputs.take(k));
        lemma_source_map_prefix(mesh, inputs.drop_last(), k);
    } else {
        assert(inputs.take(k) =~= inputs);
    }
}

/// An error found among the first `k` pairs is the error of all of them.
proof fn lemma_mappers_for_prefix(sources: Seq<Source>, offset: int, refs: Seq<(Seq<char>, Seq<char>)>, k: int)
    requires
        0 <= k <= refs.len(),
        mappers_for(sources, offset, refs.take(k)) is Err,
    ensures
        mappers_for(sources, offset, refs) == mappers_for(sources, offset, refs.take(k)),
    decreases refs.len(),
{
    if k < refs.len() {
        assert(refs.drop_last().take(k) =~= refs.take(k));
        lemma_mappers_for_prefix(sources, offset, refs.drop_last(), k);
    } else {
        assert(refs.take(k) =~= refs);
    }
}

/// A source found at or after `k` lies in `k..sources.len()`.
proof fn lemma_find_source_range(sources: Seq<Source>, id: Seq<char>, k: int)
    ensures
        find_source(sources, id, k) matches Some(i) ==> k <= i < sources.len(),
    decreases sources.len() - k,
{
    if 0 <= k < sources.len() && sources[k].id@ != id {
        lemma_find_source_range(sources, id, k + 1);
    }
}

/// The index of the first source whose id is `id`.
fn find_source_index(sources: &Vec<Source>, id: &String) -> (found: Option<usize>)
    ensures
        match found {
            Some(i) => find_source(sources@, id@, 0) == Some(i as int) && i < sources@.len(),
            None => find_source(sources@, id@, 0) is None,
        },
{
    let mut i: usize = 0;
    while i < sources.len()
        invariant
            i <= sources@.len(),
            find_source(sources@, id@, 0) == find_source(sources@, id@, i as int),
        decreases sources@.len() - i,
    {
        if sources[i].id == *id {
            return Some(i);
        }
        i = i + 1;
    }
    None
}

/// The source that an input with semantic `semantic` reading source id `id` uses.
fn resolve_source_index(sources: &Vec<Source>, semantic: &String, id: &String) -> (result: Result<usize, Error>)
    ensures
        match result {
            Ok(i) => resolve_source(sources@, semantic@, id@) == Ok::<int, Error>(i as int),
            Err(e) => resolve_source(sources@, semantic@, id@) == Err::<int, Error>(e),
        },
{
    proof {
        lemma_find_source_range(sources@, id@, 0);
    }
    let is_normal = *semantic == String::from_str("NORMAL");
    match find_source_index(sources, id) {
        None => if is_normal {
            Err(Error::MissingNormalSource)
        } else {
            Err(Error::MissingSourceData)
        },
        Some(i) => match sources[i].array_element {
            None => if is_normal {
                Err(Error::MissingNormalData)
            } else {
                Err(Error::MissingPositionData)
            },
            Some(ArrayElement::Float) => Ok(i),
            Some(ArrayElement::Other) => Err(Error::UnsupportedSourceData),
        },
    }
}

/// The renderer's semantic for an attribute named `name`.
fn semantic_named(name: &String) -> (semantic: Option<VertexSemantic>)
    ensures
        semantic == semantic_of(name@),
{
    if *name == String::from_str("POSITION") {
        Some(VertexSemantic::Position)
    } else if *name == String::from_str("NORMAL") {
        Some(VertexSemantic::Normal)
    } else if *name == String::from_str("TEXCOORD") {
        Some(VertexSemantic::TexCoord)
    } else {
        None
    }
}

/// Appends the attributes of the input at `offset`, which stands for the pairs
/// `input_refs(vertices, input)`, to `mappers`.
fn push_input_mappers(
    mesh: &Mesh,
    input: &Input,
    offset: usize,
    mappers: &mut Vec<IndexMapper>,
) -> (result: Result<(), Error>)
    ensures
        match mappers_for(mesh.source@, offset as int, input_refs(mesh.vertices@, *input)) {
            Err(e) => result == Err::<(), Error>(e),
            Ok(more) => {
                &&& result is Ok
                &&& final(mappers)@.map_values(|m: IndexMapper| mapper_view(m)) == old(
                    mappers,
                )@.map_values(|m: IndexMapper| mapper_view(m)) + more
                &&& final(mappers)@.len() == old(mappers)@.len() + more.len()
                &&& forall|a: int|
                    0 <= a < old(mappers)@.len() ==> #[trigger] final(mappers)@[a] == old(
                        mappers,
                    )@[a]
                &&& forall|a: int|
                    old(mappers)@.len() <= a < final(mappers)@.len() ==> {
                        &&& (#[trigger] final(mappers)@[a]).offset == offset
                        &&& final(mappers)@[a].semantic == semantic_of(final(mappers)@[a].name@)
                    }
            },
        },
{
    let ghost refs = input_refs(mesh.vertices@, *input);
    let ghost start = mappers@;
    let mut pairs: Vec<(String, String)> = Vec::new();
    if input.semantic == String::from_str("VERTEX") {
        let mut j: usize = 0;
        while j < mesh.vertices.len()
            invariant
                j <= mesh.vertices@.len(),
                pairs@.len() == j,
                forall|k: int|
                    0 <= k < j ==> (#[trigger] pairs@[k]).0@ == mesh.vertices@[k].semantic@
                        && pairs@[k].1@ == mesh.vertices@[k].source@,
            decreases mesh.vertices@.len() - j,
        {
            let vertex_input = &mesh.vertices[j];
            pairs.push((vertex_input.semantic.clone(), vertex_input.source.clone()));
            j = j + 1;
        }
    } else {
        pairs.push((input.semantic.clone(), input.source.clone()));
    }
    assert(pairs@.len() == refs.len());
    assert(forall|k: int| 0 <= k < refs.len() ==> (#[trigger] pairs@[k]).0@ == refs[k].0 && pairs@[k].1@ == refs[k].1);
    let mut k: usize = 0;
    while k < pairs.len()
        invariant
            k <= pairs@.len(),
            refs == input_refs(mesh.vertices@, *input),
            start == old(mappers)@,
            pairs@.len() == refs.len(),
            forall|q: int| 0 <= q < refs.len() ==> (#[trigger] pairs@[q]).0@ == refs[q].0 && pairs@[q].1@ == refs[q].1,
            mappers_for(mesh.source@, offset as int, refs.take(k as int)) matches Ok(done) && {
                &&& mappers@.map_values(|m: IndexMapper| mapper_view(m)) == start.map_values(
                    |m: IndexMapper| mapper_view(m),
                ) + done
                &&& mappers@.len() == start.len() + done.len()
            },
            forall|a: int| 0 <= a < start.len() ==> #[trigger] mappers@[a] == start[a],
            forall|a: int|
                start.len() <= a < mappers@.len() ==> {
                    &&& (#[trigger] mappers@[a]).offset == offset
                    &&& mappers@[a].semantic == semantic_of(mappers@[a].name@)
                },
        decreases pairs@.len() - k,
    {
        let ghost before = mappers@;
        let ghost done = match mappers_for(mesh.source@, offset as int, refs.take(k as int)) {
            Ok(d) => d,
            Err(_) => Seq::empty(),
        };
        assert(refs.take(k + 1).drop_last() =~= refs.take(k as int));
        assert(refs.take(k + 1).last() == refs[k as int]);
        match resolve_source_index(&mesh.source, &pairs[k].0, &pairs[k].1) {
            Err(e) => {
                proof {
                    lemma_mappers_for_prefix(mesh.source@, offset as int, refs, k + 1);
                }
                return Err(e);
            },
            Ok(source) => {
                let name = pairs[k].0.clone();
                let semantic = semantic_named(&name);
                mappers.push(IndexMapper { offset: offset, name: name, semantic: semantic, source: source });
                proof {
                    let view = MapperView { offset: offset as int, name: refs[k as int].0, source: source as int };
                    assert(mapper_view(mappers@.last()) == view);
                    assert(mappers_for(mesh.source@, offset as int, refs.take(k + 1)) == Ok::<Seq<MapperView>, Error>(done.push(view)));
                    assert(mappers@.map_values(|m: IndexMapper| mapper_view(m)) =~= before.map_values(
                        |m: IndexMapper| mapper_view(m),
                    ).push(view));
                    assert(start.map_values(|m: IndexMapper| mapper_view(m)) + done.push(view) =~= (start.map_values(|m: IndexMapper| mapper_view(m)) + done).push(view));
                    assert forall|a: int| 0 <= a < start.len() implies #[trigger] mappers@[a] == start[a] by {
                        assert(mappers@[a] == before[a]);
                    }
                }
            },
        }
        k = k + 1;
    }
    assert(refs.take(refs.len() as int) =~= refs);
    Ok(())
}

/// Resolves the sources of the inputs of the triangles `t` of `mesh`.
fn collect_mappers(mesh: &Mesh, t: &Triangles) -> (result: Result<Vec<IndexMapper>, Error>)
    ensures
        match source_map(*mesh, t.input@) {
            Err(e) => result == Err::<Vec<IndexMapper>, Error>(e),
            Ok(views) => result matches Ok(mappers) && {
                &&& mappers@.map_values(|m: IndexMapper| mapper_view(m)) == views
                &&& forall|a: int|
                    0 <= a < mappers@.len() ==> {
                        &&& (#[trigger] mappers@[a]).offset < t.input@.len()
                        &&& mappers@[a].semantic == semantic_of(mappers@[a].name@)
                    }
            },
        },
{
    let mut mappers: Vec<IndexMapper> = Vec::new();
    let mut offset: usize = 0;
    assert(t.input@.take(0) =~= Seq::<Input>::empty());
    assert(mappers@.map_values(|m: IndexMapper| mapper_view(m)) =~= Seq::<MapperView>::empty());
    while offset < t.input.len()
        invariant
            offset <= t.input@.len(),
            source_map(*mesh, t.input@.take(offset as int)) == Ok::<Seq<MapperView>, Error>(
                mappers@.map_values(|m: IndexMapper| mapper_view(m)),
            ),
            forall|a: int|
                0 <= a < mappers@.len() ==> {
                    &&& (#[trigger] mappers@[a]).offset < offset
                    &&& mappers@[a].semantic == semantic_of(mappers@[a].name@)
                },
        decreases t.input@.len() - offset,
    {
        let ghost inputs = t.input@.take(offset + 1);
        assert(inputs.drop_last() =~= t.input@.take(offset as int));
        assert(inputs.last() == t.input@[offset as int]);
        let ghost before = mappers@;
        match push_input_mappers(mesh, &t.input[offset], offset, &mut mappers) {
            Err(e) => {
                proof {
                    lemma_source_map_prefix(*mesh, t.input@, offset + 1);
                }
                return Err(e);
            },
            Ok(()) => {
                proof {
                    assert forall|a: int| 0 <= a < mappers@.len() implies {
                        &&& (#[trigger] mappers@[a]).offset < offset + 1
                        &&& mappers@[a].semantic == semantic_of(mappers@[a].name@)
                    } by {
                        if a < before.len() {
                            assert(mappers@[a] == before[a]);
                        }
                    }
                }
            },
        }
        offset = offset + 1;
    }
    assert(t.input@.take(t.input@.len() as int) =~= t.input@);
    Ok(mappers)
}

/// Turns the first primitive element of `mesh` into vertex data: resolves the source of every
/// input, then for each of the `3 * count` vertices gathers the index of every attribute.
pub fn collada_mesh_to_mesh(mesh: &Mesh) -> (result: Result<MeshLayout, Error>)
    requires
        !has_empty_inputs(*mesh),
        fits_index_range(*mesh),
    ensures
        match collada_mappers(*mesh) {
            Err(e) => result == Err::<MeshLayout, Error>(e),
            Ok(mappers) => result matches Ok(layout) && mesh.primitive_elements@[0] matches PrimitiveElements::Triangles(t)
                && t.p matches Some(p) && layout_matches(layout, mappers, t, p@),
        },
{
    if mesh.primitive_elements.len() == 0 {
        return Err(Error::MissingPrimitiveElement);
    }
    let triangles = match &mesh.primitive_elements[0] {
        PrimitiveElements::Triangles(triangles) => triangles,
        PrimitiveElements::Other => {
            return Err(Error::UnsupportedPrimitiveType);
        },
    };
    let primitive_indices = match &triangles.p {
        Some(p) => p,
        None => {
            return Err(Error::MissingPrimitiveIndices);
        },
    };
    let stride = triangles.input.len();
    let count = triangles.count;
    let index_count = primitive_indices.len();
    let expected = match count.checked_mul(stride) {
        Some(n) => n.checked_mul(3),
        None => None,
    };
    let matches_count = match expected {
        Some(n) => n == index_count,
        None => false,
    };
    if !matches_count {
        proof {
            if count * stride * 3 == index_count {
                assert(count * stride <= usize::MAX) by (nonlinear_arith)
                    requires
                        count * stride * 3 == index_count,
                        index_count <= usize::MAX,
                ;
            }
        }
        return Err(
            Error::IncorrectPrimitiveIndicesCount {
                primitive_count: count,
                stride: stride,
                index_count: index_count,
            },
        );
    }
    let mappers = match collect_mappers(mesh, triangles) {
        Ok(mappers) => mappers,
        Err(e) => {
            return Err(e);
        },
    };
    let ghost views = mappers@.map_values(|m: IndexMapper| mapper_view(m));
    let vertex_count = count * 3;
    let mut groups = match GroupBy::new(primitive_indices.as_slice(), stride) {
        Ok(groups) => groups,
        Err(()) => {
            proof {
                // The index count is a multiple of the stride, so grouping cannot fail.
                vstd::arithmetic::div_mod::lemma_mod_multiples_basic(count * 3, stride as int);
                assert(index_count == (count * 3) * stride) by (nonlinear_arith)
                    requires
                        count * stride * 3 == index_count,
                ;
                assert(false);
            }
            return Err(Error::MissingPrimitiveIndices);
        },
    };
    let mut vertices: Vec<Vec<usize>> = Vec::new();
    let mut v: usize = 0;
    while v < vertex_count
        invariant
            v <= vertex_count,
            vertex_count == count * 3,
            stride == triangles.input@.len(),
            stride > 0,
            count * stride * 3 == primitive_indices@.len(),
            groups.elements() == primitive_indices@,
            groups.group_size() == stride,
            groups.next_group() == v,
            vertices@.len() == v,
            views == mappers@.map_values(|m: IndexMapper| mapper_view(m)),
            forall|a: int| 0 <= a < mappers@.len() ==> (#[trigger] mappers@[a]).offset < stride,
            forall|w: int|
                0 <= w < v ==> {
                    let vertex = #[trigger] vertices@[w];
                    &&& vertex@.len() == views.len()
                    &&& forall|a: int|
                        0 <= a < views.len() ==> #[trigger] vertex@[a] == primitive_indices@[w * stride
                            + views[a].offset]
                },
        decreases vertex_count - v,
    {
        proof {
            assert(v * stride + stride <= primitive_indices@.len()) by (nonlinear_arith)
                requires
                    v < count * 3,
                    count * stride * 3 == primitive_indices@.len(),
                    stride > 0,
            ;
        }
        let group = match groups.next() {
            Some(group) => group,
            None => {
                // There is a group for every vertex.
                assert(false);
                return Err(Error::MissingPrimitiveIndices);
            },
        };
        let mut vertex: Vec<usize> = Vec::new();
        let mut a: usize = 0;
        while a < mappers.len()
            invariant
                a <= mappers@.len(),
                group@ == primitive_indices@.subrange(v * stride, v * stride + stride),
                v * stride + stride <= primitive_indices@.len(),
                views == mappers@.map_values(|m: IndexMapper| mapper_view(m)),
                forall|b: int| 0 <= b < mappers@.len() ==> (#[trigger] mappers@[b]).offset < stride,
                vertex@.len() == a,
                forall|b: int|
                    0 <= b < a ==> #[trigger] vertex@[b] == primitive_indices@[v * stride
                        + views[b].offset],
            decreases mappers@.len() - a,
        {
            let offset = mappers[a].offset;
            assert(views[a as int].offset == offset);
            vertex.push(group[offset]);
            a = a + 1;
        }
        vertices.push(vertex);
        proof {
            assert forall|w: int| 0 <= w < v + 1 implies {
                let vertex = #[trigger] vertices@[w];
                &&& vertex@.len() == views.len()
                &&& forall|a: int|
                    0 <= a < views.len() ==> #[trigger] vertex@[a] == primitive_indices@[w * stride
                        + views[a].offset]
            } by {
            }
        }
        v = v + 1;
    }
    let vertex_count_u32 = vertex_count as u32;
    let mut indices: Vec<u32> = Vec::new();
    let mut i: u32 = 0;
    while i < vertex_count_u32
        invariant
            i <= vertex_count_u32,
            vertex_count_u32 == vertex_count,
            indices@.len() == i,
            forall|k: int| 0 <= k < i ==> #[trigger] indices@[k] == k,
        decreases vertex_count_u32 - i,
    {
        indices.push(i);
        i = i + 1;
    }
    let layout = MeshLayout { attributes: mappers, vertices: vertices, indices: indices };
    proof {
        assert forall|a: int| 0 <= a < views.len() implies {
            let m = #[trigger] layout.attributes@[a];
            &&& m.offset == views[a].offset
            &&& m.name@ == views[a].name
            &&& m.semantic == semantic_of(views[a].name)
            &&& m.source == views[a].source
        } by {
            assert(views[a] == mapper_view(layout.attributes@[a]));
        }
    }
    Ok(layout)
}

/// Turns a geometry into vertex data; only meshes are supported.
pub fn geometry_to_mesh(geometry: &Geometry) -> (result: Result<MeshLayout, Error>)
    requires
        geometry.geometric_element matches GeometricElement::Mesh(mesh) ==> !has_empty_inputs(mesh)
            && fits_index_range(mesh),
    ensures
        match geometry.geometric_element {
            GeometricElement::Mesh(mesh) => match collada_mappers(mesh) {
                Err(e) => result == Err::<MeshLayout, Error>(e),
                Ok(mappers) => result matches Ok(layout) && mesh.primitive_elements@[0] matches PrimitiveElements::Triangles(t)
                    && t.p matches Some(p) && layout_matches(layout, mappers, t, p@),
            },
            GeometricElement::Other => result == Err::<MeshLayout, Error>(Error::UnsupportedGeometricElement),
        },
{
    match &geometry.geometric_element {
        GeometricElement::Mesh(mesh) => collada_mesh_to_mesh(mesh),
        GeometricElement::Other => Err(Error::UnsupportedGeometricElement),
    }
}

/// The (position index, normal index) pair of triangle corner `v`: the first two of its
/// `stride` indices.
pub open spec fn corner_key(p: Seq<usize>, stride: int, v: int) -> (usize, usize) {
    (p[v * stride], p[v * stride + 1])
}

/// The keys of the first `n` corners.
pub open spec fn corner_keys(p: Seq<usize>, stride: int, n: int) -> Seq<(usize, usize)> {
    Seq::new(n as nat, |v: int| corner_key(p, stride, v))
}

/// The distinct elements of `keys`, in the order of their first occurrence.
pub open spec fn distinct_keys(keys: Seq<(usize, usize)>) -> Seq<(usize, usize)>
    decreases keys.len(),
{
    if keys.len() == 0 {
        Seq::empty()
    } else {
        let before = distinct_keys(keys.drop_last());
        if before.contains(keys.last()) {
            before
        } else {
            before.push(keys.last())
        }
    }
}

/// Vertices identified by the (position index, normal index) pair of the corners that use
/// them: each distinct pair once, in the order the corners first use it, and for every corner
/// the index of its vertex.
#[derive(Debug, Clone)]
pub struct IndexedVertices {
    pub keys: Vec<(usize, usize)>,
    pub indices: Vec<u32>,
}

/// The hash key standing for the pair `(a, b)`.
pub open spec fn pair_key(a: usize, b: usize) -> u128 {
    (a as u128 * 0x1_0000_0000_0000_0000 + b as u128) as u128
}

proof fn lemma_pair_key_injective(a: usize, b: usize, c: usize, d: usize)
    requires
        pair_key(a, b) == pair_key(c, d),
    ensures
        a == c && b == d,
{
    let m: int = 0x1_0000_0000_0000_0000;
    assert(a as int * m + b < 0x1_0000_0000_0000_0000_0000_0000_0000_0000) by (nonlinear_arith)
        requires
            a < m,
            b < m,
            m == 0x1_0000_0000_0000_0000int,
    ;
    assert(c as int * m + d < 0x1_0000_0000_0000_0000_0000_0000_0000_0000) by (nonlinear_arith)
        requires
            c < m,
            d < m,
            m == 0x1_0000_0000_0000_0000int,
    ;
    assert(a == c && b == d) by (nonlinear_arith)
        requires
            a as int * m + b == c as int * m + d,
            0 <= b < m,
            0 <= d < m,
            0 <= a,
            0 <= c,
            m > 0,
    ;
}

/// Numbers the distinct (position, normal) index pairs of the first `vertex_count` triangle
/// corners, whose indices are grouped by `stride`, in order of first use, and gives every
/// corner the number of its pair.
pub fn index_vertices(primitive_indices: &[usize], stride: usize, vertex_count: usize) -> (result: IndexedVertices)
    requires
        vertex_count == 0 || (vertex_count - 1) * stride + 1 < primitive_indices@.len(),
        vertex_count <= u32::MAX,
    ensures
        result.keys@ == distinct_keys(corner_keys(primitive_indices@, stride as int, vertex_count as int)),
        result.indices@.len() == vertex_count,
        forall|v: int|
            0 <= v < vertex_count ==> {
                &&& (#[trigger] result.indices@[v]) < result.keys@.len()
                &&& result.keys@[result.indices@[v] as int] == corner_key(primitive_indices@, stride as int, v)
            },
{
    let ghost p = primitive_indices@;
    let mut vertex_index_map: HashMap<u128, u32> = HashMap::new();
    let mut keys: Vec<(usize, usize)> = Vec::new();
    let mut indices: Vec<u32> = Vec::new();
    let len = primitive_indices.len();
    let mut v: usize = 0;
    while v < vertex_count
        invariant
            v <= vertex_count,
            len == p.len(),
            vertex_count <= u32::MAX,
            vertex_count == 0 || (vertex_count - 1) * stride + 1 < p.len(),
            p == primitive_indices@,
            keys@ == distinct_keys(corner_keys(p, stride as int, v as int)),
            keys@.len() <= v,
            keys@.no_duplicates(),
            indices@.len() == v,
            forall|w: int|
                0 <= w < v ==> {
                    &&& (#[trigger] indices@[w]) < keys@.len()
                    &&& keys@[indices@[w] as int] == corner_key(p, stride as int, w)
                },
            forall|k: int| 0 <= k < keys@.len() ==> #[trigger] vertex_index_map@.contains_key(pair_key(keys@[k].0, keys@[k].1))
                && vertex_index_map@[pair_key(keys@[k].0, keys@[k].1)] == k,
            forall|key: u128| #[trigger] vertex_index_map@.contains_key(key) ==> exists|k: int|
                0 <= k < keys@.len() && key == pair_key(keys@[k].0, keys@[k].1),
        decreases vertex_count - v,
    {
        proof {
            assert(v * stride + 1 < p.len()) by (nonlinear_arith)
                requires
                    v < vertex_count,
                    (vertex_count - 1) * stride + 1 < p.len(),
            ;
        }
        let position_index = primitive_indices[v * stride];
        let normal_index = primitive_indices[v * stride + 1];
        let key: u128 = position_index as u128 * 0x1_0000_0000_0000_0000 + normal_index as u128;
        assert(key == pair_key(position_index, normal_index));
        let ghost pair = (position_index, normal_index);
        assert(corner_key(p, stride as int, v as int) == pair);
        let ghost next_keys = corner_keys(p, stride as int, v + 1);
        assert(next_keys.drop_last() =~= corner_keys(p, stride as int, v as int));
        assert(next_keys.last() == pair);
        let ghost keys_before = keys@;
        let vertex_index = match vertex_index_map.get(&key) {
            Some(index) => {
                proof {
                    let k = choose|k: int| 0 <= k < keys@.len() && key == pair_key(keys@[k].0, keys@[k].1);
                    lemma_pair_key_injective(position_index, normal_index, keys@[k].0, keys@[k].1);
                    assert(keys@[k] == pair);
                }
                *index
            },
            None => {
                proof {
                    if keys@.contains(pair) {
                        let k = choose|k: int| 0 <= k < keys@.len() && keys@[k] == pair;
                        assert(vertex_index_map@.contains_key(pair_key(keys@[k].0, keys@[k].1)));
                    }
                }
                let index = keys.len() as u32;
                keys.push((position_index, normal_index));
                vertex_index_map.insert(key, index);
                proof {
                    assert forall|k: int| 0 <= k < keys@.len() implies #[trigger] vertex_index_map@.contains_key(pair_key(keys@[k].0, keys@[k].1))
                        && vertex_index_map@[pair_key(keys@[k].0, keys@[k].1)] == k by {
                        if k < keys_before.len() {
                            assert(keys@[k] == keys_before[k]);
                            if pair_key(keys@[k].0, keys@[k].1) == key {
                                lemma_pair_key_injective(keys@[k].0, keys@[k].1, position_index, normal_index);
                            }
                        }
                    }
                    assert forall|q: u128| #[trigger] vertex_index_map@.contains_key(q) implies exists|k: int|
                        0 <= k < keys@.len() && q == pair_key(keys@[k].0, keys@[k].1) by {
                        if q == key {
                            assert(keys@[keys@.len() - 1] == pair);
                        } else {
                            let k = choose|k: int| 0 <= k < keys_before.len() && q == pair_key(keys_before[k].0, keys_before[k].1);
                            assert(keys@[k] == keys_before[k]);
                        }
                    }
                    assert forall|a: int, b: int| 0 <= a < b < keys@.len() implies keys@[a] != keys@[b] by {
                        if b == keys@.len() - 1 {
                            assert(keys@[a] == keys_before[a]);
                        }
                    }
                }
                index
            },
        };
        indices.push(vertex_index);
        proof {
            assert forall|w: int| 0 <= w < v + 1 implies {
                &&& (#[trigger] indices@[w]) < keys@.len()
                &&& keys@[indices@[w] as int] == corner_key(p, stride as int, w)
            } by {
                if w < v {
                    assert(indices@[w] < keys_before.len());
                    assert(keys@[indices@[w] as int] == keys_before[indices@[w] as int]);
                }
            }
        }
        v = v + 1;
    }
    IndexedVertices { keys: keys, indices: indices }
}

/// A strided view of a slice: yields consecutive groups of `stride` elements.
pub struct GroupBy<'a, T> {
    slice: &'a [T],
    next: usize,
    stride: usize,
}

impl<'a, T> GroupBy<'a, T> {
    #[verifier::type_invariant]
    spec fn whole_groups(self) -> bool {
        &&& self.stride > 0
        &&& self.next <= self.slice@.len()
        &&& self.next % self.stride == 0
        &&& (self.slice@.len() as int) % (self.stride as int) == 0
    }

    /// The elements being grouped.
    pub closed spec fn elements(&self) -> Seq<T> {
        self.slice@
    }

    /// The number of elements per group.
    pub closed spec fn group_size(&self) -> int {
        self.stride as int
    }

    /// The index of the next group to yield.
    pub closed spec fn next_group(&self) -> int {
        (self.next / self.stride) as int
    }

    /// Groups `slice` into runs of `stride` elements; fails if the length of `slice` is not a
    /// multiple of `stride`, which must not be zero.
    pub fn new(slice: &'a [T], stride: usize) -> (result: Result<GroupBy<'a, T>, ()>)
        requires
            stride > 0,
        ensures
            match result {
                Ok(groups) => {
                    &&& (slice@.len() as int) % (stride as int) == 0
                    &&& groups.elements() == slice@
                    &&& groups.group_size() == stride
                    &&& groups.next_group() == 0
                },
                Err(()) => (slice@.len() as int) % (stride as int) != 0,
            },
    {
        if slice.len() % stride != 0 {
            return Err(());
        }
        Ok(GroupBy { slice: slice, next: 0, stride: stride })
    }

    /// The next group, or `None` once every group has been yielded.
    pub fn next(&mut self) -> (group: Option<&'a [T]>)
        ensures
            final(self).elements() == old(self).elements(),
            final(self).group_size() == old(self).group_size(),
            ({
                let g = old(self).next_group();
                let n = old(self).group_size();
                if g * n < old(self).elements().len() {
                    &&& group matches Some(s) && s@ == old(self).elements().subrange(g * n, g * n + n)
                    &&& final(self).next_group() == g + 1
                } else {
                    &&& group is None
                    &&& final(self).next_group() == g
                }
            }),
    {
        proof {
            use_type_invariant(&*self);
            let n = self.stride as int;
            let s = self.next as int;
            vstd::arithmetic::div_mod::lemma_fundamental_div_mod(s, n);
            assert((s / n) * n == s) by (nonlinear_arith)
                requires
                    s == n * (s / n) + s % n,
                    s % n == 0,
            ;
        }
        if self.next == self.slice.len() {
            return None;
        }
        let start = self.next;
        proof {
            let len = self.slice@.len() as int;
            let n = self.stride as int;
            let s = start as int;
            vstd::arithmetic::div_mod::lemma_fundamental_div_mod(len, n);
            assert(s + n <= len) by (nonlinear_arith)
                requires
                    s < len,
                    s % n == 0,
                    len % n == 0,
                    n > 0,
                    s == n * (s / n) + s % n,
                    len == n * (len / n) + len % n,
            ;
            vstd::arithmetic::div_mod::lemma_mod_add_multiples_vanish(s, n);
            vstd::arithmetic::div_mod::lemma_div_plus_one(s, n);
        }
        self.next = start + self.stride;
        Some(vstd::slice::slice_subrange(self.slice, start, start + self.stride))
    }
}

} // verus!
