use gunship::resource::collada::collada_mesh_to_mesh;
use gunship::resource::collada::geometry_to_mesh;
use gunship::resource::collada::index_vertices;
use gunship::resource::collada::ArrayElement;
use gunship::resource::collada::Error;
use gunship::resource::collada::GeometricElement;
use gunship::resource::collada::Geometry;
use gunship::resource::collada::GroupBy;
use gunship::resource::collada::Input;
use gunship::resource::collada::Mesh;
use gunship::resource::collada::PrimitiveElements;
use gunship::resource::collada::Source;
use gunship::resource::collada::Triangles;
use gunship::resource::collada::VertexSemantic;

fn input(semantic: &str, source: &str) -> Input {
    Input { semantic: semantic.to_string(), source: source.to_string() }
}

fn source(id: &str, array_element: Option<ArrayElement>) -> Source {
    Source { id: id.to_string(), array_element }
}

fn triangles(inputs: Vec<Input>, count: usize, p: Option<Vec<usize>>) -> Mesh {
    Mesh {
        source: vec![
            source("positions", Some(ArrayElement::Float)),
            source("normals", Some(ArrayElement::Float)),
            source("uvs", Some(ArrayElement::Float)),
        ],
        vertices: vec![input("POSITION", "positions")],
        primitive_elements: vec![PrimitiveElements::Triangles(Triangles { input: inputs, count, p })],
    }
}

#[test]
fn vertex_input_expands_and_indices_are_regrouped() {
    let mesh = triangles(
        vec![input("VERTEX", "verts"), input("NORMAL", "normals")],
        1,
        Some(vec![4, 0, 5, 1, 6, 2]),
    );
    let layout = collada_mesh_to_mesh(&mesh).unwrap();
    let attributes: Vec<_> = layout
        .attributes
        .iter()
        .map(|m| (m.offset, m.name.as_str(), m.semantic, m.source))
        .collect();
    assert_eq!(
        attributes,
        vec![
            (0, "POSITION", Some(VertexSemantic::Position), 0),
            (1, "NORMAL", Some(VertexSemantic::Normal), 1),
        ],
    );
    assert_eq!(layout.vertices, vec![vec![4, 0], vec![5, 1], vec![6, 2]]);
    assert_eq!(layout.indices, vec![0, 1, 2]);
}

#[test]
fn inputs_sharing_nothing_keep_their_offsets() {
    let mesh = triangles(
        vec![input("TEXCOORD", "uvs"), input("COLOR", "normals"), input("VERTEX", "v")],
        2,
        Some((0..18).collect()),
    );
    let layout = collada_mesh_to_mesh(&mesh).unwrap();
    let semantics: Vec<_> = layout.attributes.iter().map(|m| (m.offset, m.semantic)).collect();
    assert_eq!(
        semantics,
        vec![
            (0, Some(VertexSemantic::TexCoord)),
            (1, None),
            (2, Some(VertexSemantic::Position)),
        ],
    );
    assert_eq!(layout.vertices.len(), 6);
    assert_eq!(layout.vertices[1], vec![3, 4, 5]);
    assert_eq!(layout.vertices[5], vec![15, 16, 17]);
    assert_eq!(layout.indices, vec![0, 1, 2, 3, 4, 5]);
}

#[test]
fn mesh_without_primitives() {
    let mesh = Mesh { source: Vec::new(), vertices: Vec::new(), primitive_elements: Vec::new() };
    assert_eq!(collada_mesh_to_mesh(&mesh).unwrap_err(), Error::MissingPrimitiveElement);
}

#[test]
fn only_triangles_are_supported() {
    let mut mesh = triangles(vec![input("VERTEX", "v")], 0, Some(Vec::new()));
    mesh.primitive_elements.insert(0, PrimitiveElements::Other);
    assert_eq!(collada_mesh_to_mesh(&mesh).unwrap_err(), Error::UnsupportedPrimitiveType);
}

#[test]
fn triangles_need_indices() {
    let mesh = triangles(vec![input("VERTEX", "v")], 1, None);
    assert_eq!(collada_mesh_to_mesh(&mesh).unwrap_err(), Error::MissingPrimitiveIndices);
}

#[test]
fn index_count_must_match() {
    let mesh = triangles(vec![input("VERTEX", "v"), input("NORMAL", "normals")], 1, Some(vec![0; 5]));
    assert_eq!(
        collada_mesh_to_mesh(&mesh).unwrap_err(),
        Error::IncorrectPrimitiveIndicesCount { primitive_count: 1, stride: 2, index_count: 5 },
    );
}

#[test]
fn inputs_need_readable_sources() {
    let mut mesh = triangles(vec![input("TEXCOORD", "missing")], 1, Some(vec![0, 1, 2]));
    assert_eq!(collada_mesh_to_mesh(&mesh).unwrap_err(), Error::MissingSourceData);

    mesh.source.push(source("missing", None));
    assert_eq!(collada_mesh_to_mesh(&mesh).unwrap_err(), Error::MissingPositionData);

    mesh.source.insert(0, source("missing", Some(ArrayElement::Other)));
    assert_eq!(collada_mesh_to_mesh(&mesh).unwrap_err(), Error::UnsupportedSourceData);
}

#[test]
fn normal_inputs_report_missing_normal_data() {
    let mut mesh = triangles(
        vec![input("VERTEX", "v"), input("NORMAL", "missing")],
        1,
        Some(vec![0; 6]),
    );
    assert_eq!(collada_mesh_to_mesh(&mesh).unwrap_err(), Error::MissingNormalSource);

    mesh.source.push(source("missing", None));
    assert_eq!(collada_mesh_to_mesh(&mesh).unwrap_err(), Error::MissingNormalData);
}

#[test]
fn the_first_failing_input_decides() {
    let mesh = triangles(
        vec![input("NORMAL", "gone"), input("TEXCOORD", "also-gone")],
        1,
        Some(vec![0; 6]),
    );
    assert_eq!(collada_mesh_to_mesh(&mesh).unwrap_err(), Error::MissingNormalSource);
}

#[test]
fn geometry_must_be_a_mesh() {
    let geometry = Geometry { geometric_element: GeometricElement::Other };
    assert_eq!(geometry_to_mesh(&geometry).unwrap_err(), Error::UnsupportedGeometricElement);
    let geometry = Geometry {
        geometric_element: GeometricElement::Mesh(triangles(vec![input("VERTEX", "v")], 1, Some(vec![7, 8, 9]))),
    };
    assert_eq!(geometry_to_mesh(&geometry).unwrap().vertices, vec![vec![7], vec![8], vec![9]]);
}

#[test]
fn group_by_yields_whole_groups() {
    let values = [1, 2, 3, 4, 5, 6];
    let mut groups = GroupBy::new(&values, 2).unwrap();
    assert_eq!(groups.next(), Some(&[1, 2][..]));
    assert_eq!(groups.next(), Some(&[3, 4][..]));
    assert_eq!(groups.next(), Some(&[5, 6][..]));
    assert_eq!(groups.next(), None);
    assert_eq!(groups.next(), None);
    assert!(GroupBy::new(&values, 4).is_err());
    let empty: [u8; 0] = [];
    assert_eq!(GroupBy::new(&empty, 3).unwrap().next(), None);
}

#[test]
fn corners_sharing_a_pair_share_a_vertex() {
    let p = [0, 0, 1, 1, 0, 0, 2, 1, 1, 1, 0, 0];
    let indexed = index_vertices(&p, 2, 6);
    assert_eq!(indexed.keys, vec![(0, 0), (1, 1), (2, 1)]);
    assert_eq!(indexed.indices, vec![0, 1, 0, 2, 1, 0]);
    // Extra indices per corner are skipped over.
    let p = [4, 5, 9, 4, 5, 8, 6, 7, 9];
    let indexed = index_vertices(&p, 3, 3);
    assert_eq!(indexed.keys, vec![(4, 5), (6, 7)]);
    assert_eq!(indexed.indices, vec![0, 0, 1]);
    assert!(index_vertices(&[], 2, 0).keys.is_empty());
}
