use gunship::mesh_renderer::MeshRendererData;
use gunship::resource::load_file_text;
use gunship::resource::LoadTextError;
use gunship::resource::Mesh;

#[test]
fn text_is_decoded_as_utf8() {
    assert_eq!(load_file_text(b"program".to_vec()).unwrap(), "program");
    assert_eq!(load_file_text(vec![0xc3, 0xa9]).unwrap(), "\u{e9}");
    assert_eq!(load_file_text(Vec::new()).unwrap(), "");
}

#[test]
fn invalid_utf8_gives_the_bytes_back() {
    match load_file_text(vec![b'a', 0xff, b'b']) {
        Err(LoadTextError::Utf8(bytes)) => assert_eq!(bytes, vec![b'a', 0xff, b'b']),
        other => panic!("unexpected result {:?}", other),
    }
    // A lone surrogate encoding is not valid UTF-8.
    assert!(matches!(load_file_text(vec![0xed, 0xa0, 0x80]), Err(LoadTextError::Utf8(_))));
}

#[test]
fn mesh_renderer_data_names_its_mesh() {
    let mesh = Mesh(42);
    assert_eq!(mesh.id(), 42);
    assert_eq!(MeshRendererData::for_mesh(&mesh).mesh_id(), 42);
}
