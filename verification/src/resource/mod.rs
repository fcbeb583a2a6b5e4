//! Loading of engine resources: decoding loaded text, and the handles of meshes registered with
//! the renderer.

pub mod collada;
pub mod shader;

use vstd::prelude::*;
use vstd::utf8::decode_utf8;
use vstd::utf8::valid_utf8;

verus! {

/// Identifies a mesh registered with the renderer.
pub type MeshId = usize;

/// A handle to a mesh that has been registered with the renderer.
#[derive(Debug)]
pub struct Mesh(pub MeshId);

impl Mesh {
    pub fn id(&self) -> (id: MeshId)
        ensures
            id == self.0,
    {
        self.0
    }
}

/// Why loading a file as text failed.
#[derive(Debug)]
pub enum LoadTextError {
    /// The file could not be read; holds the description of the I/O error.
    Io(String),
    /// The file's contents are not valid UTF-8; holds those contents.
    Utf8(Vec<u8>),
}

/// Why loading a material failed.
#[derive(Debug)]
pub enum LoadMaterialError {
    LoadTextError(LoadTextError),
    /// The renderer could not build the material; holds the renderer's description.
    BuildMaterialError(String),
    /// The material source could not be parsed; holds the parser's description.
    ParseMaterialError(String),
}

/// Decodes `bytes` as UTF-8. Wraps `String::from_utf8`, which returns the string whose UTF-8
/// encoding is `bytes` when the bytes are valid UTF-8; otherwise its error hands the bytes back
/// unchanged through `FromUtf8Error::into_bytes`.
#[verifier::external_body]
fn string_from_utf8(bytes: Vec<u8>) -> (text: Result<String, Vec<u8>>)
    ensures
        match text {
            Ok(s) => valid_utf8(bytes@) && s@ == decode_utf8(bytes@),
            Err(rejected) => !valid_utf8(bytes@) && rejected@ == bytes@,
        },
{
    match String::from_utf8(bytes) {
        Ok(text) => Ok(text),
        Err(error) => Err(error.into_bytes()),
    }
}

/// Turns the bytes read from a file into its text: the characters the bytes encode when they are
/// valid UTF-8, and `LoadTextError::Utf8` holding the bytes otherwise.
pub fn load_file_text(bytes: Vec<u8>) -> (text: Result<String, LoadTextError>)
    ensures
        match text {
            Ok(s) => valid_utf8(bytes@) && s@ == decode_utf8(bytes@),
            Err(LoadTextError::Utf8(rejected)) => !valid_utf8(bytes@) && rejected@ == bytes@,
            Err(LoadTextError::Io(_)) => false,
        },
{
    match string_from_utf8(bytes) {
        Ok(text) => Ok(text),
        Err(rejected) => Err(LoadTextError::Utf8(rejected)),
    }
}

} // verus!
