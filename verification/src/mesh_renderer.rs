//! What the renderer is told about a mesh instance.

use crate::resource::Mesh;
use crate::resource::MeshId;
use vstd::prelude::*;

verus! {

/// The data of a mesh instance handed to the renderer: which mesh it draws.
#[derive(Debug)]
pub struct MeshRendererData {
    mesh_id: MeshId,
}

impl MeshRendererData {
    /// The instance data for drawing `mesh`.
    pub fn for_mesh(mesh: &Mesh) -> (data: MeshRendererData)
        ensures
            data.mesh_id() == mesh.0,
    {
        MeshRendererData { mesh_id: mesh.id() }
    }

    /// The mesh this instance draws.
    pub closed spec fn spec_mesh_id(&self) -> MeshId {
        self.mesh_id
    }

    #[verifier::when_used_as_spec(spec_mesh_id)]
    pub fn mesh_id(&self) -> (id: MeshId)
        ensures
            id == self.spec_mesh_id(),
    {
        self.mesh_id
    }
}

} // verus!
