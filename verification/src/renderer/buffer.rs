//! GPU-side vertex storage: one vertex buffer owned by one vertex array.
//!
//! The host shell makes the raw generate/bind/upload calls and feeds the
//! handles in; this module decides what counts as a failed allocation,
//! fixes the exact upload size, and pins the order and multiplicity of
//! the delete calls a teardown must issue.

use vstd::prelude::*;

use crate::mesh::Mesh;
use crate::shader::GlError;

verus! {

/// Bytes one vertex occupies on the GPU: eight four-byte floats.
pub const VERTEX_STRIDE_BYTES: usize = 32;

/// The buffer object holding the mesh's flattened vertex data, uploaded
/// once at construction and read-only thereafter. The handle is nonzero
/// while the value exists and is given up exactly once, by the owning
/// array's `delete`.
pub struct VertBufObject {
    id: u32,
}

impl VertBufObject {
    pub closed spec fn id_spec(&self) -> u32 {
        self.id
    }

    pub open spec fn wf(&self) -> bool {
        self.id_spec() != 0
    }

    /// The raw handle, for the host's bind and upload calls — and for
    /// its delete call if the owning array never comes to exist.
    pub fn id(&self) -> (r: u32)
        ensures
            r == self.id_spec(),
    {
        self.id
    }

    /// Decide the outcome of the driver's buffer-generate call, and fix
    /// the byte size of the one static upload the host must perform:
    /// exactly the vertex count times the vertex stride.
    pub fn from_mesh(created: u32, mesh: &Mesh) -> (r: Result<(VertBufObject, usize), GlError>)
        requires
            VERTEX_STRIDE_BYTES * mesh@.len() <= usize::MAX,
        ensures
            created == 0 ==> (r matches Err(e) && e matches GlError::ResourceCreationFailed),
            created != 0 ==> (r matches Ok((b, size)) && b.id_spec() == created && b.wf() && size
                == VERTEX_STRIDE_BYTES * mesh@.len()),
    {
        if created == 0 {
            Err(GlError::ResourceCreationFailed)
        } else {
            let size = VERTEX_STRIDE_BYTES * mesh.vertex_count();
            Ok((VertBufObject { id: created }, size))
        }
    }
}

/// The vertex array object binding the buffer's interleaved layout to
/// attribute slots. It exclusively owns its buffer, so the buffer lives
/// no longer than the array.
pub struct VertArrayObject {
    id: u32,
    pub vbo: VertBufObject,
}

impl VertArrayObject {
    pub closed spec fn id_spec(&self) -> u32 {
        self.id
    }

    pub closed spec fn vbo_spec(&self) -> VertBufObject {
        self.vbo
    }

    pub open spec fn wf(&self) -> bool {
        self.id_spec() != 0 && self.vbo_spec().wf()
    }

    /// Decide the outcome of the driver's array-generate call, taking
    /// ownership of the buffer. On failure the buffer is handed back, so
    /// its handle is not lost to the caller's accounting.
    pub fn new(created: u32, vbo: VertBufObject) -> (r: Result<
        VertArrayObject,
        (GlError, VertBufObject),
    >)
        ensures
            created == 0 ==> (r matches Err((e, v)) && e matches GlError::ResourceCreationFailed
                && v == vbo),
            created != 0 ==> (r matches Ok(a) && a.id_spec() == created && a.vbo_spec() == vbo),
    {
        if created == 0 {
            Err((GlError::ResourceCreationFailed, vbo))
        } else {
            Ok(VertArrayObject { id: created, vbo })
        }
    }

    /// The handle the host passes to the driver's bind call to make this
    /// array the vertex source of the next draw.
    pub fn bind(&self) -> (r: u32)
        ensures
            r == self.id_spec(),
    {
        self.id
    }

    /// Give both handles up for deletion, exactly once each: first the
    /// array, then the buffer it owned.
    pub fn delete(self) -> (r: (u32, u32))
        ensures
            r.0 == self.id_spec(),
            r.1 == self.vbo_spec().id_spec(),
    {
        (self.id, self.vbo.id)
    }
}

} // verus!
