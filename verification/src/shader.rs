//! Shader stages and program linking.
//!
//! The driver owns the real objects; the host shell makes the raw calls
//! (create, upload source, compile, link, query status, fetch logs) and
//! feeds every reply into the constructors here. This module owns the
//! decisions: which replies make a live object, which make an error, and
//! which driver calls a builder's recorded steps require, in order.

use vstd::prelude::*;

verus! {

/// Which pipeline stage a shader object implements.
#[derive(Clone, Copy, PartialEq, Eq, Structural, Debug)]
pub enum StageKind {
    Vertex,
    Fragment,
}

/// Why a GPU object could not be produced.
#[derive(Debug)]
pub enum GlError {
    /// The driver returned a zero handle: no context current, or the
    /// driver is exhausted. Fatal.
    ResourceCreationFailed,
    /// The driver rejected a stage's source text; the info log is kept
    /// verbatim.
    CompileError { log: String },
    /// The driver rejected the combination of attached stages; the info
    /// log is kept verbatim.
    LinkError { log: String },
}

impl GlError {
    /// The driver's diagnostic text, or the empty string where the
    /// driver never got far enough to produce one.
    pub fn log(&self) -> (r: &str)
        ensures
            match self {
                GlError::ResourceCreationFailed => r@ == Seq::<char>::empty(),
                GlError::CompileError { log } => r@ == log@,
                GlError::LinkError { log } => r@ == log@,
            },
    {
        match self {
            GlError::ResourceCreationFailed => {
                let r = "";
                proof {
                    reveal_strlit("");
                }
                r
            },
            GlError::CompileError { log } => log.as_str(),
            GlError::LinkError { log } => log.as_str(),
        }
    }
}

/// One compiled shader stage. Holds the driver handle and its stage tag;
/// the handle is nonzero for as long as the value exists, and releasing
/// it (`delete`) consumes the value, so the matching driver delete call
/// can be issued at most once.
pub struct Shader {
    id: u32,
    kind: StageKind,
}

impl Shader {
    pub closed spec fn id_spec(&self) -> u32 {
        self.id
    }

    pub closed spec fn kind_spec(&self) -> StageKind {
        self.kind
    }

    pub open spec fn wf(&self) -> bool {
        self.id_spec() != 0
    }

    /// Decide the outcome of compiling one stage from the driver's
    /// replies: the handle `created` that the create call returned, the
    /// compile-status flag, and the info log fetched on failure.
    pub fn from_bytes(kind: StageKind, created: u32, compile_ok: bool, log: String) -> (r: Result<
        Shader,
        GlError,
    >)
        ensures
            created == 0 ==> (r matches Err(e) && e matches GlError::ResourceCreationFailed),
            created != 0 && !compile_ok ==> (r matches Err(e) && e matches GlError::CompileError {
                log: l,
            } && l == log),
            created != 0 && compile_ok ==> (r matches Ok(s) && s.id_spec() == created
                && s.kind_spec() == kind && s.wf()),
    {
        if created == 0 {
            Err(GlError::ResourceCreationFailed)
        } else if !compile_ok {
            Err(GlError::CompileError { log })
        } else {
            Ok(Shader { id: created, kind })
        }
    }

    /// The raw handle, for the host to pass to attach calls.
    pub fn id(&self) -> (r: u32)
        ensures
            r == self.id_spec(),
    {
        self.id
    }

    pub fn kind(&self) -> (r: StageKind)
        ensures
            r == self.kind_spec(),
    {
        self.kind
    }

    /// Give the handle up for deletion. Consumes the stage, so the
    /// returned handle is handed to the driver's delete call exactly
    /// once.
    pub fn delete(self) -> (r: u32)
        ensures
            r == self.id_spec(),
    {
        self.id
    }
}

/// One driver call a program builder has queued, to be issued in order
/// before the link call.
#[derive(Debug)]
pub enum BuildStep {
    /// Attach the shader object with this handle to the program.
    Attach { shader: u32 },
    /// Bind the named vertex attribute to this slot before linking.
    BindAttrib { index: u32, name: String },
}

/// Accumulates attachments and attribute bindings for one program, then
/// decides the link outcome. The builder holds the program handle the
/// driver created, and records, in call order, the driver calls the host
/// must issue before linking.
pub struct ProgramBuilder {
    id: u32,
    steps: Vec<BuildStep>,
}

impl ProgramBuilder {
    pub closed spec fn id_spec(&self) -> u32 {
        self.id
    }

    pub closed spec fn steps_spec(&self) -> Seq<BuildStep> {
        self.steps@
    }

    pub open spec fn wf(&self) -> bool {
        self.id_spec() != 0
    }

    /// Decide the outcome of the driver's program-create call.
    pub fn new(created: u32) -> (r: Result<ProgramBuilder, GlError>)
        ensures
            created == 0 ==> (r matches Err(e) && e matches GlError::ResourceCreationFailed),
            created != 0 ==> (r matches Ok(b) && b.id_spec() == created && b.steps_spec()
                == Seq::<BuildStep>::empty() && b.wf()),
    {
        if created == 0 {
            Err(GlError::ResourceCreationFailed)
        } else {
            Ok(ProgramBuilder { id: created, steps: Vec::new() })
        }
    }

    /// Queue attaching a compiled stage. Stages may be attached in any
    /// number and order; a bad combination surfaces only at link time.
    pub fn attach(self, shader: &Shader) -> (r: ProgramBuilder)
        ensures
            r.id_spec() == self.id_spec(),
            r.steps_spec() == self.steps_spec().push(
                BuildStep::Attach { shader: shader.id_spec() },
            ),
    {
        let mut steps = self.steps;
        steps.push(BuildStep::Attach { shader: shader.id() });
        ProgramBuilder { id: self.id, steps }
    }

    /// Queue binding a vertex attribute name to a slot; it takes effect
    /// at link time.
    pub fn gl_bind_attrib(self, index: u32, name: String) -> (r: ProgramBuilder)
        ensures
            r.id_spec() == self.id_spec(),
            r.steps_spec() == self.steps_spec().push(BuildStep::BindAttrib { index, name }),
    {
        let mut steps = self.steps;
        steps.push(BuildStep::BindAttrib { index, name });
        ProgramBuilder { id: self.id, steps }
    }

    /// The queued driver calls, in the order they must be issued.
    pub fn steps(&self) -> (r: &Vec<BuildStep>)
        ensures
            r@ == self.steps_spec(),
    {
        &self.steps
    }

    /// The raw program handle the queued calls and the link call apply
    /// to.
    pub fn id(&self) -> (r: u32)
        ensures
            r == self.id_spec(),
    {
        self.id
    }

    /// Decide the link outcome from the driver's link-status flag and
    /// the info log fetched on failure. A program is either fully linked
    /// and usable, or does not come to exist at all.
    pub fn build(self, link_ok: bool, log: String) -> (r: Result<Program, GlError>)
        requires
            self.wf(),
        ensures
            !link_ok ==> (r matches Err(e) && e matches GlError::LinkError { log: l } && l
                == log),
            link_ok ==> (r matches Ok(p) && p.id_spec() == self.id_spec() && p.wf()),
    {
        if !link_ok {
            Err(GlError::LinkError { log })
        } else {
            Ok(Program { id: self.id })
        }
    }
}

/// A fully linked, immutable program. The handle is nonzero while the
/// value exists and is given up exactly once, by `delete`.
pub struct Program {
    id: u32,
}

impl Program {
    pub closed spec fn id_spec(&self) -> u32 {
        self.id
    }

    pub open spec fn wf(&self) -> bool {
        self.id_spec() != 0
    }

    /// The handle the host passes to the driver's use-program call to
    /// make this pipeline current before a draw.
    pub fn use_program(&self) -> (r: u32)
        ensures
            r == self.id_spec(),
    {
        self.id
    }

    /// Give the handle up for deletion, exactly once.
    pub fn delete(self) -> (r: u32)
        ensures
            r == self.id_spec(),
    {
        self.id
    }
}

} // verus!
