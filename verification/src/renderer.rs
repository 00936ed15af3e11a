//! The rendering orchestrator: a state machine over the GPU objects.
//!
//! The host shell drives one poll → draw → present loop and performs
//! every raw driver call; the `Renderer` here decides what each host
//! signal means. `init` takes ownership of the built program and vertex
//! array; `draw` says exactly which driver calls make one frame;
//! `resize` guards the transient zero-sized window states some hosts
//! report; `teardown` says exactly which delete calls release every
//! owned handle, once each; and a context loss forgets the handles
//! without deleting, because the driver has already reclaimed them.

use vstd::prelude::*;

pub mod buffer;

use crate::shader::Program;
use buffer::VertArrayObject;

verus! {

/// The fixed background color, as the bit patterns of the four 32-bit
/// float components the clear call takes (0.7, 0.6, 0.8, 1.0).
pub const CLEAR_R_BITS: u32 = 0x3F333333;

pub const CLEAR_G_BITS: u32 = 0x3F19999A;

pub const CLEAR_B_BITS: u32 = 0x3F4CCCCD;

pub const CLEAR_A_BITS: u32 = 0x3F800000;

/// One driver call of a frame, in the order `draw` returns them.
#[derive(Clone, Copy, PartialEq, Eq, Structural, Debug)]
pub enum DrawCmd {
    /// Set the clear color; the fields are 32-bit float bit patterns.
    ClearColor { r: u32, g: u32, b: u32, a: u32 },
    /// Clear the color buffer.
    Clear,
    /// Make this program the active pipeline.
    UseProgram(u32),
    /// Make this vertex array the current vertex source.
    BindVertexArray(u32),
}

/// One delete call a teardown owes the driver.
#[derive(Clone, Copy, PartialEq, Eq, Structural, Debug)]
pub enum GlDelete {
    VertexArray(u32),
    Buffer(u32),
    Program(u32),
}

enum Phase {
    /// No GPU objects owned; `init` is the only step forward.
    Uninitialized,
    /// Fully initialized: drawing and resizing are allowed.
    Ready { program: Program, vao: VertArrayObject, vp_w: u32, vp_h: u32 },
}

/// The orchestrator. Either uninitialized and owning nothing, or ready
/// and owning exactly one program, one vertex array and its buffer.
pub struct Renderer {
    phase: Phase,
}

impl Renderer {
    pub closed spec fn is_ready(&self) -> bool {
        self.phase matches Phase::Ready { .. }
    }

    pub closed spec fn program_id(&self) -> u32 {
        match self.phase {
            Phase::Ready { program, .. } => program.id_spec(),
            Phase::Uninitialized => 0,
        }
    }

    pub closed spec fn vao_id(&self) -> u32 {
        match self.phase {
            Phase::Ready { vao, .. } => vao.id_spec(),
            Phase::Uninitialized => 0,
        }
    }

    pub closed spec fn vbo_id(&self) -> u32 {
        match self.phase {
            Phase::Ready { vao, .. } => vao.vbo_spec().id_spec(),
            Phase::Uninitialized => 0,
        }
    }

    /// The last viewport the renderer asked the host to set.
    pub closed spec fn viewport(&self) -> (u32, u32) {
        match self.phase {
            Phase::Ready { vp_w, vp_h, .. } => (vp_w, vp_h),
            Phase::Uninitialized => (0, 0),
        }
    }

    /// The delete calls owed to the driver for what the renderer
    /// currently owns, in release order: the array, then its buffer,
    /// then the program — the reverse of construction order.
    pub open spec fn owned(&self) -> Seq<GlDelete> {
        if self.is_ready() {
            seq![
                GlDelete::VertexArray(self.vao_id()),
                GlDelete::Buffer(self.vbo_id()),
                GlDelete::Program(self.program_id()),
            ]
        } else {
            seq![]
        }
    }

    /// What `init` makes of an uninitialized renderer.
    pub closed spec fn spec_init(self, program: Program, vao: VertArrayObject) -> Renderer {
        Renderer { phase: Phase::Ready { program, vao, vp_w: 0, vp_h: 0 } }
    }

    /// What `teardown` produces: the uninitialized renderer and the
    /// delete calls owed for everything owned.
    pub closed spec fn spec_teardown(self) -> (Renderer, Seq<GlDelete>) {
        (Renderer { phase: Phase::Uninitialized }, self.owned())
    }

    /// A fresh renderer: nothing owned, nothing owed.
    pub fn new() -> (r: Renderer)
        ensures
            !r.is_ready(),
            r.owned() == Seq::<GlDelete>::empty(),
    {
        Renderer { phase: Phase::Uninitialized }
    }

    /// Take ownership of the built objects; the renderer is ready to
    /// draw. Initialization strictly precedes drawing and resizing, and
    /// never runs twice without a teardown (or context loss) in between,
    /// so no owned handle is ever overwritten and leaked.
    pub fn init(&mut self, program: Program, vao: VertArrayObject)
        requires
            !old(self).is_ready(),
            program.wf(),
            vao.wf(),
        ensures
            *final(self) == old(self).spec_init(program, vao),
            final(self).is_ready(),
            final(self).program_id() == program.id_spec(),
            final(self).vao_id() == vao.id_spec(),
            final(self).vbo_id() == vao.vbo_spec().id_spec(),
            final(self).viewport() == (0u32, 0u32),
    {
        self.phase = Phase::Ready { program, vao, vp_w: 0, vp_h: 0 };
    }

    /// The driver calls of one frame, in order: set the fixed clear
    /// color, clear, activate the pipeline, bind the vertex source.
    pub fn draw(&self) -> (r: Vec<DrawCmd>)
        requires
            self.is_ready(),
        ensures
            r@ == seq![
                DrawCmd::ClearColor {
                    r: CLEAR_R_BITS,
                    g: CLEAR_G_BITS,
                    b: CLEAR_B_BITS,
                    a: CLEAR_A_BITS,
                },
                DrawCmd::Clear,
                DrawCmd::UseProgram(self.program_id()),
                DrawCmd::BindVertexArray(self.vao_id()),
            ],
    {
        let mut cmds: Vec<DrawCmd> = Vec::new();
        cmds.push(
            DrawCmd::ClearColor {
                r: CLEAR_R_BITS,
                g: CLEAR_G_BITS,
                b: CLEAR_B_BITS,
                a: CLEAR_A_BITS,
            },
        );
        cmds.push(DrawCmd::Clear);
        let (pid, vid) = match &self.phase {
            Phase::Ready { program, vao, .. } => (program.use_program(), vao.bind()),
            Phase::Uninitialized => vstd::pervasive::unreached(),
        };
        cmds.push(DrawCmd::UseProgram(pid));
        cmds.push(DrawCmd::BindVertexArray(vid));
        proof {
            assert(cmds@ =~= seq![
                DrawCmd::ClearColor {
                    r: CLEAR_R_BITS,
                    g: CLEAR_G_BITS,
                    b: CLEAR_B_BITS,
                    a: CLEAR_A_BITS,
                },
                DrawCmd::Clear,
                DrawCmd::UseProgram(self.program_id()),
                DrawCmd::BindVertexArray(self.vao_id()),
            ]);
        }
        cmds
    }

    /// Update the viewport. A zero width or height is a transient state
    /// some hosts report while minimizing; it changes nothing and asks
    /// for no driver call. Otherwise the returned pair is the viewport
    /// the host must set.
    pub fn resize(&mut self, width: u32, height: u32) -> (r: Option<(u32, u32)>)
        requires
            old(self).is_ready(),
        ensures
            width == 0 || height == 0 ==> (r is None && *final(self) == *old(self)),
            width != 0 && height != 0 ==> (r == Some((width, height)) && final(self).is_ready()
                && final(self).viewport() == (width, height) && final(self).program_id() == old(
                self,
            ).program_id() && final(self).vao_id() == old(self).vao_id() && final(self).vbo_id()
                == old(self).vbo_id() && final(self).owned() == old(self).owned()),
    {
        if width == 0 || height == 0 {
            return None;
        }
        let mut phase = Phase::Uninitialized;
        core::mem::swap(&mut phase, &mut self.phase);
        match phase {
            Phase::Ready { program, vao, .. } => {
                self.phase = Phase::Ready { program, vao, vp_w: width, vp_h: height };
            },
            Phase::Uninitialized => vstd::pervasive::unreached(),
        }
        Some((width, height))
    }

    /// Release everything owned: the returned delete calls are exactly
    /// the owned handles, once each, in reverse construction order, and
    /// afterwards the renderer owns nothing, so a later `init` starts
    /// from scratch.
    pub fn teardown(&mut self) -> (r: Vec<GlDelete>)
        ensures
            r@ == old(self).owned(),
            (*final(self), r@) == old(self).spec_teardown(),
            !final(self).is_ready(),
            final(self).owned() == Seq::<GlDelete>::empty(),
    {
        let mut phase = Phase::Uninitialized;
        core::mem::swap(&mut phase, &mut self.phase);
        let mut dels: Vec<GlDelete> = Vec::new();
        match phase {
            Phase::Ready { program, vao, .. } => {
                let (vao_id, vbo_id) = vao.delete();
                dels.push(GlDelete::VertexArray(vao_id));
                dels.push(GlDelete::Buffer(vbo_id));
                dels.push(GlDelete::Program(program.delete()));
            },
            Phase::Uninitialized => {},
        }
        proof {
            assert(dels@ =~= old(self).owned());
        }
        dels
    }

    /// The host reported the context lost: the driver has already
    /// reclaimed every object, so the handles are forgotten without any
    /// delete call, and only a full re-`init` makes the renderer ready
    /// again.
    pub fn on_context_lost(&mut self)
        ensures
            !final(self).is_ready(),
            final(self).owned() == Seq::<GlDelete>::empty(),
    {
        self.phase = Phase::Uninitialized;
    }
}

/// Every cycle is leak-free: the three handles `init` takes are exactly
/// what the following `teardown` releases — the array, its buffer and
/// the program, once each, in reverse construction order — and nothing
/// stays owned afterwards, so repeated init/teardown cycles match every
/// construction with exactly one destruction.
pub proof fn lemma_init_teardown_releases_all(r: Renderer, program: Program, vao: VertArrayObject)
    requires
        !r.is_ready(),
    ensures
        ({
            let r1 = r.spec_init(program, vao);
            let (r2, dels) = r1.spec_teardown();
            &&& dels == seq![
                GlDelete::VertexArray(vao.id_spec()),
                GlDelete::Buffer(vao.vbo_spec().id_spec()),
                GlDelete::Program(program.id_spec()),
            ]
            &&& !r2.is_ready()
            &&& r2.owned() == Seq::<GlDelete>::empty()
        }),
{
}

} // verus!
