use glcore::mesh::Mesh;
use glcore::renderer::buffer::{VertArrayObject, VertBufObject};
use glcore::renderer::{
    DrawCmd, GlDelete, Renderer, CLEAR_A_BITS, CLEAR_B_BITS, CLEAR_G_BITS, CLEAR_R_BITS,
};
use glcore::shader::{BuildStep, GlError, Program, ProgramBuilder, Shader, StageKind};

fn triangle() -> Mesh {
    Mesh::from_str("v 0 0 0\nv 1 0 0\nv 0 1 0\nvt 0 0\nvn 0 0 1\nf 1/1/1 2/1/1 3/1/1\n")
        .expect("valid mesh parses")
}

fn linked_program(id: u32) -> Program {
    ProgramBuilder::new(id)
        .expect("nonzero handle")
        .build(true, String::new())
        .expect("link reported ok")
}

fn built_vao(vao_id: u32, vbo_id: u32) -> VertArrayObject {
    let (vbo, _) = VertBufObject::from_mesh(vbo_id, &triangle()).expect("nonzero handle");
    match VertArrayObject::new(vao_id, vbo) {
        Ok(vao) => vao,
        Err(_) => panic!("nonzero handle"),
    }
}

#[test]
fn zero_shader_handle_is_creation_failure() {
    let r = Shader::from_bytes(StageKind::Vertex, 0, true, String::new());
    assert!(matches!(r, Err(GlError::ResourceCreationFailed)));
}

#[test]
fn failed_compile_carries_the_info_log() {
    let log = String::from("0:1(1): error: syntax error, unexpected NEW_IDENTIFIER");
    let r = Shader::from_bytes(StageKind::Fragment, 5, false, log.clone());
    match r {
        Err(e) => {
            assert!(matches!(e, GlError::CompileError { .. }));
            assert_eq!(e.log(), log.as_str());
            assert!(!e.log().is_empty());
        }
        Ok(_) => panic!("a failed compile must not produce a shader"),
    }
}

#[test]
fn successful_compile_keeps_handle_and_kind() {
    let s = Shader::from_bytes(StageKind::Vertex, 7, true, String::new()).expect("compiles");
    assert_eq!(s.id(), 7);
    assert_eq!(s.kind(), StageKind::Vertex);
    assert_eq!(s.delete(), 7);
}

#[test]
fn zero_program_handle_is_creation_failure() {
    assert!(matches!(
        ProgramBuilder::new(0),
        Err(GlError::ResourceCreationFailed)
    ));
}

#[test]
fn builder_records_steps_in_call_order() {
    let v = Shader::from_bytes(StageKind::Vertex, 2, true, String::new()).unwrap();
    let f = Shader::from_bytes(StageKind::Fragment, 3, true, String::new()).unwrap();
    let b = ProgramBuilder::new(9)
        .unwrap()
        .gl_bind_attrib(0, String::from("vert_pos"))
        .attach(&v)
        .attach(&f);
    assert_eq!(b.id(), 9);
    let steps = b.steps();
    assert_eq!(steps.len(), 3);
    match &steps[0] {
        BuildStep::BindAttrib { index, name } => {
            assert_eq!(*index, 0);
            assert_eq!(name.as_str(), "vert_pos");
        }
        _ => panic!("first step is the attribute binding"),
    }
    assert!(matches!(steps[1], BuildStep::Attach { shader: 2 }));
    assert!(matches!(steps[2], BuildStep::Attach { shader: 3 }));
}

#[test]
fn successful_link_yields_usable_program() {
    let v = Shader::from_bytes(StageKind::Vertex, 2, true, String::new()).unwrap();
    let f = Shader::from_bytes(StageKind::Fragment, 3, true, String::new()).unwrap();
    let p = ProgramBuilder::new(9)
        .unwrap()
        .attach(&v)
        .attach(&f)
        .build(true, String::new())
        .expect("link reported ok");
    assert_eq!(p.use_program(), 9);
    // stages may be dropped right after the link
    assert_eq!(v.delete(), 2);
    assert_eq!(f.delete(), 3);
    assert_eq!(p.delete(), 9);
}

#[test]
fn failed_link_carries_the_info_log() {
    let log = String::from("error: no vertex shader attached");
    let f1 = Shader::from_bytes(StageKind::Fragment, 3, true, String::new()).unwrap();
    let f2 = Shader::from_bytes(StageKind::Fragment, 4, true, String::new()).unwrap();
    let r = ProgramBuilder::new(9)
        .unwrap()
        .attach(&f1)
        .attach(&f2)
        .build(false, log.clone());
    match r {
        Err(e) => {
            assert!(matches!(e, GlError::LinkError { .. }));
            assert_eq!(e.log(), log.as_str());
        }
        Ok(_) => panic!("a failed link must not produce a program"),
    }
}

#[test]
fn buffer_size_is_vertex_count_times_stride() {
    let mesh = triangle();
    let (vbo, size) = VertBufObject::from_mesh(4, &mesh).expect("nonzero handle");
    assert_eq!(size, 3 * 32);
    assert!(matches!(
        VertBufObject::from_mesh(0, &mesh),
        Err(GlError::ResourceCreationFailed)
    ));
    let vao = match VertArrayObject::new(9, vbo) {
        Ok(vao) => vao,
        Err(_) => panic!("nonzero handle"),
    };
    assert_eq!(vao.bind(), 9);
    assert_eq!(vao.delete(), (9, 4));
}

#[test]
fn failed_array_creation_returns_the_buffer() {
    let (vbo, _) = VertBufObject::from_mesh(4, &triangle()).expect("nonzero handle");
    match VertArrayObject::new(0, vbo) {
        Err((e, _given_back)) => assert!(matches!(e, GlError::ResourceCreationFailed)),
        Ok(_) => panic!("zero handle must not make an array"),
    }
}

#[test]
fn clear_color_bits_are_the_fixed_background() {
    assert_eq!(f32::from_bits(CLEAR_R_BITS), 0.7);
    assert_eq!(f32::from_bits(CLEAR_G_BITS), 0.6);
    assert_eq!(f32::from_bits(CLEAR_B_BITS), 0.8);
    assert_eq!(f32::from_bits(CLEAR_A_BITS), 1.0);
}

#[test]
fn draw_issues_the_frame_calls_in_order() {
    let mut r = Renderer::new();
    r.init(linked_program(11), built_vao(9, 4));
    let cmds = r.draw();
    assert_eq!(
        cmds,
        vec![
            DrawCmd::ClearColor {
                r: CLEAR_R_BITS,
                g: CLEAR_G_BITS,
                b: CLEAR_B_BITS,
                a: CLEAR_A_BITS
            },
            DrawCmd::Clear,
            DrawCmd::UseProgram(11),
            DrawCmd::BindVertexArray(9),
        ]
    );
}

#[test]
fn zero_sized_resize_is_a_no_op() {
    let mut r = Renderer::new();
    r.init(linked_program(11), built_vao(9, 4));
    assert_eq!(r.resize(0, 600), None);
    assert_eq!(r.resize(800, 0), None);
    assert_eq!(r.resize(0, 0), None);
    assert_eq!(r.resize(800, 600), Some((800, 600)));
    // still a no-op after a real resize: the viewport state is kept
    assert_eq!(r.resize(0, 7), None);
    assert_eq!(r.resize(1, 1), Some((1, 1)));
}

#[test]
fn teardown_releases_every_handle_exactly_once() {
    let mut r = Renderer::new();
    r.init(linked_program(11), built_vao(9, 4));
    let dels = r.teardown();
    assert_eq!(
        dels,
        vec![
            GlDelete::VertexArray(9),
            GlDelete::Buffer(4),
            GlDelete::Program(11),
        ]
    );
    // nothing is owned any more: a second teardown deletes nothing
    assert_eq!(r.teardown(), vec![]);
}

#[test]
fn init_teardown_cycles_do_not_leak() {
    let mut r = Renderer::new();
    r.init(linked_program(11), built_vao(9, 4));
    assert_eq!(
        r.teardown(),
        vec![
            GlDelete::VertexArray(9),
            GlDelete::Buffer(4),
            GlDelete::Program(11),
        ]
    );
    // a fresh cycle with fresh handles releases exactly those
    r.init(linked_program(21), built_vao(19, 14));
    assert_eq!(
        r.teardown(),
        vec![
            GlDelete::VertexArray(19),
            GlDelete::Buffer(14),
            GlDelete::Program(21),
        ]
    );
    assert_eq!(r.teardown(), vec![]);
}

#[test]
fn context_loss_forgets_handles_without_deleting() {
    let mut r = Renderer::new();
    r.init(linked_program(11), built_vao(9, 4));
    r.on_context_lost();
    // the driver already reclaimed the objects: nothing may be deleted
    assert_eq!(r.teardown(), vec![]);
    // a resume rebuilds from scratch
    r.init(linked_program(31), built_vao(29, 24));
    assert_eq!(
        r.teardown(),
        vec![
            GlDelete::VertexArray(29),
            GlDelete::Buffer(24),
            GlDelete::Program(31),
        ]
    );
}
