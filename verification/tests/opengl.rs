use geomodel::opengl::{Program, ProgramType, Renderer, Shader, Shaders, Type};

fn shader(id: u32, t: Type) -> Shader {
    Shader { id, _type: t, source: String::from("void main() {}") }
}

#[test]
fn shader_stage_values_are_opengl_enums() {
    assert_eq!(Type::vertex().gl_type, gl::VERTEX_SHADER);
    assert_eq!(Type::fragment().gl_type, gl::FRAGMENT_SHADER);
    assert_eq!(Type::compute().gl_type, gl::COMPUTE_SHADER);
}

#[test]
fn shaders_need_both_stages() {
    assert!(Shaders::new(None, Some(shader(2, Type::fragment()))).is_none());
    assert!(Shaders::new(Some(shader(1, Type::vertex())), None).is_none());
    let pair = Shaders::new(Some(shader(1, Type::vertex())), Some(shader(2, Type::fragment()))).unwrap();
    assert_eq!(pair.vertex.id, 1);
    assert_eq!(pair.fragment.id, 2);
    assert_eq!(pair.delete(), (1, 2));
}

#[test]
fn renderer_switches_programs() {
    let common = Program::new(10, Shaders::new(Some(shader(1, Type::vertex())), Some(shader(2, Type::fragment()))).unwrap());
    let instanced = Program::new(20, Shaders::new(Some(shader(3, Type::vertex())), Some(shader(4, Type::fragment()))).unwrap());
    let mut r = Renderer::new(common, instanced);
    assert_eq!(r.current_program.id, 10);
    r.bind_program(ProgramType::Instanced);
    assert_eq!(r.current_program.id, 20);
    assert_eq!(r.programs[0].id, 10);
    r.bind_program_by_index(0);
    assert_eq!(r.current_program.id, 10);
    r.bind_program(ProgramType::Common);
    assert_eq!(r.current_program.id, 10);
}
