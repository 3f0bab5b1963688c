use std::rc::Rc;

use vstd::prelude::*;

verus! {

/// An element (index) buffer object, by its OpenGL name.
pub struct EBO {
    pub id: u32,
}

/// A vertex buffer object, by its OpenGL name.
pub struct VBO {
    pub id: u32,
}

/// A vertex array object, by its OpenGL name.
pub struct VAO {
    pub id: u32,
}

/// A shader storage buffer object, by its OpenGL name.
pub struct SSBO {
    pub id: u32,
}

/// A framebuffer with its colour texture and its depth-stencil
/// renderbuffer, by their OpenGL names.
pub struct FBO {
    pub id: u32,
    pub texture_id: u32,
    pub rbo_id: u32,
}

/// The stage a shader runs at, by its OpenGL enum value.
#[derive(Debug, Clone, Copy, PartialEq, Eq, Structural)]
pub struct Type {
    pub gl_type: u32,
}

/// OpenGL's enum value for the vertex stage (`GL_VERTEX_SHADER`).
pub const GL_VERTEX_SHADER: u32 = 0x8B31;

/// OpenGL's enum value for the fragment stage (`GL_FRAGMENT_SHADER`).
pub const GL_FRAGMENT_SHADER: u32 = 0x8B30;

/// OpenGL's enum value for the compute stage (`GL_COMPUTE_SHADER`).
pub const GL_COMPUTE_SHADER: u32 = 0x91B9;

impl Type {
    /// The vertex stage.
    pub fn vertex() -> (t: Type)
        ensures
            t.gl_type == GL_VERTEX_SHADER,
    {
        Type { gl_type: GL_VERTEX_SHADER }
    }

    /// The fragment stage.
    pub fn fragment() -> (t: Type)
        ensures
            t.gl_type == GL_FRAGMENT_SHADER,
    {
        Type { gl_type: GL_FRAGMENT_SHADER }
    }

    /// The compute stage.
    pub fn compute() -> (t: Type)
        ensures
            t.gl_type == GL_COMPUTE_SHADER,
    {
        Type { gl_type: GL_COMPUTE_SHADER }
    }
}

/// A compiled shader: its OpenGL name, its stage and its source text.
pub struct Shader {
    pub id: u32,
    pub _type: Type,
    pub source: String,
}

/// The vertex and fragment shaders of a program.
pub struct Shaders {
    pub vertex: Shader,
    pub fragment: Shader,
}

impl Shaders {
    /// The pair of shaders, given the outcome of compiling the vertex shader
    /// and then the fragment shader; none where either failed.
    pub fn new(vertex: Option<Shader>, fragment: Option<Shader>) -> (res: Option<Self>)
        ensures
            res is Some <==> (vertex is Some && fragment is Some),
            res is Some ==> res->Some_0.vertex == vertex->Some_0 && res->Some_0.fragment == fragment->Some_0,
    {
        match (vertex, fragment) {
            (Some(vertex), Some(fragment)) => Some(Shaders { vertex, fragment }),
            _ => None,
        }
    }

    /// The OpenGL names of the shaders to delete, in order: the vertex
    /// shader, then the fragment shader.
    pub fn delete(&self) -> (ids: (u32, u32))
        ensures
            ids == (self.vertex.id, self.fragment.id),
    {
        (self.vertex.id, self.fragment.id)
    }
}

/// A linked shader program: its OpenGL name and the shaders it was linked
/// from.
pub struct Program {
    pub id: u32,
    pub shaders: Shaders,
}

impl Program {
    /// The program with OpenGL name `id`, linked from `shaders`.
    pub fn new(id: u32, shaders: Shaders) -> (p: Self)
        ensures
            p.id == id,
            p.shaders == shaders,
    {
        Program { id, shaders }
    }
}

/// The programs a renderer holds: the one for single objects and the one
/// for instanced drawing.
#[derive(Debug, Clone, Copy, PartialEq, Eq, Structural)]
pub enum ProgramType {
    Common,
    Instanced,
}

/// The slot of a program kind in the renderer's programs.
pub open spec fn program_slot(t: ProgramType) -> int {
    match t {
        ProgramType::Common => 0,
        ProgramType::Instanced => 1,
    }
}

/// Another pointer to the same program: `Rc::clone`, which shares the
/// allocation. The contract claims that the pointee is the same value.
#[verifier::external_body]
fn share_program(p: &Rc<Program>) -> (res: Rc<Program>)
    ensures
        res == *p,
{
    Rc::clone(p)
}

/// The programs of the scene and the one in use.
pub struct Renderer {
    pub programs: [Rc<Program>; 2],
    pub current_program: Rc<Program>,
}

impl Renderer {
    /// A renderer over the two programs, with the common one in use.
    pub fn new(common: Program, instanced: Program) -> (r: Self)
        ensures
            *r.programs[0] == common,
            *r.programs[1] == instanced,
            *r.current_program == common,
    {
        let current_program = Rc::new(common);
        let programs = [share_program(&current_program), Rc::new(instanced)];
        Renderer { programs, current_program }
    }

    /// Makes the program of the given kind the one in use; the programs
    /// stay as they are.
    pub fn bind_program(&mut self, program_type: ProgramType)
        ensures
            final(self).programs == old(self).programs,
            final(self).current_program == old(self).programs[program_slot(program_type)],
    {
        let index: usize = match program_type {
            ProgramType::Common => 0,
            ProgramType::Instanced => 1,
        };
        self.bind_program_by_index(index);
    }

    /// Makes the program in slot `index` the one in use; the programs stay
    /// as they are.
    pub fn bind_program_by_index(&mut self, index: usize)
        requires
            index < 2,
        ensures
            final(self).programs == old(self).programs,
            final(self).current_program == old(self).programs[index as int],
    {
        let program_ref = share_program(&self.programs[index]);
        self.current_program = program_ref;
    }
}

} // verus!
