//! The generated interface between a shader program and its host.
use crate::data::ShaderData;
use vstd::prelude::*;
use vstd::string::*;

verus! {

/// A nominal shader program whose interfaces are generated together.
///
/// Its metadata and code must come from the same validated program and match its globals layout.
pub trait Program: Copy + 'static {
    type Globals: ShaderData + Default;

    /// The compiled shader module.
    fn code() -> &'static [u8];

    /// The generated shader entries.
    fn shaders() -> &'static [ShaderEntry];
}

/// How a shader's straight-alpha output combines with the render target.
#[derive(Clone, Copy, PartialEq, Eq, Structural, Debug)]
pub enum Blend {
    Over,
    Add,
    Replace,
}

impl Default for Blend {
    fn default() -> (blend: Self)
        ensures
            blend == Blend::Over,
    {
        Blend::Over
    }
}

/// The geometry a shader rasterizes.
#[derive(Clone, Copy, PartialEq, Eq, Structural, Debug)]
pub enum Primitive {
    Quad,
    Triangle,
}

/// One generated shader: its entry point name and fixed pipeline state.
pub struct ShaderEntry {
    pub name: &'static str,
    pub blend: Blend,
    pub primitive: Primitive,
}

/// Whether some entry is named `name`.
pub open spec fn has_shader(entries: Seq<ShaderEntry>, name: Seq<char>) -> bool {
    exists|i: int| 0 <= i < entries.len() && (#[trigger] entries[i]).name@ == name
}

/// Position of the first entry named `name`; the name must be among the entries.
pub fn shader_index(entries: &[ShaderEntry], name: &str) -> (index: usize)
    requires
        has_shader(entries@, name@),
    ensures
        index < entries@.len(),
        entries@[index as int].name@ == name@,
        forall|i: int| 0 <= i < index ==> (#[trigger] entries@[i]).name@ != name@,
{
    let b = name.as_bytes();
    let mut index: usize = 0;
    while index < entries.len()
        invariant
            b@ == name.spec_bytes(),
            has_shader(entries@, name@),
            index <= entries@.len(),
            forall|i: int| 0 <= i < index ==> (#[trigger] entries@[i]).name@ != name@,
        decreases entries@.len() - index,
    {
        let a = entries[index].name.as_bytes();
        let mut byte: usize = 0;
        if a.len() == b.len() {
            while byte < a.len() && a[byte] == b[byte]
                invariant
                    a.len() == b.len(),
                    byte <= a.len(),
                    forall|k: int| 0 <= k < byte ==> a@[k] == b@[k],
                decreases a.len() - byte,
            {
                byte += 1;
            }
            if byte == a.len() {
                proof {
                    assert(a@ =~= b@);
                    vstd::utf8::encode_utf8_decode_utf8(entries@[index as int].name@);
                    vstd::utf8::encode_utf8_decode_utf8(name@);
                }
                return index;
            }
        }
        proof {
            if entries@[index as int].name@ == name@ {
                assert(a@ == b@);
                if a.len() == b.len() {
                    assert(a@[byte as int] == b@[byte as int]);
                }
            }
        }
        index += 1;
    }
    proof {
        let i = choose|i: int| 0 <= i < entries@.len() && (#[trigger] entries@[i]).name@ == name@;
        assert(entries@[i].name@ != name@);
    }
    0
}

/// Describes the host-visible interface and fixed state of one shader.
///
/// The entry must use this payload layout, globals type and geometry in the generated program.
pub trait ShaderSpec: ShaderData {
    type Program: Program;
    type Geometry;

    /// Position of the shader among its program's entries.
    fn index() -> usize;
}

/// What a shader's fragment input rasterizes, and for which program.
pub trait ShaderInput {
    type Program: Program;
    type Geometry;
}

} // verus!
