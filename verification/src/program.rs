//! Shader programs whose entry points and pipeline state are generated together.
use crate::data::ShaderData;
use crate::resources::Resources;
use crate::chars::same_text;
use vstd::prelude::*;

verus! {

/// A nominal shader program whose interfaces are generated together.
pub trait Program: Copy + 'static {
    /// Application data shared by the program's shaders.
    type Globals: ShaderData;

    /// Shared host resources used by this program's captured handles.
    type Resources: Resources;

    /// Compiled shader module embedded by the program macro.
    fn code() -> &'static str;

    /// Generated shader entry points and pipeline state.
    fn shaders() -> &'static [ShaderEntry];
}

/// How a shader's straight-alpha output combines with the render target.
#[derive(Clone, Copy, PartialEq, Eq, Structural, Debug)]
pub enum Blend {
    /// Composites the source over the destination using source alpha.
    Over,
    /// Adds alpha-weighted source RGB to the destination.
    Add,
    /// Replaces the destination with the source output.
    Replace,
}

impl Default for Blend {
    fn default() -> (blend: Self)
        ensures
            blend == Blend::Over,
    {
        Blend::Over
    }
}

/// Generated entry points and resource requirements for one shader pipeline.
pub struct ShaderEntry {
    /// Vertex entry point name.
    pub vertex: &'static str,
    /// Fragment entry point name.
    pub name: &'static str,
    /// Color blending mode.
    pub blend: Blend,
    /// Number of image bindings required by this shader.
    pub images: usize,
}

/// Whether some entry's fragment entry point is named `name`.
pub open spec fn has_shader(entries: Seq<ShaderEntry>, name: Seq<char>) -> bool {
    exists|i: int| 0 <= i < entries.len() && (#[trigger] entries[i]).name@ == name
}

/// Position of the first entry named `name`; the name must be among the entries.
pub fn shader_index(entries: &[ShaderEntry], name: &str) -> (index: usize)
    requires
        has_shader(entries@, name@),
    ensures
        index < entries@.len(),
        entries@[index as int].name@ == name@,
        forall|i: int| 0 <= i < index ==> (#[trigger] entries@[i]).name@ != name@,
{
    let mut index: usize = 0;
    while index < entries.len()
        invariant
            has_shader(entries@, name@),
            index <= entries@.len(),
            forall|i: int| 0 <= i < index ==> (#[trigger] entries@[i]).name@ != name@,
        decreases entries@.len() - index,
    {
        if same_text(entries[index].name, name) {
            return index;
        }
        index += 1;
    }
    proof {
        let i = choose|i: int| 0 <= i < entries@.len() && (#[trigger] entries@[i]).name@ == name@;
        assert(entries@[i].name@ != name@);
    }
    0
}

} // verus!
