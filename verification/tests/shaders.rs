use cantus::contract;
use cantus::program;

#[test]
fn finds_the_first_contract_entry_by_name() {
    let entries = [
        contract::ShaderEntry { name: "glass", blend: contract::Blend::Over, primitive: contract::Primitive::Quad },
        contract::ShaderEntry { name: "glow", blend: contract::Blend::Add, primitive: contract::Primitive::Triangle },
        contract::ShaderEntry { name: "glow", blend: contract::Blend::Replace, primitive: contract::Primitive::Quad },
    ];
    assert_eq!(contract::shader_index(&entries, "glass"), 0);
    assert_eq!(contract::shader_index(&entries, "glow"), 1);
    assert!(contract::Blend::default() == contract::Blend::Over);
}

#[test]
fn finds_the_first_program_entry_by_name() {
    let entries = [
        program::ShaderEntry { vertex: "quad_vs", name: "text", blend: program::Blend::Over, images: 0 },
        program::ShaderEntry { vertex: "quad_vs", name: "image", blend: program::Blend::Replace, images: 1 },
        program::ShaderEntry { vertex: "tri_vs", name: "image", blend: program::Blend::Add, images: 2 },
    ];
    assert_eq!(program::shader_index(&entries, "image"), 1);
    assert_eq!(program::shader_index(&entries, "text"), 0);
    assert!(program::Blend::default() == program::Blend::Over);
}
