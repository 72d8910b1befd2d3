use phobos::{
    RayTracingPipelineBuilder, SBTEntry, ShaderCreateInfo, ShaderGroup, ShaderIndex,
};
use phobos::raytracing::{aligned_group_size, sbt_entry, shader_group_index};

fn sh(h: u64) -> ShaderCreateInfo {
    ShaderCreateInfo { code_hash: h }
}

#[test]
fn group_sort_keys() {
    let i = ShaderIndex { index: 0 };
    assert_eq!(shader_group_index(&ShaderGroup::RayGeneration { shader: i }), 0);
    assert_eq!(shader_group_index(&ShaderGroup::RayMiss { shader: i }), 1);
    assert_eq!(
        shader_group_index(&ShaderGroup::RayHit { closest_hit: Some(i), any_hit: None }),
        2
    );
    assert_eq!(shader_group_index(&ShaderGroup::Callable { shader: i }), 3);
}

#[test]
fn builder_collects_groups_and_sorts() {
    let info = RayTracingPipelineBuilder::new("rt".to_string())
        .add_callable_group(sh(10))
        .add_ray_gen_group(sh(11))
        .add_ray_hit_group(Some(sh(12)), None)
        .add_ray_miss_group(sh(13))
        .max_recursion_depth(4)
        .build();
    assert_eq!(info.name, "rt");
    assert_eq!(info.max_recursion_depth, 4);
    assert_eq!(info.shader_groups.len(), 4);
    // Stable sort by kind: generation, miss, hit, callable.
    let keys: Vec<u32> = info.shader_groups.iter().map(shader_group_index).collect();
    assert_eq!(keys, vec![0, 1, 2, 3]);
    assert_eq!(info.shaders.len(), 4);
}

#[test]
fn builder_sort_is_stable() {
    let g1 = ShaderGroup::RayMiss { shader: ShaderIndex { index: 3 } };
    let g2 = ShaderGroup::RayGeneration { shader: ShaderIndex { index: 7 } };
    let g3 = ShaderGroup::RayMiss { shader: ShaderIndex { index: 5 } };
    let info = RayTracingPipelineBuilder::new("rt".to_string())
        .add_shader_group(g1)
        .add_shader_group(g2)
        .add_shader_group(g3)
        .build();
    assert_eq!(info.shader_groups, vec![g2, g1, g3]);
}

#[test]
fn shaders_deduplicated_by_hash() {
    let info = RayTracingPipelineBuilder::new("rt".to_string())
        .add_ray_gen_group(sh(42))
        .add_ray_miss_group(sh(42))
        .add_ray_miss_group(sh(43))
        .build();
    // The shader with hash 42 is stored once and shared.
    assert_eq!(info.shaders.len(), 2);
    let mut indices = Vec::new();
    for g in &info.shader_groups {
        match g {
            ShaderGroup::RayGeneration { shader } => indices.push(shader.index),
            ShaderGroup::RayMiss { shader } => indices.push(shader.index),
            _ => {}
        }
    }
    assert_eq!(indices, vec![0, 0, 1]);
}

#[test]
fn builder_name_accessor() {
    let b = RayTracingPipelineBuilder::new("shadows".to_string());
    assert_eq!(b.name(), "shadows");
}

#[test]
fn aligned_size_rounds_up_to_alignment() {
    assert_eq!(aligned_group_size(5, 4), 8);
    assert_eq!(aligned_group_size(8, 4), 8);
    assert_eq!(aligned_group_size(1, 64), 64);
    assert_eq!(aligned_group_size(32, 64), 64);
    assert_eq!(aligned_group_size(65, 64), 128);
}

#[test]
fn sbt_entries_count_and_offset() {
    let i = ShaderIndex { index: 0 };
    let groups = vec![
        ShaderGroup::RayGeneration { shader: i },
        ShaderGroup::RayMiss { shader: i },
        ShaderGroup::RayMiss { shader: i },
        ShaderGroup::RayHit { closest_hit: Some(i), any_hit: None },
    ];
    assert_eq!(sbt_entry(&groups, 0), SBTEntry { offset: 0, count: 1 });
    assert_eq!(sbt_entry(&groups, 1), SBTEntry { offset: 1, count: 2 });
    assert_eq!(sbt_entry(&groups, 2), SBTEntry { offset: 3, count: 1 });
    // A kind that never occurs gets offset zero and count zero.
    assert_eq!(sbt_entry(&groups, 3), SBTEntry { offset: 0, count: 0 });
}
