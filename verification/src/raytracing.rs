//! Construction of ray tracing pipeline descriptions: shader deduplication,
//! shader group bookkeeping, and the pure layout arithmetic of the shader
//! binding table.

use vstd::prelude::*;

verus! {

/// The index of a shader inside a pipeline's deduplicated shader list.
#[derive(Copy, Clone, Eq, PartialEq, Hash, Debug, Structural)]
pub struct ShaderIndex {
    pub index: u32,
}

/// A shader as handed to the builder, identified by the hash of its code;
/// two shaders with equal hashes are treated as the same module.
#[derive(Copy, Clone, Eq, PartialEq, Hash, Debug, Structural)]
pub struct ShaderCreateInfo {
    pub code_hash: u64,
}

impl ShaderCreateInfo {
    /// The hash of the shader's code.
    pub fn code_hash(&self) -> (r: u64)
        ensures
            r == self.code_hash,
    {
        self.code_hash
    }
}

/// One shader group of a ray tracing pipeline.
#[derive(Copy, Clone, Hash, Eq, PartialEq, Debug)]
pub enum ShaderGroup {
    RayGeneration { shader: ShaderIndex },
    RayMiss { shader: ShaderIndex },
    RayHit { closest_hit: Option<ShaderIndex>, any_hit: Option<ShaderIndex> },
    Callable { shader: ShaderIndex },
}

/// The sort key of a shader group: generation, miss, hit, callable.
pub open spec fn spec_group_index(g: ShaderGroup) -> u32 {
    match g {
        ShaderGroup::RayGeneration { .. } => 0,
        ShaderGroup::RayMiss { .. } => 1,
        ShaderGroup::RayHit { .. } => 2,
        ShaderGroup::Callable { .. } => 3,
    }
}

/// The sort key of a shader group.
pub fn shader_group_index(group: &ShaderGroup) -> (r: u32)
    ensures
        r == spec_group_index(*group),
{
    match group {
        ShaderGroup::RayGeneration { .. } => 0,
        ShaderGroup::RayMiss { .. } => 1,
        ShaderGroup::RayHit { .. } => 2,
        ShaderGroup::Callable { .. } => 3,
    }
}

/// One region of the shader binding table: where a kind of group starts in
/// the group list, and how many groups of that kind there are.
#[derive(Debug, Copy, Clone, Eq, PartialEq, Structural)]
pub struct SBTEntry {
    pub offset: u32,
    pub count: u32,
}

/// The groups with sort key below `key`, each run of one key kept in
/// declaration order: the stable sort of the group list by key.
pub open spec fn groups_sorted_upto(gs: Seq<ShaderGroup>, key: int) -> Seq<ShaderGroup>
    decreases key,
{
    if key <= 0 {
        Seq::empty()
    } else {
        groups_sorted_upto(gs, key - 1) + gs.filter(
            |g: ShaderGroup| spec_group_index(g) == key - 1,
        )
    }
}

/// The stable sort of a group list by sort key.
pub open spec fn groups_sorted(gs: Seq<ShaderGroup>) -> Seq<ShaderGroup> {
    groups_sorted_upto(gs, 4)
}

/// The first position holding a shader with the given code hash, starting at
/// `i`; the length when there is none.
pub open spec fn first_hash_at(shaders: Seq<ShaderCreateInfo>, h: u64, i: int) -> int
    decreases shaders.len() - i,
{
    if i < 0 || i >= shaders.len() {
        shaders.len() as int
    } else if shaders[i].code_hash == h {
        i
    } else {
        first_hash_at(shaders, h, i + 1)
    }
}

/// Registering a shader: the list and the index the shader lands on.  A
/// shader whose code hash is already present reuses the first such slot and
/// leaves the list unchanged; otherwise it is appended.
pub open spec fn register_shader(shaders: Seq<ShaderCreateInfo>, sh: ShaderCreateInfo) -> (
    Seq<ShaderCreateInfo>,
    int,
) {
    let at = first_hash_at(shaders, sh.code_hash, 0);
    if at < shaders.len() {
        (shaders, at)
    } else {
        (shaders.push(sh), shaders.len() as int)
    }
}

/// A ray tracing pipeline description: its name, recursion bound, shader
/// groups and deduplicated shaders.
#[derive(Debug, Clone, Eq, PartialEq)]
pub struct RayTracingPipelineCreateInfo {
    pub name: String,
    pub max_recursion_depth: u32,
    pub shader_groups: Vec<ShaderGroup>,
    pub shaders: Vec<ShaderCreateInfo>,
}

/// Builds a ray tracing pipeline description incrementally.
pub struct RayTracingPipelineBuilder {
    inner: RayTracingPipelineCreateInfo,
}

impl RayTracingPipelineBuilder {
    /// The state of the builder.
    pub closed spec fn info(&self) -> RayTracingPipelineCreateInfo {
        self.inner
    }

    /// Starts a builder for a pipeline of the given name.
    pub fn new(name: String) -> (r: Self)
        ensures
            r.info().name == name,
            r.info().max_recursion_depth == 0,
            r.info().shader_groups@.len() == 0,
            r.info().shaders@.len() == 0,
    {
        Self {
            inner: RayTracingPipelineCreateInfo {
                name,
                max_recursion_depth: 0,
                shader_groups: vec![],
                shaders: vec![],
            },
        }
    }

    /// Registers a shader, reusing the slot of an already registered shader
    /// with the same code hash.
    fn add_shader(&mut self, shader: ShaderCreateInfo) -> (r: ShaderIndex)
        requires
            old(self).info().shaders@.len() < 0xffff_ffff,
        ensures
            final(self).info().name == old(self).info().name,
            final(self).info().max_recursion_depth == old(self).info().max_recursion_depth,
            final(self).info().shader_groups == old(self).info().shader_groups,
            final(self).info().shaders@ == register_shader(
                old(self).info().shaders@,
                shader,
            ).0,
            r.index == register_shader(old(self).info().shaders@, shader).1,
    {
        let ghost sh = self.inner.shaders@;
        let n = self.inner.shaders.len();
        for idx in 0..n
            invariant
                n == sh.len(),
                n < 0xffff_ffff,
                self.inner.shaders@ == sh,
                self.inner == old(self).inner,
                first_hash_at(sh, shader.code_hash, 0) == first_hash_at(
                    sh,
                    shader.code_hash,
                    idx as int,
                ),
        {
            if self.inner.shaders[idx].code_hash() == shader.code_hash {
                return ShaderIndex { index: idx as u32 };
            }
        }
        self.inner.shaders.push(shader);
        ShaderIndex { index: n as u32 }
    }

    /// Appends a shader group as given.
    pub fn add_shader_group(self, group: ShaderGroup) -> (r: Self)
        ensures
            r.info().name == self.info().name,
            r.info().max_recursion_depth == self.info().max_recursion_depth,
            r.info().shaders == self.info().shaders,
            r.info().shader_groups@ == self.info().shader_groups@.push(group),
    {
        let mut s = self;
        s.inner.shader_groups.push(group);
        s
    }

    /// Registers the shader and appends a ray generation group over it.
    pub fn add_ray_gen_group(self, shader: ShaderCreateInfo) -> (r: Self)
        requires
            self.info().shaders@.len() < 0xffff_ffff,
        ensures
            r.info().name == self.info().name,
            r.info().max_recursion_depth == self.info().max_recursion_depth,
            r.info().shaders@ == register_shader(self.info().shaders@, shader).0,
            r.info().shader_groups@ == self.info().shader_groups@.push(
                ShaderGroup::RayGeneration {
                    shader: ShaderIndex {
                        index: register_shader(self.info().shaders@, shader).1 as u32,
                    },
                },
            ),
            r.info().shader_groups@.last() matches ShaderGroup::RayGeneration { shader: s2 }
                && r.info().shaders@[s2.index as int].code_hash == shader.code_hash,
    {
        let mut s = self;
        let idx = s.add_shader(shader);
        proof {
            lemma_first_hash_found(s.info().shaders@, shader.code_hash);
        }
        s.inner.shader_groups.push(ShaderGroup::RayGeneration { shader: idx });
        s
    }

    /// Registers the shader and appends a ray miss group over it.
    pub fn add_ray_miss_group(self, shader: ShaderCreateInfo) -> (r: Self)
        requires
            self.info().shaders@.len() < 0xffff_ffff,
        ensures
            r.info().name == self.info().name,
            r.info().max_recursion_depth == self.info().max_recursion_depth,
            r.info().shaders@ == register_shader(self.info().shaders@, shader).0,
            r.info().shader_groups@ == self.info().shader_groups@.push(
                ShaderGroup::RayMiss {
                    shader: ShaderIndex {
                        index: register_shader(self.info().shaders@, shader).1 as u32,
                    },
                },
            ),
            r.info().shader_groups@.last() matches ShaderGroup::RayMiss { shader: s2 } && r.info(
            ).shaders@[s2.index as int].code_hash == shader.code_hash,
    {
        let mut s = self;
        let idx = s.add_shader(shader);
        proof {
            lemma_first_hash_found(s.info().shaders@, shader.code_hash);
        }
        s.inner.shader_groups.push(ShaderGroup::RayMiss { shader: idx });
        s
    }

    /// Registers the given hit shaders, the closest-hit one first, and
    /// appends a ray hit group over their deduplicated indices.
    pub fn add_ray_hit_group(
        self,
        closest_hit: Option<ShaderCreateInfo>,
        any_hit: Option<ShaderCreateInfo>,
    ) -> (r: Self)
        requires
            self.info().shaders@.len() + 2 < 0xffff_ffff,
        ensures
            r.info().name == self.info().name,
            r.info().max_recursion_depth == self.info().max_recursion_depth,
            ({
                let sh0 = self.info().shaders@;
                let step1 = if closest_hit is Some {
                    register_shader(sh0, closest_hit->0)
                } else {
                    (sh0, 0int)
                };
                let step2 = if any_hit is Some {
                    register_shader(step1.0, any_hit->0)
                } else {
                    (step1.0, 0int)
                };
                let cg = if closest_hit is Some {
                    Some(ShaderIndex { index: step1.1 as u32 })
                } else {
                    None
                };
                let ag = if any_hit is Some {
                    Some(ShaderIndex { index: step2.1 as u32 })
                } else {
                    None
                };
                &&& r.info().shaders@ == step2.0
                &&& r.info().shader_groups@ == self.info().shader_groups@.push(
                    ShaderGroup::RayHit { closest_hit: cg, any_hit: ag },
                )
            }),
    {
        let mut s = self;
        let c = match closest_hit {
            Some(sh) => Some(s.add_shader(sh)),
            None => None,
        };
        let a = match any_hit {
            Some(sh) => Some(s.add_shader(sh)),
            None => None,
        };
        s.inner.shader_groups.push(ShaderGroup::RayHit { closest_hit: c, any_hit: a });
        s
    }

    /// Registers the shader and appends a callable group over it.
    pub fn add_callable_group(self, shader: ShaderCreateInfo) -> (r: Self)
        requires
            self.info().shaders@.len() < 0xffff_ffff,
        ensures
            r.info().name == self.info().name,
            r.info().max_recursion_depth == self.info().max_recursion_depth,
            r.info().shaders@ == register_shader(self.info().shaders@, shader).0,
            r.info().shader_groups@ == self.info().shader_groups@.push(
                ShaderGroup::Callable {
                    shader: ShaderIndex {
                        index: register_shader(self.info().shaders@, shader).1 as u32,
                    },
                },
            ),
            r.info().shader_groups@.last() matches ShaderGroup::Callable { shader: s2 } && r.info(
            ).shaders@[s2.index as int].code_hash == shader.code_hash,
    {
        let mut s = self;
        let idx = s.add_shader(shader);
        proof {
            lemma_first_hash_found(s.info().shaders@, shader.code_hash);
        }
        s.inner.shader_groups.push(ShaderGroup::Callable { shader: idx });
        s
    }

    /// Sets the maximum ray recursion depth.
    pub fn max_recursion_depth(self, depth: u32) -> (r: Self)
        ensures
            r.info().name == self.info().name,
            r.info().max_recursion_depth == depth,
            r.info().shader_groups == self.info().shader_groups,
            r.info().shaders == self.info().shaders,
    {
        let mut s = self;
        s.inner.max_recursion_depth = depth;
        s
    }

    /// The name of the pipeline under construction.
    pub fn name(&self) -> (r: &str)
        ensures
            r@ == self.info().name@,
    {
        self.inner.name.as_str()
    }

    /// Finishes the description; shader groups are sorted by kind, stably:
    /// generation groups first, then miss, hit and callable groups, each in
    /// declaration order.
    pub fn build(self) -> (r: RayTracingPipelineCreateInfo)
        ensures
            r.name == self.info().name,
            r.max_recursion_depth == self.info().max_recursion_depth,
            r.shaders == self.info().shaders,
            r.shader_groups@ == groups_sorted(self.info().shader_groups@),
    {
        let mut s = self;
        let gs = s.inner.shader_groups;
        let ghost gv = gs@;
        let n = gs.len();
        let mut sorted: Vec<ShaderGroup> = Vec::new();
        proof {
            assert(sorted@ =~= groups_sorted_upto(gv, 0));
        }
        for key in 0..4u32
            invariant
                n == gv.len(),
                gs@ == gv,
                sorted@ == groups_sorted_upto(gv, key as int),
        {
            let ghost done = sorted@;
            proof {
                reveal(Seq::filter);
                assert(gv.subrange(0, 0) =~= Seq::<ShaderGroup>::empty());
            }
            for j in 0..n
                invariant
                    n == gv.len(),
                    gs@ == gv,
                    sorted@ == done + gv.subrange(0, j as int).filter(
                        |g: ShaderGroup| spec_group_index(g) == key,
                    ),
            {
                let gi = shader_group_index(&gs[j]);
                proof {
                    reveal(Seq::filter);
                    assert(gv.subrange(0, j + 1).drop_last() =~= gv.subrange(0, j as int));
                    assert(gv.subrange(0, j + 1).last() == gv[j as int]);
                }
                if gi == key {
                    sorted.push(gs[j]);
                }
            }
            proof {
                assert(gv.subrange(0, n as int) =~= gv);
                assert(groups_sorted_upto(gv, key + 1) == groups_sorted_upto(gv, key as int)
                    + gv.filter(|g: ShaderGroup| spec_group_index(g) == key));
            }
        }
        s.inner.shader_groups = sorted;
        s.inner
    }
}

/// When a hash occurs in the shader list, `first_hash_at` lands on an entry
/// carrying it.
pub proof fn lemma_first_hash_found(shaders: Seq<ShaderCreateInfo>, h: u64)
    ensures
        first_hash_at(shaders, h, 0) < shaders.len() ==> shaders[first_hash_at(
            shaders,
            h,
            0,
        )].code_hash == h,
{
    lemma_first_hash_at(shaders, h, 0);
}

proof fn lemma_first_hash_at(shaders: Seq<ShaderCreateInfo>, h: u64, i: int)
    ensures
        first_hash_at(shaders, h, i) < shaders.len() ==> shaders[first_hash_at(
            shaders,
            h,
            i,
        )].code_hash == h,
    decreases shaders.len() - i,
{
    if 0 <= i < shaders.len() {
        lemma_first_hash_at(shaders, h, i + 1);
    }
}

/// Rounds a shader group handle size up to the group base alignment, which
/// the underlying API guarantees to be a power of two: the stride between
/// shader group records in a binding table.  The result is the smallest
/// aligned size that holds a handle: its bits below the alignment are clear,
/// and it lies in `[handle_size, handle_size + alignment)`.
pub fn aligned_group_size(handle_size: u32, alignment: u32) -> (r: u32)
    requires
        alignment > 0,
        (alignment & ((alignment - 1) as u32)) == 0,
        handle_size + alignment <= u32::MAX,
    ensures
        (r & ((alignment - 1) as u32)) == 0,
        handle_size <= r < handle_size + alignment,
{
    let am1 = alignment - 1;
    let r = (handle_size + am1) & !am1;
    proof {
        let h = handle_size;
        let a = alignment;
        assert(((((h + a - 1) as u32) & !((a - 1) as u32)) & ((a - 1) as u32)) == 0 && h <= (((h
            + a - 1) as u32) & !((a - 1) as u32)) && ((((h + a - 1) as u32) & !((a - 1) as u32))
            <= ((h + a - 1) as u32))) by (bit_vector)
            requires
                a > 0,
                (a & ((a - 1) as u32)) == 0,
                h <= 0xffffffffu32 - a,
        ;
        assert(((h + a - 1) as u32) == h + a - 1);
    }
    r
}

/// The number of groups of one sort key.
pub open spec fn spec_kind_count(gs: Seq<ShaderGroup>, key: u32) -> nat {
    gs.filter(|g: ShaderGroup| spec_group_index(g) == key).len()
}

/// The first position of a group with the given sort key, starting at `i`;
/// the length when there is none.
pub open spec fn first_kind_at(gs: Seq<ShaderGroup>, key: u32, i: int) -> int
    decreases gs.len() - i,
{
    if i < 0 || i >= gs.len() {
        gs.len() as int
    } else if spec_group_index(gs[i]) == key {
        i
    } else {
        first_kind_at(gs, key, i + 1)
    }
}

/// The search for a kind's first position never lands before its start and
/// never beyond the group count.
proof fn lemma_first_kind_bounds(gs: Seq<ShaderGroup>, key: u32, i: int)
    requires
        0 <= i <= gs.len(),
    ensures
        i <= first_kind_at(gs, key, i) <= gs.len(),
    decreases gs.len() - i,
{
    if i < gs.len() {
        lemma_first_kind_bounds(gs, key, i + 1);
    }
}

/// The binding table entry of one group kind: where the kind first occurs
/// (zero when it never does) and how many groups of the kind there are.
pub fn sbt_entry(groups: &Vec<ShaderGroup>, key: u32) -> (r: SBTEntry)
    requires
        groups@.len() <= u32::MAX,
    ensures
        r.count == spec_kind_count(groups@, key),
        r.count > 0 ==> r.offset == first_kind_at(groups@, key, 0),
        r.count == 0 ==> r.offset == 0,
{
    let gv = Ghost(groups@);
    let n = groups.len();
    let mut count: u32 = 0;
    let mut offset: u32 = 0;
    let mut seen = false;
    proof {
        reveal(Seq::filter);
        assert(groups@.subrange(0, 0) =~= Seq::<ShaderGroup>::empty());
        lemma_first_kind_bounds(groups@, key, 0);
    }
    for j in 0..n
        invariant
            n == groups@.len() <= u32::MAX,
            count == groups@.subrange(0, j as int).filter(
                |g: ShaderGroup| spec_group_index(g) == key,
            ).len(),
            count <= j,
            seen == (first_kind_at(groups@, key, 0) < j),
            seen ==> offset == first_kind_at(groups@, key, 0),
            !seen ==> offset == 0 && first_kind_at(groups@, key, 0) == first_kind_at(
                groups@,
                key,
                j as int,
            ),
            (count > 0) == seen,
    {
        proof {
            reveal(Seq::filter);
            assert(groups@.subrange(0, j + 1).drop_last() =~= groups@.subrange(0, j as int));
            assert(groups@.subrange(0, j + 1).last() == groups@[j as int]);
            groups@.subrange(0, j + 1).lemma_filter_len(
                |g: ShaderGroup| spec_group_index(g) == key,
            );
            lemma_first_kind_bounds(groups@, key, j as int);
            lemma_first_kind_bounds(groups@, key, j + 1);
        }
        if shader_group_index(&groups[j]) == key {
            count = count + 1;
            if !seen {
                offset = j as u32;
                seen = true;
            }
        }
    }
    proof {
        assert(groups@.subrange(0, n as int) =~= groups@);
    }
    SBTEntry { offset, count }
}

} // verus!
