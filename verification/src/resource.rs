//! Virtual resources and their association algebra.
//!
//! A virtual resource is identified solely by a UID string.  Versions are
//! encoded by appending one sentinel character `'+'` per upgrade, so that the
//! original (source) form of a resource carries no trailing sentinel and all
//! versions of one logical resource share a common prefix.

use vstd::prelude::*;

verus! {

/// The UID of a resource with `k` upgrades applied: the original UID followed
/// by `k` sentinel characters.
pub open spec fn upgraded(uid: Seq<char>, k: nat) -> Seq<char> {
    uid + Seq::new(k, |i: int| '+')
}

/// The stable name of a UID: the UID with every sentinel character removed.
pub open spec fn spec_name(uid: Seq<char>) -> Seq<char> {
    uid.filter(|c: char| c != '+')
}

/// A UID denotes an original (version-zero) resource when it does not end in
/// the sentinel character.  The empty UID is lexically a source.
pub open spec fn spec_is_source(uid: Seq<char>) -> bool {
    uid.len() == 0 || uid.last() != '+'
}

/// Two UIDs denote versions of the same logical resource exactly when the
/// longer one begins with the shorter one.
pub open spec fn spec_associated(a: Seq<char>, b: Seq<char>) -> bool {
    if a.len() >= b.len() {
        b.is_prefix_of(a)
    } else {
        a.is_prefix_of(b)
    }
}

/// Strict version order among associated UIDs: fewer sentinels means older.
pub open spec fn spec_older(a: Seq<char>, b: Seq<char>) -> bool {
    spec_associated(a, b) && a.len() < b.len()
}

/// Strict version order among associated UIDs: more sentinels means younger.
pub open spec fn spec_younger(a: Seq<char>, b: Seq<char>) -> bool {
    spec_associated(a, b) && b.len() < a.len()
}

/// Appends one character to a string.
///
/// Relies on `String::push`: it appends the given `char` to the end of the
/// string.
#[verifier::external_body]
pub(crate) fn push_char(s: &mut String, c: char)
    ensures
        final(s)@ == old(s)@.push(c),
{
    s.push(c);
}

/// A virtual resource in the graph, uniquely identified by a string.  It
/// carries no allocation: binding to physical memory happens outside.
#[derive(Debug)]
pub struct VirtualResource {
    pub uid: String,
}

impl View for VirtualResource {
    type V = Seq<char>;

    open spec fn view(&self) -> Seq<char> {
        self.uid@
    }
}

impl Clone for VirtualResource {
    fn clone(&self) -> (r: Self)
        ensures
            r == *self,
    {
        VirtualResource { uid: self.uid.clone() }
    }
}

impl VirtualResource {
    pub fn new(uid: String) -> (r: Self)
        ensures
            r.uid == uid,
    {
        VirtualResource { uid }
    }

    /// Upgrades the resource to the next version of itself: the name a task's
    /// input resource carries after the task has written it.
    pub fn upgrade(&self) -> (r: Self)
        ensures
            r@ == self@.push('+'),
            r@ == upgraded(self@, 1),
    {
        let r = VirtualResource { uid: self.uid.clone().concat("+") };
        proof {
            reveal_strlit("+");
            assert(r@ =~= self@.push('+'));
            assert(upgraded(self@, 1) =~= self@.push('+'));
        }
        r
    }

    /// Returns the full, original name of the resource: the UID without any
    /// version sentinels.
    pub fn name(&self) -> (r: String)
        ensures
            r@ == spec_name(self@),
    {
        let s = self.uid.as_str();
        let n = s.unicode_len();
        let mut r = String::new();
        proof {
            reveal(Seq::filter);
            assert(self@.subrange(0, 0) =~= Seq::<char>::empty());
        }
        for i in 0..n
            invariant
                n == self@.len(),
                s@ == self@,
                r@ == spec_name(self@.subrange(0, i as int)),
        {
            let c = s.get_char(i);
            proof {
                reveal(Seq::filter);
                assert(self@.subrange(0, i + 1).drop_last() =~= self@.subrange(0, i as int));
                assert(self@.subrange(0, i + 1).last() == c);
            }
            if c != '+' {
                push_char(&mut r, c);
            }
        }
        proof {
            assert(self@.subrange(0, n as int) =~= self@);
        }
        r
    }

    /// True exactly when this UID names an original resource: one that no
    /// task has upgraded, so it is produced at the start of the frame.
    pub fn is_source(&self) -> (r: bool)
        ensures
            r == spec_is_source(self@),
    {
        let s = self.uid.as_str();
        let n = s.unicode_len();
        if n == 0 {
            true
        } else {
            s.get_char(n - 1) != '+'
        }
    }

    /// Two virtual resources are associated exactly when their UIDs are
    /// versions of the same logical resource.
    pub fn are_associated(lhs: &VirtualResource, rhs: &VirtualResource) -> (r: bool)
        ensures
            r == spec_associated(lhs@, rhs@),
    {
        let ls = lhs.uid.as_str();
        let rs = rhs.uid.as_str();
        let ln = ls.unicode_len();
        let rn = rs.unicode_len();
        let (larger, smaller, small_n) = if ln >= rn { (ls, rs, rn) } else { (rs, ls, ln) };
        for i in 0..small_n
            invariant
                ls@ == lhs@,
                rs@ == rhs@,
                ln == lhs@.len(),
                rn == rhs@.len(),
                small_n == smaller@.len(),
                smaller@.len() <= larger@.len(),
                (larger@ == lhs@ && smaller@ == rhs@) || (larger@ == rhs@ && smaller@ == lhs@),
                forall|j: int| 0 <= j < i ==> smaller@[j] == larger@[j],
        {
            if larger.get_char(i) != smaller.get_char(i) {
                proof {
                    assert(!smaller@.is_prefix_of(larger@));
                }
                return false;
            }
        }
        proof {
            assert(smaller@ =~= larger@.subrange(0, smaller@.len() as int));
        }
        true
    }

    /// One resource is strictly older than an associated one when its UID is
    /// shorter; unassociated resources are never ordered.
    pub fn is_older(lhs: &VirtualResource, rhs: &VirtualResource) -> (r: bool)
        ensures
            r == spec_older(lhs@, rhs@),
    {
        if !VirtualResource::are_associated(lhs, rhs) {
            return false;
        }
        lhs.uid.as_str().unicode_len() < rhs.uid.as_str().unicode_len()
    }

    /// One resource is strictly younger than an associated one when its UID is
    /// longer.  For one and the same version, `is_older` and `is_younger` both
    /// return false.
    pub fn is_younger(lhs: &VirtualResource, rhs: &VirtualResource) -> (r: bool)
        ensures
            r == spec_younger(lhs@, rhs@),
    {
        if !VirtualResource::are_associated(lhs, rhs) {
            return false;
        }
        rhs.uid.as_str().unicode_len() < lhs.uid.as_str().unicode_len()
    }
}

/// Association closure: any number of upgrades keeps a resource associated
/// with its original, and the upgraded form is strictly younger exactly when
/// at least one upgrade was applied.
pub proof fn lemma_upgrade_association(uid: Seq<char>, k: nat)
    ensures
        spec_associated(upgraded(uid, k), uid),
        spec_younger(upgraded(uid, k), uid) <==> k > 0,
        spec_older(upgraded(uid, k), uid) == false,
{
    assert(uid =~= upgraded(uid, k).subrange(0, uid.len() as int));
}

/// Name stability: upgrading never changes the stable name of a resource.
pub proof fn lemma_upgrade_name(uid: Seq<char>, k: nat)
    ensures
        spec_name(upgraded(uid, k)) == spec_name(uid),
    decreases k,
{
    let pred = |c: char| c != '+';
    if k == 0 {
        assert(upgraded(uid, 0) =~= uid);
    } else {
        lemma_upgrade_name(uid, (k - 1) as nat);
        assert(upgraded(uid, k) =~= upgraded(uid, (k - 1) as nat).push('+'));
        reveal(Seq::filter);
        assert(upgraded(uid, k).drop_last() =~= upgraded(uid, (k - 1) as nat));
    }
}

/// How a task uses a resource it declares, with the derived access mask.
#[derive(Clone, Copy, Debug, Default, PartialEq, Eq, Structural)]
pub enum ResourceUsage {
    /// The resource is carried along without being accessed.
    #[default]
    Nothing,
    /// The resource is handed to presentation.
    Present,
    /// The resource is written as a color attachment.
    Attachment,
    /// The resource is read from shaders.
    ShaderRead,
    /// The resource is written from shaders.
    ShaderWrite,
}

/// Access mask bit for color-attachment writes.
pub const ACCESS_COLOR_ATTACHMENT_WRITE: u64 = 0x100;

/// Access mask bit for shader reads.
pub const ACCESS_SHADER_READ: u64 = 0x8000;

/// Access mask bit for shader writes.
pub const ACCESS_SHADER_WRITE: u64 = 0x10000;

/// Pipeline stage bit for the top of the pipe, where start-of-frame inputs
/// become available.
pub const STAGE_TOP_OF_PIPE: u64 = 0x1;

/// The empty pipeline stage mask.
pub const STAGE_NONE: u64 = 0;

/// The access mask a usage implies.
pub open spec fn spec_access(u: ResourceUsage) -> u64 {
    match u {
        ResourceUsage::Nothing => 0,
        ResourceUsage::Present => 0,
        ResourceUsage::Attachment => ACCESS_COLOR_ATTACHMENT_WRITE,
        ResourceUsage::ShaderRead => ACCESS_SHADER_READ,
        ResourceUsage::ShaderWrite => ACCESS_SHADER_WRITE,
    }
}

/// Whether a usage only reads the resource.
pub open spec fn spec_is_read(u: ResourceUsage) -> bool {
    match u {
        ResourceUsage::Nothing => true,
        ResourceUsage::Present => false,
        ResourceUsage::Attachment => false,
        ResourceUsage::ShaderRead => true,
        ResourceUsage::ShaderWrite => false,
    }
}

impl ResourceUsage {
    /// The access mask this usage contributes to a barrier.
    pub fn access(&self) -> (r: u64)
        ensures
            r == spec_access(*self),
    {
        match self {
            ResourceUsage::Nothing => 0,
            ResourceUsage::Present => 0,
            ResourceUsage::Attachment => ACCESS_COLOR_ATTACHMENT_WRITE,
            ResourceUsage::ShaderRead => ACCESS_SHADER_READ,
            ResourceUsage::ShaderWrite => ACCESS_SHADER_WRITE,
        }
    }

    /// Whether this usage only reads the resource.
    pub fn is_read(&self) -> (r: bool)
        ensures
            r == spec_is_read(*self),
    {
        match self {
            ResourceUsage::Nothing => true,
            ResourceUsage::Present => false,
            ResourceUsage::Attachment => false,
            ResourceUsage::ShaderRead => true,
            ResourceUsage::ShaderWrite => false,
        }
    }
}

/// A virtual resource as a task declares it: the resource, how the task uses
/// it, and the pipeline stage mask at which the use takes effect.
#[derive(Debug)]
pub struct GpuResource {
    pub usage: ResourceUsage,
    pub resource: VirtualResource,
    pub stage: u64,
}

impl Clone for GpuResource {
    fn clone(&self) -> (r: Self)
        ensures
            r == *self,
    {
        GpuResource { usage: self.usage, resource: self.resource.clone(), stage: self.stage }
    }
}

/// The mathematical content of a declared resource: its usage, the UID of
/// the virtual resource, and the stage mask.
pub struct GpuResourceV {
    pub usage: ResourceUsage,
    pub uid: Seq<char>,
    pub stage: u64,
}

impl View for GpuResource {
    type V = GpuResourceV;

    open spec fn view(&self) -> GpuResourceV {
        GpuResourceV { usage: self.usage, uid: self.resource.uid@, stage: self.stage }
    }
}

impl GpuResource {
    pub fn virtual_resource(&self) -> (r: &VirtualResource)
        ensures
            r == &self.resource,
    {
        &self.resource
    }

    /// One declared resource satisfies a dependency on another exactly when
    /// their UIDs match in full, version sentinels included.
    pub fn is_dependency_of(&self, lhs: &GpuResource) -> (r: bool)
        ensures
            r == (self@.uid == lhs@.uid),
    {
        self.resource.uid.eq(&lhs.resource.uid)
    }

    /// The UID of the declared resource.
    pub fn uid(&self) -> (r: &String)
        ensures
            r == &self.resource.uid,
    {
        &self.resource.uid
    }
}

} // verus!
