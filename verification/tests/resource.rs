use phobos::resource::{
    ACCESS_COLOR_ATTACHMENT_WRITE, ACCESS_SHADER_READ, ACCESS_SHADER_WRITE, STAGE_TOP_OF_PIPE,
};
use phobos::{GpuResource, ResourceUsage, VirtualResource};

#[test]
fn upgrade_appends_sentinel() {
    let r = VirtualResource::new("color".to_string());
    let r1 = r.upgrade();
    assert_eq!(r1.uid, "color+");
    let r2 = r1.upgrade();
    assert_eq!(r2.uid, "color++");
}

#[test]
fn name_strips_sentinels() {
    let r = VirtualResource::new("depth++".to_string());
    assert_eq!(r.name(), "depth");
    assert_eq!(VirtualResource::new("x".to_string()).name(), "x");
    assert_eq!(VirtualResource::new(String::new()).name(), "");
}

#[test]
fn name_stable_across_upgrades() {
    // Name stability on concrete values: upgrading never changes the name.
    let mut r = VirtualResource::new("swap".to_string());
    for _ in 0..5 {
        r = r.upgrade();
        assert_eq!(r.name(), "swap");
    }
}

#[test]
fn is_source_checks_trailing_sentinel() {
    assert!(VirtualResource::new("img".to_string()).is_source());
    assert!(!VirtualResource::new("img+".to_string()).is_source());
    assert!(VirtualResource::new(String::new()).is_source());
}

#[test]
fn association_closure_on_upgrades() {
    // Association closure on concrete values: upgrade^k(u) is associated
    // with u, and strictly younger exactly when k > 0.
    let u = VirtualResource::new("buf".to_string());
    let mut v = VirtualResource::new("buf".to_string());
    assert!(VirtualResource::are_associated(&v, &u));
    assert!(!VirtualResource::is_younger(&v, &u));
    assert!(!VirtualResource::is_older(&v, &u));
    for _ in 0..3 {
        v = v.upgrade();
        assert!(VirtualResource::are_associated(&v, &u));
        assert!(VirtualResource::is_younger(&v, &u));
        assert!(!VirtualResource::is_older(&v, &u));
        assert!(VirtualResource::is_older(&u, &v));
    }
}

#[test]
fn unrelated_resources_are_not_associated() {
    let a = VirtualResource::new("color".to_string());
    let b = VirtualResource::new("depth".to_string());
    assert!(!VirtualResource::are_associated(&a, &b));
    assert!(!VirtualResource::is_older(&a, &b));
    assert!(!VirtualResource::is_younger(&a, &b));
}

#[test]
fn usage_access_masks() {
    assert_eq!(ResourceUsage::Nothing.access(), 0);
    assert_eq!(ResourceUsage::Present.access(), 0);
    assert_eq!(ResourceUsage::Attachment.access(), ACCESS_COLOR_ATTACHMENT_WRITE);
    assert_eq!(ResourceUsage::ShaderRead.access(), ACCESS_SHADER_READ);
    assert_eq!(ResourceUsage::ShaderWrite.access(), ACCESS_SHADER_WRITE);
    assert_eq!(ACCESS_COLOR_ATTACHMENT_WRITE, 0x100);
    assert_eq!(ACCESS_SHADER_READ, 0x8000);
    assert_eq!(ACCESS_SHADER_WRITE, 0x10000);
}

#[test]
fn usage_read_classification() {
    assert!(ResourceUsage::Nothing.is_read());
    assert!(!ResourceUsage::Present.is_read());
    assert!(!ResourceUsage::Attachment.is_read());
    assert!(ResourceUsage::ShaderRead.is_read());
    assert!(!ResourceUsage::ShaderWrite.is_read());
}

#[test]
fn dependency_is_exact_uid_match() {
    let a = GpuResource {
        usage: ResourceUsage::ShaderRead,
        resource: VirtualResource::new("x+".to_string()),
        stage: STAGE_TOP_OF_PIPE,
    };
    let b = GpuResource {
        usage: ResourceUsage::Attachment,
        resource: VirtualResource::new("x+".to_string()),
        stage: 0,
    };
    let c = GpuResource {
        usage: ResourceUsage::Attachment,
        resource: VirtualResource::new("x".to_string()),
        stage: 0,
    };
    assert!(a.is_dependency_of(&b));
    assert!(!a.is_dependency_of(&c));
    assert_eq!(a.uid(), "x+");
}
