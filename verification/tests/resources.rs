use wasm_bridge::resources::{Resource, ResourceType};

#[test]
fn rep_gives_back_the_id() {
    let r: Resource<String> = Resource::new_own(42);
    assert_eq!(r.rep(), 42);
    let c = r.clone();
    assert_eq!(c.rep(), 42);
    let z: Resource<u8> = Resource::new_own(0);
    assert_eq!(z.rep(), 0);
    ResourceType::host::<u8>();
}
