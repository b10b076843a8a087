use coignet::endpoints;
use coignet::endpoints::{client_server, server_server};
use coignet::utils::slab::Slab;

#[test]
fn mount_points_nest() {
    let base = endpoints::mount_point("/".to_string());
    assert_eq!(base, "/_matrix/");
    let client = client_server::mount_point(base.clone());
    assert_eq!(client, "/_matrix/client/");
    assert_eq!(client_server::r0_mount_point(client), "/_matrix/client/r0");
    let federation = server_server::mount_point(base);
    assert_eq!(federation, "/_matrix/federation/");
    assert_eq!(server_server::unstable_mount_point(federation), "/_matrix/federation/v1");
}

#[test]
fn the_server_speaks_one_version() {
    let versions = client_server::versions();
    assert_eq!(versions.len(), 1);
    assert_eq!(versions[0].0, "r.0.2.0");
}

#[test]
fn slab_hands_freed_slots_out_again() {
    let mut slab: Slab<&str> = Slab::new();
    let a = slab.insert("a");
    let b = slab.insert("b");
    assert_ne!(a, b);
    assert!(slab.contains(a));
    assert_eq!(slab.get(b), Some(&"b"));
    assert_eq!(slab.remove(a), Some("a"));
    assert_eq!(slab.remove(a), None);
    assert!(!slab.contains(a));
    let c = slab.insert("c");
    assert_eq!(c, a);
    assert_eq!(slab.get(c), Some(&"c"));
    match slab.get_mut(b) {
        Some(place) => *place = "B",
        None => panic!("slot b is occupied"),
    }
    assert_eq!(slab.get(b), Some(&"B"));
    assert_eq!(slab.get(99), None);
    assert!(slab.get_mut(99).is_none());
}
