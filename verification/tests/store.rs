use atom_profiles::directory::ExistsRes;
use atom_profiles::errors::StoreError;
use atom_profiles::store::Profile;
use atom_profiles::store::ProfileStore;

fn s(x: &str) -> String {
    x.to_string()
}

fn pair(k: &str, v: &str) -> (String, String) {
    (s(k), s(v))
}

fn yes() -> ExistsRes {
    ExistsRes::Exists { value: true }
}

fn no() -> ExistsRes {
    ExistsRes::Exists { value: false }
}

#[test]
fn set_then_show() {
    let mut store = ProfileStore::new();
    Profile::set(&mut store, 1, &vec![pair("k", "v")]).unwrap();
    let m = Profile::show(&store, 1, &vec![s("k")]).unwrap();
    assert_eq!(m.get(&s("k")), Some(&s("v")));
}

#[test]
fn set_then_show_escaped_keys() {
    let mut store = ProfileStore::new();
    Profile::set(&mut store, 1, &vec![pair("a.b", "1"), pair("c$d", "2")]).unwrap();
    let m = Profile::show(&store, 1, &vec![s("a.b"), s("c$d")]).unwrap();
    assert_eq!(m.get(&s("a.b")), Some(&s("1")));
    assert_eq!(m.get(&s("c$d")), Some(&s("2")));
}

#[test]
fn empty_value_deletes() {
    let mut store = ProfileStore::new();
    Profile::set(&mut store, 1, &vec![pair("k", "v")]).unwrap();
    Profile::set(&mut store, 1, &vec![pair("k", "")]).unwrap();
    let m = Profile::show(&store, 1, &vec![s("k")]).unwrap();
    assert_eq!(m.get(&s("k")), None);
}

#[test]
fn lazy_creation() {
    let mut store = ProfileStore::new();
    Profile::set(&mut store, 7, &vec![pair("a", "1"), pair("gone", "")]).unwrap();
    let m = Profile::show(&store, 7, &vec![s("a"), s("gone")]).unwrap();
    assert_eq!(m.get(&s("a")), Some(&s("1")));
    assert_eq!(m.get(&s("gone")), None);
    assert_eq!(Profile::remove(&mut store, 7), Ok(()));
    assert_eq!(Profile::remove(&mut store, 7), Err(StoreError::NotFound));
}

#[test]
fn remove_absent_id_fails() {
    let mut store = ProfileStore::new();
    assert_eq!(Profile::remove(&mut store, 99), Err(StoreError::NotFound));
}

#[test]
fn show_absent_profile_fails() {
    let store = ProfileStore::new();
    assert!(matches!(Profile::show(&store, 3, &vec![s("k")]), Err(StoreError::NotFound)));
}

#[test]
fn service_gating_blocks_mutation() {
    let mut store = ProfileStore::new();
    Profile::set(&mut store, 1, &vec![pair("a", "1")]).unwrap();
    let r = Profile::set_service(&mut store, 1, &s("unknown-service"), &vec![pair("a", "9")], &no());
    assert_eq!(r, Err(StoreError::ServiceNotFound));
    let m = Profile::show(&store, 1, &vec![s("a")]).unwrap();
    assert_eq!(m.get(&s("a")), Some(&s("1")));
    let sm = Profile::show_service(&store, 1, &s("svc"), &vec![s("a")], &yes()).unwrap();
    assert_eq!(sm.get(&s("a")), None);
}

#[test]
fn set_service_on_absent_profile_is_not_found() {
    let mut store = ProfileStore::new();
    let r = Profile::set_service(&mut store, 42, &s("svc"), &vec![pair("a", "9")], &yes());
    assert_eq!(r, Err(StoreError::NotFound));
}

#[test]
fn directory_failure_propagates_reason() {
    let mut store = ProfileStore::new();
    Profile::set(&mut store, 1, &vec![pair("a", "1")]).unwrap();
    let ans = ExistsRes::Error { reason: s("directory unreachable") };
    let r = Profile::set_service(&mut store, 1, &s("svc"), &vec![pair("a", "9")], &ans);
    assert_eq!(r, Err(StoreError::Internal { reason: s("directory unreachable") }));
    assert_eq!(r.unwrap_err().reason(), s("directory unreachable"));
}

#[test]
fn set_service_then_show_service() {
    let mut store = ProfileStore::new();
    Profile::set(&mut store, 1, &vec![pair("a", "1")]).unwrap();
    Profile::set_service(&mut store, 1, &s("svc"), &vec![pair("a", "9"), pair("x.y", "8")], &yes())
        .unwrap();
    let m = Profile::show_service(&store, 1, &s("svc"), &vec![s("a"), s("x.y")], &yes()).unwrap();
    assert_eq!(m.get(&s("a")), Some(&s("9")));
    assert_eq!(m.get(&s("x.y")), Some(&s("8")));
    let g = Profile::show(&store, 1, &vec![s("a")]).unwrap();
    assert_eq!(g.get(&s("a")), Some(&s("1")));
}

#[test]
fn overlay_precedence() {
    let mut store = ProfileStore::new();
    Profile::set(&mut store, 1, &vec![pair("a", "1"), pair("b", "2")]).unwrap();
    Profile::set_service(&mut store, 1, &s("svc"), &vec![pair("a", "9")], &yes()).unwrap();
    let m = Profile::show_overlay(&store, 1, &s("svc"), &vec![s("a"), s("b")], &yes()).unwrap();
    assert_eq!(m.get(&s("a")), Some(&s("9")));
    assert_eq!(m.get(&s("b")), Some(&s("2")));
}

#[test]
fn overlay_omission() {
    let mut store = ProfileStore::new();
    Profile::set(&mut store, 1, &vec![pair("a", "1")]).unwrap();
    let m = Profile::show(&store, 1, &vec![s("nowhere")]).unwrap();
    assert_eq!(m.get(&s("nowhere")), None);
    let o = Profile::show_overlay(&store, 1, &s("svc"), &vec![s("nowhere")], &yes()).unwrap();
    assert_eq!(o.get(&s("nowhere")), None);
}

#[test]
fn overlay_on_absent_profile_is_not_found() {
    let store = ProfileStore::new();
    let r = Profile::show_overlay(&store, 5, &s("svc"), &vec![s("a")], &yes());
    assert!(matches!(r, Err(StoreError::NotFound)));
}

#[test]
fn overlay_gated_on_unknown_service() {
    let mut store = ProfileStore::new();
    Profile::set(&mut store, 1, &vec![pair("a", "1")]).unwrap();
    let r = Profile::show_overlay(&store, 1, &s("svc"), &vec![s("a")], &no());
    assert!(matches!(r, Err(StoreError::ServiceNotFound)));
}

#[test]
fn set_idempotent() {
    let entries = vec![pair("a", "1"), pair("b", ""), pair("a", "2")];
    let keys = vec![s("a"), s("b")];
    let mut store = ProfileStore::new();
    Profile::set(&mut store, 1, &entries).unwrap();
    let once = Profile::show(&store, 1, &keys).unwrap();
    Profile::set(&mut store, 1, &entries).unwrap();
    let twice = Profile::show(&store, 1, &keys).unwrap();
    assert_eq!(once.get(&s("a")), Some(&s("2")));
    assert_eq!(once.get(&s("b")), None);
    assert_eq!(twice.get(&s("a")), once.get(&s("a")));
    assert_eq!(twice.get(&s("b")), once.get(&s("b")));
}

#[test]
fn remove_service_keeps_profile() {
    let mut store = ProfileStore::new();
    Profile::set(&mut store, 1, &vec![pair("a", "1")]).unwrap();
    Profile::set_service(&mut store, 1, &s("svc"), &vec![pair("a", "9")], &yes()).unwrap();
    assert_eq!(Profile::remove_service(&mut store, 1, &s("svc"), &yes()), Ok(()));
    let sm = Profile::show_service(&store, 1, &s("svc"), &vec![s("a")], &yes()).unwrap();
    assert_eq!(sm.get(&s("a")), None);
    let g = Profile::show(&store, 1, &vec![s("a")]).unwrap();
    assert_eq!(g.get(&s("a")), Some(&s("1")));
}

#[test]
fn remove_service_on_absent_profile_is_not_found() {
    let mut store = ProfileStore::new();
    let r = Profile::remove_service(&mut store, 8, &s("svc"), &yes());
    assert_eq!(r, Err(StoreError::NotFound));
}

#[test]
fn error_reason_texts() {
    assert_eq!(StoreError::NotFound.reason(), s("profile not found"));
    assert_eq!(StoreError::ServiceNotFound.reason(), s("service not found"));
    assert_eq!(StoreError::Storage { reason: s("io") }.reason(), s("io"));
}
