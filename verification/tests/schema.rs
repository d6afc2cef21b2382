use atom_profiles::directory::ExistsRes;
use atom_profiles::router::InternalRouter;
use atom_profiles::schema::remove::RemoveReq;
use atom_profiles::schema::remove::RemoveRes;
use atom_profiles::schema::remove_service::RemoveServiceRes;
use atom_profiles::schema::set::SetReq;
use atom_profiles::schema::set::SetRes;
use atom_profiles::schema::set_service::SetServiceEntry;
use atom_profiles::schema::set_service::SetServiceReq;
use atom_profiles::schema::set_service::SetServiceRes;
use atom_profiles::schema::show::ShowReq;
use atom_profiles::schema::show::ShowRes;
use atom_profiles::schema::show_overlay::ShowOverlayReq;
use atom_profiles::schema::show_overlay::ShowOverlayRes;
use atom_profiles::schema::show_service::ShowServiceRes;
use atom_profiles::store::ProfileStore;

fn s(x: &str) -> String {
    x.to_string()
}

fn entry(k: &str, v: &str) -> SetServiceEntry {
    SetServiceEntry { key: s(k), value: s(v) }
}

#[test]
fn into_tuple_moves_fields() {
    let e = entry("k", "v");
    assert_eq!(e.into_tuple(), (s("k"), s("v")));
}

#[test]
fn set_then_show_through_router() {
    let mut store = ProfileStore::new();
    let res = InternalRouter::set(
        &mut store,
        SetReq { id: 1, entries: vec![entry("a", "1"), entry("b", "")] },
    );
    assert!(matches!(res, SetRes::Applied));
    assert_eq!(res.status(), 200);
    let shown = InternalRouter::show(&store, ShowReq { id: 1, entries: vec![s("a"), s("b")] });
    assert_eq!(shown.status(), 200);
    match shown {
        ShowRes::Show { values } => {
            assert_eq!(values.get(&s("a")), Some(&s("1")));
            assert_eq!(values.get(&s("b")), None);
        },
        ShowRes::Error { reason } => panic!("unexpected error: {reason}"),
    }
}

#[test]
fn show_missing_profile_through_router() {
    let store = ProfileStore::new();
    let shown = InternalRouter::show(&store, ShowReq { id: 5, entries: vec![] });
    assert_eq!(shown.status(), 500);
    match shown {
        ShowRes::Show { .. } => panic!("expected an error"),
        ShowRes::Error { reason } => assert_eq!(reason, s("profile not found")),
    }
}

#[test]
fn set_service_gated_through_router() {
    let mut store = ProfileStore::new();
    InternalRouter::set(&mut store, SetReq { id: 1, entries: vec![entry("a", "1")] });
    let res = InternalRouter::set_service(
        &mut store,
        SetServiceReq { id: 1, service: s("unknown-service"), entries: vec![entry("a", "9")] },
        &ExistsRes::Exists { value: false },
    );
    assert_eq!(res.status(), 500);
    match res {
        SetServiceRes::Applied => panic!("expected an error"),
        SetServiceRes::Error { reason } => assert_eq!(reason, s("service not found")),
    }
}

#[test]
fn overlay_through_router() {
    let mut store = ProfileStore::new();
    InternalRouter::set(&mut store, SetReq { id: 1, entries: vec![entry("a", "1"), entry("b", "2")] });
    let res = InternalRouter::set_service(
        &mut store,
        SetServiceReq { id: 1, service: s("svc"), entries: vec![entry("a", "9")] },
        &ExistsRes::Exists { value: true },
    );
    assert!(matches!(res, SetServiceRes::Applied));
    let shown = InternalRouter::show_overlay(
        &store,
        ShowOverlayReq { id: 1, service: s("svc"), entries: vec![s("a"), s("b"), s("c")] },
        &ExistsRes::Exists { value: true },
    );
    match shown {
        ShowOverlayRes::Show { values } => {
            assert_eq!(values.get(&s("a")), Some(&s("9")));
            assert_eq!(values.get(&s("b")), Some(&s("2")));
            assert_eq!(values.get(&s("c")), None);
        },
        ShowOverlayRes::Error { reason } => panic!("unexpected error: {reason}"),
    }
}

#[test]
fn remove_through_router() {
    let mut store = ProfileStore::new();
    let res = InternalRouter::remove(&mut store, RemoveReq { id: 3 });
    assert_eq!(res.status(), 500);
    match res {
        RemoveRes::Removed => panic!("expected an error"),
        RemoveRes::Error { reason } => assert_eq!(reason, s("profile not found")),
    }
    InternalRouter::set(&mut store, SetReq { id: 3, entries: vec![entry("a", "1")] });
    let res = InternalRouter::remove(&mut store, RemoveReq { id: 3 });
    assert!(matches!(res, RemoveRes::Removed));
    assert_eq!(res.status(), 200);
}

#[test]
fn success_constructors() {
    assert!(matches!(RemoveRes::success(()), RemoveRes::Removed));
    assert!(matches!(RemoveServiceRes::success(()), RemoveServiceRes::Removed));
    assert!(matches!(SetRes::success(()), SetRes::Applied));
    assert!(matches!(SetServiceRes::success(()), SetServiceRes::Applied));
    assert!(matches!(ShowServiceRes::status(&ShowServiceRes::Error { reason: s("x") }), 500));
}
