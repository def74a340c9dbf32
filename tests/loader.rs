use ecstasy::loader::{start_loads, AssetKind, AssetRequest};

fn req(kind: AssetKind, path: &str, loading: bool) -> AssetRequest {
    AssetRequest { kind, path: path.to_string(), loading }
}

#[test]
fn one_load_per_path() {
    let mut reqs = vec![
        req(AssetKind::Model, "a.iqm", false),
        req(AssetKind::Model, "a.iqm", false),
        req(AssetKind::Texture, "b.png", true),
        req(AssetKind::Texture, "c.png", false),
        req(AssetKind::Texture, "d.png", false),
    ];
    let busy = vec!["c.png".to_string()];
    let loads = start_loads(&mut reqs, &busy);
    assert_eq!(
        loads,
        vec![
            (AssetKind::Model, "a.iqm".to_string()),
            (AssetKind::Texture, "d.png".to_string()),
        ]
    );
    assert!(reqs.iter().all(|r| r.loading));
    assert_eq!(reqs[3].path, "c.png");
    assert_eq!(reqs[3].kind, AssetKind::Texture);
}

#[test]
fn nothing_to_start_twice() {
    let mut reqs = vec![req(AssetKind::Model, "a.iqm", false)];
    assert_eq!(start_loads(&mut reqs, &vec![]).len(), 1);
    assert!(start_loads(&mut reqs, &vec![]).is_empty());
    assert!(start_loads(&mut vec![], &vec![]).is_empty());
}
