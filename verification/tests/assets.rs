use seru::assets::native::{load_resource, normalize_path, resolve_asset_path};
use seru::assets::{AssetError, DefaultAssetProvider, ResourceRequest};
use seru::wasm::{get_asset_provider, into_result_bytes};

#[test]
fn normalize_drops_dots_and_root() {
    assert_eq!(normalize_path("a/./b/../c"), "a/c");
    assert_eq!(normalize_path("/x//y/"), "x/y");
    assert_eq!(normalize_path("../../etc/passwd"), "etc/passwd");
    assert_eq!(normalize_path(""), "");
}

#[test]
fn resolve_under_root() {
    let root = Some("/assets".to_string());
    assert_eq!(resolve_asset_path("img/../a.png", &root), "/assets/a.png");
    assert_eq!(resolve_asset_path("../../secret", &root), "/assets/secret");
    assert_eq!(resolve_asset_path("a.png", &Some("/assets/".to_string())), "/assets/a.png");
    assert_eq!(resolve_asset_path("../a.png", &None), "../a.png");
}

#[test]
fn urls_and_files() {
    let root = Some("r".to_string());
    assert_eq!(
        load_resource("  https://x.io/a.png ", true, &root),
        Ok(ResourceRequest::Url("https://x.io/a.png".to_string()))
    );
    assert_eq!(
        load_resource("http://x.io/a.png", false, &root),
        Err(AssetError::NetworkAssetDisabled)
    );
    assert_eq!(
        load_resource(" img/a.png", false, &root),
        Ok(ResourceRequest::File("r/img/a.png".to_string()))
    );
    assert_eq!(
        load_resource("ftp://x", true, &None),
        Ok(ResourceRequest::File("ftp://x".to_string()))
    );
}

#[test]
fn web_build_fetches_everything() {
    assert_eq!(
        seru::assets::emscripten::load_resource(" a.png ", true, &None),
        Ok(ResourceRequest::Url("a.png".to_string()))
    );
    assert_eq!(
        seru::assets::emscripten::load_resource("a.png", false, &None),
        Err(AssetError::NetworkAssetDisabled)
    );
    let p = get_asset_provider();
    assert_eq!(p, DefaultAssetProvider { allow_network_asset: true, asset_root: None });
}

#[test]
fn result_bytes_keep_the_data() {
    let r = into_result_bytes(1, vec![1, 2, 3]);
    assert_eq!((r.success, r.len, r.data), (1, 3, vec![1, 2, 3]));
    let e = into_result_bytes(0, b"bad".to_vec());
    assert_eq!((e.success, e.len), (0, 3));
}

#[test]
fn normalizing_twice_changes_nothing() {
    for p in ["a/./b/../c", "/x//y/", "../../etc", "", ".", "a/b/c/", "./../a/.."] {
        let once = normalize_path(p);
        assert_eq!(normalize_path(&once), once, "{}", p);
    }
}
