use editoast::cache_keys::{
    append_decimal, get_cache_tile_key, get_layer_cache_prefix, get_namespace_pattern,
    get_view_cache_prefix,
};
use editoast::tiles::TileCoordinate;

#[test]
fn layer_and_view_prefixes() {
    assert_eq!(get_layer_cache_prefix("track_sections", 2), "layer.track_sections.infra_2");
    assert_eq!(
        get_view_cache_prefix("track_sections", 2, "geo"),
        "layer.track_sections.infra_2.geo"
    );
    assert_eq!(get_layer_cache_prefix("signals", -17), "layer.signals.infra_-17");
    assert_eq!(
        get_layer_cache_prefix("signals", i64::MIN),
        "layer.signals.infra_-9223372036854775808"
    );
}

#[test]
fn tile_key_extends_view_prefix() {
    let prefix = get_view_cache_prefix("track_sections", 2, "geo");
    let tile = TileCoordinate { x: 132785, y: 90112, z: 18 };
    let key = get_cache_tile_key(&prefix, &tile);
    assert_eq!(key, "layer.track_sections.infra_2.geo.tile/18/132785/90112");
    assert!(key.starts_with(&prefix));
    assert!(prefix.starts_with(&get_layer_cache_prefix("track_sections", 2)));
    assert!(key.len() > prefix.len());
}

#[test]
fn sibling_views_do_not_share_keys() {
    let tile = TileCoordinate { x: 0, y: 0, z: 0 };
    let geo = get_cache_tile_key(&get_view_cache_prefix("l", 1, "geo"), &tile);
    let sch = get_cache_tile_key(&get_view_cache_prefix("l", 1, "sch"), &tile);
    assert_ne!(geo, sch);
    assert!(!geo.starts_with(&get_view_cache_prefix("l", 1, "sch")));
}

#[test]
fn namespace_pattern_appends_wildcard() {
    assert_eq!(get_namespace_pattern("layer.a.infra_1.geo"), "layer.a.infra_1.geo.*");
}

#[test]
fn decimal_digits() {
    let mut s = String::from("n=");
    append_decimal(&mut s, 0);
    s.push(',');
    append_decimal(&mut s, 10);
    s.push(',');
    append_decimal(&mut s, u64::MAX);
    assert_eq!(s, "n=0,10,18446744073709551615");
}
