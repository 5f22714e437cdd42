use editoast::invalidation::{
    deletion_for_matches, plan_full_invalidation, plan_layer_invalidation, plan_layer_zone,
    plan_zone_invalidation, CacheOp, InvalidationZone, PlannerConfig,
};
use editoast::tiles::{count_tiles, get_tiles_to_invalidate, BboxError, BoundingBox};

/// A box spanning `width` by `height` tiles at zoom 18.
fn box_of_tiles(width: u64, height: u64) -> BoundingBox {
    let tile = 1u64 << 12;
    BoundingBox {
        west: 1000 * tile,
        north: 2000 * tile,
        east: (1000 + width - 1) * tile + 5,
        south: (2000 + height - 1) * tile + 7,
    }
}

fn small_box() -> BoundingBox {
    box_of_tiles(2, 2)
}

#[test]
fn over_the_threshold_wipes_the_view() {
    let cfg = PlannerConfig::new();
    let big = box_of_tiles(11, 11);
    assert_eq!(count_tiles(18, big), Ok(121));
    let zone = InvalidationZone { geo: big, sch: big, valid: true };
    let ops = plan_layer_zone("track_sections", 1, &zone, cfg).unwrap();
    assert_eq!(ops.len(), 2);
    match &ops[0] {
        CacheOp::WipeMatching { pattern } => assert_eq!(pattern, "layer.track_sections.infra_1.geo.*"),
        other => panic!("unexpected {other:?}"),
    }
    match &ops[1] {
        CacheOp::WipeMatching { pattern } => assert_eq!(pattern, "layer.track_sections.infra_1.sch.*"),
        other => panic!("unexpected {other:?}"),
    }
}

#[test]
fn at_the_threshold_deletes_keys() {
    let cfg = PlannerConfig::new();
    let edge = box_of_tiles(12, 10);
    assert_eq!(count_tiles(18, edge), Ok(120));
    let zone = InvalidationZone { geo: edge, sch: small_box(), valid: true };
    let ops = plan_layer_zone("track_sections", 1, &zone, cfg).unwrap();
    assert_eq!(ops.len(), 1);
    let expected_count = get_tiles_to_invalidate(12, edge).unwrap().len()
        + get_tiles_to_invalidate(12, small_box()).unwrap().len();
    match &ops[0] {
        CacheOp::DeleteKeys { keys } => {
            assert_eq!(keys.len(), expected_count);
            assert_eq!(keys[0], "layer.track_sections.infra_1.geo.tile/0/0/0");
            assert!(keys.contains(&"layer.track_sections.infra_1.sch.tile/12/15/31".to_string()));
            assert!(keys.iter().all(|k| !k.contains("tile/13/")));
        }
        other => panic!("unexpected {other:?}"),
    }
}

#[test]
fn one_view_wiped_other_enumerated() {
    let cfg = PlannerConfig::new();
    let zone = InvalidationZone { geo: box_of_tiles(11, 11), sch: small_box(), valid: true };
    let ops = plan_layer_zone("signals", 3, &zone, cfg).unwrap();
    assert_eq!(ops.len(), 2);
    assert!(matches!(&ops[0], CacheOp::WipeMatching { pattern } if pattern == "layer.signals.infra_3.geo.*"));
    match &ops[1] {
        CacheOp::DeleteKeys { keys } => {
            assert!(keys.iter().all(|k| k.starts_with("layer.signals.infra_3.sch.tile/")));
        }
        other => panic!("unexpected {other:?}"),
    }
}

#[test]
fn threshold_is_configurable() {
    let cfg = PlannerConfig { estimate_zoom: 18, enumerate_zoom: 2, max_tiles: 4 };
    let zone = InvalidationZone { geo: small_box(), sch: box_of_tiles(3, 2), valid: true };
    let ops = plan_layer_zone("l", 1, &zone, cfg).unwrap();
    assert_eq!(ops.len(), 2);
    assert!(matches!(&ops[0], CacheOp::WipeMatching { pattern } if pattern == "layer.l.infra_1.sch.*"));
    assert!(matches!(&ops[1], CacheOp::DeleteKeys { keys } if keys.len() == 3));
}

#[test]
fn invalid_zone_plans_nothing() {
    let cfg = PlannerConfig::new();
    let zone = InvalidationZone { geo: small_box(), sch: small_box(), valid: false };
    assert!(plan_layer_zone("l", 1, &zone, cfg).unwrap().is_empty());
    let layers = vec!["a".to_string(), "b".to_string()];
    assert!(plan_zone_invalidation(&layers, 1, &zone, cfg).unwrap().is_empty());
}

#[test]
fn malformed_zone_is_rejected() {
    let cfg = PlannerConfig::new();
    let inverted = BoundingBox { west: 9, north: 0, east: 1, south: 0 };
    let zone = InvalidationZone { geo: small_box(), sch: inverted, valid: true };
    assert!(matches!(plan_layer_zone("l", 1, &zone, cfg), Err(BboxError::Inverted)));
    let layers = vec!["a".to_string()];
    assert!(matches!(plan_zone_invalidation(&layers, 1, &zone, cfg), Err(BboxError::Inverted)));
    let too_deep = PlannerConfig { estimate_zoom: 40, enumerate_zoom: 12, max_tiles: 120 };
    let fine = InvalidationZone { geo: small_box(), sch: small_box(), valid: true };
    assert!(matches!(plan_layer_zone("l", 1, &fine, too_deep), Err(BboxError::ZoomTooDeep)));
}

#[test]
fn zone_plan_covers_every_layer() {
    let cfg = PlannerConfig::new();
    let zone = InvalidationZone { geo: box_of_tiles(11, 11), sch: box_of_tiles(11, 11), valid: true };
    let layers = vec!["a".to_string(), "b".to_string()];
    let ops = plan_zone_invalidation(&layers, 5, &zone, cfg).unwrap();
    let patterns: Vec<String> = ops
        .iter()
        .map(|op| match op {
            CacheOp::WipeMatching { pattern } => pattern.clone(),
            CacheOp::DeleteKeys { .. } => panic!("unexpected deletion"),
        })
        .collect();
    assert_eq!(
        patterns,
        vec!["layer.a.infra_5.geo.*", "layer.a.infra_5.sch.*", "layer.b.infra_5.geo.*", "layer.b.infra_5.sch.*"]
    );
}

#[test]
fn full_invalidation_wipes_each_layer() {
    let layers = vec!["track_sections".to_string(), "signals".to_string()];
    let ops = plan_full_invalidation(&layers, 2);
    assert_eq!(ops.len(), 2);
    assert!(matches!(&ops[1], CacheOp::WipeMatching { pattern } if pattern == "layer.signals.infra_2.*"));
    assert!(matches!(plan_layer_invalidation("x", 0), CacheOp::WipeMatching { pattern } if pattern == "layer.x.infra_0.*"));
}

#[test]
fn empty_namespace_deletes_nothing() {
    assert!(deletion_for_matches(Vec::new()).is_none());
    let keys = vec!["layer.a.infra_1.geo.tile/0/0/0".to_string()];
    assert!(matches!(deletion_for_matches(keys), Some(CacheOp::DeleteKeys { keys }) if keys.len() == 1));
}
