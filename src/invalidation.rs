//! Planning cache invalidation for an edit.
//!
//! The planner decides, per view, between wiping the view's whole key
//! namespace and deleting an explicit, bounded list of tile keys. It returns
//! the cache operations to perform; performing them is the caller's part.

use vstd::prelude::*;
use crate::cache_keys::{
    get_cache_tile_key, get_layer_cache_prefix, layer_prefix, lemma_sibling_views_disjoint, get_namespace_pattern, get_view_cache_prefix, namespace_pattern,
    tile_key, view_prefix,
};
use crate::tiles::{
    bbox_check, bbox_usable, count_tiles, lemma_box_covers_a_tile, lemma_count_matches_listing, get_tiles_to_invalidate, spec_count_tiles,
    spec_tiles_across_zooms, BboxError, BoundingBox, TileCoordinate,
};

verus! {

/// Tunable policy of the planner.
#[derive(Clone, Copy, Debug, PartialEq, Eq, Structural)]
pub struct PlannerConfig {
    /// Zoom level at which the cost of an explicit deletion is estimated.
    pub estimate_zoom: u64,
    /// Deepest zoom level whose tiles are deleted explicitly.
    pub enumerate_zoom: u64,
    /// Largest tile count at `estimate_zoom` still deleted explicitly.
    pub max_tiles: u64,
}

impl PlannerConfig {
    /// Estimate at zoom 18, enumerate zooms 0 to 12, wipe above 120 tiles.
    pub fn new() -> (r: PlannerConfig)
        ensures
            r.estimate_zoom == 18 && r.enumerate_zoom == 12 && r.max_tiles == 120,
    {
        PlannerConfig { estimate_zoom: 18, enumerate_zoom: 12, max_tiles: 120 }
    }
}

/// The footprint of an edit, in geographic and in schematic space.
#[derive(Clone, Copy, Debug, PartialEq, Eq, Structural)]
pub struct InvalidationZone {
    pub geo: BoundingBox,
    pub sch: BoundingBox,
    /// An invalid zone (an edit with no spatial footprint) invalidates nothing.
    pub valid: bool,
}

/// One operation on the cache store.
#[derive(Debug)]
pub enum CacheOp {
    /// Delete every key matching a glob pattern.
    WipeMatching { pattern: String },
    /// Delete the listed keys, in one call.
    DeleteKeys { keys: Vec<String> },
}

pub ghost enum CacheOpView {
    WipeMatching { pattern: Seq<char> },
    DeleteKeys { keys: Seq<Seq<char>> },
}

/// The texts of a sequence of strings.
pub open spec fn string_views(v: Seq<String>) -> Seq<Seq<char>> {
    v.map_values(|s: String| s@)
}

impl View for CacheOp {
    type V = CacheOpView;

    open spec fn view(&self) -> CacheOpView {
        match self {
            CacheOp::WipeMatching { pattern } => CacheOpView::WipeMatching { pattern: pattern@ },
            CacheOp::DeleteKeys { keys } => CacheOpView::DeleteKeys { keys: string_views(keys@) },
        }
    }
}

pub open spec fn op_views(ops: Seq<CacheOp>) -> Seq<CacheOpView> {
    ops.map_values(|op: CacheOp| op@)
}

/// The name of a layer's geographic view, invalidated first.
pub open spec fn geo_view() -> Seq<char> {
    "geo"@
}

/// The name of a layer's schematic view, invalidated second.
pub open spec fn sch_view() -> Seq<char> {
    "sch"@
}

/// Whether the box is too large for explicit deletion.
pub open spec fn too_many_tiles(bbox: BoundingBox, cfg: PlannerConfig) -> bool {
    spec_count_tiles(cfg.estimate_zoom as nat, bbox) > cfg.max_tiles
}

/// Why the plan for one view fails, if it does.
pub open spec fn view_plan_error(bbox: BoundingBox, cfg: PlannerConfig) -> Option<BboxError> {
    if bbox_check(cfg.estimate_zoom as nat, bbox) is Some {
        bbox_check(cfg.estimate_zoom as nat, bbox)
    } else if too_many_tiles(bbox, cfg) {
        None
    } else {
        bbox_check(cfg.enumerate_zoom as nat, bbox)
    }
}

/// The namespace wipes of one view: none, or the view's whole namespace.
pub open spec fn view_wipes(layer: Seq<char>, infra_id: int, view: Seq<char>, bbox: BoundingBox, cfg: PlannerConfig) -> Seq<CacheOpView> {
    if too_many_tiles(bbox, cfg) {
        seq![CacheOpView::WipeMatching { pattern: namespace_pattern(view_prefix(layer, infra_id, view)) }]
    } else {
        Seq::empty()
    }
}

/// The explicit keys of one view: those of every tile from zoom 0 to the
/// enumeration ceiling, unless the view is wiped.
pub open spec fn view_keys(layer: Seq<char>, infra_id: int, view: Seq<char>, bbox: BoundingBox, cfg: PlannerConfig) -> Seq<Seq<char>> {
    if too_many_tiles(bbox, cfg) {
        Seq::empty()
    } else {
        spec_tiles_across_zooms(cfg.enumerate_zoom as nat, bbox).map_values(
            |t: TileCoordinate| tile_key(view_prefix(layer, infra_id, view), t),
        )
    }
}

pub open spec fn zone_plan_error(zone: InvalidationZone, cfg: PlannerConfig) -> Option<BboxError> {
    if !zone.valid {
        None
    } else if view_plan_error(zone.geo, cfg) is Some {
        view_plan_error(zone.geo, cfg)
    } else {
        view_plan_error(zone.sch, cfg)
    }
}

/// The operations for one layer and a zone: the wipes of the geographic
/// and the schematic view, then one deletion of every explicit key, if any.
pub open spec fn spec_layer_zone_plan(layer: Seq<char>, infra_id: int, zone: InvalidationZone, cfg: PlannerConfig) -> Seq<CacheOpView> {
    if !zone.valid {
        Seq::empty()
    } else {
        let keys = view_keys(layer, infra_id, geo_view(), zone.geo, cfg) + view_keys(
            layer,
            infra_id,
            sch_view(),
            zone.sch,
            cfg,
        );
        view_wipes(layer, infra_id, geo_view(), zone.geo, cfg) + view_wipes(
            layer,
            infra_id,
            sch_view(),
            zone.sch,
            cfg,
        ) + if keys.len() == 0 {
            Seq::<CacheOpView>::empty()
        } else {
            seq![CacheOpView::DeleteKeys { keys }]
        }
    }
}

/// What one view contributes: whether it is wiped, and otherwise its keys.
fn plan_view(
    layer_name: &str,
    infra_id: i64,
    view_name: &str,
    bbox: BoundingBox,
    cfg: PlannerConfig,
    keys: &mut Vec<String>,
) -> (r: Result<Option<CacheOp>, BboxError>)
    ensures
        match r {
            Ok(wipe) => {
                &&& view_plan_error(bbox, cfg) is None
                &&& too_many_tiles(bbox, cfg) <==> wipe is Some
                &&& (wipe is Some ==> seq![wipe->0@] == view_wipes(layer_name@, infra_id as int, view_name@, bbox, cfg))
                &&& string_views(final(keys)@) == string_views(old(keys)@) + view_keys(layer_name@, infra_id as int, view_name@, bbox, cfg)
            },
            Err(e) => view_plan_error(bbox, cfg) == Some(e),
        },
{
    let count = match count_tiles(cfg.estimate_zoom, bbox) {
        Ok(n) => n,
        Err(e) => {
            return Err(e);
        },
    };
    let prefix = get_view_cache_prefix(layer_name, infra_id, view_name);
    if count > cfg.max_tiles {
        let pattern = get_namespace_pattern(prefix.as_str());
        assert(string_views(keys@) =~= string_views(keys@) + view_keys(layer_name@, infra_id as int, view_name@, bbox, cfg));
        return Ok(Some(CacheOp::WipeMatching { pattern }));
    }
    let tiles = match get_tiles_to_invalidate(cfg.enumerate_zoom, bbox) {
        Ok(tiles) => tiles,
        Err(e) => {
            return Err(e);
        },
    };
    let ghost start = string_views(keys@);
    let ghost vp = view_prefix(layer_name@, infra_id as int, view_name@);
    let mut i: usize = 0;
    while i < tiles.len()
        invariant
            i <= tiles@.len(),
            prefix@ == vp,
            string_views(keys@) == start + tiles@.take(i as int).map_values(|t: TileCoordinate| tile_key(vp, t)),
        decreases tiles@.len() - i,
    {
        let key = get_cache_tile_key(prefix.as_str(), &tiles[i]);
        let ghost before = keys@;
        keys.push(key);
        proof {
            assert(string_views(keys@) =~= string_views(before).push(key@));
            assert(tiles@.take(i + 1).map_values(|t: TileCoordinate| tile_key(vp, t)) =~= tiles@.take(
                i as int,
            ).map_values(|t: TileCoordinate| tile_key(vp, t)).push(tile_key(vp, tiles@[i as int])));
        }
        i = i + 1;
    }
    assert(tiles@.take(tiles@.len() as int) =~= tiles@);
    Ok(None)
}

/// The cache operations that invalidate the tiles of one layer touched by
/// an edit's zone, for both the geographic and the schematic view.
pub fn plan_layer_zone(layer_name: &str, infra_id: i64, zone: &InvalidationZone, cfg: PlannerConfig) -> (r: Result<Vec<CacheOp>, BboxError>)
    ensures
        match r {
            Ok(ops) => zone_plan_error(*zone, cfg) is None && op_views(ops@) == spec_layer_zone_plan(layer_name@, infra_id as int, *zone, cfg),
            Err(e) => zone_plan_error(*zone, cfg) == Some(e),
        },
{
    let mut ops: Vec<CacheOp> = Vec::new();
    if !zone.valid {
        assert(op_views(ops@) =~= spec_layer_zone_plan(layer_name@, infra_id as int, *zone, cfg));
        return Ok(ops);
    }
    let mut keys: Vec<String> = Vec::new();
    let geo_wipe = match plan_view(layer_name, infra_id, "geo", zone.geo, cfg, &mut keys) {
        Ok(w) => w,
        Err(e) => {
            return Err(e);
        },
    };
    let sch_wipe = match plan_view(layer_name, infra_id, "sch", zone.sch, cfg, &mut keys) {
        Ok(w) => w,
        Err(e) => {
            return Err(e);
        },
    };
    let ghost geo_part = view_wipes(layer_name@, infra_id as int, geo_view(), zone.geo, cfg);
    let ghost sch_part = view_wipes(layer_name@, infra_id as int, sch_view(), zone.sch, cfg);
    if let Some(op) = geo_wipe {
        ops.push(op);
    }
    assert(op_views(ops@) =~= geo_part);
    if let Some(op) = sch_wipe {
        ops.push(op);
    }
    assert(op_views(ops@) =~= geo_part + sch_part);
    let ghost all_keys = string_views(keys@);
    if keys.len() > 0 {
        ops.push(CacheOp::DeleteKeys { keys });
        assert(op_views(ops@) =~= geo_part + sch_part + seq![CacheOpView::DeleteKeys { keys: all_keys }]);
    } else {
        assert(op_views(ops@) =~= geo_part + sch_part + Seq::<CacheOpView>::empty());
    }
    Ok(ops)
}

/// The operations for every listed layer, layer after layer.
pub open spec fn spec_zone_plan(layers: Seq<Seq<char>>, infra_id: int, zone: InvalidationZone, cfg: PlannerConfig) -> Seq<CacheOpView>
    decreases layers.len(),
{
    if layers.len() == 0 {
        Seq::empty()
    } else {
        spec_zone_plan(layers.drop_last(), infra_id, zone, cfg) + spec_layer_zone_plan(
            layers.last(),
            infra_id,
            zone,
            cfg,
        )
    }
}

/// The cache operations that invalidate, in every listed layer, the tiles
/// touched by an edit's zone. An invalid zone gives no operation.
pub fn plan_zone_invalidation(layers: &Vec<String>, infra_id: i64, zone: &InvalidationZone, cfg: PlannerConfig) -> (r: Result<Vec<CacheOp>, BboxError>)
    ensures
        match r {
            Ok(ops) => (layers@.len() == 0 || zone_plan_error(*zone, cfg) is None)
                && op_views(ops@) == spec_zone_plan(string_views(layers@), infra_id as int, *zone, cfg),
            Err(e) => layers@.len() > 0 && zone_plan_error(*zone, cfg) == Some(e),
        },
{
    let mut ops: Vec<CacheOp> = Vec::new();
    let mut i: usize = 0;
    while i < layers.len()
        invariant
            i <= layers@.len(),
            i > 0 ==> zone_plan_error(*zone, cfg) is None,
            op_views(ops@) == spec_zone_plan(string_views(layers@.take(i as int)), infra_id as int, *zone, cfg),
        decreases layers@.len() - i,
    {
        let layer_ops = plan_layer_zone(layers[i].as_str(), infra_id, zone, cfg);
        match layer_ops {
            Err(e) => {
                return Err(e);
            },
            Ok(layer_ops) => {
                let mut layer_ops = layer_ops;
                let ghost before = ops@;
                let ghost added = layer_ops@;
                ops.append(&mut layer_ops);
                proof {
                    let names = string_views(layers@.take(i + 1));
                    assert(names.drop_last() =~= string_views(layers@.take(i as int)));
                    assert(names.last() == layers@[i as int]@);
                    assert(op_views(ops@) =~= op_views(before) + op_views(added));
                }
            },
        }
        i = i + 1;
    }
    assert(layers@.take(layers@.len() as int) =~= layers@);
    Ok(ops)
}

/// The operation that invalidates a whole layer, whatever the edit's footprint.
pub fn plan_layer_invalidation(layer_name: &str, infra_id: i64) -> (r: CacheOp)
    ensures
        r@ == (CacheOpView::WipeMatching { pattern: namespace_pattern(layer_prefix(layer_name@, infra_id as int)) }),
{
    let prefix = get_layer_cache_prefix(layer_name, infra_id);
    CacheOp::WipeMatching { pattern: get_namespace_pattern(prefix.as_str()) }
}

/// The operations that invalidate every listed layer, one wipe per layer.
pub fn plan_full_invalidation(layers: &Vec<String>, infra_id: i64) -> (r: Vec<CacheOp>)
    ensures
        op_views(r@) == string_views(layers@).map_values(
            |l: Seq<char>| CacheOpView::WipeMatching { pattern: namespace_pattern(layer_prefix(l, infra_id as int)) },
        ),
{
    let mut ops: Vec<CacheOp> = Vec::new();
    let mut i: usize = 0;
    while i < layers.len()
        invariant
            i <= layers@.len(),
            ops@.len() == i,
            forall|j: int| 0 <= j < i ==> #[trigger] ops@[j]@ == (CacheOpView::WipeMatching {
                pattern: namespace_pattern(layer_prefix(layers@[j]@, infra_id as int)),
            }),
        decreases layers@.len() - i,
    {
        ops.push(plan_layer_invalidation(layers[i].as_str(), infra_id));
        i = i + 1;
    }
    assert(op_views(ops@) =~= string_views(layers@).map_values(
        |l: Seq<char>| CacheOpView::WipeMatching { pattern: namespace_pattern(layer_prefix(l, infra_id as int)) },
    ));
    ops
}

/// What remains of a namespace wipe once the matching keys are listed:
/// nothing when no key matched (zero deletions), else one deletion of them.
pub fn deletion_for_matches(matching: Vec<String>) -> (r: Option<CacheOp>)
    ensures
        matching@.len() == 0 <==> r is None,
        r is Some ==> r->0@ == (CacheOpView::DeleteKeys { keys: string_views(matching@) }),
{
    if matching.len() == 0 {
        None
    } else {
        Some(CacheOp::DeleteKeys { keys: matching })
    }
}

/// The wipe threshold is inclusive on the cheap side: a view whose tile
/// count at the estimate zoom equals `max_tiles` has its keys deleted one by
/// one, and one whose count is `max_tiles + 1` has its namespace wiped.
pub proof fn lemma_threshold_boundary(layer: Seq<char>, infra_id: int, view: Seq<char>, bbox: BoundingBox, cfg: PlannerConfig)
    requires
        bbox_usable(cfg.estimate_zoom as nat, bbox),
        bbox_usable(cfg.enumerate_zoom as nat, bbox),
    ensures
        spec_count_tiles(cfg.estimate_zoom as nat, bbox) == cfg.max_tiles ==> {
            &&& view_wipes(layer, infra_id, view, bbox, cfg).len() == 0
            &&& view_keys(layer, infra_id, view, bbox, cfg).len() > 0
            &&& view_plan_error(bbox, cfg) is None
        },
        spec_count_tiles(cfg.estimate_zoom as nat, bbox) == cfg.max_tiles + 1 ==> {
            &&& view_wipes(layer, infra_id, view, bbox, cfg) == seq![
                CacheOpView::WipeMatching { pattern: namespace_pattern(view_prefix(layer, infra_id, view)) },
            ]
            &&& view_keys(layer, infra_id, view, bbox, cfg).len() == 0
            &&& view_plan_error(bbox, cfg) is None
        },
{
    lemma_across_zooms_nonempty(cfg.enumerate_zoom as nat, bbox);
}

proof fn lemma_across_zooms_nonempty(max_zoom: nat, bbox: BoundingBox)
    requires
        bbox_usable(max_zoom, bbox),
    ensures
        spec_tiles_across_zooms(max_zoom, bbox).len() > 0,
    decreases max_zoom,
{
    lemma_count_matches_listing(max_zoom, bbox);
    lemma_box_covers_a_tile(max_zoom, bbox);
    if max_zoom > 0 {
        lemma_across_zooms_nonempty((max_zoom - 1) as nat, bbox);
    }
}

/// The threshold decides the geographic view's fate in a layer's plan: above
/// `max_tiles` at the estimate zoom its namespace is wiped and no key of it
/// is deleted explicitly; at or below, its namespace is not wiped and one
/// deletion holds the key of each of its tiles from zoom 0 to the
/// enumeration ceiling.
pub proof fn lemma_zone_plan_threshold(layer: Seq<char>, infra_id: int, zone: InvalidationZone, cfg: PlannerConfig)
    requires
        zone.valid,
        zone_plan_error(zone, cfg) is None,
    ensures
        too_many_tiles(zone.geo, cfg) ==> {
            &&& spec_layer_zone_plan(layer, infra_id, zone, cfg)[0] == (CacheOpView::WipeMatching {
                pattern: namespace_pattern(view_prefix(layer, infra_id, geo_view())),
            })
            &&& forall|i: int, k: int| 0 <= i < spec_layer_zone_plan(layer, infra_id, zone, cfg).len()
                && #[trigger] spec_layer_zone_plan(layer, infra_id, zone, cfg)[i] is DeleteKeys
                && 0 <= k < spec_layer_zone_plan(layer, infra_id, zone, cfg)[i]->DeleteKeys_keys.len()
                ==> !(view_prefix(layer, infra_id, geo_view()) + "."@).is_prefix_of(
                    #[trigger] spec_layer_zone_plan(layer, infra_id, zone, cfg)[i]->DeleteKeys_keys[k])
        },
        !too_many_tiles(zone.geo, cfg) ==> {
            &&& !spec_layer_zone_plan(layer, infra_id, zone, cfg).contains(CacheOpView::WipeMatching {
                pattern: namespace_pattern(view_prefix(layer, infra_id, geo_view())),
            })
            &&& exists|i: int| 0 <= i < spec_layer_zone_plan(layer, infra_id, zone, cfg).len()
                && #[trigger] spec_layer_zone_plan(layer, infra_id, zone, cfg)[i] is DeleteKeys
                && forall|t: TileCoordinate| spec_tiles_across_zooms(cfg.enumerate_zoom as nat, zone.geo).contains(t)
                    ==> spec_layer_zone_plan(layer, infra_id, zone, cfg)[i]->DeleteKeys_keys.contains(
                        #[trigger] tile_key(view_prefix(layer, infra_id, geo_view()), t))
        },
{
    reveal_strlit("geo");
    reveal_strlit("sch");
    reveal_strlit(".");
    reveal_strlit(".*");
    let plan = spec_layer_zone_plan(layer, infra_id, zone, cfg);
    let geo_keys = view_keys(layer, infra_id, geo_view(), zone.geo, cfg);
    let sch_keys = view_keys(layer, infra_id, sch_view(), zone.sch, cfg);
    let keys = geo_keys + sch_keys;
    let wipes = view_wipes(layer, infra_id, geo_view(), zone.geo, cfg) + view_wipes(layer, infra_id, sch_view(), zone.sch, cfg);
    let tail = if keys.len() == 0 { Seq::<CacheOpView>::empty() } else { seq![CacheOpView::DeleteKeys { keys }] };
    assert(plan == wipes + tail);
    let geo_pattern = namespace_pattern(view_prefix(layer, infra_id, geo_view()));
    let sch_pattern = namespace_pattern(view_prefix(layer, infra_id, sch_view()));
    if too_many_tiles(zone.geo, cfg) {
        assert(plan[0] == wipe_of(geo_pattern));
        assert forall|i: int, k: int| 0 <= i < plan.len() && #[trigger] plan[i] is DeleteKeys
            && 0 <= k < plan[i]->DeleteKeys_keys.len()
            implies !(view_prefix(layer, infra_id, geo_view()) + "."@).is_prefix_of(#[trigger] plan[i]->DeleteKeys_keys[k]) by {
            assert(i >= wipes.len());
            assert(plan[i] == tail[i - wipes.len()]);
            assert(geo_keys.len() == 0);
            assert(keys =~= sch_keys);
            let t = spec_tiles_across_zooms(cfg.enumerate_zoom as nat, zone.sch)[k];
            assert(sch_keys[k] == tile_key(view_prefix(layer, infra_id, sch_view()), t));
            assert(geo_view() != sch_view()) by {
                assert(geo_view()[0] != sch_view()[0]);
            }
            lemma_sibling_views_disjoint(layer, infra_id, geo_view(), sch_view(), t);
        }
    } else {
        let lp = layer_prefix(layer, infra_id);
        assert(geo_pattern != sch_pattern) by {
            assert(geo_pattern[lp.len() as int + 1] == 'g');
            assert(sch_pattern[lp.len() as int + 1] == 's');
        }
        assert(wipes =~= view_wipes(layer, infra_id, sch_view(), zone.sch, cfg));
        if plan.contains(wipe_of(geo_pattern)) {
            let i = choose|i: int| 0 <= i < plan.len() && plan[i] == wipe_of(geo_pattern);
            if i < wipes.len() {
                assert(wipes[i] == wipe_of(sch_pattern));
            } else {
                assert(plan[i] == tail[i - wipes.len()]);
            }
        }
        let tiles = spec_tiles_across_zooms(cfg.enumerate_zoom as nat, zone.geo);
        lemma_across_zooms_nonempty(cfg.enumerate_zoom as nat, zone.geo);
        assert(keys.len() > 0);
        let i = wipes.len() as int;
        assert(plan[i] == tail[0]);
        assert forall|t: TileCoordinate| tiles.contains(t)
            implies plan[i]->DeleteKeys_keys.contains(#[trigger] tile_key(view_prefix(layer, infra_id, geo_view()), t)) by {
            let j = choose|j: int| 0 <= j < tiles.len() && tiles[j] == t;
            assert(keys[j] == geo_keys[j]);
        }
    }
}

/// The wipe of every key matching `pattern`.
pub open spec fn wipe_of(pattern: Seq<char>) -> CacheOpView {
    CacheOpView::WipeMatching { pattern }
}

} // verus!
