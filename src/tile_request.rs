//! What serving one tile takes: the view to read, its cache key, the query
//! for a cache miss and how long the encoded tile stays cached.

use vstd::prelude::*;
use crate::cache_keys::{
    append_signed_decimal, get_cache_tile_key, lemma_keys_nest, get_view_cache_prefix, signed_decimal, tile_key,
    view_prefix,
};
use crate::layers_error::{sorted_names_of, LayersError};
use crate::map_layers::{spec_geo_json_type, GeoJsonType, MapLayers};
use crate::sql_query::{get_geo_json_sql_query, spec_geo_json_sql_query};
use crate::tiles::TileCoordinate;

verus! {

/// Everything needed to serve one tile of one view.
#[derive(Debug, PartialEq, Eq)]
pub struct TilePlan {
    /// The key the encoded tile is cached under.
    pub cache_key: String,
    /// The query returning the view's rows for the tile, on a cache miss.
    pub query: String,
    /// How long the encoded tile stays cached, in seconds.
    pub cache_duration: u32,
    /// The geometry kind of the layer's rows.
    pub geometry: GeoJsonType,
}

/// Why a tile cannot be served.
#[derive(Debug, PartialEq, Eq)]
pub enum TileRequestError {
    /// The layer or the view is unknown.
    Lookup(LayersError),
    /// The layer holds a geometry kind that tiles do not support.
    UnsupportedGeometry(String),
}

/// The index of the first entry named `name`, if any.
pub open spec fn first_index<T>(entries: Seq<(String, T)>, name: Seq<char>) -> Option<int> {
    if exists|i: int| 0 <= i < entries.len() && #[trigger] entries[i].0@ == name {
        Some(choose|i: int| 0 <= i < entries.len() && #[trigger] entries[i].0@ == name
            && forall|j: int| 0 <= j < i ==> #[trigger] entries[j].0@ != name)
    } else {
        None
    }
}

proof fn lemma_first_index<T>(entries: Seq<(String, T)>, name: Seq<char>, i: int)
    requires
        0 <= i < entries.len(),
        entries[i].0@ == name,
        forall|j: int| 0 <= j < i ==> #[trigger] entries[j].0@ != name,
    ensures
        first_index(entries, name) == Some(i),
{
    let k = choose|k: int| 0 <= k < entries.len() && #[trigger] entries[k].0@ == name
        && forall|j: int| 0 <= j < k ==> #[trigger] entries[j].0@ != name;
    if k < i {
        assert(entries[k].0@ != name);
    } else if i < k {
        assert(entries[i].0@ != name);
    }
}

/// Plans serving tile `z/x/y` of view `view_slug` of layer `layer_slug` for
/// infrastructure `infra`. The first layer and the first view of each name
/// count; an unknown name is rejected with the names expected.
pub fn plan_tile_request(
    map_layers: &MapLayers,
    layer_slug: &str,
    view_slug: &str,
    infra: i64,
    z: u64,
    x: u64,
    y: u64,
) -> (r: Result<TilePlan, TileRequestError>)
    ensures
        match first_index(map_layers.layers@, layer_slug@) {
            None => r matches Err(TileRequestError::Lookup(LayersError::LayerNotFound { layer_name, expected_names }))
                && layer_name@ == layer_slug@ && sorted_names_of(expected_names@, map_layers.layers@),
            Some(li) => {
                let layer = map_layers.layers@[li].1;
                match first_index(layer.views@, view_slug@) {
                    None => r matches Err(TileRequestError::Lookup(LayersError::ViewNotFound { view_name, expected_names }))
                        && view_name@ == view_slug@ && sorted_names_of(expected_names@, layer.views@),
                    Some(vi) => {
                        let view = layer.views@[vi].1;
                        match spec_geo_json_type(layer.geom_type@) {
                            None => r matches Err(TileRequestError::UnsupportedGeometry(kind)) && kind@ == layer.geom_type@,
                            Some(kind) => r matches Ok(plan) && plan.geometry == kind
                                && plan.cache_duration == view.cache_duration
                                && plan.query@ == spec_geo_json_sql_query(layer.table_name@, view)
                                && plan.cache_key@ == tile_key(view_prefix(layer_slug@, infra as int, view_slug@), TileCoordinate { x, y, z })
                                && view_prefix(layer_slug@, infra as int, view_slug@).is_prefix_of(plan.cache_key@)
                                && view_prefix(layer_slug@, infra as int, view_slug@).len() < plan.cache_key@.len(),
                        }
                    },
                }
            },
        },
{
    let layer = match map_layers.layer(layer_slug) {
        Some(layer) => layer,
        None => {
            return Err(TileRequestError::Lookup(LayersError::new_layer_not_found(layer_slug, map_layers)));
        },
    };
    proof {
        let li = choose|i: int| 0 <= i < map_layers.layers@.len() && #[trigger] map_layers.layers@[i].0@ == layer_slug@
            && map_layers.layers@[i].1 == *layer && forall|j: int| 0 <= j < i ==> #[trigger] map_layers.layers@[j].0@ != layer_slug@;
        lemma_first_index(map_layers.layers@, layer_slug@, li);
    }
    let view = match layer.view(view_slug) {
        Some(view) => view,
        None => {
            return Err(TileRequestError::Lookup(LayersError::new_view_not_found(view_slug, layer)));
        },
    };
    proof {
        let vi = choose|i: int| 0 <= i < layer.views@.len() && #[trigger] layer.views@[i].0@ == view_slug@
            && layer.views@[i].1 == *view && forall|j: int| 0 <= j < i ==> #[trigger] layer.views@[j].0@ != view_slug@;
        lemma_first_index(layer.views@, view_slug@, vi);
    }
    let geometry = match layer.geo_json_type() {
        Some(kind) => kind,
        None => {
            return Err(TileRequestError::UnsupportedGeometry(layer.geom_type.clone()));
        },
    };
    let prefix = get_view_cache_prefix(layer_slug, infra, view_slug);
    let cache_key = get_cache_tile_key(prefix.as_str(), &TileCoordinate { x, y, z });
    proof {
        lemma_keys_nest(layer_slug@, infra as int, view_slug@, TileCoordinate { x, y, z });
    }
    let query = get_geo_json_sql_query(layer.table_name.as_str(), view);
    Ok(TilePlan { cache_key, query, cache_duration: view.cache_duration, geometry })
}

/// What a map client needs to fetch the tiles of one view.
#[derive(Debug, PartialEq, Eq)]
pub struct LayerViewInfo {
    pub name: String,
    /// The field identifying a feature, if the layer names one.
    pub promote_id: Option<String>,
    /// The tile URL, with `{z}`, `{x}` and `{y}` left for the client.
    pub tiles_url: String,
    /// The layer's attribution, empty when it has none.
    pub attribution: String,
    pub min_zoom: u32,
    pub max_zoom: u32,
}

pub open spec fn spec_tiles_url(root_url: Seq<char>, layer: Seq<char>, view: Seq<char>, infra: int) -> Seq<char> {
    root_url + "/layers/tile/"@ + layer + "/"@ + view + "/{z}/{x}/{y}/?infra="@ + signed_decimal(infra)
}

/// The URL pattern of the tiles of a view of a layer for an infrastructure.
pub fn tiles_url_pattern(root_url: &str, layer_slug: &str, view_slug: &str, infra: i64) -> (r: String)
    ensures
        r@ == spec_tiles_url(root_url@, layer_slug@, view_slug@, infra as int),
{
    let mut s = String::from_str(root_url);
    s.append("/layers/tile/");
    s.append(layer_slug);
    s.append("/");
    s.append(view_slug);
    s.append("/{z}/{x}/{y}/?infra=");
    append_signed_decimal(&mut s, infra);
    s
}

/// Describes view `view_slug` of layer `layer_slug` for a map client; an
/// unknown name is rejected with the names expected.
pub fn layer_view(
    map_layers: &MapLayers,
    layer_slug: &str,
    view_slug: &str,
    infra: i64,
    root_url: &str,
    max_zoom: u32,
) -> (r: Result<LayerViewInfo, LayersError>)
    ensures
        match first_index(map_layers.layers@, layer_slug@) {
            None => r matches Err(LayersError::LayerNotFound { layer_name, expected_names })
                && layer_name@ == layer_slug@ && sorted_names_of(expected_names@, map_layers.layers@),
            Some(li) => {
                let layer = map_layers.layers@[li].1;
                if first_index(layer.views@, view_slug@) is None {
                    r matches Err(LayersError::ViewNotFound { view_name, expected_names })
                        && view_name@ == view_slug@ && sorted_names_of(expected_names@, layer.views@)
                } else {
                    r matches Ok(info) && info.name@ == layer_slug@
                        && info.promote_id == layer.id_field
                        && info.tiles_url@ == spec_tiles_url(root_url@, layer_slug@, view_slug@, infra as int)
                        && info.attribution@ == match layer.attribution {
                            Some(a) => a@,
                            None => Seq::<char>::empty(),
                        }
                        && info.min_zoom == 0 && info.max_zoom == max_zoom
                }
            },
        },
{
    let layer = match map_layers.layer(layer_slug) {
        Some(layer) => layer,
        None => {
            return Err(LayersError::new_layer_not_found(layer_slug, map_layers));
        },
    };
    proof {
        let li = choose|i: int| 0 <= i < map_layers.layers@.len() && #[trigger] map_layers.layers@[i].0@ == layer_slug@
            && map_layers.layers@[i].1 == *layer && forall|j: int| 0 <= j < i ==> #[trigger] map_layers.layers@[j].0@ != layer_slug@;
        lemma_first_index(map_layers.layers@, layer_slug@, li);
    }
    match layer.view(view_slug) {
        Some(_) => {},
        None => {
            return Err(LayersError::new_view_not_found(view_slug, layer));
        },
    }
    let attribution = match &layer.attribution {
        Some(a) => a.clone(),
        None => String::new(),
    };
    Ok(LayerViewInfo {
        name: String::from_str(layer_slug),
        promote_id: layer.id_field.clone(),
        tiles_url: tiles_url_pattern(root_url, layer_slug, view_slug, infra),
        attribution,
        min_zoom: 0,
        max_zoom,
    })
}

} // verus!
