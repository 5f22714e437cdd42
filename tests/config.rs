use editoast::tile_request::{plan_tile_request, TileRequestError};
use editoast::layers_error::LayersError;
use editoast::map_layers::{GeoJsonType, LayerDescriptor, MapLayers, ViewDescriptor};
use editoast::redis_config::RedisConfig;
use editoast::sql_query::get_geo_json_sql_query;

fn strings(items: &[&str]) -> Vec<String> {
    items.iter().map(|s| s.to_string()).collect()
}

fn view(on_field: &str, data_expr: &str, exclude: &[&str], joins: &[&str], where_expr: &[&str]) -> ViewDescriptor {
    ViewDescriptor {
        on_field: on_field.to_string(),
        data_expr: data_expr.to_string(),
        exclude_fields: strings(exclude),
        joins: strings(joins),
        cache_duration: 3600,
        where_expr: strings(where_expr),
    }
}

fn layer(table_name: &str, geom_type: &str, views: Vec<(&str, ViewDescriptor)>) -> LayerDescriptor {
    LayerDescriptor {
        table_name: table_name.to_string(),
        views: views.into_iter().map(|(n, v)| (n.to_string(), v)).collect(),
        id_field: Some("id".to_string()),
        attribution: None,
        geom_type: geom_type.to_string(),
    }
}

/// The two layers described in the service's configuration that the query tests use.
fn map_layers() -> MapLayers {
    let track_sections = layer(
        "osrd_infra_tracksectionlayer",
        "LineString",
        vec![
            ("geo", view("geographic", "track_section.data", &["geo", "sch"], &["inner join osrd_infra_tracksectionmodel track_section on track_section.obj_id = layer.obj_id and track_section.infra_id = layer.infra_id"], &[])),
            ("sch", view("schematic", "track_section.data", &["geo", "sch"], &["inner join osrd_infra_tracksectionmodel track_section on track_section.obj_id = layer.obj_id and track_section.infra_id = layer.infra_id"], &[])),
        ],
    );
    let speed_sections = layer(
        "osrd_infra_speedsectionlayer",
        "MultiLineString",
        vec![
            ("geo", view("geographic", "speed_section.data", &[], &["inner join osrd_infra_speedsectionmodel speed_section on speed_section.obj_id = layer.obj_id and speed_section.infra_id = layer.infra_id"], &["not (speed_section.data @? '$.extensions.lpv_sncf.z')"])),
            ("sch", view("schematic", "speed_section.data", &[], &["inner join osrd_infra_speedsectionmodel speed_section on speed_section.obj_id = layer.obj_id and speed_section.infra_id = layer.infra_id"], &["not (speed_section.data @? '$.extensions.lpv_sncf.z')"])),
        ],
    );
    MapLayers {
        layers: vec![
            ("track_sections".to_string(), track_sections),
            ("speed_sections".to_string(), speed_sections),
        ],
    }
}

#[test]
fn mvt_utils_test_query_creation() {
    let map_layers = map_layers();
    let expected_queries = [
        "
        WITH bbox AS (
            SELECT TileBBox($1, $2, $3, 3857) AS geom
        )
        SELECT ST_AsGeoJson(geographic) AS geo_json, 
            track_section.data - 'geo' - 'sch' AS data 
        FROM osrd_infra_tracksectionlayer layer 
            CROSS JOIN bbox 
            inner join osrd_infra_tracksectionmodel track_section on track_section.obj_id = layer.obj_id and track_section.infra_id = layer.infra_id 
        WHERE layer.infra_id = $4
            
            AND schematic && bbox.geom 
            AND ST_GeometryType(schematic) != 'ST_GeometryCollection'
        ",
        "
        WITH bbox AS (
            SELECT TileBBox($1, $2, $3, 3857) AS geom
        )
        SELECT ST_AsGeoJson(geographic) AS geo_json, 
            speed_section.data  AS data 
        FROM osrd_infra_speedsectionlayer layer 
            CROSS JOIN bbox 
            inner join osrd_infra_speedsectionmodel speed_section on speed_section.obj_id = layer.obj_id and speed_section.infra_id = layer.infra_id 
        WHERE layer.infra_id = $4
            AND (not (speed_section.data @? '$.extensions.lpv_sncf.z'))
            AND schematic && bbox.geom 
            AND ST_GeometryType(schematic) != 'ST_GeometryCollection'
        "
        ];
    for (i, layer_name) in ["track_sections", "speed_sections"].iter().enumerate() {
        let track_sections = map_layers.layer(layer_name).unwrap();
        let query = get_geo_json_sql_query(
            &track_sections.table_name,
            track_sections.view("sch").unwrap(),
        );
        assert_eq!(expected_queries[i], query);
    }
}

#[test]
fn query_with_several_conditions() {
    let v = view("f", "d", &["a", "b", "c"], &["j1", "j2"], &["x", "y"]);
    let query = get_geo_json_sql_query("t", &v);
    assert!(query.contains("d - 'a' - 'b' - 'c' AS data"));
    assert!(query.contains("j1 j2 \n"));
    assert!(query.contains("AND (x) AND (y)\n"));
}

#[test]
fn redis_url_gets_one_trailing_slash() {
    let bare = RedisConfig { redis_url: "redis://localhost:6379".to_string() };
    assert_eq!(bare.url(), "redis://localhost:6379/");
    let slashed = RedisConfig { redis_url: "redis://cache:6379/".to_string() };
    assert_eq!(slashed.url(), "redis://cache:6379/");
    assert_eq!(RedisConfig { redis_url: String::new() }.url(), "/");
    assert_eq!(RedisConfig::new().url(), "redis://localhost:6379/");
}

#[test]
fn geometry_kinds() {
    let kinds = map_layers();
    assert_eq!(kinds.layer("track_sections").unwrap().geo_json_type(), Some(GeoJsonType::LineString));
    assert_eq!(kinds.layer("speed_sections").unwrap().geo_json_type(), Some(GeoJsonType::MultiLineString));
    let point = layer("t", "Point", vec![]);
    assert_eq!(point.geo_json_type(), Some(GeoJsonType::Point));
    let multi_point = layer("t", "MultiPoint", vec![]);
    assert_eq!(multi_point.geo_json_type(), Some(GeoJsonType::MultiPoint));
    let polygon = layer("t", "Polygon", vec![]);
    assert_eq!(polygon.geo_json_type(), None);
}

#[test]
fn unknown_names_list_the_expected_ones_sorted() {
    let layers = map_layers();
    assert!(layers.layer("does_not_exist").is_none());
    let error = LayersError::new_layer_not_found("does_not_exist", &layers);
    assert_eq!(
        error,
        LayersError::LayerNotFound {
            layer_name: "does_not_exist".to_string(),
            expected_names: strings(&["speed_sections", "track_sections"]),
        }
    );
    assert_eq!(error.get_type(), "editoast:layers:LayerNotFound");
    let mut track_sections = layer("t", "LineString", vec![("sch", view("s", "d", &[], &[], &[])), ("geo", view("g", "d", &[], &[], &[]))]);
    track_sections.views.push(("geo".to_string(), view("g", "d", &[], &[], &[])));
    let error = LayersError::new_view_not_found("does_not_exist", &track_sections);
    assert_eq!(
        error,
        LayersError::ViewNotFound {
            view_name: "does_not_exist".to_string(),
            expected_names: strings(&["geo", "geo", "sch"]),
        }
    );
    assert_eq!(error.get_type(), "editoast:layers:ViewNotFound");
}

#[test]
fn names_sort_by_character() {
    let names = ["b", "", "ab", "a", "Z", "é", "aa"];
    let l = layer("t", "Point", names.iter().map(|n| (*n, view("f", "d", &[], &[], &[]))).collect());
    match LayersError::new_view_not_found("x", &l) {
        LayersError::ViewNotFound { expected_names, .. } => {
            let mut expected = strings(&names);
            expected.sort();
            assert_eq!(expected_names, expected);
        }
        other => panic!("unexpected {other:?}"),
    }
}

#[test]
fn tile_request_plan() {
    let layers = map_layers();
    let plan = plan_tile_request(&layers, "track_sections", "sch", 2, 7, 64, 44).unwrap();
    assert_eq!(plan.cache_key, "layer.track_sections.infra_2.sch.tile/7/64/44");
    assert_eq!(plan.cache_duration, 3600);
    assert_eq!(plan.geometry, GeoJsonType::LineString);
    let expected_query = get_geo_json_sql_query("osrd_infra_tracksectionlayer", layers.layer("track_sections").unwrap().view("sch").unwrap());
    assert_eq!(plan.query, expected_query);
    match plan_tile_request(&layers, "track_sections", "does_not_exist", 2, 7, 64, 44) {
        Err(TileRequestError::Lookup(LayersError::ViewNotFound { view_name, expected_names })) => {
            assert_eq!(view_name, "does_not_exist");
            assert_eq!(expected_names, strings(&["geo", "sch"]));
        }
        other => panic!("unexpected {other:?}"),
    }
    assert!(matches!(
        plan_tile_request(&layers, "nope", "geo", 2, 0, 0, 0),
        Err(TileRequestError::Lookup(LayersError::LayerNotFound { .. }))
    ));
    let odd = MapLayers { layers: vec![("polygons".to_string(), layer("t", "Polygon", vec![("geo", view("g", "d", &[], &[], &[]))]))] };
    assert_eq!(
        plan_tile_request(&odd, "polygons", "geo", 1, 0, 0, 0),
        Err(TileRequestError::UnsupportedGeometry("Polygon".to_string()))
    );
    assert!(plan.cache_key.starts_with("layer.track_sections.infra_2.sch."));
}

#[test]
fn layer_view() {
    let map_layers = map_layers();
    match editoast::tile_request::layer_view(&map_layers, "track_sections", "does_not_exist", 2, "http://localhost:8090", 18) {
        Err(error) => {
            assert_eq!(
                error,
                LayersError::ViewNotFound {
                    view_name: "does_not_exist".to_string(),
                    expected_names: strings(&["geo", "sch"]),
                }
            );
            assert_eq!(error.get_type(), "editoast:layers:ViewNotFound");
        }
        Ok(info) => panic!("unexpected {info:?}"),
    }
    let info = editoast::tile_request::layer_view(&map_layers, "track_sections", "geo", 2, "http://localhost:8090", 18).unwrap();
    assert_eq!(info.name, "track_sections");
    assert_eq!(info.promote_id, Some("id".to_string()));
    assert_eq!(info.tiles_url, "http://localhost:8090/layers/tile/track_sections/geo/{z}/{x}/{y}/?infra=2");
    assert_eq!(info.attribution, "");
    assert_eq!((info.min_zoom, info.max_zoom), (0, 18));
}
