//! Assembling a vector tile from query rows.
//!
//! The tile format itself is written by the `mvt` crate. This module holds
//! what the library decides: no layer for an empty tile, one feature per
//! row in row order, the feature's geometry as given and its tags flattened
//! from the row's attribute document.

use vstd::prelude::*;
use crate::document::{
    flatten, flatten_document, tag_views, Document, TagValue, TagValueView, NEGATIVE_ZERO, no_negative_zero,
};

verus! {

#[verifier::external_type_specification]
#[verifier::external_body]
pub struct ExTile(mvt::Tile);

#[verifier::external_type_specification]
#[verifier::external_body]
pub struct ExLayer(mvt::Layer);

#[verifier::external_type_specification]
#[verifier::external_body]
pub struct ExFeature(mvt::Feature);

#[verifier::external_type_specification]
#[verifier::external_body]
pub struct ExGeomData(mvt::GeomData);

#[verifier::external_type_specification]
#[verifier::external_body]
pub struct ExMvtError(mvt::Error);

/// Width and height of a tile's local grid.
pub const TILE_EXTENT: u32 = 4096;

/// A feature as written: its geometry and its tags in insertion order.
pub ghost struct FeatureModel {
    pub geometry: mvt::GeomData,
    pub tags: Seq<(Seq<char>, TagValueView)>,
}

/// A layer as written: its name, its grid extent and its features in order.
pub ghost struct LayerModel {
    pub name: Seq<char>,
    pub extent: u32,
    pub features: Seq<FeatureModel>,
}

/// The layers a tile holds, in the order they were added.
pub uninterp spec fn tile_layers(t: mvt::Tile) -> Seq<LayerModel>;

/// The grid extent a tile was created with.
pub uninterp spec fn tile_extent(t: mvt::Tile) -> u32;

/// What a layer holds.
pub uninterp spec fn layer_content(l: mvt::Layer) -> LayerModel;

/// The layer a feature under construction belongs to, without the feature.
pub uninterp spec fn feature_owner(f: mvt::Feature) -> LayerModel;

/// What a feature under construction holds.
pub uninterp spec fn feature_content(f: mvt::Feature) -> FeatureModel;

/// The bytes of a tile holding these layers, when the tile is built plainly.
pub uninterp spec fn tile_encoding(layers: Seq<LayerModel>) -> Seq<u8>;

/// Whether a tile was built plainly: no feature of it carries an id, every
/// layer of it was made by `create_layer`, and each layer's key and value
/// tables are those its features' tags give, in the order they were added.
/// Its bytes then depend on `tile_layers` alone.
pub uninterp spec fn tile_built_plainly(t: mvt::Tile) -> bool;

/// Whether a layer was built plainly, in the sense of `tile_built_plainly`.
pub uninterp spec fn layer_built_plainly(l: mvt::Layer) -> bool;

/// Whether a feature and its layer were built plainly, in the sense of
/// `tile_built_plainly`.
pub uninterp spec fn feature_built_plainly(f: mvt::Feature) -> bool;

/// Relies on mvt::Tile::new: a tile with no layer and the given extent.
#[verifier::external_body]
fn new_tile(extent: u32) -> (t: mvt::Tile)
    ensures
        tile_layers(t) == Seq::<LayerModel>::empty(),
        tile_extent(t) == extent,
        tile_built_plainly(t),
{
    mvt::Tile::new(extent)
}

/// Relies on mvt::Tile::create_layer: an empty layer with the tile's extent.
#[verifier::external_body]
fn create_layer(t: &mvt::Tile, name: &str) -> (l: mvt::Layer)
    ensures
        layer_content(l) == (LayerModel { name: name@, extent: tile_extent(*t), features: Seq::empty() }),
        layer_built_plainly(l),
{
    t.create_layer(name)
}

/// Relies on mvt::Layer::into_feature: a feature with this geometry and no tag.
#[verifier::external_body]
fn into_feature(l: mvt::Layer, geometry: mvt::GeomData) -> (f: mvt::Feature)
    ensures
        feature_owner(f) == layer_content(l),
        feature_content(f) == (FeatureModel { geometry, tags: Seq::empty() }),
        layer_built_plainly(l) ==> feature_built_plainly(f),
{
    l.into_feature(geometry)
}

/// Relies on mvt::Feature::into_layer: the layer with the feature appended.
#[verifier::external_body]
fn into_layer(f: mvt::Feature) -> (l: mvt::Layer)
    ensures
        layer_content(l) == (LayerModel {
            features: feature_owner(f).features.push(feature_content(f)),
            ..feature_owner(f)
        }),
        feature_built_plainly(f) ==> layer_built_plainly(l),
{
    f.into_layer()
}

/// Relies on mvt::Feature::add_tag_bool: appends one boolean tag.
#[verifier::external_body]
fn add_tag_bool(f: &mut mvt::Feature, key: &str, value: bool)
    ensures
        feature_owner(*final(f)) == feature_owner(*old(f)),
        feature_content(*final(f)) == (FeatureModel {
            tags: feature_content(*old(f)).tags.push((key@, TagValueView::Bool(value))),
            ..feature_content(*old(f))
        }),
        feature_built_plainly(*old(f)) ==> feature_built_plainly(*final(f)),
{
    f.add_tag_bool(key, value)
}

/// Relies on mvt::Feature::add_tag_int: appends one signed integer tag.
#[verifier::external_body]
fn add_tag_int(f: &mut mvt::Feature, key: &str, value: i64)
    ensures
        feature_owner(*final(f)) == feature_owner(*old(f)),
        feature_content(*final(f)) == (FeatureModel {
            tags: feature_content(*old(f)).tags.push((key@, TagValueView::Int(value))),
            ..feature_content(*old(f))
        }),
        feature_built_plainly(*old(f)) ==> feature_built_plainly(*final(f)),
{
    f.add_tag_int(key, value)
}

/// Relies on mvt::Feature::add_tag_uint: appends one unsigned integer tag.
#[verifier::external_body]
fn add_tag_uint(f: &mut mvt::Feature, key: &str, value: u64)
    ensures
        feature_owner(*final(f)) == feature_owner(*old(f)),
        feature_content(*final(f)) == (FeatureModel {
            tags: feature_content(*old(f)).tags.push((key@, TagValueView::Uint(value))),
            ..feature_content(*old(f))
        }),
        feature_built_plainly(*old(f)) ==> feature_built_plainly(*final(f)),
{
    f.add_tag_uint(key, value)
}

/// Relies on mvt::Feature::add_tag_double: appends one double tag, given by
/// its bit pattern. Not for `-0.0`, which the layer's value table may merge
/// with `0.0`.
#[verifier::external_body]
fn add_tag_double(f: &mut mvt::Feature, key: &str, bits: u64)
    requires
        bits != NEGATIVE_ZERO,
    ensures
        feature_owner(*final(f)) == feature_owner(*old(f)),
        feature_content(*final(f)) == (FeatureModel {
            tags: feature_content(*old(f)).tags.push((key@, TagValueView::Double(bits))),
            ..feature_content(*old(f))
        }),
        feature_built_plainly(*old(f)) ==> feature_built_plainly(*final(f)),
{
    f.add_tag_double(key, num_traits::FromBytes::from_le_bytes(&bits.to_le_bytes()))
}

/// Relies on mvt::Feature::add_tag_string: appends one string tag.
#[verifier::external_body]
fn add_tag_string(f: &mut mvt::Feature, key: &str, value: &str)
    ensures
        feature_owner(*final(f)) == feature_owner(*old(f)),
        feature_content(*final(f)) == (FeatureModel {
            tags: feature_content(*old(f)).tags.push((key@, TagValueView::Str(value@))),
            ..feature_content(*old(f))
        }),
        feature_built_plainly(*old(f)) ==> feature_built_plainly(*final(f)),
{
    f.add_tag_string(key, value)
}

/// Relies on mvt::Tile::add_layer: the layer is appended when its extent
/// is the tile's and no layer of the tile has its name; otherwise the tile
/// is left as it was and an error comes back.
#[verifier::external_body]
fn add_layer(t: &mut mvt::Tile, l: mvt::Layer) -> (r: Result<(), mvt::Error>)
    ensures
        tile_extent(*final(t)) == tile_extent(*old(t)),
        r is Ok <==> (layer_content(l).extent == tile_extent(*old(t)) && forall|i: int|
            0 <= i < tile_layers(*old(t)).len() ==> #[trigger] tile_layers(*old(t))[i].name
                != layer_content(l).name),
        r is Ok ==> tile_layers(*final(t)) == tile_layers(*old(t)).push(layer_content(l)),
        r is Err ==> tile_layers(*final(t)) == tile_layers(*old(t)),
        tile_built_plainly(*old(t)) && layer_built_plainly(l) ==> tile_built_plainly(*final(t)),
{
    t.add_layer(l)
}

/// Relies on mvt::Tile::to_bytes: always succeeds, the encoding of a tile
/// built plainly depends on its layers alone, and a tile without layers
/// encodes to no byte.
#[verifier::external_body]
fn encode_tile(t: &mvt::Tile) -> (r: Result<Vec<u8>, mvt::Error>)
    requires
        tile_built_plainly(*t),
    ensures
        r is Ok,
        r is Ok ==> r->Ok_0@ == tile_encoding(tile_layers(*t)),
        r is Ok && tile_layers(*t).len() == 0 ==> r->Ok_0@.len() == 0,
{
    t.to_bytes()
}

/// One row returned for a tile: its geometry, already encoded in the tile's
/// local grid, and its attribute document.
pub struct TileRecord {
    pub geometry: mvt::GeomData,
    pub data: Document,
}

pub open spec fn record_feature(r: TileRecord) -> FeatureModel {
    FeatureModel { geometry: r.geometry, tags: flatten(r.data, Seq::empty()) }
}

/// The layers of the tile built from `records`: none when there is no
/// record, else one layer named `layer_name` with one feature per record,
/// in record order.
pub open spec fn spec_tile_layers(layer_name: Seq<char>, records: Seq<TileRecord>) -> Seq<LayerModel> {
    if records.len() == 0 {
        Seq::empty()
    } else {
        seq![
            LayerModel {
                name: layer_name,
                extent: TILE_EXTENT,
                features: records.map_values(|r: TileRecord| record_feature(r)),
            },
        ]
    }
}

/// Adds the flattened tags of `data` to `f`, in order.
fn add_tags_to_feature(f: &mut mvt::Feature, data: &Document)
    ensures
        feature_owner(*final(f)) == feature_owner(*old(f)),
        feature_content(*final(f)) == (FeatureModel {
            tags: feature_content(*old(f)).tags + flatten(*data, Seq::empty()),
            ..feature_content(*old(f))
        }),
        feature_built_plainly(*old(f)) ==> feature_built_plainly(*final(f)),
{
    let tags = flatten_document(data);
    let ghost start = feature_content(*f);
    let mut i: usize = 0;
    while i < tags.len()
        invariant
            i <= tags@.len(),
            feature_owner(*f) == feature_owner(*old(f)),
            feature_built_plainly(*old(f)) ==> feature_built_plainly(*f),
            no_negative_zero(tags@),
            feature_content(*f) == (FeatureModel {
                tags: start.tags + tag_views(tags@).take(i as int),
                ..start
            }),
        decreases tags@.len() - i,
    {
        let key = tags[i].key.as_str();
        match &tags[i].value {
            TagValue::Bool(b) => add_tag_bool(f, key, *b),
            TagValue::Int(v) => add_tag_int(f, key, *v),
            TagValue::Uint(v) => add_tag_uint(f, key, *v),
            TagValue::Double(bits) => {
                assert(tags@[i as int].value != TagValue::Double(NEGATIVE_ZERO));
                add_tag_double(f, key, *bits)
            },
            TagValue::Str(s) => add_tag_string(f, key, s.as_str()),
        }
        assert(tag_views(tags@).take(i + 1) =~= tag_views(tags@).take(i as int).push(tags@[i as int]@));
        i = i + 1;
    }
    assert(tag_views(tags@).take(tags@.len() as int) =~= tag_views(tags@));
}

/// Builds the tile holding `records` as features of one layer named
/// `layer_name`; with no record the tile holds no layer at all.
pub fn create_and_fill_mvt_tile(layer_name: &str, records: Vec<TileRecord>) -> (r: mvt::Tile)
    ensures
        tile_built_plainly(r),
        tile_extent(r) == TILE_EXTENT,
        tile_layers(r) == spec_tile_layers(layer_name@, records@),
{
    let mut tile = new_tile(TILE_EXTENT);
    if records.len() == 0 {
        return tile;
    }
    let ghost all = records@;
    let n = records.len();
    let mut pending: Vec<TileRecord> = Vec::new();
    let mut records = records;
    while records.len() > 0
        invariant
            records@.len() + pending@.len() == n,
            n == all.len(),
            records@ == all.take(records@.len() as int),
            forall|j: int| 0 <= j < pending@.len() ==> #[trigger] pending@[j] == all[n - 1 - j],
        decreases records@.len(),
    {
        let record = records.pop().unwrap();
        pending.push(record);
        assert(records@ =~= all.take(records@.len() as int));
    }
    let mut layer = create_layer(&tile, layer_name);
    let mut done: usize = 0;
    assert(all.take(0).map_values(|r: TileRecord| record_feature(r)) =~= Seq::<FeatureModel>::empty());
    while pending.len() > 0
        invariant
            done + pending@.len() == n,
            n == all.len(),
            forall|j: int| 0 <= j < pending@.len() ==> #[trigger] pending@[j] == all[n - 1 - j],
            layer_content(layer) == (LayerModel {
                name: layer_name@,
                extent: TILE_EXTENT,
                features: all.take(done as int).map_values(|r: TileRecord| record_feature(r)),
            }),
            tile_extent(tile) == TILE_EXTENT,
            tile_layers(tile) == Seq::<LayerModel>::empty(),
            tile_built_plainly(tile),
            layer_built_plainly(layer),
        decreases pending@.len(),
    {
        let record = pending.pop().unwrap();
        assert(record == all[done as int]);
        let mut feature = into_feature(layer, record.geometry);
        add_tags_to_feature(&mut feature, &record.data);
        layer = into_layer(feature);
        assert(all.take(done + 1).map_values(|r: TileRecord| record_feature(r)) =~= all.take(
            done as int,
        ).map_values(|r: TileRecord| record_feature(r)).push(record_feature(all[done as int])));
        done = done + 1;
    }
    assert(all.take(n as int) =~= all);
    let added = add_layer(&mut tile, layer);
    assert(added is Ok);
    assert(tile_layers(tile) =~= spec_tile_layers(layer_name@, all));
    tile
}

/// The bytes of a tile built plainly.
fn tile_bytes(t: &mvt::Tile) -> (r: Vec<u8>)
    requires
        tile_built_plainly(*t),
    ensures
        r@ == tile_encoding(tile_layers(*t)),
        tile_layers(*t).len() == 0 ==> r@.len() == 0,
{
    match encode_tile(t) {
        Ok(bytes) => bytes,
        Err(_) => Vec::new(),
    }
}

/// The bytes of the tile holding `records` as features of one layer named
/// `layer_name`: a function of the name and the records alone, and no byte
/// at all when there is no record.
pub fn encode_records(layer_name: &str, records: Vec<TileRecord>) -> (r: Vec<u8>)
    ensures
        r@ == tile_encoding(spec_tile_layers(layer_name@, records@)),
        records@.len() == 0 ==> r@.len() == 0,
{
    let tile = create_and_fill_mvt_tile(layer_name, records);
    tile_bytes(&tile)
}

/// Encoding is deterministic: rows with the same geometries whose documents
/// flatten to the same tags, under the same layer name, give the same bytes.
pub proof fn lemma_encoding_deterministic(name_a: Seq<char>, name_b: Seq<char>, rows_a: Seq<TileRecord>, rows_b: Seq<TileRecord>)
    requires
        name_a == name_b,
        rows_a.len() == rows_b.len(),
        forall|i: int| 0 <= i < rows_a.len() ==> #[trigger] rows_a[i].geometry == rows_b[i].geometry,
        forall|i: int| 0 <= i < rows_a.len() ==> flatten(#[trigger] rows_a[i].data, Seq::empty()) == flatten(rows_b[i].data, Seq::empty()),
    ensures
        tile_encoding(spec_tile_layers(name_a, rows_a)) == tile_encoding(spec_tile_layers(name_b, rows_b)),
{
    assert(rows_a.map_values(|r: TileRecord| record_feature(r)) =~= rows_b.map_values(|r: TileRecord| record_feature(r)));
    assert(spec_tile_layers(name_a, rows_a) =~= spec_tile_layers(name_b, rows_b));
}

} // verus!
