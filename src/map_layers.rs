//! The static description of the map layers: for each layer its table, its
//! geometry kind and its views.

use vstd::prelude::*;

verus! {

/// How the rows of one cacheable rendering of a layer are fetched.
#[derive(Debug, PartialEq, Eq)]
pub struct ViewDescriptor {
    pub on_field: String,
    pub data_expr: String,
    pub exclude_fields: Vec<String>,
    pub joins: Vec<String>,
    /// Time to live of the view's cached tiles, in seconds.
    pub cache_duration: u32,
    pub where_expr: Vec<String>,
}

/// The geometry kinds a layer may hold.
#[derive(Clone, Copy, Debug, PartialEq, Eq, Structural)]
pub enum GeoJsonType {
    Point,
    MultiPoint,
    LineString,
    MultiLineString,
}

/// One map layer.
#[derive(Debug, PartialEq, Eq)]
pub struct LayerDescriptor {
    pub table_name: String,
    /// The layer's views by name, names unique.
    pub views: Vec<(String, ViewDescriptor)>,
    pub id_field: Option<String>,
    pub attribution: Option<String>,
    pub geom_type: String,
}

/// Every map layer, by name, names unique.
#[derive(Debug, PartialEq, Eq)]
pub struct MapLayers {
    pub layers: Vec<(String, LayerDescriptor)>,
}

pub open spec fn spec_geo_json_type(name: Seq<char>) -> Option<GeoJsonType> {
    if name == "Point"@ {
        Some(GeoJsonType::Point)
    } else if name == "MultiPoint"@ {
        Some(GeoJsonType::MultiPoint)
    } else if name == "LineString"@ {
        Some(GeoJsonType::LineString)
    } else if name == "MultiLineString"@ {
        Some(GeoJsonType::MultiLineString)
    } else {
        None
    }
}

/// Whether `s` reads `lit`.
fn reads(s: &String, lit: &str) -> (r: bool)
    ensures
        r == (s@ == lit@),
{
    let expected = String::from_str(lit);
    *s == expected
}

/// Finds the position of the first entry named `name`.
fn position_of<T>(entries: &Vec<(String, T)>, name: &str) -> (r: Option<usize>)
    ensures
        match r {
            Some(i) => i < entries@.len() && entries@[i as int].0@ == name@ && forall|j: int| 0 <= j < i ==> #[trigger] entries@[j].0@ != name@,
            None => forall|j: int| 0 <= j < entries@.len() ==> #[trigger] entries@[j].0@ != name@,
        },
{
    let wanted = String::from_str(name);
    let mut i: usize = 0;
    while i < entries.len()
        invariant
            i <= entries@.len(),
            wanted@ == name@,
            forall|j: int| 0 <= j < i ==> #[trigger] entries@[j].0@ != name@,
        decreases entries@.len() - i,
    {
        if entries[i].0 == wanted {
            return Some(i);
        }
        i = i + 1;
    }
    None
}

impl LayerDescriptor {
    /// The geometry kind of the layer; `None` for a kind the tiles do not support.
    pub fn geo_json_type(&self) -> (r: Option<GeoJsonType>)
        ensures
            r == spec_geo_json_type(self.geom_type@),
    {
        if reads(&self.geom_type, "Point") {
            Some(GeoJsonType::Point)
        } else if reads(&self.geom_type, "MultiPoint") {
            Some(GeoJsonType::MultiPoint)
        } else if reads(&self.geom_type, "LineString") {
            Some(GeoJsonType::LineString)
        } else if reads(&self.geom_type, "MultiLineString") {
            Some(GeoJsonType::MultiLineString)
        } else {
            None
        }
    }

    /// The first view named `name`, if the layer has one.
    pub fn view(&self, name: &str) -> (r: Option<&ViewDescriptor>)
        ensures
            match r {
                Some(v) => exists|i: int| 0 <= i < self.views@.len() && #[trigger] self.views@[i].0@ == name@ && self.views@[i].1 == *v
                    && forall|j: int| 0 <= j < i ==> #[trigger] self.views@[j].0@ != name@,
                None => forall|i: int| 0 <= i < self.views@.len() ==> #[trigger] self.views@[i].0@ != name@,
            },
    {
        match position_of(&self.views, name) {
            Some(i) => Some(&self.views[i].1),
            None => None,
        }
    }
}

impl MapLayers {
    /// The first layer named `name`, if there is one.
    pub fn layer(&self, name: &str) -> (r: Option<&LayerDescriptor>)
        ensures
            match r {
                Some(l) => exists|i: int| 0 <= i < self.layers@.len() && #[trigger] self.layers@[i].0@ == name@ && self.layers@[i].1 == *l
                    && forall|j: int| 0 <= j < i ==> #[trigger] self.layers@[j].0@ != name@,
                None => forall|i: int| 0 <= i < self.layers@.len() ==> #[trigger] self.layers@[i].0@ != name@,
            },
    {
        match position_of(&self.layers, name) {
            Some(i) => Some(&self.layers[i].1),
            None => None,
        }
    }
}

} // verus!
