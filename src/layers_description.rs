//! The description of the layers published to the tile renderer: each
//! layer and each of its views carries its own name.

use vstd::prelude::*;

verus! {

/// Something known by a name.
pub trait Named {
    fn name(&self) -> &str;
}

/// One view of a described layer.
#[derive(Debug, PartialEq, Eq)]
pub struct ViewDescription {
    pub name: String,
    pub on_field: String,
    pub data_expr: String,
    pub exclude_fields: Vec<String>,
    pub joins: Vec<String>,
    pub cache_duration: u32,
    pub where_expr: Vec<String>,
}

impl Named for ViewDescription {
    fn name(&self) -> &str {
        self.name.as_str()
    }
}

/// One described layer.
#[derive(Debug, PartialEq, Eq)]
pub struct LayerDescription {
    pub name: String,
    pub table_name: String,
    pub views: Vec<ViewDescription>,
    pub id_field: Option<String>,
    pub attribution: Option<String>,
}

impl Named for LayerDescription {
    fn name(&self) -> &str {
        self.name.as_str()
    }
}

/// Every described layer, in the order of the description.
#[derive(Debug, PartialEq, Eq)]
pub struct LayersDescription {
    pub layers: Vec<LayerDescription>,
}

/// How this service is reached and how deep its tiles go.
#[derive(Debug, Clone, PartialEq, Eq)]
pub struct SelfConfig {
    pub url: String,
    pub max_zoom: u32,
}

impl Default for SelfConfig {
    /// No address, and tiles down to zoom 18.
    fn default() -> (r: SelfConfig)
        ensures
            r.url@.len() == 0,
            r.max_zoom == 18,
    {
        SelfConfig { url: String::new(), max_zoom: 18 }
    }
}

} // verus!
