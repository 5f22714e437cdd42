//! The query text that fetches the rows of one view for one tile.
//!
//! The query takes its tile and infrastructure as parameters: `$1`, `$2`,
//! `$3` are the tile's zoom, `x` and `y`, and `$4` is the infrastructure.

use vstd::prelude::*;
use crate::invalidation::string_views;
use crate::map_layers::ViewDescriptor;

verus! {

pub const QUERY_HEAD: &'static str = "\n        WITH bbox AS (\n            SELECT TileBBox($1, $2, $3, 3857) AS geom\n        )\n        SELECT ST_AsGeoJson(geographic) AS geo_json, \n            ";
pub const QUERY_AFTER_DATA: &'static str = " ";
pub const QUERY_AFTER_EXCLUDE: &'static str = " AS data \n        FROM ";
pub const QUERY_AFTER_TABLE: &'static str = " layer \n            CROSS JOIN bbox \n            ";
pub const QUERY_AFTER_JOINS: &'static str = " \n        WHERE layer.infra_id = $4\n            ";
pub const QUERY_AFTER_WHERE: &'static str = "\n            AND ";
pub const QUERY_AFTER_ON_FIELD: &'static str = " && bbox.geom \n            AND ST_GeometryType(";
pub const QUERY_TAIL: &'static str = ") != 'ST_GeometryCollection'\n        ";

/// `parts`, each between `before` and `after`, separated by `sep`.
pub open spec fn join_wrapped(parts: Seq<Seq<char>>, before: Seq<char>, after: Seq<char>, sep: Seq<char>) -> Seq<char>
    decreases parts.len(),
{
    if parts.len() == 0 {
        Seq::empty()
    } else if parts.len() == 1 {
        before + parts[0] + after
    } else {
        join_wrapped(parts.drop_last(), before, after, sep) + sep + before + parts.last() + after
    }
}

/// The query text for a view of the layer stored in `table_name`.
pub open spec fn spec_geo_json_sql_query(table_name: Seq<char>, view: ViewDescriptor) -> Seq<char> {
    QUERY_HEAD@ + view.data_expr@ + QUERY_AFTER_DATA@
        + join_wrapped(string_views(view.exclude_fields@), "- '"@, "'"@, " "@)
        + QUERY_AFTER_EXCLUDE@ + table_name + QUERY_AFTER_TABLE@
        + join_wrapped(string_views(view.joins@), ""@, ""@, " "@)
        + QUERY_AFTER_JOINS@
        + join_wrapped(string_views(view.where_expr@), "AND ("@, ")"@, " "@)
        + QUERY_AFTER_WHERE@ + view.on_field@ + QUERY_AFTER_ON_FIELD@ + view.on_field@ + QUERY_TAIL@
}

/// Appends `parts` to `s`, each between `before` and `after`, separated by `sep`.
fn append_joined(s: &mut String, parts: &Vec<String>, before: &str, after: &str, sep: &str)
    ensures
        final(s)@ == old(s)@ + join_wrapped(string_views(parts@), before@, after@, sep@),
{
    let ghost start = s@;
    let mut i: usize = 0;
    while i < parts.len()
        invariant
            i <= parts@.len(),
            s@ == start + join_wrapped(string_views(parts@.take(i as int)), before@, after@, sep@),
        decreases parts@.len() - i,
    {
        let ghost prev = string_views(parts@.take(i as int));
        if i > 0 {
            s.append(sep);
        }
        s.append(before);
        s.append(parts[i].as_str());
        s.append(after);
        proof {
            let next = string_views(parts@.take(i + 1));
            assert(next.drop_last() =~= prev);
            assert(next.last() == parts@[i as int]@);
            if i == 0 {
                assert(prev.len() == 0);
            }
            assert(s@ =~= start + join_wrapped(next, before@, after@, sep@));
        }
        i = i + 1;
    }
    assert(parts@.take(parts@.len() as int) =~= parts@);
}

/// The query text that fetches, for a view of the layer stored in
/// `table_name`, the geometry as GeoJSON and the attribute document of every
/// row intersecting a tile.
pub fn get_geo_json_sql_query(table_name: &str, view: &ViewDescriptor) -> (r: String)
    ensures
        r@ == spec_geo_json_sql_query(table_name@, *view),
{
    let mut s = String::from_str(QUERY_HEAD);
    s.append(view.data_expr.as_str());
    s.append(QUERY_AFTER_DATA);
    append_joined(&mut s, &view.exclude_fields, "- '", "'", " ");
    s.append(QUERY_AFTER_EXCLUDE);
    s.append(table_name);
    s.append(QUERY_AFTER_TABLE);
    append_joined(&mut s, &view.joins, "", "", " ");
    s.append(QUERY_AFTER_JOINS);
    append_joined(&mut s, &view.where_expr, "AND (", ")", " ");
    s.append(QUERY_AFTER_WHERE);
    s.append(view.on_field.as_str());
    s.append(QUERY_AFTER_ON_FIELD);
    s.append(view.on_field.as_str());
    s.append(QUERY_TAIL);
    s
}

} // verus!
