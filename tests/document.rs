use editoast::document::{flatten_document, Document, Tag, TagValue};

fn tag(key: &str, value: TagValue) -> Tag {
    Tag { key: key.to_string(), value }
}

fn field(name: &str, value: Document) -> (String, Document) {
    (name.to_string(), value)
}

#[test]
fn nested_document_flattens_to_joined_keys() {
    let doc = Document::Object(vec![field(
        "a",
        Document::Object(vec![
            field("b", Document::Int(1)),
            field("c", Document::Array(vec![Document::Int(2), Document::Int(3)])),
        ]),
    )]);
    assert_eq!(
        flatten_document(&doc),
        vec![tag("a_b", TagValue::Int(1)), tag("a_c", TagValue::Int(2)), tag("a_c", TagValue::Int(3))]
    );
}

#[test]
fn null_gives_no_tag() {
    let doc = Document::Object(vec![
        field("speed_limit", Document::Null),
        field("extensions", Document::Object(vec![field("lpv_sncf", Document::Null)])),
    ]);
    assert!(flatten_document(&doc).is_empty());
    assert!(flatten_document(&Document::Null).is_empty());
}

#[test]
fn scalars_keep_their_kind() {
    let train = 19.2_f64.to_bits();
    let doc = Document::Object(vec![
        field("id", Document::Str("a".to_string())),
        field("ok", Document::Bool(true)),
        field("delta", Document::Int(-4)),
        field("big", Document::Uint(u64::MAX)),
        field("speed_limit_by_tag", Document::Object(vec![field("train", Document::Double(train))])),
    ]);
    assert_eq!(
        flatten_document(&doc),
        vec![
            tag("id", TagValue::Str("a".to_string())),
            tag("ok", TagValue::Bool(true)),
            tag("delta", TagValue::Int(-4)),
            tag("big", TagValue::Uint(u64::MAX)),
            tag("speed_limit_by_tag_train", TagValue::Double(train)),
        ]
    );
}

#[test]
fn array_of_objects_repeats_keys() {
    let range = |end: i64| {
        Document::Object(vec![field("end", Document::Int(end)), field("begin", Document::Int(0))])
    };
    let doc = Document::Object(vec![field("track_ranges", Document::Array(vec![range(77), range(211)]))]);
    assert_eq!(
        flatten_document(&doc),
        vec![
            tag("track_ranges_end", TagValue::Int(77)),
            tag("track_ranges_begin", TagValue::Int(0)),
            tag("track_ranges_end", TagValue::Int(211)),
            tag("track_ranges_begin", TagValue::Int(0)),
        ]
    );
}

#[test]
fn root_scalar_has_empty_key() {
    assert_eq!(flatten_document(&Document::Bool(false)), vec![tag("", TagValue::Bool(false))]);
}

#[test]
fn negative_zero_gives_zero_tag() {
    let doc = Document::Array(vec![Document::Double((-0.0_f64).to_bits()), Document::Double(1.5_f64.to_bits())]);
    assert_eq!(
        flatten_document(&doc),
        vec![tag("", TagValue::Double(0)), tag("", TagValue::Double(1.5_f64.to_bits()))]
    );
}
