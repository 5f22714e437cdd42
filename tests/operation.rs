use editoast::client::RunserverArgs;
use editoast::layers_description::SelfConfig;
use editoast::operation::{DeleteOperation, ObjectType, UpdateLists};
use editoast::track_section::{TrackSectionExtensions, TrackSectionSncfExtension};

fn ids(lists: &UpdateLists, t: ObjectType) -> Vec<String> {
    lists.entries.iter().filter(|(k, _)| *k == t).flat_map(|(_, v)| v.clone()).collect()
}

#[test]
fn deletions_are_recorded_once_per_object() {
    let mut lists = UpdateLists::new();
    let track = DeleteOperation { obj_type: ObjectType::TrackSection, obj_id: "my_track".to_string() };
    let signal = DeleteOperation { obj_type: ObjectType::Signal, obj_id: "s1".to_string() };
    let other_track = DeleteOperation { obj_type: ObjectType::TrackSection, obj_id: "t2".to_string() };
    track.get_updated_objects(&mut lists);
    signal.get_updated_objects(&mut lists);
    track.get_updated_objects(&mut lists);
    other_track.get_updated_objects(&mut lists);
    assert_eq!(lists.entries.len(), 2);
    assert_eq!(ids(&lists, ObjectType::TrackSection), vec!["my_track".to_string(), "t2".to_string()]);
    assert_eq!(ids(&lists, ObjectType::Signal), vec!["s1".to_string()]);
    assert!(ids(&lists, ObjectType::Switch).is_empty());
}

#[test]
fn defaults() {
    let server = RunserverArgs::default();
    assert_eq!((server.port, server.address.as_str()), (8090, "0.0.0.0"));
    let config = SelfConfig::default();
    assert_eq!((config.url.as_str(), config.max_zoom), ("", 18));
    let sncf = TrackSectionSncfExtension::default();
    assert_eq!((sncf.line_name.as_str(), sncf.track_name.as_str()), ("line_test", "track_test"));
    assert!(TrackSectionExtensions::default().sncf.is_none());
}
