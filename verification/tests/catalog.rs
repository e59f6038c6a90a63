use nts_radio::catalog::{CatalogError, Stream, StreamType, StreamsCollection, STREAM_URL_1, STREAM_URL_2};
use nts_radio::json::Json;

const MIXTAPES: &str = r#"{
  "results": [
    {"title": "Poolside", "subtitle": "Sun-soaked", "description": "Balearic and boogie",
     "audio_stream_endpoint": "https://stream.example/poolside", "extra": 1},
    {"title": "Slow Focus", "description": 5},
    "not an object"
  ]
}"#;

const LIVE: &str = r#"{
  "results": [
    {"channel_name": "1", "now": {"broadcast_title": "Morning Show",
      "embeds": {"details": {"description": "Two hours of new music"}}}},
    {"channel_name": "2", "now": {"broadcast_title": "Archive Hour", "embeds": {"details": {}}}},
    {"channel_name": "3", "now": "nothing"}
  ]
}"#;

fn stream(title: &str, subtitle: &str, description: &str, endpoint: &str) -> Stream {
    Stream {
        title: title.to_string(),
        subtitle: subtitle.to_string(),
        description: description.to_string(),
        audio_stream_endpoint: endpoint.to_string(),
    }
}

#[test]
fn mixtapes_are_read_from_their_listing() {
    let mixtapes = StreamsCollection::fetch_streams(MIXTAPES, StreamType::Mixtape).unwrap();
    assert_eq!(
        mixtapes,
        vec![
            stream("Poolside", "Sun-soaked", "Balearic and boogie", "https://stream.example/poolside"),
            stream("Slow Focus", "", "", ""),
            stream("", "", "", ""),
        ]
    );
}

#[test]
fn stations_are_read_from_their_listing() {
    let stations = StreamsCollection::fetch_streams(LIVE, StreamType::Station).unwrap();
    assert_eq!(
        stations,
        vec![
            stream("NTS Live 1", "Morning Show", "Two hours of new music", STREAM_URL_1),
            stream("NTS Live 1", "Archive Hour", "", STREAM_URL_1),
            stream("NTS Live 1", "", "", STREAM_URL_1),
        ]
    );
}

#[test]
fn collection_names_the_second_station() {
    let collection = StreamsCollection::populate_collection(MIXTAPES, LIVE).unwrap();
    assert_eq!(collection.mixtapes.len(), 3);
    assert_eq!(collection.mixtapes[0].title, "Poolside");
    assert_eq!(
        collection.stations,
        vec![
            stream("NTS Live 1", "Morning Show", "Two hours of new music", STREAM_URL_1),
            stream("NTS Live 2", "Archive Hour", "", STREAM_URL_2),
            stream("NTS Live 1", "", "", STREAM_URL_1),
        ]
    );
}

#[test]
fn collection_with_one_station_keeps_it_as_the_first() {
    let live = r#"{"results": [{"now": {"broadcast_title": "Solo"}}]}"#;
    let collection = StreamsCollection::populate_collection(MIXTAPES, live).unwrap();
    assert_eq!(collection.stations, vec![stream("NTS Live 1", "Solo", "", STREAM_URL_1)]);
}

#[test]
fn listing_without_results_gives_no_streams() {
    for listing in ["{}", r#"{"results": null}"#, r#"{"results": {"a": 1}}"#, "[]", "7", r#"{"results": []}"#] {
        let streams = StreamsCollection::fetch_streams(listing, StreamType::Mixtape).unwrap();
        assert!(streams.is_empty());
        let collection = StreamsCollection::populate_collection(listing, listing).unwrap();
        assert_eq!(collection, StreamsCollection::default());
    }
}

#[test]
fn malformed_listings_are_told_apart() {
    assert_eq!(
        StreamsCollection::populate_collection("<html>", LIVE).err(),
        Some(CatalogError::MalformedMixtapes)
    );
    assert_eq!(
        StreamsCollection::populate_collection(MIXTAPES, "").err(),
        Some(CatalogError::MalformedStations)
    );
    assert_eq!(
        StreamsCollection::populate_collection("<html>", "").err(),
        Some(CatalogError::MalformedMixtapes)
    );
    assert_eq!(
        StreamsCollection::fetch_streams("{", StreamType::Mixtape).err(),
        Some(CatalogError::MalformedMixtapes)
    );
    assert_eq!(
        StreamsCollection::fetch_streams("{", StreamType::Station).err(),
        Some(CatalogError::MalformedStations)
    );
}

#[test]
fn streams_are_built_from_parsed_listings() {
    let item = Json::Object(vec![
        ("title".to_string(), Json::Text("A".to_string())),
        ("subtitle".to_string(), Json::Null),
        ("description".to_string(), Json::Text("C".to_string())),
    ]);
    assert_eq!(Stream::mixtape(&item), stream("A", "", "C", ""));
    assert_eq!(Stream::station(&item), stream("NTS Live 1", "", "", STREAM_URL_1));
    let listing = Json::Object(vec![("results".to_string(), Json::Array(vec![item]))]);
    let mixtapes = StreamsCollection::streams_from(&listing, StreamType::Mixtape);
    assert_eq!(mixtapes, vec![stream("A", "", "C", "")]);
    let empty = Json::Object(Vec::new());
    let collection = StreamsCollection::from_listings(&listing, &empty);
    assert_eq!(collection.mixtapes, vec![stream("A", "", "C", "")]);
    assert!(collection.stations.is_empty());
}
