//! The catalogue of streams: the two live stations and the mixtapes, as
//! listed by the station's web API.

use crate::json::{json_of_text, Json};
use vstd::prelude::*;

verus! {

/// Where the first live station streams from.
pub const STREAM_URL_1: &'static str = "https://stream-mixtape-geo.ntslive.net/stream";

/// Where the second live station streams from.
pub const STREAM_URL_2: &'static str = "https://stream-mixtape-geo.ntslive.net/stream2";

/// Where the listing of mixtapes is fetched from.
pub const MIXTAPES_URL: &'static str = "https://www.nts.live/api/v2/mixtapes";

/// Where the listing of live stations is fetched from.
pub const LIVE_URL: &'static str = "https://www.nts.live/api/v2/live";

/// Something to listen to.
#[derive(Default, Clone, Debug, PartialEq, Eq)]
pub struct Stream {
    pub title: String,
    pub subtitle: String,
    pub description: String,
    pub audio_stream_endpoint: String,
}

/// The two kinds of stream.
#[derive(Clone, Copy, Debug, PartialEq, Eq)]
pub enum StreamType {
    Mixtape,
    Station,
}

/// All streams on offer.
#[derive(Default, Clone, Debug, PartialEq, Eq)]
pub struct StreamsCollection {
    pub mixtapes: Vec<Stream>,
    pub stations: Vec<Stream>,
}

/// Why a listing could not be read.
#[derive(Clone, Copy, Debug, PartialEq, Eq)]
pub enum CatalogError {
    /// The listing of mixtapes is not JSON.
    MalformedMixtapes,
    /// The listing of live stations is not JSON.
    MalformedStations,
}

/// A stream as the texts it is made of.
pub struct StreamModel {
    pub title: Seq<char>,
    pub subtitle: Seq<char>,
    pub description: Seq<char>,
    pub audio_stream_endpoint: Seq<char>,
}

impl View for Stream {
    type V = StreamModel;

    open spec fn view(&self) -> StreamModel {
        StreamModel {
            title: self.title@,
            subtitle: self.subtitle@,
            description: self.description@,
            audio_stream_endpoint: self.audio_stream_endpoint@,
        }
    }
}

/// A collection as the streams in it.
pub struct CollectionModel {
    pub mixtapes: Seq<StreamModel>,
    pub stations: Seq<StreamModel>,
}

/// The models of a run of streams.
pub open spec fn models_of(streams: Seq<Stream>) -> Seq<StreamModel> {
    Seq::new(streams.len(), |i: int| streams[i]@)
}

impl View for StreamsCollection {
    type V = CollectionModel;

    open spec fn view(&self) -> CollectionModel {
        CollectionModel {
            mixtapes: models_of(self.mixtapes@),
            stations: models_of(self.stations@),
        }
    }
}

/// The value under `key` as indexing gives it: whatever is not there reads
/// as null.
pub open spec fn index(json: Json, key: Seq<char>) -> Json {
    match json.member(key) {
        Some(value) => value,
        None => Json::Null,
    }
}

/// The text of a string value, and the empty text for any other value.
pub open spec fn text_or_empty(json: Json) -> Seq<char> {
    match json.text() {
        Some(text) => text,
        None => Seq::empty(),
    }
}

/// The entries of a listing: the elements of its `results`, none if that is
/// not an array.
pub open spec fn results_of(listing: Json) -> Seq<Json> {
    match index(listing, "results"@).elements() {
        Some(items) => items,
        None => Seq::empty(),
    }
}

/// The mixtape that an entry of the mixtape listing describes.
pub open spec fn mixtape_of(item: Json) -> StreamModel {
    StreamModel {
        title: text_or_empty(index(item, "title"@)),
        subtitle: text_or_empty(index(item, "subtitle"@)),
        description: text_or_empty(index(item, "description"@)),
        audio_stream_endpoint: text_or_empty(index(item, "audio_stream_endpoint"@)),
    }
}

/// The station that an entry of the live listing describes, named and
/// located as the first station.
pub open spec fn station_of(item: Json) -> StreamModel {
    let now = index(item, "now"@);
    StreamModel {
        title: "NTS Live 1"@,
        subtitle: text_or_empty(index(now, "broadcast_title"@)),
        description: text_or_empty(
            index(index(index(now, "embeds"@), "details"@), "description"@),
        ),
        audio_stream_endpoint: STREAM_URL_1@,
    }
}

/// The stream of the given kind that an entry describes.
pub open spec fn stream_of(item: Json, kind: StreamType) -> StreamModel {
    match kind {
        StreamType::Mixtape => mixtape_of(item),
        StreamType::Station => station_of(item),
    }
}

/// The streams of the given kind that a listing describes, in its order.
pub open spec fn streams_of(listing: Json, kind: StreamType) -> Seq<StreamModel> {
    Seq::new(results_of(listing).len(), |i: int| stream_of(results_of(listing)[i], kind))
}

/// The stations with the second one, if there is one, named and located as
/// the second station.
pub open spec fn with_second_station(stations: Seq<StreamModel>) -> Seq<StreamModel> {
    if stations.len() > 1 {
        stations.update(
            1,
            StreamModel {
                title: "NTS Live 2"@,
                audio_stream_endpoint: STREAM_URL_2@,
                ..stations[1]
            },
        )
    } else {
        stations
    }
}

/// The collection that the two listings describe.
pub open spec fn collection_of(mixtapes: Json, live: Json) -> CollectionModel {
    CollectionModel {
        mixtapes: streams_of(mixtapes, StreamType::Mixtape),
        stations: with_second_station(streams_of(live, StreamType::Station)),
    }
}

/// The error that a malformed listing of the given kind gives.
pub open spec fn malformed(kind: StreamType) -> CatalogError {
    match kind {
        StreamType::Mixtape => CatalogError::MalformedMixtapes,
        StreamType::Station => CatalogError::MalformedStations,
    }
}

/// The value as `Option`: nothing stands for null.
pub open spec fn or_null(found: Option<&Json>) -> Json {
    match found {
        Some(json) => *json,
        None => Json::Null,
    }
}

/// Indexes by `key`, reading whatever is not there as null.
fn at<'a>(json: Option<&'a Json>, key: &str) -> (found: Option<&'a Json>)
    ensures
        or_null(found) == index(or_null(json), key@),
{
    match json {
        Some(value) => value.get(key),
        None => None,
    }
}

/// The text of a string value, and the empty text for any other value.
fn text_of(json: Option<&Json>) -> (text: String)
    ensures
        text@ == text_or_empty(or_null(json)),
{
    match json {
        Some(value) => match value.as_str() {
            Some(s) => s.to_owned(),
            None => String::new(),
        },
        None => String::new(),
    }
}

impl Stream {
    /// The mixtape that an entry of the mixtape listing describes: its
    /// title, subtitle, description and endpoint, each empty where the
    /// entry has no such text.
    pub fn mixtape(item: &Json) -> (stream: Stream)
        ensures
            stream@ == mixtape_of(*item),
    {
        Stream {
            title: text_of(at(Some(item), "title")),
            subtitle: text_of(at(Some(item), "subtitle")),
            description: text_of(at(Some(item), "description")),
            audio_stream_endpoint: text_of(at(Some(item), "audio_stream_endpoint")),
        }
    }

    /// The station that an entry of the live listing describes: what is on
    /// now and its description, under the name and endpoint of the first
    /// station.
    pub fn station(item: &Json) -> (stream: Stream)
        ensures
            stream@ == station_of(*item),
    {
        let now = at(Some(item), "now");
        Stream {
            title: "NTS Live 1".to_owned(),
            subtitle: text_of(at(now, "broadcast_title")),
            description: text_of(at(at(at(now, "embeds"), "details"), "description")),
            audio_stream_endpoint: STREAM_URL_1.to_owned(),
        }
    }
}

impl StreamsCollection {
    /// Reads the two listings and builds the collection they describe.
    /// Fails on the first listing that is not JSON.
    pub fn populate_collection(mixtapes_listing: &str, live_listing: &str) -> (made: Result<
        StreamsCollection,
        CatalogError,
    >)
        ensures
            match made {
                Ok(c) => json_of_text(mixtapes_listing@) is Some && json_of_text(live_listing@)
                    is Some && c@ == collection_of(
                    json_of_text(mixtapes_listing@)->Some_0,
                    json_of_text(live_listing@)->Some_0,
                ),
                Err(CatalogError::MalformedMixtapes) => json_of_text(mixtapes_listing@) is None,
                Err(CatalogError::MalformedStations) => json_of_text(mixtapes_listing@) is Some
                    && json_of_text(live_listing@) is None,
            },
    {
        let mixtapes = match Json::parse(mixtapes_listing) {
            Some(json) => json,
            None => {
                return Err(CatalogError::MalformedMixtapes);
            },
        };
        let live = match Json::parse(live_listing) {
            Some(json) => json,
            None => {
                return Err(CatalogError::MalformedStations);
            },
        };
        Ok(Self::from_listings(&mixtapes, &live))
    }

    /// The collection that two parsed listings describe: every entry of the
    /// mixtape listing as a mixtape, every entry of the live listing as a
    /// station, the second of them under the name and endpoint of the
    /// second station.
    pub fn from_listings(mixtapes: &Json, live: &Json) -> (made: StreamsCollection)
        ensures
            made@ == collection_of(*mixtapes, *live),
    {
        let mixtapes = Self::streams_from(mixtapes, StreamType::Mixtape);
        let mut stations = Self::streams_from(live, StreamType::Station);
        if stations.len() > 1 {
            let ghost before = models_of(stations@);
            let second = Stream {
                title: "NTS Live 2".to_owned(),
                subtitle: stations[1].subtitle.clone(),
                description: stations[1].description.clone(),
                audio_stream_endpoint: STREAM_URL_2.to_owned(),
            };
            stations.set(1, second);
            assert(models_of(stations@) =~= with_second_station(before));
        }
        StreamsCollection { mixtapes, stations }
    }

    /// Reads one listing and builds the streams of the given kind that it
    /// describes. Fails exactly when the listing is not JSON.
    pub fn fetch_streams(listing: &str, kind: StreamType) -> (made: Result<
        Vec<Stream>,
        CatalogError,
    >)
        ensures
            match made {
                Ok(streams) => json_of_text(listing@) is Some && models_of(streams@) == streams_of(
                    json_of_text(listing@)->Some_0,
                    kind,
                ),
                Err(e) => json_of_text(listing@) is None && e == malformed(kind),
            },
    {
        match Json::parse(listing) {
            Some(json) => Ok(Self::streams_from(&json, kind)),
            None => match kind {
                StreamType::Mixtape => Err(CatalogError::MalformedMixtapes),
                StreamType::Station => Err(CatalogError::MalformedStations),
            },
        }
    }

    /// The streams of the given kind that a parsed listing describes: one
    /// for each element of its `results`, in order, and none if `results`
    /// is missing or not an array.
    pub fn streams_from(listing: &Json, kind: StreamType) -> (streams: Vec<Stream>)
        ensures
            models_of(streams@) == streams_of(*listing, kind),
    {
        let mut streams: Vec<Stream> = Vec::new();
        match at(Some(listing), "results") {
            Some(results) => match results.as_array() {
                Some(items) => {
                    let mut i: usize = 0;
                    while i < items.len()
                        invariant
                            i <= items.len(),
                            items@ == results_of(*listing),
                            streams@.len() == i,
                            forall|j: int|
                                0 <= j < i ==> (#[trigger] streams@[j])@ == stream_of(
                                    items@[j],
                                    kind,
                                ),
                        decreases items.len() - i,
                    {
                        let stream = match kind {
                            StreamType::Mixtape => Stream::mixtape(&items[i]),
                            StreamType::Station => Stream::station(&items[i]),
                        };
                        streams.push(stream);
                        i += 1;
                    }
                    assert(models_of(streams@) =~= streams_of(*listing, kind));
                },
                None => {
                    assert(models_of(streams@) =~= streams_of(*listing, kind));
                },
            },
            None => {
                assert(models_of(streams@) =~= streams_of(*listing, kind));
            },
        }
        streams
    }
}

} // verus!
