//! What the bot asks of MusicBrainz and reads from its answers: search queries,
//! release lookups, and the albums of a set of releases.

use vstd::prelude::*;
use vstd::string::*;
use crate::album::Album;
use crate::json::{Json, get, then_get, as_str, render, json_get, json_then_get, json_text};
use crate::listenbrainz::texts;
use crate::text::{trim_char, trim_matches};

verus! {

/// Why a release search cannot be made.
#[derive(Debug, Clone, Copy, PartialEq, Eq, Structural)]
pub enum SearchError {
    /// Neither an album title nor an artist name was given.
    NoSearchParameters,
}

/// The search query for an album title and an artist name, either of which may be absent.
pub open spec fn query_text(album_title: Option<Seq<char>>, artist_name: Option<Seq<char>>) -> Option<Seq<char>> {
    match (album_title, artist_name) {
        (Some(t), Some(a)) => Some("release:"@ + t + " AND artist:"@ + a),
        (Some(t), None) => Some("release:"@ + t),
        (None, Some(a)) => Some("artist:"@ + a),
        (None, None) => None,
    }
}

/// The query keeps the given title and artist name character for character:
/// `release:{title}`, `artist:{artist}`, or `release:{title} AND artist:{artist}`,
/// and there is no query without either.
pub proof fn lemma_query_keeps_title_and_artist(title: Seq<char>, artist: Seq<char>)
    ensures
        query_text(Some(title), None) == Some("release:"@ + title),
        query_text(None, Some(artist)) == Some("artist:"@ + artist),
        query_text(Some(title), Some(artist)) == Some("release:"@ + title + " AND artist:"@ + artist),
        query_text(None, None) is None,
{
}

/// The view of an optional string.
pub open spec fn opt_text(s: Option<String>) -> Option<Seq<char>> {
    match s {
        Some(x) => Some(x@),
        None => None,
    }
}

/// The MusicBrainz search query for the given album title and artist name.
pub fn search_query(album_title: Option<String>, artist_name: Option<String>) -> (r: Result<String, SearchError>)
    ensures
        match r {
            Ok(q) => query_text(opt_text(album_title), opt_text(artist_name)) == Some(q@),
            Err(e) => query_text(opt_text(album_title), opt_text(artist_name)) is None
                && e == SearchError::NoSearchParameters,
        },
        match (album_title, artist_name) {
            (Some(t), None) => r matches Ok(q) && q@ == "release:"@ + t@,
            (None, Some(a)) => r matches Ok(q) && q@ == "artist:"@ + a@,
            (Some(t), Some(a)) => r matches Ok(q) && q@ == "release:"@ + t@ + " AND artist:"@ + a@,
            (None, None) => r == Err::<String, SearchError>(SearchError::NoSearchParameters),
        },
{
    match (album_title, artist_name) {
        (Some(t), Some(a)) => {
            let mut q = String::from_str("release:");
            q.append(t.as_str());
            q.append(" AND artist:");
            q.append(a.as_str());
            Ok(q)
        },
        (Some(t), None) => {
            let mut q = String::from_str("release:");
            q.append(t.as_str());
            Ok(q)
        },
        (None, Some(a)) => {
            let mut q = String::from_str("artist:");
            q.append(a.as_str());
            Ok(q)
        },
        (None, None) => Err(SearchError::NoSearchParameters),
    }
}

/// Bytes that percent-encoding leaves as they are: ASCII letters and digits, `-`, `.`, `_`, `~`.
pub open spec fn is_unreserved(b: u8) -> bool {
    ||| 0x30 <= b <= 0x39
    ||| 0x41 <= b <= 0x5A
    ||| 0x61 <= b <= 0x7A
    ||| b == 0x2D
    ||| b == 0x2E
    ||| b == 0x5F
    ||| b == 0x7E
}

/// The upper-case hexadecimal digit for `d` (which is below 16).
pub open spec fn hex_digit_upper(d: u8) -> char {
    if d < 10 {
        ((0x30u8 + d) as u8) as char
    } else {
        ((0x41u8 + d - 10) as u8) as char
    }
}

/// Percent-encoding of a byte string: unreserved bytes stay, every other byte
/// becomes `%` and its two upper-case hexadecimal digits.
pub open spec fn percent_encoded(bytes: Seq<u8>) -> Seq<char>
    decreases bytes.len(),
{
    if bytes.len() == 0 {
        Seq::empty()
    } else {
        let b = bytes.last();
        percent_encoded(bytes.drop_last()) + if is_unreserved(b) {
            seq![b as char]
        } else {
            seq!['%', hex_digit_upper(b / 16), hex_digit_upper(b % 16)]
        }
    }
}

/// Characters that may stand in a query parameter as they are: ASCII letters and
/// digits, `-`, `.`, `_`, `~`, and `%`.
pub open spec fn is_url_safe_char(c: char) -> bool {
    ||| '0' <= c <= '9'
    ||| 'A' <= c <= 'Z'
    ||| 'a' <= c <= 'z'
    ||| c == '-' || c == '.' || c == '_' || c == '~' || c == '%'
}

/// Percent-encoded text holds only URL-safe characters, so an encoded search
/// query cannot end its parameter (no `&`, `#`, `=`, `?` or space).
pub proof fn lemma_percent_encoded_url_safe(bytes: Seq<u8>)
    ensures
        forall|i: int| 0 <= i < percent_encoded(bytes).len() ==> is_url_safe_char(
            #[trigger] percent_encoded(bytes)[i],
        ),
    decreases bytes.len(),
{
    if bytes.len() > 0 {
        lemma_percent_encoded_url_safe(bytes.drop_last());
        let b = bytes.last();
        let front = percent_encoded(bytes.drop_last());
        let piece = if is_unreserved(b) {
            seq![b as char]
        } else {
            seq!['%', hex_digit_upper(b / 16), hex_digit_upper(b % 16)]
        };
        assert(percent_encoded(bytes) == front + piece);
        assert forall|i: int| 0 <= i < piece.len() implies is_url_safe_char(#[trigger] piece[i]) by {
            if !is_unreserved(b) && i > 0 {
                assert((b / 16) < 16 && (b % 16) < 16);
            }
        }
        assert forall|i: int| 0 <= i < percent_encoded(bytes).len() implies is_url_safe_char(
            #[trigger] percent_encoded(bytes)[i],
        ) by {
            if i < front.len() {
                assert(percent_encoded(bytes)[i] == front[i]);
            } else {
                assert(percent_encoded(bytes)[i] == piece[i - front.len()]);
            }
        }
    }
}

/// `urlencoding::encode(text)`, as an owned string. The contract restates the
/// crate's encoder (`enc.rs`, `encode_into` and `to_hex_digit`) over the UTF-8
/// bytes of `text`.
#[verifier::external_body]
fn url_encode(text: &str) -> (r: String)
    ensures
        r@ == percent_encoded(text.spec_bytes()),
{
    urlencoding::encode(text).into_owned()
}

/// The MusicBrainz release search address for a query.
pub open spec fn search_address(query: &str) -> Seq<char> {
    "https://musicbrainz.org/ws/2/release/?query="@ + percent_encoded(query.spec_bytes()) + "&fmt=json"@
}

/// `format!("https://musicbrainz.org/ws/2/release/?query={}&fmt=json", urlencoding::encode(query))`.
pub fn search_url(query: &str) -> (r: String)
    ensures
        r@ == search_address(query),
{
    let mut r = String::from_str("https://musicbrainz.org/ws/2/release/?query=");
    let encoded = url_encode(query);
    r.append(encoded.as_str());
    r.append("&fmt=json");
    r
}

/// The MusicBrainz address of release `mbid` with its release group.
pub open spec fn release_address(mbid: Seq<char>) -> Seq<char> {
    "https://musicbrainz.org/ws/2/release/"@ + mbid + "?inc=release-groups&fmt=json"@
}

/// `format!("https://musicbrainz.org/ws/2/release/{}?inc=release-groups&fmt=json", mbid)`.
pub fn release_url(mbid: &str) -> (r: String)
    ensures
        r@ == release_address(mbid@),
{
    let mut r = String::from_str("https://musicbrainz.org/ws/2/release/");
    r.append(mbid);
    r.append("?inc=release-groups&fmt=json");
    r
}

/// `parts.join(sep)`.
pub open spec fn joined(parts: Seq<Seq<char>>, sep: Seq<char>) -> Seq<char>
    decreases parts.len(),
{
    if parts.len() == 0 {
        Seq::empty()
    } else if parts.len() == 1 {
        parts[0]
    } else {
        joined(parts.drop_last(), sep) + sep + parts.last()
    }
}

/// The MusicBrainz address that looks up all the releases `mbids` at once.
pub open spec fn releases_address(mbids: Seq<Seq<char>>) -> Seq<char> {
    "https://musicbrainz.org/ws/2/release?query=mbid:("@ + joined(mbids, "+"@) + ")&fmt=json"@
}

/// `format!("https://musicbrainz.org/ws/2/release?query=mbid:({})&fmt=json", mbids.join("+"))`.
pub fn releases_url(mbids: &Vec<String>) -> (r: String)
    ensures
        r@ == releases_address(texts(mbids@)),
{
    let mut r = String::from_str("https://musicbrainz.org/ws/2/release?query=mbid:(");
    let ghost start = r@;
    let n = mbids.len();
    for i in 0..n
        invariant
            n == mbids@.len(),
            r@ == start + joined(texts(mbids@).take(i as int), "+"@),
    {
        assert(texts(mbids@).take(i + 1).drop_last() =~= texts(mbids@).take(i as int));
        assert(texts(mbids@).take(i + 1).last() == mbids@[i as int]@);
        if i > 0 {
            r.append("+");
        }
        r.append(mbids[i].as_str());
        assert(texts(mbids@).take(i + 1).len() == i + 1);
    }
    assert(texts(mbids@).take(n as int) =~= texts(mbids@));
    r.append(")&fmt=json");
    r
}

/// The release group id of a looked-up release: `Some(None)` when it has no
/// `release-group`, the JSON text of `release-group.id` with its surrounding
/// double quotes trimmed when it has, and `None` when that id is missing.
pub open spec fn release_group_id(release: Json) -> Option<Option<Seq<char>>> {
    match get(release, "release-group"@) {
        None => Some(None),
        Some(group) => match get(group, "id"@) {
            None => None,
            Some(id) => Some(Some(trim_char(render(id), '"'))),
        },
    }
}

/// The release group id is read from `release-group.id`: a release without a
/// release group has none, and otherwise the id is the JSON text of
/// `release-group.id` with its surrounding quotes trimmed.
pub proof fn lemma_release_group_read_from_its_id(release: Json)
    ensures
        release_group_id(release) == Some(None::<Seq<char>>) <==> get(release, "release-group"@) is None,
        release_group_id(release) matches Some(Some(x)) ==> (get(release, "release-group"@) matches Some(group)
            && get(group, "id"@) matches Some(id) && x == trim_char(render(id), '"')),
        release_group_id(release) is None <==> (get(release, "release-group"@) matches Some(group) && get(group, "id"@)
            is None),
{
}

/// The release group id of a release looked up with its release group.
pub fn release_group_of(release: &Json) -> (r: Option<String>)
    requires
        release_group_id(*release) is Some,
    ensures
        release_group_id(*release) == Some(opt_text(r)),
{
    match json_get(release, "release-group") {
        None => None,
        Some(group) => match json_get(group, "id") {
            None => None,
            Some(id) => {
                let text = json_text(id);
                Some(trim_matches(text.as_str(), '"'))
            },
        },
    }
}

/// Whether the release group id can be read from a looked-up release (the
/// condition under which `release_group_of` may be called).
pub fn release_group_is_readable(release: &Json) -> (r: bool)
    ensures
        r == release_group_id(*release) is Some,
{
    match json_get(release, "release-group") {
        None => true,
        Some(group) => json_get(group, "id").is_some(),
    }
}

/// A release found by a search, before its release group is known. Each field
/// is the JSON text of the value the search answer gave (quotes included).
pub struct ReleaseCandidate {
    pub artist: String,
    pub title: String,
    pub mbid: String,
}

impl ReleaseCandidate {
    /// The album of this release, once its release group is known.
    pub fn into_album(self, release_group: String) -> (r: Album)
        ensures
            r.album == self.title,
            r.artist == self.artist,
            r.mbid == self.mbid,
            r.release_group == release_group,
    {
        Album { album: self.title, release_group, mbid: self.mbid, artist: self.artist }
    }
}

/// `artist-credit[0].artist.name` of a search result, where `artist-credit` is a
/// non-empty array; `None` otherwise.
pub open spec fn credited_artist(release: Json) -> Option<Json> {
    match get(release, "artist-credit"@) {
        Some(Json::Array(credits)) => if credits@.len() > 0 {
            then_get(get(credits@[0], "artist"@), "name"@)
        } else {
            None
        },
        _ => None,
    }
}

/// The texts of the artist, title and id of a search result; `None` where one is missing.
pub open spec fn search_result_fields(release: Json) -> Option<(Seq<char>, Seq<char>, Seq<char>)> {
    match (credited_artist(release), get(release, "title"@), get(release, "id"@)) {
        (Some(artist), Some(title), Some(id)) => Some((render(artist), render(title), render(id))),
        _ => None,
    }
}

/// A search result is read from its first credited artist, its title and its id:
/// the artist is the JSON text of `artist-credit[0].artist.name`, the title that
/// of `title`, the id that of `id`.
pub proof fn lemma_search_result_reads_first_credit(release: Json)
    ensures
        search_result_fields(release) matches Some(f) ==> {
            &&& get(release, "artist-credit"@) matches Some(Json::Array(credits))
            &&& credits@.len() > 0
            &&& get(credits@[0], "artist"@) matches Some(artist)
            &&& get(artist, "name"@) matches Some(name)
            &&& render(name) == f.0
            &&& get(release, "title"@) matches Some(title)
            &&& render(title) == f.1
            &&& get(release, "id"@) matches Some(id)
            &&& render(id) == f.2
        },
{
}

/// The search results in a search answer: its `releases` when they are an array,
/// none when they are something else, and `None` when the answer has no `releases`.
pub open spec fn search_results(answer: Json) -> Option<Seq<Json>> {
    match get(answer, "releases"@) {
        None => None,
        Some(Json::Array(list)) => Some(list@),
        Some(_) => Some(Seq::empty()),
    }
}

/// Whether every search result of the answer can be read.
pub open spec fn search_answer_readable(answer: Json) -> bool {
    match search_results(answer) {
        None => false,
        Some(list) => forall|i: int| 0 <= i < list.len() ==> (#[trigger] search_result_fields(list[i])) is Some,
    }
}

fn result_fields(release: &Json) -> (r: Option<ReleaseCandidate>)
    ensures
        match r {
            None => search_result_fields(*release) is None,
            Some(c) => search_result_fields(*release) == Some((c.artist@, c.title@, c.mbid@)),
        },
{
    let artist = match json_get(release, "artist-credit") {
        Some(Json::Array(credits)) => {
            if credits.len() > 0 {
                json_then_get(json_get(&credits[0], "artist"), "name")
            } else {
                None
            }
        },
        _ => None,
    };
    match (artist, json_get(release, "title"), json_get(release, "id")) {
        (Some(artist), Some(title), Some(id)) => Some(
            ReleaseCandidate { artist: json_text(artist), title: json_text(title), mbid: json_text(id) },
        ),
        _ => None,
    }
}

fn read_search_answer(answer: &Json) -> (r: Option<Vec<ReleaseCandidate>>)
    ensures
        r is Some == search_answer_readable(*answer),
        r matches Some(v) ==> {
            &&& search_results(*answer) matches Some(list)
            &&& v@.len() == list.len()
            &&& forall|i: int| 0 <= i < list.len() ==> search_result_fields(list[i]) == Some(
                (#[trigger] v@[i].artist@, v@[i].title@, v@[i].mbid@),
            )
        },
{
    match json_get(answer, "releases") {
        None => None,
        Some(Json::Array(list)) => {
            let mut v: Vec<ReleaseCandidate> = Vec::new();
            let n = list.len();
            for i in 0..n
                invariant
                    n == list@.len(),
                    search_results(*answer) == Some(list@),
                    v@.len() == i,
                    forall|j: int| 0 <= j < i ==> (#[trigger] search_result_fields(list@[j])) is Some,
                    forall|j: int| 0 <= j < i ==> search_result_fields(list@[j]) == Some(
                        (#[trigger] v@[j].artist@, v@[j].title@, v@[j].mbid@),
                    ),
            {
                match result_fields(&list[i]) {
                    None => {
                        assert(!search_answer_readable(*answer));
                        return None;
                    },
                    Some(c) => {
                        v.push(c);
                    },
                }
            }
            Some(v)
        },
        Some(_) => Some(Vec::new()),
    }
}

/// The releases of a search answer, in answer order, with the JSON texts of
/// their artist, title and id.
pub fn release_candidates(answer: &Json) -> (r: Vec<ReleaseCandidate>)
    requires
        search_answer_readable(*answer),
    ensures
        search_results(*answer) matches Some(list) && r@.len() == list.len()
            && forall|i: int| 0 <= i < list.len() ==> search_result_fields(list[i]) == Some(
                (#[trigger] r@[i].artist@, r@[i].title@, r@[i].mbid@),
            ),
        search_results(*answer) matches Some(list) && forall|i: int| 0 <= i < list.len() ==> {
            &&& get(list[i], "artist-credit"@) matches Some(Json::Array(credits))
            &&& credits@.len() > 0
            &&& then_get(get(credits@[0], "artist"@), "name"@) matches Some(name)
            &&& render(name) == (#[trigger] r@[i]).artist@
            &&& get(list[i], "title"@) matches Some(title) && render(title) == r@[i].title@
            &&& get(list[i], "id"@) matches Some(id) && render(id) == r@[i].mbid@
        },
{
    let r = match read_search_answer(answer) {
        Some(v) => v,
        None => Vec::new(),
    };
    proof {
        if let Some(list) = search_results(*answer) {
            assert forall|i: int| 0 <= i < list.len() implies {
                &&& get(list[i], "artist-credit"@) matches Some(Json::Array(credits))
                &&& credits@.len() > 0
                &&& then_get(get(credits@[0], "artist"@), "name"@) matches Some(name)
                &&& render(name) == (#[trigger] r@[i]).artist@
                &&& get(list[i], "title"@) matches Some(title) && render(title) == r@[i].title@
                &&& get(list[i], "id"@) matches Some(id) && render(id) == r@[i].mbid@
            } by {
                lemma_search_result_reads_first_credit(list[i]);
            }
        }
    }
    r
}

/// Whether every release of a search answer can be read (the condition under
/// which `release_candidates` may be called).
pub fn search_answer_is_readable(answer: &Json) -> (r: bool)
    ensures
        r == search_answer_readable(*answer),
{
    read_search_answer(answer).is_some()
}

/// The strings of a looked-up release that make an album: release group id,
/// release group title, release id and first credited artist name; `None`
/// where one of them is missing or not a JSON string.
pub open spec fn release_album_fields(release: Json) -> Option<(Seq<char>, Seq<char>, Seq<char>, Seq<char>)> {
    let group = get(release, "release-group"@);
    let artist = match get(release, "artist-credit"@) {
        Some(Json::Array(credits)) => if credits@.len() > 0 {
            get(credits@[0], "name"@)
        } else {
            None
        },
        _ => None,
    };
    match (
        then_get(group, "id"@),
        then_get(group, "title"@),
        get(release, "id"@),
        artist,
    ) {
        (Some(rg), Some(title), Some(id), Some(name)) => match (as_str(rg), as_str(title), as_str(id), as_str(name)) {
            (Some(rg), Some(title), Some(id), Some(name)) => Some((rg, title, id, name)),
            _ => None,
        },
        _ => None,
    }
}

/// A looked-up release makes the album of its first credited artist: the
/// artist is the string `artist-credit[0].name`, the album title the string
/// `release-group.title`, the release group the string `release-group.id`, the
/// id the string `id`.
pub proof fn lemma_release_album_reads_first_credit(release: Json)
    ensures
        release_album_fields(release) matches Some(f) ==> {
            &&& get(release, "artist-credit"@) matches Some(Json::Array(credits))
            &&& credits@.len() > 0
            &&& get(credits@[0], "name"@) matches Some(Json::Str(name))
            &&& name@ == f.3
            &&& get(release, "release-group"@) matches Some(group)
            &&& get(group, "id"@) matches Some(Json::Str(rg)) && rg@ == f.0
            &&& get(group, "title"@) matches Some(Json::Str(title)) && title@ == f.1
            &&& get(release, "id"@) matches Some(Json::Str(id)) && id@ == f.2
        },
{
}

/// The looked-up releases of an answer: its `releases` when they are an array, else none.
pub open spec fn looked_up_releases(answer: Json) -> Seq<Json> {
    match get(answer, "releases"@) {
        Some(Json::Array(list)) => list@,
        _ => Seq::empty(),
    }
}

/// Whether every looked-up release of the answer makes an album.
pub open spec fn releases_readable(answer: Json) -> bool {
    forall|i: int|
        0 <= i < looked_up_releases(answer).len() ==> (#[trigger] release_album_fields(
            looked_up_releases(answer)[i],
        )) is Some
}

/// The album a looked-up release makes.
pub open spec fn album_of_fields(a: Album, fields: (Seq<char>, Seq<char>, Seq<char>, Seq<char>)) -> bool {
    &&& a.release_group@ == fields.0
    &&& a.album@ == fields.1
    &&& a.mbid@ == fields.2
    &&& a.artist@ == fields.3
}

fn release_album(release: &Json) -> (r: Option<Album>)
    ensures
        match r {
            None => release_album_fields(*release) is None,
            Some(a) => release_album_fields(*release) matches Some(f) && album_of_fields(a, f),
        },
{
    let group = json_get(release, "release-group");
    let rg = json_then_get(group, "id");
    let title = json_then_get(group, "title");
    let id = json_get(release, "id");
    let artist = match json_get(release, "artist-credit") {
        Some(Json::Array(credits)) => {
            if credits.len() > 0 {
                json_get(&credits[0], "name")
            } else {
                None
            }
        },
        _ => None,
    };
    match (rg, title, id, artist) {
        (Some(Json::Str(rg)), Some(Json::Str(title)), Some(Json::Str(id)), Some(Json::Str(name))) => Some(
            Album {
                album: title.clone(),
                artist: name.clone(),
                mbid: id.clone(),
                release_group: rg.clone(),
            },
        ),
        _ => None,
    }
}

fn read_releases(answer: &Json) -> (r: Option<Vec<Album>>)
    ensures
        r is Some == releases_readable(*answer),
        r matches Some(v) ==> {
            &&& v@.len() == looked_up_releases(*answer).len()
            &&& forall|i: int| 0 <= i < v@.len() ==>
                (release_album_fields(looked_up_releases(*answer)[i]) matches Some(f)
                    && album_of_fields(#[trigger] v@[i], f))
        },
{
    let mut v: Vec<Album> = Vec::new();
    match json_get(answer, "releases") {
        Some(Json::Array(list)) => {
            let n = list.len();
            for i in 0..n
                invariant
                    n == list@.len(),
                    looked_up_releases(*answer) == list@,
                    v@.len() == i,
                    forall|j: int| 0 <= j < i ==> (#[trigger] release_album_fields(list@[j])) is Some,
                    forall|j: int| 0 <= j < i ==>
                        (release_album_fields(list@[j]) matches Some(f) && album_of_fields(#[trigger] v@[j], f)),
            {
                match release_album(&list[i]) {
                    None => {
                        assert(!releases_readable(*answer));
                        return None;
                    },
                    Some(a) => {
                        v.push(a);
                    },
                }
            }
            Some(v)
        },
        _ => Some(v),
    }
}

/// The albums of the looked-up releases of an answer, in answer order: title and
/// id of the release group, id of the release and name of its first credited artist.
pub fn albums_from_releases(answer: &Json) -> (r: Vec<Album>)
    requires
        releases_readable(*answer),
    ensures
        r@.len() == looked_up_releases(*answer).len(),
        forall|i: int| 0 <= i < r@.len() ==>
            (release_album_fields(looked_up_releases(*answer)[i]) matches Some(f)
                && album_of_fields(#[trigger] r@[i], f)),
        forall|i: int| 0 <= i < r@.len() ==> {
            let release = looked_up_releases(*answer)[i];
            &&& get(release, "artist-credit"@) matches Some(Json::Array(credits))
            &&& credits@.len() > 0
            &&& get(credits@[0], "name"@) matches Some(Json::Str(name))
            &&& name@ == (#[trigger] r@[i]).artist@
            &&& get(release, "release-group"@) matches Some(group)
            &&& get(group, "id"@) matches Some(Json::Str(rg)) && rg@ == r@[i].release_group@
            &&& get(group, "title"@) matches Some(Json::Str(title)) && title@ == r@[i].album@
            &&& get(release, "id"@) matches Some(Json::Str(id)) && id@ == r@[i].mbid@
        },
{
    let r = match read_releases(answer) {
        Some(v) => v,
        None => Vec::new(),
    };
    proof {
        assert forall|i: int| 0 <= i < r@.len() implies {
            let release = looked_up_releases(*answer)[i];
            &&& get(release, "artist-credit"@) matches Some(Json::Array(credits))
            &&& credits@.len() > 0
            &&& get(credits@[0], "name"@) matches Some(Json::Str(name))
            &&& name@ == (#[trigger] r@[i]).artist@
            &&& get(release, "release-group"@) matches Some(group)
            &&& get(group, "id"@) matches Some(Json::Str(rg)) && rg@ == r@[i].release_group@
            &&& get(group, "title"@) matches Some(Json::Str(title)) && title@ == r@[i].album@
            &&& get(release, "id"@) matches Some(Json::Str(id)) && id@ == r@[i].mbid@
        } by {
            lemma_release_album_reads_first_credit(looked_up_releases(*answer)[i]);
        }
    }
    r
}

/// Whether every looked-up release of an answer makes an album (the condition
/// under which `albums_from_releases` may be called).
pub fn releases_are_readable(answer: &Json) -> (r: bool)
    ensures
        r == releases_readable(*answer),
{
    read_releases(answer).is_some()
}

} // verus!
