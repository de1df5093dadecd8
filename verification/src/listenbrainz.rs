//! What the bot reads from ListenBrainz: the weekly exploration playlist among
//! the playlists created for the user, and the album ids of its tracks.

use vstd::prelude::*;
use crate::json::{Json, get, then_get, as_str, render, json_get, json_then_get, json_text};
use crate::text::{trim_char, last_segment, trim_matches, last_split_part, str_equals};

verus! {

/// Where ListenBrainz lists the playlists created for the user.
pub const RECOMMENDATIONS_URL: &'static str = "https://api.listenbrainz.org/1/user/magnias/playlists/createdfor";

/// The user agent the bot sends to ListenBrainz and MusicBrainz.
pub const USER_AGENT: &'static str = "https://github.com/n-e-l/music-management (lauda@nel.re)";

/// The source patch that marks the weekly exploration playlist.
pub const WEEKLY_EXPLORATION: &'static str = "weekly-exploration";

/// The value of the authorization header sent with a ListenBrainz token.
pub open spec fn authorization_text(token: Seq<char>) -> Seq<char> {
    "\"Authorization\": \"Token "@ + token + "\""@
}

/// `format!("\"Authorization\": \"Token {}\"", token)`.
pub fn authorization_header(token: &str) -> (r: String)
    ensures
        r@ == authorization_text(token@),
{
    let mut r = String::from_str("\"Authorization\": \"Token ");
    r.append(token);
    r.append("\"");
    r
}

/// The address of the ListenBrainz playlist `mbid`.
pub open spec fn playlist_address(mbid: Seq<char>) -> Seq<char> {
    "https://api.listenbrainz.org/1/playlist/"@ + mbid
}

/// `format!("https://api.listenbrainz.org/1/playlist/{mbid}")`.
pub fn playlist_url(mbid: &str) -> (r: String)
    ensures
        r@ == playlist_address(mbid@),
{
    let mut r = String::from_str("https://api.listenbrainz.org/1/playlist/");
    r.append(mbid);
    r
}

/// `playlist.extension."https://musicbrainz.org/doc/jspf#playlist".additional_metadata
/// .algorithm_metadata.source_patch` of an entry of the playlist list.
pub open spec fn source_patch(entry: Json) -> Option<Json> {
    then_get(
        then_get(
            then_get(
                then_get(
                    then_get(get(entry, "playlist"@), "extension"@),
                    "https://musicbrainz.org/doc/jspf#playlist"@,
                ),
                "additional_metadata"@,
            ),
            "algorithm_metadata"@,
        ),
        "source_patch"@,
    )
}

/// `playlist.identifier` of an entry of the playlist list.
pub open spec fn playlist_identifier(entry: Json) -> Option<Json> {
    then_get(get(entry, "playlist"@), "identifier"@)
}

/// The playlist id in an identifier: the last `/`-separated part of its JSON
/// text once the surrounding double quotes are trimmed.
pub open spec fn identifier_mbid(identifier: Json) -> Seq<char> {
    last_segment(trim_char(render(identifier), '"'), '/')
}

/// Scans the playlist entries for the first whose source patch is the string
/// `patch`. `None` where an entry reached by the scan lacks its source patch,
/// or the matching entry lacks its identifier; `Some(None)` when no entry matches.
pub open spec fn scan_playlists(entries: Seq<Json>, patch: Seq<char>) -> Option<Option<Seq<char>>>
    decreases entries.len(),
{
    if entries.len() == 0 {
        Some(None)
    } else {
        match source_patch(entries[0]) {
            None => None,
            Some(sp) => if as_str(sp) == Some(patch) {
                match playlist_identifier(entries[0]) {
                    None => None,
                    Some(id) => Some(Some(identifier_mbid(id))),
                }
            } else {
                scan_playlists(entries.drop_first(), patch)
            },
        }
    }
}

/// The scan picks the first playlist whose source patch is the string `patch`:
/// when it finds one, every earlier playlist has a source patch other than
/// `patch`, and the result is the last `/`-part of that playlist's identifier
/// (its JSON text, quotes trimmed); when it finds none, every playlist has a
/// source patch and none is `patch`.
pub proof fn lemma_scan_picks_first_match(entries: Seq<Json>, patch: Seq<char>)
    ensures
        scan_playlists(entries, patch) matches Some(Some(m)) ==> exists|k: int|
            0 <= k < entries.len() && (source_patch(#[trigger] entries[k]) matches Some(sp) && as_str(sp) == Some(patch))
                && (playlist_identifier(entries[k]) matches Some(id) && m == last_segment(
                trim_char(render(id), '"'),
                '/',
            )) && forall|j: int|
                0 <= j < k ==> (source_patch(#[trigger] entries[j]) matches Some(sp) && as_str(sp) != Some(patch)),
        scan_playlists(entries, patch) == Some(None::<Seq<char>>) ==> forall|j: int|
            0 <= j < entries.len() ==> (source_patch(#[trigger] entries[j]) matches Some(sp) && as_str(sp) != Some(
                patch,
            )),
    decreases entries.len(),
{
    if entries.len() > 0 {
        let rest = entries.drop_first();
        lemma_scan_picks_first_match(rest, patch);
        if let Some(sp) = source_patch(entries[0]) {
            if as_str(sp) != Some(patch) {
                if let Some(Some(m)) = scan_playlists(rest, patch) {
                    let k = choose|k: int|
                        0 <= k < rest.len() && (source_patch(#[trigger] rest[k]) matches Some(sp) && as_str(sp) == Some(
                            patch,
                        )) && (playlist_identifier(rest[k]) matches Some(id) && m == last_segment(
                            trim_char(render(id), '"'),
                            '/',
                        )) && forall|j: int|
                            0 <= j < k ==> (source_patch(#[trigger] rest[j]) matches Some(sp) && as_str(sp) != Some(
                                patch,
                            ));
                    assert(entries[k + 1] == rest[k]);
                    assert forall|j: int| 0 <= j < k + 1 implies (source_patch(#[trigger] entries[j]) matches Some(sp)
                        && as_str(sp) != Some(patch)) by {
                        if j > 0 {
                            assert(entries[j] == rest[j - 1]);
                        }
                    }
                }
                if scan_playlists(rest, patch) == Some(None::<Seq<char>>) {
                    assert forall|j: int| 0 <= j < entries.len() implies (source_patch(#[trigger] entries[j]) matches Some(sp)
                        && as_str(sp) != Some(patch)) by {
                        if j > 0 {
                            assert(entries[j] == rest[j - 1]);
                        }
                    }
                }
            } else {
                if let Some(Some(m)) = scan_playlists(entries, patch) {
                    assert(0 < entries.len());
                    assert(source_patch(entries[0]) matches Some(sp) && as_str(sp) == Some(patch));
                }
            }
        }
    }
}

/// The id of the first recommended playlist whose source patch is `patch`:
/// `Some(None)` when `playlists` is no array or holds no such playlist, `None`
/// where the lookup cannot be made (no `playlists`, or a missing field on the way).
pub open spec fn playlist_for_patch(recommendations: Json, patch: Seq<char>) -> Option<Option<Seq<char>>> {
    match get(recommendations, "playlists"@) {
        None => None,
        Some(Json::Array(entries)) => scan_playlists(entries@, patch),
        Some(_) => Some(None),
    }
}

fn find_playlist(recommendations: &Json, patch: &str) -> (r: Option<Option<String>>)
    ensures
        match r {
            None => playlist_for_patch(*recommendations, patch@) is None,
            Some(None) => playlist_for_patch(*recommendations, patch@) == Some(None::<Seq<char>>),
            Some(Some(s)) => playlist_for_patch(*recommendations, patch@) == Some(Some(s@)),
        },
{
    let playlists = json_get(recommendations, "playlists");
    match playlists {
        None => None,
        Some(Json::Array(entries)) => {
            let n = entries.len();
            let mut i: usize = 0;
            assert(entries@.skip(0) =~= entries@);
            while i < n
                invariant
                    n == entries@.len(),
                    i <= n,
                    playlist_for_patch(*recommendations, patch@) == scan_playlists(
                        entries@.skip(i as int),
                        patch@,
                    ),
                decreases n - i,
            {
                assert(entries@.skip(i as int).drop_first() =~= entries@.skip(i + 1));
                assert(entries@.skip(i as int)[0] == entries@[i as int]);
                let entry = &entries[i];
                let sp = json_then_get(
                    json_then_get(
                        json_then_get(
                            json_then_get(
                                json_get(entry, "playlist"),
                                "extension",
                            ),
                            "https://musicbrainz.org/doc/jspf#playlist",
                        ),
                        "additional_metadata",
                    ),
                    "algorithm_metadata",
                );
                let sp = json_then_get(sp, "source_patch");
                match sp {
                    None => {
                        return None;
                    },
                    Some(v) => {
                        let matches = match v {
                            Json::Str(s) => str_equals(s.as_str(), patch),
                            _ => false,
                        };
                        if matches {
                            let id = json_then_get(json_get(entry, "playlist"), "identifier");
                            match id {
                                None => {
                                    return None;
                                },
                                Some(id) => {
                                    let text = json_text(id);
                                    let trimmed = trim_matches(text.as_str(), '"');
                                    return Some(Some(last_split_part(trimmed.as_str(), '/')));
                                },
                            }
                        }
                    },
                }
                i = i + 1;
            }
            Some(None)
        },
        Some(_) => Some(None),
    }
}

/// The id of the weekly exploration playlist among the recommended playlists.
pub fn get_weekly_exploration(recommendations: &Json) -> (r: Option<String>)
    requires
        playlist_for_patch(*recommendations, WEEKLY_EXPLORATION@) is Some,
    ensures
        match r {
            None => playlist_for_patch(*recommendations, WEEKLY_EXPLORATION@) == Some(None::<Seq<char>>),
            Some(s) => playlist_for_patch(*recommendations, WEEKLY_EXPLORATION@) == Some(Some(s@)),
        },
{
    match find_playlist(recommendations, WEEKLY_EXPLORATION) {
        Some(r) => r,
        None => None,
    }
}

/// Whether the weekly exploration playlist can be looked up in `recommendations`
/// (the condition under which `get_weekly_exploration` may be called).
pub fn weekly_exploration_is_readable(recommendations: &Json) -> (r: bool)
    ensures
        r == playlist_for_patch(*recommendations, WEEKLY_EXPLORATION@) is Some,
{
    find_playlist(recommendations, WEEKLY_EXPLORATION).is_some()
}

/// `extension."https://musicbrainz.org/doc/jspf#track".additional_metadata.caa_release_mbid`
/// of a playlist track.
pub open spec fn track_release_mbid(track: Json) -> Option<Json> {
    then_get(
        then_get(
            then_get(get(track, "extension"@), "https://musicbrainz.org/doc/jspf#track"@),
            "additional_metadata"@,
        ),
        "caa_release_mbid"@,
    )
}

/// The release ids of the tracks that carry one, in track order, each the JSON
/// text of the id with its surrounding double quotes trimmed.
pub open spec fn track_release_mbids(tracks: Seq<Json>) -> Seq<Seq<char>>
    decreases tracks.len(),
{
    if tracks.len() == 0 {
        Seq::empty()
    } else {
        let before = track_release_mbids(tracks.drop_last());
        match track_release_mbid(tracks.last()) {
            Some(id) => before.push(trim_char(render(id), '"')),
            None => before,
        }
    }
}

/// `playlist.track` of a fetched playlist.
pub open spec fn playlist_tracks(content: Json) -> Option<Json> {
    then_get(get(content, "playlist"@), "track"@)
}

/// The release ids of a playlist's tracks; none when its tracks are no array.
pub open spec fn playlist_release_mbids(content: Json) -> Seq<Seq<char>> {
    match playlist_tracks(content) {
        Some(Json::Array(tracks)) => track_release_mbids(tracks@),
        _ => Seq::empty(),
    }
}

/// The views of a list of strings.
pub open spec fn texts(v: Seq<String>) -> Seq<Seq<char>> {
    v.map_values(|s: String| s@)
}

/// The release ids of the tracks of a fetched playlist, skipping tracks without one.
pub fn album_mbids_from_playlist(content: &Json) -> (r: Vec<String>)
    requires
        playlist_tracks(*content) is Some,
    ensures
        texts(r@) == playlist_release_mbids(*content),
        playlist_tracks(*content) matches Some(Json::Array(tracks)) ==> {
            &&& r@.len() == tracks_with_release_id(tracks@)
            &&& forall|i: int|
                0 <= i < tracks@.len() ==> (track_release_mbid(tracks@[i]) matches Some(id) ==> (#[trigger] r@[
                    tracks_with_release_id(tracks@.take(i)) as int]
                ).view() == trim_char(render(id), '"'))
        },
{
    let tracks = json_then_get(json_get(content, "playlist"), "track");
    let mut r: Vec<String> = Vec::new();
    match tracks {
        Some(Json::Array(list)) => {
            let n = list.len();
            for i in 0..n
                invariant
                    n == list@.len(),
                    playlist_release_mbids(*content) == track_release_mbids(list@),
                    texts(r@) == track_release_mbids(list@.take(i as int)),
            {
                assert(list@.take(i + 1).drop_last() =~= list@.take(i as int));
                assert(list@.take(i + 1).last() == list@[i as int]);
                let track = &list[i];
                let id = json_then_get(
                    json_then_get(
                        json_then_get(json_get(track, "extension"), "https://musicbrainz.org/doc/jspf#track"),
                        "additional_metadata",
                    ),
                    "caa_release_mbid",
                );
                match id {
                    Some(id) => {
                        let text = json_text(id);
                        let mbid = trim_matches(text.as_str(), '"');
                        r.push(mbid);
                        assert(texts(r@) =~= track_release_mbids(list@.take(i as int)).push(
                            trim_char(render(*id), '"'),
                        ));
                    },
                    None => {},
                }
            }
            assert(list@.take(n as int) =~= list@);
        },
        _ => {},
    }
    proof {
        if let Some(Json::Array(tracks)) = playlist_tracks(*content) {
            lemma_track_ids_in_track_order(tracks@);
            assert(texts(r@).len() == r@.len());
            assert forall|i: int|
                0 <= i < tracks@.len() implies (track_release_mbid(tracks@[i]) matches Some(id) ==> (#[trigger] r@[
                    tracks_with_release_id(tracks@.take(i)) as int]
                ).view() == trim_char(render(id), '"')) by {
                if track_release_mbid(tracks@[i]) is Some {
                    let k = tracks_with_release_id(tracks@.take(i)) as int;
                    lemma_tracks_with_id_prefix(tracks@, i + 1);
                    assert(tracks@.take(i + 1).drop_last() =~= tracks@.take(i));
                    assert(tracks@.take(i + 1).last() == tracks@[i]);
                    assert(texts(r@)[k] == r@[k]@);
                }
            }
        }
    }
    r
}

/// How many of `tracks` carry no release id.
pub open spec fn tracks_without_release_id(tracks: Seq<Json>) -> nat
    decreases tracks.len(),
{
    if tracks.len() == 0 {
        0
    } else {
        tracks_without_release_id(tracks.drop_last()) + if track_release_mbid(tracks.last()) is None {
            1nat
        } else {
            0nat
        }
    }
}

/// How many tracks of a fetched playlist are skipped for carrying no release id
/// (none when its tracks are no array).
pub open spec fn skipped_track_count(content: Json) -> nat {
    match playlist_tracks(content) {
        Some(Json::Array(tracks)) => tracks_without_release_id(tracks@),
        _ => 0,
    }
}

/// Every track of a playlist is either read for its release id or skipped.
pub proof fn lemma_tracks_read_or_skipped(tracks: Seq<Json>)
    ensures
        track_release_mbids(tracks).len() + tracks_without_release_id(tracks) == tracks.len(),
    decreases tracks.len(),
{
    if tracks.len() > 0 {
        lemma_tracks_read_or_skipped(tracks.drop_last());
    }
}

/// How many of `tracks` carry a release id.
pub open spec fn tracks_with_release_id(tracks: Seq<Json>) -> nat
    decreases tracks.len(),
{
    if tracks.len() == 0 {
        0
    } else {
        tracks_with_release_id(tracks.drop_last()) + if track_release_mbid(tracks.last()) is Some {
            1nat
        } else {
            0nat
        }
    }
}

proof fn lemma_tracks_with_id_prefix(tracks: Seq<Json>, j: int)
    requires
        0 <= j <= tracks.len(),
    ensures
        tracks_with_release_id(tracks.take(j)) <= tracks_with_release_id(tracks),
    decreases tracks.len(),
{
    if j == tracks.len() {
        assert(tracks.take(j) =~= tracks);
    } else {
        assert(tracks.take(j) =~= tracks.drop_last().take(j));
        lemma_tracks_with_id_prefix(tracks.drop_last(), j);
    }
}

/// Every track that carries a release id contributes it, in track order: the
/// id of track `i` (the JSON text of its `caa_release_mbid`, quotes trimmed)
/// is entry number "tracks with an id before `i`", and there is one entry per
/// track with an id.
pub proof fn lemma_track_ids_in_track_order(tracks: Seq<Json>)
    ensures
        track_release_mbids(tracks).len() == tracks_with_release_id(tracks),
        forall|i: int|
            0 <= i < tracks.len() ==> (track_release_mbid(tracks[i]) matches Some(id) ==> #[trigger] track_release_mbids(
                tracks,
            )[tracks_with_release_id(tracks.take(i)) as int] == trim_char(render(id), '"')),
    decreases tracks.len(),
{
    if tracks.len() > 0 {
        let n = tracks.len() - 1;
        let t0 = tracks.drop_last();
        lemma_track_ids_in_track_order(t0);
        assert forall|i: int|
            0 <= i < tracks.len() implies (track_release_mbid(tracks[i]) matches Some(id) ==> #[trigger] track_release_mbids(
                tracks,
            )[tracks_with_release_id(tracks.take(i)) as int] == trim_char(render(id), '"')) by {
            if i < n {
                assert(t0.take(i) =~= tracks.take(i));
                assert(t0[i] == tracks[i]);
                assert(t0.take(i + 1).drop_last() =~= t0.take(i));
                assert(t0.take(i + 1).last() == t0[i]);
                lemma_tracks_with_id_prefix(t0, i + 1);
            } else {
                assert(tracks.take(i) =~= t0);
            }
        }
    }
}

/// The number of tracks that `album_mbids_from_playlist` skips.
pub fn skipped_tracks(content: &Json) -> (r: usize)
    ensures
        r == skipped_track_count(*content),
{
    let tracks = json_then_get(json_get(content, "playlist"), "track");
    let mut count: usize = 0;
    match tracks {
        Some(Json::Array(list)) => {
            let n = list.len();
            for i in 0..n
                invariant
                    n == list@.len(),
                    skipped_track_count(*content) == tracks_without_release_id(list@),
                    count == tracks_without_release_id(list@.take(i as int)),
                    count <= i,
            {
                assert(list@.take(i + 1).drop_last() =~= list@.take(i as int));
                assert(list@.take(i + 1).last() == list@[i as int]);
                let track = &list[i];
                let id = json_then_get(
                    json_then_get(
                        json_then_get(json_get(track, "extension"), "https://musicbrainz.org/doc/jspf#track"),
                        "additional_metadata",
                    ),
                    "caa_release_mbid",
                );
                if id.is_none() {
                    count = count + 1;
                }
            }
            assert(list@.take(n as int) =~= list@);
        },
        _ => {},
    }
    count
}

/// Whether the fetched playlist has its tracks (the condition under which
/// `album_mbids_from_playlist` may be called).
pub fn playlist_tracks_present(content: &Json) -> (r: bool)
    ensures
        r == playlist_tracks(*content) is Some,
{
    json_then_get(json_get(content, "playlist"), "track").is_some()
}

} // verus!
