use music_management::album::{Album, AlbumStatus};
use music_management::headphones::{
    add_album_notice, album_answer_is_readable, album_command_url, album_states_from_history,
    album_status_of, history_is_readable, history_url, AlbumCommand,
};
use music_management::json::{Json, JsonMember};
use music_management::listenbrainz::{
    album_mbids_from_playlist, authorization_header, get_weekly_exploration, playlist_tracks_present,
    playlist_url, skipped_tracks, weekly_exploration_is_readable, RECOMMENDATIONS_URL, USER_AGENT,
};
use music_management::musicbrainz::{
    albums_from_releases, release_candidates, release_group_is_readable, release_group_of,
    release_url, releases_are_readable, releases_url, search_answer_is_readable, search_query,
    search_url, SearchError,
};

fn s(text: &str) -> Json {
    Json::Str(text.to_string())
}

fn obj(members: Vec<(&str, Json)>) -> Json {
    Json::Object(
        members
            .into_iter()
            .map(|(key, value)| JsonMember { key: key.to_string(), value })
            .collect(),
    )
}

fn playlist(source_patch: &str, identifier: &str) -> Json {
    obj(vec![(
        "playlist",
        obj(vec![
            (
                "extension",
                obj(vec![(
                    "https://musicbrainz.org/doc/jspf#playlist",
                    obj(vec![(
                        "additional_metadata",
                        obj(vec![("algorithm_metadata", obj(vec![("source_patch", s(source_patch))]))]),
                    )]),
                )]),
            ),
            ("identifier", s(identifier)),
        ]),
    )])
}

#[test]
fn finds_the_weekly_exploration_playlist() {
    let recs = obj(vec![(
        "playlists",
        Json::Array(vec![
            playlist("weekly-jams", "https://listenbrainz.org/playlist/jams-1"),
            playlist("weekly-exploration", "https://listenbrainz.org/playlist/explore-2"),
            playlist("weekly-exploration", "https://listenbrainz.org/playlist/explore-3"),
        ]),
    )]);
    assert!(weekly_exploration_is_readable(&recs));
    assert_eq!(get_weekly_exploration(&recs), Some("explore-2".to_string()));
}

#[test]
fn no_weekly_exploration_playlist() {
    let recs = obj(vec![("playlists", Json::Array(vec![playlist("weekly-jams", "x/y")]))]);
    assert!(weekly_exploration_is_readable(&recs));
    assert_eq!(get_weekly_exploration(&recs), None);
    let not_a_list = obj(vec![("playlists", s("none"))]);
    assert!(weekly_exploration_is_readable(&not_a_list));
    assert_eq!(get_weekly_exploration(&not_a_list), None);
}

#[test]
fn source_patch_must_be_a_json_string() {
    let mut p = playlist("weekly-exploration", "a/b");
    if let Json::Object(members) = &mut p {
        members[0].value = obj(vec![
            (
                "extension",
                obj(vec![(
                    "https://musicbrainz.org/doc/jspf#playlist",
                    obj(vec![(
                        "additional_metadata",
                        obj(vec![("algorithm_metadata", obj(vec![("source_patch", Json::Null)]))]),
                    )]),
                )]),
            ),
            ("identifier", s("a/b")),
        ]);
    }
    let recs = obj(vec![("playlists", Json::Array(vec![p]))]);
    assert_eq!(get_weekly_exploration(&recs), None);
}

#[test]
fn unreadable_recommendations() {
    assert!(!weekly_exploration_is_readable(&obj(vec![])));
    let broken = obj(vec![("playlists", Json::Array(vec![obj(vec![("playlist", obj(vec![]))])]))]);
    assert!(!weekly_exploration_is_readable(&broken));
    // An entry after the match is never looked at.
    let later_broken = obj(vec![(
        "playlists",
        Json::Array(vec![playlist("weekly-exploration", "a/ok"), obj(vec![])]),
    )]);
    assert!(weekly_exploration_is_readable(&later_broken));
    assert_eq!(get_weekly_exploration(&later_broken), Some("ok".to_string()));
}

fn track(mbid: Option<Json>) -> Json {
    match mbid {
        Some(id) => obj(vec![(
            "extension",
            obj(vec![(
                "https://musicbrainz.org/doc/jspf#track",
                obj(vec![("additional_metadata", obj(vec![("caa_release_mbid", id)]))]),
            )]),
        )]),
        None => obj(vec![("title", s("no id"))]),
    }
}

#[test]
fn reads_the_release_ids_of_playlist_tracks() {
    let content = obj(vec![(
        "playlist",
        obj(vec![(
            "track",
            Json::Array(vec![
                track(Some(s("r-1"))),
                track(None),
                track(Some(Json::Number("42".to_string()))),
            ]),
        )]),
    )]);
    assert!(playlist_tracks_present(&content));
    assert_eq!(album_mbids_from_playlist(&content), vec!["r-1".to_string(), "42".to_string()]);
    assert_eq!(skipped_tracks(&content), 1);
    let no_list = obj(vec![("playlist", obj(vec![("track", Json::Null)]))]);
    assert!(album_mbids_from_playlist(&no_list).is_empty());
    assert_eq!(skipped_tracks(&no_list), 0);
    assert!(!playlist_tracks_present(&obj(vec![("playlist", obj(vec![]))])));
}

#[test]
fn builds_listenbrainz_requests() {
    assert_eq!(playlist_url("abc"), "https://api.listenbrainz.org/1/playlist/abc");
    assert_eq!(authorization_header("t0k"), "\"Authorization\": \"Token t0k\"");
    assert_eq!(RECOMMENDATIONS_URL, "https://api.listenbrainz.org/1/user/magnias/playlists/createdfor");
    assert_eq!(USER_AGENT, "https://github.com/n-e-l/music-management (lauda@nel.re)");
}

#[test]
fn builds_search_queries() {
    assert_eq!(
        search_query(Some("Post".to_string()), Some("Bjork".to_string())),
        Ok("release:Post AND artist:Bjork".to_string())
    );
    assert_eq!(search_query(Some("Post".to_string()), None), Ok("release:Post".to_string()));
    assert_eq!(search_query(None, Some("Bjork".to_string())), Ok("artist:Bjork".to_string()));
    assert_eq!(search_query(None, None), Err(SearchError::NoSearchParameters));
}

#[test]
fn percent_encodes_the_search_query() {
    assert_eq!(
        search_url("release:Post AND artist:Björk"),
        "https://musicbrainz.org/ws/2/release/?query=release%3APost%20AND%20artist%3ABj%C3%B6rk&fmt=json"
    );
    assert_eq!(search_url("a-b.c_d~e"), "https://musicbrainz.org/ws/2/release/?query=a-b.c_d~e&fmt=json");
    let url = search_url("x&y=z?#/ +");
    let query = &url["https://musicbrainz.org/ws/2/release/?query=".len()..url.len() - "&fmt=json".len()];
    assert!(query.chars().all(|c| c.is_ascii_alphanumeric() || "-._~%".contains(c)));
}

#[test]
fn builds_musicbrainz_lookups() {
    assert_eq!(release_url("\"m1\""), "https://musicbrainz.org/ws/2/release/\"m1\"?inc=release-groups&fmt=json");
    assert_eq!(
        releases_url(&vec!["a".to_string(), "b".to_string(), "c".to_string()]),
        "https://musicbrainz.org/ws/2/release?query=mbid:(a+b+c)&fmt=json"
    );
    assert_eq!(releases_url(&vec![]), "https://musicbrainz.org/ws/2/release?query=mbid:()&fmt=json");
}

#[test]
fn reads_the_release_group() {
    let release = obj(vec![("release-group", obj(vec![("id", s("rg-9"))]))]);
    assert!(release_group_is_readable(&release));
    assert_eq!(release_group_of(&release), Some("rg-9".to_string()));
    let none = obj(vec![("title", s("x"))]);
    assert!(release_group_is_readable(&none));
    assert_eq!(release_group_of(&none), None);
    assert!(!release_group_is_readable(&obj(vec![("release-group", obj(vec![]))])));
}

fn search_result(artist: &str, title: &str, id: &str) -> Json {
    obj(vec![
        ("id", s(id)),
        ("title", s(title)),
        ("artist-credit", Json::Array(vec![obj(vec![("artist", obj(vec![("name", s(artist))]))])])),
    ])
}

#[test]
fn reads_search_results_as_json_texts() {
    let answer = obj(vec![(
        "releases",
        Json::Array(vec![search_result("Low", "Hey What", "id-1"), search_result("A \"B\"", "T", "id-2")]),
    )]);
    assert!(search_answer_is_readable(&answer));
    let found = release_candidates(&answer);
    assert_eq!(found.len(), 2);
    assert_eq!(found[0].artist, "\"Low\"");
    assert_eq!(found[0].title, "\"Hey What\"");
    assert_eq!(found[0].mbid, "\"id-1\"");
    assert_eq!(found[1].artist, "\"A \\\"B\\\"\"");
    let album = found.into_iter().next().unwrap().into_album("rg".to_string());
    assert_eq!(album.album, "\"Hey What\"");
    assert_eq!(album.release_group, "rg");
}

#[test]
fn unreadable_search_answers() {
    assert!(!search_answer_is_readable(&obj(vec![])));
    let empty_credit = obj(vec![(
        "releases",
        Json::Array(vec![obj(vec![("id", s("1")), ("title", s("t")), ("artist-credit", Json::Array(vec![]))])]),
    )]);
    assert!(!search_answer_is_readable(&empty_credit));
    let not_a_list = obj(vec![("releases", Json::Null)]);
    assert!(search_answer_is_readable(&not_a_list));
    assert!(release_candidates(&not_a_list).is_empty());
}

fn looked_up(id: &str, group_id: &str, group_title: &str, artist: &str) -> Json {
    obj(vec![
        ("id", s(id)),
        ("release-group", obj(vec![("id", s(group_id)), ("title", s(group_title))])),
        ("artist-credit", Json::Array(vec![obj(vec![("name", s(artist))])])),
    ])
}

#[test]
fn reads_albums_of_looked_up_releases() {
    let answer = obj(vec![(
        "releases",
        Json::Array(vec![looked_up("r1", "g1", "Title One", "Low"), looked_up("r2", "g2", "Two", "Bjork")]),
    )]);
    assert!(releases_are_readable(&answer));
    let albums: Vec<Album> = albums_from_releases(&answer);
    assert_eq!(albums.len(), 2);
    assert_eq!(albums[0].album, "Title One");
    assert_eq!(albums[0].artist, "Low");
    assert_eq!(albums[0].mbid, "r1");
    assert_eq!(albums[0].release_group, "g1");
    assert_eq!(albums[1].artist, "Bjork");
    assert!(albums_from_releases(&obj(vec![])).is_empty());
    let numeric_id = obj(vec![(
        "releases",
        Json::Array(vec![obj(vec![
            ("id", Json::Number("1".to_string())),
            ("release-group", obj(vec![("id", s("g")), ("title", s("t"))])),
            ("artist-credit", Json::Array(vec![obj(vec![("name", s("a"))])])),
        ])]),
    )]);
    assert!(!releases_are_readable(&numeric_id));
}

#[test]
fn builds_headphones_requests() {
    assert_eq!(history_url("http://hp:8181", "KEY"), "http://hp:8181/api?apikey=KEY&cmd=getHistory");
    assert_eq!(
        album_command_url("http://hp", "K", AlbumCommand::GetAlbum, "m"),
        "http://hp/api?apikey=K&cmd=getAlbum&id=m"
    );
    assert_eq!(
        album_command_url("http://hp", "K", AlbumCommand::AddAlbum, "m"),
        "http://hp/api?apikey=K&cmd=addAlbum&id=m"
    );
    assert_eq!(
        album_command_url("http://hp", "K", AlbumCommand::QueueAlbum, "rg"),
        "http://hp/api?apikey=K&cmd=queueAlbum&id=rg"
    );
}

#[test]
fn announces_an_album_to_add() {
    let album = Album {
        album: "Post".to_string(),
        artist: "Bjork".to_string(),
        release_group: "g".to_string(),
        mbid: "m".to_string(),
    };
    assert_eq!(add_album_notice(&album), "Adding album (Bjork - Post) - m\nRelease group g");
}

#[test]
fn reads_the_download_history() {
    let history = Json::Array(vec![
        obj(vec![("Title", s("Post")), ("Status", s("Processed"))]),
        obj(vec![("Status", Json::Null), ("Title", Json::Number("7".to_string()))]),
    ]);
    assert!(history_is_readable(&history));
    let states = album_states_from_history(&history);
    assert_eq!(states.len(), 2);
    assert_eq!(states[0].title, "\"Post\"");
    assert_eq!(states[0].status, "\"Processed\"");
    assert_eq!(states[1].title, "7");
    assert_eq!(states[1].status, "null");
    assert!(!history_is_readable(&obj(vec![])));
    assert!(!history_is_readable(&Json::Array(vec![obj(vec![("Title", s("x"))])])));
}

#[test]
fn reads_an_album_status() {
    let answer = |status: Json| obj(vec![("album", Json::Array(vec![obj(vec![("Status", status)])]))]);
    assert_eq!(album_status_of(&answer(s("Downloaded"))), AlbumStatus::Downloaded);
    assert_eq!(album_status_of(&answer(s("Wanted"))), AlbumStatus::Wanted);
    assert_eq!(album_status_of(&answer(s("Snatched"))), AlbumStatus::Snatched);
    assert_eq!(album_status_of(&answer(s("Skipped"))), AlbumStatus::Nothing);
    assert_eq!(album_status_of(&obj(vec![("album", Json::Array(vec![]))])), AlbumStatus::Nothing);
    assert_eq!(album_status_of(&obj(vec![("album", Json::Null)])), AlbumStatus::Nothing);
    assert!(album_answer_is_readable(&answer(Json::Null)));
    assert!(!album_answer_is_readable(&obj(vec![])));
}
