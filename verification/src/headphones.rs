//! What the bot asks of Headphones and reads from its answers.

use vstd::prelude::*;
use crate::album::{Album, AlbumState, AlbumStatus, status_named, status_from_text};
use crate::json::{Json, get, render, json_get, json_text};
use crate::text::{trim_char, trim_matches};

verus! {

/// The Headphones API commands the bot sends for one album.
#[derive(Debug, Clone, Copy, PartialEq, Eq, Structural)]
pub enum AlbumCommand {
    GetAlbum,
    AddAlbum,
    QueueAlbum,
}

/// The name of a command in the Headphones API.
pub open spec fn command_name(command: AlbumCommand) -> Seq<char> {
    match command {
        AlbumCommand::GetAlbum => "getAlbum"@,
        AlbumCommand::AddAlbum => "addAlbum"@,
        AlbumCommand::QueueAlbum => "queueAlbum"@,
    }
}

/// The Headphones address that asks for the download history.
pub open spec fn history_address(uri: Seq<char>, api_key: Seq<char>) -> Seq<char> {
    uri + "/api?apikey="@ + api_key + "&cmd=getHistory"@
}

/// `format!("{}/api?apikey={}&cmd=getHistory", uri, api_key)`.
pub fn history_url(uri: &str, api_key: &str) -> (r: String)
    ensures
        r@ == history_address(uri@, api_key@),
{
    let mut r = String::from_str(uri);
    r.append("/api?apikey=");
    r.append(api_key);
    r.append("&cmd=getHistory");
    r
}

/// The Headphones address that sends `command` for the album or release group `id`.
pub open spec fn album_command_address(uri: Seq<char>, api_key: Seq<char>, command: AlbumCommand, id: Seq<char>) -> Seq<char> {
    uri + "/api?apikey="@ + api_key + "&cmd="@ + command_name(command) + "&id="@ + id
}

/// `format!("{}/api?apikey={}&cmd=<command>&id={}", uri, api_key, id)`.
pub fn album_command_url(uri: &str, api_key: &str, command: AlbumCommand, id: &str) -> (r: String)
    ensures
        r@ == album_command_address(uri@, api_key@, command, id@),
{
    let mut r = String::from_str(uri);
    r.append("/api?apikey=");
    r.append(api_key);
    r.append("&cmd=");
    match command {
        AlbumCommand::GetAlbum => r.append("getAlbum"),
        AlbumCommand::AddAlbum => r.append("addAlbum"),
        AlbumCommand::QueueAlbum => r.append("queueAlbum"),
    }
    r.append("&id=");
    r.append(id);
    r
}

/// The two lines the bot logs before adding an album.
pub open spec fn add_album_notice_text(album: Album) -> Seq<char> {
    "Adding album ("@ + album.artist@ + " - "@ + album.album@ + ") - "@ + album.mbid@
        + "\nRelease group "@ + album.release_group@
}

/// `"Adding album ({artist} - {album}) - {mbid}"` and `"Release group {release_group}"`,
/// on two lines.
pub fn add_album_notice(album: &Album) -> (r: String)
    ensures
        r@ == add_album_notice_text(*album),
{
    let mut r = String::from_str("Adding album (");
    r.append(album.artist.as_str());
    r.append(" - ");
    r.append(album.album.as_str());
    r.append(") - ");
    r.append(album.mbid.as_str());
    r.append("\nRelease group ");
    r.append(album.release_group.as_str());
    r
}

/// Whether every entry of a history answer has a `Title` and a `Status`, the
/// answer being an array.
pub open spec fn history_readable(history: Json) -> bool {
    match history {
        Json::Array(entries) => forall|i: int|
            0 <= i < entries@.len() ==> (#[trigger] get(entries@[i], "Title"@)) is Some && get(
                entries@[i],
                "Status"@,
            ) is Some,
        _ => false,
    }
}

/// The entries of a history answer.
pub open spec fn history_entries(history: Json) -> Seq<Json> {
    match history {
        Json::Array(entries) => entries@,
        _ => Seq::empty(),
    }
}

fn read_history(history: &Json) -> (r: Option<Vec<AlbumState>>)
    ensures
        r is Some == history_readable(*history),
        r matches Some(v) ==> {
            &&& v@.len() == history_entries(*history).len()
            &&& forall|i: int| 0 <= i < v@.len() ==> {
                &&& get(history_entries(*history)[i], "Title"@) matches Some(t) && (#[trigger] v@[i]).title@ == render(t)
                &&& get(history_entries(*history)[i], "Status"@) matches Some(s) && v@[i].status@ == render(s)
            }
        },
{
    match history {
        Json::Array(entries) => {
            let mut v: Vec<AlbumState> = Vec::new();
            let n = entries.len();
            for i in 0..n
                invariant
                    n == entries@.len(),
                    history_entries(*history) == entries@,
                    history_readable(*history) <==> forall|i: int|
                        0 <= i < entries@.len() ==> (#[trigger] get(entries@[i], "Title"@)) is Some
                            && get(entries@[i], "Status"@) is Some,
                    v@.len() == i,
                    forall|j: int| 0 <= j < i ==> (#[trigger] get(entries@[j], "Title"@)) is Some && get(entries@[j], "Status"@) is Some,
                    forall|j: int| 0 <= j < i ==> {
                        &&& get(entries@[j], "Title"@) matches Some(t) && (#[trigger] v@[j]).title@ == render(t)
                        &&& get(entries@[j], "Status"@) matches Some(s) && v@[j].status@ == render(s)
                    },
            {
                let entry = &entries[i];
                match (json_get(entry, "Title"), json_get(entry, "Status")) {
                    (Some(title), Some(status)) => {
                        v.push(AlbumState { title: json_text(title), status: json_text(status) });
                    },
                    _ => {
                        assert(!history_readable(*history)) by {
                            assert(!(get(entries@[i as int], "Title"@) is Some && get(entries@[i as int], "Status"@) is Some));
                        }
                        return None;
                    },
                }
            }
            Some(v)
        },
        _ => None,
    }
}

/// The entries of the Headphones download history, in answer order, with the
/// JSON texts of their `Title` and `Status`.
pub fn album_states_from_history(history: &Json) -> (r: Vec<AlbumState>)
    requires
        history_readable(*history),
    ensures
        r@.len() == history_entries(*history).len(),
        forall|i: int| 0 <= i < r@.len() ==> {
            &&& get(history_entries(*history)[i], "Title"@) matches Some(t) && (#[trigger] r@[i]).title@ == render(t)
            &&& get(history_entries(*history)[i], "Status"@) matches Some(s) && r@[i].status@ == render(s)
        },
{
    match read_history(history) {
        Some(v) => v,
        None => Vec::new(),
    }
}

/// Whether a history answer can be read (the condition under which
/// `album_states_from_history` may be called).
pub fn history_is_readable(history: &Json) -> (r: bool)
    ensures
        r == history_readable(*history),
{
    read_history(history).is_some()
}

/// The status text of an album answer: the JSON text of `album[0].Status` with
/// its surrounding double quotes trimmed, or empty when there is none.
pub open spec fn album_status_text(answer: Json) -> Seq<char> {
    match get(answer, "album"@) {
        Some(Json::Array(list)) => if list@.len() > 0 {
            match get(list@[0], "Status"@) {
                Some(s) => trim_char(render(s), '"'),
                None => Seq::empty(),
            }
        } else {
            Seq::empty()
        },
        _ => Seq::empty(),
    }
}

/// The status of an album as a Headphones album answer reports it.
pub fn album_status_of(answer: &Json) -> (r: AlbumStatus)
    requires
        get(*answer, "album"@) is Some,
    ensures
        r == status_named(album_status_text(*answer)),
{
    let text = match json_get(answer, "album") {
        Some(Json::Array(list)) => {
            if list.len() > 0 {
                match json_get(&list[0], "Status") {
                    Some(s) => {
                        let t = json_text(s);
                        trim_matches(t.as_str(), '"')
                    },
                    None => String::new(),
                }
            } else {
                String::new()
            }
        },
        _ => String::new(),
    };
    status_from_text(text.as_str())
}

/// Whether an album answer has its `album` (the condition under which
/// `album_status_of` may be called).
pub fn album_answer_is_readable(answer: &Json) -> (r: bool)
    ensures
        r == get(*answer, "album"@) is Some,
{
    json_get(answer, "album").is_some()
}

} // verus!
