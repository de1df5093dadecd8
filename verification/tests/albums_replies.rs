use music_management::album::{album_before_exec, sort_albums, status_from_text, Album, AlbumStatus};
use music_management::replies::{
    button_rows, checkmark, pair_statuses, recommendations_text, search_results_text, status_line,
    status_report, Data, IMPORT_DONE, IMPORT_HEADER,
};

fn album(artist: &str, title: &str, mbid: &str) -> Album {
    Album {
        album: title.to_string(),
        artist: artist.to_string(),
        release_group: format!("rg-{mbid}"),
        mbid: mbid.to_string(),
    }
}

fn keys(albums: &[Album]) -> Vec<(String, String, String)> {
    albums.iter().map(|a| (a.artist.clone(), a.album.clone(), a.mbid.clone())).collect()
}

#[test]
fn sorts_by_artist_then_title() {
    let albums = vec![
        album("Low", "Things We Lost", "1"),
        album("Bjork", "Vespertine", "2"),
        album("Low", "Double Negative", "3"),
        album("Autechre", "Confield", "4"),
    ];
    let sorted = sort_albums(albums);
    assert_eq!(
        keys(&sorted),
        vec![
            ("Autechre".to_string(), "Confield".to_string(), "4".to_string()),
            ("Bjork".to_string(), "Vespertine".to_string(), "2".to_string()),
            ("Low".to_string(), "Double Negative".to_string(), "3".to_string()),
            ("Low".to_string(), "Things We Lost".to_string(), "1".to_string()),
        ]
    );
}

#[test]
fn sorting_keeps_the_order_of_equal_albums() {
    let albums = vec![
        album("B", "X", "first"),
        album("A", "Y", "a"),
        album("B", "X", "second"),
        album("B", "X", "third"),
    ];
    let sorted = sort_albums(albums);
    let mbids: Vec<&str> = sorted.iter().map(|a| a.mbid.as_str()).collect();
    assert_eq!(mbids, vec!["a", "first", "second", "third"]);
}

#[test]
fn sorting_matches_a_stable_sort_by_artist_and_title() {
    let names = ["b", "a", "", "ab", "B", "é", "a"];
    let mut albums = Vec::new();
    let mut n = 0;
    for artist in names {
        for title in names {
            n += 1;
            albums.push(album(artist, title, &n.to_string()));
        }
    }
    let mut expected = keys(&albums);
    expected.sort_by(|a, b| (a.0.as_str(), a.1.as_str()).cmp(&(b.0.as_str(), b.1.as_str())));
    let sorted = sort_albums(albums);
    assert_eq!(keys(&sorted), expected);
}

#[test]
fn sorting_nothing_gives_nothing() {
    assert!(sort_albums(Vec::new()).is_empty());
}

#[test]
fn listing_order_compares_artist_first() {
    assert!(album_before_exec(&album("A", "Z", "1"), &album("B", "A", "2")));
    assert!(album_before_exec(&album("A", "A", "1"), &album("A", "B", "2")));
    assert!(!album_before_exec(&album("A", "B", "1"), &album("A", "B", "2")));
    assert!(!album_before_exec(&album("B", "A", "1"), &album("A", "Z", "2")));
}

#[test]
fn reads_status_names() {
    assert_eq!(status_from_text("Downloaded"), AlbumStatus::Downloaded);
    assert_eq!(status_from_text("Wanted"), AlbumStatus::Wanted);
    assert_eq!(status_from_text("Snatched"), AlbumStatus::Snatched);
    assert_eq!(status_from_text("Skipped"), AlbumStatus::Nothing);
    assert_eq!(status_from_text(""), AlbumStatus::Nothing);
    assert_eq!(status_from_text("wanted"), AlbumStatus::Nothing);
}

#[test]
fn each_status_has_its_own_mark() {
    assert_eq!(checkmark(AlbumStatus::Nothing), ":red_circle:");
    assert_eq!(checkmark(AlbumStatus::Wanted), ":orange_circle:");
    assert_eq!(checkmark(AlbumStatus::Snatched), ":yellow_circle:");
    assert_eq!(checkmark(AlbumStatus::Downloaded), ":green_circle:");
    let all = [AlbumStatus::Nothing, AlbumStatus::Wanted, AlbumStatus::Snatched, AlbumStatus::Downloaded];
    for a in all {
        for b in all {
            assert_eq!(a == b, checkmark(a) == checkmark(b));
        }
    }
}

#[test]
fn lists_recommendations() {
    let albums = vec![album("Low", "Hey What", "1"), album("Bjork", "Post", "2")];
    assert_eq!(recommendations_text(&albums), "- Low - Hey What\n- Bjork - Post\n");
    assert_eq!(recommendations_text(&Vec::new()), "");
}

#[test]
fn reports_statuses() {
    let a = album("Low", "Hey What", "1");
    assert_eq!(status_line(AlbumStatus::Wanted, &a), "- :orange_circle: Low - Hey What\n");
    let entries = vec![(AlbumStatus::Downloaded, a), (AlbumStatus::Nothing, album("X", "Y", "2"))];
    assert_eq!(status_report(&entries), "- :green_circle: Low - Hey What\n- :red_circle: X - Y\n");
    assert_eq!(status_report(&Vec::new()), "");
}

#[test]
fn import_reply_frames_the_status_lines() {
    let mut reply = IMPORT_HEADER.to_string();
    reply.push_str(&status_line(AlbumStatus::Snatched, &album("A", "B", "1")));
    reply.push_str(IMPORT_DONE);
    assert_eq!(reply, "Adding albums\n- :yellow_circle: A - B\ndone");
}

#[test]
fn pairs_albums_with_known_statuses() {
    let albums = vec![album("A", "1", "a"), album("B", "2", "b"), album("C", "3", "c")];
    let statuses = vec![Some(AlbumStatus::Wanted), None, Some(AlbumStatus::Downloaded)];
    let pairs = pair_statuses(albums, statuses);
    assert_eq!(pairs.len(), 2);
    assert_eq!(pairs[0].0, AlbumStatus::Wanted);
    assert_eq!(pairs[0].1.mbid, "a");
    assert_eq!(pairs[1].0, AlbumStatus::Downloaded);
    assert_eq!(pairs[1].1.mbid, "c");
}

#[test]
fn numbers_search_results_from_zero() {
    let results: Vec<Album> = (0..12).map(|i| album(&format!("Artist {i}"), "T", &i.to_string())).collect();
    let text = search_results_text(&results);
    assert!(text.starts_with("Search results\n0. Artist 0 - T\n1. Artist 1 - T\n"));
    assert!(text.ends_with("10. Artist 10 - T\n11. Artist 11 - T\n"));
    assert_eq!(search_results_text(&Vec::new()), "Search results\n");
}

#[test]
fn shows_only_full_rows_of_five_buttons() {
    assert!(button_rows(0).is_empty());
    assert!(button_rows(4).is_empty());
    assert_eq!(button_rows(5), vec![vec![0, 1, 2, 3, 4]]);
    assert_eq!(button_rows(12), vec![vec![0, 1, 2, 3, 4], vec![5, 6, 7, 8, 9]]);
    let rows = button_rows(25);
    assert_eq!(rows.len(), 5);
    assert_eq!(rows[4], vec![20, 21, 22, 23, 24]);
}

#[test]
fn shared_data_is_empty() {
    let _data = Data {};
}
