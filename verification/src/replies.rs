//! The bot's replies in Discord: album lists, status reports, search results
//! and the rows of buttons under them.

use vstd::prelude::*;
use crate::album::{Album, AlbumStatus};
use crate::text::{decimal, decimal_text};

verus! {

/// Data shared by all command invocations (the bot keeps none).
pub struct Data {}

/// The pieces written one after the other.
pub open spec fn joined_pieces(pieces: Seq<Seq<char>>) -> Seq<char>
    decreases pieces.len(),
{
    if pieces.len() == 0 {
        Seq::empty()
    } else {
        joined_pieces(pieces.drop_last()) + pieces.last()
    }
}

/// Where piece `i` ends when the pieces are written one after the other.
pub open spec fn pieces_end(pieces: Seq<Seq<char>>, i: int) -> int
    decreases i,
{
    if i <= 0 {
        0
    } else {
        pieces_end(pieces, i - 1) + pieces[i - 1].len()
    }
}

proof fn lemma_pieces_end_monotone(pieces: Seq<Seq<char>>, i: int, j: int)
    requires
        0 <= i <= j,
    ensures
        0 <= pieces_end(pieces, i) <= pieces_end(pieces, j),
    decreases j,
{
    if j > 0 {
        if i < j {
            lemma_pieces_end_monotone(pieces, i, j - 1);
        } else {
            lemma_pieces_end_monotone(pieces, i - 1, j - 1);
        }
    }
}

proof fn lemma_pieces_end_prefix(pieces: Seq<Seq<char>>, k: int, i: int)
    requires
        0 <= i <= k <= pieces.len(),
    ensures
        pieces_end(pieces, i) == pieces_end(pieces.take(k), i),
    decreases i,
{
    if i > 0 {
        lemma_pieces_end_prefix(pieces, k, i - 1);
        assert(pieces.take(k)[i - 1] == pieces[i - 1]);
    }
}

/// Written one after the other, every piece stands whole at its place, and
/// nothing else is written.
pub proof fn lemma_joined_pieces_positions(pieces: Seq<Seq<char>>)
    ensures
        joined_pieces(pieces).len() == pieces_end(pieces, pieces.len() as int),
        forall|i: int|
            0 <= i < pieces.len() ==> #[trigger] joined_pieces(pieces).subrange(
                pieces_end(pieces, i),
                pieces_end(pieces, i + 1),
            ) == pieces[i],
    decreases pieces.len(),
{
    if pieces.len() > 0 {
        let n = pieces.len() - 1;
        let p = pieces.drop_last();
        lemma_joined_pieces_positions(p);
        assert(p =~= pieces.take(n));
        lemma_pieces_end_prefix(pieces, n, n);
        let a = joined_pieces(p);
        let b = pieces[n];
        assert forall|i: int| 0 <= i < pieces.len() implies #[trigger] joined_pieces(pieces).subrange(
            pieces_end(pieces, i),
            pieces_end(pieces, i + 1),
        ) == pieces[i] by {
            if i < n {
                lemma_pieces_end_prefix(pieces, n, i);
                lemma_pieces_end_prefix(pieces, n, i + 1);
                lemma_pieces_end_monotone(p, i + 1, n);
                lemma_pieces_end_monotone(p, i, i + 1);
                assert(p[i] == pieces[i]);
                assert((a + b).subrange(pieces_end(pieces, i), pieces_end(pieces, i + 1))
                    =~= a.subrange(pieces_end(p, i), pieces_end(p, i + 1)));
            } else {
                assert((a + b).subrange(pieces_end(pieces, i), pieces_end(pieces, i + 1)) =~= b);
            }
        }
    }
}

/// The mark shown for a status.
pub open spec fn checkmark_text(status: AlbumStatus) -> Seq<char> {
    match status {
        AlbumStatus::Nothing => ":red_circle:"@,
        AlbumStatus::Wanted => ":orange_circle:"@,
        AlbumStatus::Snatched => ":yellow_circle:"@,
        AlbumStatus::Downloaded => ":green_circle:"@,
    }
}

/// The mark shown for a status: red for nothing, orange for wanted, yellow for
/// snatched, green for downloaded.
pub fn checkmark(status: AlbumStatus) -> (r: &'static str)
    ensures
        r@ == checkmark_text(status),
{
    match status {
        AlbumStatus::Nothing => ":red_circle:",
        AlbumStatus::Wanted => ":orange_circle:",
        AlbumStatus::Snatched => ":yellow_circle:",
        AlbumStatus::Downloaded => ":green_circle:",
    }
}

/// Each status has its own mark.
pub proof fn lemma_checkmarks_distinct(a: AlbumStatus, b: AlbumStatus)
    requires
        a != b,
    ensures
        checkmark_text(a) != checkmark_text(b),
{
    reveal_strlit(":red_circle:");
    reveal_strlit(":orange_circle:");
    reveal_strlit(":yellow_circle:");
    reveal_strlit(":green_circle:");
    assert(checkmark_text(a)[1] != checkmark_text(b)[1]);
}

/// `"- {artist} - {album}\n"`.
pub open spec fn album_line(album: Album) -> Seq<char> {
    "- "@ + album.artist@ + " - "@ + album.album@ + "\n"@
}

/// The lines of `albums`, one after the other.
pub open spec fn album_lines(albums: Seq<Album>) -> Seq<char>
    decreases albums.len(),
{
    if albums.len() == 0 {
        Seq::empty()
    } else {
        album_lines(albums.drop_last()) + album_line(albums.last())
    }
}

/// The recommendation lines, one per album: `"- {artist} - {album}\n"`.
pub open spec fn recommendation_pieces(albums: Seq<Album>) -> Seq<Seq<char>> {
    Seq::new(albums.len(), |i: int| "- "@ + albums[i].artist@ + " - "@ + albums[i].album@ + "\n"@)
}

/// The recommendation reply holds one line per album, in album order, each
/// line whole at its place and nothing between them.
pub proof fn lemma_album_lines_one_per_album(albums: Seq<Album>)
    ensures
        album_lines(albums).len() == pieces_end(recommendation_pieces(albums), albums.len() as int),
        forall|i: int|
            0 <= i < albums.len() ==> #[trigger] album_lines(albums).subrange(
                pieces_end(recommendation_pieces(albums), i),
                pieces_end(recommendation_pieces(albums), i + 1),
            ) == "- "@ + albums[i].artist@ + " - "@ + albums[i].album@ + "\n"@,
{
    lemma_album_lines_joined(albums);
    lemma_joined_pieces_positions(recommendation_pieces(albums));
}

proof fn lemma_album_lines_joined(albums: Seq<Album>)
    ensures
        album_lines(albums) == joined_pieces(recommendation_pieces(albums)),
    decreases albums.len(),
{
    if albums.len() > 0 {
        lemma_album_lines_joined(albums.drop_last());
        assert(recommendation_pieces(albums).drop_last() =~= recommendation_pieces(albums.drop_last()));
    }
}

/// The reply listing the recommended albums: one `"- {artist} - {album}"` line each.
pub fn recommendations_text(albums: &Vec<Album>) -> (r: String)
    ensures
        r@ == album_lines(albums@),
        r@.len() == pieces_end(recommendation_pieces(albums@), albums@.len() as int),
        forall|i: int|
            0 <= i < albums@.len() ==> #[trigger] r@.subrange(
                pieces_end(recommendation_pieces(albums@), i),
                pieces_end(recommendation_pieces(albums@), i + 1),
            ) == "- "@ + albums@[i].artist@ + " - "@ + albums@[i].album@ + "\n"@,
{
    proof {
        lemma_album_lines_one_per_album(albums@);
    }
    let mut r = String::new();
    let n = albums.len();
    for i in 0..n
        invariant
            n == albums@.len(),
            r@ == album_lines(albums@.take(i as int)),
    {
        assert(albums@.take(i + 1).drop_last() =~= albums@.take(i as int));
        assert(albums@.take(i + 1).last() == albums@[i as int]);
        r.append("- ");
        r.append(albums[i].artist.as_str());
        r.append(" - ");
        r.append(albums[i].album.as_str());
        r.append("\n");
    }
    assert(albums@.take(n as int) =~= albums@);
    r
}

/// `"- {checkmark} {artist} - {album}\n"`.
pub open spec fn status_line_text(status: AlbumStatus, album: Album) -> Seq<char> {
    "- "@ + checkmark_text(status) + " "@ + album.artist@ + " - "@ + album.album@ + "\n"@
}

/// The line reporting the status of an album.
pub fn status_line(status: AlbumStatus, album: &Album) -> (r: String)
    ensures
        r@ == status_line_text(status, *album),
{
    let mut r = String::from_str("- ");
    r.append(checkmark(status));
    r.append(" ");
    r.append(album.artist.as_str());
    r.append(" - ");
    r.append(album.album.as_str());
    r.append("\n");
    r
}

/// The status lines of `entries`, one after the other.
pub open spec fn status_lines(entries: Seq<(AlbumStatus, Album)>) -> Seq<char>
    decreases entries.len(),
{
    if entries.len() == 0 {
        Seq::empty()
    } else {
        status_lines(entries.drop_last()) + status_line_text(entries.last().0, entries.last().1)
    }
}

/// The report lines, one per entry: `"- {checkmark} {artist} - {album}\n"`.
pub open spec fn report_pieces(entries: Seq<(AlbumStatus, Album)>) -> Seq<Seq<char>> {
    Seq::new(
        entries.len(),
        |i: int|
            "- "@ + checkmark_text(entries[i].0) + " "@ + entries[i].1.artist@ + " - "@ + entries[i].1.album@
                + "\n"@,
    )
}

/// The status report holds one line per entry, in entry order, each line
/// whole at its place and nothing between them; no status is left unreported.
pub proof fn lemma_status_lines_one_per_entry(entries: Seq<(AlbumStatus, Album)>)
    ensures
        status_lines(entries).len() == pieces_end(report_pieces(entries), entries.len() as int),
        forall|i: int|
            0 <= i < entries.len() ==> #[trigger] status_lines(entries).subrange(
                pieces_end(report_pieces(entries), i),
                pieces_end(report_pieces(entries), i + 1),
            ) == "- "@ + checkmark_text(entries[i].0) + " "@ + entries[i].1.artist@ + " - "@
                + entries[i].1.album@ + "\n"@,
{
    lemma_status_lines_joined(entries);
    lemma_joined_pieces_positions(report_pieces(entries));
}

proof fn lemma_status_lines_joined(entries: Seq<(AlbumStatus, Album)>)
    ensures
        status_lines(entries) == joined_pieces(report_pieces(entries)),
    decreases entries.len(),
{
    if entries.len() > 0 {
        lemma_status_lines_joined(entries.drop_last());
        assert(report_pieces(entries).drop_last() =~= report_pieces(entries.drop_last()));
    }
}

/// The reply reporting the status of each album.
pub fn status_report(entries: &Vec<(AlbumStatus, Album)>) -> (r: String)
    ensures
        r@ == status_lines(entries@),
        r@.len() == pieces_end(report_pieces(entries@), entries@.len() as int),
        forall|i: int|
            0 <= i < entries@.len() ==> #[trigger] r@.subrange(
                pieces_end(report_pieces(entries@), i),
                pieces_end(report_pieces(entries@), i + 1),
            ) == "- "@ + checkmark_text(entries@[i].0) + " "@ + entries@[i].1.artist@ + " - "@
                + entries@[i].1.album@ + "\n"@,
{
    proof {
        lemma_status_lines_one_per_entry(entries@);
    }
    let mut r = String::new();
    let n = entries.len();
    for i in 0..n
        invariant
            n == entries@.len(),
            r@ == status_lines(entries@.take(i as int)),
    {
        assert(entries@.take(i + 1).drop_last() =~= entries@.take(i as int));
        assert(entries@.take(i + 1).last() == entries@[i as int]);
        let line = status_line(entries[i].0, &entries[i].1);
        r.append(line.as_str());
    }
    assert(entries@.take(n as int) =~= entries@);
    r
}

/// The first line of the import reply.
pub const IMPORT_HEADER: &'static str = "Adding albums\n";

/// The last words of the import reply.
pub const IMPORT_DONE: &'static str = "done";

/// The albums paired with their statuses, leaving out those whose status could not be had.
pub open spec fn known_statuses(albums: Seq<Album>, statuses: Seq<Option<AlbumStatus>>) -> Seq<(AlbumStatus, Album)>
    decreases albums.len(),
{
    if albums.len() == 0 || statuses.len() == 0 {
        Seq::empty()
    } else {
        let before = known_statuses(albums.drop_last(), statuses.drop_last());
        match statuses.last() {
            Some(s) => before.push((s, albums.last())),
            None => before,
        }
    }
}

/// How many of `statuses` are known.
pub open spec fn count_known(statuses: Seq<Option<AlbumStatus>>) -> nat
    decreases statuses.len(),
{
    if statuses.len() == 0 {
        0
    } else {
        count_known(statuses.drop_last()) + if statuses.last() is Some {
            1nat
        } else {
            0nat
        }
    }
}

proof fn lemma_count_known_prefix(s: Seq<Option<AlbumStatus>>, j: int)
    requires
        0 <= j <= s.len(),
    ensures
        count_known(s.take(j)) <= count_known(s),
    decreases s.len(),
{
    if j == s.len() {
        assert(s.take(j) =~= s);
    } else {
        assert(s.take(j) =~= s.drop_last().take(j));
        lemma_count_known_prefix(s.drop_last(), j);
    }
}

proof fn lemma_count_known_step(s: Seq<Option<AlbumStatus>>, i: int)
    requires
        0 <= i < s.len(),
    ensures
        count_known(s.take(i + 1)) == count_known(s.take(i)) + if s[i] is Some {
            1nat
        } else {
            0nat
        },
{
    assert(s.take(i + 1).drop_last() =~= s.take(i));
    assert(s.take(i + 1).last() == s[i]);
}

/// Every album whose status is known is reported, with that status, in album
/// order: album `i` with status `s` is report entry number "known statuses
/// before `i`", and the report has one entry per known status (only failed
/// lookups are left out, whatever the status is).
pub proof fn lemma_pairs_report_every_known_status(albums: Seq<Album>, statuses: Seq<Option<AlbumStatus>>)
    requires
        albums.len() == statuses.len(),
    ensures
        known_statuses(albums, statuses).len() == count_known(statuses),
        forall|i: int|
            0 <= i < statuses.len() && statuses[i] is Some ==> #[trigger] known_statuses(albums, statuses)[count_known(
                statuses.take(i),
            ) as int] == (statuses[i]->0, albums[i]),
    decreases albums.len(),
{
    if albums.len() > 0 {
        let a0 = albums.drop_last();
        let s0 = statuses.drop_last();
        let n = albums.len() - 1;
        lemma_pairs_report_every_known_status(a0, s0);
        assert forall|i: int|
            0 <= i < statuses.len() && statuses[i] is Some implies #[trigger] known_statuses(albums, statuses)[count_known(
                statuses.take(i),
            ) as int] == (statuses[i]->0, albums[i]) by {
            if i < n {
                assert(s0.take(i) =~= statuses.take(i));
                assert(s0[i] == statuses[i]);
                assert(a0[i] == albums[i]);
                lemma_count_known_step(s0, i);
                lemma_count_known_prefix(s0, i + 1);
            } else {
                assert(statuses.take(i) =~= s0);
            }
        }
    }
}

/// Pairs each album with its status, in album order, dropping the albums whose
/// status lookup failed.
pub fn pair_statuses(albums: Vec<Album>, statuses: Vec<Option<AlbumStatus>>) -> (r: Vec<(AlbumStatus, Album)>)
    requires
        albums@.len() == statuses@.len(),
    ensures
        r@ == known_statuses(albums@, statuses@),
        r@.len() == count_known(statuses@),
        forall|i: int|
            0 <= i < statuses@.len() && statuses@[i] is Some ==> #[trigger] r@[count_known(
                statuses@.take(i),
            ) as int] == (statuses@[i]->0, albums@[i]),
{
    proof {
        lemma_pairs_report_every_known_status(albums@, statuses@);
    }
    let ghost orig = albums@;
    let mut rest = albums;
    let mut r: Vec<(AlbumStatus, Album)> = Vec::new();
    let n = statuses.len();
    let mut i: usize = 0;
    assert(orig.skip(0) =~= orig);
    assert(orig.take(0) =~= Seq::<Album>::empty());
    while i < n
        invariant
            n == statuses@.len(),
            n == orig.len(),
            i <= n,
            rest@ == orig.skip(i as int),
            r@ == known_statuses(orig.take(i as int), statuses@.take(i as int)),
        decreases n - i,
    {
        let album = rest.remove(0);
        assert(album == orig[i as int]);
        assert(rest@ =~= orig.skip(i + 1));
        assert(orig.take(i + 1).drop_last() =~= orig.take(i as int));
        assert(statuses@.take(i + 1).drop_last() =~= statuses@.take(i as int));
        assert(orig.take(i + 1).last() == album);
        assert(statuses@.take(i + 1).last() == statuses@[i as int]);
        match statuses[i] {
            Some(s) => {
                r.push((s, album));
            },
            None => {},
        }
        i = i + 1;
    }
    assert(orig.take(n as int) =~= orig);
    assert(statuses@.take(n as int) =~= statuses@);
    r
}

/// `"{i}. {artist} - {album}\n"`.
pub open spec fn search_line(i: nat, album: Album) -> Seq<char> {
    decimal(i) + ". "@ + album.artist@ + " - "@ + album.album@ + "\n"@
}

/// The numbered lines of `results`, one after the other.
pub open spec fn search_lines(results: Seq<Album>) -> Seq<char>
    decreases results.len(),
{
    if results.len() == 0 {
        Seq::empty()
    } else {
        search_lines(results.drop_last()) + search_line((results.len() - 1) as nat, results.last())
    }
}

/// The line `"{i}. {artist} - {album}\n"` for result `i`.
pub open spec fn numbered_result_line(i: nat, a: Album) -> Seq<char> {
    decimal(i) + ". "@ + a.artist@ + " - "@ + a.album@ + "\n"@
}

/// Where the line of result `i` ends in the result lines, which is where the
/// line of result `i + 1` starts.
pub open spec fn result_lines_end(results: Seq<Album>, i: int) -> int
    decreases i,
{
    if i <= 0 {
        0
    } else {
        result_lines_end(results, i - 1) + numbered_result_line((i - 1) as nat, results[i - 1]).len()
    }
}

proof fn lemma_result_lines_end_prefix(results: Seq<Album>, k: int, i: int)
    requires
        0 <= i <= k <= results.len(),
    ensures
        result_lines_end(results, i) == result_lines_end(results.take(k), i),
    decreases i,
{
    if i > 0 {
        lemma_result_lines_end_prefix(results, k, i - 1);
        assert(results.take(k)[i - 1] == results[i - 1]);
    }
}

/// The result lines hold one line per result, in result order: the line of
/// result `i` is `"{i}. {artist} - {album}\n"` and nothing stands between them.
pub proof fn lemma_search_lines_one_per_result(results: Seq<Album>)
    ensures
        search_lines(results).len() == result_lines_end(results, results.len() as int),
        forall|i: int|
            0 <= i < results.len() ==> #[trigger] search_lines(results).subrange(
                result_lines_end(results, i),
                result_lines_end(results, i + 1),
            ) == numbered_result_line(i as nat, results[i]),
    decreases results.len(),
{
    if results.len() > 0 {
        let n = results.len() - 1;
        let p = results.drop_last();
        lemma_search_lines_one_per_result(p);
        assert(p =~= results.take(n));
        lemma_result_lines_end_prefix(results, n, n);
        let a = search_lines(p);
        let b = numbered_result_line(n as nat, results[n]);
        assert(search_lines(results) == a + b);
        assert forall|i: int| 0 <= i < results.len() implies #[trigger] search_lines(results).subrange(
            result_lines_end(results, i),
            result_lines_end(results, i + 1),
        ) == numbered_result_line(i as nat, results[i]) by {
            if i < n {
                lemma_result_lines_end_prefix(results, n, i);
                lemma_result_lines_end_prefix(results, n, i + 1);
                assert(p[i] == results[i]);
                assert(p.subrange(0, i + 1).len() == i + 1);
                lemma_result_lines_end_monotone(p, i + 1, n);
                lemma_result_lines_end_monotone(p, i, i + 1);
                lemma_result_lines_end_monotone(p, 0, i);
                assert((a + b).subrange(result_lines_end(results, i), result_lines_end(results, i + 1))
                    =~= a.subrange(result_lines_end(p, i), result_lines_end(p, i + 1)));
            } else {
                assert((a + b).subrange(result_lines_end(results, i), result_lines_end(results, i + 1)) =~= b);
            }
        }
    }
}

proof fn lemma_result_lines_end_monotone(results: Seq<Album>, i: int, j: int)
    requires
        0 <= i <= j,
    ensures
        result_lines_end(results, i) <= result_lines_end(results, j),
    decreases j,
{
    if i < j {
        lemma_result_lines_end_monotone(results, i, j - 1);
    }
}

/// The reply to a search: `"Search results"`, then one numbered line per result, from 0.
pub fn search_results_text(results: &Vec<Album>) -> (r: String)
    ensures
        r@ == "Search results\n"@ + search_lines(results@),
        r@.len() == "Search results\n"@.len() + result_lines_end(results@, results@.len() as int),
        forall|i: int|
            0 <= i < results@.len() ==> #[trigger] r@.subrange(
                "Search results\n"@.len() + result_lines_end(results@, i),
                "Search results\n"@.len() + result_lines_end(results@, i + 1),
            ) == numbered_result_line(i as nat, results@[i]),
{
    proof {
        lemma_search_lines_one_per_result(results@);
    }
    let mut r = String::from_str("Search results\n");
    let ghost start = r@;
    let n = results.len();
    for i in 0..n
        invariant
            n == results@.len(),
            start == "Search results\n"@,
            r@ == start + search_lines(results@.take(i as int)),
    {
        assert(results@.take(i + 1).drop_last() =~= results@.take(i as int));
        assert(results@.take(i + 1).last() == results@[i as int]);
        let number = decimal_text(i);
        r.append(number.as_str());
        r.append(". ");
        r.append(results[i].artist.as_str());
        r.append(" - ");
        r.append(results[i].album.as_str());
        r.append("\n");
    }
    assert(results@.take(n as int) =~= results@);
    proof {
        let h = "Search results\n"@;
        assert forall|i: int| 0 <= i < results@.len() implies #[trigger] r@.subrange(
            h.len() + result_lines_end(results@, i),
            h.len() + result_lines_end(results@, i + 1),
        ) == numbered_result_line(i as nat, results@[i]) by {
            lemma_result_lines_end_monotone(results@, 0, i);
            lemma_result_lines_end_monotone(results@, i, i + 1);
            lemma_result_lines_end_monotone(results@, i + 1, results@.len() as int);
            assert(r@.subrange(h.len() + result_lines_end(results@, i), h.len() + result_lines_end(results@, i + 1))
                =~= search_lines(results@).subrange(result_lines_end(results@, i), result_lines_end(results@, i + 1)));
        }
    }
    r
}

/// The rows of result buttons: as many full rows of five as there are results
/// (a last, shorter row is not shown), row `k` holding the buttons of results
/// `5k` to `5k + 4`.
pub fn button_rows(count: usize) -> (r: Vec<Vec<usize>>)
    ensures
        r@.len() == count / 5,
        forall|k: int| 0 <= k < r@.len() ==> (#[trigger] r@[k])@ == Seq::new(5, |j: int| (5 * k + j) as usize),
{
    let rows = count / 5;
    let mut r: Vec<Vec<usize>> = Vec::new();
    for i in 0..rows
        invariant
            rows == count / 5,
            r@.len() == i,
            forall|k: int| 0 <= k < i ==> (#[trigger] r@[k])@ == Seq::new(5, |j: int| (5 * k + j) as usize),
    {
        let mut row: Vec<usize> = Vec::new();
        for b in 0..5usize
            invariant
                i < rows,
                rows == count / 5,
                row@.len() == b,
                forall|j: int| 0 <= j < b ==> row@[j] == (5 * i + j) as usize,
        {
            let index = i * 5 + b;
            if index < count {
                row.push(index);
            }
        }
        assert(row@ =~= Seq::new(5, |j: int| (5 * i + j) as usize));
        r.push(row);
    }
    r
}

} // verus!
