//! Albums, their download states, and the order in which the bot lists them.

use vstd::prelude::*;
use crate::text::{str_equals, text_less, text_less_exec, lemma_text_less_irreflexive, lemma_text_less_total,
    lemma_text_less_transitive};

verus! {

/// An album release as the bot knows it.
#[derive(Debug)]
pub struct Album {
    pub album: String,
    pub artist: String,
    pub release_group: String,
    pub mbid: String,
}

/// An entry of the Headphones download history.
pub struct AlbumState {
    pub status: String,
    pub title: String,
}

/// What Headphones reports of an album.
#[derive(Debug, Clone, Copy, PartialEq, Eq, Structural)]
pub enum AlbumStatus {
    Nothing,
    Wanted,
    Snatched,
    Downloaded,
}

/// The status that Headphones' status text names; any other text is `Nothing`.
pub open spec fn status_named(text: Seq<char>) -> AlbumStatus {
    if text == "Downloaded"@ {
        AlbumStatus::Downloaded
    } else if text == "Wanted"@ {
        AlbumStatus::Wanted
    } else if text == "Snatched"@ {
        AlbumStatus::Snatched
    } else {
        AlbumStatus::Nothing
    }
}

/// Exactly the texts `Downloaded`, `Wanted` and `Snatched` name a status other
/// than `Nothing`, each its own.
pub proof fn lemma_status_named_exactly(text: Seq<char>)
    ensures
        status_named(text) == AlbumStatus::Downloaded <==> text == "Downloaded"@,
        status_named(text) == AlbumStatus::Wanted <==> text == "Wanted"@,
        status_named(text) == AlbumStatus::Snatched <==> text == "Snatched"@,
        status_named(text) == AlbumStatus::Nothing <==> (text != "Downloaded"@ && text != "Wanted"@ && text
            != "Snatched"@),
{
    reveal_strlit("Downloaded");
    reveal_strlit("Wanted");
    reveal_strlit("Snatched");
    assert("Downloaded"@ != "Wanted"@) by {
        assert("Downloaded"@[0] != "Wanted"@[0]);
    }
    assert("Downloaded"@ != "Snatched"@) by {
        assert("Downloaded"@[0] != "Snatched"@[0]);
    }
    assert("Wanted"@ != "Snatched"@) by {
        assert("Wanted"@[0] != "Snatched"@[0]);
    }
}

/// The status named by Headphones' status text.
pub fn status_from_text(text: &str) -> (r: AlbumStatus)
    ensures
        r == status_named(text@),
{
    if str_equals(text, "Downloaded") {
        AlbumStatus::Downloaded
    } else if str_equals(text, "Wanted") {
        AlbumStatus::Wanted
    } else if str_equals(text, "Snatched") {
        AlbumStatus::Snatched
    } else {
        AlbumStatus::Nothing
    }
}

/// `a` is listed before `b`: by artist, then by album title, each in the order of `text_less`.
pub open spec fn album_before(a: Album, b: Album) -> bool {
    ||| text_less(a.artist@, b.artist@)
    ||| a.artist@ == b.artist@ && text_less(a.album@, b.album@)
}

/// Albums of the given artist and title.
pub open spec fn has_key(artist: Seq<char>, title: Seq<char>) -> spec_fn(Album) -> bool {
    |x: Album| x.artist@ == artist && x.album@ == title
}

/// No album of `s` is listed before an album that precedes it in `s`.
pub open spec fn sorted_by_artist_and_title(s: Seq<Album>) -> bool {
    forall|i: int, j: int| 0 <= i < j < s.len() ==> !album_before(#[trigger] s[j], #[trigger] s[i])
}

/// The artist decides first: an album of an earlier artist comes first
/// whatever the titles, and between albums of one artist the title decides.
pub proof fn lemma_artist_decides_first(a: Album, b: Album)
    ensures
        text_less(a.artist@, b.artist@) ==> album_before(a, b),
        text_less(b.artist@, a.artist@) ==> !album_before(a, b),
        a.artist@ == b.artist@ ==> (album_before(a, b) <==> text_less(a.album@, b.album@)),
{
    lemma_text_less_total(a.artist@, b.artist@);
    lemma_text_less_irreflexive(a.artist@);
}

/// No album is listed before itself.
pub proof fn lemma_album_before_irreflexive(a: Album)
    ensures
        !album_before(a, a),
{
    lemma_text_less_irreflexive(a.artist@);
    lemma_text_less_irreflexive(a.album@);
}

/// Listing order is transitive.
pub proof fn lemma_album_before_transitive(a: Album, b: Album, c: Album)
    requires
        album_before(a, b),
        album_before(b, c),
    ensures
        album_before(a, c),
{
    if text_less(a.artist@, b.artist@) && text_less(b.artist@, c.artist@) {
        lemma_text_less_transitive(a.artist@, b.artist@, c.artist@);
    } else if text_less(a.album@, b.album@) && text_less(b.album@, c.album@) {
        lemma_text_less_transitive(a.album@, b.album@, c.album@);
    }
}

/// Two albums neither of which is listed before the other have the same artist and title.
pub proof fn lemma_album_before_total(a: Album, b: Album)
    ensures
        !album_before(a, b) && !album_before(b, a) ==> a.artist@ == b.artist@ && a.album@ == b.album@,
        !(album_before(a, b) && album_before(b, a)),
{
    lemma_text_less_total(a.artist@, b.artist@);
    lemma_text_less_total(a.album@, b.album@);
}

/// Whether `a` is listed before `b`.
pub fn album_before_exec(a: &Album, b: &Album) -> (r: bool)
    ensures
        r == album_before(*a, *b),
{
    if text_less_exec(&a.artist, &b.artist) {
        true
    } else if a.artist == b.artist {
        text_less_exec(&a.album, &b.album)
    } else {
        false
    }
}

proof fn lemma_filter_single(x: Album, pred: spec_fn(Album) -> bool)
    ensures
        seq![x].filter(pred) == (if pred(x) { seq![x] } else { Seq::<Album>::empty() }),
{
    reveal_with_fuel(Seq::filter, 2);
    assert(seq![x].drop_last() =~= Seq::<Album>::empty());
}

proof fn lemma_filter_none(s: Seq<Album>, pred: spec_fn(Album) -> bool)
    requires
        forall|i: int| 0 <= i < s.len() ==> !pred(#[trigger] s[i]),
    ensures
        s.filter(pred) == Seq::<Album>::empty(),
{
    s.lemma_filter_len(pred);
    if s.filter(pred).len() > 0 {
        let y = s.filter(pred)[0];
        s.lemma_filter_pred(pred, 0);
        assert(s.filter(pred).contains(y));
        lemma_filter_member(s, pred, y);
        let k = choose|k: int| 0 <= k < s.len() && s[k] == y;
        assert(!pred(s[k]));
    }
    assert(s.filter(pred) =~= Seq::<Album>::empty());
}

proof fn lemma_filter_member(s: Seq<Album>, pred: spec_fn(Album) -> bool, y: Album)
    requires
        s.filter(pred).contains(y),
    ensures
        s.contains(y),
    decreases s.len(),
{
    reveal(Seq::filter);
    if s.len() > 0 {
        let sub = s.drop_last().filter(pred);
        if pred(s.last()) && y == s.last() {
            assert(s[s.len() - 1] == y);
        } else {
            if pred(s.last()) {
                let k = choose|k: int| 0 <= k < s.filter(pred).len() && s.filter(pred)[k] == y;
                assert(k < sub.len());
                assert(sub[k] == y);
            }
            assert(sub.contains(y));
            lemma_filter_member(s.drop_last(), pred, y);
            let k = choose|k: int| 0 <= k < s.drop_last().len() && s.drop_last()[k] == y;
            assert(s[k] == y);
        }
    }
}

/// The albums ordered by artist, then by title; albums with the same artist and
/// title keep their order (the order of a stable sort with that comparison).
pub fn sort_albums(albums: Vec<Album>) -> (r: Vec<Album>)
    ensures
        sorted_by_artist_and_title(r@),
        r@.to_multiset() == albums@.to_multiset(),
        forall|artist: Seq<char>, title: Seq<char>|
            #[trigger] r@.filter(has_key(artist, title)) == albums@.filter(has_key(artist, title)),
{
    broadcast use vstd::seq_lib::group_to_multiset_ensures;
    let ghost orig = albums@;
    let mut rest = albums;
    let mut result: Vec<Album> = Vec::new();
    let n = rest.len();
    let mut i: usize = 0;
    assert(orig.take(0) =~= Seq::<Album>::empty());
    assert(orig.skip(0) =~= orig);
    while i < n
        invariant
            n == orig.len(),
            i <= n,
            rest@ == orig.skip(i as int),
            sorted_by_artist_and_title(result@),
            result@.to_multiset() == orig.take(i as int).to_multiset(),
            forall|artist: Seq<char>, title: Seq<char>|
                #[trigger] result@.filter(has_key(artist, title)) == orig.take(i as int).filter(
                    has_key(artist, title),
                ),
        decreases n - i,
    {
        let x = rest.remove(0);
        assert(x == orig[i as int]);
        assert(rest@ =~= orig.skip(i + 1));
        let mut p: usize = 0;
        while p < result.len() && !album_before_exec(&x, &result[p])
            invariant
                p <= result@.len(),
                forall|j: int| 0 <= j < p ==> !album_before(x, #[trigger] result@[j]),
            decreases result@.len() - p,
        {
            p = p + 1;
        }
        let ghost old_result = result@;
        proof {
            assert forall|j: int| p <= j < old_result.len() implies album_before(x, #[trigger] old_result[j]) by {
                if j > p {
                    lemma_album_before_total(old_result[p as int], old_result[j]);
                    if album_before(old_result[p as int], old_result[j]) {
                        lemma_album_before_transitive(x, old_result[p as int], old_result[j]);
                    }
                }
            }
        }
        result.insert(p, x);
        proof {
            let nr = result@;
            assert(nr =~= old_result.take(p as int) + seq![x] + old_result.skip(p as int));
            assert forall|a: int, b: int| 0 <= a < b < nr.len() implies !album_before(#[trigger] nr[b], #[trigger] nr[a]) by {
                if b < p {
                    assert(nr[a] == old_result[a] && nr[b] == old_result[b]);
                } else if b == p {
                    assert(nr[a] == old_result[a] && nr[b] == x);
                    lemma_album_before_total(x, old_result[a]);
                } else if a == p {
                    assert(nr[a] == x && nr[b] == old_result[b - 1]);
                    lemma_album_before_total(x, old_result[b - 1]);
                } else if a < p {
                    assert(nr[a] == old_result[a] && nr[b] == old_result[b - 1]);
                } else {
                    assert(nr[a] == old_result[a - 1] && nr[b] == old_result[b - 1]);
                }
            }
            assert(nr.remove(p as int) =~= old_result);
            assert(nr[p as int] == x);
            assert(orig.take(i + 1) =~= orig.take(i as int).push(x));
            nr.to_multiset_ensures();
            old_result.to_multiset_ensures();
            orig.take(i as int).to_multiset_ensures();
            assert(nr.remove(p as int).to_multiset() == nr.to_multiset().remove(nr[p as int]));
            assert(nr.contains(x));
            assert(nr.to_multiset().count(x) > 0);
            assert(nr.to_multiset() =~= nr.to_multiset().remove(x).insert(x));
            assert(nr.to_multiset() =~= old_result.to_multiset().insert(x));
            assert forall|artist: Seq<char>, title: Seq<char>|
                #[trigger] nr.filter(has_key(artist, title)) == orig.take(i + 1).filter(has_key(artist, title)) by {
                let pred = has_key(artist, title);
                let front = old_result.take(p as int);
                let back = old_result.skip(p as int);
                Seq::filter_distributes_over_add(front + seq![x], back, pred);
                Seq::filter_distributes_over_add(front, seq![x], pred);
                assert(old_result =~= front + back);
                Seq::filter_distributes_over_add(front, back, pred);
                Seq::filter_distributes_over_add(orig.take(i as int), seq![x], pred);
                assert(orig.take(i + 1) =~= orig.take(i as int) + seq![x]);
                lemma_filter_single(x, pred);
                assert(old_result.filter(pred) == orig.take(i as int).filter(pred));
                if pred(x) {
                    assert forall|j: int| 0 <= j < back.len() implies !pred(#[trigger] back[j]) by {
                        assert(back[j] == old_result[p + j]);
                        assert(album_before(x, old_result[p + j]));
                        lemma_album_before_irreflexive(x);
                    }
                    lemma_filter_none(back, pred);
                    assert(back.filter(pred) =~= Seq::<Album>::empty());
                    assert(nr.filter(pred) =~= front.filter(pred) + seq![x]);
                    assert(orig.take(i + 1).filter(pred) =~= front.filter(pred) + seq![x]);
                } else {
                    assert(nr.filter(pred) =~= front.filter(pred) + back.filter(pred));
                }
                assert(nr.filter(pred) =~= orig.take(i + 1).filter(pred));
            }
        }
        i = i + 1;
    }
    assert(orig.take(n as int) =~= orig);
    result
}

} // verus!
