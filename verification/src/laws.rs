//! The library's general laws, each stated over the mathematical model and
//! proved once for all inputs.

use vstd::prelude::*;
use crate::catalog::{
    PlaylistV, SongV, lib_wf, has_pl, pl_index, spec_catalog, spec_pl_results, spec_search,
};
use crate::text::spec_matches;

verus! {

/// Cataloging invariant: after cataloging song `s` under name `n` in a
/// well-formed library, exactly one playlist is named `n`; its songs are the
/// old ones with `s` appended (just `[s]` when the playlist is new), so `s`
/// stands at its end; and the library stays well-formed.
pub proof fn lemma_catalog_invariant(l: Seq<PlaylistV>, n: Seq<char>, s: SongV)
    requires
        lib_wf(l),
    ensures
        lib_wf(spec_catalog(l, n, s)),
        has_pl(spec_catalog(l, n, s), n),
        spec_catalog(l, n, s)[pl_index(spec_catalog(l, n, s), n)].name == n,
        spec_catalog(l, n, s)[pl_index(spec_catalog(l, n, s), n)].songs == (if has_pl(l, n) {
            l[pl_index(l, n)].songs.push(s)
        } else {
            seq![s]
        }),
        spec_catalog(l, n, s)[pl_index(spec_catalog(l, n, s), n)].songs.last() == s,
        forall|i: int, j: int|
            (0 <= i < spec_catalog(l, n, s).len() && 0 <= j < spec_catalog(l, n, s).len()
                && spec_catalog(l, n, s)[i].name == n && spec_catalog(l, n, s)[j].name == n) ==> i
                == j,
{
    let l2 = spec_catalog(l, n, s);
    if has_pl(l, n) {
        let i = pl_index(l, n);
        assert(0 <= i < l.len() && l[i].name == n);
        assert(forall|k: int| 0 <= k < l2.len() ==> l2[k].name == l[k].name);
        assert(l2[i].name == n);
        assert(has_pl(l2, n));
        assert forall|a: int, b: int|
            (0 <= a < l2.len() && 0 <= b < l2.len() && l2[a].name == n && l2[b].name == n) implies a
            == b by {
            if a < b {
                assert(l[a].name != l[b].name);
            } else if b < a {
                assert(l[b].name != l[a].name);
            }
        }
        let i2 = pl_index(l2, n);
        assert(0 <= i2 < l2.len() && l2[i2].name == n);
        assert(i2 == i);
        assert(l2[i].songs.last() == s);
    } else {
        let m = l.len() as int;
        assert(l2 == l.push(PlaylistV { name: n, songs: seq![s] }));
        assert(l2[m].name == n);
        assert(has_pl(l2, n));
        assert forall|a: int, b: int|
            (0 <= a < l2.len() && 0 <= b < l2.len() && l2[a].name == n && l2[b].name == n) implies a
            == b by {
            if a < m && b < m {
                if a < b {
                    assert(l[a].name != l[b].name);
                } else if b < a {
                    assert(l[b].name != l[a].name);
                }
            } else if a < m {
                assert(l[a].name == n);
                assert(has_pl(l, n));
            } else if b < m {
                assert(l[b].name == n);
                assert(has_pl(l, n));
            }
        }
        assert forall|a: int, b: int| 0 <= a < b < l2.len() implies l2[a].name != l2[b].name by {
            if b < m {
                assert(l[a].name != l[b].name);
            } else {
                assert(l2[b].name == n);
                if l2[a].name == n {
                    assert(l[a].name == n);
                    assert(has_pl(l, n));
                }
            }
        }
        let i2 = pl_index(l2, n);
        assert(0 <= i2 < l2.len() && l2[i2].name == n);
        assert(i2 == m);
        assert(l2[m].songs == seq![s]);
        assert(seq![s].last() == s);
    }
}

/// The matches one playlist contributes are exactly the pairs of its name
/// with each of its songs whose name matches the query.
pub proof fn lemma_pl_results_elems(name: Seq<char>, songs: Seq<SongV>, q: Seq<char>)
    ensures
        forall|pr: (Seq<char>, SongV)|
            #[trigger] spec_pl_results(name, songs, q).contains(pr) <==> (pr.0 == name && exists|
                j: int,
            |
                0 <= j < songs.len() && songs[j] == pr.1 && spec_matches(pr.1.name, q)),
    decreases songs.len(),
{
    if songs.len() == 0 {
    } else {
        let pre = songs.drop_last();
        let lastv = songs.last();
        lemma_pl_results_elems(name, pre, q);
        let whole = spec_pl_results(name, songs, q);
        let a = spec_pl_results(name, pre, q);
        let tail: Seq<(Seq<char>, SongV)> = if spec_matches(lastv.name, q) {
            seq![(name, lastv)]
        } else {
            Seq::empty()
        };
        assert(whole == a + tail);
        assert forall|pr: (Seq<char>, SongV)| #[trigger] whole.contains(pr) implies (pr.0 == name
            && exists|j: int|
            0 <= j < songs.len() && songs[j] == pr.1 && spec_matches(pr.1.name, q)) by {
            let k = choose|k: int| 0 <= k < whole.len() && whole[k] == pr;
            if k < a.len() {
                assert(a[k] == pr);
                assert(a.contains(pr));
                let j = choose|j: int|
                    0 <= j < pre.len() && pre[j] == pr.1 && spec_matches(pr.1.name, q);
                assert(songs[j] == pre[j]);
                assert(0 <= j < songs.len() && songs[j] == pr.1 && spec_matches(pr.1.name, q));
            } else {
                assert(tail[k - a.len()] == pr);
                assert(tail.len() > 0);
                assert(pr == (name, lastv));
                let j = songs.len() - 1;
                assert(songs[j] == lastv);
                assert(0 <= j < songs.len() && songs[j] == pr.1 && spec_matches(pr.1.name, q));
            }
        }
        assert forall|pr: (Seq<char>, SongV)|
            (pr.0 == name && exists|j: int|
                0 <= j < songs.len() && songs[j] == pr.1 && spec_matches(
                    pr.1.name,
                    q,
                )) implies #[trigger] whole.contains(pr) by {
            let j = choose|j: int|
                0 <= j < songs.len() && songs[j] == pr.1 && spec_matches(pr.1.name, q);
            if j < songs.len() - 1 {
                assert(pre[j] == songs[j]);
                assert(0 <= j < pre.len() && pre[j] == pr.1 && spec_matches(pr.1.name, q));
                assert(a.contains(pr));
                let k = choose|k: int| 0 <= k < a.len() && a[k] == pr;
                assert(whole[k] == pr);
                assert(whole.contains(pr));
            } else {
                assert(songs[j] == lastv);
                assert(spec_matches(lastv.name, q));
                assert(tail[0] == (name, lastv));
                assert(pr == (name, lastv));
                assert(whole[a.len() as int] == pr);
                assert(whole.contains(pr));
            }
        }
    }
}

/// Search correctness: the search results over a library hold exactly the
/// pairs of a playlist name and one of that playlist's songs whose name
/// matches the query case-insensitively.
pub proof fn lemma_search_elems(l: Seq<PlaylistV>, q: Seq<char>)
    ensures
        forall|pr: (Seq<char>, SongV)|
            #[trigger] spec_search(l, q).contains(pr) <==> exists|i: int, j: int|
                0 <= i < l.len() && 0 <= j < l[i].songs.len() && l[i].name == pr.0 && l[i].songs[j]
                    == pr.1 && spec_matches(pr.1.name, q),
    decreases l.len(),
{
    if l.len() == 0 {
    } else {
        let pre = l.drop_last();
        let lastp = l.last();
        lemma_search_elems(pre, q);
        lemma_pl_results_elems(lastp.name, lastp.songs, q);
        let whole = spec_search(l, q);
        let a = spec_search(pre, q);
        let b = spec_pl_results(lastp.name, lastp.songs, q);
        assert(whole == a + b);
        assert forall|pr: (Seq<char>, SongV)| #[trigger] whole.contains(pr) implies exists|
            i: int,
            j: int,
        |
            0 <= i < l.len() && 0 <= j < l[i].songs.len() && l[i].name == pr.0 && l[i].songs[j]
                == pr.1 && spec_matches(pr.1.name, q) by {
            let k = choose|k: int| 0 <= k < whole.len() && whole[k] == pr;
            if k < a.len() {
                assert(a[k] == pr);
                assert(a.contains(pr));
                let (i, j) = choose|i: int, j: int|
                    0 <= i < pre.len() && 0 <= j < pre[i].songs.len() && pre[i].name == pr.0
                        && pre[i].songs[j] == pr.1 && spec_matches(pr.1.name, q);
                assert(l[i] == pre[i]);
                assert(0 <= i < l.len() && 0 <= j < l[i].songs.len() && l[i].name == pr.0
                    && l[i].songs[j] == pr.1 && spec_matches(pr.1.name, q));
            } else {
                assert(b[k - a.len()] == pr);
                assert(b.contains(pr));
                let j = choose|j: int|
                    0 <= j < lastp.songs.len() && lastp.songs[j] == pr.1 && spec_matches(
                        pr.1.name,
                        q,
                    );
                let i = l.len() - 1;
                assert(l[i] == lastp);
                assert(0 <= i < l.len() && 0 <= j < l[i].songs.len() && l[i].name == pr.0
                    && l[i].songs[j] == pr.1 && spec_matches(pr.1.name, q));
            }
        }
        assert forall|pr: (Seq<char>, SongV)|
            (exists|i: int, j: int|
                0 <= i < l.len() && 0 <= j < l[i].songs.len() && l[i].name == pr.0 && l[i].songs[j]
                    == pr.1 && spec_matches(pr.1.name, q)) implies #[trigger] whole.contains(
            pr,
        ) by {
            let (i, j) = choose|i: int, j: int|
                0 <= i < l.len() && 0 <= j < l[i].songs.len() && l[i].name == pr.0 && l[i].songs[j]
                    == pr.1 && spec_matches(pr.1.name, q);
            if i < l.len() - 1 {
                assert(pre[i] == l[i]);
                assert(0 <= i < pre.len() && 0 <= j < pre[i].songs.len() && pre[i].name == pr.0
                    && pre[i].songs[j] == pr.1 && spec_matches(pr.1.name, q));
                assert(a.contains(pr));
                let k = choose|k: int| 0 <= k < a.len() && a[k] == pr;
                assert(whole[k] == pr);
                assert(whole.contains(pr));
            } else {
                assert(l[i] == lastp);
                assert(0 <= j < lastp.songs.len() && lastp.songs[j] == pr.1 && spec_matches(
                    pr.1.name,
                    q,
                ));
                assert(pr.0 == lastp.name);
                assert(b.contains(pr));
                let k = choose|k: int| 0 <= k < b.len() && b[k] == pr;
                assert(whole[a.len() + k] == pr);
                assert(whole.contains(pr));
            }
        }
    }
}

/// Search on a library where no song matches — in particular on a library
/// with no playlists at all — yields the empty sequence.
pub proof fn lemma_search_empty(l: Seq<PlaylistV>, q: Seq<char>)
    requires
        forall|i: int, j: int|
            0 <= i < l.len() && 0 <= j < l[i].songs.len() ==> !spec_matches(
                l[i].songs[j].name,
                q,
            ),
    ensures
        spec_search(l, q) == Seq::<(Seq<char>, SongV)>::empty(),
{
    lemma_search_elems(l, q);
    let w = spec_search(l, q);
    if w.len() > 0 {
        assert(w.contains(w[0]));
        assert(false);
    }
    assert(w =~= Seq::<(Seq<char>, SongV)>::empty());
}

} // verus!
