//! The catalog model: songs, playlists, and the library aggregate, with the
//! operations that read and mutate it.

use vstd::prelude::*;
use crate::text::{str_eq, matches_query, spec_matches};

verus! {

/// A single catalogued audio file. Identity is by `name` within its owning
/// playlist; `file_path` is where the audio lives on disk.
#[derive(Debug)]
pub struct Song {
    pub name: String,
    pub file_path: String,
}

/// The mathematical value of a [`Song`]: both fields as character sequences.
#[verifier::ext_equal]
pub struct SongV {
    pub name: Seq<char>,
    pub file_path: Seq<char>,
}

impl View for Song {
    type V = SongV;

    open spec fn view(&self) -> SongV {
        SongV { name: self.name@, file_path: self.file_path@ }
    }
}

impl Song {
    /// Builds a song from its two fields.
    pub fn new(name: String, file_path: String) -> (r: Song)
        ensures
            r@.name == name@,
            r@.file_path == file_path@,
    {
        Song { name, file_path }
    }
}

impl Clone for Song {
    fn clone(&self) -> (r: Self)
        ensures
            r@ == self@,
    {
        Song { name: self.name.clone(), file_path: self.file_path.clone() }
    }
}

/// The mathematical value of a sequence of songs.
pub open spec fn songs_view(v: Seq<Song>) -> Seq<SongV> {
    v.map_values(|s: Song| s@)
}

/// A named, ordered sequence of songs. Duplicate song names are permitted;
/// order is insertion order.
#[derive(Debug)]
pub struct Playlist {
    pub name: String,
    pub songs: Vec<Song>,
}

/// The mathematical value of a [`Playlist`].
#[verifier::ext_equal]
pub struct PlaylistV {
    pub name: Seq<char>,
    pub songs: Seq<SongV>,
}

impl View for Playlist {
    type V = PlaylistV;

    open spec fn view(&self) -> PlaylistV {
        PlaylistV { name: self.name@, songs: songs_view(self.songs@) }
    }
}

/// The root aggregate: every playlist, keyed by its unique name. It is the
/// unit of persistence.
#[derive(Debug)]
pub struct Library {
    pub playlists: Vec<Playlist>,
}

impl View for Library {
    type V = Seq<PlaylistV>;

    open spec fn view(&self) -> Seq<PlaylistV> {
        self.playlists@.map_values(|p: Playlist| p@)
    }
}

/// Well-formedness of a library value: playlist names are pairwise distinct.
pub open spec fn lib_wf(l: Seq<PlaylistV>) -> bool {
    forall|i: int, j: int|
        0 <= i < j < l.len() ==> l[i].name != l[j].name
}

/// Whether some playlist in `l` is named `n`.
pub open spec fn has_pl(l: Seq<PlaylistV>, n: Seq<char>) -> bool {
    exists|i: int| 0 <= i < l.len() && l[i].name == n
}

/// The index of the playlist named `n` (meaningful only when `has_pl` holds
/// and, under `lib_wf`, unique).
pub open spec fn pl_index(l: Seq<PlaylistV>, n: Seq<char>) -> int {
    choose|i: int| 0 <= i < l.len() && l[i].name == n
}

impl Library {
    /// Well-formedness of this library: playlist names pairwise distinct.
    pub open spec fn wf(&self) -> bool {
        lib_wf(self@)
    }

    /// Whether this library is well-formed; constructors and mutators keep
    /// it so, and a caller may test it before relying on that.
    pub fn well_formed(&self) -> (r: bool)
        ensures
            r == self.wf(),
    {
        check_distinct(&self.playlists)
    }

    /// An empty library: no playlists at all.
    pub fn new() -> (r: Library)
        ensures
            r@ == Seq::<PlaylistV>::empty(),
            r.wf(),
    {
        let r = Library { playlists: Vec::new() };
        proof {
            assert(r@ =~= Seq::<PlaylistV>::empty());
        }
        r
    }
}

/// Whether the playlist names in `pls` are pairwise distinct.
pub(crate) fn check_distinct(pls: &Vec<Playlist>) -> (r: bool)
    ensures
        r == lib_wf(pls@.map_values(|p: Playlist| p@)),
{
    let ghost lv = pls@.map_values(|p: Playlist| p@);
    let n = pls.len();
    let mut i: usize = 1;
    while i < n
        invariant
            n == lv.len(),
            lv == pls@.map_values(|p: Playlist| p@),
            forall|a: int, b: int| 0 <= a < b < i ==> lv[a].name != lv[b].name,
        decreases n - i,
    {
        let mut j: usize = 0;
        while j < i
            invariant
                i < n,
                n == lv.len(),
                lv == pls@.map_values(|p: Playlist| p@),
                j <= i,
                forall|a: int, b: int| 0 <= a < b < i ==> lv[a].name != lv[b].name,
                forall|a: int| 0 <= a < j ==> lv[a].name != lv[i as int].name,
            decreases i - j,
        {
            if str_eq(pls[j].name.as_str(), pls[i].name.as_str()) {
                proof {
                    assert(lv[j as int].name == lv[i as int].name);
                }
                return false;
            }
            j = j + 1;
        }
        i = i + 1;
    }
    true
}

/// The library after recording `s` under the playlist named `n`: the song is
/// appended to that playlist's sequence, the playlist being created (at the
/// end, holding only `s`) when no playlist has that name yet.
pub open spec fn spec_catalog(l: Seq<PlaylistV>, n: Seq<char>, s: SongV) -> Seq<PlaylistV> {
    if has_pl(l, n) {
        let i = pl_index(l, n);
        l.update(i, PlaylistV { name: l[i].name, songs: l[i].songs.push(s) })
    } else {
        l.push(PlaylistV { name: n, songs: seq![s] })
    }
}

/// All matches of `q` inside one playlist, in song order: the pairs
/// (playlist name, song) for each song whose name matches `q`.
pub open spec fn spec_pl_results(name: Seq<char>, songs: Seq<SongV>, q: Seq<char>) -> Seq<
    (Seq<char>, SongV),
>
    decreases songs.len(),
{
    if songs.len() == 0 {
        Seq::empty()
    } else {
        spec_pl_results(name, songs.drop_last(), q) + (if spec_matches(songs.last().name, q) {
            seq![(name, songs.last())]
        } else {
            Seq::empty()
        })
    }
}

/// All matches of `q` across the library, playlist order first, then song
/// order within each playlist.
pub open spec fn spec_search(l: Seq<PlaylistV>, q: Seq<char>) -> Seq<(Seq<char>, SongV)>
    decreases l.len(),
{
    if l.len() == 0 {
        Seq::empty()
    } else {
        spec_search(l.drop_last(), q) + spec_pl_results(l.last().name, l.last().songs, q)
    }
}

/// The mathematical value of a sequence of (playlist name, song) pairs.
pub open spec fn pairs_view(v: Seq<(String, Song)>) -> Seq<(Seq<char>, SongV)> {
    v.map_values(|t: (String, Song)| (t.0@, t.1@))
}

/// The file path of the first song named `n` in `songs`, if any.
pub open spec fn first_song_path(songs: Seq<SongV>, n: Seq<char>) -> Option<Seq<char>>
    decreases songs.len(),
{
    if songs.len() == 0 {
        None
    } else if songs[0].name == n {
        Some(songs[0].file_path)
    } else {
        first_song_path(songs.drop_first(), n)
    }
}

impl Library {
    /// The index of the first playlist named `name`, or `None` when the
    /// library has no such playlist.
    fn find_playlist(&self, name: &str) -> (r: Option<usize>)
        ensures
            match r {
                Some(i) => i < self@.len() && self@[i as int].name == name@ && forall|j: int|
                    0 <= j < i ==> self@[j].name != name@,
                None => !has_pl(self@, name@),
            },
    {
        let n = self.playlists.len();
        let mut i: usize = 0;
        while i < n
            invariant
                n == self@.len(),
                i <= n,
                forall|j: int| 0 <= j < i ==> self@[j].name != name@,
            decreases n - i,
        {
            if str_eq(self.playlists[i].name.as_str(), name) {
                return Some(i);
            }
            i = i + 1;
        }
        proof {
            assert(forall|j: int| !(0 <= j < self@.len() && self@[j].name == name@));
        }
        None
    }

    /// Records `song` under the playlist named `playlist_name`, creating that
    /// playlist when it does not exist yet. Always succeeds.
    pub fn catalog(&mut self, playlist_name: &str, song: Song)
        requires
            old(self).wf(),
        ensures
            final(self).wf(),
            final(self)@ == spec_catalog(old(self)@, playlist_name@, song@),
    {
        let found = self.find_playlist(playlist_name);
        match found {
            Some(i) => {
                proof {
                    assert(has_pl(self@, playlist_name@));
                    let k = pl_index(self@, playlist_name@);
                    assert(0 <= k < self@.len() && self@[k].name == playlist_name@);
                    if k != i {
                        assert(self@[k].name == self@[i as int].name);
                        assert(false);
                    }
                }
                self.playlists[i].songs.push(song);
                proof {
                    assert(final(self)@ =~~= spec_catalog(old(self)@, playlist_name@, song@));
                    assert forall|a: int, b: int|
                        0 <= a < b < final(self)@.len() implies final(self)@[a].name
                        != final(self)@[b].name by {
                        assert(old(self)@[a].name != old(self)@[b].name);
                    }
                }
            },
            None => {
                let mut songs: Vec<Song> = Vec::new();
                songs.push(song);
                let pl = Playlist { name: playlist_name.to_owned(), songs };
                self.playlists.push(pl);
                proof {
                    assert(final(self)@ =~~= spec_catalog(old(self)@, playlist_name@, song@));
                    assert forall|a: int, b: int|
                        0 <= a < b < final(self)@.len() implies final(self)@[a].name
                        != final(self)@[b].name by {
                        if b < old(self)@.len() {
                            assert(old(self)@[a].name != old(self)@[b].name);
                        } else {
                            assert(final(self)@[b].name == playlist_name@);
                            assert(!has_pl(old(self)@, playlist_name@));
                            assert(final(self)@[a].name == old(self)@[a].name);
                        }
                    }
                }
            },
        }
    }

    /// Every playlist's name beside its song count, in storage order.
    pub fn list_playlists(&self) -> (r: Vec<(String, usize)>)
        ensures
            r@.len() == self@.len(),
            forall|i: int|
                0 <= i < r@.len() ==> r@[i].0@ == self@[i].name && r@[i].1 == self@[i].songs.len(),
    {
        let n = self.playlists.len();
        let mut r: Vec<(String, usize)> = Vec::new();
        let mut i: usize = 0;
        while i < n
            invariant
                n == self@.len(),
                i <= n,
                r@.len() == i,
                forall|j: int|
                    0 <= j < i ==> r@[j].0@ == self@[j].name && r@[j].1 == self@[j].songs.len(),
            decreases n - i,
        {
            let pl = &self.playlists[i];
            r.push((pl.name.clone(), pl.songs.len()));
            i = i + 1;
        }
        r
    }

    /// The ordered songs of the playlist named `playlist_name`, or
    /// `PlaylistNotFound` when the library has no such playlist.
    pub fn list_songs(&self, playlist_name: &str) -> (r: Result<Vec<Song>, LibError>)
        requires
            self.wf(),
        ensures
            match r {
                Ok(songs) => has_pl(self@, playlist_name@) && songs_view(songs@) == self@[pl_index(
                    self@,
                    playlist_name@,
                )].songs,
                Err(e) => e == LibError::PlaylistNotFound && !has_pl(self@, playlist_name@),
            },
    {
        let found = self.find_playlist(playlist_name);
        match found {
            Some(i) => {
                proof {
                    let k = pl_index(self@, playlist_name@);
                    assert(has_pl(self@, playlist_name@));
                    assert(0 <= k < self@.len() && self@[k].name == playlist_name@);
                    if k != i {
                        assert(self@[k].name == self@[i as int].name);
                        assert(false);
                    }
                }
                let pl = &self.playlists[i];
                let n = pl.songs.len();
                let mut out: Vec<Song> = Vec::new();
                let mut j: usize = 0;
                while j < n
                    invariant
                        n == pl.songs@.len(),
                        j <= n,
                        out@.len() == j,
                        forall|k: int| 0 <= k < j ==> out@[k]@ == pl.songs@[k]@,
                    decreases n - j,
                {
                    out.push(pl.songs[j].clone());
                    j = j + 1;
                }
                proof {
                    assert(songs_view(out@) =~= songs_view(pl.songs@));
                }
                Ok(out)
            },
            None => Err(LibError::PlaylistNotFound),
        }
    }

    /// Every (playlist name, song) pair whose song name matches `q`
    /// case-insensitively, playlist order first, song order second.
    pub fn search(&self, q: &str) -> (r: Vec<(String, Song)>)
        ensures
            pairs_view(r@) == spec_search(self@, q@),
    {
        let n = self.playlists.len();
        let mut r: Vec<(String, Song)> = Vec::new();
        let mut i: usize = 0;
        while i < n
            invariant
                n == self@.len(),
                i <= n,
                pairs_view(r@) =~= spec_search(self@.take(i as int), q@),
            decreases n - i,
        {
            let pl = &self.playlists[i];
            let m = pl.songs.len();
            let mut j: usize = 0;
            while j < m
                invariant
                    n == self@.len(),
                    i < n,
                    pl == &self.playlists[i as int],
                    m == pl.songs@.len(),
                    j <= m,
                    pairs_view(r@) =~= spec_search(self@.take(i as int), q@) + spec_pl_results(
                        pl.name@,
                        songs_view(pl.songs@).take(j as int),
                        q@,
                    ),
                decreases m - j,
            {
                let song = &pl.songs[j];
                let ghost prev = r@;
                let matched = matches_query(song.name.as_str(), q);
                if matched {
                    r.push((pl.name.clone(), song.clone()));
                    proof {
                        assert(pairs_view(r@) =~= pairs_view(prev).push((pl.name@, song@)));
                    }
                }
                proof {
                    let sv = songs_view(pl.songs@);
                    assert(sv[j as int] == pl.songs@[j as int]@);
                    assert(sv.take(j + 1).drop_last() =~= sv.take(j as int));
                    assert(sv.take(j + 1).last() == sv[j as int]);
                    assert(spec_pl_results(pl.name@, sv.take(j + 1), q@) == spec_pl_results(
                        pl.name@,
                        sv.take(j as int),
                        q@,
                    ) + (if spec_matches(sv[j as int].name, q@) {
                        seq![(pl.name@, sv[j as int])]
                    } else {
                        Seq::<(Seq<char>, SongV)>::empty()
                    }));
                    assert(pairs_view(r@) =~= spec_search(self@.take(i as int), q@)
                        + spec_pl_results(pl.name@, sv.take(j + 1), q@));
                }
                j = j + 1;
            }
            proof {
                let sv = songs_view(pl.songs@);
                assert(sv.take(m as int) =~= sv);
                assert(self@.take(i + 1).drop_last() =~= self@.take(i as int));
                assert(self@.take(i + 1).last() == self@[i as int]);
                assert(pairs_view(r@) =~= spec_search(self@.take(i + 1), q@));
            }
            i = i + 1;
        }
        proof {
            assert(self@.take(n as int) =~= self@);
        }
        r
    }

    /// The file path of the first song named `song_name` inside the playlist
    /// named `playlist_name`; `PlaylistNotFound` or `SongNotFound` otherwise.
    pub fn resolve_playable(&self, playlist_name: &str, song_name: &str) -> (r: Result<
        String,
        LibError,
    >)
        requires
            self.wf(),
        ensures
            match r {
                Ok(path) => has_pl(self@, playlist_name@) && first_song_path(
                    self@[pl_index(self@, playlist_name@)].songs,
                    song_name@,
                ) == Some(path@),
                Err(e) => if e == LibError::PlaylistNotFound {
                    !has_pl(self@, playlist_name@)
                } else {
                    e == LibError::SongNotFound && has_pl(self@, playlist_name@)
                        && first_song_path(
                        self@[pl_index(self@, playlist_name@)].songs,
                        song_name@,
                    ) is None
                },
            },
    {
        let found = self.find_playlist(playlist_name);
        match found {
            Some(i) => {
                proof {
                    let k = pl_index(self@, playlist_name@);
                    assert(has_pl(self@, playlist_name@));
                    assert(0 <= k < self@.len() && self@[k].name == playlist_name@);
                    if k != i {
                        assert(self@[k].name == self@[i as int].name);
                        assert(false);
                    }
                }
                let pl = &self.playlists[i];
                let ghost sv = songs_view(pl.songs@);
                let m = pl.songs.len();
                proof {
                    assert(sv.skip(0) =~= sv);
                }
                let mut j: usize = 0;
                while j < m
                    invariant
                        pl == &self.playlists[i as int],
                        i < self@.len(),
                        has_pl(self@, playlist_name@),
                        pl_index(self@, playlist_name@) == i,
                        self@[i as int].songs == sv,
                        sv == songs_view(pl.songs@),
                        m == pl.songs@.len(),
                        j <= m,
                        first_song_path(sv, song_name@) == first_song_path(
                            sv.skip(j as int),
                            song_name@,
                        ),
                    decreases m - j,
                {
                    if str_eq(pl.songs[j].name.as_str(), song_name) {
                        proof {
                            assert(sv.skip(j as int)[0] == sv[j as int]);
                            assert(sv[j as int] == pl.songs@[j as int]@);
                            assert(sv[j as int].name == song_name@);
                            assert(first_song_path(sv.skip(j as int), song_name@) == Some(
                                sv[j as int].file_path,
                            ));
                            assert(pl_index(self@, playlist_name@) == i);
                            assert(self@[i as int].songs == sv);
                        }
                        return Ok(pl.songs[j].file_path.clone());
                    }
                    proof {
                        assert(sv.skip(j as int).drop_first() =~= sv.skip(j + 1));
                        assert(sv.skip(j as int)[0] == sv[j as int]);
                    }
                    j = j + 1;
                }
                proof {
                    assert(sv.skip(m as int) =~= Seq::<SongV>::empty());
                    assert(first_song_path(sv, song_name@) is None);
                }
                Err(LibError::SongNotFound)
            },
            None => Err(LibError::PlaylistNotFound),
        }
    }
}

/// The error taxonomy for every operation of this library.
#[derive(Debug, PartialEq, Eq)]
pub enum LibError {
    /// The persisted document exists but cannot be parsed.
    CorruptStore,
    /// Writing the persisted document failed.
    Persistence,
    /// The external download tool failed; the payload is its error detail.
    AcquisitionFailure(String),
    /// A lookup named a playlist the library does not have.
    PlaylistNotFound,
    /// A lookup named a song its playlist does not have.
    SongNotFound,
    /// A malformed source reference or selection, rejected before any effect.
    InvalidInput,
}

} // verus!
