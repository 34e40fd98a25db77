//! The persisted document format for the library: a structured, human-readable
//! text of the shape
//! `{"playlists":{<name>:{"name":<string>,"songs":[{"name":<string>,"file_path":<string>},...]},...}}`,
//! with `"` and `\` escaped inside strings. The writer and the parser are both
//! verified against the same grammar, and parsing a written document is proved
//! to give back the library it came from.

use vstd::prelude::*;
use vstd::string::StringExecFns;
use vstd::string::StrSliceExecFns;
use crate::catalog::{Library, Playlist, Song, SongV, PlaylistV, LibError, lib_wf, songs_view, check_distinct};
use crate::text::{push_char, str_chars, str_eq};

verus! {

// ---------------------------------------------------------------------------
// Writing: the document of a library value.
// ---------------------------------------------------------------------------

/// A character as it stands inside a quoted string: `"` and `\` get a
/// backslash before them, every other character stands as itself.
pub open spec fn esc_char(c: char) -> Seq<char> {
    if c == '"' || c == '\\' {
        seq!['\\', c]
    } else {
        seq![c]
    }
}

/// A whole character sequence, escaped.
pub open spec fn esc(s: Seq<char>) -> Seq<char>
    decreases s.len(),
{
    if s.len() == 0 {
        Seq::empty()
    } else {
        esc_char(s[0]) + esc(s.drop_first())
    }
}

/// A quoted, escaped string token.
pub open spec fn ser_str(s: Seq<char>) -> Seq<char> {
    seq!['"'] + esc(s) + seq!['"']
}

/// One song as an object with its two fields.
pub open spec fn ser_song(s: SongV) -> Seq<char> {
    "{\"name\":"@ + ser_str(s.name) + ",\"file_path\":"@ + ser_str(s.file_path) + "}"@
}

/// The songs after the first one, each behind a comma.
pub open spec fn ser_songs_rest(ss: Seq<SongV>) -> Seq<char>
    decreases ss.len(),
{
    if ss.len() == 0 {
        Seq::empty()
    } else {
        ","@ + ser_song(ss[0]) + ser_songs_rest(ss.drop_first())
    }
}

/// A song sequence as an array.
pub open spec fn ser_songs(ss: Seq<SongV>) -> Seq<char> {
    if ss.len() == 0 {
        "[]"@
    } else {
        "["@ + ser_song(ss[0]) + ser_songs_rest(ss.drop_first()) + "]"@
    }
}

/// One playlist as a keyed object entry; the key repeats the playlist name.
pub open spec fn ser_pl(p: PlaylistV) -> Seq<char> {
    ser_str(p.name) + ":{\"name\":"@ + ser_str(p.name) + ",\"songs\":"@ + ser_songs(p.songs)
        + "}"@
}

/// The playlists after the first one, each behind a comma.
pub open spec fn ser_pls_rest(l: Seq<PlaylistV>) -> Seq<char>
    decreases l.len(),
{
    if l.len() == 0 {
        Seq::empty()
    } else {
        ","@ + ser_pl(l[0]) + ser_pls_rest(l.drop_first())
    }
}

/// The playlist mapping as an object.
pub open spec fn ser_pls(l: Seq<PlaylistV>) -> Seq<char> {
    if l.len() == 0 {
        "{}"@
    } else {
        "{"@ + ser_pl(l[0]) + ser_pls_rest(l.drop_first()) + "}"@
    }
}

/// The whole persisted document of a library value.
pub open spec fn ser_doc(l: Seq<PlaylistV>) -> Seq<char> {
    "{\"playlists\":"@ + ser_pls(l) + "}"@
}

/// Writes `s` as a quoted, escaped string token onto `out`.
fn write_str(out: &mut String, s: &str)
    ensures
        final(out)@ == old(out)@ + ser_str(s@),
{
    push_char(out, '"');
    let n = s.unicode_len();
    proof {
        assert(s@.skip(0) =~= s@);
        assert(out@ + esc(s@) + seq!['"'] =~= old(out)@ + ser_str(s@));
    }
    let mut i: usize = 0;
    while i < n
        invariant
            n == s@.len(),
            i <= n,
            out@ + esc(s@.skip(i as int)) + seq!['"'] == old(out)@ + ser_str(s@),
        decreases n - i,
    {
        let c = s.get_char(i);
        proof {
            assert(s@.skip(i as int)[0] == s@[i as int]);
            assert(s@.skip(i as int).drop_first() =~= s@.skip(i + 1));
            assert(esc(s@.skip(i as int)) == esc_char(c) + esc(s@.skip(i + 1)));
        }
        if c == '"' || c == '\\' {
            push_char(out, '\\');
            push_char(out, c);
            proof {
                assert(out@ + esc(s@.skip(i + 1)) + seq!['"'] =~= old(out)@ + ser_str(s@));
            }
        } else {
            push_char(out, c);
            proof {
                assert(out@ + esc(s@.skip(i + 1)) + seq!['"'] =~= old(out)@ + ser_str(s@));
            }
        }
        i = i + 1;
    }
    proof {
        assert(s@.skip(n as int) =~= Seq::<char>::empty());
        assert(esc(Seq::<char>::empty()) == Seq::<char>::empty());
    }
    push_char(out, '"');
    proof {
        assert(final(out)@ =~= old(out)@ + ser_str(s@));
    }
}

/// Writes one song object onto `out`.
fn write_song(out: &mut String, song: &Song)
    ensures
        final(out)@ == old(out)@ + ser_song(song@),
{
    out.append("{\"name\":");
    write_str(out, song.name.as_str());
    out.append(",\"file_path\":");
    write_str(out, song.file_path.as_str());
    out.append("}");
    proof {
        assert(final(out)@ =~= old(out)@ + ser_song(song@));
    }
}

/// Writes a song array onto `out`.
fn write_songs(out: &mut String, songs: &Vec<Song>)
    ensures
        final(out)@ == old(out)@ + ser_songs(songs_view(songs@)),
{
    let ghost sv = songs_view(songs@);
    let n = songs.len();
    if n == 0 {
        out.append("[]");
        return ;
    }
    out.append("[");
    write_song(out, &songs[0]);
    proof {
        reveal_strlit("]");
        assert(sv[0] == songs@[0]@);
        assert("]"@ =~= seq![']']);
        assert(out@ + ser_songs_rest(sv.skip(1)) + seq![']'] =~= old(out)@ + ser_songs(sv));
    }
    let mut i: usize = 1;
    while i < n
        invariant
            1 <= i <= n,
            n == songs@.len(),
            sv == songs_view(songs@),
            out@ + ser_songs_rest(sv.skip(i as int)) + seq![']'] == old(out)@ + ser_songs(sv),
        decreases n - i,
    {
        out.append(",");
        write_song(out, &songs[i]);
        proof {
            assert(sv.skip(i as int)[0] == sv[i as int]);
            assert(sv[i as int] == songs@[i as int]@);
            assert(sv.skip(i as int).drop_first() =~= sv.skip(i + 1));
            assert(ser_songs_rest(sv.skip(i as int)) == ","@ + ser_song(sv[i as int])
                + ser_songs_rest(sv.skip(i + 1)));
            assert(out@ + ser_songs_rest(sv.skip(i + 1)) + seq![']'] =~= old(out)@ + ser_songs(
                sv,
            ));
        }
        i = i + 1;
    }
    proof {
        assert(sv.skip(n as int) =~= Seq::<SongV>::empty());
        assert(ser_songs_rest(Seq::<SongV>::empty()) == Seq::<char>::empty());
    }
    out.append("]");
    proof {
        reveal_strlit("]");
        assert(final(out)@ =~= old(out)@ + ser_songs(sv));
    }
}

/// Writes one playlist entry onto `out`.
fn write_pl(out: &mut String, pl: &Playlist)
    ensures
        final(out)@ == old(out)@ + ser_pl(pl@),
{
    write_str(out, pl.name.as_str());
    out.append(":{\"name\":");
    write_str(out, pl.name.as_str());
    out.append(",\"songs\":");
    write_songs(out, &pl.songs);
    out.append("}");
    proof {
        assert(final(out)@ =~= old(out)@ + ser_pl(pl@));
    }
}

/// The persisted document of `lib`, as the grammar above writes it.
pub fn save_string(lib: &Library) -> (r: String)
    ensures
        r@ == ser_doc(lib@),
{
    let ghost lv = lib@;
    let mut out = String::new();
    out.append("{\"playlists\":");
    let n = lib.playlists.len();
    if n == 0 {
        out.append("{}");
        out.append("}");
        proof {
            assert(out@ =~= ser_doc(lv));
        }
        return out;
    }
    out.append("{");
    write_pl(&mut out, &lib.playlists[0]);
    proof {
        reveal_strlit("}");
        assert(lv[0] == lib.playlists@[0]@);
        assert("}"@ =~= seq!['}']);
        assert(out@ + ser_pls_rest(lv.skip(1)) + seq!['}'] + seq!['}'] =~= "{\"playlists\":"@
            + ser_pls(lv) + "}"@);
    }
    let mut i: usize = 1;
    while i < n
        invariant
            1 <= i <= n,
            n == lib.playlists@.len(),
            lv == lib@,
            out@ + ser_pls_rest(lv.skip(i as int)) + seq!['}'] + seq!['}'] == "{\"playlists\":"@
                + ser_pls(lv) + "}"@,
        decreases n - i,
    {
        out.append(",");
        write_pl(&mut out, &lib.playlists[i]);
        proof {
            assert(lv.skip(i as int)[0] == lv[i as int]);
            assert(lv[i as int] == lib.playlists@[i as int]@);
            assert(lv.skip(i as int).drop_first() =~= lv.skip(i + 1));
            assert(ser_pls_rest(lv.skip(i as int)) == ","@ + ser_pl(lv[i as int]) + ser_pls_rest(
                lv.skip(i + 1),
            ));
            assert(out@ + ser_pls_rest(lv.skip(i + 1)) + seq!['}'] + seq!['}'] =~= "{\"playlists\":"@
                + ser_pls(lv) + "}"@);
        }
        i = i + 1;
    }
    proof {
        assert(lv.skip(n as int) =~= Seq::<PlaylistV>::empty());
        assert(ser_pls_rest(Seq::<PlaylistV>::empty()) == Seq::<char>::empty());
    }
    out.append("}");
    out.append("}");
    proof {
        reveal_strlit("}");
        assert(out@ =~= ser_doc(lv));
    }
    out
}

// ---------------------------------------------------------------------------
// Parsing: the grammar, as recursive descent over the character sequence.
// Each function yields the parsed value and the unconsumed remainder, or
// `None` when the text does not fit the grammar.
// ---------------------------------------------------------------------------

/// `p` is a prefix of `s`.
pub open spec fn starts_with(s: Seq<char>, p: Seq<char>) -> bool {
    p.len() <= s.len() && s.take(p.len() as int) == p
}

/// Consumes the exact token `p` from the front of `s`.
pub open spec fn p_lit(s: Seq<char>, p: Seq<char>) -> Option<Seq<char>> {
    if starts_with(s, p) {
        Some(s.skip(p.len() as int))
    } else {
        None
    }
}

/// Consumes a string body up to its closing quote, undoing the escapes.
pub open spec fn p_str_body(s: Seq<char>) -> Option<(Seq<char>, Seq<char>)>
    decreases s.len(),
{
    if s.len() == 0 {
        None
    } else if s[0] == '"' {
        Some((Seq::empty(), s.drop_first()))
    } else if s[0] == '\\' {
        if s.len() >= 2 && (s[1] == '"' || s[1] == '\\') {
            match p_str_body(s.skip(2)) {
                Some((t, r)) => Some((seq![s[1]] + t, r)),
                None => None,
            }
        } else {
            None
        }
    } else {
        match p_str_body(s.drop_first()) {
            Some((t, r)) => Some((seq![s[0]] + t, r)),
            None => None,
        }
    }
}

/// Consumes a quoted string token.
pub open spec fn p_str(s: Seq<char>) -> Option<(Seq<char>, Seq<char>)> {
    if s.len() > 0 && s[0] == '"' {
        p_str_body(s.drop_first())
    } else {
        None
    }
}

/// Consumes one song object.
pub open spec fn p_song(s: Seq<char>) -> Option<(SongV, Seq<char>)> {
    match p_lit(s, "{\"name\":"@) {
        None => None,
        Some(s1) => match p_str(s1) {
            None => None,
            Some((name, s2)) => match p_lit(s2, ",\"file_path\":"@) {
                None => None,
                Some(s3) => match p_str(s3) {
                    None => None,
                    Some((path, s4)) => match p_lit(s4, "}"@) {
                        None => None,
                        Some(s5) => Some((SongV { name, file_path: path }, s5)),
                    },
                },
            },
        },
    }
}

/// Consumes `,song` repetitions up to and including the closing `]`.
pub open spec fn p_songs_rest(s: Seq<char>) -> Option<(Seq<SongV>, Seq<char>)>
    decreases s.len(),
{
    if s.len() > 0 && s[0] == ']' {
        Some((Seq::empty(), s.drop_first()))
    } else if s.len() > 0 && s[0] == ',' {
        match p_song(s.drop_first()) {
            None => None,
            Some((v, r)) => if r.len() < s.len() {
                match p_songs_rest(r) {
                    None => None,
                    Some((vs, r2)) => Some((seq![v] + vs, r2)),
                }
            } else {
                None
            },
        }
    } else {
        None
    }
}

/// Consumes a whole song array, brackets included.
pub open spec fn p_songs(s: Seq<char>) -> Option<(Seq<SongV>, Seq<char>)> {
    if s.len() > 0 && s[0] == '[' {
        if s.len() > 1 && s[1] == ']' {
            Some((Seq::empty(), s.skip(2)))
        } else {
            match p_song(s.drop_first()) {
                None => None,
                Some((v, r)) => match p_songs_rest(r) {
                    None => None,
                    Some((vs, r2)) => Some((seq![v] + vs, r2)),
                },
            }
        }
    } else {
        None
    }
}

/// Consumes one playlist entry; the key must repeat the inner name.
pub open spec fn p_pl(s: Seq<char>) -> Option<(PlaylistV, Seq<char>)> {
    match p_str(s) {
        None => None,
        Some((key, s1)) => match p_lit(s1, ":{\"name\":"@) {
            None => None,
            Some(s2) => match p_str(s2) {
                None => None,
                Some((nm, s3)) => if nm == key {
                    match p_lit(s3, ",\"songs\":"@) {
                        None => None,
                        Some(s4) => match p_songs(s4) {
                            None => None,
                            Some((ss, s5)) => match p_lit(s5, "}"@) {
                                None => None,
                                Some(s6) => Some((PlaylistV { name: key, songs: ss }, s6)),
                            },
                        },
                    }
                } else {
                    None
                },
            },
        },
    }
}

/// Consumes `,entry` repetitions up to and including the closing `}`.
pub open spec fn p_pls_rest(s: Seq<char>) -> Option<(Seq<PlaylistV>, Seq<char>)>
    decreases s.len(),
{
    if s.len() > 0 && s[0] == '}' {
        Some((Seq::empty(), s.drop_first()))
    } else if s.len() > 0 && s[0] == ',' {
        match p_pl(s.drop_first()) {
            None => None,
            Some((v, r)) => if r.len() < s.len() {
                match p_pls_rest(r) {
                    None => None,
                    Some((vs, r2)) => Some((seq![v] + vs, r2)),
                }
            } else {
                None
            },
        }
    } else {
        None
    }
}

/// Consumes a whole playlist object, braces included.
pub open spec fn p_pls(s: Seq<char>) -> Option<(Seq<PlaylistV>, Seq<char>)> {
    if s.len() > 0 && s[0] == '{' {
        if s.len() > 1 && s[1] == '}' {
            Some((Seq::empty(), s.skip(2)))
        } else {
            match p_pl(s.drop_first()) {
                None => None,
                Some((v, r)) => match p_pls_rest(r) {
                    None => None,
                    Some((vs, r2)) => Some((seq![v] + vs, r2)),
                },
            }
        }
    } else {
        None
    }
}

/// A whole document: the playlist object behind its field name, the whole
/// text consumed, and the playlist names pairwise distinct.
pub open spec fn p_doc(s: Seq<char>) -> Option<Seq<PlaylistV>> {
    match p_lit(s, "{\"playlists\":"@) {
        None => None,
        Some(s1) => match p_pls(s1) {
            None => None,
            Some((l, r)) => match p_lit(r, "}"@) {
                None => None,
                Some(r2) => if r2.len() == 0 && lib_wf(l) {
                    Some(l)
                } else {
                    None
                },
            },
        },
    }
}

// ---------------------------------------------------------------------------
// Reading: the executable parser, each function proved to compute exactly
// what its grammar function says.
// ---------------------------------------------------------------------------

/// Consumes the token `lit` at `pos`, yielding the position after it.
pub(crate) fn e_lit(v: &Vec<char>, pos: usize, lit: &str) -> (r: Option<usize>)
    requires
        pos <= v@.len(),
    ensures
        match r {
            Some(p2) => pos <= p2 <= v@.len() && p_lit(v@.skip(pos as int), lit@) == Some(
                v@.skip(p2 as int),
            ),
            None => p_lit(v@.skip(pos as int), lit@) is None,
        },
{
    let n = lit.unicode_len();
    let vlen = v.len();
    if vlen - pos < n {
        return None;
    }
    let mut k: usize = 0;
    while k < n
        invariant
            pos + n <= v@.len(),
            v@.len() == vlen,
            n == lit@.len(),
            k <= n,
            forall|t: int| 0 <= t < k ==> v@[pos + t] == lit@[t],
        decreases n - k,
    {
        if v[pos + k] != lit.get_char(k) {
            proof {
                assert(v@.skip(pos as int)[k as int] == v@[pos + k]);
                if starts_with(v@.skip(pos as int), lit@) {
                    assert(v@.skip(pos as int).take(n as int)[k as int] == v@[pos + k]);
                    assert(false);
                }
            }
            return None;
        }
        k = k + 1;
    }
    proof {
        assert(v@.skip(pos as int).take(n as int) =~= lit@);
        assert(v@.skip(pos as int).skip(n as int) =~= v@.skip(pos + n));
    }
    Some(pos + n)
}

/// Consumes a quoted string token at `pos`, undoing the escapes.
fn e_str(v: &Vec<char>, pos: usize) -> (r: Option<(String, usize)>)
    requires
        pos <= v@.len(),
    ensures
        match r {
            Some(t) => pos < t.1 <= v@.len() && p_str(v@.skip(pos as int)) == Some((
                t.0@,
                v@.skip(t.1 as int),
            )),
            None => p_str(v@.skip(pos as int)) is None,
        },
{
    let vlen = v.len();
    if pos == vlen || v[pos] != '"' {
        return None;
    }
    proof {
        assert(v@.skip(pos as int)[0] == v@[pos as int]);
        assert(v@.skip(pos as int).drop_first() =~= v@.skip(pos + 1));
    }
    let mut acc = String::new();
    let mut cur: usize = pos + 1;
    loop
        invariant
            pos < cur <= v@.len(),
            v@.len() == vlen,
            p_str(v@.skip(pos as int)) == (match p_str_body(v@.skip(cur as int)) {
                Some((t, r)) => Some((acc@ + t, r)),
                None => None::<(Seq<char>, Seq<char>)>,
            }),
        decreases v@.len() - cur,
    {
        if cur == vlen {
            proof {
                assert(v@.skip(cur as int).len() == 0);
            }
            return None;
        }
        let c = v[cur];
        proof {
            assert(v@.skip(cur as int)[0] == c);
            assert(v@.skip(cur as int).drop_first() =~= v@.skip(cur + 1));
        }
        if c == '"' {
            proof {
                assert(acc@ + Seq::<char>::empty() =~= acc@);
            }
            return Some((acc, cur + 1));
        } else if c == '\\' {
            if cur + 1 == vlen {
                return None;
            }
            let c2 = v[cur + 1];
            proof {
                assert(v@.skip(cur as int)[1] == c2);
                assert(v@.skip(cur as int).skip(2) =~= v@.skip(cur + 2));
            }
            if c2 == '"' || c2 == '\\' {
                let ghost prev = acc@;
                push_char(&mut acc, c2);
                proof {
                    match p_str_body(v@.skip(cur + 2)) {
                        Some((t, r)) => {
                            assert(prev.push(c2) + t =~= prev + (seq![c2] + t));
                        },
                        None => {},
                    }
                }
                cur = cur + 2;
            } else {
                return None;
            }
        } else {
            let ghost prev = acc@;
            push_char(&mut acc, c);
            proof {
                match p_str_body(v@.skip(cur + 1)) {
                    Some((t, r)) => {
                        assert(prev.push(c) + t =~= prev + (seq![c] + t));
                    },
                    None => {},
                }
            }
            cur = cur + 1;
        }
    }
}

/// Consumes one song object at `pos`.
fn e_song(v: &Vec<char>, pos: usize) -> (r: Option<(Song, usize)>)
    requires
        pos <= v@.len(),
    ensures
        match r {
            Some(t) => pos < t.1 <= v@.len() && p_song(v@.skip(pos as int)) == Some((
                t.0@,
                v@.skip(t.1 as int),
            )),
            None => p_song(v@.skip(pos as int)) is None,
        },
{
    let p1 = match e_lit(v, pos, "{\"name\":") {
        Some(p) => p,
        None => {
            return None;
        },
    };
    let (name, p2) = match e_str(v, p1) {
        Some(t) => t,
        None => {
            return None;
        },
    };
    let p3 = match e_lit(v, p2, ",\"file_path\":") {
        Some(p) => p,
        None => {
            return None;
        },
    };
    let (path, p4) = match e_str(v, p3) {
        Some(t) => t,
        None => {
            return None;
        },
    };
    let p5 = match e_lit(v, p4, "}") {
        Some(p) => p,
        None => {
            return None;
        },
    };
    Some((Song { name, file_path: path }, p5))
}

/// Consumes a whole song array at `pos`.
fn e_songs(v: &Vec<char>, pos: usize) -> (r: Option<(Vec<Song>, usize)>)
    requires
        pos <= v@.len(),
    ensures
        match r {
            Some(t) => pos < t.1 <= v@.len() && p_songs(v@.skip(pos as int)) == Some((
                songs_view(t.0@),
                v@.skip(t.1 as int),
            )),
            None => p_songs(v@.skip(pos as int)) is None,
        },
{
    let vlen = v.len();
    if pos == vlen || v[pos] != '[' {
        proof {
            if pos < vlen {
                assert(v@.skip(pos as int)[0] == v@[pos as int]);
            }
        }
        return None;
    }
    proof {
        assert(v@.skip(pos as int)[0] == v@[pos as int]);
        assert(v@.skip(pos as int).drop_first() =~= v@.skip(pos + 1));
    }
    if pos + 1 < vlen && v[pos + 1] == ']' {
        let out: Vec<Song> = Vec::new();
        proof {
            assert(v@.skip(pos as int)[1] == v@[pos + 1]);
            assert(v@.skip(pos as int).skip(2) =~= v@.skip(pos + 2));
            assert(songs_view(out@) =~= Seq::<SongV>::empty());
        }
        return Some((out, pos + 2));
    }
    proof {
        if pos + 1 < vlen {
            assert(v@.skip(pos as int)[1] == v@[pos + 1]);
        }
    }
    let (s0, first_end) = match e_song(v, pos + 1) {
        Some(t) => t,
        None => {
            return None;
        },
    };
    let mut out: Vec<Song> = Vec::new();
    let ghost sv0 = s0@;
    out.push(s0);
    let mut cur = first_end;
    proof {
        assert(songs_view(out@) =~= seq![sv0]);
    }
    loop
        invariant
            pos < cur <= v@.len(),
            v@.len() == vlen,
            p_songs(v@.skip(pos as int)) == (match p_songs_rest(v@.skip(cur as int)) {
                Some((vs, r)) => Some((songs_view(out@) + vs, r)),
                None => None::<(Seq<SongV>, Seq<char>)>,
            }),
        decreases v@.len() - cur,
    {
        if cur == vlen {
            proof {
                assert(v@.skip(cur as int).len() == 0);
            }
            return None;
        }
        let c = v[cur];
        proof {
            assert(v@.skip(cur as int)[0] == c);
            assert(v@.skip(cur as int).drop_first() =~= v@.skip(cur + 1));
        }
        if c == ']' {
            proof {
                assert(songs_view(out@) + Seq::<SongV>::empty() =~= songs_view(out@));
            }
            return Some((out, cur + 1));
        }
        if c != ',' {
            return None;
        }
        let (sn, nxt) = match e_song(v, cur + 1) {
            Some(t) => t,
            None => {
                return None;
            },
        };
        proof {
            assert(v@.skip(nxt as int).len() < v@.skip(cur as int).len());
        }
        let ghost prev = out@;
        let ghost snv = sn@;
        out.push(sn);
        proof {
            match p_songs_rest(v@.skip(nxt as int)) {
                Some((vs, r)) => {
                    assert(songs_view(prev.push(sn)) =~= songs_view(prev).push(snv));
                    assert(songs_view(prev).push(snv) + vs =~= songs_view(prev) + (seq![snv]
                        + vs));
                },
                None => {},
            }
        }
        cur = nxt;
    }
}

/// Consumes one playlist entry at `pos`; the key must repeat the inner name.
fn e_pl(v: &Vec<char>, pos: usize) -> (r: Option<(Playlist, usize)>)
    requires
        pos <= v@.len(),
    ensures
        match r {
            Some(t) => pos < t.1 <= v@.len() && p_pl(v@.skip(pos as int)) == Some((
                t.0@,
                v@.skip(t.1 as int),
            )),
            None => p_pl(v@.skip(pos as int)) is None,
        },
{
    let (key, p1) = match e_str(v, pos) {
        Some(t) => t,
        None => {
            return None;
        },
    };
    let p2 = match e_lit(v, p1, ":{\"name\":") {
        Some(p) => p,
        None => {
            return None;
        },
    };
    let (nm, p3) = match e_str(v, p2) {
        Some(t) => t,
        None => {
            return None;
        },
    };
    if !str_eq(nm.as_str(), key.as_str()) {
        return None;
    }
    let p4 = match e_lit(v, p3, ",\"songs\":") {
        Some(p) => p,
        None => {
            return None;
        },
    };
    let (songs, p5) = match e_songs(v, p4) {
        Some(t) => t,
        None => {
            return None;
        },
    };
    let p6 = match e_lit(v, p5, "}") {
        Some(p) => p,
        None => {
            return None;
        },
    };
    Some((Playlist { name: key, songs }, p6))
}

/// Consumes the whole playlist object at `pos`.
fn e_pls(v: &Vec<char>, pos: usize) -> (r: Option<(Vec<Playlist>, usize)>)
    requires
        pos <= v@.len(),
    ensures
        match r {
            Some(t) => pos < t.1 <= v@.len() && p_pls(v@.skip(pos as int)) == Some((
                t.0@.map_values(|p: Playlist| p@),
                v@.skip(t.1 as int),
            )),
            None => p_pls(v@.skip(pos as int)) is None,
        },
{
    let vlen = v.len();
    if pos == vlen || v[pos] != '{' {
        proof {
            if pos < vlen {
                assert(v@.skip(pos as int)[0] == v@[pos as int]);
            }
        }
        return None;
    }
    proof {
        assert(v@.skip(pos as int)[0] == v@[pos as int]);
        assert(v@.skip(pos as int).drop_first() =~= v@.skip(pos + 1));
    }
    if pos + 1 < vlen && v[pos + 1] == '}' {
        let out: Vec<Playlist> = Vec::new();
        proof {
            assert(v@.skip(pos as int)[1] == v@[pos + 1]);
            assert(v@.skip(pos as int).skip(2) =~= v@.skip(pos + 2));
            assert(out@.map_values(|p: Playlist| p@) =~= Seq::<PlaylistV>::empty());
        }
        return Some((out, pos + 2));
    }
    proof {
        if pos + 1 < vlen {
            assert(v@.skip(pos as int)[1] == v@[pos + 1]);
        }
    }
    let (pl0, first_end) = match e_pl(v, pos + 1) {
        Some(t) => t,
        None => {
            return None;
        },
    };
    let mut out: Vec<Playlist> = Vec::new();
    let ghost pv0 = pl0@;
    out.push(pl0);
    let mut cur = first_end;
    proof {
        assert(out@.map_values(|p: Playlist| p@) =~= seq![pv0]);
    }
    loop
        invariant
            pos < cur <= v@.len(),
            v@.len() == vlen,
            p_pls(v@.skip(pos as int)) == (match p_pls_rest(v@.skip(cur as int)) {
                Some((vs, r)) => Some((out@.map_values(|p: Playlist| p@) + vs, r)),
                None => None::<(Seq<PlaylistV>, Seq<char>)>,
            }),
        decreases v@.len() - cur,
    {
        if cur == vlen {
            proof {
                assert(v@.skip(cur as int).len() == 0);
            }
            return None;
        }
        let c = v[cur];
        proof {
            assert(v@.skip(cur as int)[0] == c);
            assert(v@.skip(cur as int).drop_first() =~= v@.skip(cur + 1));
        }
        if c == '}' {
            proof {
                assert(out@.map_values(|p: Playlist| p@) + Seq::<PlaylistV>::empty()
                    =~= out@.map_values(|p: Playlist| p@));
            }
            return Some((out, cur + 1));
        }
        if c != ',' {
            return None;
        }
        let (pn, nxt) = match e_pl(v, cur + 1) {
            Some(t) => t,
            None => {
                return None;
            },
        };
        proof {
            assert(v@.skip(nxt as int).len() < v@.skip(cur as int).len());
        }
        let ghost prev = out@;
        let ghost pnv = pn@;
        out.push(pn);
        proof {
            match p_pls_rest(v@.skip(nxt as int)) {
                Some((vs, r)) => {
                    assert(prev.push(pn).map_values(|p: Playlist| p@) =~= prev.map_values(
                        |p: Playlist| p@,
                    ).push(pnv));
                    assert(prev.map_values(|p: Playlist| p@).push(pnv) + vs =~= prev.map_values(
                        |p: Playlist| p@,
                    ) + (seq![pnv] + vs));
                },
                None => {},
            }
        }
        cur = nxt;
    }
}

/// Reads a library back from its persisted document. Returns the library
/// exactly when the document fits the grammar, its playlist names are
/// pairwise distinct, and nothing trails it; `CorruptStore` otherwise.
pub fn load_string(doc: &str) -> (r: Result<Library, LibError>)
    ensures
        match r {
            Ok(lib) => p_doc(doc@) == Some(lib@) && lib.wf(),
            Err(e) => e == LibError::CorruptStore && p_doc(doc@) is None,
        },
{
    let v = str_chars(doc);
    proof {
        assert(v@.skip(0) =~= v@);
    }
    let p1 = match e_lit(&v, 0, "{\"playlists\":") {
        Some(p) => p,
        None => {
            return Err(LibError::CorruptStore);
        },
    };
    let (pls, p2) = match e_pls(&v, p1) {
        Some(t) => t,
        None => {
            return Err(LibError::CorruptStore);
        },
    };
    let p3 = match e_lit(&v, p2, "}") {
        Some(p) => p,
        None => {
            return Err(LibError::CorruptStore);
        },
    };
    if p3 != v.len() {
        proof {
            assert(v@.skip(p3 as int).len() != 0);
        }
        return Err(LibError::CorruptStore);
    }
    if !check_distinct(&pls) {
        return Err(LibError::CorruptStore);
    }
    let lib = Library { playlists: pls };
    proof {
        assert(v@.skip(p3 as int).len() == 0);
        assert(p_doc(doc@) == Some(lib@));
    }
    Ok(lib)
}

// ---------------------------------------------------------------------------
// Round trip: parsing a written document gives back the value it came from.
// ---------------------------------------------------------------------------

proof fn lemma_p_lit(p: Seq<char>, rest: Seq<char>)
    ensures
        p_lit(p + rest, p) == Some(rest),
{
    assert((p + rest).take(p.len() as int) =~= p);
    assert((p + rest).skip(p.len() as int) =~= rest);
}

proof fn lemma_str_body_rt(s: Seq<char>, rest: Seq<char>)
    ensures
        p_str_body(esc(s) + seq!['"'] + rest) == Some((s, rest)),
    decreases s.len(),
{
    let inp = esc(s) + seq!['"'] + rest;
    if s.len() == 0 {
        assert(esc(s) == Seq::<char>::empty());
        assert(inp =~= seq!['"'] + rest);
        assert(inp[0] == '"');
        assert(inp.drop_first() =~= rest);
    } else {
        let c = s[0];
        let s2 = s.drop_first();
        assert(esc(s) == esc_char(c) + esc(s2));
        lemma_str_body_rt(s2, rest);
        if c == '"' || c == '\\' {
            assert(esc(s)[0] == '\\');
            assert(esc(s)[1] == c);
            assert(inp[0] == '\\');
            assert(inp[1] == c);
            assert(inp.skip(2) =~= esc(s2) + seq!['"'] + rest);
            assert(seq![c] + s2 =~= s);
        } else {
            assert(esc(s)[0] == c);
            assert(inp[0] == c);
            assert(inp.drop_first() =~= esc(s2) + seq!['"'] + rest);
            assert(seq![c] + s2 =~= s);
        }
    }
}

proof fn lemma_str_rt(s: Seq<char>, rest: Seq<char>)
    ensures
        p_str(ser_str(s) + rest) == Some((s, rest)),
{
    let inp = ser_str(s) + rest;
    assert(inp[0] == '"');
    assert(inp.drop_first() =~= esc(s) + seq!['"'] + rest);
    lemma_str_body_rt(s, rest);
}

proof fn lemma_song_rt(v: SongV, rest: Seq<char>)
    ensures
        p_song(ser_song(v) + rest) == Some((v, rest)),
{
    let l1 = "{\"name\":"@;
    let l2 = ",\"file_path\":"@;
    let l3 = "}"@;
    let inp = ser_song(v) + rest;
    assert(inp =~= l1 + (ser_str(v.name) + (l2 + (ser_str(v.file_path) + (l3 + rest)))));
    lemma_p_lit(l1, ser_str(v.name) + (l2 + (ser_str(v.file_path) + (l3 + rest))));
    lemma_str_rt(v.name, l2 + (ser_str(v.file_path) + (l3 + rest)));
    lemma_p_lit(l2, ser_str(v.file_path) + (l3 + rest));
    lemma_str_rt(v.file_path, l3 + rest);
    lemma_p_lit(l3, rest);
}

proof fn lemma_songs_rest_rt(ss: Seq<SongV>, rest: Seq<char>)
    ensures
        p_songs_rest(ser_songs_rest(ss) + seq![']'] + rest) == Some((ss, rest)),
    decreases ss.len(),
{
    let inp = ser_songs_rest(ss) + seq![']'] + rest;
    if ss.len() == 0 {
        assert(inp =~= seq![']'] + rest);
        assert(inp[0] == ']');
        assert(inp.drop_first() =~= rest);
    } else {
        reveal_strlit(",");
        let v = ss[0];
        let tail = ss.drop_first();
        assert(ser_songs_rest(ss) == ","@ + ser_song(v) + ser_songs_rest(tail));
        assert(","@[0] == ',');
        assert(inp[0] == ',');
        assert(inp.drop_first() =~= ser_song(v) + (ser_songs_rest(tail) + seq![']'] + rest));
        lemma_song_rt(v, ser_songs_rest(tail) + seq![']'] + rest);
        lemma_songs_rest_rt(tail, rest);
        assert(seq![v] + tail =~= ss);
    }
}

proof fn lemma_songs_rt(ss: Seq<SongV>, rest: Seq<char>)
    ensures
        p_songs(ser_songs(ss) + rest) == Some((ss, rest)),
{
    let inp = ser_songs(ss) + rest;
    if ss.len() == 0 {
        reveal_strlit("[]");
        assert(inp =~= "[]"@ + rest);
        assert("[]"@[0] == '[' && "[]"@[1] == ']');
        assert(inp[0] == '[' && inp[1] == ']');
        assert(inp.skip(2) =~= rest);
    } else {
        reveal_strlit("[");
        reveal_strlit("]");
        reveal_strlit("{\"name\":");
        assert("]"@ =~= seq![']']);
        let v = ss[0];
        let tail = ss.drop_first();
        assert(inp =~= "["@ + (ser_song(v) + (ser_songs_rest(tail) + seq![']'] + rest)));
        assert("["@[0] == '[');
        assert(inp[0] == '[');
        assert(ser_song(v)[0] == '{');
        assert(inp[1] == '{');
        assert(inp.drop_first() =~= ser_song(v) + (ser_songs_rest(tail) + seq![']'] + rest));
        lemma_song_rt(v, ser_songs_rest(tail) + seq![']'] + rest);
        lemma_songs_rest_rt(tail, rest);
        assert(seq![v] + tail =~= ss);
    }
}

proof fn lemma_pl_rt(p: PlaylistV, rest: Seq<char>)
    ensures
        p_pl(ser_pl(p) + rest) == Some((p, rest)),
{
    let l2 = ":{\"name\":"@;
    let l4 = ",\"songs\":"@;
    let l5 = "}"@;
    let inp = ser_pl(p) + rest;
    assert(inp =~= ser_str(p.name) + (l2 + (ser_str(p.name) + (l4 + (ser_songs(p.songs) + (l5
        + rest))))));
    lemma_str_rt(p.name, l2 + (ser_str(p.name) + (l4 + (ser_songs(p.songs) + (l5 + rest)))));
    lemma_p_lit(l2, ser_str(p.name) + (l4 + (ser_songs(p.songs) + (l5 + rest))));
    lemma_str_rt(p.name, l4 + (ser_songs(p.songs) + (l5 + rest)));
    lemma_p_lit(l4, ser_songs(p.songs) + (l5 + rest));
    lemma_songs_rt(p.songs, l5 + rest);
    lemma_p_lit(l5, rest);
}

proof fn lemma_pls_rest_rt(l: Seq<PlaylistV>, rest: Seq<char>)
    ensures
        p_pls_rest(ser_pls_rest(l) + seq!['}'] + rest) == Some((l, rest)),
    decreases l.len(),
{
    let inp = ser_pls_rest(l) + seq!['}'] + rest;
    if l.len() == 0 {
        assert(inp =~= seq!['}'] + rest);
        assert(inp[0] == '}');
        assert(inp.drop_first() =~= rest);
    } else {
        reveal_strlit(",");
        let v = l[0];
        let tail = l.drop_first();
        assert(ser_pls_rest(l) == ","@ + ser_pl(v) + ser_pls_rest(tail));
        assert(","@[0] == ',');
        assert(inp[0] == ',');
        assert(inp.drop_first() =~= ser_pl(v) + (ser_pls_rest(tail) + seq!['}'] + rest));
        lemma_pl_rt(v, ser_pls_rest(tail) + seq!['}'] + rest);
        lemma_pls_rest_rt(tail, rest);
        assert(seq![v] + tail =~= l);
    }
}

#[verifier::rlimit(40)]
proof fn lemma_pls_rt(l: Seq<PlaylistV>, rest: Seq<char>)
    ensures
        p_pls(ser_pls(l) + rest) == Some((l, rest)),
{
    let inp = ser_pls(l) + rest;
    if l.len() == 0 {
        reveal_strlit("{}");
        assert(inp =~= "{}"@ + rest);
        assert("{}"@[0] == '{' && "{}"@[1] == '}');
        assert(inp[0] == '{' && inp[1] == '}');
        assert(inp.skip(2) =~= rest);
    } else {
        reveal_strlit("{");
        reveal_strlit("}");
        assert("}"@ =~= seq!['}']);
        let v = l[0];
        let tail = l.drop_first();
        assert(inp =~= "{"@ + (ser_pl(v) + (ser_pls_rest(tail) + seq!['}'] + rest)));
        assert("{"@[0] == '{');
        assert(inp[0] == '{');
        assert(ser_str(v.name)[0] == '"');
        assert(ser_pl(v)[0] == '"');
        assert(inp[1] == '"');
        assert(inp.drop_first() =~= ser_pl(v) + (ser_pls_rest(tail) + seq!['}'] + rest));
        lemma_pl_rt(v, ser_pls_rest(tail) + seq!['}'] + rest);
        lemma_pls_rest_rt(tail, rest);
        assert(seq![v] + tail =~= l);
    }
}

/// Round trip: parsing the document written for any well-formed library
/// value gives back exactly that value — keys, song order, and field values
/// all preserved.
pub proof fn lemma_round_trip(l: Seq<PlaylistV>)
    requires
        lib_wf(l),
    ensures
        p_doc(ser_doc(l)) == Some(l),
{
    let l1 = "{\"playlists\":"@;
    let l5 = "}"@;
    let inp = ser_doc(l);
    assert(inp =~= l1 + (ser_pls(l) + l5));
    lemma_p_lit(l1, ser_pls(l) + l5);
    assert(l5 =~= l5 + Seq::<char>::empty());
    lemma_pls_rt(l, l5);
    lemma_p_lit(l5, Seq::<char>::empty());
}

/// Idempotence of load and save: a document that loads as `l` is written
/// back as `ser_doc(l)`, and that document loads as `l` again — so writing
/// after a second load produces the same document, byte for byte.
pub proof fn lemma_save_idempotent(doc: Seq<char>, l: Seq<PlaylistV>)
    requires
        p_doc(doc) == Some(l),
    ensures
        p_doc(ser_doc(l)) == Some(l),
{
    assert(lib_wf(l));
    lemma_round_trip(l);
}

} // verus!
