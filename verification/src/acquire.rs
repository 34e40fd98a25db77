//! Acquisition orchestration: the decisions around the external download
//! tool. The tool itself is spawned by the surrounding program; this module
//! computes the arguments handed to it, reads the resolved title out of its
//! captured output, derives the expected file, and decides the outcome of an
//! attempt from the tool's exit status and the file's presence.

use vstd::prelude::*;
use vstd::string::StringExecFns;
use vstd::string::StrSliceExecFns;
use crate::catalog::{Song, LibError};
use crate::codec::{starts_with, e_lit};
use crate::text::str_chars;

verus! {

/// The whitespace characters trimmed around the resolved title.
pub open spec fn is_space(c: char) -> bool {
    c == ' ' || c == '\t' || c == '\r' || c == '\n'
}

/// The prefix of `s` up to (not including) its first newline.
pub open spec fn first_line(s: Seq<char>) -> Seq<char>
    decreases s.len(),
{
    if s.len() == 0 {
        s
    } else if s[0] == '\n' {
        Seq::empty()
    } else {
        seq![s[0]] + first_line(s.drop_first())
    }
}

/// `s` without its leading whitespace.
pub open spec fn trim_front(s: Seq<char>) -> Seq<char>
    decreases s.len(),
{
    if s.len() > 0 && is_space(s[0]) {
        trim_front(s.drop_first())
    } else {
        s
    }
}

/// `s` without its trailing whitespace.
pub open spec fn trim_back(s: Seq<char>) -> Seq<char>
    decreases s.len(),
{
    if s.len() > 0 && is_space(s.last()) {
        trim_back(s.drop_last())
    } else {
        s
    }
}

/// The resolved title inside the tool's captured output: its first line,
/// trimmed on both sides.
pub open spec fn spec_title(s: Seq<char>) -> Seq<char> {
    trim_back(trim_front(first_line(s)))
}

proof fn lemma_first_line_take(s: Seq<char>, i: int)
    requires
        0 <= i <= s.len(),
        forall|k: int| 0 <= k < i ==> s[k] != '\n',
        i == s.len() || s[i] == '\n',
    ensures
        first_line(s) == s.take(i),
    decreases i,
{
    if i == 0 {
        assert(first_line(s) =~= s.take(0));
    } else {
        let s2 = s.drop_first();
        lemma_first_line_take(s2, i - 1);
        assert(s2.take(i - 1) =~= s.take(i).drop_first());
        assert(first_line(s) == seq![s[0]] + first_line(s2));
        assert(seq![s[0]] + s2.take(i - 1) =~= s.take(i));
    }
}

proof fn lemma_trim_front_skip(s: Seq<char>, b: int)
    requires
        0 <= b <= s.len(),
        forall|k: int| 0 <= k < b ==> is_space(s[k]),
        b == s.len() || !is_space(s[b]),
    ensures
        trim_front(s) == s.skip(b),
    decreases b,
{
    if b == 0 {
        assert(trim_front(s) =~= s.skip(0));
    } else {
        let s2 = s.drop_first();
        lemma_trim_front_skip(s2, b - 1);
        assert(s2.skip(b - 1) =~= s.skip(b));
    }
}

proof fn lemma_trim_back_take(s: Seq<char>, e: int)
    requires
        0 <= e <= s.len(),
        forall|k: int| e <= k < s.len() ==> is_space(s[k]),
        e == 0 || !is_space(s[e - 1]),
    ensures
        trim_back(s) == s.take(e),
    decreases s.len(),
{
    if e == s.len() {
        assert(trim_back(s) =~= s.take(e));
    } else {
        let s2 = s.drop_last();
        assert(is_space(s.last()));
        lemma_trim_back_take(s2, e);
        assert(s2.take(e) =~= s.take(e));
    }
}

/// Whether `c` counts as whitespace around the title.
fn space_char(c: char) -> (r: bool)
    ensures
        r == is_space(c),
{
    c == ' ' || c == '\t' || c == '\r' || c == '\n'
}

/// The resolved title out of the tool's captured standard output: the first
/// line, trimmed of surrounding whitespace.
pub fn title_of_stdout(s: &str) -> (r: String)
    ensures
        r@ == spec_title(s@),
{
    let cs = str_chars(s);
    let n = cs.len();
    let mut e: usize = 0;
    while e < n && cs[e] != '\n'
        invariant
            n == cs@.len(),
            cs@ == s@,
            e <= n,
            forall|k: int| 0 <= k < e ==> s@[k] != '\n',
        decreases n - e,
    {
        e = e + 1;
    }
    proof {
        lemma_first_line_take(s@, e as int);
    }
    let ghost fl = s@.take(e as int);
    let mut b: usize = 0;
    while b < e && space_char(cs[b])
        invariant
            n == cs@.len(),
            cs@ == s@,
            e <= n,
            b <= e,
            fl == s@.take(e as int),
            forall|k: int| 0 <= k < b ==> is_space(fl[k]),
        decreases e - b,
    {
        b = b + 1;
    }
    proof {
        lemma_trim_front_skip(fl, b as int);
    }
    let ghost tf = fl.skip(b as int);
    let mut t: usize = e;
    while t > b && space_char(cs[t - 1])
        invariant
            n == cs@.len(),
            cs@ == s@,
            e <= n,
            b <= t <= e,
            fl == s@.take(e as int),
            tf == fl.skip(b as int),
            forall|k: int| t <= k < e ==> is_space(fl[k]),
        decreases t - b,
    {
        t = t - 1;
    }
    proof {
        assert(forall|k: int| t - b <= k < tf.len() ==> is_space(tf[k]));
        lemma_trim_back_take(tf, t - b);
    }
    let out = s.substring_char(b, t);
    proof {
        assert(tf.take(t - b) =~= s@.subrange(b as int, t as int));
    }
    String::from_str(out)
}

/// The output template handed to the download tool: the storage directory,
/// with the tool's own title-and-extension pattern below it.
pub fn output_template(storage_dir: &str) -> (r: String)
    ensures
        r@ == storage_dir@ + "/%(title)s.%(ext)s"@,
{
    let mut r = storage_dir.to_owned();
    r.append("/%(title)s.%(ext)s");
    r
}

/// The full argument list for one acquisition: audio extraction, the fixed
/// codec at best quality, the output template, and the source URL, in that
/// order.
pub fn download_args(output_template: &str, url: &str) -> (r: Vec<String>)
    ensures
        r@.len() == 8,
        r@[0]@ == "-x"@,
        r@[1]@ == "--audio-format"@,
        r@[2]@ == "mp3"@,
        r@[3]@ == "--audio-quality"@,
        r@[4]@ == "0"@,
        r@[5]@ == "-o"@,
        r@[6]@ == output_template@,
        r@[7]@ == url@,
{
    let mut r: Vec<String> = Vec::new();
    r.push(String::from_str("-x"));
    r.push(String::from_str("--audio-format"));
    r.push(String::from_str("mp3"));
    r.push(String::from_str("--audio-quality"));
    r.push(String::from_str("0"));
    r.push(String::from_str("-o"));
    r.push(String::from_str(output_template));
    r.push(String::from_str(url));
    r
}

/// The song a successful download is expected to leave behind: its name is
/// the resolved title with the fixed audio extension, its path joins the
/// storage directory and that name.
pub fn expected_song(storage_dir: &str, tool_stdout: &str) -> (r: Song)
    ensures
        r@.name == spec_title(tool_stdout@) + ".mp3"@,
        r@.file_path == storage_dir@ + "/"@ + r@.name,
{
    let mut name = title_of_stdout(tool_stdout);
    name.append(".mp3");
    let mut path = storage_dir.to_owned();
    path.append("/");
    path.append(name.as_str());
    proof {
        assert(path@ =~= storage_dir@ + "/"@ + name@);
    }
    Song { name, file_path: path }
}

/// The outcome of one acquisition attempt: the candidate song exactly when
/// the tool succeeded and the expected file appeared; otherwise an
/// `AcquisitionFailure` carrying the failure detail. The catalog is never
/// touched here, so a failed attempt leaves the library as it was.
pub fn acquisition_outcome(
    candidate: Song,
    exit_success: bool,
    file_exists: bool,
    error_detail: &str,
) -> (r: Result<Song, LibError>)
    ensures
        r is Ok <==> exit_success && file_exists,
        exit_success && file_exists ==> (r matches Ok(s) && s@ == candidate@),
        !exit_success ==> (r matches Err(LibError::AcquisitionFailure(d)) && d@
            == "Download failed: "@ + error_detail@),
        exit_success && !file_exists ==> (r matches Err(LibError::AcquisitionFailure(d)) && d@
            == "File not found after download"@),
{
    if !exit_success {
        let mut detail = String::from_str("Download failed: ");
        detail.append(error_detail);
        Err(LibError::AcquisitionFailure(detail))
    } else if !file_exists {
        Err(LibError::AcquisitionFailure(String::from_str("File not found after download")))
    } else {
        Ok(candidate)
    }
}

/// `s` with a recognized scheme stripped off its front.
pub open spec fn strip_scheme(s: Seq<char>) -> Seq<char> {
    if starts_with(s, "https://"@) {
        s.skip("https://"@.len() as int)
    } else if starts_with(s, "http://"@) {
        s.skip("http://"@.len() as int)
    } else {
        s
    }
}

/// `s` with a leading `www.` stripped off.
pub open spec fn strip_www(s: Seq<char>) -> Seq<char> {
    if starts_with(s, "www."@) {
        s.skip("www."@.len() as int)
    } else {
        s
    }
}

/// A recognized video-source reference: an optional scheme, an optional
/// `www.`, then one of the two known hosts with a path behind it.
pub open spec fn valid_source_url(s: Seq<char>) -> bool {
    starts_with(strip_www(strip_scheme(s)), "youtube.com/"@) || starts_with(
        strip_www(strip_scheme(s)),
        "youtu.be/"@,
    )
}

/// One decomposition of `s` into an optional scheme `a`, an optional
/// `www.` part `b`, a known host `t` with its trailing slash, and an
/// arbitrary remainder `d`.
pub open spec fn url_parts(
    s: Seq<char>,
    a: Seq<char>,
    b: Seq<char>,
    t: Seq<char>,
    d: Seq<char>,
) -> bool {
    &&& s == a + b + t + d
    &&& (a == Seq::<char>::empty() || a == "http://"@ || a == "https://"@)
    &&& (b == Seq::<char>::empty() || b == "www."@)
    &&& (t == "youtube.com/"@ || t == "youtu.be/"@)
}

/// The deterministic stripping in `valid_source_url` recognizes exactly the
/// references that decompose into an optional scheme, an optional `www.`,
/// a known host with a path behind it.
#[verifier::rlimit(60)]
pub proof fn lemma_url_shape(s: Seq<char>)
    ensures
        valid_source_url(s) <==> exists|a: Seq<char>, b: Seq<char>, t: Seq<char>, d: Seq<char>|
            url_parts(s, a, b, t, d),
{
    reveal_strlit("https://");
    reveal_strlit("http://");
    reveal_strlit("www.");
    reveal_strlit("youtube.com/");
    reveal_strlit("youtu.be/");
    let https = "https://"@;
    let http = "http://"@;
    let www = "www."@;
    let h1 = "youtube.com/"@;
    let h2 = "youtu.be/"@;
    if valid_source_url(s) {
        let s1 = strip_scheme(s);
        let s2 = strip_www(s1);
        let a = if starts_with(s, https) {
            https
        } else if starts_with(s, http) {
            http
        } else {
            Seq::<char>::empty()
        };
        assert(s =~= a + s1);
        let b = if starts_with(s1, www) {
            www
        } else {
            Seq::<char>::empty()
        };
        assert(s1 =~= b + s2);
        if starts_with(s2, h1) {
            let d = s2.skip(h1.len() as int);
            assert(s2 =~= h1 + d);
            assert(s =~= a + b + h1 + d);
            assert(url_parts(s, a, b, h1, d));
        } else {
            let d = s2.skip(h2.len() as int);
            assert(s2 =~= h2 + d);
            assert(s =~= a + b + h2 + d);
            assert(url_parts(s, a, b, h2, d));
        }
    }
    if exists|a: Seq<char>, b: Seq<char>, t: Seq<char>, d: Seq<char>| url_parts(s, a, b, t, d) {
        let (a, b, t, d) = choose|a: Seq<char>, b: Seq<char>, t: Seq<char>, d: Seq<char>|
            url_parts(s, a, b, t, d);
        let u = b + t + d;
        assert(s =~= a + u);
        assert(t.len() > 0);
        if a == https {
            assert(s.take(https.len() as int) =~= a);
            assert(starts_with(s, https));
            assert(strip_scheme(s) =~= u);
        } else if a == http {
            if starts_with(s, https) {
                assert(s.take(https.len() as int) == https);
                assert(s[4] == https[4]);
                assert(s[4] == a[4]);
                assert(false);
            }
            assert(s.take(http.len() as int) =~= a);
            assert(starts_with(s, http));
            assert(strip_scheme(s) =~= u);
        } else {
            assert(s =~= u);
            if b == www {
                assert(s[0] == b[0]);
            } else {
                assert(s[0] == t[0]);
            }
            if starts_with(s, https) {
                assert(s.take(https.len() as int) == https);
                assert(s.take(https.len() as int)[0] == s[0]);
                assert(s[0] == 'h');
                assert(false);
            }
            if starts_with(s, http) {
                assert(s.take(http.len() as int) == http);
                assert(s.take(http.len() as int)[0] == s[0]);
                assert(s[0] == 'h');
                assert(false);
            }
            assert(strip_scheme(s) =~= u);
        }
        assert(strip_scheme(s) == u);
        let v = t + d;
        if b == www {
            assert(u.take(www.len() as int) =~= b);
            assert(starts_with(u, www));
            assert(strip_www(u) =~= v);
        } else {
            assert(u =~= v);
            assert(u[0] == t[0]);
            if starts_with(u, www) {
                assert(u.take(www.len() as int) == www);
                assert(u.take(www.len() as int)[0] == u[0]);
                assert(u[0] == 'w');
                assert(false);
            }
            assert(strip_www(u) =~= v);
        }
        assert(strip_www(strip_scheme(s)) == v);
        assert(v.take(t.len() as int) =~= t);
        assert(starts_with(v, t));
        assert(valid_source_url(s));
    }
}

/// Whether `url` has the shape of a recognized video-source reference.
pub fn is_valid_youtube_url(url: &str) -> (r: bool)
    ensures
        r == valid_source_url(url@),
{
    let cs = str_chars(url);
    proof {
        assert(cs@.skip(0) =~= cs@);
    }
    let pos1 = match e_lit(&cs, 0, "https://") {
        Some(p) => p,
        None => match e_lit(&cs, 0, "http://") {
            Some(p) => p,
            None => 0,
        },
    };
    proof {
        assert(cs@.skip(pos1 as int) == strip_scheme(cs@));
    }
    let pos2 = match e_lit(&cs, pos1, "www.") {
        Some(p) => p,
        None => pos1,
    };
    proof {
        assert(cs@.skip(pos2 as int) == strip_www(strip_scheme(cs@)));
    }
    match e_lit(&cs, pos2, "youtube.com/") {
        Some(_) => true,
        None => match e_lit(&cs, pos2, "youtu.be/") {
            Some(_) => true,
            None => false,
        },
    }
}

} // verus!
