//! The decisions of the HTTP server and its helper workers: which route a
//! request takes, which requests are guarded, what the LCD shows, how the
//! rotary encoder moves the volume and how the volume is persisted.
use vstd::prelude::*;

use crate::service::{
    lifted, opt_view, plan_speech, speakable, worker_language, speech_outcome, spoken_sentences, AppConfig, AudioBackend, CringeError, CringeService,
    LanguageDetector, TeapotRequest,
};
use crate::text::{
    chars_of, decimal, decimal_string, is_digit, lemma_decimal_digits, lemma_parse_decimal, sanitized, ends_with, ends_with_str, eq_str, is_char,
    lemma_split_on_at_separator, lemma_split_on_nonempty, lemma_split_on_without_separator, parse_u8, parse_unsigned_spec, push_all, push_char, push_decimal,
    split_char, split_on, starts_with, starts_with_str, string_of_range, trim_start_index,
    trim_start_matches,
};
use crate::time::{Duration, nanos_per_sec};

verus! {

// ---------------------------------------------------------------------------
// Paths
// ---------------------------------------------------------------------------

/// The part of a URL before its first `?`.
pub open spec fn path_of(url: Seq<char>) -> Seq<char> {
    split_on(url, is_char('?'))[0]
}

/// The part of `url` before its first `?`.
pub fn path_before_query(url: &str) -> (p: String)
    ensures
        p@ == path_of(url@),
{
    let v = chars_of(url);
    let mut pieces = split_char(&v, '?');
    proof {
        lemma_split_on_nonempty(v@, is_char('?'));
    }
    pieces.swap_remove(0)
}

/// `/old/...` paths name the same resources as `/...`.
pub open spec fn normalized_path(path: Seq<char>) -> Seq<char> {
    if starts_with(path, "/old/"@) {
        seq!['/'] + path.skip(("/old/"@).len() as int)
    } else {
        path
    }
}

/// Maps an `/old/...` path onto the path it stands for.
pub fn normalize_old_path(path: &str) -> (p: String)
    ensures
        p@ == normalized_path(path@),
{
    let v = chars_of(path);
    if starts_with_str(&v, "/old/") {
        let skip = chars_of("/old/").len();
        let mut out = String::new();
        push_char(&mut out, '/');
        let rest = string_of_range(&v, skip, v.len());
        push_all(&mut out, rest.as_str());
        assert(v@.subrange(skip as int, v@.len() as int) == v@.skip(skip as int));
        out
    } else {
        path.to_owned()
    }
}

/// The content type served for a static file.
pub open spec fn mime_of(path: Seq<char>) -> Seq<char> {
    if ends_with(path, ".html"@) {
        "text/html; charset=utf-8"@
    } else if ends_with(path, ".js"@) {
        "application/javascript"@
    } else if ends_with(path, ".css"@) {
        "text/css"@
    } else if ends_with(path, ".png"@) {
        "image/png"@
    } else {
        "application/octet-stream"@
    }
}

/// The content type of a static file, by its extension.
pub fn mime_from_path(path: &str) -> (m: &'static str)
    ensures
        m@ == mime_of(path@),
{
    let v = chars_of(path);
    if ends_with_str(&v, ".html") {
        "text/html; charset=utf-8"
    } else if ends_with_str(&v, ".js") {
        "application/javascript"
    } else if ends_with_str(&v, ".css") {
        "text/css"
    } else if ends_with_str(&v, ".png") {
        "image/png"
    } else {
        "application/octet-stream"
    }
}

// ---------------------------------------------------------------------------
// Routes
// ---------------------------------------------------------------------------

/// The language a speech route speaks in.
#[derive(Clone, Copy, Debug, PartialEq, Eq, Structural)]
pub enum SpeechLanguage {
    /// English, by the `/say/` route.
    English,
    /// Polish, by the `/mow/` route.
    Polish,
    /// The `l` query parameter where there is one, else a detected language.
    FromQuery,
}

/// What a request asks for. `S` is the string type: `String` for a route,
/// `Seq<char>` for its view.
#[derive(Debug)]
pub enum Route<S> {
    /// `/old`: the old front end.
    OldIndex,
    /// `/`, `/metro`: the front end.
    MetroIndex,
    /// `/favicon.png`.
    Favicon,
    /// `/static/<relative>`.
    Static { relative: S },
    /// `/teapot/status`.
    TeapotStatus,
    /// `POST /uploader`.
    Uploader,
    /// `/stop`.
    Stop,
    /// `/vol`: read the volume.
    GetVolume,
    /// `/vol/<n>` with `n` a `u8`.
    SetVolume(u8),
    /// `/vol/<text>` where the text is no `u8`.
    InvalidVolume(S),
    /// `/getFilelist`.
    FileList,
    /// `/teapot/<mode>`, `None` for an unknown mode.
    Teapot(Option<TeapotRequest>),
    /// `/say/<text>`, `/mow/<text>`, `/guess/<text>` or `/<text>`.
    Speak { saying: S, lang: SpeechLanguage },
    /// `/play/<category>/<file>`.
    Play { category: S, filename_no_ext: S },
    /// Anything else.
    NotFound,
}

/// The view of a route: its strings as character sequences.
pub open spec fn route_view(r: Route<String>) -> Route<Seq<char>> {
    match r {
        Route::OldIndex => Route::OldIndex,
        Route::MetroIndex => Route::MetroIndex,
        Route::Favicon => Route::Favicon,
        Route::Static { relative } => Route::Static { relative: relative@ },
        Route::TeapotStatus => Route::TeapotStatus,
        Route::Uploader => Route::Uploader,
        Route::Stop => Route::Stop,
        Route::GetVolume => Route::GetVolume,
        Route::SetVolume(v) => Route::SetVolume(v),
        Route::InvalidVolume(s) => Route::InvalidVolume(s@),
        Route::FileList => Route::FileList,
        Route::Teapot(m) => Route::Teapot(m),
        Route::Speak { saying, lang } => Route::Speak { saying: saying@, lang },
        Route::Play { category, filename_no_ext } => Route::Play {
            category: category@,
            filename_no_ext: filename_no_ext@,
        },
        Route::NotFound => Route::NotFound,
    }
}

/// The teapot mode that a path segment names.
pub open spec fn teapot_request_of(seg: Seq<char>) -> Option<TeapotRequest> {
    if seg == "on"@ {
        Some(TeapotRequest::On)
    } else if seg == "off"@ {
        Some(TeapotRequest::Off)
    } else if seg == "permanent"@ {
        Some(TeapotRequest::Permanent)
    } else {
        None
    }
}

/// The `/`-separated segments of a path, leading slashes dropped.
pub open spec fn segments_of(path: Seq<char>) -> Seq<Seq<char>> {
    split_on(trim_start_matches(path, "/"@), is_char('/'))
}

/// The route of a normalised path by its segments.
pub open spec fn segment_route(p: Seq<char>, segs: Seq<Seq<char>>) -> Route<Seq<char>> {
    if p == "/stop"@ {
        Route::Stop
    } else if p == "/vol"@ {
        Route::GetVolume
    } else if segs.len() == 2 && segs[0] == "vol"@ {
        match parse_unsigned_spec(segs[1], 255) {
            Ok(v) => Route::SetVolume(v as u8),
            Err(_) => Route::InvalidVolume(segs[1]),
        }
    } else if p == "/getFilelist"@ {
        Route::FileList
    } else if segs.len() == 2 && segs[0] == "teapot"@ {
        Route::Teapot(teapot_request_of(segs[1]))
    } else if segs.len() == 2 && segs[0] == "say"@ {
        Route::Speak { saying: segs[1], lang: SpeechLanguage::English }
    } else if segs.len() == 2 && segs[0] == "mow"@ {
        Route::Speak { saying: segs[1], lang: SpeechLanguage::Polish }
    } else if segs.len() == 2 && segs[0] == "guess"@ {
        Route::Speak { saying: segs[1], lang: SpeechLanguage::FromQuery }
    } else if segs.len() == 3 && segs[0] == "play"@ {
        Route::Play { category: segs[1], filename_no_ext: segs[2] }
    } else if segs.len() == 1 && segs[0].len() > 0 {
        Route::Speak { saying: segs[0], lang: SpeechLanguage::FromQuery }
    } else {
        Route::NotFound
    }
}

/// The route of a request for `url`.
pub open spec fn route_of(url: Seq<char>, is_post: bool) -> Route<Seq<char>> {
    let raw = path_of(url);
    if raw == "/old"@ || raw == "/old/"@ {
        Route::OldIndex
    } else if raw == "/"@ || raw == "/metro"@ || raw == "/metro/"@ {
        Route::MetroIndex
    } else {
        let p = normalized_path(raw);
        if p == "/favicon.png"@ {
            Route::Favicon
        } else if starts_with(p, "/static/"@) {
            Route::Static { relative: trim_start_matches(p, "/static/"@) }
        } else if p == "/teapot/status"@ {
            Route::TeapotStatus
        } else if is_post && p == "/uploader"@ {
            Route::Uploader
        } else {
            segment_route(p, segments_of(p))
        }
    }
}

/// Whether a request for `url` must pass the guard (teapot mode and
/// privileged volume) before it is served: all but the front end, the
/// favicon, static files and the teapot status.
pub open spec fn guarded(url: Seq<char>, is_post: bool) -> bool {
    let p = normalized_path(path_of(url));
    match route_of(url, is_post) {
        Route::OldIndex | Route::MetroIndex | Route::Favicon | Route::Static { .. }
        | Route::TeapotStatus => false,
        _ => !(p == "/"@ || p == "/metro"@ || p == "/metro/"@),
    }
}

/// `s` is not `p`, nor does it start with `p`, when they differ at `i`.
proof fn lemma_differs_at(s: Seq<char>, p: Seq<char>, i: int)
    requires
        0 <= i < s.len(),
        i < p.len(),
        s[i] != p[i],
    ensures
        s != p,
        !starts_with(s, p),
{
    if starts_with(s, p) {
        assert(s.take(p.len() as int)[i] == s[i]);
    }
}

/// The path of a URL whose path part holds no `?` is that part, with or
/// without a query after it.
proof fn lemma_path_without_query(path: Seq<char>, query: Seq<char>)
    requires
        forall|i: int| 0 <= i < path.len() ==> #[trigger] path[i] != '?',
    ensures
        path_of(path) == path,
        path_of(path + seq!['?'] + query) == path,
{
    lemma_split_on_without_separator(path, is_char('?'));
    lemma_split_on_at_separator(path, '?', query, is_char('?'));
    lemma_split_on_nonempty(query, is_char('?'));
}

/// The segments of `/<w>/<t>`, for a word `w` and a text `t` without
/// slashes, are `w` and `t`.
proof fn lemma_two_segments(w: Seq<char>, t: Seq<char>)
    requires
        w.len() >= 1,
        forall|i: int| 0 <= i < w.len() ==> #[trigger] w[i] != '/',
        forall|i: int| 0 <= i < t.len() ==> #[trigger] t[i] != '/',
    ensures
        segments_of(seq!['/'] + w + seq!['/'] + t) == seq![w, t],
{
    reveal_strlit("/");
    let u = seq!['/'] + w + seq!['/'] + t;
    let rest = w + seq!['/'] + t;
    assert(u.take(1) == "/"@);
    assert(u.skip(1) == rest);
    lemma_differs_at(rest, "/"@, 0);
    assert(trim_start_matches(rest, "/"@) == rest);
    assert(trim_start_matches(u, "/"@) == rest);
    lemma_split_on_at_separator(w, '/', t, is_char('/'));
    lemma_split_on_without_separator(w, is_char('/'));
    lemma_split_on_without_separator(t, is_char('/'));
    assert(seq![w] + seq![t] == seq![w, t]);
}

/// For `w` one of `say`, `mow`, `guess` and a text `t` without `/` or `?`,
/// the path `/<w>/<t>` reaches the segment routes with the segments `w` and
/// `t`, with or without a query, and is none of the front-end paths.
proof fn lemma_word_path(w: Seq<char>, t: Seq<char>, query: Seq<char>, is_post: bool)
    requires
        w == "say"@ || w == "mow"@ || w == "guess"@,
        forall|i: int| 0 <= i < t.len() ==> #[trigger] t[i] != '/' && t[i] != '?',
    ensures
        ({
            let u = seq!['/'] + w + seq!['/'] + t;
            &&& route_of(u, is_post) == segment_route(u, seq![w, t])
            &&& route_of(u + seq!['?'] + query, is_post) == segment_route(u, seq![w, t])
            &&& normalized_path(path_of(u)) == u
            &&& normalized_path(path_of(u + seq!['?'] + query)) == u
            &&& !(u == "/"@ || u == "/metro"@ || u == "/metro/"@)
        }),
{
    reveal_strlit("say");
    reveal_strlit("mow");
    reveal_strlit("guess");
    reveal_strlit("/");
    reveal_strlit("/old");
    reveal_strlit("/old/");
    reveal_strlit("/metro");
    reveal_strlit("/metro/");
    reveal_strlit("/favicon.png");
    reveal_strlit("/static/");
    reveal_strlit("/teapot/status");
    reveal_strlit("/uploader");
    let u = seq!['/'] + w + seq!['/'] + t;
    assert(u[1] == w[0]);
    assert(u[2] == w[1]);
    assert forall|i: int| 0 <= i < u.len() implies #[trigger] u[i] != '?' by {
        if 1 <= i < 1 + w.len() {
            assert(u[i] == w[i - 1]);
        } else if i > 1 + w.len() {
            assert(u[i] == t[i - 2 - w.len()]);
        }
    }
    lemma_path_without_query(u, query);
    assert(u.len() != ("/"@).len());
    lemma_differs_at(u, "/old"@, 1);
    lemma_differs_at(u, "/old/"@, 1);
    lemma_differs_at(u, "/metro"@, 2);
    lemma_differs_at(u, "/metro/"@, 2);
    lemma_differs_at(u, "/favicon.png"@, 1);
    lemma_differs_at(u, "/static/"@, 2);
    lemma_differs_at(u, "/teapot/status"@, 1);
    lemma_differs_at(u, "/uploader"@, 1);
    assert(normalized_path(u) == u);
    assert forall|i: int| 0 <= i < w.len() implies #[trigger] w[i] != '/' by {}
    lemma_two_segments(w, t);
}

/// The speech routes, for any text `t` without `/` or `?` and with or
/// without a query: `/say/<t>` speaks `t` in English, `/mow/<t>` in Polish,
/// and `/guess/<t>` in the language of the `l` query parameter (else a
/// detected one). Each of them passes the guard.
pub proof fn lemma_speech_routes(t: Seq<char>, query: Seq<char>, is_post: bool)
    requires
        forall|i: int| 0 <= i < t.len() ==> #[trigger] t[i] != '/' && t[i] != '?',
    ensures
        route_of("/say/"@ + t, is_post) == (Route::Speak { saying: t, lang: SpeechLanguage::English }),
        route_of("/mow/"@ + t, is_post) == (Route::Speak { saying: t, lang: SpeechLanguage::Polish }),
        route_of("/guess/"@ + t, is_post) == (Route::Speak {
            saying: t,
            lang: SpeechLanguage::FromQuery,
        }),
        route_of("/say/"@ + t + "?"@ + query, is_post) == (Route::Speak {
            saying: t,
            lang: SpeechLanguage::English,
        }),
        route_of("/mow/"@ + t + "?"@ + query, is_post) == (Route::Speak {
            saying: t,
            lang: SpeechLanguage::Polish,
        }),
        route_of("/guess/"@ + t + "?"@ + query, is_post) == (Route::Speak {
            saying: t,
            lang: SpeechLanguage::FromQuery,
        }),
        guarded("/say/"@ + t, is_post),
        guarded("/mow/"@ + t, is_post),
        guarded("/guess/"@ + t, is_post),
        guarded("/say/"@ + t + "?"@ + query, is_post),
        guarded("/mow/"@ + t + "?"@ + query, is_post),
        guarded("/guess/"@ + t + "?"@ + query, is_post),
{
    reveal_strlit("say");
    reveal_strlit("mow");
    reveal_strlit("guess");
    reveal_strlit("/say/");
    reveal_strlit("/mow/");
    reveal_strlit("/guess/");
    reveal_strlit("?");
    reveal_strlit("/stop");
    reveal_strlit("/vol");
    reveal_strlit("vol");
    reveal_strlit("/getFilelist");
    reveal_strlit("teapot");
    let q = seq!['?'];
    assert("?"@ == q);
    let ws = seq!["say"@, "mow"@, "guess"@];
    let pres = seq!["/say/"@, "/mow/"@, "/guess/"@];
    assert forall|k: int| 0 <= k < 3 implies {
        let w = #[trigger] ws[k];
        let u = pres[k] + t;
        &&& u == seq!['/'] + w + seq!['/'] + t
        &&& u + "?"@ + query == u + q + query
        &&& route_of(u, is_post) == segment_route(u, seq![w, t])
        &&& route_of(u + "?"@ + query, is_post) == segment_route(u, seq![w, t])
        &&& guarded(u, is_post) == !(route_of(u, is_post) is OldIndex || route_of(u, is_post) is MetroIndex
            || route_of(u, is_post) is Favicon || route_of(u, is_post) is Static
            || route_of(u, is_post) is TeapotStatus)
        &&& guarded(u + "?"@ + query, is_post) == guarded(u, is_post)
    } by {
        let w = ws[k];
        let u = pres[k] + t;
        assert(u == seq!['/'] + w + seq!['/'] + t);
        lemma_word_path(w, t, query, is_post);
        assert(u + "?"@ + query == u + q + query);
    }
    assert(ws[0] == "say"@);
    assert(ws[1] == "mow"@);
    assert(ws[2] == "guess"@);
    let segs_say = seq!["say"@, t];
    let segs_mow = seq!["mow"@, t];
    let segs_guess = seq!["guess"@, t];
    let u_say = "/say/"@ + t;
    let u_mow = "/mow/"@ + t;
    let u_guess = "/guess/"@ + t;
    lemma_differs_at(u_say, "/stop"@, 2);
    lemma_differs_at(u_mow, "/stop"@, 2);
    lemma_differs_at(u_guess, "/stop"@, 2);
    lemma_differs_at(u_say, "/vol"@, 1);
    lemma_differs_at(u_mow, "/vol"@, 1);
    lemma_differs_at(u_guess, "/vol"@, 1);
    lemma_differs_at(u_say, "/getFilelist"@, 2);
    lemma_differs_at(u_mow, "/getFilelist"@, 2);
    lemma_differs_at(u_guess, "/getFilelist"@, 2);
    lemma_differs_at("say"@, "vol"@, 0);
    lemma_differs_at("mow"@, "vol"@, 0);
    lemma_differs_at("guess"@, "vol"@, 0);
    lemma_differs_at("say"@, "teapot"@, 0);
    lemma_differs_at("mow"@, "teapot"@, 0);
    lemma_differs_at("guess"@, "teapot"@, 0);
    lemma_differs_at("mow"@, "say"@, 0);
    lemma_differs_at("guess"@, "say"@, 0);
    lemma_differs_at("guess"@, "mow"@, 0);
    assert(segs_say[0] == "say"@ && segs_say[1] == t && segs_say.len() == 2);
    assert(segs_mow[0] == "mow"@ && segs_mow[1] == t && segs_mow.len() == 2);
    assert(segs_guess[0] == "guess"@ && segs_guess[1] == t && segs_guess.len() == 2);
    assert(pres[0] == "/say/"@ && pres[1] == "/mow/"@ && pres[2] == "/guess/"@);
}

/// A path with no `?` that is none of the paths served before the segment
/// routes (front end, favicon, static files, teapot status, upload) takes
/// the segment route of its segments, with or without a query.
proof fn lemma_reaches_segment_routes(u: Seq<char>, query: Seq<char>, is_post: bool)
    requires
        forall|i: int| 0 <= i < u.len() ==> #[trigger] u[i] != '?',
        u != "/old"@ && u != "/old/"@ && u != "/"@ && u != "/metro"@ && u != "/metro/"@,
        !starts_with(u, "/old/"@),
        u != "/favicon.png"@,
        !starts_with(u, "/static/"@),
        u != "/teapot/status"@,
        !(is_post && u == "/uploader"@),
    ensures
        route_of(u, is_post) == segment_route(u, segments_of(u)),
        route_of(u + seq!['?'] + query, is_post) == segment_route(u, segments_of(u)),
        normalized_path(path_of(u)) == u,
        normalized_path(path_of(u + seq!['?'] + query)) == u,
{
    lemma_path_without_query(u, query);
}

/// The segment of `/<t>`, for a non-empty text `t` without `/`, is `t`.
proof fn lemma_one_segment(t: Seq<char>)
    requires
        t.len() >= 1,
        forall|i: int| 0 <= i < t.len() ==> #[trigger] t[i] != '/',
    ensures
        segments_of(seq!['/'] + t) == seq![t],
{
    reveal_strlit("/");
    let u = seq!['/'] + t;
    assert(u.take(1) == "/"@);
    assert(u.skip(1) == t);
    lemma_differs_at(t, "/"@, 0);
    assert(trim_start_matches(t, "/"@) == t);
    lemma_split_on_without_separator(t, is_char('/'));
}

/// The segments of `/<a>/<b>/<c>`, for texts without `/` and `a` not
/// empty, are `a`, `b` and `c`.
proof fn lemma_three_segments(a: Seq<char>, b: Seq<char>, c: Seq<char>)
    requires
        a.len() >= 1,
        forall|i: int| 0 <= i < a.len() ==> #[trigger] a[i] != '/',
        forall|i: int| 0 <= i < b.len() ==> #[trigger] b[i] != '/',
        forall|i: int| 0 <= i < c.len() ==> #[trigger] c[i] != '/',
    ensures
        segments_of(seq!['/'] + a + seq!['/'] + b + seq!['/'] + c) == seq![a, b, c],
{
    reveal_strlit("/");
    let u = seq!['/'] + a + seq!['/'] + b + seq!['/'] + c;
    let rest = a + seq!['/'] + b + seq!['/'] + c;
    assert(u.take(1) == "/"@);
    assert(u.skip(1) == rest);
    lemma_differs_at(rest, "/"@, 0);
    assert(trim_start_matches(rest, "/"@) == rest);
    lemma_split_on_at_separator(a + seq!['/'] + b, '/', c, is_char('/'));
    lemma_split_on_at_separator(a, '/', b, is_char('/'));
    lemma_split_on_without_separator(a, is_char('/'));
    lemma_split_on_without_separator(b, is_char('/'));
    lemma_split_on_without_separator(c, is_char('/'));
    assert(seq![a] + seq![b] + seq![c] == seq![a, b, c]);
}

/// `/<t>`, for a non-empty text `t` without `/` or `?` that names no
/// other route, speaks `t` in the language of the `l` query parameter
/// (else a detected one), and passes the guard.
pub proof fn lemma_bare_text_route(t: Seq<char>, query: Seq<char>, is_post: bool)
    requires
        t.len() >= 1,
        forall|i: int| 0 <= i < t.len() ==> #[trigger] t[i] != '/' && t[i] != '?',
        t != "old"@ && t != "metro"@ && t != "favicon.png"@ && t != "stop"@ && t != "vol"@
            && t != "getFilelist"@,
        !(is_post && t == "uploader"@),
    ensures
        route_of("/"@ + t, is_post) == (Route::Speak { saying: t, lang: SpeechLanguage::FromQuery }),
        route_of("/"@ + t + "?"@ + query, is_post) == (Route::Speak {
            saying: t,
            lang: SpeechLanguage::FromQuery,
        }),
        guarded("/"@ + t, is_post),
        guarded("/"@ + t + "?"@ + query, is_post),
{
    reveal_strlit("/");
    reveal_strlit("?");
    let u = "/"@ + t;
    assert(u == seq!['/'] + t);
    assert(u.skip(1) == t);
    assert(u + "?"@ + query == u + seq!['?'] + query);
    assert forall|i: int| 0 <= i < u.len() implies #[trigger] u[i] != '?' by {
        if i >= 1 {
            assert(u[i] == t[i - 1]);
        }
    }
    // A literal `/<w>` is `u` only when `w` is `t`.
    assert forall|w: Seq<char>| u == #[trigger] (seq!['/'] + w) implies w == t by {
        assert((seq!['/'] + w).skip(1) == w);
    }
    reveal_strlit("old");
    reveal_strlit("metro");
    reveal_strlit("favicon.png");
    reveal_strlit("stop");
    reveal_strlit("vol");
    reveal_strlit("getFilelist");
    reveal_strlit("uploader");
    reveal_strlit("/old");
    reveal_strlit("/metro");
    reveal_strlit("/favicon.png");
    reveal_strlit("/stop");
    reveal_strlit("/vol");
    reveal_strlit("/getFilelist");
    reveal_strlit("/uploader");
    reveal_strlit("/old/");
    reveal_strlit("/metro/");
    reveal_strlit("/static/");
    reveal_strlit("/teapot/status");
    assert("/old"@ == seq!['/'] + "old"@);
    assert("/metro"@ == seq!['/'] + "metro"@);
    assert("/favicon.png"@ == seq!['/'] + "favicon.png"@);
    assert("/stop"@ == seq!['/'] + "stop"@);
    assert("/vol"@ == seq!['/'] + "vol"@);
    assert("/getFilelist"@ == seq!['/'] + "getFilelist"@);
    assert("/uploader"@ == seq!['/'] + "uploader"@);
    assert(u.len() != ("/"@).len());
    if starts_with(u, "/old/"@) {
        assert(u[4] == ("/old/"@)[4]);
    }
    if u == "/old/"@ || u == "/metro/"@ || u == "/teapot/status"@ {
        assert(u[u.len() - 1] == '/' || u[7] == '/');
    }
    if starts_with(u, "/static/"@) {
        assert(u.take(8)[7] == u[7]);
    }
    lemma_reaches_segment_routes(u, query, is_post);
    lemma_one_segment(t);
    assert(seq![t].len() == 1 && seq![t][0] == t);
}

/// `/play/<category>/<file>`, for a non-empty category and a file name
/// without `/` or `?`, plays that file of that category, and passes the
/// guard.
pub proof fn lemma_play_route(category: Seq<char>, file: Seq<char>, query: Seq<char>, is_post: bool)
    requires
        category.len() >= 1,
        forall|i: int| 0 <= i < category.len() ==> #[trigger] category[i] != '/' && category[i] != '?',
        forall|i: int| 0 <= i < file.len() ==> #[trigger] file[i] != '/' && file[i] != '?',
    ensures
        route_of("/play/"@ + category + "/"@ + file, is_post) == (Route::Play {
            category,
            filename_no_ext: file,
        }),
        route_of("/play/"@ + category + "/"@ + file + "?"@ + query, is_post) == (Route::Play {
            category,
            filename_no_ext: file,
        }),
        guarded("/play/"@ + category + "/"@ + file, is_post),
{
    reveal_strlit("/");
    reveal_strlit("?");
    reveal_strlit("play");
    reveal_strlit("/play/");
    reveal_strlit("/old");
    reveal_strlit("/old/");
    reveal_strlit("/metro");
    reveal_strlit("/metro/");
    reveal_strlit("/favicon.png");
    reveal_strlit("/static/");
    reveal_strlit("/teapot/status");
    reveal_strlit("/uploader");
    reveal_strlit("/stop");
    reveal_strlit("/vol");
    reveal_strlit("/getFilelist");
    let u = "/play/"@ + category + "/"@ + file;
    let w = "play"@;
    assert(u == seq!['/'] + w + seq!['/'] + category + seq!['/'] + file);
    assert(u + "?"@ + query == u + seq!['?'] + query);
    assert forall|i: int| 0 <= i < u.len() implies #[trigger] u[i] != '?' by {
        if 6 <= i < 6 + category.len() {
            assert(u[i] == category[i - 6]);
        } else if i > 6 + category.len() {
            assert(u[i] == file[i - 7 - category.len()]);
        }
    }
    assert(u[1] == 'p');
    lemma_differs_at(u, "/old"@, 1);
    lemma_differs_at(u, "/old/"@, 1);
    lemma_differs_at(u, "/metro"@, 1);
    lemma_differs_at(u, "/metro/"@, 1);
    lemma_differs_at(u, "/favicon.png"@, 1);
    lemma_differs_at(u, "/static/"@, 1);
    lemma_differs_at(u, "/teapot/status"@, 1);
    lemma_differs_at(u, "/uploader"@, 1);
    lemma_differs_at(u, "/stop"@, 1);
    lemma_differs_at(u, "/vol"@, 1);
    lemma_differs_at(u, "/getFilelist"@, 1);
    assert(u.len() != ("/"@).len());
    lemma_reaches_segment_routes(u, query, is_post);
    assert forall|i: int| 0 <= i < w.len() implies #[trigger] w[i] != '/' by {}
    lemma_two_segments(w, category);
    lemma_three_segments(w, category, file);
    assert(seq![w, category, file][0] == w);
}

/// `/teapot/<mode>`, for a mode segment without `/` or `?` other than
/// `status`, asks for the mode it names: `on`, `off` and `permanent`, or
/// none for any other word; it passes the guard.
pub proof fn lemma_teapot_route(mode: Seq<char>, query: Seq<char>, is_post: bool)
    requires
        forall|i: int| 0 <= i < mode.len() ==> #[trigger] mode[i] != '/' && mode[i] != '?',
        mode != "status"@,
    ensures
        route_of("/teapot/"@ + mode, is_post) == Route::<Seq<char>>::Teapot(teapot_request_of(mode)),
        route_of("/teapot/"@ + mode + "?"@ + query, is_post) == Route::<Seq<char>>::Teapot(
            teapot_request_of(mode),
        ),
        guarded("/teapot/"@ + mode, is_post),
        mode == "on"@ ==> teapot_request_of(mode) == Some(TeapotRequest::On),
        mode == "off"@ ==> teapot_request_of(mode) == Some(TeapotRequest::Off),
        mode == "permanent"@ ==> teapot_request_of(mode) == Some(TeapotRequest::Permanent),
        !(mode == "on"@ || mode == "off"@ || mode == "permanent"@) ==> teapot_request_of(mode)
            is None,
{
    reveal_strlit("?");
    reveal_strlit("teapot");
    reveal_strlit("/teapot/");
    reveal_strlit("/teapot/status");
    reveal_strlit("status");
    reveal_strlit("/old");
    reveal_strlit("/old/");
    reveal_strlit("/metro");
    reveal_strlit("/metro/");
    reveal_strlit("/favicon.png");
    reveal_strlit("/static/");
    reveal_strlit("/uploader");
    reveal_strlit("/stop");
    reveal_strlit("/vol");
    reveal_strlit("vol");
    reveal_strlit("/getFilelist");
    reveal_strlit("/");
    let w = "teapot"@;
    let u = "/teapot/"@ + mode;
    assert(u == seq!['/'] + w + seq!['/'] + mode);
    assert(u + "?"@ + query == u + seq!['?'] + query);
    assert forall|i: int| 0 <= i < u.len() implies #[trigger] u[i] != '?' by {
        if i >= 8 {
            assert(u[i] == mode[i - 8]);
        }
    }
    assert("/teapot/status"@ == "/teapot/"@ + "status"@);
    if u == "/teapot/status"@ {
        assert(u.skip(8) == mode);
        assert(("/teapot/status"@).skip(8) == "status"@);
    }
    assert(u[1] == 't');
    lemma_differs_at(u, "/old"@, 1);
    lemma_differs_at(u, "/old/"@, 1);
    lemma_differs_at(u, "/metro"@, 1);
    lemma_differs_at(u, "/metro/"@, 1);
    lemma_differs_at(u, "/favicon.png"@, 1);
    lemma_differs_at(u, "/static/"@, 1);
    lemma_differs_at(u, "/uploader"@, 1);
    lemma_differs_at(u, "/stop"@, 1);
    lemma_differs_at(u, "/vol"@, 1);
    lemma_differs_at(u, "/getFilelist"@, 1);
    lemma_differs_at(w, "vol"@, 0);
    assert(u.len() != ("/"@).len());
    lemma_reaches_segment_routes(u, query, is_post);
    assert forall|i: int| 0 <= i < w.len() implies #[trigger] w[i] != '/' by {}
    lemma_two_segments(w, mode);
    reveal_strlit("on");
    reveal_strlit("off");
    reveal_strlit("permanent");
    lemma_differs_at("off"@, "on"@, 1);
    lemma_differs_at("permanent"@, "on"@, 0);
    lemma_differs_at("permanent"@, "off"@, 0);
}

/// `/vol/<n>`, for `n` written in decimal, sets the volume to `n` when `n`
/// is at most 255 (the handler then refuses values above 100), and passes
/// the guard.
pub proof fn lemma_set_volume_route(n: nat, query: Seq<char>, is_post: bool)
    requires
        n <= 255,
    ensures
        route_of("/vol/"@ + decimal(n), is_post) == Route::<Seq<char>>::SetVolume(n as u8),
        route_of("/vol/"@ + decimal(n) + "?"@ + query, is_post) == Route::<Seq<char>>::SetVolume(
            n as u8,
        ),
        guarded("/vol/"@ + decimal(n), is_post),
{
    reveal_strlit("?");
    reveal_strlit("vol");
    reveal_strlit("/vol/");
    reveal_strlit("/old");
    reveal_strlit("/old/");
    reveal_strlit("/metro");
    reveal_strlit("/metro/");
    reveal_strlit("/favicon.png");
    reveal_strlit("/static/");
    reveal_strlit("/teapot/status");
    reveal_strlit("/uploader");
    reveal_strlit("/stop");
    reveal_strlit("/vol");
    reveal_strlit("/");
    let d = decimal(n);
    lemma_decimal_digits(n);
    lemma_parse_decimal(n, 255);
    let w = "vol"@;
    let u = "/vol/"@ + d;
    assert(u == seq!['/'] + w + seq!['/'] + d);
    assert(u + "?"@ + query == u + seq!['?'] + query);
    assert forall|i: int| 0 <= i < d.len() implies #[trigger] d[i] != '/' && d[i] != '?' by {
        assert(is_digit(d[i]));
    }
    assert forall|i: int| 0 <= i < u.len() implies #[trigger] u[i] != '?' by {
        if i >= 5 {
            assert(u[i] == d[i - 5]);
        }
    }
    assert(u[1] == 'v');
    lemma_differs_at(u, "/old"@, 1);
    lemma_differs_at(u, "/old/"@, 1);
    lemma_differs_at(u, "/metro"@, 1);
    lemma_differs_at(u, "/metro/"@, 1);
    lemma_differs_at(u, "/favicon.png"@, 1);
    lemma_differs_at(u, "/static/"@, 1);
    lemma_differs_at(u, "/teapot/status"@, 1);
    lemma_differs_at(u, "/uploader"@, 1);
    lemma_differs_at(u, "/stop"@, 1);
    assert(u.len() != ("/vol"@).len());
    assert(u.len() != ("/"@).len());
    lemma_reaches_segment_routes(u, query, is_post);
    assert forall|i: int| 0 <= i < w.len() implies #[trigger] w[i] != '/' by {}
    lemma_two_segments(w, d);
}

/// Every request that reaches an action (speech, playback, volume, stop,
/// file list, teapot switch, upload) or no route at all passes the guard,
/// unless its normalised path is `/`, `/metro` or `/metro/`; the front end,
/// the favicon, static files and the teapot status never do.
pub proof fn lemma_actions_are_guarded(url: Seq<char>, is_post: bool)
    ensures
        ({
            let r = route_of(url, is_post);
            let p = normalized_path(path_of(url));
            &&& (r is Speak || r is Play || r is SetVolume || r is InvalidVolume || r is GetVolume
                || r is Stop || r is FileList || r is Teapot || r is Uploader || r is NotFound)
                && !(p == "/"@ || p == "/metro"@ || p == "/metro/"@) ==> guarded(url, is_post)
            &&& (r is OldIndex || r is MetroIndex || r is Favicon || r is Static
                || r is TeapotStatus) ==> !guarded(url, is_post)
        }),
{
}

/// The teapot mode that `seg` names.
pub fn teapot_request_from_segment(seg: &str) -> (m: Option<TeapotRequest>)
    ensures
        m == teapot_request_of(seg@),
{
    let v = chars_of(seg);
    if eq_str(&v, "on") {
        Some(TeapotRequest::On)
    } else if eq_str(&v, "off") {
        Some(TeapotRequest::Off)
    } else if eq_str(&v, "permanent") {
        Some(TeapotRequest::Permanent)
    } else {
        None
    }
}

/// The `/`-separated segments of `path`, leading slashes dropped.
pub fn path_segments(path: &Vec<char>) -> (segs: Vec<String>)
    ensures
        segs@.len() == segments_of(path@).len(),
        forall|k: int| 0 <= k < segs@.len() ==> #[trigger] segs@[k]@ == segments_of(path@)[k],
{
    let start = trim_start_index(path, "/");
    let rest = string_of_range(path, start, path.len());
    assert(path@.subrange(start as int, path@.len() as int) == path@.skip(start as int));
    let rv = chars_of(rest.as_str());
    split_char(&rv, '/')
}

fn segment_is(segs: &Vec<String>, k: usize, lit: &str) -> (b: bool)
    requires
        k < segs@.len(),
    ensures
        b == (segs@[k as int]@ == lit@),
{
    let v = chars_of(segs[k].as_str());
    eq_str(&v, lit)
}

fn route_by_segments(p: &Vec<char>) -> (r: Route<String>)
    ensures
        route_view(r) == segment_route(p@, segments_of(p@)),
{
    let segs = path_segments(p);
    let ghost sv = segments_of(p@);
    if eq_str(p, "/stop") {
        Route::Stop
    } else if eq_str(p, "/vol") {
        Route::GetVolume
    } else if segs.len() == 2 && segment_is(&segs, 0, "vol") {
        match parse_u8(segs[1].as_str()) {
            Ok(v) => Route::SetVolume(v),
            Err(_) => Route::InvalidVolume(segs[1].clone()),
        }
    } else if eq_str(p, "/getFilelist") {
        Route::FileList
    } else if segs.len() == 2 && segment_is(&segs, 0, "teapot") {
        Route::Teapot(teapot_request_from_segment(segs[1].as_str()))
    } else if segs.len() == 2 && segment_is(&segs, 0, "say") {
        Route::Speak { saying: segs[1].clone(), lang: SpeechLanguage::English }
    } else if segs.len() == 2 && segment_is(&segs, 0, "mow") {
        Route::Speak { saying: segs[1].clone(), lang: SpeechLanguage::Polish }
    } else if segs.len() == 2 && segment_is(&segs, 0, "guess") {
        Route::Speak { saying: segs[1].clone(), lang: SpeechLanguage::FromQuery }
    } else if segs.len() == 3 && segment_is(&segs, 0, "play") {
        Route::Play { category: segs[1].clone(), filename_no_ext: segs[2].clone() }
    } else if segs.len() == 1 && !segs[0].as_str().is_empty() {
        Route::Speak { saying: segs[0].clone(), lang: SpeechLanguage::FromQuery }
    } else {
        Route::NotFound
    }
}

/// The route of a request for `url` (decoded, as the HTTP layer gives it);
/// `is_post` tells a POST request.
pub fn route_request(url: &str, is_post: bool) -> (r: Route<String>)
    ensures
        route_view(r) == route_of(url@, is_post),
{
    let raw_s = path_before_query(url);
    let raw = chars_of(raw_s.as_str());
    if eq_str(&raw, "/old") || eq_str(&raw, "/old/") {
        return Route::OldIndex;
    }
    if eq_str(&raw, "/") || eq_str(&raw, "/metro") || eq_str(&raw, "/metro/") {
        return Route::MetroIndex;
    }
    let p_s = normalize_old_path(raw_s.as_str());
    let p = chars_of(p_s.as_str());
    if eq_str(&p, "/favicon.png") {
        return Route::Favicon;
    }
    if starts_with_str(&p, "/static/") {
        let start = trim_start_index(&p, "/static/");
        let relative = string_of_range(&p, start, p.len());
        assert(p@.subrange(start as int, p@.len() as int) == p@.skip(start as int));
        return Route::Static { relative };
    }
    if eq_str(&p, "/teapot/status") {
        return Route::TeapotStatus;
    }
    if is_post && eq_str(&p, "/uploader") {
        return Route::Uploader;
    }
    route_by_segments(&p)
}

/// Whether a request for `url` must pass the guard first.
pub fn needs_guard(url: &str, is_post: bool) -> (b: bool)
    ensures
        b == guarded(url@, is_post),
{
    let route = route_request(url, is_post);
    match route {
        Route::OldIndex | Route::MetroIndex | Route::Favicon | Route::Static { .. }
        | Route::TeapotStatus => false,
        _ => {
            let raw_s = path_before_query(url);
            let p_s = normalize_old_path(raw_s.as_str());
            let p = chars_of(p_s.as_str());
            !(eq_str(&p, "/") || eq_str(&p, "/metro") || eq_str(&p, "/metro/"))
        },
    }
}

// ---------------------------------------------------------------------------
// The LCD
// ---------------------------------------------------------------------------

/// Characters the LCD can show: printable ASCII and space.
pub open spec fn is_lcd_char(c: char) -> bool {
    ('!' <= c <= '~') || c == ' '
}

/// `is_lcd_char` as a filter predicate.
pub open spec fn lcd_filter() -> spec_fn(char) -> bool {
    |c: char| is_lcd_char(c)
}

/// The first `max_len` characters of `text` that the LCD can show.
pub open spec fn lcd_fit(text: Seq<char>, max_len: nat) -> Seq<char> {
    let f = text.filter(lcd_filter());
    if f.len() <= max_len {
        f
    } else {
        f.take(max_len as int)
    }
}

/// Keeps the first `max_len` characters of `text` that the LCD can show.
pub fn fit_lcd_text(text: &str, max_len: usize) -> (out: String)
    ensures
        out@ == lcd_fit(text@, max_len as nat),
{
    broadcast use vstd::seq_lib::group_seq_properties;
    let v = chars_of(text);
    let n = v.len();
    let mut out = String::new();
    let mut kept: usize = 0;
    let mut i: usize = 0;
    assert(v@.take(0) == Seq::<char>::empty());
    while i < n && kept < max_len
        invariant
            i <= n == v@.len(),
            kept <= max_len,
            out@ == v@.take(i as int).filter(lcd_filter()),
            kept == out@.len(),
        decreases n - i,
    {
        let c = v[i];
        assert(v@.take(i + 1) == v@.take(i as int).push(c));
        proof {
            v@.take(i as int).lemma_filter_push(c, lcd_filter());
        }
        if ('!' <= c && c <= '~') || c == ' ' {
            push_char(&mut out, c);
            kept = kept + 1;
        }
        i = i + 1;
    }
    proof {
        let f = v@.filter(lcd_filter());
        lemma_filter_prefix(v@, i as int, lcd_filter());
        if i == n {
            assert(v@.take(n as int) == v@);
        } else {
            assert(kept == max_len);
            assert(f.take(max_len as int) == out@);
        }
    }
    out
}

/// The filter of a prefix is a prefix of the filter.
proof fn lemma_filter_prefix(s: Seq<char>, i: int, p: spec_fn(char) -> bool)
    requires
        0 <= i <= s.len(),
    ensures
        s.take(i).filter(p).len() <= s.filter(p).len(),
        s.filter(p).take(s.take(i).filter(p).len() as int) == s.take(i).filter(p),
    decreases s.len() - i,
{
    broadcast use vstd::seq_lib::group_seq_properties;
    if i == s.len() {
        assert(s.take(i) == s);
        assert(s.filter(p).take(s.filter(p).len() as int) == s.filter(p));
    } else {
        lemma_filter_prefix(s, i + 1, p);
        assert(s.take(i + 1) == s.take(i).push(s[i]));
        s.take(i).lemma_filter_push(s[i], p);
        let a = s.take(i).filter(p);
        let b = s.take(i + 1).filter(p);
        assert(b.take(a.len() as int) == a);
        assert(s.filter(p).take(a.len() as int) == s.filter(p).take(b.len() as int).take(
            a.len() as int,
        ));
    }
}

/// What the LCD is sent fits: at most `max_len` characters, all of them
/// printable.
pub proof fn lemma_lcd_fit_shows(text: Seq<char>, max_len: nat)
    ensures
        lcd_fit(text, max_len).len() <= max_len,
        forall|i: int|
            0 <= i < lcd_fit(text, max_len).len() ==> is_lcd_char(
                #[trigger] lcd_fit(text, max_len)[i],
            ),
{
    let f = text.filter(lcd_filter());
    assert forall|i: int| 0 <= i < lcd_fit(text, max_len).len() implies is_lcd_char(
        #[trigger] lcd_fit(text, max_len)[i],
    ) by {
        text.lemma_filter_pred(lcd_filter(), i);
    }
}

/// Text made of characters the LCD shows passes `lcd_fit` unchanged when it
/// fits.
proof fn lemma_lcd_fit_keeps(text: Seq<char>, max_len: nat)
    requires
        text.len() <= max_len,
        forall|i: int| 0 <= i < text.len() ==> is_lcd_char(#[trigger] text[i]),
    ensures
        lcd_fit(text, max_len) == text,
{
    lemma_filter_all(text, lcd_filter());
}

/// Filtering keeps a sequence whose every item passes.
proof fn lemma_filter_all(s: Seq<char>, p: spec_fn(char) -> bool)
    requires
        forall|i: int| 0 <= i < s.len() ==> p(#[trigger] s[i]),
    ensures
        s.filter(p) == s,
    decreases s.len(),
{
    reveal(Seq::filter);
    if s.len() > 0 {
        lemma_filter_all(s.drop_last(), p);
        assert(p(s[s.len() - 1]));
        assert(s.drop_last().push(s.last()) == s);
    }
}

/// The volume row reads `Volume: <n>%` in full.
pub proof fn lemma_volume_text(volume: u8)
    ensures
        volume_text(volume as nat) == "Volume: "@ + decimal(volume as nat) + "%"@,
{
    reveal_strlit("Volume: ");
    reveal_strlit("%");
    let d = decimal(volume as nat);
    crate::text::lemma_decimal_digits(volume as nat);
    crate::text::lemma_decimal_len(volume as nat);
    let t = "Volume: "@ + d + "%"@;
    assert forall|i: int| 0 <= i < t.len() implies is_lcd_char(#[trigger] t[i]) by {
        if 8 <= i < 8 + d.len() {
            assert(t[i] == d[i - 8]);
            assert(crate::text::is_digit(d[i - 8]));
        }
    }
    lemma_lcd_fit_keeps(t, 31);
}

/// The LCD's second row for a volume.
pub open spec fn volume_text(volume: nat) -> Seq<char> {
    lcd_fit("Volume: "@ + decimal(volume) + "%"@, 31)
}

/// The LCD's second row for `volume`.
pub fn volume_display_text(volume: u8) -> (out: String)
    ensures
        out@ == volume_text(volume as nat),
{
    let mut s = String::new();
    push_all(&mut s, "Volume: ");
    push_decimal(&mut s, volume as u64);
    push_all(&mut s, "%");
    fit_lcd_text(s.as_str(), 31)
}

/// A message for one of the two rows of the LCD.
#[derive(Clone, Debug)]
pub enum LcdMessage {
    /// The first row: the last API request.
    Row0(String),
    /// The second row: the volume.
    Row1(String),
}

/// The bytes the LCD board reads for a message, as text: the first row
/// ends with a carriage return, the second with a tab.
pub open spec fn lcd_frame(m: LcdMessage) -> Seq<char> {
    match m {
        LcdMessage::Row0(t) => t@.push('\r'),
        LcdMessage::Row1(t) => t@.push('\t'),
    }
}

impl LcdMessage {
    /// The text to send to the LCD board for this message.
    pub fn frame(&self) -> (s: String)
        ensures
            s@ == lcd_frame(*self),
    {
        match self {
            LcdMessage::Row0(t) => {
                let mut s = t.clone();
                push_char(&mut s, '\r');
                s
            },
            LcdMessage::Row1(t) => {
                let mut s = t.clone();
                push_char(&mut s, '\t');
                s
            },
        }
    }
}

// ---------------------------------------------------------------------------
// The audio queue
// ---------------------------------------------------------------------------

/// What happens to an audio request when the queue is full.
#[derive(Clone, Copy, Debug, PartialEq, Eq, Structural)]
pub enum QueuePolicy {
    /// Refuse the new request.
    DropNew,
    /// Wait for room.
    Block,
}

impl QueuePolicy {
    /// The policy that a setting names: `block` (surrounding white space
    /// aside) blocks; anything else, or no setting, drops new requests.
    pub fn from_setting(value: Option<&str>) -> (p: QueuePolicy)
        ensures
            p == match value {
                Some(v) => if crate::text::trimmed(v@) == "block"@ {
                    QueuePolicy::Block
                } else {
                    QueuePolicy::DropNew
                },
                None => QueuePolicy::DropNew,
            },
    {
        match value {
            Some(v) => {
                let t = crate::text::trim(v);
                let tv = chars_of(t.as_str());
                if eq_str(&tv, "block") {
                    QueuePolicy::Block
                } else {
                    QueuePolicy::DropNew
                }
            },
            None => QueuePolicy::DropNew,
        }
    }
}

/// The name of a queue policy.
pub fn queue_policy_name(policy: QueuePolicy) -> (name: &'static str)
    ensures
        name@ == match policy {
            QueuePolicy::DropNew => "drop_new"@,
            QueuePolicy::Block => "block"@,
        },
{
    match policy {
        QueuePolicy::DropNew => "drop_new",
        QueuePolicy::Block => "block",
    }
}

/// The queue capacity that a setting asks for: a number, at least 1; 2
/// where the setting is missing or no number.
pub fn queue_capacity(value: Option<&str>) -> (n: usize)
    ensures
        n == match value {
            Some(v) => match parse_unsigned_spec(v@, usize::MAX as nat) {
                Ok(k) => if k >= 1 {
                    k as usize
                } else {
                    1usize
                },
                Err(_) => 2usize,
            },
            None => 2usize,
        },
{
    match value {
        Some(v) => match crate::text::parse_usize(v) {
            Ok(k) => if k >= 1 {
                k
            } else {
                1
            },
            Err(_) => 2,
        },
        None => 2,
    }
}

/// Speaks `saying` on `backend` the way the audio worker does: the
/// sentences of `spoken_sentences`, one call each, in the sanitised
/// override language or else in English; stops at the first failure and
/// returns its error.
pub fn queue_speak<B: AudioBackend>(
    backend: &B,
    config: &AppConfig,
    saying: &str,
    lang_override: Option<&str>,
) -> (r: Result<(), String>)
    requires
        speakable(saying@, config.max_api_str_len as nat),
    ensures
        speech_outcome(
            *backend,
            spoken_sentences(saying@, config.max_api_str_len as nat, config.max_sentence_len as nat),
            worker_language(opt_view(lang_override)),
            r,
        ),
{
    let (sentences, lang) = plan_speech(
        saying,
        lang_override,
        config.max_api_str_len,
        config.max_sentence_len,
    );
    let selected_lang = match lang {
        Some(l) => l,
        None => "en".to_owned(),
    };
    let ghost spoken = spoken_sentences(
        saying@,
        config.max_api_str_len as nat,
        config.max_sentence_len as nat,
    );
    let ghost lang_v = worker_language(opt_view(lang_override));
    assert(selected_lang@ == lang_v);
    let n = sentences.len();
    let mut i: usize = 0;
    while i < n
        invariant
            i <= n == sentences@.len(),
            spoken.len() == n,
            spoken == spoken_sentences(
                saying@,
                config.max_api_str_len as nat,
                config.max_sentence_len as nat,
            ),
            lang_v == worker_language(opt_view(lang_override)),
            forall|k: int| 0 <= k < n ==> #[trigger] sentences@[k]@ == spoken[k],
            selected_lang@ == lang_v,
            forall|k: int| 0 <= k < i ==> #[trigger] backend.speak_outcome(spoken[k], lang_v, Ok(())),
        decreases n - i,
    {
        let res = backend.speak(sentences[i].as_str(), selected_lang.as_str());
        assert(backend.speak_outcome(spoken[i as int], lang_v, res));
        match res {
            Ok(u) => {
                assert(u == ());
                assert(res == Ok::<(), String>(()));
            },
            Err(m) => {
                assert(speech_outcome(*backend, spoken, lang_v, Err(m))) by {
                    assert(backend.speak_outcome(spoken[i as int], lang_v, Err(m)));
                }
                return Err(m);
            },
        }
        i = i + 1;
    }
    Ok(())
}

/// Plays a file on `backend` the way the audio worker does: like
/// `CringeService::play_file`, with both parts of the name sanitised.
pub fn queue_play<B: AudioBackend>(backend: &B, category: &str, filename_no_ext: &str) -> (r:
    Result<(), String>)
    ensures
        backend.play_outcome(sanitized(category@), sanitized(filename_no_ext@), r),
{
    let c = crate::text::sanitize(category);
    let f = crate::text::sanitize(filename_no_ext);
    backend.play_file(c.as_str(), f.as_str())
}

// ---------------------------------------------------------------------------
// The serial line of the LCD board
// ---------------------------------------------------------------------------

/// The text of bytes read from the serial line, as `String::from_utf8_lossy`
/// decodes them.
pub uninterp spec fn utf8_lossy(bytes: Seq<u8>) -> Seq<char>;

/// Decodes `bytes` as UTF-8, each invalid sequence standing as U+FFFD
/// (`String::from_utf8_lossy`). The contract names the result, and states
/// what the documentation of that function says of valid input: it is
/// decoded as it stands.
#[verifier::external_body]
fn decode_utf8_lossy(bytes: &[u8]) -> (s: String)
    ensures
        s@ == utf8_lossy(bytes@),
        vstd::utf8::valid_utf8(bytes@) ==> s@ == vstd::utf8::decode_utf8(bytes@),
{
    String::from_utf8_lossy(bytes).into_owned()
}

/// Bytes that end a line on the serial line.
pub open spec fn is_line_end(b: u8) -> bool {
    b == 10 || b == 13
}

/// Takes the first line, with its line end, off the front of `buf`; leaves
/// `buf` as it is when it holds no line end.
pub fn take_line(buf: &mut Vec<u8>) -> (line: Option<Vec<u8>>)
    ensures
        match line {
            Some(l) => {
                &&& l@.len() >= 1
                &&& is_line_end(l@.last())
                &&& forall|i: int| 0 <= i < l@.len() - 1 ==> !is_line_end(#[trigger] l@[i])
                &&& old(buf)@ == l@ + final(buf)@
            },
            None => {
                &&& forall|i: int| 0 <= i < old(buf)@.len() ==> !is_line_end(#[trigger] old(buf)@[i])
                &&& final(buf)@ == old(buf)@
            },
        },
{
    let n = buf.len();
    let mut pos: usize = 0;
    while pos < n && !(buf[pos] == 10 || buf[pos] == 13)
        invariant
            pos <= n == buf@.len(),
            forall|i: int| 0 <= i < pos ==> !is_line_end(#[trigger] buf@[i]),
        decreases n - pos,
    {
        pos = pos + 1;
    }
    if pos == n {
        return None;
    }
    let mut l: Vec<u8> = Vec::new();
    let mut rest: Vec<u8> = Vec::new();
    let mut i: usize = 0;
    while i < n
        invariant
            pos < n == buf@.len(),
            i <= n,
            i <= pos + 1 ==> l@ == buf@.take(i as int) && rest@.len() == 0,
            i > pos + 1 ==> l@ == buf@.take(pos + 1) && rest@ == buf@.subrange(pos + 1, i as int),
        decreases n - i,
    {
        if i <= pos {
            assert(buf@.take(i + 1) == buf@.take(i as int).push(buf@[i as int]));
            l.push(buf[i]);
        } else {
            assert(buf@.subrange(pos + 1, i + 1) == buf@.subrange(pos + 1, i as int).push(
                buf@[i as int],
            ));
            rest.push(buf[i]);
        }
        i = i + 1;
    }
    proof {
        if n == pos + 1 {
            assert(rest@ == buf@.subrange(pos + 1, n as int));
        }
        assert(buf@ == buf@.take(pos + 1) + buf@.subrange(pos + 1, n as int));
    }
    *buf = rest;
    Some(l)
}

/// The most bytes a serial buffer keeps without a line end.
pub open spec fn serial_buffer_limit() -> nat {
    512
}

/// Drops a buffer that has grown past 512 bytes without a line end.
pub fn cap_serial_buffer(buf: &mut Vec<u8>)
    ensures
        final(buf)@ == if old(buf)@.len() > serial_buffer_limit() {
            Seq::<u8>::empty()
        } else {
            old(buf)@
        },
{
    if buf.len() > 512 {
        buf.clear();
    }
}

/// The volume step a line from the encoder asks for: `+step` for `ENC:1`,
/// `-step` for `ENC:-1`, none for anything else.
pub fn encoder_delta(line: &str, step: i16) -> (d: Option<i16>)
    requires
        step != i16::MIN,
    ensures
        d == if line@ == "ENC:1"@ {
            Some(step)
        } else if line@ == "ENC:-1"@ {
            Some(-step as i16)
        } else {
            None::<i16>
        },
{
    let v = chars_of(line);
    if eq_str(&v, "ENC:1") {
        Some(step)
    } else if eq_str(&v, "ENC:-1") {
        Some(-step)
    } else {
        None
    }
}

/// The volume step that a raw line from the serial line asks for: the line
/// is decoded leniently and trimmed, then read by `encoder_delta`.
pub fn serial_line_delta(raw_line: &[u8], step: i16) -> (d: Option<i16>)
    requires
        step != i16::MIN,
    ensures
        d == if crate::text::trimmed(utf8_lossy(raw_line@)) == "ENC:1"@ {
            Some(step)
        } else if crate::text::trimmed(utf8_lossy(raw_line@)) == "ENC:-1"@ {
            Some(-step as i16)
        } else {
            None::<i16>
        },
{
    let decoded = decode_utf8_lossy(raw_line);
    let line = crate::text::trim(decoded.as_str());
    encoder_delta(line.as_str(), step)
}

/// Whether `p` occurs in `s`, by bytes.
pub fn contains_bytes(s: &[u8], p: &[u8]) -> (b: bool)
    ensures
        b == crate::text::contains_seq(s@, p@),
{
    if p.len() > s.len() {
        return false;
    }
    if p.len() == 0 {
        assert(s@.subrange(0, 0 + p@.len() as int) == p@);
        return true;
    }
    let slen = s.len();
    let last = s.len() - p.len();
    let mut i: usize = 0;
    while i <= last
        invariant
            slen == s@.len(),
            last + p@.len() == s@.len(),
            p@.len() > 0,
            i <= last + 1,
            forall|j: int| 0 <= j < i ==> #[trigger] s@.subrange(j, j + p@.len()) != p@,
        decreases last + 1 - i,
    {
        let mut k: usize = 0;
        let mut same = true;
        while k < p.len()
            invariant
                slen == s@.len(),
                i <= last,
                last + p@.len() == s@.len(),
                k <= p@.len(),
                same == (forall|j: int| 0 <= j < k ==> s@[i + j] == p@[j]),
            decreases p@.len() - k,
        {
            if s[i + k] != p[k] {
                same = false;
            }
            k = k + 1;
        }
        if same {
            assert(s@.subrange(i as int, i + p@.len()) == p@);
            return true;
        }
        proof {
            let k0 = choose|j: int| 0 <= j < p@.len() && s@[i + j] != p@[j];
            assert(s@.subrange(i as int, i + p@.len())[k0] != p@[k0]);
        }
        i = i + 1;
    }
    false
}

/// Whether the bytes seen on the serial line include the firmware's
/// `LCD_FW_ALIVE` heartbeat.
pub fn saw_heartbeat(seen: &[u8]) -> (b: bool)
    ensures
        b == crate::text::contains_seq(seen@, "LCD_FW_ALIVE"@.map_values(|c: char| c as u8)),
{
    let pattern: [u8; 12] = [76, 67, 68, 95, 70, 87, 95, 65, 76, 73, 86, 69];
    proof {
        reveal_strlit("LCD_FW_ALIVE");
        assert(pattern@ == "LCD_FW_ALIVE"@.map_values(|c: char| c as u8));
    }
    contains_bytes(seen, pattern.as_slice())
}

// ---------------------------------------------------------------------------
// Volume
// ---------------------------------------------------------------------------

/// `current + delta`, held within 0 to 100.
pub open spec fn clamped_volume(current: int, delta: int) -> int {
    if current + delta < 0 {
        0
    } else if current + delta > 100 {
        100
    } else {
        current + delta
    }
}

/// `current + delta` held within 0 to 100. This is the original's
/// `(current as i16 + delta).clamp(0, 100)` wherever that `i16` sum does
/// not overflow.
pub fn clamp_volume(current: u8, delta: i16) -> (v: u8)
    ensures
        v == clamped_volume(current as int, delta as int),
        v <= 100,
{
    let sum = current as i32 + delta as i32;
    if sum < 0 {
        0
    } else if sum > 100 {
        100
    } else {
        sum as u8
    }
}

/// Whether `cur` is where the encoder starts from: the target it last set,
/// or, without one, a volume the backend may report.
pub open spec fn encoder_start<B: AudioBackend>(backend: B, target: Option<u8>, cur: u8) -> bool {
    match target {
        Some(t) => cur == t,
        None => backend.get_volume_outcome(Ok(cur)),
    }
}

/// Moves the volume by `delta` from the target the encoder last set (or,
/// without one, from the volume the backend reports), held within 0 to
/// 100, and sets it on the backend; on success the new volume becomes the
/// target.
pub fn adjust_volume_target<B: AudioBackend, D: LanguageDetector>(
    svc: &CringeService<B, D>,
    volume_target: &mut Option<u8>,
    delta: i16,
) -> (r: Result<u8, CringeError>)
    requires
        *old(volume_target) matches Some(t) ==> t + delta <= i16::MAX,
    ensures
        r matches Ok(v) ==> {
            &&& *final(volume_target) == Some(v)
            &&& v <= 100
            &&& svc.backend_spec().set_volume_outcome(v, Ok(()))
            &&& exists|cur: u8|
                #[trigger] encoder_start(svc.backend_spec(), *old(volume_target), cur) && v
                    == clamped_volume(cur as int, delta as int)
        },
        r is Err ==> *final(volume_target) == *old(volume_target),
        r is Ok || r matches Err(CringeError::Backend(_)),
        r matches Err(CringeError::Backend(m)) ==> {
            ||| (*old(volume_target) is None && svc.backend_spec().get_volume_outcome(Err(m)))
            ||| exists|cur: u8|
                #[trigger] encoder_start(svc.backend_spec(), *old(volume_target), cur)
                    && svc.backend_spec().set_volume_outcome(
                    clamped_volume(cur as int, delta as int) as u8,
                    Err(m),
                )
        },
{
    let ghost b = svc.backend_spec();
    let ghost start = *volume_target;
    let current = match *volume_target {
        Some(volume) => volume,
        None => {
            match svc.get_volume() {
                Ok(v) => {
                    proof {
                        let out = choose|out: Result<u8, String>|
                            #[trigger] b.get_volume_outcome(out) && Ok::<u8, CringeError>(v)
                                == lifted(out);
                        assert(out == Ok::<u8, String>(v));
                    }
                    v
                },
                Err(e) => {
                    proof {
                        let out = choose|out: Result<u8, String>|
                            #[trigger] b.get_volume_outcome(out) && Err::<u8, CringeError>(e)
                                == lifted(out);
                        let m = out->Err_0;
                        assert(e == CringeError::Backend(m));
                        assert(b.get_volume_outcome(Err(m)));
                    }
                    return Err(e);
                },
            }
        },
    };
    assert(encoder_start(b, start, current));
    let next = clamp_volume(current, delta);
    match svc.set_volume(next) {
        Ok(u) => {
            proof {
                let out = choose|out: Result<(), String>|
                    #[trigger] b.set_volume_outcome(next, out) && Ok::<(), CringeError>(u)
                        == lifted(out);
                assert(out == Ok::<(), String>(()));
            }
        },
        Err(e) => {
            proof {
                let out = choose|out: Result<(), String>|
                    #[trigger] b.set_volume_outcome(next, out) && Err::<(), CringeError>(e)
                        == lifted(out);
                let m = out->Err_0;
                assert(e == CringeError::Backend(m));
                assert(b.set_volume_outcome(
                    clamped_volume(current as int, delta as int) as u8,
                    Err(m),
                ));
            }
            return Err(e);
        },
    }
    *volume_target = Some(next);
    Ok(next)
}

/// Why a persisted volume is not used.
#[derive(Clone, Copy, Debug, PartialEq, Eq, Structural)]
pub enum PersistedVolumeError {
    /// The file holds a number above 100.
    OutOfRange(u8),
    /// The file holds no `u8`.
    Invalid(crate::text::IntErrorKind),
}

/// What a volume file with text `raw` yields.
pub open spec fn persisted_volume_of(raw: Seq<char>) -> Result<u8, PersistedVolumeError> {
    match parse_unsigned_spec(crate::text::trimmed(raw), 255) {
        Ok(v) => if v <= 100 {
            Ok(v as u8)
        } else {
            Err(PersistedVolumeError::OutOfRange(v as u8))
        },
        Err(e) => Err(PersistedVolumeError::Invalid(e)),
    }
}

/// Reads the volume that a volume file holds: a number from 0 to 100,
/// surrounding white space aside.
pub fn parse_persisted_volume(raw: &str) -> (r: Result<u8, PersistedVolumeError>)
    ensures
        r == persisted_volume_of(raw@),
{
    let t = crate::text::trim(raw);
    match parse_u8(t.as_str()) {
        Ok(v) => if v <= 100 {
            Ok(v)
        } else {
            Err(PersistedVolumeError::OutOfRange(v))
        },
        Err(e) => Err(PersistedVolumeError::Invalid(e)),
    }
}

/// The text a volume file holds for `volume`: its decimal notation and a
/// line end.
pub open spec fn persisted_volume_text(volume: nat) -> Seq<char> {
    decimal(volume).push('\n')
}

/// The text to write to a volume file for `volume`.
pub fn volume_file_text(volume: u8) -> (s: String)
    ensures
        s@ == persisted_volume_text(volume as nat),
{
    let mut s = decimal_string(volume as u64);
    push_char(&mut s, '\n');
    s
}

/// A volume written to the volume file reads back as itself.
pub proof fn lemma_persisted_volume_roundtrip(volume: u8)
    requires
        volume <= 100,
    ensures
        persisted_volume_of(persisted_volume_text(volume as nat)) == Ok::<
            u8,
            PersistedVolumeError,
        >(volume),
{
    let d = decimal(volume as nat);
    let t = d.push('\n');
    crate::text::lemma_decimal_digits(volume as nat);
    lemma_trim_digits_line(d);
    crate::text::lemma_parse_decimal(volume as nat, 255);
}

/// Trimming a line of digits leaves the digits.
proof fn lemma_trim_digits_line(d: Seq<char>)
    requires
        d.len() >= 1,
        forall|i: int| 0 <= i < d.len() ==> crate::text::is_digit(#[trigger] d[i]),
    ensures
        crate::text::trimmed(d.push('\n')) == d,
{
    let t = d.push('\n');
    assert(!crate::text::is_white_space(t[0]));
    assert(crate::text::trim_start_ws(t) == t);
    assert(t.drop_last() == d);
    assert(crate::text::is_white_space(t.last()));
    assert(!crate::text::is_white_space(d.last()));
    assert(crate::text::trim_end_ws(d) == d);
}

/// How long the volume writer waits, given how long ago its last write was
/// (`None`: no write yet): the rest of 5 seconds, or nothing.
pub open spec fn debounce_wait_of(since_last_write: Option<nat>) -> nat {
    match since_last_write {
        Some(e) => if e <= 5 * nanos_per_sec() {
            (5 * nanos_per_sec() - e) as nat
        } else {
            0
        },
        None => 0,
    }
}

/// The debounce: the writer never waits more than 5 seconds, writes at once
/// when it has not written yet, and otherwise writes no sooner than 5
/// seconds after its last write.
pub proof fn lemma_debounce_spacing(since_last_write: Option<nat>)
    ensures
        debounce_wait_of(since_last_write) <= 5 * nanos_per_sec(),
        since_last_write is None ==> debounce_wait_of(since_last_write) == 0,
        since_last_write matches Some(e) ==> e + debounce_wait_of(since_last_write) >= 5
            * nanos_per_sec(),
{
}

/// How long the volume writer still waits after its last write, given how
/// long ago that was: the rest of 5 seconds, or nothing.
pub fn debounce_wait(since_last_write: Option<Duration>) -> (d: Duration)
    ensures
        d@ == debounce_wait_of(
            match since_last_write {
                Some(e) => Some(e@),
                None => None,
            },
        ),
{
    match since_last_write {
        Some(elapsed) => Duration::from_secs(5).saturating_sub(elapsed),
        None => Duration::zero(),
    }
}

/// Whether the volume writer must write `latest`: only when it differs from
/// what it last wrote.
pub fn volume_needs_write(last_persisted: Option<u8>, latest: u8) -> (b: bool)
    ensures
        b == (last_persisted != Some(latest)),
{
    match last_persisted {
        Some(v) => v != latest,
        None => true,
    }
}

/// Whether an architecture name is an ARM one (it names `arm` or `aarch`).
pub fn is_arm_arch(arch: &str) -> (b: bool)
    ensures
        b == (crate::text::contains_seq(arch@, "arm"@) || crate::text::contains_seq(
            arch@,
            "aarch"@,
        )),
{
    crate::text::contains_str(arch, "arm") || crate::text::contains_str(arch, "aarch")
}

} // verus!
