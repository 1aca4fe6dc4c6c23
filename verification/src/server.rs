//! The telemetry host's HTTP protocol: what a request asks for and how the host answers
//! it, the request a client sends, and how a client reads the host's reply.
use vstd::prelude::*;
use crate::db::{append_text, owned};
use crate::text::{
    chars_at, chars_of, decimal, decode_utf8_lossy, has_sub, push_char, text_contains, text_eq,
    u64_text, lossy_text,
};
use vstd::string::StringSliceAdditionalSpecFns;

verus! {

/// Unicode `White_Space`, as `char::is_whitespace` and `str::split_whitespace` use it.
pub open spec fn is_ws(c: char) -> bool {
    ||| ('\u{9}' <= c && c <= '\u{d}')
    ||| c == ' '
    ||| c == '\u{85}'
    ||| c == '\u{a0}'
    ||| c == '\u{1680}'
    ||| ('\u{2000}' <= c && c <= '\u{200a}')
    ||| c == '\u{2028}'
    ||| c == '\u{2029}'
    ||| c == '\u{202f}'
    ||| c == '\u{205f}'
    ||| c == '\u{3000}'
}

pub(crate) fn is_ws_char(c: char) -> (r: bool)
    ensures
        r == is_ws(c),
{
    ('\u{9}' <= c && c <= '\u{d}') || c == ' ' || c == '\u{85}' || c == '\u{a0}' || c
        == '\u{1680}' || ('\u{2000}' <= c && c <= '\u{200a}') || c == '\u{2028}' || c
        == '\u{2029}' || c == '\u{202f}' || c == '\u{205f}' || c == '\u{3000}'
}

/// The end of the whitespace run starting at `i`.
pub open spec fn ws_end(s: Seq<char>, i: int) -> int
    decreases s.len() - i,
{
    if 0 <= i < s.len() && is_ws(s[i]) {
        ws_end(s, i + 1)
    } else {
        i
    }
}

/// The end of the word starting at `i`.
pub open spec fn word_end(s: Seq<char>, i: int) -> int
    decreases s.len() - i,
{
    if 0 <= i < s.len() && !is_ws(s[i]) {
        word_end(s, i + 1)
    } else {
        i
    }
}

pub proof fn lemma_ws_end(s: Seq<char>, i: int)
    requires
        0 <= i <= s.len(),
    ensures
        i <= ws_end(s, i) <= s.len(),
        ws_end(s, i) < s.len() ==> !is_ws(s[ws_end(s, i)]),
    decreases s.len() - i,
{
    if i < s.len() && is_ws(s[i]) {
        lemma_ws_end(s, i + 1);
    }
}

pub proof fn lemma_word_end(s: Seq<char>, i: int)
    requires
        0 <= i <= s.len(),
    ensures
        i <= word_end(s, i) <= s.len(),
        i < s.len() && !is_ws(s[i]) ==> word_end(s, i) > i,
    decreases s.len() - i,
{
    if i < s.len() && !is_ws(s[i]) {
        lemma_word_end(s, i + 1);
    }
}

/// The whitespace-separated words of `s` from `i` on (`str::split_whitespace`).
pub open spec fn words_from(s: Seq<char>, i: int) -> Seq<Seq<char>>
    decreases s.len() - i,
{
    if i < 0 || i > s.len() {
        Seq::empty()
    } else {
        let a = ws_end(s, i);
        proof {
            lemma_ws_end(s, i);
        }
        if a >= s.len() {
            Seq::empty()
        } else {
            let b = word_end(s, a);
            proof {
                lemma_word_end(s, a);
            }
            seq![s.subrange(a, b)] + words_from(s, b)
        }
    }
}

/// The first line of a text (`str::lines`): up to the first line feed, without a carriage
/// return just before it; `None` for an empty text.
pub open spec fn first_line(s: Seq<char>) -> Option<Seq<char>> {
    if s.len() == 0 {
        None
    } else {
        match first_index(s, '\n', 0) {
            None => Some(s),
            Some(j) => {
                let l = s.take(j);
                if l.len() > 0 && l.last() == '\r' {
                    Some(l.drop_last())
                } else {
                    Some(l)
                }
            },
        }
    }
}

/// The first index from `i` on holding `c`.
pub open spec fn first_index(s: Seq<char>, c: char, i: int) -> Option<int>
    decreases s.len() - i,
{
    if i < 0 || i >= s.len() {
        None
    } else if s[i] == c {
        Some(i)
    } else {
        first_index(s, c, i + 1)
    }
}

pub proof fn lemma_first_index(s: Seq<char>, c: char, i: int)
    requires
        0 <= i,
    ensures
        first_index(s, c, i) matches Some(j) ==> i <= j < s.len() && 0 <= j && s[j] == c
            && forall|k: int| i <= k < j ==> s[k] != c,
        first_index(s, c, i) is None ==> forall|k: int| i <= k < s.len() ==> s[k] != c,
    decreases s.len() - i,
{
    if 0 <= i < s.len() && s[i] != c {
        lemma_first_index(s, c, i + 1);
    }
}

/// The pieces of `s` between occurrences of `c` (`str::split` with a character).
pub open spec fn split_on(s: Seq<char>, c: char) -> Seq<Seq<char>>
    decreases s.len(),
{
    match first_index(s, c, 0) {
        None => seq![s],
        Some(j) => {
            proof {
                lemma_first_index(s, c, 0);
            }
            seq![s.take(j)] + split_on(s.skip(j + 1), c)
        },
    }
}

/// The `key=value` pairs of a query string: the `&`-separated pieces holding exactly one
/// `=`, in order.
pub open spec fn query_pairs(q: Seq<char>) -> Seq<(Seq<char>, Seq<char>)> {
    let pieces = split_on(q, '&');
    pairs_of(pieces, pieces.len())
}

/// The pairs among the first `n` pieces.
pub open spec fn pairs_of(pieces: Seq<Seq<char>>, n: nat) -> Seq<(Seq<char>, Seq<char>)>
    decreases n,
{
    if n == 0 {
        Seq::empty()
    } else {
        let k = (n - 1) as nat;
        let rest = pairs_of(pieces, k);
        let kv = split_on(pieces[k as int], '=');
        if kv.len() == 2 {
            rest.push((kv[0], kv[1]))
        } else {
            rest
        }
    }
}

/// The value of a parameter: its last occurrence wins, as when the pairs are inserted
/// into a map one after another.
pub open spec fn param(pairs: Seq<(Seq<char>, Seq<char>)>, key: Seq<char>) -> Option<Seq<char>>
    decreases pairs.len(),
{
    if pairs.len() == 0 {
        None
    } else if pairs.last().0 == key {
        Some(pairs.last().1)
    } else {
        param(pairs.drop_last(), key)
    }
}

/// How the host answers a request.
#[derive(Debug, Clone, PartialEq)]
pub enum HostRoute {
    /// The request has no line at all: the connection is dropped without an answer.
    Ignore,
    /// `400 Bad Request`: the request line has fewer than two words.
    BadRequest,
    /// `404 Not Found`: the path is not `/api/command`.
    NotFound,
    /// `403 Forbidden`: the passcode is wrong.
    Forbidden,
    /// The command to run, whether JSON output was asked for, and the player it is for.
    Run { cmd: String, is_json: bool, uid: Option<String> },
}

/// The view of an answer.
pub enum RouteView {
    Ignore,
    BadRequest,
    NotFound,
    Forbidden,
    Run { cmd: Seq<char>, is_json: bool, uid: Option<Seq<char>> },
}

pub open spec fn route_view(r: HostRoute) -> RouteView {
    match r {
        HostRoute::Ignore => RouteView::Ignore,
        HostRoute::BadRequest => RouteView::BadRequest,
        HostRoute::NotFound => RouteView::NotFound,
        HostRoute::Forbidden => RouteView::Forbidden,
        HostRoute::Run { cmd, is_json, uid } => RouteView::Run {
            cmd: cmd@,
            is_json,
            uid: match uid {
                Some(u) => Some(u@),
                None => None,
            },
        },
    }
}

/// The host's answer to a request text, given its passcode: the second word of the first
/// line is the target; its part before the first `?` must be `/api/command`; the query's
/// `passcode` (empty when absent) must equal the host's; then `cmd` (default `full`),
/// `is_json` (`true` or not) and `uid` are taken.
pub open spec fn host_route(req: Seq<char>, passcode: Seq<char>) -> RouteView {
    match first_line(req) {
        None => RouteView::Ignore,
        Some(line) => {
            let w = words_from(line, 0);
            if w.len() < 2 {
                RouteView::BadRequest
            } else {
                let target = w[1];
                let (path, query) = match first_index(target, '?', 0) {
                    Some(i) => (target.take(i), target.skip(i + 1)),
                    None => (target, Seq::empty()),
                };
                if path != "/api/command"@ {
                    RouteView::NotFound
                } else {
                    let ps = query_pairs(query);
                    let given = match param(ps, "passcode"@) {
                        Some(p) => p,
                        None => Seq::empty(),
                    };
                    if given != passcode {
                        RouteView::Forbidden
                    } else {
                        RouteView::Run {
                            cmd: match param(ps, "cmd"@) {
                                Some(c) => c,
                                None => "full"@,
                            },
                            is_json: match param(ps, "is_json"@) {
                                Some(j) => j == "true"@,
                                None => "false"@ == "true"@,
                            },
                            uid: param(ps, "uid"@),
                        }
                    }
                }
            }
        },
    }
}

fn find_char(cs: &Vec<char>, c: char, from: usize) -> (r: Option<usize>)
    ensures
        crate::wire::opt_pos(r) == first_index(cs@, c, from as int),
{
    let mut i = from;
    while i < cs.len()
        invariant
            from <= i,
            first_index(cs@, c, from as int) == first_index(cs@, c, i as int),
        decreases cs@.len() - i,
    {
        if cs[i] == c {
            return Some(i);
        }
        i = i + 1;
    }
    None
}

fn text_of(cs: &Vec<char>, lo: usize, hi: usize) -> (r: String)
    requires
        lo <= hi <= cs@.len(),
    ensures
        r@ == cs@.subrange(lo as int, hi as int),
{
    let mut out = String::new();
    let mut i = lo;
    while i < hi
        invariant
            lo <= i <= hi <= cs@.len(),
            out@ =~= cs@.subrange(lo as int, i as int),
        decreases hi - i,
    {
        push_char(&mut out, cs[i]);
        i = i + 1;
    }
    out
}

/// The first line of a text (see `first_line`).
pub fn line_one(s: &str) -> (r: Option<String>)
    ensures
        first_line(s@) is None ==> r is None,
        first_line(s@) matches Some(l) ==> r matches Some(rl) && rl@ == l,
{
    let cs = chars_of(s);
    if cs.len() == 0 {
        return None;
    }
    match find_char(&cs, '\n', 0) {
        None => Some(owned(s)),
        Some(j) => {
            proof {
                lemma_first_index(cs@, '\n', 0);
            }
            if j > 0 && cs[j - 1] == '\r' {
                assert(cs@.take(j as int).drop_last() =~= cs@.subrange(0, j - 1));
                Some(text_of(&cs, 0, j - 1))
            } else {
                assert(cs@.take(j as int) =~= cs@.subrange(0, j as int));
                Some(text_of(&cs, 0, j))
            }
        },
    }
}

/// Views of a list of strings.
pub open spec fn texts(v: Seq<String>) -> Seq<Seq<char>> {
    v.map_values(|x: String| x@)
}

/// The whitespace-separated words of a text (`str::split_whitespace`).
pub fn split_words(s: &str) -> (r: Vec<String>)
    ensures
        texts(r@) == words_from(s@, 0),
{
    let cs = chars_of(s);
    let mut out: Vec<String> = Vec::new();
    let mut i: usize = 0;
    assert(texts(out@) + words_from(cs@, 0) =~= words_from(cs@, 0));
    while i < cs.len()
        invariant
            cs@ == s@,
            i <= cs@.len(),
            words_from(cs@, 0) == texts(out@) + words_from(cs@, i as int),
        decreases cs@.len() - i,
    {
        let ghost i0 = i;
        proof {
            lemma_ws_end(cs@, i as int);
        }
        let mut a = i;
        while a < cs.len() && is_ws_char(cs[a])
            invariant
                i0 <= a <= cs@.len(),
                ws_end(cs@, i0 as int) == ws_end(cs@, a as int),
            decreases cs@.len() - a,
        {
            a = a + 1;
        }
        if a >= cs.len() {
            assert(words_from(cs@, i0 as int) =~= Seq::<Seq<char>>::empty());
            i = a;
            assert(words_from(cs@, i as int) =~= Seq::<Seq<char>>::empty());
        } else {
            proof {
                lemma_word_end(cs@, a as int);
            }
            let mut b = a;
            while b < cs.len() && !is_ws_char(cs[b])
                invariant
                    a <= b <= cs@.len(),
                    word_end(cs@, a as int) == word_end(cs@, b as int),
                decreases cs@.len() - b,
            {
                b = b + 1;
            }
            let ghost before = out@;
            out.push(text_of(&cs, a, b));
            assert(texts(out@) =~= texts(before) + seq![cs@.subrange(a as int, b as int)]);
            assert(texts(before) + (seq![cs@.subrange(a as int, b as int)] + words_from(
                cs@,
                b as int,
            )) =~= texts(out@) + words_from(cs@, b as int));
            i = b;
        }
    }
    assert(texts(out@) + words_from(cs@, i as int) =~= texts(out@));
    out
}


pub proof fn lemma_first_index_skip(s: Seq<char>, c: char, i: int, k: int)
    requires
        0 <= i <= s.len(),
        0 <= k,
    ensures
        first_index(s.skip(i), c, k) == (match first_index(s, c, i + k) {
            Some(j) => Some(j - i),
            None => None,
        }),
    decreases s.len() - (i + k),
{
    if i + k < s.len() && s[i + k] != c {
        lemma_first_index_skip(s, c, i, k + 1);
    }
}

/// The pieces of a text between occurrences of `c` (see `split_on`).
pub fn split_text(s: &str, c: char) -> (r: Vec<String>)
    ensures
        texts(r@) == split_on(s@, c),
{
    let cs = chars_of(s);
    let n = cs.len();
    let mut out: Vec<String> = Vec::new();
    let mut i: usize = 0;
    assert(cs@.skip(0) =~= cs@);
    assert(texts(out@) + split_on(cs@.skip(0), c) =~= split_on(cs@, c));
    loop
        invariant
            n == cs@.len(),
            cs@ == s@,
            i <= cs@.len(),
            split_on(cs@, c) == texts(out@) + split_on(cs@.skip(i as int), c),
        decreases cs@.len() - i,
    {
        proof {
            lemma_first_index_skip(cs@, c, i as int, 0);
            lemma_first_index(cs@, c, i as int);
        }
        match find_char(&cs, c, i) {
            None => {
                let ghost before = out@;
                out.push(text_of(&cs, i, cs.len()));
                assert(cs@.skip(i as int) =~= cs@.subrange(i as int, cs@.len() as int));
                assert(texts(out@) =~= texts(before) + seq![cs@.skip(i as int)]);
                return out;
            },
            Some(j) => {
                let ghost before = out@;
                out.push(text_of(&cs, i, j));
                assert(cs@.skip(i as int).take(j - i) =~= cs@.subrange(i as int, j as int));
                assert(cs@.skip(i as int).skip(j - i + 1) =~= cs@.skip(j + 1));
                assert(texts(out@) =~= texts(before) + seq![cs@.subrange(i as int, j as int)]);
                assert(texts(before) + (seq![cs@.subrange(i as int, j as int)] + split_on(
                    cs@.skip(j + 1),
                    c,
                )) =~= texts(out@) + split_on(cs@.skip(j + 1), c));
                i = j + 1;
            },
        }
    }
}

/// Views of text pairs.
pub open spec fn pair_texts(v: Seq<(String, String)>) -> Seq<(Seq<char>, Seq<char>)> {
    v.map_values(|e: (String, String)| (e.0@, e.1@))
}

/// The `key=value` pairs of a query string (see `query_pairs`).
pub fn parse_query(query: &str) -> (r: Vec<(String, String)>)
    ensures
        pair_texts(r@) == query_pairs(query@),
{
    let pieces = split_text(query, '&');
    let mut out: Vec<(String, String)> = Vec::new();
    let mut k: usize = 0;
    let ghost ps = split_on(query@, '&');
    assert(pair_texts(out@) =~= pairs_of(ps, 0));
    while k < pieces.len()
        invariant
            texts(pieces@) == ps,
            ps == split_on(query@, '&'),
            k <= pieces@.len(),
            pair_texts(out@) == pairs_of(ps, k as nat),
        decreases pieces@.len() - k,
    {
        assert(ps[k as int] == pieces@[k as int]@);
        let kv = split_text(pieces[k].as_str(), '=');
        if kv.len() == 2 {
            let ghost before = out@;
            assert(texts(kv@)[0] == kv@[0]@ && texts(kv@)[1] == kv@[1]@);
            out.push((owned(kv[0].as_str()), owned(kv[1].as_str())));
            assert(pair_texts(out@) =~= pair_texts(before).push((kv@[0]@, kv@[1]@)));
        }
        k = k + 1;
    }
    out
}

/// The value of a parameter, the last occurrence winning (see `param`).
pub fn lookup_param(pairs: &Vec<(String, String)>, key: &str) -> (r: Option<String>)
    ensures
        param(pair_texts(pairs@), key@) is None ==> r is None,
        param(pair_texts(pairs@), key@) matches Some(v) ==> r matches Some(rv) && rv@ == v,
{
    let mut i = pairs.len();
    assert(pairs@.take(i as int) =~= pairs@);
    while i > 0
        invariant
            i <= pairs@.len(),
            param(pair_texts(pairs@), key@) == param(pair_texts(pairs@.take(i as int)), key@),
        decreases i,
    {
        let ghost t = pair_texts(pairs@.take(i as int));
        assert(t.last() == (pairs@[i - 1].0@, pairs@[i - 1].1@));
        assert(t.drop_last() =~= pair_texts(pairs@.take(i - 1)));
        if text_eq(pairs[i - 1].0.as_str(), key) {
            return Some(owned(pairs[i - 1].1.as_str()));
        }
        i = i - 1;
    }
    assert(pair_texts(pairs@.take(0)) =~= Seq::empty());
    None
}

/// The host's answer to the raw bytes of a request (decoded leniently as UTF-8), given
/// its passcode (see `host_route`).
pub fn route_request(request: &[u8], passcode: &str) -> (r: HostRoute)
    ensures
        route_view(r) == host_route(lossy_text(request@), passcode@),
{
    let req = decode_utf8_lossy(request);
    let line = match line_one(req.as_str()) {
        None => return HostRoute::Ignore,
        Some(l) => l,
    };
    let w = split_words(line.as_str());
    if w.len() < 2 {
        return HostRoute::BadRequest;
    }
    assert(texts(w@)[1] == w@[1]@);
    let target = chars_of(w[1].as_str());
    let (path, query) = match find_char(&target, '?', 0) {
        Some(i) => {
            proof {
                lemma_first_index(target@, '?', 0);
            }
            assert(target@.take(i as int) =~= target@.subrange(0, i as int));
            assert(target@.skip(i + 1) =~= target@.subrange(i + 1, target@.len() as int));
            (text_of(&target, 0, i), text_of(&target, i + 1, target.len()))
        },
        None => {
            assert(target@ =~= target@.subrange(0, target@.len() as int));
            (text_of(&target, 0, target.len()), String::new())
        },
    };
    if !text_eq(path.as_str(), "/api/command") {
        return HostRoute::NotFound;
    }
    let ps = parse_query(query.as_str());
    let given = match lookup_param(&ps, "passcode") {
        Some(p) => p,
        None => String::new(),
    };
    if !text_eq(given.as_str(), passcode) {
        return HostRoute::Forbidden;
    }
    let cmd = match lookup_param(&ps, "cmd") {
        Some(c) => c,
        None => owned("full"),
    };
    let is_json = match lookup_param(&ps, "is_json") {
        Some(j) => text_eq(j.as_str(), "true"),
        None => text_eq("false", "true"),
    };
    let uid = lookup_param(&ps, "uid");
    HostRoute::Run { cmd, is_json, uid }
}

/// The query string of a request for `/api/command` (the part of the first line's second
/// word after its first `?`), if the request is one.
pub open spec fn command_query(req: Seq<char>) -> Option<Seq<char>> {
    match first_line(req) {
        None => None,
        Some(line) => {
            let w = words_from(line, 0);
            if w.len() < 2 {
                None
            } else {
                let target = w[1];
                let (path, query) = match first_index(target, '?', 0) {
                    Some(i) => (target.take(i), target.skip(i + 1)),
                    None => (target, Seq::empty()),
                };
                if path != "/api/command"@ {
                    None
                } else {
                    Some(query)
                }
            }
        },
    }
}

/// The passcode a query gives (empty when it gives none).
pub open spec fn given_passcode(query: Seq<char>) -> Seq<char> {
    match param(query_pairs(query), "passcode"@) {
        Some(p) => p,
        None => Seq::empty(),
    }
}

/// The host runs a command only for a request carrying its passcode, and refuses every
/// command request carrying another one.
pub proof fn lemma_passcode_gate(req: Seq<char>, passcode: Seq<char>)
    ensures
        host_route(req, passcode) is Run ==> (command_query(req) matches Some(q)
            && given_passcode(q) == passcode),
        command_query(req) matches Some(q) && given_passcode(q) != passcode ==> host_route(
            req,
            passcode,
        ) == RouteView::Forbidden,
{
}


/// The path a client asks the host for: the command and passcode, `is_json=true` when
/// JSON output is wanted, and the player when one is chosen.
pub open spec fn command_path(cmd: Seq<char>, passcode: Seq<char>, is_json: bool, uid: Option<Seq<char>>) -> Seq<char> {
    "/api/command?cmd="@ + cmd + "&passcode="@ + passcode + (if is_json {
        "&is_json=true"@
    } else {
        Seq::empty()
    }) + (match uid {
        Some(u) => "&uid="@ + u,
        None => Seq::empty(),
    })
}

/// The request path for a command (see `command_path`).
pub fn request_path(cmd: &str, passcode: &str, is_json: bool, uid: Option<&str>) -> (r: String)
    ensures
        r@ == command_path(
            cmd@,
            passcode@,
            is_json,
            match uid {
                Some(u) => Some(u@),
                None => None,
            },
        ),
{
    let mut out = owned("/api/command?cmd=");
    append_text(&mut out, cmd);
    append_text(&mut out, "&passcode=");
    append_text(&mut out, passcode);
    if is_json {
        append_text(&mut out, "&is_json=true");
    }
    if let Some(u) = uid {
        append_text(&mut out, "&uid=");
        append_text(&mut out, u);
    }
    assert(out@ =~= command_path(
        cmd@,
        passcode@,
        is_json,
        match uid {
            Some(u) => Some(u@),
            None => None,
        },
    ));
    out
}

/// The HTTP request text a client sends for a path to a host.
pub open spec fn get_request(path: Seq<char>, host: Seq<char>) -> Seq<char> {
    "GET "@ + path + " HTTP/1.1\r\nHost: "@ + host + "\r\nConnection: close\r\n\r\n"@
}

/// The HTTP request text for a path (see `get_request`).
pub fn http_get_request(path: &str, host: &str) -> (r: String)
    ensures
        r@ == get_request(path@, host@),
{
    let mut out = owned("GET ");
    append_text(&mut out, path);
    append_text(&mut out, " HTTP/1.1\r\nHost: ");
    append_text(&mut out, host);
    append_text(&mut out, "\r\nConnection: close\r\n\r\n");
    assert(out@ =~= get_request(path@, host@));
    out
}

/// The HTTP answer text the host sends: status line, content type, the body's length in
/// bytes, `Connection: close`, a blank line and the body.
pub open spec fn http_answer(status: Seq<char>, content_type: Seq<char>, body: &str) -> Seq<char> {
    "HTTP/1.1 "@ + status + "\r\nContent-Type: "@ + content_type + "\r\nContent-Length: "@
        + decimal(body.spec_bytes().len()) + "\r\nConnection: close\r\n\r\n"@ + body@
}

/// The HTTP answer text (see `http_answer`).
pub fn http_response(status: &str, content_type: &str, body: &str) -> (r: String)
    ensures
        r@ == http_answer(status@, content_type@, body),
{
    let mut out = owned("HTTP/1.1 ");
    append_text(&mut out, status);
    append_text(&mut out, "\r\nContent-Type: ");
    append_text(&mut out, content_type);
    append_text(&mut out, "\r\nContent-Length: ");
    let n = body.as_bytes().len();
    let len_text = u64_text(n as u64);
    append_text(&mut out, len_text.as_str());
    append_text(&mut out, "\r\nConnection: close\r\n\r\n");
    append_text(&mut out, body);
    assert(out@ =~= http_answer(status@, content_type@, body));
    out
}

/// What a client makes of the host's answer.
#[derive(Debug, Clone, PartialEq)]
pub enum HostReply {
    /// `200 OK`: the body.
    Body(String),
    /// `403 Forbidden`: the passcode was refused.
    Denied,
    /// Another status: its status line.
    Failed(String),
    /// No blank line separating headers and body.
    Invalid,
}

pub enum ReplyView {
    Body(Seq<char>),
    Denied,
    Failed(Seq<char>),
    Invalid,
}

pub open spec fn reply_view(r: HostReply) -> ReplyView {
    match r {
        HostReply::Body(b) => ReplyView::Body(b@),
        HostReply::Denied => ReplyView::Denied,
        HostReply::Failed(l) => ReplyView::Failed(l@),
        HostReply::Invalid => ReplyView::Invalid,
    }
}

/// The first position from `i` at which `pat` occurs in `s`.
pub open spec fn find_sub_from(s: Seq<char>, pat: Seq<char>, i: int) -> Option<int>
    decreases s.len() + 1 - i,
{
    if i < 0 || i + pat.len() > s.len() {
        None
    } else if chars_at(s, i, pat) {
        Some(i)
    } else {
        find_sub_from(s, pat, i + 1)
    }
}

/// A client's reading of the host's answer text: no blank line is an invalid answer;
/// otherwise the status line decides (`200 OK`: the body after the blank line; `403
/// Forbidden`: refused; else a failure with the status line).
pub open spec fn host_reply(s: Seq<char>) -> ReplyView {
    match find_sub_from(s, "\r\n\r\n"@, 0) {
        None => ReplyView::Invalid,
        Some(p) => {
            let status = match first_line(s) {
                Some(l) => l,
                None => Seq::empty(),
            };
            if has_sub(status, "200 OK"@) {
                ReplyView::Body(s.skip(p + "\r\n\r\n"@.len()))
            } else if has_sub(status, "403 Forbidden"@) {
                ReplyView::Denied
            } else {
                ReplyView::Failed(status)
            }
        },
    }
}

pub(crate) fn find_sub_in(cs: &Vec<char>, pat: &Vec<char>) -> (r: Option<usize>)
    ensures
        crate::wire::opt_pos(r) == find_sub_from(cs@, pat@, 0),
{
    let n = cs.len();
    if pat.len() == 0 {
        assert(cs@.subrange(0, 0) =~= pat@);
        return Some(0);
    }
    let mut i: usize = 0;
    while i < n
        invariant
            n == cs@.len(),
            pat@.len() > 0,
            find_sub_from(cs@, pat@, 0) == find_sub_from(cs@, pat@, i as int),
        decreases n - i,
    {
        if pat.len() > n - i {
            return None;
        }
        let mut k: usize = 0;
        let mut same = true;
        while k < pat.len()
            invariant
                n == cs@.len(),
                i + pat@.len() <= cs@.len(),
                k <= pat@.len(),
                same == (forall|m: int| 0 <= m < k ==> cs@[i + m] == pat@[m]),
            decreases pat@.len() - k,
        {
            if cs[i + k] != pat[k] {
                same = false;
            }
            k = k + 1;
        }
        if same {
            assert(cs@.subrange(i as int, i + pat@.len()) =~= pat@);
            return Some(i);
        }
        proof {
            if chars_at(cs@, i as int, pat@) {
                assert forall|m: int| 0 <= m < pat@.len() implies cs@[i + m] == pat@[m] by {
                    assert(cs@.subrange(i as int, i + pat@.len())[m] == pat@[m]);
                }
            }
        }
        i = i + 1;
    }
    None
}

/// A client's reading of the host's answer bytes, decoded leniently (see `host_reply`).
pub fn read_host_reply(response: &[u8]) -> (r: HostReply)
    ensures
        reply_view(r) == host_reply(lossy_text(response@)),
{
    let text = decode_utf8_lossy(response);
    let cs = chars_of(text.as_str());
    let n = cs.len();
    let sep = chars_of("\r\n\r\n");
    let p = match find_sub_in(&cs, &sep) {
        None => return HostReply::Invalid,
        Some(p) => p,
    };
    proof {
        lemma_find_sub_found(cs@, sep@, 0);
    }
    assert(p + sep@.len() <= n);
    let status = match line_one(text.as_str()) {
        Some(l) => l,
        None => String::new(),
    };
    if text_contains(status.as_str(), "200 OK") {
        HostReply::Body(text_of(&cs, p + sep.len(), cs.len()))
    } else if text_contains(status.as_str(), "403 Forbidden") {
        HostReply::Denied
    } else {
        HostReply::Failed(status)
    }
}

pub proof fn lemma_find_sub_found(s: Seq<char>, pat: Seq<char>, i: int)
    ensures
        find_sub_from(s, pat, i) matches Some(p) ==> i <= p && 0 <= p && p + pat.len() <= s.len(),
    decreases s.len() + 1 - i,
{
    if 0 <= i && i + pat.len() <= s.len() && !chars_at(s, i, pat) {
        lemma_find_sub_found(s, pat, i + 1);
    }
}

} // verus!
