//! What a client's request makes the host do: a command request built by a client with
//! the host's passcode is run by the host as asked.
use vstd::prelude::*;
use crate::server::{
    command_path, first_index, first_line, get_request, host_route, is_ws, lemma_first_index,
    pairs_of, param, query_pairs, split_on, words_from, word_end, ws_end, RouteView,
};

verus! {

/// Text that can stand as a query value: no whitespace, `&` or `=`.
pub open spec fn query_safe(t: Seq<char>) -> bool {
    forall|i: int| 0 <= i < t.len() ==> !is_ws(#[trigger] t[i]) && t[i] != '&' && t[i] != '='
}

proof fn lemma_word_end_run(s: Seq<char>, i: int, k: int)
    requires
        0 <= i <= k <= s.len(),
        forall|m: int| i <= m < k ==> !is_ws(#[trigger] s[m]),
        k == s.len() || is_ws(s[k]),
    ensures
        word_end(s, i) == k,
    decreases k - i,
{
    if i < k {
        lemma_word_end_run(s, i + 1, k);
    }
}

proof fn lemma_ws_end_run(s: Seq<char>, i: int, k: int)
    requires
        0 <= i <= k <= s.len(),
        forall|m: int| i <= m < k ==> is_ws(#[trigger] s[m]),
        k == s.len() || !is_ws(s[k]),
    ensures
        ws_end(s, i) == k,
    decreases k - i,
{
    if i < k {
        lemma_ws_end_run(s, i + 1, k);
    }
}

proof fn lemma_first_index_at(s: Seq<char>, c: char, i: int, k: int)
    requires
        0 <= i <= k < s.len(),
        forall|m: int| i <= m < k ==> #[trigger] s[m] != c,
        s[k] == c,
    ensures
        first_index(s, c, i) == Some(k),
    decreases k - i,
{
    if i < k {
        lemma_first_index_at(s, c, i + 1, k);
    }
}

proof fn lemma_first_index_none(s: Seq<char>, c: char, i: int)
    requires
        0 <= i,
        forall|m: int| i <= m < s.len() ==> #[trigger] s[m] != c,
    ensures
        first_index(s, c, i) is None,
    decreases s.len() - i,
{
    if i < s.len() {
        lemma_first_index_none(s, c, i + 1);
    }
}

proof fn lemma_split_single(a: Seq<char>, c: char)
    requires
        forall|m: int| 0 <= m < a.len() ==> #[trigger] a[m] != c,
    ensures
        split_on(a, c) == seq![a],
{
    lemma_first_index_none(a, c, 0);
}

proof fn lemma_split_cons(a: Seq<char>, b: Seq<char>, c: char)
    requires
        forall|m: int| 0 <= m < a.len() ==> #[trigger] a[m] != c,
    ensures
        split_on(a + seq![c] + b, c) == seq![a] + split_on(b, c),
{
    let s = a + seq![c] + b;
    assert forall|m: int| 0 <= m < a.len() implies #[trigger] s[m] != c by {
        assert(s[m] == a[m]);
    }
    lemma_first_index_at(s, c, 0, a.len() as int);
    assert(s.take(a.len() as int) =~= a);
    assert(s.skip(a.len() as int + 1) =~= b);
}

/// A key and a value that holds no `=` make one pair.
proof fn lemma_pair_piece(key: Seq<char>, v: Seq<char>)
    requires
        forall|m: int| 0 <= m < key.len() ==> #[trigger] key[m] != '=',
        forall|m: int| 0 <= m < v.len() ==> #[trigger] v[m] != '=',
    ensures
        split_on(key + seq!['='] + v, '=') == seq![key, v],
{
    lemma_split_cons(key, v, '=');
    lemma_split_single(v, '=');
    assert(seq![key] + seq![v] =~= seq![key, v]);
}

proof fn lemma_literals()
    ensures
        "/api/command?cmd="@ =~= "/api/command"@ + seq!['?'] + "cmd"@ + seq!['='],
        "&passcode="@ =~= seq!['&'] + "passcode"@ + seq!['='],
        "&is_json=true"@ =~= seq!['&'] + "is_json"@ + seq!['='] + "true"@,
        "&uid="@ =~= seq!['&'] + "uid"@ + seq!['='],
        "GET "@ =~= "GET"@ + seq![' '],
        " HTTP/1.1\r\nHost: "@ =~= seq![' '] + "HTTP/1.1"@ + seq!['\r', '\n'] + "Host: "@,
        "/api/command"@.len() == 12,
        "GET"@.len() == 3,
        "HTTP/1.1"@.len() == 8,
        "/api/command"@[0] == '/',
        "true"@ != "false"@,
        "cmd"@ != "passcode"@,
        "cmd"@ != "is_json"@,
        "cmd"@ != "uid"@,
        "passcode"@ != "is_json"@,
        "passcode"@ != "uid"@,
        "is_json"@ != "uid"@,
        query_safe("cmd"@),
        query_safe("passcode"@),
        query_safe("is_json"@),
        query_safe("uid"@),
        query_safe("true"@),
        forall|m: int| 0 <= m < 12 ==> !is_ws(#[trigger] "/api/command"@[m]) && "/api/command"@[m] != '?',
        forall|m: int| 0 <= m < 3 ==> !is_ws(#[trigger] "GET"@[m]),
        forall|m: int| 0 <= m < 8 ==> !is_ws(#[trigger] "HTTP/1.1"@[m]),
{
    reveal_strlit("/api/command?cmd=");
    reveal_strlit("/api/command");
    reveal_strlit("cmd");
    reveal_strlit("&passcode=");
    reveal_strlit("passcode");
    reveal_strlit("&is_json=true");
    reveal_strlit("is_json");
    reveal_strlit("true");
    reveal_strlit("false");
    reveal_strlit("&uid=");
    reveal_strlit("uid");
    reveal_strlit("GET ");
    reveal_strlit("GET");
    reveal_strlit(" HTTP/1.1\r\nHost: ");
    reveal_strlit("HTTP/1.1");
    reveal_strlit("Host: ");
    assert("true"@[0] != "false"@[0]);
    assert("cmd"@.len() != "passcode"@.len());
    assert("cmd"@.len() != "is_json"@.len());
    assert("cmd"@[0] != "uid"@[0]);
    assert("passcode"@.len() != "is_json"@.len());
    assert("passcode"@.len() != "uid"@.len());
    assert("is_json"@.len() != "uid"@.len());
}

/// The query part of a command path.
pub open spec fn command_query_of(cmd: Seq<char>, passcode: Seq<char>, is_json: bool, uid: Option<Seq<char>>) -> Seq<char> {
    "cmd"@ + seq!['='] + cmd + seq!['&'] + "passcode"@ + seq!['='] + passcode + (if is_json {
        seq!['&'] + "is_json"@ + seq!['='] + "true"@
    } else {
        Seq::empty()
    }) + (match uid {
        Some(u) => seq!['&'] + "uid"@ + seq!['='] + u,
        None => Seq::empty(),
    })
}

/// The pairs of a command query.
pub open spec fn command_pairs(cmd: Seq<char>, passcode: Seq<char>, is_json: bool, uid: Option<Seq<char>>) -> Seq<(Seq<char>, Seq<char>)> {
    seq![("cmd"@, cmd), ("passcode"@, passcode)] + (if is_json {
        seq![("is_json"@, "true"@)]
    } else {
        Seq::empty()
    }) + (match uid {
        Some(u) => seq![("uid"@, u)],
        None => Seq::empty(),
    })
}

proof fn lemma_safe_piece(key: Seq<char>, v: Seq<char>)
    requires
        query_safe(key),
        query_safe(v),
    ensures
        forall|m: int| 0 <= m < (key + seq!['='] + v).len() ==> #[trigger] (key + seq!['='] + v)[m] != '&',
        split_on(key + seq!['='] + v, '=') == seq![key, v],
{
    let p = key + seq!['='] + v;
    assert forall|m: int| 0 <= m < p.len() implies #[trigger] p[m] != '&' by {
        if m < key.len() {
            assert(p[m] == key[m]);
        } else if m > key.len() {
            assert(p[m] == v[m - key.len() - 1]);
        }
    }
    lemma_pair_piece(key, v);
}

proof fn lemma_query_pairs(cmd: Seq<char>, passcode: Seq<char>, is_json: bool, uid: Option<Seq<char>>)
    requires
        query_safe(cmd),
        query_safe(passcode),
        uid matches Some(u) ==> query_safe(u),
    ensures
        query_pairs(command_query_of(cmd, passcode, is_json, uid)) == command_pairs(cmd, passcode, is_json, uid),
{
    lemma_literals();
    let a = "cmd"@ + seq!['='] + cmd;
    let b = "passcode"@ + seq!['='] + passcode;
    let c = "is_json"@ + seq!['='] + "true"@;
    lemma_safe_piece("cmd"@, cmd);
    lemma_safe_piece("passcode"@, passcode);
    lemma_safe_piece("is_json"@, "true"@);
    let q = command_query_of(cmd, passcode, is_json, uid);
    let pieces: Seq<Seq<char>> = match uid {
        Some(u) => {
            let d = "uid"@ + seq!['='] + u;
            lemma_safe_piece("uid"@, u);
            lemma_split_single(d, '&');
            if is_json {
                assert(q =~= a + seq!['&'] + (b + seq!['&'] + (c + seq!['&'] + d)));
                lemma_split_cons(c, d, '&');
                lemma_split_cons(b, c + seq!['&'] + d, '&');
                lemma_split_cons(a, b + seq!['&'] + (c + seq!['&'] + d), '&');
                seq![a, b, c, d]
            } else {
                assert(q =~= a + seq!['&'] + (b + seq!['&'] + d));
                lemma_split_cons(b, d, '&');
                lemma_split_cons(a, b + seq!['&'] + d, '&');
                seq![a, b, d]
            }
        },
        None => {
            if is_json {
                assert(q =~= a + seq!['&'] + (b + seq!['&'] + c));
                lemma_split_single(c, '&');
                lemma_split_cons(b, c, '&');
                lemma_split_cons(a, b + seq!['&'] + c, '&');
                seq![a, b, c]
            } else {
                assert(q =~= a + seq!['&'] + b);
                lemma_split_single(b, '&');
                lemma_split_cons(a, b, '&');
                seq![a, b]
            }
        },
    };
    assert(split_on(q, '&') =~= pieces);
    reveal_with_fuel(pairs_of, 5);
    assert(query_pairs(q) =~= command_pairs(cmd, passcode, is_json, uid));
}

proof fn lemma_command_params(cmd: Seq<char>, passcode: Seq<char>, is_json: bool, uid: Option<Seq<char>>)
    ensures
        param(command_pairs(cmd, passcode, is_json, uid), "passcode"@) == Some(passcode),
        param(command_pairs(cmd, passcode, is_json, uid), "cmd"@) == Some(cmd),
        param(command_pairs(cmd, passcode, is_json, uid), "is_json"@) == (if is_json {
            Some("true"@)
        } else {
            None::<Seq<char>>
        }),
        param(command_pairs(cmd, passcode, is_json, uid), "uid"@) == uid,
{
    lemma_literals();
    reveal_with_fuel(param, 5);
    let ps = command_pairs(cmd, passcode, is_json, uid);
    match uid {
        Some(u) => {
            if is_json {
                assert(ps =~= seq![("cmd"@, cmd), ("passcode"@, passcode), ("is_json"@, "true"@), ("uid"@, u)]);
            } else {
                assert(ps =~= seq![("cmd"@, cmd), ("passcode"@, passcode), ("uid"@, u)]);
            }
        },
        None => {
            if is_json {
                assert(ps =~= seq![("cmd"@, cmd), ("passcode"@, passcode), ("is_json"@, "true"@)]);
            } else {
                assert(ps =~= seq![("cmd"@, cmd), ("passcode"@, passcode)]);
            }
        },
    }
}

/// The request line of a client's request: `GET`, the path and `HTTP/1.1`.
proof fn lemma_request_words(path: Seq<char>)
    requires
        path.len() > 0,
        forall|m: int| 0 <= m < path.len() ==> !is_ws(#[trigger] path[m]),
    ensures
        words_from("GET"@ + seq![' '] + path + seq![' '] + "HTTP/1.1"@, 0) == seq![
            "GET"@,
            path,
            "HTTP/1.1"@,
        ],
{
    lemma_literals();
    let g = "GET"@;
    let h = "HTTP/1.1"@;
    let l = g + seq![' '] + path + seq![' '] + h;
    let n = path.len() as int;
    assert(is_ws(' '));
    assert forall|m: int| 0 <= m < 3 implies !is_ws(#[trigger] l[m]) by {
        assert(l[m] == g[m]);
    }
    assert forall|m: int| 4 <= m < 4 + n implies !is_ws(#[trigger] l[m]) by {
        assert(l[m] == path[m - 4]);
    }
    assert forall|m: int| 5 + n <= m < 13 + n implies !is_ws(#[trigger] l[m]) by {
        assert(l[m] == h[m - 5 - n]);
    }
    assert(l.len() == 13 + n);
    assert(l[3] == ' ');
    assert(l[4 + n] == ' ');
    lemma_ws_end_run(l, 0, 0);
    lemma_word_end_run(l, 0, 3);
    assert forall|m: int| 3 <= m < 4 implies is_ws(#[trigger] l[m]) by {}
    lemma_ws_end_run(l, 3, 4);
    lemma_word_end_run(l, 4, 4 + n);
    assert forall|m: int| 4 + n <= m < 5 + n implies is_ws(#[trigger] l[m]) by {}
    lemma_ws_end_run(l, 4 + n, 5 + n);
    lemma_word_end_run(l, 5 + n, 13 + n);
    lemma_ws_end_run(l, 13 + n, 13 + n);
    assert(l.subrange(0, 3) =~= g);
    assert(l.subrange(4, 4 + n) =~= path);
    assert(l.subrange(5 + n, 13 + n) =~= h);
    assert(words_from(l, 13 + n) == Seq::<Seq<char>>::empty());
    assert(words_from(l, 4 + n) == seq![h] + words_from(l, 13 + n));
    assert(words_from(l, 3) == seq![path] + words_from(l, 4 + n));
    assert(words_from(l, 0) == seq![g] + words_from(l, 3));
    assert(words_from(l, 0) =~= seq![g, path, h]);
}

/// A command request a client builds with the host's passcode is run by the host as
/// asked: the same command, JSON choice and player, whatever host name it carries, as
/// long as the command, passcode and player hold no whitespace, `&` or `=`.
pub proof fn lemma_client_request_runs(
    cmd: Seq<char>,
    passcode: Seq<char>,
    is_json: bool,
    uid: Option<Seq<char>>,
    host: Seq<char>,
)
    requires
        query_safe(cmd),
        query_safe(passcode),
        uid matches Some(u) ==> query_safe(u),
    ensures
        host_route(get_request(command_path(cmd, passcode, is_json, uid), host), passcode)
            == (RouteView::Run { cmd, is_json, uid }),
{
    lemma_literals();
    let q = command_query_of(cmd, passcode, is_json, uid);
    let p = command_path(cmd, passcode, is_json, uid);
    let api = "/api/command"@;
    assert(p =~= api + seq!['?'] + q);
    assert forall|m: int| 0 <= m < q.len() implies !is_ws(#[trigger] q[m]) by {
        let a = "cmd"@ + seq!['='] + cmd + seq!['&'] + "passcode"@ + seq!['='] + passcode;
        let j: Seq<char> = if is_json {
            seq!['&'] + "is_json"@ + seq!['='] + "true"@
        } else {
            Seq::empty()
        };
        let u: Seq<char> = match uid {
            Some(x) => seq!['&'] + "uid"@ + seq!['='] + x,
            None => Seq::empty(),
        };
        assert(q =~= a + j + u);
        let c3 = "cmd"@.len() as int;
        let p8 = "passcode"@.len() as int;
        if m < a.len() {
            if m < c3 {
                assert(q[m] == "cmd"@[m]);
            } else if m == c3 {
            } else if m < c3 + 1 + cmd.len() {
                assert(q[m] == cmd[m - c3 - 1]);
            } else if m == c3 + 1 + cmd.len() {
            } else if m < c3 + 2 + cmd.len() + p8 {
                assert(q[m] == "passcode"@[m - c3 - 2 - cmd.len()]);
            } else if m == c3 + 2 + cmd.len() + p8 {
            } else {
                assert(q[m] == passcode[m - c3 - 3 - cmd.len() - p8]);
            }
        } else if m < a.len() + j.len() {
            let k = m - a.len();
            assert(q[m] == j[k]);
            if is_json {
                let i7 = "is_json"@.len() as int;
                if k == 0 {
                } else if k < 1 + i7 {
                    assert(j[k] == "is_json"@[k - 1]);
                } else if k == 1 + i7 {
                } else {
                    assert(j[k] == "true"@[k - 2 - i7]);
                }
            }
        } else {
            let k = m - a.len() - j.len();
            assert(q[m] == u[k]);
            match uid {
                Some(x) => {
                    let u3 = "uid"@.len() as int;
                    if k == 0 {
                    } else if k < 1 + u3 {
                        assert(u[k] == "uid"@[k - 1]);
                    } else if k == 1 + u3 {
                    } else {
                        assert(u[k] == x[k - 2 - u3]);
                    }
                },
                None => {},
            }
        }
    }
    assert forall|m: int| 0 <= m < p.len() implies !is_ws(#[trigger] p[m]) by {
        if m < 12 {
            assert(p[m] == api[m]);
        } else if m > 12 {
            assert(p[m] == q[m - 13]);
        }
    }
    let g = "GET"@;
    let h = "HTTP/1.1"@;
    let line = g + seq![' '] + p + seq![' '] + h;
    let req = get_request(p, host);
    let rest = "Host: "@ + host + "\r\nConnection: close\r\n\r\n"@;
    assert(req =~= line + seq!['\r', '\n'] + rest);
    let n = line.len() as int;
    assert forall|m: int| 0 <= m < n + 1 implies #[trigger] req[m] != '\n' by {
        if m < n {
            assert(req[m] == line[m]);
            if m < 3 {
                assert(line[m] == g[m]);
            } else if m == 3 {
            } else if m < 4 + p.len() {
                assert(line[m] == p[m - 4]);
            } else if m == 4 + p.len() {
            } else {
                assert(line[m] == h[m - 5 - p.len()]);
            }
        }
    }
    lemma_first_index_at(req, '\n', 0, n + 1);
    assert(req.take(n + 1) =~= line.push('\r'));
    assert(req.take(n + 1).drop_last() =~= line);
    assert(first_line(req) == Some(line));
    lemma_request_words(p);
    assert forall|m: int| 0 <= m < 12 implies #[trigger] p[m] != '?' by {
        assert(p[m] == api[m]);
    }
    lemma_first_index_at(p, '?', 0, 12);
    assert(p.take(12) =~= api);
    assert(p.skip(13) =~= q);
    lemma_query_pairs(cmd, passcode, is_json, uid);
    lemma_command_params(cmd, passcode, is_json, uid);
}

} // verus!
