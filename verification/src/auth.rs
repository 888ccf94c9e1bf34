use vstd::prelude::*;

use crate::paths::{
    app_dir, app_dir_name, credentials_file_name, ends_with, is_app_dir, is_path_separator,
    is_verbatim, join_path, joins_to, ConfigError,
};
use crate::text::{
    chars_of, find_char, first_index, is_ws, lemma_first_index_is, lemma_first_index_none,
    lemma_split_pieces, lemma_word_at, lemma_words_have_no_ws, next_word, split_seq, words,
    words_from,
};

verus! {

/// The name of the query parameter that carries the authorization code.
pub open spec fn code_key() -> Seq<char> {
    seq!['c', 'o', 'd', 'e']
}

/// The value of a `key=value` query parameter named `key`: everything after
/// the first `=`. A parameter without `=` has no value.
pub open spec fn param_value(param: Seq<char>, key: Seq<char>) -> Option<Seq<char>> {
    match first_index(param, '=') {
        Some(e) => if param.take(e) == key {
            Some(param.skip(e + 1))
        } else {
            None
        },
        None => None,
    }
}

/// The value of the first parameter in `params` that is named `key`.
pub open spec fn lookup_param(params: Seq<Seq<char>>, key: Seq<char>) -> Option<Seq<char>>
    decreases params.len(),
{
    if params.len() == 0 {
        None
    } else {
        match param_value(params[0], key) {
            Some(v) => Some(v),
            None => lookup_param(params.drop_first(), key),
        }
    }
}

/// The authorization code that an HTTP request line hands to the local
/// callback: the request target is the second word of the line, its query is
/// what follows the first `?`, and the code is the value of the first `code`
/// parameter among the `&`-separated parameters of that query.
pub open spec fn callback_code(request: Seq<char>) -> Option<Seq<char>> {
    let parts = words(request);
    if parts.len() < 2 {
        None
    } else {
        let url = parts[1];
        match first_index(url, '?') {
            None => None,
            Some(q) => lookup_param(split_seq(url.skip(q + 1), '&'), code_key()),
        }
    }
}

/// `s` holds no white space.
pub open spec fn has_no_ws(s: Seq<char>) -> bool {
    forall|i: int| 0 <= i < s.len() ==> !is_ws(#[trigger] s[i])
}

/// `s` does not hold `c`.
pub open spec fn lacks(s: Seq<char>, c: char) -> bool {
    forall|i: int| 0 <= i < s.len() ==> #[trigger] s[i] != c
}

/// The request line that a browser sends to the callback when the consent
/// page redirects it: `<method> <path>?code=<code><rest><tail>`, where `rest`
/// holds further query parameters and `tail` is what follows the target,
/// such as ` HTTP/1.1`.
pub open spec fn callback_request(
    method: Seq<char>,
    path: Seq<char>,
    code: Seq<char>,
    rest: Seq<char>,
    tail: Seq<char>,
) -> Seq<char> {
    method + seq![' '] + path + seq!['?'] + seq!['c', 'o', 'd', 'e'] + seq!['='] + code + rest + tail
}

/// The code that the consent page appends to the redirect target is the
/// code that `extract_code` reads from the browser's request line, whatever
/// parameters follow it.
pub proof fn law_callback_code_round_trip(
    method: Seq<char>,
    path: Seq<char>,
    code: Seq<char>,
    rest: Seq<char>,
    tail: Seq<char>,
)
    requires
        method.len() > 0,
        has_no_ws(method),
        has_no_ws(path),
        lacks(path, '?'),
        has_no_ws(code),
        lacks(code, '&'),
        has_no_ws(rest),
        rest.len() == 0 || rest[0] == '&',
        tail.len() == 0 || is_ws(tail[0]),
    ensures
        callback_code(callback_request(method, path, code, rest, tail)) == Some(code),
{
    let key = code_key();
    let p = key + seq!['='] + code;
    let q = p + rest;
    let target = path + seq!['?'] + q;
    let s = callback_request(method, path, code, rest, tail);
    let m = method.len() as int;
    let t = target.len() as int;
    assert(s =~= method + seq![' '] + target + tail);
    assert forall|j: int| 0 <= j < m implies !is_ws(#[trigger] s[j]) by {
        assert(s[j] == method[j]);
    }
    lemma_word_at(s, 0, m);
    assert(s[m] == ' ');
    assert(words_from(s, m) == words_from(s, m + 1));
    assert forall|j: int| 0 <= j < t implies !is_ws(#[trigger] target[j]) by {
        if j < path.len() {
            assert(target[j] == path[j]);
        } else if j > path.len() {
            let k = j - path.len() - 1;
            assert(target[j] == q[k]);
            if k < 4 {
                assert(q[k] == key[k]);
            } else if k > 4 && k < p.len() {
                assert(q[k] == code[k - 5]);
            } else if k >= p.len() {
                assert(q[k] == rest[k - p.len()]);
            }
        }
    }
    assert forall|j: int| m + 1 <= j < m + 1 + t implies !is_ws(#[trigger] s[j]) by {
        assert(s[j] == target[j - m - 1]);
    }
    if tail.len() > 0 {
        assert(s[m + 1 + t] == tail[0]);
    }
    lemma_word_at(s, m + 1, m + 1 + t);
    assert(s.subrange(m + 1, m + 1 + t) =~= target);
    assert(s.subrange(0, m) =~= method);
    let later = words_from(s, m + 1 + t);
    assert(words(s) == seq![method] + (seq![target] + later));
    assert(words(s)[1] == target);
    assert forall|j: int| 0 <= j < path.len() implies target[j] != '?' by {
        assert(target[j] == path[j]);
    }
    lemma_first_index_is(target, '?', path.len() as int);
    assert(target.skip(path.len() + 1int) =~= q);
    assert forall|j: int| 0 <= j < p.len() implies #[trigger] p[j] != '&' by {
        if j > 4 {
            assert(p[j] == code[j - 5]);
        }
    }
    if rest.len() == 0 {
        assert(q =~= p);
        lemma_first_index_none(q, '&');
        assert(split_seq(q, '&') == seq![q]);
    } else {
        assert forall|j: int| 0 <= j < p.len() implies q[j] != '&' by {
            assert(q[j] == p[j]);
        }
        assert(q[p.len() as int] == rest[0]);
        lemma_first_index_is(q, '&', p.len() as int);
        assert(q.take(p.len() as int) =~= p);
        assert(split_seq(q, '&') == seq![p] + split_seq(q.skip(p.len() + 1int), '&'));
    }
    let params = split_seq(q, '&');
    assert(params[0] == p);
    lemma_first_index_is(p, '=', 4);
    assert(p.take(4) =~= key);
    assert(p.skip(5) =~= code);
    assert(param_value(p, key) == Some(code));
}

/// The value found among parameters that hold neither white space nor `&`
/// holds neither.
proof fn lemma_lookup_is_clean(params: Seq<Seq<char>>, key: Seq<char>)
    requires
        forall|k: int, j: int|
            0 <= k < params.len() && 0 <= j < params[k].len() ==> !is_ws(#[trigger] params[k][j])
                && params[k][j] != '&',
    ensures
        lookup_param(params, key) matches Some(v) ==> has_no_ws(v) && lacks(v, '&'),
    decreases params.len(),
{
    if params.len() > 0 {
        let p = params[0];
        match first_index(p, '=') {
            Some(e) => {
                crate::text::lemma_first_index(p, '=');
                assert forall|j: int| 0 <= j < p.skip(e + 1).len() implies !is_ws(
                    #[trigger] p.skip(e + 1)[j],
                ) && p.skip(e + 1)[j] != '&' by {
                    assert(p.skip(e + 1)[j] == params[0][j + e + 1]);
                }
            },
            None => {},
        }
        let rest = params.drop_first();
        assert forall|k: int, j: int| 0 <= k < rest.len() && 0 <= j < rest[k].len() implies !is_ws(
            #[trigger] rest[k][j],
        ) && rest[k][j] != '&' by {
            assert(rest[k] == params[k + 1]);
        }
        lemma_lookup_is_clean(rest, key);
    }
}

/// A code read from a request line is the value of one query parameter: it
/// holds neither white space nor `&`.
pub proof fn law_callback_code_is_one_value(request: Seq<char>)
    ensures
        callback_code(request) matches Some(code) ==> has_no_ws(code) && lacks(code, '&'),
{
    let parts = words(request);
    lemma_words_have_no_ws(request, 0);
    if parts.len() >= 2 {
        let url = parts[1];
        assert forall|j: int| 0 <= j < url.len() implies !is_ws(#[trigger] url[j]) by {
            assert(parts[1][j] == url[j]);
        }
        if let Some(q) = first_index(url, '?') {
            crate::text::lemma_first_index(url, '?');
            let query = url.skip(q + 1);
            let keep = |c: char| !is_ws(c);
            assert forall|i: int| 0 <= i < query.len() implies keep(#[trigger] query[i]) by {
                assert(query[i] == url[i + q + 1]);
            }
            lemma_split_pieces(query, '&', keep);
            lemma_lookup_is_clean(split_seq(query, '&'), code_key());
        }
    }
}

/// The request line `<method> <path>?<query><tail>` hands the callback the
/// query `query`: its code is the first `code` parameter of the query.
proof fn lemma_callback_query(method: Seq<char>, path: Seq<char>, query: Seq<char>, tail: Seq<char>)
    requires
        method.len() > 0,
        has_no_ws(method),
        has_no_ws(path),
        lacks(path, '?'),
        has_no_ws(query),
        tail.len() == 0 || is_ws(tail[0]),
    ensures
        callback_code(method + seq![' '] + path + seq!['?'] + query + tail) == lookup_param(
            split_seq(query, '&'),
            code_key(),
        ),
{
    let target = path + seq!['?'] + query;
    let s = method + seq![' '] + path + seq!['?'] + query + tail;
    let m = method.len() as int;
    let t = target.len() as int;
    assert(s =~= method + seq![' '] + target + tail);
    assert forall|j: int| 0 <= j < m implies !is_ws(#[trigger] s[j]) by {
        assert(s[j] == method[j]);
    }
    lemma_word_at(s, 0, m);
    assert(s[m] == ' ');
    assert(words_from(s, m) == words_from(s, m + 1));
    assert forall|j: int| 0 <= j < t implies !is_ws(#[trigger] target[j]) by {
        if j < path.len() {
            assert(target[j] == path[j]);
        } else if j > path.len() {
            assert(target[j] == query[j - path.len() - 1]);
        }
    }
    assert forall|j: int| m + 1 <= j < m + 1 + t implies !is_ws(#[trigger] s[j]) by {
        assert(s[j] == target[j - m - 1]);
    }
    if tail.len() > 0 {
        assert(s[m + 1 + t] == tail[0]);
    }
    lemma_word_at(s, m + 1, m + 1 + t);
    assert(s.subrange(m + 1, m + 1 + t) =~= target);
    assert(s.subrange(0, m) =~= method);
    let later = words_from(s, m + 1 + t);
    assert(words(s) == seq![method] + (seq![target] + later));
    assert(words(s)[1] == target);
    assert forall|j: int| 0 <= j < path.len() implies target[j] != '?' by {
        assert(target[j] == path[j]);
    }
    lemma_first_index_is(target, '?', path.len() as int);
    assert(target.skip(path.len() + 1int) =~= query);
}

/// The query `code=<code><rest>` gives the code `code`, when `rest` is empty
/// or starts the next parameter.
proof fn lemma_code_parameter_first(code: Seq<char>, rest: Seq<char>)
    requires
        lacks(code, '&'),
        rest.len() == 0 || rest[0] == '&',
    ensures
        lookup_param(split_seq(seq!['c', 'o', 'd', 'e', '='] + code + rest, '&'), code_key())
            == Some(code),
{
    let key = code_key();
    let p = seq!['c', 'o', 'd', 'e', '='] + code;
    let q = p + rest;
    assert(seq!['c', 'o', 'd', 'e', '='] + code + rest =~= q);
    assert forall|j: int| 0 <= j < p.len() implies #[trigger] p[j] != '&' by {
        if j > 4 {
            assert(p[j] == code[j - 5]);
        }
    }
    if rest.len() == 0 {
        assert(q =~= p);
        lemma_first_index_none(q, '&');
        assert(split_seq(q, '&') == seq![q]);
    } else {
        assert forall|j: int| 0 <= j < p.len() implies q[j] != '&' by {
            assert(q[j] == p[j]);
        }
        assert(q[p.len() as int] == rest[0]);
        lemma_first_index_is(q, '&', p.len() as int);
        assert(q.take(p.len() as int) =~= p);
        assert(split_seq(q, '&') == seq![p] + split_seq(q.skip(p.len() + 1int), '&'));
    }
    let params = split_seq(q, '&');
    assert(params[0] == p);
    lemma_first_index_is(p, '=', 4);
    assert(p.take(4) =~= key);
    assert(p.skip(5) =~= code);
    assert(param_value(p, key) == Some(code));
}

/// Only a parameter whose whole name is `code` carries the code: a
/// parameter before it that does not start with `code=` (such as
/// `xcode=bad` or `state=1`) is passed over, and the code is the value of
/// the `code` parameter after it.
pub proof fn law_only_the_code_parameter_counts(
    method: Seq<char>,
    path: Seq<char>,
    other: Seq<char>,
    code: Seq<char>,
    rest: Seq<char>,
    tail: Seq<char>,
)
    requires
        method.len() > 0,
        has_no_ws(method),
        has_no_ws(path),
        lacks(path, '?'),
        has_no_ws(other),
        lacks(other, '&'),
        !(other.len() >= 5 && other.take(5) == seq!['c', 'o', 'd', 'e', '=']),
        has_no_ws(code),
        lacks(code, '&'),
        has_no_ws(rest),
        rest.len() == 0 || rest[0] == '&',
        tail.len() == 0 || is_ws(tail[0]),
    ensures
        callback_code(
            method + seq![' '] + path + seq!['?'] + other + seq!['&'] + seq!['c', 'o', 'd', 'e', '=']
                + code + rest + tail,
        ) == Some(code),
{
    let second = seq!['c', 'o', 'd', 'e', '='] + code + rest;
    let query = other + seq!['&'] + second;
    assert(method + seq![' '] + path + seq!['?'] + other + seq!['&'] + seq!['c', 'o', 'd', 'e', '=']
        + code + rest + tail =~= method + seq![' '] + path + seq!['?'] + query + tail);
    assert forall|j: int| 0 <= j < query.len() implies !is_ws(#[trigger] query[j]) by {
        if j < other.len() {
            assert(query[j] == other[j]);
        } else if j > other.len() {
            let k = j - other.len() - 1;
            assert(query[j] == second[k]);
            if k >= 5 && k < 5 + code.len() {
                assert(second[k] == code[k - 5]);
            } else if k >= 5 + code.len() {
                assert(second[k] == rest[k - 5 - code.len()]);
            }
        }
    }
    lemma_callback_query(method, path, query, tail);
    assert forall|j: int| 0 <= j < other.len() implies query[j] != '&' by {
        assert(query[j] == other[j]);
    }
    lemma_first_index_is(query, '&', other.len() as int);
    assert(query.take(other.len() as int) =~= other);
    assert(query.skip(other.len() + 1int) =~= second);
    let params = split_seq(query, '&');
    assert(params == seq![other] + split_seq(second, '&'));
    assert(params[0] == other);
    assert(params.drop_first() =~= split_seq(second, '&'));
    crate::text::lemma_first_index(other, '=');
    if let Some(e) = first_index(other, '=') {
        if other.take(e) == code_key() {
            assert(other.take(e).len() == e);
            assert(code_key().len() == 4);
            assert(e == 4);
            assert forall|j: int| 0 <= j < 4 implies other[j] == code_key()[j] by {
                assert(other.take(e)[j] == other[j]);
            }
            assert(other.take(5) =~= seq!['c', 'o', 'd', 'e', '=']);
        }
    }
    assert(param_value(other, code_key()) is None);
    lemma_code_parameter_first(code, rest);
}

/// The consent URL carries the whole client ID, unchanged, right after
/// `client_id=`, and different clients get different URLs.
pub proof fn law_auth_url_carries_client_id(client_id: Seq<char>, other: Seq<char>)
    ensures
        exists|rest: Seq<char>|
            auth_url(client_id) == "https://accounts.google.com/o/oauth2/auth?client_id="@
                + client_id + "&redirect_uri="@ + rest,
        auth_url(client_id) == auth_url(other) ==> client_id == other,
{
    let prefix = "https://accounts.google.com/o/oauth2/auth?client_id="@;
    let rest = redirect_uri()
        + "&response_type=code&scope=https://www.googleapis.com/auth/youtube.force-ssl&access_type=offline&prompt=consent"@;
    assert(auth_url(client_id) =~= prefix + client_id + "&redirect_uri="@ + rest);
    assert(auth_url(other) =~= prefix + other + "&redirect_uri="@ + rest);
    if auth_url(client_id) == auth_url(other) {
        let a = prefix + client_id + "&redirect_uri="@ + rest;
        let b = prefix + other + "&redirect_uri="@ + rest;
        assert(client_id.len() == other.len());
        assert forall|i: int| 0 <= i < client_id.len() implies client_id[i] == other[i] by {
            assert(a[prefix.len() + i] == client_id[i]);
            assert(b[prefix.len() + i] == other[i]);
        }
        assert(client_id =~= other);
    }
}

/// The token form sends the code, the client ID and the client secret
/// exactly as given, in its first three fields.
pub proof fn law_token_form_sends_what_it_is_given(
    client_id: Seq<char>,
    client_secret: Seq<char>,
    code: Seq<char>,
)
    ensures
        token_form_fields(client_id, client_secret, code).len() == 5,
        token_form_fields(client_id, client_secret, code)[0] == ("code"@, code),
        token_form_fields(client_id, client_secret, code)[1] == ("client_id"@, client_id),
        token_form_fields(client_id, client_secret, code)[2] == ("client_secret"@, client_secret),
{
}

/// Whether `v[a..b]` spells the parameter name `code`.
fn is_code_key(v: &Vec<char>, a: usize, b: usize) -> (r: bool)
    requires
        a <= b <= v@.len(),
    ensures
        r == (v@.subrange(a as int, b as int) == code_key()),
{
    if b - a != 4 {
        proof {
            assert(v@.subrange(a as int, b as int).len() != code_key().len());
        }
        return false;
    }
    let r = v[a] == 'c' && v[a + 1] == 'o' && v[a + 2] == 'd' && v[a + 3] == 'e';
    proof {
        let s = v@.subrange(a as int, b as int);
        if r {
            assert(s =~= code_key());
        } else {
            if s == code_key() {
                assert(s[0] == 'c' && s[1] == 'o' && s[2] == 'd' && s[3] == 'e');
            }
        }
    }
    r
}

/// Reads the authorization code out of the request line that the browser
/// sends to the local callback, such as `GET /callback?code=abc HTTP/1.1`.
pub fn extract_code(request: &str) -> (r: Option<String>)
    ensures
        match r {
            Some(code) => callback_code(request@) == Some(code@),
            None => callback_code(request@) is None,
        },
{
    let v = chars_of(request);
    let (_a, b) = match next_word(&v, 0) {
        None => {
            return None;
        },
        Some(span) => span,
    };
    let (c, d) = match next_word(&v, b) {
        None => {
            proof {
                assert(words(v@) =~= seq![v@.subrange(_a as int, b as int)]);
            }
            return None;
        },
        Some(span) => span,
    };
    let ghost url = v@.subrange(c as int, d as int);
    proof {
        let rest = words_from(v@, d as int);
        assert(words(v@) == seq![v@.subrange(_a as int, b as int)] + (seq![url] + rest));
        assert(words(v@)[1] == url);
    }
    let q = match find_char(&v, c, d, '?') {
        None => {
            return None;
        },
        Some(q) => q,
    };
    proof {
        assert(url.skip(q - c + 1) =~= v@.subrange(q + 1, d as int));
    }
    let mut start = q + 1;
    loop
        invariant
            start <= d <= v@.len(),
            v@ == request@,
            callback_code(request@) == lookup_param(
                split_seq(v@.subrange(start as int, d as int), '&'),
                code_key(),
            ),
        decreases d - start,
    {
        let ghost t = v@.subrange(start as int, d as int);
        let amp = find_char(&v, start, d, '&');
        let seg_end = match amp {
            Some(k) => k,
            None => d,
        };
        let ghost param = v@.subrange(start as int, seg_end as int);
        proof {
            match amp {
                Some(k) => {
                    assert(t.take(k - start) =~= param);
                    assert(t.skip(k - start + 1) =~= v@.subrange(k + 1, d as int));
                    let rest = split_seq(v@.subrange(k + 1, d as int), '&');
                    assert(split_seq(t, '&') == seq![param] + rest);
                    assert((seq![param] + rest)[0] == param);
                    assert((seq![param] + rest).drop_first() =~= rest);
                },
                None => {
                    assert(param =~= t);
                    assert(split_seq(t, '&') == seq![param]);
                    assert(seq![param][0] == param);
                    assert(seq![param].drop_first() =~= Seq::<Seq<char>>::empty());
                },
            }
        }
        match find_char(&v, start, seg_end, '=') {
            Some(eq) => {
                proof {
                    assert(param.take(eq - start) =~= v@.subrange(start as int, eq as int));
                    assert(param.skip(eq - start + 1) =~= v@.subrange(eq + 1, seg_end as int));
                }
                if is_code_key(&v, start, eq) {
                    let value = request.substring_char(eq + 1, seg_end);
                    return Some(String::from_str(value));
                }
            },
            None => {},
        }
        match amp {
            Some(k) => {
                start = k + 1;
            },
            None => {
                proof {
                    assert(lookup_param(Seq::<Seq<char>>::empty(), code_key()) is None);
                }
                return None;
            },
        }
    }
}

/// Google's OAuth token endpoint, to which the authorization code is posted.
pub const TOKEN_URL: &'static str = "https://oauth2.googleapis.com/token";

/// The address on which the local callback listens; the redirect URI below
/// points at it.
pub const CALLBACK_ADDRESS: &'static str = "127.0.0.1:8080";

/// Where the browser is sent back after the user consents.
pub open spec fn redirect_uri() -> Seq<char> {
    "http://localhost:8080/callback"@
}

/// The Google consent page for the given OAuth client, asking for access to
/// the user's YouTube account with a refresh token.
pub open spec fn auth_url(client_id: Seq<char>) -> Seq<char> {
    "https://accounts.google.com/o/oauth2/auth?client_id="@ + client_id + "&redirect_uri="@
        + redirect_uri()
        + "&response_type=code&scope=https://www.googleapis.com/auth/youtube.force-ssl&access_type=offline&prompt=consent"@
}

/// The saved token and the saved credentials are files side by side in one
/// directory: both paths start with the directory and end with their file
/// names, and the way they are joined to it is the same for both wherever
/// the directory's last character settles it.
pub proof fn law_token_beside_credentials(
    dir: Seq<char>,
    token_path: Seq<char>,
    credentials_path: Seq<char>,
)
    requires
        !is_verbatim(dir),
        joins_to(dir, token_file_name(), token_path),
        joins_to(dir, credentials_file_name(), credentials_path),
    ensures
        token_path.take(dir.len() as int) == dir,
        credentials_path.take(dir.len() as int) == dir,
        ends_with(token_path, token_file_name()),
        ends_with(credentials_path, credentials_file_name()),
        dir.len() == 0 || dir.last() == '/' ==> token_path == dir + token_file_name()
            && credentials_path == dir + credentials_file_name(),
        dir.len() > 0 && !is_path_separator(dir.last()) && dir.last() != ':' ==> exists|
            s1: char,
            s2: char,
        |
            is_path_separator(s1) && is_path_separator(s2) && token_path == dir + seq![s1]
                + token_file_name() && credentials_path == dir + seq![s2] + credentials_file_name(),
{
    let t = token_file_name();
    let c = credentials_file_name();
    if token_path == dir + t {
        assert((dir + t).take(dir.len() as int) =~= dir);
    } else {
        let s1 = choose|sep: char| is_path_separator(sep) && token_path == dir + seq![sep] + t;
        assert((dir + seq![s1] + t).take(dir.len() as int) =~= dir);
    }
    if credentials_path == dir + c {
        assert((dir + c).take(dir.len() as int) =~= dir);
    } else {
        let s2 = choose|sep: char|
            is_path_separator(sep) && credentials_path == dir + seq![sep] + c;
        assert((dir + seq![s2] + c).take(dir.len() as int) =~= dir);
    }
    if dir.len() > 0 && !is_path_separator(dir.last()) && dir.last() != ':' {
        let s1 = choose|sep: char| is_path_separator(sep) && token_path == dir + seq![sep] + t;
        let s2 = choose|sep: char|
            is_path_separator(sep) && credentials_path == dir + seq![sep] + c;
        assert(is_path_separator(s1) && is_path_separator(s2) && token_path == dir + seq![s1] + t
            && credentials_path == dir + seq![s2] + c);
    }
}

/// The form that trades an authorization code for a token.
pub open spec fn token_form_fields(
    client_id: Seq<char>,
    client_secret: Seq<char>,
    code: Seq<char>,
) -> Seq<(Seq<char>, Seq<char>)> {
    seq![
        ("code"@, code),
        ("client_id"@, client_id),
        ("client_secret"@, client_secret),
        ("redirect_uri"@, redirect_uri()),
        ("grant_type"@, "authorization_code"@),
    ]
}

/// The consent page is asked to send the browser back to the same redirect
/// URI that the code is later traded with, as the token endpoint requires.
pub proof fn law_one_redirect_uri(client_id: Seq<char>, client_secret: Seq<char>, code: Seq<char>)
    ensures
        exists|before: Seq<char>, after: Seq<char>|
            auth_url(client_id) == before + "&redirect_uri="@ + redirect_uri() + after,
        token_form_fields(client_id, client_secret, code)[3] == ("redirect_uri"@, redirect_uri()),
{
    let before = "https://accounts.google.com/o/oauth2/auth?client_id="@ + client_id;
    let after =
        "&response_type=code&scope=https://www.googleapis.com/auth/youtube.force-ssl&access_type=offline&prompt=consent"@;
    assert(auth_url(client_id) == before + "&redirect_uri="@ + redirect_uri() + after);
}

/// The name of the file that holds the saved token.
pub open spec fn token_file_name() -> Seq<char> {
    seq!['t', 'o', 'k', 'e', 'n', '.', 'j', 's', 'o', 'n']
}

/// The text of each pair of strings in `pairs`.
pub open spec fn pairs_view(pairs: Seq<(String, String)>) -> Seq<(Seq<char>, Seq<char>)> {
    pairs.map_values(|p: (String, String)| (p.0@, p.1@))
}

/// A pair of strings made from two string slices.
pub fn string_pair(key: &str, value: &str) -> (p: (String, String))
    ensures
        p.0@ == key@,
        p.1@ == value@,
{
    (String::from_str(key), String::from_str(value))
}

/// The token returned by Google's OAuth token endpoint, as stored on disk.
#[derive(Debug, Clone)]
pub struct TokenData {
    pub access_token: String,
    pub refresh_token: Option<String>,
    /// Seconds since the Unix epoch at which the access token expires.
    pub expires_at: Option<u64>,
}

/// The fields of the token endpoint's JSON reply that the application
/// reads; a field that is missing, or not of the expected JSON type, is `None`.
#[derive(Debug, Clone)]
pub struct TokenGrant {
    pub access_token: Option<String>,
    pub refresh_token: Option<String>,
    /// Lifetime of the access token in seconds.
    pub expires_in: Option<u64>,
}

/// Why signing in failed.
#[derive(Debug, Clone, Copy, PartialEq, Eq, Structural)]
pub enum AuthError {
    /// The token endpoint's reply had no access token.
    NoAccessToken,
}

/// `now + lifetime` does not overflow, for the lifetime that the grant gives.
pub open spec fn expiry_fits(grant: TokenGrant, now: u64) -> bool {
    grant.expires_in matches Some(e) ==> now + e <= u64::MAX
}

impl TokenData {
    /// The token that a reply of the token endpoint grants at time `now`
    /// (seconds since the Unix epoch): its access token and refresh token,
    /// and an expiry `now + expires_in` when the reply gives a lifetime.
    pub fn from_grant(grant: TokenGrant, now: u64) -> (r: Result<TokenData, AuthError>)
        requires
            grant.access_token is Some ==> expiry_fits(grant, now),
        ensures
            grant.access_token is None <==> r == Err::<TokenData, AuthError>(
                AuthError::NoAccessToken,
            ),
            grant.access_token is Some ==> r is Ok,
            r matches Ok(t) ==> {
                &&& grant.access_token == Some(t.access_token)
                &&& t.refresh_token == grant.refresh_token
                &&& t.expires_at == match grant.expires_in {
                    Some(e) => Some((now + e) as u64),
                    None => None::<u64>,
                }
            },
    {
        let access_token = match grant.access_token {
            Some(a) => a,
            None => {
                return Err(AuthError::NoAccessToken);
            },
        };
        let expires_at = match grant.expires_in {
            Some(e) => Some(now + e),
            None => None,
        };
        Ok(TokenData { access_token, refresh_token: grant.refresh_token, expires_at })
    }
}

/// The OAuth client of the application, and where it keeps its token.
#[derive(Debug)]
pub struct OAuthManager {
    config_dir: String,
    client_id: String,
    client_secret: String,
}

/// What an `OAuthManager` holds, as text.
pub struct OAuthManagerView {
    pub config_dir: Seq<char>,
    pub client_id: Seq<char>,
    pub client_secret: Seq<char>,
}

impl View for OAuthManager {
    type V = OAuthManagerView;

    closed spec fn view(&self) -> OAuthManagerView {
        OAuthManagerView {
            config_dir: self.config_dir@,
            client_id: self.client_id@,
            client_secret: self.client_secret@,
        }
    }
}

impl OAuthManager {
    /// A manager for the given OAuth client that keeps its token in the
    /// application's directory under the user's configuration directory. The
    /// directory itself is created by the caller, which owns the file system.
    pub fn new(client_id: String, client_secret: String) -> (r: Result<OAuthManager, ConfigError>)
        ensures
            r matches Err(e) ==> e == ConfigError::NoConfigDir,
            r matches Ok(m) ==> {
                &&& is_app_dir(m@.config_dir)
                &&& m@.client_id == client_id@
                &&& m@.client_secret == client_secret@
            },
    {
        match app_dir() {
            Ok(config_dir) => Ok(OAuthManager::with_config_dir(config_dir, client_id, client_secret)),
            Err(e) => Err(e),
        }
    }

    /// A manager for the given OAuth client that keeps its token in `config_dir`.
    pub fn with_config_dir(config_dir: String, client_id: String, client_secret: String) -> (m:
        OAuthManager)
        ensures
            m@.config_dir == config_dir@,
            m@.client_id == client_id@,
            m@.client_secret == client_secret@,
    {
        OAuthManager { config_dir, client_id, client_secret }
    }

    /// The directory that holds the token.
    pub fn config_dir(&self) -> (d: &str)
        ensures
            d@ == self@.config_dir,
    {
        self.config_dir.as_str()
    }

    /// The OAuth client ID.
    pub fn client_id(&self) -> (id: &str)
        ensures
            id@ == self@.client_id,
    {
        self.client_id.as_str()
    }

    /// The file that holds the saved token: `token.json` in the directory.
    pub fn token_path(&self) -> (p: String)
        ensures
            joins_to(self@.config_dir, token_file_name(), p@),
    {
        let name = "token.json";
        proof {
            reveal_strlit("token.json");
            assert(name@ =~= token_file_name());
        }
        join_path(self.config_dir.as_str(), name)
    }

    /// The consent page to open in the browser.
    pub fn get_auth_url(&self) -> (url: String)
        ensures
            url@ == auth_url(self@.client_id),
    {
        let mut url = String::from_str("https://accounts.google.com/o/oauth2/auth?client_id=");
        url.append(self.client_id.as_str());
        url.append("&redirect_uri=");
        url.append("http://localhost:8080/callback");
        url.append(
            "&response_type=code&scope=https://www.googleapis.com/auth/youtube.force-ssl&access_type=offline&prompt=consent",
        );
        url
    }

    /// The form fields posted to the token endpoint to trade the
    /// authorization code `code` for a token.
    pub fn token_form(&self, code: &str) -> (form: Vec<(String, String)>)
        ensures
            pairs_view(form@) == token_form_fields(self@.client_id, self@.client_secret, code@),
    {
        let mut form: Vec<(String, String)> = Vec::new();
        form.push(string_pair("code", code));
        form.push(string_pair("client_id", self.client_id.as_str()));
        form.push(string_pair("client_secret", self.client_secret.as_str()));
        form.push(string_pair("redirect_uri", "http://localhost:8080/callback"));
        form.push(string_pair("grant_type", "authorization_code"));
        assert(pairs_view(form@) =~= token_form_fields(self@.client_id, self@.client_secret, code@));
        form
    }
}

} // verus!
