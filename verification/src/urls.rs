//! URL helpers used while scraping MapGenie pages and sprite sheets.

use vstd::prelude::*;
use crate::text::{
    is_last_char, lemma_before_char_free, lemma_rfind_char, all_digits, before_char, before_char_exec, chars_of, find_char, find_char_exec,
    is_ascii_digit, is_ascii_digit_exec, lemma_find_char_some, push_all, push_str, rfind_char,
    rfind_char_exec, starts_with, string_from_chars, sub_chars,
};

verus! {

broadcast use vstd::string::group_string_axioms;

/// `s` begins with `c`.
pub open spec fn begins_with_char(s: Seq<char>, c: char) -> bool {
    s.len() > 0 && s[0] == c
}

/// `s` begins with `//` (a scheme-relative URL).
pub open spec fn is_scheme_relative(s: Seq<char>) -> bool {
    s.len() >= 2 && s[0] == '/' && s[1] == '/'
}

/// The absolute form of `url`:
///   - `//host/x` becomes `https://host/x`,
///   - `/x` becomes `https://<default_host>/x`,
///   - anything else is returned unchanged.
pub open spec fn spec_normalize_url(url: Seq<char>, default_host: Seq<char>) -> Seq<char> {
    if is_scheme_relative(url) {
        "https:"@ + url
    } else if begins_with_char(url, '/') {
        "https://"@ + default_host + url
    } else {
        url
    }
}

/// The span `(at, dot)` of a retina density suffix `@<digits>x` in `url`: `at`
/// is the last `@`, `dot` the first `.` after it, and the text strictly
/// between them is one or more ASCII digits followed by `x`.
pub open spec fn density_suffix_span(url: Seq<char>) -> Option<(int, int)> {
    match rfind_char(url, '@') {
        None => None,
        Some(at) => match find_char(url.skip(at), '.') {
            None => None,
            Some(d) => {
                let after_at = url.subrange(at + 1, at + d);
                if after_at.len() > 1 && after_at.last() == 'x' && all_digits(after_at.drop_last()) {
                    Some((at, at + d))
                } else {
                    None
                }
            },
        },
    }
}

/// `url` without its density suffix, if it has one.
pub open spec fn spec_strip_density_suffix(url: Seq<char>) -> Seq<char> {
    match density_suffix_span(url) {
        Some((at, dot)) => url.take(at) + url.skip(dot),
        None => url,
    }
}

/// The message of the error for a sprite URL without any `/`.
pub open spec fn unexpected_sprite_url_message(sprite_url: Seq<char>) -> Seq<char> {
    "Unexpected marker sprite URL format: "@ + sprite_url
}

/// The URL of the `markers.json` that sits in the same folder as the sprite
/// sheet: the query string is dropped, then the file name (everything from
/// the last `/` on, density suffix included) is replaced by `/markers.json`.
pub open spec fn spec_sibling_markers_json_url(sprite_url: Seq<char>) -> Result<
    Seq<char>,
    Seq<char>,
> {
    let u = before_char(sprite_url, '?');
    match rfind_char(u, '/') {
        Some(i) => Ok(u.take(i) + "/markers.json"@),
        None => Err(unexpected_sprite_url_message(sprite_url)),
    }
}

/// Turns a possibly-relative URL into an absolute https URL.
///   - "//host/x"  -> "https://host/x"
///   - "/x"        -> "https://<default_host>/x"
///   - otherwise it is already absolute and returned unchanged.
pub fn normalize_url(url: &str, default_host: &str) -> (r: String)
    ensures
        r@ == spec_normalize_url(url@, default_host@),
{
    let u = chars_of(url);
    let mut out: Vec<char> = Vec::new();
    if u.len() >= 2 && u[0] == '/' && u[1] == '/' {
        push_str(&mut out, "https:");
        push_all(&mut out, &u);
    } else if u.len() >= 1 && u[0] == '/' {
        push_str(&mut out, "https://");
        push_str(&mut out, default_host);
        push_all(&mut out, &u);
    } else {
        push_all(&mut out, &u);
    }
    assert(out@ =~= spec_normalize_url(url@, default_host@));
    string_from_chars(&out)
}

/// The density-suffix span of `u`, computed.
fn density_suffix_span_exec(u: &Vec<char>) -> (r: Option<(usize, usize)>)
    ensures
        match r {
            Some((a, d)) => density_suffix_span(u@) == Some((a as int, d as int)) && a < d
                <= u.len(),
            None => density_suffix_span(u@) is None,
        },
{
    let at = match rfind_char_exec(u, '@') {
        None => return None,
        Some(at) => at,
    };
    let tail = sub_chars(u, at, u.len());
    proof {
        assert(tail@ == u@.skip(at as int));
    }
    let d = match find_char_exec(&tail, '.') {
        None => return None,
        Some(d) => d,
    };
    proof {
        lemma_find_char_some(tail@, '.');
        assert(tail@[0] == '@');
        assert(d > 0);
    }
    let after_at = sub_chars(u, at + 1, at + d);
    let n = after_at.len();
    if n < 2 || after_at[n - 1] != 'x' {
        return None;
    }
    let mut i: usize = 0;
    while i < n - 1
        invariant
            n == after_at.len(),
            n > 0,
            after_at@ == u@.subrange(at + 1, at + d),
            rfind_char(u@, '@') == Some(at as int),
            find_char(u@.skip(at as int), '.') == Some(d as int),
            0 < d,
            at + d <= u.len(),
            0 <= i <= n - 1,
            forall|j: int| 0 <= j < i ==> is_ascii_digit(#[trigger] after_at@[j]),
        decreases n - 1 - i,
    {
        if !is_ascii_digit_exec(after_at[i]) {
            proof {
                assert(after_at@.drop_last()[i as int] == after_at@[i as int]);
                assert(!is_ascii_digit(after_at@.drop_last()[i as int]));
                assert(!all_digits(after_at@.drop_last()));
                assert(after_at@ == u@.subrange(at + 1, at + d));
            }
            return None;
        }
        i = i + 1;
    }
    proof {
        assert(all_digits(after_at@.drop_last())) by {
            assert forall|j: int| 0 <= j < after_at@.drop_last().len() implies is_ascii_digit(
                #[trigger] after_at@.drop_last()[j],
            ) by {
                assert(after_at@.drop_last()[j] == after_at@[j]);
            }
        }
    }
    Some((at, at + d))
}

/// Removes a retina density suffix like "@2x" or "@3x" from a filename in a URL,
/// e.g. ".../sprite@2x.png" -> ".../sprite.png". It is only stripped when it
/// really looks like "@<digits>x".
pub fn strip_density_suffix(url: &str) -> (r: String)
    ensures
        r@ == spec_strip_density_suffix(url@),
{
    let u = chars_of(url);
    let out = strip_density_suffix_chars(&u);
    string_from_chars(&out)
}

/// `strip_density_suffix` on a character vector.
fn strip_density_suffix_chars(u: &Vec<char>) -> (r: Vec<char>)
    ensures
        r@ == spec_strip_density_suffix(u@),
{
    match density_suffix_span_exec(u) {
        Some((at, dot)) => {
            let mut out = sub_chars(u, 0, at);
            let rest = sub_chars(u, dot, u.len());
            push_all(&mut out, &rest);
            assert(out@ =~= u@.take(at as int) + u@.skip(dot as int));
            out
        },
        None => sub_chars(u, 0, u.len()),
    }
}

/// Given a sprite-sheet URL, works out the URL of the markers.json that sits
/// next to it in the same folder.
pub fn sibling_markers_json_url(sprite_url: &str) -> (r: Result<String, String>)
    ensures
        match r {
            Ok(s) => spec_sibling_markers_json_url(sprite_url@) == Ok::<Seq<char>, Seq<char>>(s@),
            Err(e) => spec_sibling_markers_json_url(sprite_url@) == Err::<Seq<char>, Seq<char>>(
                e@,
            ),
        },
{
    let u = chars_of(sprite_url);
    let clean = before_char_exec(&u, '?');
    match rfind_char_exec(&clean, '/') {
        Some(i) => {
            let mut out = sub_chars(&clean, 0, i);
            push_str(&mut out, "/markers.json");
            assert(out@ =~= clean@.take(i as int) + "/markers.json"@);
            Ok(string_from_chars(&out))
        },
        None => {
            let mut msg: Vec<char> = Vec::new();
            push_str(&mut msg, "Unexpected marker sprite URL format: ");
            push_all(&mut msg, &u);
            Err(string_from_chars(&msg))
        },
    }
}

/// Normalizing an already normalized URL changes nothing.
pub proof fn law_normalize_url_idempotent(url: Seq<char>, default_host: Seq<char>)
    ensures
        spec_normalize_url(spec_normalize_url(url, default_host), default_host)
            == spec_normalize_url(url, default_host),
{
    reveal_strlit("https:");
    reveal_strlit("https://");
    let once = spec_normalize_url(url, default_host);
    if is_scheme_relative(url) {
        assert(once[0] == 'h');
    } else if begins_with_char(url, '/') {
        assert(once[0] == 'h');
    }
}

/// A URL that starts with `/` always comes out starting with `https:`.
pub proof fn law_normalize_url_absolute(url: Seq<char>, default_host: Seq<char>)
    requires
        begins_with_char(url, '/'),
    ensures
        starts_with(spec_normalize_url(url, default_host), "https:"@),
{
    reveal_strlit("https:");
    reveal_strlit("https://");
    let r = spec_normalize_url(url, default_host);
    if is_scheme_relative(url) {
        assert(r.take(6) =~= "https:"@);
    } else {
        assert(r.take(6) =~= "https:"@);
    }
}

/// Stripping the density suffix removes exactly the `@<digits>x` span and keeps
/// the rest of the URL, in particular the extension after the dot.
pub proof fn law_strip_density_suffix_removes_span(url: Seq<char>)
    requires
        density_suffix_span(url) is Some,
    ensures
        ({
            let (at, dot) = density_suffix_span(url)->0;
            &&& 0 <= at < dot < url.len()
            &&& url[at] == '@'
            &&& url[dot] == '.'
            &&& spec_strip_density_suffix(url) == url.take(at) + url.skip(dot)
            &&& spec_strip_density_suffix(url).len() == url.len() - (dot - at)
        }),
{
    let at = rfind_char(url, '@')->0;
    let d = find_char(url.skip(at), '.')->0;
    lemma_find_char_some(url.skip(at), '.');
}

/// A character that occurs in `s` has a last occurrence.
proof fn lemma_rfind_char_exists(s: Seq<char>, c: char, j: int)
    requires
        0 <= j < s.len(),
        s[j] == c,
    ensures
        rfind_char(s, c) is Some,
    decreases s.len() - j,
{
    if exists|k: int| j < k < s.len() && s[k] == c {
        let k = choose|k: int| j < k < s.len() && s[k] == c;
        lemma_rfind_char_exists(s, c, k);
    } else {
        lemma_rfind_char(s, c, j);
    }
}

/// The markers.json URL is an error exactly when the URL before its query
/// has no `/`, and the error names the URL as given; otherwise it ends with
/// `/markers.json` and holds no query.
pub proof fn law_sibling_markers_json_url_shape(sprite_url: Seq<char>)
    ensures
        spec_sibling_markers_json_url(sprite_url) is Err <==> (forall|j: int|
            0 <= j < before_char(sprite_url, '?').len() ==> before_char(sprite_url, '?')[j] != '/'),
        spec_sibling_markers_json_url(sprite_url) is Err ==> spec_sibling_markers_json_url(
            sprite_url,
        ) == Err::<Seq<char>, Seq<char>>(unexpected_sprite_url_message(sprite_url)),
        spec_sibling_markers_json_url(sprite_url) matches Ok(r) ==> {
            &&& r.len() >= 13
            &&& r.skip(r.len() - 13) == "/markers.json"@
            &&& forall|j: int| 0 <= j < r.len() ==> r[j] != '?'
        },
{
    reveal_strlit("/markers.json");
    let u = before_char(sprite_url, '?');
    lemma_before_char_free(sprite_url, '?');
    if exists|j: int| 0 <= j < u.len() && u[j] == '/' {
        let j = choose|j: int| 0 <= j < u.len() && u[j] == '/';
        lemma_rfind_char_exists(u, '/', j);
    }
    match rfind_char(u, '/') {
        Some(i) => {
            assert(is_last_char(u, '/', i));
            let r = u.take(i) + "/markers.json"@;
            assert(r.skip(r.len() - 13) =~= "/markers.json"@);
            assert forall|j: int| 0 <= j < r.len() implies r[j] != '?' by {
                if j < i {
                    assert(r[j] == u[j]);
                } else {
                    assert(r[j] == "/markers.json"@[j - i]);
                }
            }
        },
        None => {
            assert forall|j: int| 0 <= j < u.len() implies u[j] != '/' by {
                if u[j] == '/' {
                    lemma_rfind_char_exists(u, '/', j);
                }
            }
        },
    }
}

/// The markers.json sits in the sprite's own folder, whatever the sprite's
/// file name (density suffix included) and query string.
pub proof fn law_sibling_markers_json_url_own_folder(
    folder: Seq<char>,
    name: Seq<char>,
    query: Seq<char>,
)
    requires
        forall|j: int| 0 <= j < folder.len() ==> folder[j] != '?',
        forall|j: int| 0 <= j < name.len() ==> name[j] != '/' && name[j] != '?',
        query.len() == 0 || query[0] == '?',
    ensures
        spec_sibling_markers_json_url(folder + seq!['/'] + name + query) == Ok::<
            Seq<char>,
            Seq<char>,
        >(folder + "/markers.json"@),
{
    let u = folder + seq!['/'] + name;
    let s = u + query;
    if query.len() == 0 {
        assert(s =~= u);
        assert forall|j: int| 0 <= j < u.len() implies u[j] != '?' by {
            if j < folder.len() {
                assert(u[j] == folder[j]);
            } else if j > folder.len() {
                assert(u[j] == name[j - folder.len() - 1]);
            }
        }
        crate::text::lemma_find_char_none(s, '?');
    } else {
        assert(crate::text::is_first_char(s, '?', u.len() as int)) by {
            assert forall|j: int| 0 <= j < u.len() implies s[j] != '?' by {
                assert(s[j] == u[j]);
                if j < folder.len() {
                    assert(u[j] == folder[j]);
                } else if j > folder.len() {
                    assert(u[j] == name[j - folder.len() - 1]);
                }
            }
        }
        crate::text::lemma_find_char(s, '?', u.len() as int);
        assert(s.take(u.len() as int) =~= u);
    }
    assert(before_char(s, '?') == u);
    assert(is_last_char(u, '/', folder.len() as int)) by {
        assert forall|j: int| folder.len() < j < u.len() implies u[j] != '/' by {
            assert(u[j] == name[j - folder.len() - 1]);
        }
    }
    lemma_rfind_char(u, '/', folder.len() as int);
    assert(u.take(folder.len() as int) =~= folder);
}

} // verus!
