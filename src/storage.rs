//! Where fixtures live: the path derived from a request, the folders above it,
//! and the media type served for a stored file.
use std::collections::HashMap;

use vstd::prelude::*;

use crate::text::{ends_with, first_position, has_prefix, has_suffix, index_of, last_index_of, last_position};

verus! {

/// Whether `s` parses as a media type (`mime::Mime`).
pub uninterp spec fn media_type_parses(s: Seq<char>) -> bool;

/// The first file extension that `mime_guess` lists for the media type `s`.
pub uninterp spec fn listed_extension(s: Seq<char>) -> Option<Seq<char>>;

/// The media type, as text, that `mime_guess` guesses first for the file path `p`.
pub uninterp spec fn guessed_media_type(p: Seq<char>) -> Option<Seq<char>>;

/// Relies on `<mime::Mime as FromStr>::from_str`: whether the text is a media type.
#[verifier::external_body]
fn is_media_type(s: &str) -> (r: bool)
    ensures
        r == media_type_parses(s@),
{
    s.parse::<mime::Mime>().is_ok()
}

/// Relies on `mime_guess::get_mime_extensions_str`: its first listed extension.
#[verifier::external_body]
fn first_listed_extension(s: &str) -> (r: Option<String>)
    ensures
        match r {
            Some(e) => listed_extension(s@) == Some(e@),
            None => listed_extension(s@) is None,
        },
{
    match mime_guess::get_mime_extensions_str(s) {
        Some(list) => list.first().map(|e| e.to_string()),
        None => None,
    }
}

/// Relies on `mime_guess::from_path` and `MimeGuess::first`: the media type
/// guessed first from the path's extension, as text.
#[verifier::external_body]
fn media_type_of_path(p: &str) -> (r: Option<String>)
    ensures
        match r {
            Some(t) => guessed_media_type(p@) == Some(t@),
            None => guessed_media_type(p@) is None,
        },
{
    mime_guess::from_path(p).first().map(|m| m.to_string())
}

/// The value of the header whose name is exactly `name`, if the map holds one.
pub open spec fn header_value(headers: Map<String, String>, name: Seq<char>) -> Option<Seq<char>> {
    if exists|k: String| headers.dom().contains(k) && k@ == name {
        Some(headers[choose|k: String| headers.dom().contains(k) && k@ == name]@)
    } else {
        None
    }
}

/// Relies on `HashMap::get`: the value stored under the key with that text.
#[verifier::external_body]
fn header(headers: &HashMap<String, String>, name: &str) -> (r: Option<String>)
    ensures
        match r {
            Some(v) => header_value(headers@, name@) == Some(v@),
            None => header_value(headers@, name@) is None,
        },
{
    headers.get(name).cloned()
}

/// The root folder of the fixture store.
pub open spec fn store_root() -> Seq<char> {
    seq!['.', '/', 'd', 'b']
}

pub open spec fn txt_suffix() -> Seq<char> {
    seq!['.', 't', 'x', 't']
}

pub open spec fn json_suffix() -> Seq<char> {
    seq!['.', 'j', 's', 'o', 'n']
}

pub open spec fn index_name() -> Seq<char> {
    seq!['i', 'n', 'd', 'e', 'x']
}

/// A content type without its parameters: what precedes the first `;`.
pub open spec fn without_parameters(s: Seq<char>) -> Seq<char> {
    match first_position(s, ';') {
        Some(i) => s.subrange(0, i),
        None => s,
    }
}

/// The extension chosen for a content type: the first one listed for it,
/// where it parses as a media type.
pub open spec fn extension_for(content_type: Option<Seq<char>>) -> Option<Seq<char>> {
    match content_type {
        None => None,
        Some(c) => {
            let t = without_parameters(c);
            if media_type_parses(t) {
                listed_extension(t)
            } else {
                None
            }
        },
    }
}

/// The fixture path of `uri`, given the extension chosen for its content
/// type: under the store root, `index` for a folder, and an extension unless
/// the URI has `.txt` or `.json` already (`.txt` where none was chosen).
pub open spec fn fixture_path(uri: Seq<char>, extension: Option<Seq<char>>) -> Seq<char> {
    let rooted = store_root() + uri;
    let base = if rooted.last() == '/' {
        rooted + index_name()
    } else {
        rooted
    };
    if has_suffix(uri, txt_suffix()) || has_suffix(uri, json_suffix()) {
        base
    } else {
        match extension {
            Some(e) => if has_suffix(base, e) {
                base
            } else {
                base + seq!['.'] + e
            },
            None => base + txt_suffix(),
        }
    }
}

/// The folder that holds `path`: what precedes its last `/`.
pub open spec fn parent_of(path: Seq<char>) -> Seq<char> {
    match last_position(path, '/') {
        Some(i) => path.subrange(0, i),
        None => path,
    }
}

/// The prefixes of `s` that end before one of its first `n` characters that
/// is a `/`, shortest first.
pub open spec fn prefixes_before_slashes(s: Seq<char>, n: int) -> Seq<Seq<char>>
    decreases n,
{
    if n <= 0 {
        Seq::empty()
    } else if s[n - 1] == '/' {
        prefixes_before_slashes(s, n - 1).push(s.subrange(0, n - 1))
    } else {
        prefixes_before_slashes(s, n - 1)
    }
}

/// Each folder on the way to `s`, shortest first, and `s` itself.
pub open spec fn ancestors(s: Seq<char>) -> Seq<Seq<char>> {
    prefixes_before_slashes(s, s.len() as int).push(s)
}

pub open spec fn texts(v: Seq<String>) -> Seq<Seq<char>> {
    v.map_values(|s: String| s@)
}

/// The extension for a `content-type` value (`None` where no header is there).
fn get_extension(content_type: Option<&str>) -> (r: Option<String>)
    ensures
        match r {
            Some(e) => extension_for(
                match content_type {
                    Some(c) => Some(c@),
                    None => None,
                },
            ) == Some(e@),
            None => extension_for(
                match content_type {
                    Some(c) => Some(c@),
                    None => None,
                },
            ) is None,
        },
{
    match content_type {
        None => None,
        Some(c) => {
            let t = match index_of(c, ';') {
                Some(i) => c.substring_char(0, i),
                None => c,
            };
            assert(t@ == without_parameters(c@));
            if is_media_type(t) {
                first_listed_extension(t)
            } else {
                None
            }
        },
    }
}

/// The fixture path of `uri` where `extension` is the one chosen for its
/// content type.
pub fn save_path_with_extension(uri: &str, extension: Option<&str>) -> (r: String)
    ensures
        r@ == fixture_path(
            uri@,
            match extension {
                Some(e) => Some(e@),
                None => None,
            },
        ),
{
    proof {
        reveal_strlit("./db");
        reveal_strlit("index");
        reveal_strlit(".txt");
        reveal_strlit(".json");
        reveal_strlit(".");
        assert("./db"@ =~= store_root());
        assert("index"@ =~= index_name());
        assert(".txt"@ =~= txt_suffix());
        assert(".json"@ =~= json_suffix());
    }
    let keep = ends_with(uri, ".txt") || ends_with(uri, ".json");
    let mut path = String::from_str("./db");
    path.append(uri);
    let rooted = path.as_str();
    let n = rooted.unicode_len();
    if rooted.get_char(n - 1) == '/' {
        path.append("index");
    }
    if !keep {
        match extension {
            Some(e) => {
                if !ends_with(path.as_str(), e) {
                    path.append(".");
                    path.append(e);
                }
            },
            None => {
                path.append(".txt");
            },
        }
    }
    path
}

/// The fixture path of a request: `uri` and the extension chosen for its
/// `content-type` header.
pub fn get_save_path(uri: &str, headers: &HashMap<String, String>) -> (r: String)
    ensures
        r@ == fixture_path(uri@, extension_for(header_value(headers@, "content-type"@))),
{
    let content_type = header(headers, "content-type");
    let extension = match &content_type {
        Some(c) => get_extension(Some(c.as_str())),
        None => get_extension(None),
    };
    match &extension {
        Some(e) => save_path_with_extension(uri, Some(e.as_str())),
        None => save_path_with_extension(uri, None),
    }
}

/// The folder that holds `path`.
pub fn get_folders(path: &str) -> (r: String)
    ensures
        r@ == parent_of(path@),
{
    match last_index_of(path, '/') {
        Some(i) => String::from_str(path.substring_char(0, i)),
        None => String::from_str(path),
    }
}

/// Each folder on the way to `folders`, shortest first, then `folders`
/// itself: the places where a file may stand in the way of a directory.
pub fn get_folders_to_check(folders: &str) -> (r: Vec<String>)
    ensures
        texts(r@) == ancestors(folders@),
{
    let n = folders.unicode_len();
    let mut out: Vec<String> = Vec::new();
    let mut i: usize = 0;
    while i < n
        invariant
            n == folders@.len(),
            i <= n,
            texts(out@) == prefixes_before_slashes(folders@, i as int),
        decreases n - i,
    {
        if folders.get_char(i) == '/' {
            out.push(String::from_str(folders.substring_char(0, i)));
        }
        proof {
            assert(texts(out@) =~= prefixes_before_slashes(folders@, i + 1));
        }
        i = i + 1;
    }
    out.push(String::from_str(folders));
    assert(texts(out@) =~= ancestors(folders@));
    out
}

/// The media type served for a stored file, given what was guessed from
/// its path: the guess, or `text/plain` where there is none.
pub fn content_type_from_guess(guess: Option<String>) -> (r: String)
    ensures
        r@ == match guess {
            Some(g) => g@,
            None => "text/plain"@,
        },
{
    match guess {
        Some(g) => g,
        None => String::from_str("text/plain"),
    }
}

/// The media type served for the stored file `file_name`.
pub fn get_content_type(file_name: &str) -> (r: String)
    ensures
        r@ == match guessed_media_type(file_name@) {
            Some(g) => g,
            None => "text/plain"@,
        },
{
    content_type_from_guess(media_type_of_path(file_name))
}

/// The fixture path of a request depends on its URI and its `content-type`
/// header alone: two requests that agree on both get the same path.
pub proof fn lemma_derivation_is_deterministic(
    uri: Seq<char>,
    headers_a: Map<String, String>,
    headers_b: Map<String, String>,
)
    requires
        header_value(headers_a, "content-type"@) == header_value(headers_b, "content-type"@),
    ensures
        fixture_path(uri, extension_for(header_value(headers_a, "content-type"@))) == fixture_path(
            uri,
            extension_for(header_value(headers_b, "content-type"@)),
        ),
{
}

/// Every fixture path lies under the store root; without a usable content
/// type a URI that has no `.txt` or `.json` gets `.txt`, a folder URI gets
/// `/index.txt`; and a URI that ends in `.json` or `.txt` gets no further
/// suffix, whatever the content type.
pub proof fn lemma_derived_path_shape(uri: Seq<char>, extension: Option<Seq<char>>)
    ensures
        has_prefix(fixture_path(uri, extension), store_root()),
        !has_suffix(uri, txt_suffix()) && !has_suffix(uri, json_suffix()) ==> has_suffix(
            fixture_path(uri, None),
            txt_suffix(),
        ),
        uri.len() > 0 && uri.last() == '/' ==> has_suffix(
            fixture_path(uri, None),
            seq!['/'] + index_name() + txt_suffix(),
        ),
        has_suffix(uri, json_suffix()) || has_suffix(uri, txt_suffix()) ==> fixture_path(uri, extension)
            == store_root() + uri,
{
    let rooted = store_root() + uri;
    let base = if rooted.last() == '/' { rooted + index_name() } else { rooted };
    let p = fixture_path(uri, extension);
    assert(p.subrange(0, 4) =~= store_root());
    if !has_suffix(uri, txt_suffix()) && !has_suffix(uri, json_suffix()) {
        let q = fixture_path(uri, None);
        assert(q == base + txt_suffix());
        assert(q.subrange(q.len() - 4, q.len() as int) =~= txt_suffix());
    }
    if uri.len() > 0 && uri.last() == '/' {
        assert(rooted.last() == '/');
        let q = fixture_path(uri, None);
        let tail = seq!['/'] + index_name() + txt_suffix();
        if has_suffix(uri, txt_suffix()) {
            assert(uri[uri.len() - 1] == txt_suffix()[3]);
        }
        if has_suffix(uri, json_suffix()) {
            assert(uri[uri.len() - 1] == json_suffix()[4]);
        }
        assert(q == rooted + index_name() + txt_suffix());
        assert(q.subrange(q.len() - 10, q.len() as int) =~= tail);
    }
    if has_suffix(uri, json_suffix()) || has_suffix(uri, txt_suffix()) {
        if rooted.last() == '/' {
            if has_suffix(uri, txt_suffix()) {
                assert(uri[uri.len() - 1] == txt_suffix()[3]);
                assert(rooted.last() == uri.last());
            } else {
                assert(uri[uri.len() - 1] == json_suffix()[4]);
                assert(rooted.last() == uri.last());
            }
        }
    }
}

} // verus!
