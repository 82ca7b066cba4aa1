//! Requests of the web view's custom protocol: which instance a request
//! targets (its percent-encoded `?instance=…` query value), and whether it
//! asks for the page, a static asset or the API.

use vstd::prelude::*;
use vstd::string::StringSliceAdditionalSpecFns;
use vstd::utf8::{valid_utf8, decode_utf8};
use crate::text::{string_from_utf8_lossy, utf8_lossy, str_chars, string_from_chars};
use crate::routes::{strip_prefix, strip_prefix_chars, strip_suffix, strip_suffix_chars, str_eq, lemma_suffix_chars};

verus! {

/// Value of an ASCII hex digit.
pub open spec fn hex_value(b: u8) -> Option<nat> {
    if 48 <= b <= 57 {
        Some((b - 48) as nat)
    } else if 97 <= b <= 102 {
        Some((b - 87) as nat)
    } else if 65 <= b <= 70 {
        Some((b - 55) as nat)
    } else {
        None
    }
}

/// The byte two characters after a `%` stand for, as `u8::from_str_radix`
/// reads them in base 16: two hex digits, or a `+` sign and one digit.
pub open spec fn escape_value(b1: u8, b2: u8) -> Option<u8> {
    match (hex_value(b1), hex_value(b2)) {
        (Some(h1), Some(h2)) => Some((h1 * 16 + h2) as u8),
        (None, Some(h2)) => if b1 == 43 { Some(h2 as u8) } else { None },
        _ => None,
    }
}

/// Bytes that continue a UTF-8 sequence.
pub open spec fn is_continuation(b: u8) -> bool {
    0x80 <= b <= 0xBF
}

/// Percent-decoding: `%XY` with a valid escape (see [`escape_value`])
/// becomes one byte; every other byte, `+` included, is kept.
pub open spec fn percent_decode(b: Seq<u8>) -> Seq<u8>
    decreases b.len(),
{
    if b.len() == 0 {
        b
    } else if b[0] == 37 && b.len() >= 3 && escape_value(b[1], b[2]) is Some {
        seq![escape_value(b[1], b[2]).unwrap()] + percent_decode(b.skip(3))
    } else {
        seq![b[0]] + percent_decode(b.skip(1))
    }
}

/// Decoding never lengthens a value.
pub proof fn lemma_percent_decode_shorter(b: Seq<u8>)
    ensures
        percent_decode(b).len() <= b.len(),
    decreases b.len(),
{
    if b.len() > 0 {
        if b[0] == 37 && b.len() >= 3 && escape_value(b[1], b[2]) is Some {
            lemma_percent_decode_shorter(b.skip(3));
        } else {
            lemma_percent_decode_shorter(b.skip(1));
        }
    }
}

/// Every `%` that decoding inspects with two bytes after it is followed by
/// a character boundary three bytes on, so the two-byte slice after it can
/// be taken from the string.
pub open spec fn percent_decode_slices_ok(b: Seq<u8>) -> bool
    decreases b.len(),
{
    if b.len() == 0 {
        true
    } else if b[0] == 37 && b.len() >= 3 {
        (b.len() == 3 || !is_continuation(b[3])) && if escape_value(b[1], b[2]) is Some {
            percent_decode_slices_ok(b.skip(3))
        } else {
            percent_decode_slices_ok(b.skip(1))
        }
    } else {
        percent_decode_slices_ok(b.skip(1))
    }
}

fn hex_value_exec(b: u8) -> (r: Option<u8>)
    ensures
        match hex_value(b) {
            Some(v) => r == Some(v as u8),
            None => r is None,
        },
{
    if 48 <= b && b <= 57 {
        Some(b - 48)
    } else if 97 <= b && b <= 102 {
        Some(b - 87)
    } else if 65 <= b && b <= 70 {
        Some(b - 55)
    } else {
        None
    }
}

fn escape_value_exec(b1: u8, b2: u8) -> (r: Option<u8>)
    ensures
        r == escape_value(b1, b2),
{
    match (hex_value_exec(b1), hex_value_exec(b2)) {
        (Some(h1), Some(h2)) => Some(h1 * 16 + h2),
        (None, Some(h2)) => if b1 == 43 { Some(h2) } else { None },
        _ => None,
    }
}

/// The decoded bytes of a query value (see [`percent_decode`]).
pub fn percent_decode_bytes(b: &[u8]) -> (r: Vec<u8>)
    ensures
        r@ == percent_decode(b@),
{
    let mut out: Vec<u8> = Vec::new();
    let mut i: usize = 0;
    assert(b@.skip(0) =~= b@);
    while i < b.len()
        invariant
            i <= b@.len(),
            out@ + percent_decode(b@.skip(i as int)) == percent_decode(b@),
        decreases b@.len() - i,
    {
        let ghost rest = b@.skip(i as int);
        if b[i] == 37 && b.len() - i > 2 {
            if let Some(v) = escape_value_exec(b[i + 1], b[i + 2]) {
                assert(rest.skip(3) =~= b@.skip(i + 3));
                assert(out@.push(v) + percent_decode(rest.skip(3)) =~= out@ + percent_decode(rest));
                out.push(v);
                i = i + 3;
                continue;
            }
        }
        assert(rest.skip(1) =~= b@.skip(i + 1));
        assert(out@.push(b@[i as int]) + percent_decode(rest.skip(1)) =~= out@ + percent_decode(rest));
        out.push(b[i]);
        i = i + 1;
    }
    assert(out@ =~= percent_decode(b@));
    out
}

/// Decodes a percent-encoded query value. Only `%XY` escapes are decoded
/// (`+` is kept); the decoded bytes are read as UTF-8, invalid sequences
/// becoming U+FFFD.
pub fn simple_percent_decode(s: &str) -> (r: String)
    requires
        percent_decode_slices_ok(s.spec_bytes()),
    ensures
        r@ == utf8_lossy(percent_decode(s.spec_bytes())),
        valid_utf8(percent_decode(s.spec_bytes())) ==> r@ == decode_utf8(percent_decode(s.spec_bytes())),
        percent_decode(s.spec_bytes()).len() <= s.spec_bytes().len(),
{
    proof {
        lemma_percent_decode_shorter(s.spec_bytes());
    }
    let bytes = s.as_bytes();
    let out = percent_decode_bytes(bytes);
    string_from_utf8_lossy(out.as_slice())
}

/// Index of the first `&` in `s` at or after `from`.
pub open spec fn first_amp(s: Seq<char>, from: int) -> Option<int>
    decreases s.len() - from,
{
    if from < 0 || from >= s.len() {
        None
    } else if s[from] == '&' {
        Some(from)
    } else {
        first_amp(s, from + 1)
    }
}

/// The value of the first `&`-separated pair of a query string that
/// starts with `instance=`, if any.
pub open spec fn query_instance(q: Seq<char>) -> Option<Seq<char>>
    decreases q.len(),
{
    match first_amp(q, 0) {
        None => strip_prefix(q, "instance="@),
        Some(i) => if 0 <= i < q.len() {
            match strip_prefix(q.subrange(0, i), "instance="@) {
                Some(v) => Some(v),
                None => query_instance(q.subrange(i + 1, q.len() as int)),
            }
        } else {
            None
        },
    }
}

proof fn lemma_first_amp_bounds(s: Seq<char>, from: int)
    ensures
        first_amp(s, from) matches Some(i) ==> from <= i < s.len() && s[i] == '&',
        first_amp(s, from) is None && 0 <= from ==> forall|j: int| from <= j < s.len() ==> s[j] != '&',
    decreases s.len() - from,
{
    if from >= 0 && from < s.len() && s[from] != '&' {
        lemma_first_amp_bounds(s, from + 1);
    }
}

fn sub_chars(s: &Vec<char>, lo: usize, hi: usize) -> (r: Vec<char>)
    requires
        lo <= hi <= s@.len(),
    ensures
        r@ == s@.subrange(lo as int, hi as int),
{
    let mut out: Vec<char> = Vec::new();
    let mut k = lo;
    while k < hi
        invariant
            lo <= k <= hi,
            hi <= s@.len(),
            out@ =~= s@.subrange(lo as int, k as int),
        decreases hi - k,
    {
        out.push(s[k]);
        k = k + 1;
    }
    out
}

/// The `instance=` value of a query string, as [`query_instance`] says.
pub fn find_query_instance(query: &str) -> (r: Option<Vec<char>>)
    ensures
        match query_instance(query@) {
            Some(v) => r matches Some(x) && x@ == v,
            None => r is None,
        },
{
    let mut rest = str_chars(query);
    loop
        invariant
            query_instance(rest@) == query_instance(query@),
        decreases rest@.len(),
    {
        let ghost q = rest@;
        let mut i: usize = 0;
        while i < rest.len() && rest[i] != '&'
            invariant
                i <= rest@.len(),
                forall|j: int| 0 <= j < i ==> rest@[j] != '&',
            decreases rest@.len() - i,
        {
            i = i + 1;
        }
        proof {
            lemma_first_amp_bounds(q, 0);
            if i < rest.len() {
                assert(first_amp(q, 0) == Some(i as int)) by {
                    lemma_first_amp_in_prefix(q, 0, i as int);
                }
            } else {
                assert(first_amp(q, 0) is None) by {
                    lemma_first_amp_in_prefix(q, 0, i as int);
                }
            }
        }
        let pair = sub_chars(&rest, 0, i);
        if i == rest.len() {
            assert(pair@ =~= q);
        }
        if let Some(v) = strip_prefix_chars(&pair, "instance=") {
            return Some(v);
        }
        if i == rest.len() {
            return None;
        }
        rest = sub_chars(&rest, i + 1, rest.len());
        assert(rest@ == q.subrange(i + 1, q.len() as int));
    }
}

proof fn lemma_first_amp_in_prefix(s: Seq<char>, from: int, i: int)
    requires
        0 <= from <= i <= s.len(),
        forall|j: int| from <= j < i ==> s[j] != '&',
    ensures
        i < s.len() && s[i] == '&' ==> first_amp(s, from) == Some(i),
        i == s.len() ==> first_amp(s, from) is None,
    decreases i - from,
{
    if from < i {
        lemma_first_amp_in_prefix(s, from + 1, i);
    }
}

/// The instance a request targets: its decoded `instance=` query value,
/// else the web view's own instance.
pub open spec fn request_instance(query: Option<Seq<char>>, own: Seq<char>) -> Seq<char> {
    match query {
        Some(q) => match query_instance(q) {
            Some(v) => utf8_lossy(percent_decode(vstd::utf8::encode_utf8(v))),
            None => own,
        },
        None => own,
    }
}

/// The instance a request targets, as [`request_instance`] says.
pub fn instance_for_request(query: Option<&str>, own: &str) -> (r: String)
    requires
        query matches Some(q) && query_instance(q@) matches Some(v) ==> percent_decode_slices_ok(vstd::utf8::encode_utf8(v)),
    ensures
        r@ == request_instance(
            match query {
                Some(q) => Some(q@),
                None => None,
            },
            own@,
        ),
{
    if let Some(q) = query {
        if let Some(v) = find_query_instance(q) {
            let encoded = string_from_chars(&v);
            return simple_percent_decode(encoded.as_str());
        }
    }
    String::from_str(own)
}

/// What a protocol request asks for.
#[derive(Clone, Copy, Debug)]
pub enum ProtocolRequest {
    /// The HTML page (the root path).
    Page,
    /// A static asset served with this content type, when it can be found;
    /// otherwise the request goes to the API.
    Asset(&'static str),
    /// The GUI API.
    Api,
}

/// The content type of a static asset path, by its extension.
pub open spec fn asset_content_type(path: Seq<char>) -> Option<Seq<char>> {
    if strip_suffix(path, ".js"@) is Some {
        Some("application/javascript"@)
    } else if strip_suffix(path, ".css"@) is Some {
        Some("text/css"@)
    } else if strip_suffix(path, ".svg"@) is Some {
        Some("image/svg+xml"@)
    } else if strip_suffix(path, ".png"@) is Some {
        Some("image/png"@)
    } else if strip_suffix(path, ".woff2"@) is Some {
        Some("font/woff2"@)
    } else if strip_suffix(path, ".woff"@) is Some {
        Some("font/woff"@)
    } else {
        None
    }
}

/// Classifies a protocol request by its path: the page for `/` or the
/// empty path, a static asset for the extensions of
/// [`asset_content_type`], the API otherwise.
pub fn classify_request(path: &str) -> (r: ProtocolRequest)
    ensures
        path@ == "/"@ || path@.len() == 0 ==> r == ProtocolRequest::Page,
        !(path@ == "/"@ || path@.len() == 0) ==> match asset_content_type(path@) {
            Some(t) => r matches ProtocolRequest::Asset(ct) && ct@ == t,
            None => r == ProtocolRequest::Api,
        },
        strip_suffix(path@, ".css"@) is Some ==> (r matches ProtocolRequest::Asset(ct) && ct@ == "text/css"@),
        strip_suffix(path@, ".js"@) is Some ==> (r matches ProtocolRequest::Asset(ct) && ct@ == "application/javascript"@),
        strip_suffix(path@, ".svg"@) is Some ==> (r matches ProtocolRequest::Asset(ct) && ct@ == "image/svg+xml"@),
        strip_suffix(path@, ".png"@) is Some ==> (r matches ProtocolRequest::Asset(ct) && ct@ == "image/png"@),
        strip_suffix(path@, ".woff2"@) is Some ==> (r matches ProtocolRequest::Asset(ct) && ct@ == "font/woff2"@),
        strip_suffix(path@, ".woff"@) is Some ==> (r matches ProtocolRequest::Asset(ct) && ct@ == "font/woff"@),
{
    proof {
        reveal_strlit("");
        reveal_strlit("/");
        reveal_strlit(".js");
        reveal_strlit(".css");
        reveal_strlit(".svg");
        reveal_strlit(".png");
        reveal_strlit(".woff2");
        reveal_strlit(".woff");
        lemma_asset_content_types(path@);
    }
    if str_eq(path, "/") || str_eq(path, "") {
        return ProtocolRequest::Page;
    }
    assert(path@.len() != 0) by {
        if path@.len() == 0 {
            assert(path@ =~= ""@);
        }
    }
    let p = str_chars(path);
    if strip_suffix_chars(&p, ".js").is_some() {
        ProtocolRequest::Asset("application/javascript")
    } else if strip_suffix_chars(&p, ".css").is_some() {
        ProtocolRequest::Asset("text/css")
    } else if strip_suffix_chars(&p, ".svg").is_some() {
        ProtocolRequest::Asset("image/svg+xml")
    } else if strip_suffix_chars(&p, ".png").is_some() {
        ProtocolRequest::Asset("image/png")
    } else if strip_suffix_chars(&p, ".woff2").is_some() {
        ProtocolRequest::Asset("font/woff2")
    } else if strip_suffix_chars(&p, ".woff").is_some() {
        ProtocolRequest::Asset("font/woff")
    } else {
        ProtocolRequest::Api
    }
}

/// Each static asset extension is served with its standard content type:
/// `.js` as `application/javascript`, `.css` as `text/css`, `.svg` as
/// `image/svg+xml`, `.png` as `image/png`, `.woff2` as `font/woff2` and
/// `.woff` as `font/woff`; a path with none of these extensions is no
/// asset.
pub proof fn lemma_asset_content_types(path: Seq<char>)
    ensures
        strip_suffix(path, ".js"@) is Some ==> asset_content_type(path) == Some("application/javascript"@),
        strip_suffix(path, ".css"@) is Some ==> asset_content_type(path) == Some("text/css"@),
        strip_suffix(path, ".svg"@) is Some ==> asset_content_type(path) == Some("image/svg+xml"@),
        strip_suffix(path, ".png"@) is Some ==> asset_content_type(path) == Some("image/png"@),
        strip_suffix(path, ".woff2"@) is Some ==> asset_content_type(path) == Some("font/woff2"@),
        strip_suffix(path, ".woff"@) is Some ==> asset_content_type(path) == Some("font/woff"@),
        asset_content_type(path) is Some ==> strip_suffix(path, ".js"@) is Some || strip_suffix(path, ".css"@) is Some
            || strip_suffix(path, ".svg"@) is Some || strip_suffix(path, ".png"@) is Some
            || strip_suffix(path, ".woff2"@) is Some || strip_suffix(path, ".woff"@) is Some,
{
    reveal_strlit(".js");
    reveal_strlit(".css");
    reveal_strlit(".svg");
    reveal_strlit(".png");
    reveal_strlit(".woff2");
    reveal_strlit(".woff");
    let n = path.len() as int;
    let sufs = seq![".js"@, ".css"@, ".svg"@, ".png"@, ".woff2"@, ".woff"@];
    // The last two characters of a path with one of the extensions are
    // those of the extension.
    assert forall|k: int| 0 <= k < sufs.len() && strip_suffix(path, #[trigger] sufs[k]) is Some
        implies path[n - 1] == sufs[k][sufs[k].len() - 1] && path[n - 2] == sufs[k][sufs[k].len() - 2]
            && path[n - 3] == sufs[k][sufs[k].len() - 3] by {
        lemma_suffix_chars(path, sufs[k]);
        assert(path[n - sufs[k].len() + (sufs[k].len() - 1)] == sufs[k][sufs[k].len() - 1]);
        assert(path[n - sufs[k].len() + (sufs[k].len() - 2)] == sufs[k][sufs[k].len() - 2]);
        assert(path[n - sufs[k].len() + (sufs[k].len() - 3)] == sufs[k][sufs[k].len() - 3]);
    }
    assert(strip_suffix(path, sufs[0]) == strip_suffix(path, ".js"@));
    assert(strip_suffix(path, sufs[1]) == strip_suffix(path, ".css"@));
    assert(strip_suffix(path, sufs[2]) == strip_suffix(path, ".svg"@));
    assert(strip_suffix(path, sufs[3]) == strip_suffix(path, ".png"@));
    assert(strip_suffix(path, sufs[4]) == strip_suffix(path, ".woff2"@));
    assert(strip_suffix(path, sufs[5]) == strip_suffix(path, ".woff"@));
}

/// How the target instance is read from a query string, pair by pair:
/// the first `&`-separated pair that starts with `instance=` gives its
/// value; pairs before it are skipped; a query with no such pair names no
/// instance.
pub proof fn lemma_query_instance_pairs(pair: Seq<char>, rest: Seq<char>)
    requires
        !pair.contains('&'),
    ensures
        strip_prefix(pair, "instance="@) matches Some(v) ==> query_instance(pair) == Some(v)
            && query_instance(pair + "&"@ + rest) == Some(v),
        strip_prefix(pair, "instance="@) is None ==> query_instance(pair) is None
            && query_instance(pair + "&"@ + rest) == query_instance(rest),
{
    reveal_strlit("&");
    let q = pair + "&"@ + rest;
    let i = pair.len() as int;
    assert forall|j: int| 0 <= j < pair.len() implies pair[j] != '&' by {
        if pair[j] == '&' {
            assert(pair.contains('&'));
        }
    }
    lemma_first_amp_in_prefix(pair, 0, i);
    assert forall|j: int| 0 <= j < i implies q[j] != '&' by {
        assert(q[j] == pair[j]);
    }
    assert(q[i] == '&');
    lemma_first_amp_in_prefix(q, 0, i);
    assert(q.subrange(0, i) =~= pair);
    assert(q.subrange(i + 1, q.len() as int) =~= rest);
}

} // verus!
