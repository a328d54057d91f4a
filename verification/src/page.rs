//! The conditional serving layer: resolving a request path to a stored
//! file (falling back to a directory's index file), and answering with the
//! stored content digest as a strong cache validator.  A request whose
//! `If-None-Match` header lists the file's current digest is answered "not
//! modified" with no body.

use vstd::prelude::*;
use vstd::string::StrSliceExecFns;
use vstd::string::StringExecFns;

use crate::digest::bytes_to_digest;
use crate::digest::digests_equal;
use crate::schema::Metadata;
use crate::text::char_index_from;
use crate::text::lemma_char_index_from;
use crate::text::str_ends_with_char;
use crate::text::str_starts_with;

verus! {

/// The URL-safe unpadded base64 encoding of a byte sequence.
pub uninterp spec fn b64url_of(bytes: Seq<u8>) -> Seq<char>;

/// What URL-safe unpadded base64 decoding yields for a string, or `None`
/// when the string is not valid base64.
pub uninterp spec fn b64url_decoded(s: Seq<char>) -> Option<Seq<u8>>;

/// Relies on base64's `encode_config` with `URL_SAFE_NO_PAD`: the encoding
/// is a function of the bytes alone, decoding it with the same
/// configuration returns exactly those bytes, and its alphabet
/// (`A-Z a-z 0-9 - _`) contains neither `,` nor `"`.
#[verifier::external_body]
fn b64url_encode(bytes: &[u8]) -> (r: String)
    ensures
        r@ == b64url_of(bytes@),
        b64url_decoded(r@) == Some(bytes@),
        forall|i: int| 0 <= i < r@.len() ==> r@[i] != ',' && r@[i] != '"',
{
    base64::encode_config(bytes, base64::URL_SAFE_NO_PAD)
}

/// Relies on base64's `decode_config` with `URL_SAFE_NO_PAD`: the decoding
/// is a function of the string alone.
#[verifier::external_body]
fn b64url_decode(s: &str) -> (r: Option<Vec<u8>>)
    ensures
        r matches Some(v) ==> b64url_decoded(s@) == Some(v@),
        r is Some <==> b64url_decoded(s@) is Some,
{
    base64::decode_config(s, base64::URL_SAFE_NO_PAD).ok()
}

/// The content type guessed from a file name's extension, if any.
pub uninterp spec fn mime_for(name: Seq<char>) -> Option<Seq<char>>;

/// Relies on `mime_guess::from_path(..).first_raw()`: the guess comes from
/// a static table keyed by the name's extension, a function of the name
/// alone.
#[verifier::external_body]
fn guess_mime_type(name: &str) -> (r: Option<&'static str>)
    ensures
        r matches Some(m) ==> mime_for(name@) == Some(m@),
        r is Some <==> mime_for(name@) is Some,
{
    mime_guess::from_path(name).first_raw()
}

/// The `,`-separated fields of a header value.
pub open spec fn split_commas(s: Seq<char>) -> Seq<Seq<char>>
    decreases s.len(),
{
    let i = char_index_from(s, ',', 0);
    if i < 0 || i >= s.len() {
        seq![s]
    } else {
        seq![s.take(i)] + split_commas(s.skip(i + 1))
    }
}

/// The part of a field between its first `"` and the following `"` (or the
/// field's end); `None` when the field holds no `"` at all.
pub open spec fn quoted_part(t: Seq<char>) -> Option<Seq<char>> {
    let a = char_index_from(t, '"', 0);
    if a >= t.len() {
        None
    } else {
        Some(t.subrange(a + 1, char_index_from(t, '"', a + 1)))
    }
}

/// The digests carried by the fields of an `If-None-Match` value: each
/// field's quoted part decoded, keeping the 32-byte results.  `None` — the
/// whole header is unusable — when some field has no quoted part.
pub open spec fn collect_tags(fields: Seq<Seq<char>>) -> Option<Seq<Seq<u8>>>
    decreases fields.len(),
{
    if fields.len() == 0 {
        Some(Seq::<Seq<u8>>::empty())
    } else {
        match quoted_part(fields[0]) {
            None => None,
            Some(tag) => match collect_tags(fields.drop_first()) {
                None => None,
                Some(rest) => match b64url_decoded(tag) {
                    Some(bytes) => if bytes.len() == 32 {
                        Some(seq![bytes] + rest)
                    } else {
                        Some(rest)
                    },
                    None => Some(rest),
                },
            },
        }
    }
}

/// The digests listed by an `If-None-Match` header value.
pub open spec fn parsed_etags(header: Seq<char>) -> Option<Seq<Seq<u8>>> {
    collect_tags(split_commas(header))
}

/// The abstract values of a list of digests.
pub open spec fn digests_views(s: Seq<[u8; 32]>) -> Seq<Seq<u8>> {
    s.map_values(|d: [u8; 32]| d@)
}

/// `Some(prefix + rest)` when `rest` is `Some`, `None` otherwise.
pub open spec fn opt_tags_prepend(prefix: Seq<Seq<u8>>, rest: Option<Seq<Seq<u8>>>) -> Option<
    Seq<Seq<u8>>,
> {
    match rest {
        Some(r) => Some(prefix + r),
        None => None,
    }
}

/// The digest carried by one header field: `Err` when the field has no
/// quoted part (which spoils the whole header), `Ok(None)` when its quoted
/// part is not a 32-byte digest.
fn field_tag(field: &str) -> (r: Result<Option<[u8; 32]>, ()>)
    ensures
        r is Err <==> quoted_part(field@) is None,
        r matches Ok(o) ==> ({
            let tag = quoted_part(field@).unwrap();
            match b64url_decoded(tag) {
                Some(bytes) => if bytes.len() == 32 {
                    o matches Some(d) && d@ == bytes
                } else {
                    o is None
                },
                None => o is None,
            }
        }),
{
    let m = field.unicode_len();
    let mut a: usize = 0;
    while a < m && field.get_char(a) != '"'
        invariant
            a <= m,
            m == field@.len(),
            forall|j: int| 0 <= j < a ==> field@[j] != '"',
        decreases m - a,
    {
        a += 1;
    }
    proof {
        lemma_char_index_from(field@, '"', 0, a as int);
    }
    if a == m {
        return Err(());
    }
    let mut b: usize = a + 1;
    while b < m && field.get_char(b) != '"'
        invariant
            a + 1 <= b <= m,
            m == field@.len(),
            forall|j: int| a + 1 <= j < b ==> field@[j] != '"',
        decreases m - b,
    {
        b += 1;
    }
    proof {
        lemma_char_index_from(field@, '"', a + 1, b as int);
    }
    let tag = field.substring_char(a + 1, b);
    match b64url_decode(tag) {
        Some(bytes) => {
            if bytes.len() == 32 {
                Ok(Some(bytes_to_digest(bytes.as_slice())))
            } else {
                Ok(None)
            }
        },
        None => Ok(None),
    }
}

/// Parses an `If-None-Match` header value into the digests it lists.
/// `None` when the header is unusable (a field with no quoted part); a
/// caller treats that as an empty list.
#[verifier::loop_isolation(false)]
#[verifier::rlimit(30)]
pub fn parse_etags(header: &str) -> (r: Option<Vec<[u8; 32]>>)
    ensures
        r is Some <==> parsed_etags(header@) is Some,
        r matches Some(v) ==> parsed_etags(header@) == Some(digests_views(v@)),
{
    let n = header.unicode_len();
    let mut out: Vec<[u8; 32]> = Vec::new();
    let mut pos: usize = 0;
    proof {
        assert(header@.skip(0) =~= header@);
        assert(digests_views(out@) =~= Seq::<Seq<u8>>::empty());
        if let Some(t) = collect_tags(split_commas(header@)) {
            assert(digests_views(out@) + t =~= t);
        }
    }
    while pos <= n
        invariant
            pos <= n,
            n == header@.len(),
            parsed_etags(header@) == opt_tags_prepend(
                digests_views(out@),
                collect_tags(split_commas(header@.skip(pos as int))),
            ),
        decreases n + 1 - pos,
    {
        let mut i: usize = pos;
        while i < n && header.get_char(i) != ','
            invariant
                pos <= i <= n,
                forall|j: int| pos <= j < i ==> header@[j] != ',',
            decreases n - i,
        {
            i += 1;
        }
        let field = header.substring_char(pos, i);
        let ghost rest = header@.skip(pos as int);
        proof {
            assert forall|j: int| 0 <= j < i - pos implies rest[j] != ',' by {
                assert(rest[j] == header@[pos + j]);
            }
            if i < n {
                assert(rest[i - pos] == header@[i as int]);
            }
            lemma_char_index_from(rest, ',', 0, i - pos);
            assert(rest.take(i - pos) =~= field@);
        }
        let ghost fields = split_commas(rest);
        proof {
            if i < n {
                assert(rest.skip(i - pos + 1) =~= header@.skip(i + 1));
                assert(fields == seq![field@] + split_commas(header@.skip(i + 1)));
                assert(fields[0] == field@);
                assert(fields.drop_first() =~= split_commas(header@.skip(i + 1)));
            } else {
                assert(rest.take(i - pos) =~= rest);
                assert(fields == seq![rest]);
                assert(fields[0] == field@);
                assert(fields.drop_first() =~= Seq::<Seq<char>>::empty());
            }
        }
        let ghost out0 = out@;
        match field_tag(field) {
            Err(_) => {
                proof {
                    assert(collect_tags(fields) is None);
                }
                return None;
            },
            Ok(Some(d)) => {
                out.push(d);
                proof {
                    assert(digests_views(out@) =~= digests_views(out0).push(d@));
                }
            },
            Ok(None) => {},
        }
        proof {
            let tail = collect_tags(fields.drop_first());
            assert(collect_tags(fields) == (match quoted_part(field@) {
                None => None,
                Some(tag) => match tail {
                    None => None,
                    Some(rest2) => match b64url_decoded(tag) {
                        Some(bytes) => if bytes.len() == 32 {
                            Some(seq![bytes] + rest2)
                        } else {
                            Some(rest2)
                        },
                        None => Some(rest2),
                    },
                },
            }));
            if let Some(rest2) = tail {
                let tag = quoted_part(field@).unwrap();
                match b64url_decoded(tag) {
                    Some(bytes) => {
                        if bytes.len() == 32 {
                            assert(digests_views(out0) + (seq![bytes] + rest2)
                                =~= digests_views(out@) + rest2);
                        }
                    },
                    None => {},
                }
            }
        }
        if i == n {
            proof {
                if let Some(t2) = parsed_etags(header@) {
                    assert(t2 =~= digests_views(out@)) by {
                        if let Some(rest2) = collect_tags(fields.drop_first()) {
                            assert(digests_views(out@) + rest2 =~= digests_views(out@));
                        }
                    }
                }
            }
            return Some(out);
        }
        pos = i + 1;
    }
    vstd::pervasive::unreached()
}

/// Whether the digests listed by an `If-None-Match` value include `digest`.
/// An unusable header matches nothing.
pub open spec fn etags_match(header: Seq<char>, digest: Seq<u8>) -> bool {
    match parsed_etags(header) {
        Some(tags) => tags.contains(digest),
        None => false,
    }
}

/// Whether `tags` lists `digest`.
fn contains_digest(tags: &Vec<[u8; 32]>, digest: &[u8; 32]) -> (r: bool)
    ensures
        r == digests_views(tags@).contains(digest@),
{
    let mut i: usize = 0;
    while i < tags.len()
        invariant
            i <= tags@.len(),
            forall|j: int| 0 <= j < i ==> digests_views(tags@)[j] != digest@,
        decreases tags@.len() - i,
    {
        if digests_equal(&tags[i], digest) {
            assert(digests_views(tags@)[i as int] == digest@);
            return true;
        }
        i += 1;
    }
    proof {
        if digests_views(tags@).contains(digest@) {
            let k = choose|k: int|
                0 <= k < digests_views(tags@).len() && digests_views(tags@)[k] == digest@;
            assert(false);
        }
    }
    false
}

/// Law: a conditional request that echoes the server's own validator for
/// a stored digest matches it and is answered "not modified".  A quoted
/// tag whose content decodes back to the digest — as the `ETag` the server
/// emits does — makes an `If-None-Match` holding exactly that quoted tag
/// match the digest.
pub proof fn lemma_etag_match_echo(digest: Seq<u8>, encoded: Seq<char>)
    requires
        b64url_decoded(encoded) == Some(digest),
        digest.len() == 32,
        forall|i: int| 0 <= i < encoded.len() ==> encoded[i] != ',' && encoded[i] != '"',
    ensures
        etags_match(seq!['"'] + encoded + seq!['"'], digest),
{
    let header = seq!['"'] + encoded + seq!['"'];
    let len = encoded.len() as int;
    assert(header.len() == len + 2);
    assert(header[0] == '"');
    assert(header[len + 1] == '"');
    assert forall|j: int| 0 <= j < header.len() implies header[j] != ',' by {
        if 1 <= j <= len {
            assert(header[j] == encoded[j - 1]);
        }
    }
    lemma_char_index_from(header, ',', 0, header.len() as int);
    assert(split_commas(header) == seq![header]);
    lemma_char_index_from(header, '"', 0, 0);
    assert forall|j: int| 1 <= j < len + 1 implies header[j] != '"' by {
        assert(header[j] == encoded[j - 1]);
    }
    lemma_char_index_from(header, '"', 1, len + 1);
    assert(header.subrange(1, len + 1) =~= encoded);
    assert(quoted_part(header) == Some(encoded));
    let fields = seq![header];
    assert(fields[0] == header);
    assert(fields.drop_first() =~= Seq::<Seq<char>>::empty());
    assert(collect_tags(fields.drop_first()) == Some(Seq::<Seq<u8>>::empty()));
    assert(collect_tags(fields) == Some(seq![digest] + Seq::<Seq<u8>>::empty()));
    assert(seq![digest] + Seq::<Seq<u8>>::empty() =~= seq![digest]);
    assert(seq![digest][0] == digest);
    assert(seq![digest].contains(digest));
}

/// The plan for answering a resolved page request: its status, whether a
/// body follows, and the validator and content-type headers to attach.
pub struct PageResponse {
    pub status: u16,
    pub send_body: bool,
    pub etag: Option<String>,
    pub content_type: Option<String>,
}

/// Builds the response plan for a file: "not modified" without a body
/// exactly when the request's `If-None-Match` lists the file's recorded
/// digest; otherwise a full response.  The digest, when recorded, is
/// echoed as the `ETag` validator, and the content type is guessed from
/// the file name's extension.
pub fn construct_page_response(
    if_none_match: Option<&str>,
    file_name: &str,
    metadata: Option<&Metadata>,
) -> (r: PageResponse)
    ensures
        ({
            let not_modified = if_none_match matches Some(h) && metadata matches Some(m)
                && etags_match(h@, m.blake3@);
            &&& r.status == (if not_modified {
                304u16
            } else {
                200u16
            })
            &&& r.send_body == !not_modified
        }),
        metadata matches Some(m) ==> r.etag matches Some(e) && e@ == b64url_of(m.blake3@)
            && b64url_decoded(e@) == Some(m.blake3@),
        metadata is None ==> r.etag is None,
        r.content_type matches Some(ct) ==> mime_for(file_name@) == Some(ct@),
        r.content_type is Some <==> mime_for(file_name@) is Some,
{
    let not_modified = match (if_none_match, metadata) {
        (Some(h), Some(m)) => {
            match parse_etags(h) {
                Some(tags) => contains_digest(&tags, &m.blake3),
                None => false,
            }
        },
        _ => false,
    };
    let status: u16 = if not_modified {
        304
    } else {
        200
    };
    let etag = match metadata {
        Some(m) => Some(b64url_encode(m.blake3.as_slice())),
        None => None,
    };
    let content_type = match guess_mime_type(file_name) {
        Some(mime_type) => Some(mime_type.to_owned()),
        None => None,
    };
    PageResponse { status, send_body: !not_modified, etag, content_type }
}

/// The name prefix that marks a directory's index file.
pub open spec fn index_prefix() -> Seq<char> {
    seq!['i', 'n', 'd', 'e', 'x', '.']
}

/// Whether a file name conventionally names a directory index.
pub open spec fn is_index_name(s: Seq<char>) -> bool {
    s.len() >= 6 && s.subrange(0, 6) == index_prefix()
}

/// How to answer a request path: serve the file loaded at the path; or,
/// when none was loaded, redirect a directory to its canonical
/// separator-suffixed form, serve its index file, or report nothing there.
pub enum PagePlan {
    ServeLoaded,
    Redirect(String),
    ServeIndex(usize),
    NotFound,
}

/// Resolves a request: a file loaded directly at the path is served.
/// Otherwise the path is treated as a directory: if its listing holds an
/// index file, a path lacking the trailing separator is redirected to the
/// canonical form, and one carrying it is answered with the first index
/// file; a listing with no index file is not found.
#[verifier::loop_isolation(false)]
pub fn resolve_page(path: &str, loaded: bool, listing_names: &Vec<String>) -> (r: PagePlan)
    ensures
        loaded <==> r is ServeLoaded,
        r matches PagePlan::ServeIndex(i) ==> {
            &&& path@.len() > 0 && path@.last() == '/'
            &&& i < listing_names.deep_view().len()
            &&& is_index_name(listing_names.deep_view()[i as int])
            &&& forall|j: int|
                0 <= j < i ==> !is_index_name(#[trigger] listing_names.deep_view()[j])
        },
        r matches PagePlan::Redirect(loc) ==> {
            &&& !(path@.len() > 0 && path@.last() == '/')
            &&& exists|i: int|
                0 <= i < listing_names.deep_view().len() && is_index_name(
                    #[trigger] listing_names.deep_view()[i],
                )
            &&& loc@ == path@ + seq!['/']
        },
        r is NotFound <==> (!loaded && !(exists|i: int|
            0 <= i < listing_names.deep_view().len() && is_index_name(
                #[trigger] listing_names.deep_view()[i],
            ))),
{
    proof {
        reveal_strlit("index.");
        assert("index."@ =~= index_prefix());
    }
    if loaded {
        return PagePlan::ServeLoaded;
    }
    let mut i: usize = 0;
    while i < listing_names.len()
        invariant
            i <= listing_names.deep_view().len(),
            listing_names.deep_view().len() == listing_names@.len(),
            forall|j: int|
                0 <= j < i ==> !is_index_name(#[trigger] listing_names.deep_view()[j]),
            "index."@ == index_prefix(),
        decreases listing_names@.len() - i,
    {
        assert(listing_names.deep_view()[i as int] == listing_names@[i as int]@);
        if str_starts_with(listing_names[i].as_str(), "index.") {
            if !str_ends_with_char(path, '/') {
                let mut location = path.to_owned();
                location.append("/");
                proof {
                    reveal_strlit("/");
                    assert("/"@ =~= seq!['/']);
                }
                return PagePlan::Redirect(location);
            }
            return PagePlan::ServeIndex(i);
        }
        i += 1;
    }
    PagePlan::NotFound
}

/// The methods the server accepts.
pub enum HttpMethod {
    Get,
    Head,
    Options,
    Other,
}

/// What a method is answered with: the resolved file with its body, its
/// headers alone, the list of allowed methods, or a rejection.
pub enum MethodPlan {
    SendBody,
    HeadersOnly,
    ListMethods,
    Reject,
}

/// Dispatches a request method.
pub fn plan_method(method: &HttpMethod) -> (r: MethodPlan)
    ensures
        method is Get <==> r is SendBody,
        method is Head <==> r is HeadersOnly,
        method is Options <==> r is ListMethods,
        method is Other <==> r is Reject,
{
    match method {
        HttpMethod::Get => MethodPlan::SendBody,
        HttpMethod::Head => MethodPlan::HeadersOnly,
        HttpMethod::Options => MethodPlan::ListMethods,
        HttpMethod::Other => MethodPlan::Reject,
    }
}

/// The methods advertised in response to `OPTIONS`.
pub fn allowed_methods() -> (r: &'static str)
    ensures
        r@ == "OPTIONS, GET, HEAD"@,
{
    "OPTIONS, GET, HEAD"
}

} // verus!
