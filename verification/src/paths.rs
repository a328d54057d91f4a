//! Store paths: validation, percent-unescaping, and path construction.
//!
//! A store path is a `/`-separated absolute key.  Segments must not be empty
//! and must not contain a literal separator; a path naming a file must not
//! end in `/` (a trailing separator denotes a directory prefix).  The HTTP
//! layer additionally accepts percent-escaped paths, in which an escape that
//! decodes to `/` is rejected outright so that no request can smuggle a
//! separator into a single segment.

use vstd::prelude::*;

use crate::api::ApiError;
use crate::text::push_char;
use crate::text::str_ends_with_char;
use crate::text::str_eq;
use crate::text::str_starts_with_char;
use vstd::string::StrSliceExecFns;
use vstd::string::StringExecFns;

verus! {

/// Whether `c` is an ASCII hexadecimal digit.
pub open spec fn is_hex_digit(c: char) -> bool {
    let v = c as u32;
    (48 <= v && v <= 57)  // '0' ..= '9'
     || (97 <= v && v <= 102)  // 'a' ..= 'f'
     || (65 <= v && v <= 70)  // 'A' ..= 'F'

}

/// The numeric value of an ASCII hexadecimal digit.
pub open spec fn hex_value(c: char) -> u8
    recommends
        is_hex_digit(c),
{
    let v = c as u32;
    if 48 <= v && v <= 57 {
        (v - 48) as u8
    } else if 97 <= v && v <= 102 {
        (v - 87) as u8
    } else {
        (v - 55) as u8
    }
}

/// The byte denoted by the two hexadecimal digits of a percent escape.
pub open spec fn escape_byte(hi: char, lo: char) -> u8
    recommends
        is_hex_digit(hi),
        is_hex_digit(lo),
{
    (hex_value(hi) * 16 + hex_value(lo)) as u8
}

/// The decoded form of a percent-escaped path, or `None` if the path is
/// rejected: a malformed escape, or an escape that smuggles a `/` into a
/// segment.  A literal `+` decodes to a space, matching form-encoding
/// convention; every decoded escape byte becomes the character with that
/// code.
pub open spec fn percent_decode(s: Seq<char>) -> Option<Seq<char>>
    decreases s.len(),
{
    if s.len() == 0 {
        Some(Seq::<char>::empty())
    } else if s[0] == '%' {
        if s.len() >= 3 && is_hex_digit(s[1]) && is_hex_digit(s[2]) {
            if escape_byte(s[1], s[2]) == 47 {
                // An escaped '/': rejected, never decoded.
                None
            } else {
                match percent_decode(s.skip(3)) {
                    Some(rest) => Some(seq![escape_byte(s[1], s[2]) as char] + rest),
                    None => None,
                }
            }
        } else {
            None
        }
    } else {
        let mapped = if s[0] == '+' {
            ' '
        } else {
            s[0]
        };
        match percent_decode(s.skip(1)) {
            Some(rest) => Some(seq![mapped] + rest),
            None => None,
        }
    }
}

/// Whether decoding `s` fails specifically because the first offending
/// escape denotes a `/` (as opposed to being malformed).
pub open spec fn slash_smuggled(s: Seq<char>) -> bool
    decreases s.len(),
{
    if s.len() == 0 {
        false
    } else if s[0] == '%' {
        if s.len() >= 3 && is_hex_digit(s[1]) && is_hex_digit(s[2]) {
            if escape_byte(s[1], s[2]) == 47 {
                true
            } else {
                slash_smuggled(s.skip(3))
            }
        } else {
            false
        }
    } else {
        slash_smuggled(s.skip(1))
    }
}

/// `Some(prefix + rest)` when `rest` is `Some`, `None` otherwise.
pub open spec fn opt_prepend(prefix: Seq<char>, rest: Option<Seq<char>>) -> Option<Seq<char>> {
    match rest {
        Some(r) => Some(prefix + r),
        None => None,
    }
}

/// The numeric value of an ASCII hexadecimal digit, or `None`.
fn hex_digit_value(c: char) -> (r: Option<u8>)
    ensures
        r is Some <==> is_hex_digit(c),
        r matches Some(v) ==> v == hex_value(c) && v < 16,
{
    let v = c as u32;
    if 48 <= v && v <= 57 {
        Some((v - 48) as u8)
    } else if 97 <= v && v <= 102 {
        Some((v - 87) as u8)
    } else if 65 <= v && v <= 70 {
        Some((v - 55) as u8)
    } else {
        None
    }
}

/// Decodes the percent-escaped components of a request path.
///
/// An escape that decodes to `/` is rejected with `InvalidName`: it would
/// smuggle a separator into a single segment.  A malformed escape (truncated,
/// or with a non-hexadecimal digit) is rejected with `InvalidPath`.
pub fn decode_escaped_path_components(path: &str) -> (r: Result<String, ApiError>)
    ensures
        r matches Ok(d) ==> percent_decode(path@) == Some(d@),
        r is Err <==> percent_decode(path@) is None,
        r == Err::<String, ApiError>(ApiError::InvalidName) <==> (percent_decode(path@) is None
            && slash_smuggled(path@)),
        r == Err::<String, ApiError>(ApiError::InvalidPath) <==> (percent_decode(path@) is None
            && !slash_smuggled(path@)),
{
    let n = path.unicode_len();
    let mut out = String::new();
    let mut i: usize = 0;
    proof {
        assert(path@.skip(0) =~= path@);
    }
    while i < n
        invariant
            i <= n,
            n == path@.len(),
            percent_decode(path@) == opt_prepend(out@, percent_decode(path@.skip(i as int))),
            slash_smuggled(path@) == slash_smuggled(path@.skip(i as int)),
        decreases n - i,
    {
        let ghost rest = path@.skip(i as int);
        assert(rest[0] == path@[i as int]);
        let c = path.get_char(i);
        if c == '%' {
            if n - i < 3 {
                assert(rest.len() < 3);
                return Err(ApiError::InvalidPath);
            }
            assert(rest[1] == path@[i + 1]);
            assert(rest[2] == path@[i + 2]);
            let hi = match hex_digit_value(path.get_char(i + 1)) {
                Some(v) => v,
                None => {
                    return Err(ApiError::InvalidPath);
                },
            };
            let lo = match hex_digit_value(path.get_char(i + 2)) {
                Some(v) => v,
                None => {
                    return Err(ApiError::InvalidPath);
                },
            };
            let byte: u8 = hi * 16 + lo;
            assert(byte == escape_byte(rest[1], rest[2]));
            if byte == 47 {
                // '/' must not appear escaped inside a segment.
                return Err(ApiError::InvalidName);
            }
            let ghost out0 = out@;
            push_char(&mut out, byte as char);
            proof {
                assert(path@.skip(i as int).skip(3) =~= path@.skip(i + 3));
                assert(percent_decode(rest) == opt_prepend(
                    seq![escape_byte(rest[1], rest[2]) as char],
                    percent_decode(path@.skip(i + 3)),
                ));
                assert(percent_decode(path@) == opt_prepend(
                    out@,
                    percent_decode(path@.skip(i + 3)),
                )) by {
                    if let Some(r) = percent_decode(path@.skip(i + 3)) {
                        assert(out0 + (seq![escape_byte(rest[1], rest[2]) as char] + r) =~= out@
                            + r);
                    }
                }
            }
            i += 3;
        } else {
            let mapped = if c == '+' {
                ' '
            } else {
                c
            };
            let ghost out0 = out@;
            push_char(&mut out, mapped);
            proof {
                assert(path@.skip(i as int).skip(1) =~= path@.skip(i + 1));
                assert(percent_decode(rest) == opt_prepend(
                    seq![mapped],
                    percent_decode(path@.skip(i + 1)),
                ));
                assert(percent_decode(path@) == opt_prepend(
                    out@,
                    percent_decode(path@.skip(i + 1)),
                )) by {
                    if let Some(r) = percent_decode(path@.skip(i + 1)) {
                        assert(out0 + (seq![mapped] + r) =~= out@ + r);
                    }
                }
            }
            i += 1;
        }
    }
    proof {
        assert(path@.skip(n as int) =~= Seq::<char>::empty());
        assert(percent_decode(path@) == Some(out@ + Seq::<char>::empty()));
        assert(out@ + Seq::<char>::empty() =~= out@);
    }
    Ok(out)
}

/// Whether `s` is a well-formed absolute path naming a file: it begins with
/// `/`, no segment is empty, and it does not end in `/`.
pub open spec fn valid_file_path(s: Seq<char>) -> bool {
    &&& s.len() >= 2
    &&& s[0] == '/'
    &&& s.last() != '/'
    &&& forall|i: int| 0 <= i < s.len() - 1 ==> !(#[trigger] s[i] == '/' && s[i + 1] == '/')
}

/// Checks that `path` is a well-formed absolute file path.
///
/// A missing leading `/` is `InvalidPath`; an empty segment (a doubled or
/// trailing separator, or nothing after the leading one) is an invalid name.
pub fn check_file_path(path: &str) -> (r: Result<(), ApiError>)
    ensures
        r is Ok <==> valid_file_path(path@),
        r == Err::<(), ApiError>(ApiError::InvalidPath) <==> (path@.len() == 0 || path@[0]
            != '/'),
        r == Err::<(), ApiError>(ApiError::InvalidName) <==> (path@.len() > 0 && path@[0] == '/'
            && !valid_file_path(path@)),
{
    let n = path.unicode_len();
    if n == 0 || path.get_char(0) != '/' {
        return Err(ApiError::InvalidPath);
    }
    if path.get_char(n - 1) == '/' {
        return Err(ApiError::InvalidName);
    }
    let mut i: usize = 1;
    while i < n
        invariant
            1 <= i <= n,
            n == path@.len(),
            path@[0] == '/',
            path@.last() != '/',
            forall|j: int|
                0 <= j < i - 1 ==> !(#[trigger] path@[j] == '/' && path@[j + 1] == '/'),
        decreases n - i,
    {
        if path.get_char(i) == '/' && path.get_char(i - 1) == '/' {
            return Err(ApiError::InvalidName);
        }
        i += 1;
    }
    Ok(())
}

/// Whether `s` is a well-formed single segment name: non-empty and free of
/// the separator.
pub open spec fn valid_name(s: Seq<char>) -> bool {
    s.len() > 0 && forall|i: int| 0 <= i < s.len() ==> s[i] != '/'
}

/// Checks that `name` is a well-formed single segment name.
pub fn check_name(name: &str) -> (r: bool)
    ensures
        r == valid_name(name@),
{
    let n = name.unicode_len();
    if n == 0 {
        return false;
    }
    let mut i: usize = 0;
    while i < n
        invariant
            i <= n,
            n == name@.len(),
            forall|j: int| 0 <= j < i ==> name@[j] != '/',
        decreases n - i,
    {
        if name.get_char(i) == '/' {
            return false;
        }
        i += 1;
    }
    true
}

/// A remote path qualified with its project: the project slug becomes the
/// leading segment, and a relative remote path keeps its own leading
/// separator.
pub open spec fn qualified_path(remote: Seq<char>, project: Seq<char>) -> Seq<char> {
    if remote.len() > 0 && remote[0] == '/' {
        seq!['/'] + project + remote
    } else {
        seq!['/'] + project + seq!['/'] + remote
    }
}

/// Prefixes `remote_path` with its project, and, when the result ends in a
/// separator (it names a directory), appends `file_name` so that the result
/// names a file.  A missing or malformed file name is rejected: it may not
/// be empty and may not contain `/`.
pub fn qualify_remote_path(remote_path: &str, project: &str, file_name: Option<&str>) -> (r:
    Result<String, ApiError>)
    ensures
        ({
            let q = qualified_path(remote_path@, project@);
            &&& (r matches Ok(p) ==> (if q.last() == '/' {
                &&& file_name matches Some(nm) && valid_name(nm@)
                &&& p@ == q + file_name.unwrap()@
            } else {
                p@ == q
            }))
            &&& (r is Err <==> (q.last() == '/' && !(file_name matches Some(nm) && valid_name(
                nm@,
            ))))
            &&& (r is Err ==> r == Err::<String, ApiError>(ApiError::InvalidName))
        }),
{
    proof {
        reveal_strlit("/");
    }
    let mut q = String::from_str("/");
    q.append(project);
    proof {
        assert("/"@ =~= seq!['/']);
    }
    if !str_starts_with_char(remote_path, '/') {
        q.append("/");
    }
    q.append(remote_path);
    proof {
        assert(q@ =~= qualified_path(remote_path@, project@));
    }
    if str_ends_with_char(q.as_str(), '/') {
        match file_name {
            Some(name) => {
                if check_name(name) {
                    q.append(name);
                    Ok(q)
                } else {
                    Err(ApiError::InvalidName)
                }
            },
            None => Err(ApiError::InvalidName),
        }
    } else {
        Ok(q)
    }
}

/// `s` normalized to name a directory: given a leading separator if it lacks
/// one, and a trailing separator if it lacks one.
pub open spec fn normalized_dir(s: Seq<char>) -> Seq<char> {
    let lead = if s.len() > 0 && s[0] == '/' {
        s
    } else {
        seq!['/'] + s
    };
    if lead.last() == '/' {
        lead
    } else {
        lead + seq!['/']
    }
}

/// Normalizes a sync target to a directory path: one leading and one
/// trailing separator.
pub fn normalize_dir_path(remote_path: &str) -> (r: String)
    ensures
        r@ == normalized_dir(remote_path@),
{
    proof {
        reveal_strlit("/");
        assert("/"@ =~= seq!['/']);
    }
    let mut q = String::new();
    if !str_starts_with_char(remote_path, '/') {
        q.append("/");
    }
    q.append(remote_path);
    if !str_ends_with_char(q.as_str(), '/') {
        q.append("/");
    }
    proof {
        assert(q@ =~= normalized_dir(remote_path@));
    }
    q
}

/// Prefixes `path` with the project's own leading segment.
pub fn project_path(project: &str, path: &str) -> (r: String)
    ensures
        r@ == seq!['/'] + project@ + path@,
{
    proof {
        reveal_strlit("/");
        assert("/"@ =~= seq!['/']);
    }
    let mut q = String::from_str("/");
    q.append(project);
    q.append(path);
    q
}

/// The remote directory prefix mirroring a subdirectory `name` of a
/// directory whose remote prefix is `prefix`.
pub fn child_dir_path(prefix: &str, name: &str) -> (r: String)
    ensures
        r@ == prefix@ + name@ + seq!['/'],
{
    proof {
        reveal_strlit("/");
        assert("/"@ =~= seq!['/']);
    }
    let mut q = String::from_str(prefix);
    q.append(name);
    q.append("/");
    q
}

/// The remote path mirroring a file `name` in a directory whose remote
/// prefix is `prefix`.
pub fn child_file_path(prefix: &str, name: &str) -> (r: String)
    ensures
        r@ == prefix@ + name@,
{
    let mut q = String::from_str(prefix);
    q.append(name);
    q
}

/// The position of the first separator in `s` at or after `from`, or
/// `s.len()` if there is none.
pub open spec fn slash_index_from(s: Seq<char>, from: int) -> int
    recommends
        0 <= from <= s.len(),
    decreases s.len() - from,
{
    if from < 0 || from >= s.len() {
        s.len() as int
    } else if s[from] == '/' {
        from
    } else {
        slash_index_from(s, from + 1)
    }
}

proof fn lemma_slash_index_from(s: Seq<char>, from: int, i: int)
    requires
        0 <= from <= i <= s.len(),
        forall|j: int| from <= j < i ==> s[j] != '/',
        i == s.len() || s[i] == '/',
    ensures
        slash_index_from(s, from) == i,
    decreases i - from,
{
    if from < i {
        lemma_slash_index_from(s, from + 1, i);
    }
}

/// The second `/`-separated component of `s`: the characters between the
/// first separator and the one after it (or the end).  `None` when `s` holds
/// no separator at all.
pub open spec fn second_segment(s: Seq<char>) -> Option<Seq<char>> {
    let a = slash_index_from(s, 0);
    if a >= s.len() {
        None
    } else {
        Some(s.subrange(a + 1, slash_index_from(s, a + 1)))
    }
}

/// Extracts the second `/`-separated component of `path`: for an absolute
/// store path this is the project slug the path is filed under.
pub fn project_slug_of_path(path: &str) -> (r: Option<String>)
    ensures
        r matches Some(seg) ==> second_segment(path@) == Some(seg@),
        r is None <==> second_segment(path@) is None,
{
    let n = path.unicode_len();
    let mut a: usize = 0;
    while a < n && path.get_char(a) != '/'
        invariant
            a <= n,
            n == path@.len(),
            forall|j: int| 0 <= j < a ==> path@[j] != '/',
        decreases n - a,
    {
        a += 1;
    }
    proof {
        lemma_slash_index_from(path@, 0, a as int);
    }
    if a == n {
        return None;
    }
    let mut b: usize = a + 1;
    while b < n && path.get_char(b) != '/'
        invariant
            a + 1 <= b <= n,
            n == path@.len(),
            forall|j: int| a + 1 <= j < b ==> path@[j] != '/',
        decreases n - b,
    {
        b += 1;
    }
    proof {
        lemma_slash_index_from(path@, a + 1, b as int);
    }
    Some(path.substring_char(a + 1, b).to_owned())
}

/// Finds the project a path belongs to: the index of the first slug equal to
/// the path's second component.  Rejects a path that names no known project.
pub fn check_project(path: &str, slugs: &Vec<String>) -> (r: Result<usize, ApiError>)
    ensures
        r matches Ok(i) ==> {
            &&& i < slugs@.len()
            &&& second_segment(path@) == Some(slugs@[i as int]@)
            &&& forall|j: int|
                0 <= j < i ==> #[trigger] slugs@[j]@ != slugs@[i as int]@
        },
        r is Err <==> !(second_segment(path@) matches Some(seg) && exists|j: int|
            0 <= j < slugs@.len() && #[trigger] slugs@[j]@ == seg),
        r is Err ==> r == Err::<usize, ApiError>(ApiError::ProjectNotFound),
{
    let seg = match project_slug_of_path(path) {
        Some(seg) => seg,
        None => {
            return Err(ApiError::ProjectNotFound);
        },
    };
    let mut i: usize = 0;
    while i < slugs.len()
        invariant
            i <= slugs@.len(),
            second_segment(path@) == Some(seg@),
            forall|j: int| 0 <= j < i ==> #[trigger] slugs@[j]@ != seg@,
        decreases slugs@.len() - i,
    {
        if str_eq(slugs[i].as_str(), seg.as_str()) {
            return Ok(i);
        }
        i += 1;
    }
    Err(ApiError::ProjectNotFound)
}

} // verus!
