//! Validation rules for identifiers, URLs, Unity versions and SemVer
//! dependency ranges.

use vstd::prelude::*;

use crate::chars::{
    chars_to_string, is_digit, is_lower, is_space, spec_is_digit, spec_is_lower, spec_is_space,
    str_to_chars,
};
use crate::error::Error;

verus! {

/// A character allowed inside a reverse-domain part: lowercase ASCII
/// alphanumeric, hyphen or underscore.
pub open spec fn spec_is_rd_char(c: char) -> bool {
    spec_is_digit(c) || spec_is_lower(c) || c == '-' || c == '_'
}

/// Reverse domain notation: at least two non-empty dot-separated parts, each
/// made of lowercase alphanumerics, hyphens and underscores.
pub open spec fn spec_is_reverse_domain(s: Seq<char>) -> bool {
    &&& s.len() > 0
    &&& s[0] != '.'
    &&& s[s.len() - 1] != '.'
    &&& exists|i: int| 0 <= i < s.len() && s[i] == '.'
    &&& forall|i: int| 0 <= i < s.len() ==> (s[i] == '.' || spec_is_rd_char(s[i]))
    &&& forall|i: int| 0 <= i < s.len() - 1 ==> !(#[trigger] s[i] == '.' && s[i + 1] == '.')
}

/// Validates that a string is in reverse domain notation, such as
/// `com.example.package`.
pub fn validate_reverse_domain(id: &str) -> (r: Result<(), Error>)
    ensures
        r is Ok <==> spec_is_reverse_domain(id@),
        r matches Err(e) ==> e matches Error::InvalidPackageId(p) && p@ == id@,
{
    let cs = str_to_chars(id);
    let n = cs.len();
    if n == 0 {
        return Err(Error::InvalidPackageId(id.to_owned()));
    }
    if cs[0] == '.' || cs[n - 1] == '.' {
        return Err(Error::InvalidPackageId(id.to_owned()));
    }
    let mut has_dot = false;
    let mut i: usize = 0;
    while i < n
        invariant
            i <= n,
            n == cs@.len(),
            cs@ == id@,
            has_dot <==> exists|j: int| 0 <= j < i && cs@[j] == '.',
            forall|j: int| 0 <= j < i ==> (cs@[j] == '.' || spec_is_rd_char(cs@[j])),
            forall|j: int| 0 <= j < i - 1 ==> !(#[trigger] cs@[j] == '.' && cs@[j + 1] == '.'),
        decreases n - i,
    {
        let c = cs[i];
        if c == '.' {
            if i > 0 && cs[i - 1] == '.' {
                return Err(Error::InvalidPackageId(id.to_owned()));
            }
            has_dot = true;
        } else if !(is_digit(c) || is_lower(c) || c == '-' || c == '_') {
            return Err(Error::InvalidPackageId(id.to_owned()));
        }
        i = i + 1;
    }
    if !has_dot {
        return Err(Error::InvalidPackageId(id.to_owned()));
    }
    Ok(())
}

/// The message given when a package id does not carry the VPM id prefix.
pub open spec fn spec_prefix_err_msg(package_id: Seq<char>, vpm_id: Seq<char>) -> Seq<char> {
    seq!['\''] + package_id + "' must start with VPM ID prefix '"@ + vpm_id + seq!['\'']
}

/// Whether `package_id` starts with `vpm_id` followed by a dot.
pub open spec fn spec_has_vpm_prefix(package_id: Seq<char>, vpm_id: Seq<char>) -> bool {
    package_id.len() > vpm_id.len() && package_id.subrange(0, vpm_id.len() as int) == vpm_id
        && package_id[vpm_id.len() as int] == '.'
}

/// Validates that a package id starts with the VPM id prefix and a dot.
pub fn validate_package_id_prefix(package_id: &str, vpm_id: &str) -> (r: Result<(), Error>)
    ensures
        r is Ok <==> spec_has_vpm_prefix(package_id@, vpm_id@),
        r matches Err(e) ==> e matches Error::InvalidPackageId(p) && p@ == spec_prefix_err_msg(
            package_id@,
            vpm_id@,
        ),
{
    let pc = str_to_chars(package_id);
    let vc = str_to_chars(vpm_id);
    let ok: bool = if pc.len() > vc.len() {
        let mut i: usize = 0;
        let mut same = true;
        while i < vc.len()
            invariant
                i <= vc@.len() < pc@.len(),
                pc@ == package_id@,
                vc@ == vpm_id@,
                same <==> pc@.subrange(0, i as int) =~= vc@.subrange(0, i as int),
            decreases vc@.len() - i,
        {
            proof {
                assert(pc@.subrange(0, i + 1).drop_last() =~= pc@.subrange(0, i as int));
                assert(vc@.subrange(0, i + 1).drop_last() =~= vc@.subrange(0, i as int));
                assert(pc@.subrange(0, i + 1).last() == pc@[i as int]);
                assert(vc@.subrange(0, i + 1).last() == vc@[i as int]);
            }
            if pc[i] != vc[i] {
                same = false;
            }
            proof {
                if same {
                    assert(pc@.subrange(0, i + 1) =~= vc@.subrange(0, i + 1));
                } else {
                    assert(pc@.subrange(0, i + 1) != vc@.subrange(0, i + 1));
                }
            }
            i = i + 1;
        }
        proof {
            assert(vc@.subrange(0, vc@.len() as int) =~= vc@);
        }
        same && pc[vc.len()] == '.'
    } else {
        false
    };
    if ok {
        Ok(())
    } else {
        let mut m = String::new();
        crate::chars::push_char(&mut m, '\'');
        let m = m.concat(package_id);
        let m = m.concat("' must start with VPM ID prefix '");
        let m = m.concat(vpm_id);
        let mut m = m;
        crate::chars::push_char(&mut m, '\'');
        proof {
            assert(m@ =~= spec_prefix_err_msg(package_id@, vpm_id@));
        }
        Err(Error::InvalidPackageId(m))
    }
}

/// A Unity version string: `MAJOR.MINOR`, both parts non-empty and numeric.
pub open spec fn spec_is_unity_version(s: Seq<char>) -> bool {
    exists|i: int|
        0 < i < s.len() - 1 && s[i] == '.' && forall|j: int|
            0 <= j < s.len() && j != i ==> spec_is_digit(#[trigger] s[j])
}

/// The message given for a malformed Unity version.
pub open spec fn spec_unity_version_msg(v: Seq<char>) -> Seq<char> {
    "Unity version '"@ + v + "' must be in MAJOR.MINOR format (e.g. \"2022.3\")"@
}

fn unity_version_msg(v: &str) -> (r: String)
    ensures
        r@ == spec_unity_version_msg(v@),
{
    let m = "Unity version '".to_owned();
    let m = m.concat(v);
    m.concat("' must be in MAJOR.MINOR format (e.g. \"2022.3\")")
}

/// Validates that a Unity version string is in `MAJOR.MINOR` format, both
/// parts numeric, such as `2022.3`.
pub fn validate_unity_version(version: &str) -> (r: Result<(), Error>)
    ensures
        r is Ok <==> spec_is_unity_version(version@),
        r matches Err(e) ==> e matches Error::ConfigValidation(m) && m@ == spec_unity_version_msg(
            version@,
        ),
{
    let cs = str_to_chars(version);
    let n = cs.len();
    let mut dot: usize = 0;
    let mut seen_one = false;
    let mut seen_two = false;
    let mut bad = false;
    let mut i: usize = 0;
    while i < n
        invariant
            i <= n,
            n == cs@.len(),
            cs@ == version@,
            !seen_one ==> forall|j: int| 0 <= j < i ==> cs@[j] != '.',
            seen_one && !seen_two ==> dot < i && cs@[dot as int] == '.' && forall|j: int|
                0 <= j < i && j != dot ==> #[trigger] cs@[j] != '.',
            seen_two ==> exists|j1: int, j2: int|
                0 <= j1 < j2 < i && #[trigger] cs@[j1] == '.' && #[trigger] cs@[j2] == '.',
            seen_two ==> seen_one,
            !bad ==> forall|j: int|
                0 <= j < i ==> (#[trigger] cs@[j] == '.' || spec_is_digit(cs@[j])),
            bad ==> exists|j: int| 0 <= j < i && #[trigger] cs@[j] != '.' && !spec_is_digit(cs@[j]),
        decreases n - i,
    {
        let c = cs[i];
        if c == '.' {
            if seen_one {
                seen_two = true;
            } else {
                dot = i;
                seen_one = true;
            }
        } else if !is_digit(c) {
            bad = true;
        }
        i = i + 1;
    }
    let ok = seen_one && !seen_two && !bad && dot > 0 && dot < n - 1;
    proof {
        if ok {
            assert(spec_is_unity_version(version@)) by {
                assert(0 < dot < version@.len() - 1 && version@[dot as int] == '.' && forall|j: int|
                    0 <= j < version@.len() && j != dot ==> spec_is_digit(#[trigger] version@[j]));
            }
        } else {
            if spec_is_unity_version(version@) {
                let k = choose|k: int|
                    0 < k < version@.len() - 1 && version@[k] == '.' && forall|j: int|
                        0 <= j < version@.len() && j != k ==> spec_is_digit(#[trigger] version@[j]);
                assert(version@[k] == '.');
                assert(seen_one);
                if seen_two {
                    let (j1, j2) = choose|j1: int, j2: int|
                        0 <= j1 < j2 < n && #[trigger] cs@[j1] == '.' && #[trigger] cs@[j2] == '.';
                    assert(j1 == k || spec_is_digit(version@[j1]));
                    assert(j2 == k || spec_is_digit(version@[j2]));
                    assert(false);
                }
                if bad {
                    let j = choose|j: int|
                        0 <= j < n && #[trigger] cs@[j] != '.' && !spec_is_digit(cs@[j]);
                    assert(j == k || spec_is_digit(version@[j]));
                    assert(false);
                }
                assert(dot == k);
                assert(false);
            }
        }
    }
    if ok {
        Ok(())
    } else {
        Err(Error::ConfigValidation(unity_version_msg(version)))
    }
}

/// A Unity release suffix: one or more digits, one lowercase channel letter,
/// one or more digits, such as `0b4` or `22f1`.
pub open spec fn spec_is_unity_release(s: Seq<char>) -> bool {
    exists|i: int|
        1 <= i <= s.len() - 2 && spec_is_lower(#[trigger] s[i]) && (forall|j: int|
            0 <= j < i ==> spec_is_digit(#[trigger] s[j])) && (forall|j: int|
            i < j < s.len() ==> spec_is_digit(#[trigger] s[j]))
}

/// The message given for a malformed Unity release suffix.
pub open spec fn spec_unity_release_msg(v: Seq<char>) -> Seq<char> {
    "Unity release '"@ + v + "' must be in <UPDATE><RELEASE> format (e.g. \"0b4\", \"22f1\")"@
}

fn unity_release_msg(v: &str) -> (r: String)
    ensures
        r@ == spec_unity_release_msg(v@),
{
    let m = "Unity release '".to_owned();
    let m = m.concat(v);
    m.concat("' must be in <UPDATE><RELEASE> format (e.g. \"0b4\", \"22f1\")")
}

/// Validates a Unity release suffix in `<UPDATE><RELEASE>` format, such as
/// `0b4` or `22f1`.
pub fn validate_unity_release(release: &str) -> (r: Result<(), Error>)
    ensures
        r is Ok <==> spec_is_unity_release(release@),
        r matches Err(e) ==> e matches Error::ConfigValidation(m) && m@ == spec_unity_release_msg(
            release@,
        ),
{
    let cs = str_to_chars(release);
    let n = cs.len();

    let mut idx: usize = 0;
    while idx < n && is_digit(cs[idx])
        invariant
            idx <= n,
            n == cs@.len(),
            cs@ == release@,
            forall|j: int| 0 <= j < idx ==> spec_is_digit(cs@[j]),
        decreases n - idx,
    {
        idx = idx + 1;
    }
    // `idx` is now the index of the first non-digit, or `n`.
    if idx == 0 || idx >= n {
        proof {
            if spec_is_unity_release(release@) {
                let k = choose|k: int|
                    1 <= k <= release@.len() - 2 && spec_is_lower(#[trigger] release@[k]) && (
                    forall|j: int| 0 <= j < k ==> spec_is_digit(#[trigger] release@[j])) && (
                    forall|j: int| k < j < release@.len() ==> spec_is_digit(#[trigger] release@[j]));
                assert(!spec_is_digit(release@[k]));
                assert(k >= idx);
                if idx < n {
                    assert(!spec_is_digit(release@[idx as int]));
                    assert(k <= idx);
                }
                assert(false);
            }
        }
        return Err(Error::ConfigValidation(unity_release_msg(release)));
    }
    let ghost first_nondigit = idx as int;
    proof {
        assert(!spec_is_digit(cs@[first_nondigit]));
    }
    if !is_lower(cs[idx]) {
        proof {
            if spec_is_unity_release(release@) {
                let k = choose|k: int|
                    1 <= k <= release@.len() - 2 && spec_is_lower(#[trigger] release@[k]) && (
                    forall|j: int| 0 <= j < k ==> spec_is_digit(#[trigger] release@[j])) && (
                    forall|j: int| k < j < release@.len() ==> spec_is_digit(#[trigger] release@[j]));
                assert(k == first_nondigit);
                assert(false);
            }
        }
        return Err(Error::ConfigValidation(unity_release_msg(release)));
    }
    let channel_at = idx;
    let mut j = idx + 1;
    if j >= n {
        proof {
            if spec_is_unity_release(release@) {
                let k = choose|k: int|
                    1 <= k <= release@.len() - 2 && spec_is_lower(#[trigger] release@[k]) && (
                    forall|j: int| 0 <= j < k ==> spec_is_digit(#[trigger] release@[j])) && (
                    forall|j: int| k < j < release@.len() ==> spec_is_digit(#[trigger] release@[j]));
                assert(k >= channel_at);
                assert(k <= release@.len() - 2);
                assert(spec_is_digit(release@[k + 1]) || k + 1 == release@.len());
                assert(k == channel_at || spec_is_digit(release@[channel_at as int]));
                assert(false);
            }
        }
        return Err(Error::ConfigValidation(unity_release_msg(release)));
    }
    while j < n
        invariant
            channel_at < j <= n,
            n == cs@.len(),
            cs@ == release@,
            channel_at == first_nondigit,
            1 <= channel_at <= n - 2,
            spec_is_lower(cs@[channel_at as int]),
            forall|t: int| 0 <= t < channel_at ==> spec_is_digit(#[trigger] cs@[t]),
            forall|t: int| channel_at < t < j ==> spec_is_digit(#[trigger] cs@[t]),
        decreases n - j,
    {
        if !is_digit(cs[j]) {
            proof {
                if spec_is_unity_release(release@) {
                    let k = choose|k: int|
                        1 <= k <= release@.len() - 2 && spec_is_lower(#[trigger] release@[k]) && (
                        forall|t: int| 0 <= t < k ==> spec_is_digit(#[trigger] release@[t])) && (
                        forall|t: int|
                            k < t < release@.len() ==> spec_is_digit(#[trigger] release@[t]));
                    assert(k == first_nondigit);
                    assert(false);
                }
            }
            return Err(Error::ConfigValidation(unity_release_msg(release)));
        }
        j = j + 1;
    }
    proof {
        assert(spec_is_unity_release(release@)) by {
            assert(1 <= first_nondigit <= release@.len() - 2 && spec_is_lower(
                release@[first_nondigit],
            ) && (forall|t: int| 0 <= t < first_nondigit ==> spec_is_digit(#[trigger] release@[t]))
                && (forall|t: int|
                first_nondigit < t < release@.len() ==> spec_is_digit(#[trigger] release@[t])));
        }
    }
    Ok(())
}

/// What the `url` crate reads out of a parsed URL: its scheme, whether it has
/// a host, and its path.
pub struct UrlParts {
    pub scheme: String,
    pub has_host: bool,
    pub path: String,
}

/// Whether `url::Url::parse` accepts the string.
pub uninterp spec fn url_parse_ok(s: Seq<char>) -> bool;

/// The scheme `url::Url::scheme` reports for a parseable URL string.
pub uninterp spec fn url_scheme(s: Seq<char>) -> Seq<char>;

/// Whether `url::Url::host_str` reports a host for a parseable URL string.
pub uninterp spec fn url_has_host(s: Seq<char>) -> bool;

/// The path `url::Url::path` reports for a parseable URL string.
pub uninterp spec fn url_path(s: Seq<char>) -> Seq<char>;

/// Relies on `url::Url::parse` and, on the parsed value, on `Url::scheme`,
/// `Url::host_str` and `Url::path`; all four depend on the input string
/// alone.
#[verifier::external_body]
fn parse_url(s: &str) -> (r: Option<UrlParts>)
    ensures
        r is Some <==> url_parse_ok(s@),
        r matches Some(p) ==> p.scheme@ == url_scheme(s@) && p.has_host == url_has_host(s@)
            && p.path@ == url_path(s@),
{
    match url::Url::parse(s) {
        Ok(u) => Some(
            UrlParts {
                scheme: u.scheme().to_string(),
                has_host: u.host_str().is_some(),
                path: u.path().to_string(),
            },
        ),
        Err(_) => None,
    }
}

/// A URL the library accepts: parseable, scheme `http` or `https`, and with a
/// host.
pub open spec fn spec_is_valid_url(s: Seq<char>) -> bool {
    &&& s.len() > 0
    &&& url_parse_ok(s)
    &&& (url_scheme(s) == "http"@ || url_scheme(s) == "https"@)
    &&& url_has_host(s)
}

/// Validates that a URL is well-formed and uses the `http` or `https` scheme.
pub fn validate_url(url: &str) -> (r: Result<(), Error>)
    ensures
        r is Ok <==> spec_is_valid_url(url@),
        r matches Err(e) ==> e matches Error::InvalidUrl(u, reason) && u@ == url@ && (if url@.len()
            == 0 {
            reason@ == "URL is empty"@
        } else if !url_parse_ok(url@) {
            reason@ == "Invalid URL format"@
        } else if !(url_scheme(url@) == "http"@ || url_scheme(url@) == "https"@) {
            reason@ == "URL must start with http:// or https://"@
        } else {
            reason@ == "URL must include a host"@
        }),
{
    if url.unicode_len() == 0 {
        return Err(Error::InvalidUrl(url.to_owned(), "URL is empty".to_owned()));
    }
    let parsed = parse_url(url);
    match parsed {
        None => Err(Error::InvalidUrl(url.to_owned(), "Invalid URL format".to_owned())),
        Some(p) => {
            let http = "http".to_owned();
            let https = "https".to_owned();
            if !(p.scheme == http || p.scheme == https) {
                return Err(
                    Error::InvalidUrl(
                        url.to_owned(),
                        "URL must start with http:// or https://".to_owned(),
                    ),
                );
            }
            if !p.has_host {
                return Err(
                    Error::InvalidUrl(url.to_owned(), "URL must include a host".to_owned()),
                );
            }
            Ok(())
        },
    }
}

/// The final path segment: everything after the last `/`.
pub open spec fn spec_last_segment(p: Seq<char>) -> Seq<char>
    decreases p.len(),
{
    if p.len() == 0 {
        p
    } else if p[p.len() - 1] == '/' {
        p.subrange(p.len() as int, p.len() as int)
    } else {
        spec_last_segment(p.drop_last()).push(p[p.len() - 1])
    }
}

/// Whether a file name ends in `.zip`, ignoring ASCII case.
pub open spec fn spec_ends_with_zip(f: Seq<char>) -> bool {
    f.len() >= 4 && f[f.len() - 4] == '.' && (f[f.len() - 3] == 'z' || f[f.len() - 3] == 'Z') && (
    f[f.len() - 2] == 'i' || f[f.len() - 2] == 'I') && (f[f.len() - 1] == 'p' || f[f.len() - 1]
        == 'P')
}

/// A URL acceptable as a package download: valid, and its final path segment
/// either carries no extension at all or ends in `.zip`.
pub open spec fn spec_is_valid_zip_url(s: Seq<char>) -> bool {
    &&& spec_is_valid_url(s)
    &&& {
        let f = spec_last_segment(url_path(s));
        (forall|i: int| 0 <= i < f.len() ==> f[i] != '.') || spec_ends_with_zip(f)
    }
}

/// Validates that a URL points at a ZIP archive.  Extensionless signed URLs
/// are allowed; an explicit non-zip extension is rejected.
pub fn validate_zip_url(url: &str) -> (r: Result<(), Error>)
    ensures
        r is Ok <==> spec_is_valid_zip_url(url@),
        r matches Err(e) ==> e matches Error::InvalidUrl(u, _) && u@ == url@,
{
    match validate_url(url) {
        Err(e) => Err(e),
        Ok(()) => {
            let parsed = parse_url(url);
            match parsed {
                None => Err(Error::InvalidUrl(url.to_owned(), "Invalid URL format".to_owned())),
                Some(p) => {
                    let pc = str_to_chars(p.path.as_str());
                    let n = pc.len();
                    // Find the start of the final segment.
                    let mut start: usize = n;
                    while start > 0 && pc[start - 1] != '/'
                        invariant
                            start <= n,
                            n == pc@.len(),
                            pc@ == url_path(url@),
                            forall|j: int| start <= j < n ==> pc@[j] != '/',
                        decreases start,
                    {
                        start = start - 1;
                    }
                    proof {
                        lemma_last_segment_suffix(pc@, start as int);
                    }
                    let seg_len = n - start;
                    let ghost f = spec_last_segment(url_path(url@));
                    proof {
                        assert(f =~= pc@.subrange(start as int, n as int));
                    }
                    let mut has_dot = false;
                    let mut k: usize = start;
                    while k < n
                        invariant
                            start <= k <= n,
                            n == pc@.len(),
                            pc@ == url_path(url@),
                            f == pc@.subrange(start as int, n as int),
                            has_dot <==> exists|j: int| start <= j < k && pc@[j] == '.',
                        decreases n - k,
                    {
                        if pc[k] == '.' {
                            has_dot = true;
                        }
                        k = k + 1;
                    }
                    if !has_dot {
                        proof {
                            assert(forall|i: int| 0 <= i < f.len() ==> f[i] != '.');
                        }
                        return Ok(());
                    }
                    let ok = seg_len >= 4 && pc[n - 4] == '.' && (pc[n - 3] == 'z' || pc[n - 3]
                        == 'Z') && (pc[n - 2] == 'i' || pc[n - 2] == 'I') && (pc[n - 1] == 'p'
                        || pc[n - 1] == 'P');
                    if ok {
                        Ok(())
                    } else {
                        proof {
                            assert(exists|j: int| 0 <= j < f.len() && f[j] == '.') by {
                                let w = choose|j: int| start <= j < n && pc@[j] == '.';
                                assert(f[w - start] == '.');
                            }
                            assert(!spec_ends_with_zip(f));
                        }
                        Err(
                            Error::InvalidUrl(
                                url.to_owned(),
                                "URL must point to a .zip file".to_owned(),
                            ),
                        )
                    }
                },
            }
        },
    }
}

/// When no separator stands at or after `k`, the final segment is the suffix
/// from `k`.
proof fn lemma_last_segment_suffix(p: Seq<char>, k: int)
    requires
        0 <= k <= p.len(),
        forall|j: int| k <= j < p.len() ==> p[j] != '/',
        k > 0 ==> p[k - 1] == '/',
    ensures
        spec_last_segment(p) =~= p.subrange(k, p.len() as int),
    decreases p.len() - k,
{
    if p.len() == k {
        if k == 0 {
        } else {
            assert(p[p.len() - 1] == '/');
        }
    } else {
        assert(p[p.len() - 1] != '/');
        assert(p.drop_last() =~= p.subrange(0, p.len() - 1));
        lemma_last_segment_suffix(p.drop_last(), k);
        assert(p.drop_last().subrange(k, p.len() - 1) =~= p.subrange(k, p.len() - 1));
    }
}

} // verus!

verus! {

/// Whether `semver::Version::parse` accepts the string as a strict SemVer
/// version.
pub uninterp spec fn semver_version_ok(s: Seq<char>) -> bool;

/// Relies on `semver::Version::parse`: whether the string is strict SemVer.
#[verifier::external_body]
pub(crate) fn semver_version_is_valid(s: &str) -> (r: bool)
    ensures
        r == semver_version_ok(s@),
{
    semver::Version::parse(s).is_ok()
}

/// Whether `semver::VersionReq::parse` accepts the string as a version
/// requirement.
pub uninterp spec fn semver_req_ok(s: Seq<char>) -> bool;

/// Relies on `semver::VersionReq::parse`: whether the string is a well-formed
/// version requirement.
#[verifier::external_body]
pub(crate) fn semver_req_is_valid(s: &str) -> (r: bool)
    ensures
        r == semver_req_ok(s@),
{
    semver::VersionReq::parse(s).is_ok()
}

/// The message given for a Unity dependency version that is not exact SemVer.
pub open spec fn spec_unity_dep_msg(v: Seq<char>) -> Seq<char> {
    "Unity dependency version '"@ + v + "' must be a valid SemVer version"@
}

/// Validates that a Unity `dependencies` value is an exact SemVer version,
/// with no range operators.
pub fn validate_unity_dependency_version(version: &str) -> (r: Result<(), Error>)
    ensures
        r is Ok <==> semver_version_ok(version@),
        r matches Err(e) ==> e matches Error::ConfigValidation(m) && m@ == spec_unity_dep_msg(
            version@,
        ),
{
    if semver_version_is_valid(version) {
        Ok(())
    } else {
        let m = "Unity dependency version '".to_owned();
        let m = m.concat(version);
        let m = m.concat("' must be a valid SemVer version");
        Err(Error::ConfigValidation(m))
    }
}

/// The first index of `c` in `s`, or -1.
pub open spec fn spec_find_char(s: Seq<char>, c: char) -> int
    decreases s.len(),
{
    if s.len() == 0 {
        -1
    } else if s[0] == c {
        0
    } else {
        let r = spec_find_char(s.drop_first(), c);
        if r < 0 {
            -1
        } else {
            r + 1
        }
    }
}

pub fn find_char(v: &Vec<char>, c: char) -> (r: Option<usize>)
    ensures
        r matches Some(i) ==> i < v@.len() && spec_find_char(v@, c) == i,
        r is None ==> spec_find_char(v@, c) == -1,
    decreases v@.len(),
{
    if v.len() == 0 {
        None
    } else if v[0] == c {
        Some(0)
    } else {
        let rest = subvec(v, 1, v.len());
        proof {
            assert(rest@ =~= v@.drop_first());
        }
        match find_char(&rest, c) {
            Some(i) => Some(i + 1),
            None => None,
        }
    }
}

/// A copy of `v[from..to]`.
pub fn subvec(v: &Vec<char>, from: usize, to: usize) -> (r: Vec<char>)
    requires
        from <= to <= v@.len(),
    ensures
        r@ == v@.subrange(from as int, to as int),
{
    let mut r: Vec<char> = Vec::new();
    let mut i = from;
    while i < to
        invariant
            from <= i <= to <= v@.len(),
            r@ == v@.subrange(from as int, i as int),
        decreases to - i,
    {
        r.push(v[i]);
        i = i + 1;
        proof {
            assert(r@ =~= v@.subrange(from as int, i as int));
        }
    }
    r
}

/// `s` without leading ASCII whitespace.
pub open spec fn spec_trim_start(s: Seq<char>) -> Seq<char>
    decreases s.len(),
{
    if s.len() > 0 && spec_is_space(s[0]) {
        spec_trim_start(s.drop_first())
    } else {
        s
    }
}

/// `s` without trailing ASCII whitespace.
pub open spec fn spec_trim_end(s: Seq<char>) -> Seq<char>
    decreases s.len(),
{
    if s.len() > 0 && spec_is_space(s[s.len() - 1]) {
        spec_trim_end(s.drop_last())
    } else {
        s
    }
}

/// `s` without leading or trailing ASCII whitespace.
pub open spec fn spec_trim(s: Seq<char>) -> Seq<char> {
    spec_trim_end(spec_trim_start(s))
}

pub fn trim_start_vec(v: &Vec<char>) -> (r: Vec<char>)
    ensures
        r@ == spec_trim_start(v@),
    decreases v@.len(),
{
    if v.len() > 0 && is_space(v[0]) {
        let rest = subvec(v, 1, v.len());
        proof {
            assert(rest@ =~= v@.drop_first());
        }
        trim_start_vec(&rest)
    } else {
        subvec(v, 0, v.len())
    }
}

pub fn trim_end_vec(v: &Vec<char>) -> (r: Vec<char>)
    ensures
        r@ == spec_trim_end(v@),
    decreases v@.len(),
{
    if v.len() > 0 && is_space(v[v.len() - 1]) {
        let rest = subvec(v, 0, v.len() - 1);
        proof {
            assert(rest@ =~= v@.drop_last());
        }
        trim_end_vec(&rest)
    } else {
        subvec(v, 0, v.len())
    }
}

pub fn trim_vec(v: &Vec<char>) -> (r: Vec<char>)
    ensures
        r@ == spec_trim(v@),
{
    let s = trim_start_vec(v);
    trim_end_vec(&s)
}

/// A dot-separated part, with `x` or `X` mapped to the `*` wildcard.
pub open spec fn spec_norm_part(p: Seq<char>) -> Seq<char> {
    if p == seq!['x'] || p == seq!['X'] {
        seq!['*']
    } else {
        p
    }
}

/// A version token with every `x` or `X` part replaced by `*`, so that
/// x-ranges such as `3.5.x` read as `3.5.*`.
pub open spec fn spec_norm_token(s: Seq<char>) -> Seq<char>
    decreases s.len(),
{
    let i = spec_find_char(s, '.');
    if i < 0 || i >= s.len() {
        spec_norm_part(s)
    } else {
        spec_norm_part(s.subrange(0, i)) + seq!['.'] + spec_norm_token(
            s.subrange(i + 1, s.len() as int),
        )
    }
}

/// A found character index lies inside the string and holds the character.
pub proof fn lemma_find_char_bounds(s: Seq<char>, c: char)
    ensures
        spec_find_char(s, c) >= 0 ==> spec_find_char(s, c) < s.len() && s[spec_find_char(s, c)]
            == c,
    decreases s.len(),
{
    if s.len() > 0 && s[0] != c {
        lemma_find_char_bounds(s.drop_first(), c);
    }
}

fn norm_part(p: &Vec<char>) -> (r: Vec<char>)
    ensures
        r@ == spec_norm_part(p@),
{
    if p.len() == 1 && (p[0] == 'x' || p[0] == 'X') {
        let mut r: Vec<char> = Vec::new();
        r.push('*');
        proof {
            assert(p@ =~= seq![p@[0]]);
            assert(r@ =~= seq!['*']);
        }
        r
    } else {
        proof {
            if p@.len() == 1 {
                assert(p@ =~= seq![p@[0]]);
            } else {
                assert(p@ != seq!['x'] && p@ != seq!['X']);
            }
        }
        subvec(p, 0, p.len())
    }
}

fn norm_token(v: &Vec<char>) -> (r: Vec<char>)
    ensures
        r@ == spec_norm_token(v@),
    decreases v@.len(),
{
    let n = v.len();
    match find_char(v, '.') {
        None => norm_part(v),
        Some(i) => {
            let head = subvec(v, 0, i);
            let tail = subvec(v, i + 1, n);
            let mut r = norm_part(&head);
            r.push('.');
            let mut rest = norm_token(&tail);
            let mut r = r;
            let mut k: usize = 0;
            while k < rest.len()
                invariant
                    k <= rest@.len(),
                    r@ == spec_norm_part(v@.subrange(0, spec_find_char(v@, '.'))) + seq!['.']
                        + rest@.subrange(0, k as int),
                    rest@ == spec_norm_token(
                        v@.subrange(spec_find_char(v@, '.') + 1, v@.len() as int),
                    ),
                    spec_find_char(v@, '.') >= 0,
                decreases rest@.len() - k,
            {
                r.push(rest[k]);
                k = k + 1;
                proof {
                    assert(r@ =~= spec_norm_part(v@.subrange(0, spec_find_char(v@, '.')))
                        + seq!['.'] + rest@.subrange(0, k as int));
                }
            }
            proof {
                assert(rest@.subrange(0, rest@.len() as int) =~= rest@);
            }
            r
        },
    }
}

} // verus!

verus! {

/// `a` with `b` appended.
pub fn concat_vecs(a: Vec<char>, b: &Vec<char>) -> (r: Vec<char>)
    ensures
        r@ == a@ + b@,
{
    let ghost a0 = a@;
    let mut r = a;
    let mut i: usize = 0;
    while i < b.len()
        invariant
            i <= b@.len(),
            r@ == a0 + b@.subrange(0, i as int),
        decreases b@.len() - i,
    {
        r.push(b[i]);
        i = i + 1;
        proof {
            assert(r@ =~= a0 + b@.subrange(0, i as int));
        }
    }
    proof {
        assert(r@ =~= a0 + b@);
    }
    r
}

/// A SemVer comparison operator character.
pub open spec fn spec_is_op_char(c: char) -> bool {
    c == '<' || c == '>' || c == '=' || c == '~' || c == '^'
}

/// Where the operator prefix of a comparator token ends: the first index
/// holding a non-operator character, or the token's length.
pub open spec fn spec_op_split(s: Seq<char>) -> int
    decreases s.len(),
{
    if s.len() == 0 {
        0
    } else if !spec_is_op_char(s[0]) {
        0
    } else {
        1 + spec_op_split(s.drop_first())
    }
}

/// The operator split point lies inside the token.
proof fn lemma_op_split_bounds(s: Seq<char>)
    ensures
        0 <= spec_op_split(s) <= s.len(),
    decreases s.len(),
{
    if s.len() > 0 && spec_is_op_char(s[0]) {
        lemma_op_split_bounds(s.drop_first());
    }
}

/// A comparator token with its version part normalized: the operator prefix
/// is kept, and `x`/`X` parts of the version become `*`.  A token with no
/// version part is kept as it is.
pub open spec fn spec_norm_comparator(s: Seq<char>) -> Seq<char> {
    let i = spec_op_split(s);
    if i < 0 || i >= s.len() {
        s
    } else {
        s.subrange(0, i) + spec_norm_token(s.subrange(i, s.len() as int))
    }
}

fn op_split(v: &Vec<char>) -> (r: usize)
    ensures
        r == spec_op_split(v@),
        r <= v@.len(),
    decreases v@.len(),
{
    proof {
        lemma_op_split_bounds(v@);
    }
    if v.len() == 0 {
        0
    } else if !(v[0] == '<' || v[0] == '>' || v[0] == '=' || v[0] == '~' || v[0] == '^') {
        0
    } else {
        let rest = subvec(v, 1, v.len());
        proof {
            assert(rest@ =~= v@.drop_first());
        }
        1 + op_split(&rest)
    }
}

fn norm_comparator(v: &Vec<char>) -> (r: Vec<char>)
    ensures
        r@ == spec_norm_comparator(v@),
{
    let i = op_split(v);
    if i >= v.len() {
        subvec(v, 0, v.len())
    } else {
        let head = subvec(v, 0, i);
        let tail = subvec(v, i, v.len());
        let normed = norm_token(&tail);
        concat_vecs(head, &normed)
    }
}

/// Where the first whitespace-separated token of `s` ends: the first index
/// holding ASCII whitespace, or the string's length.
pub open spec fn spec_tok_end(s: Seq<char>) -> int
    decreases s.len(),
{
    if s.len() == 0 {
        0
    } else if spec_is_space(s[0]) {
        0
    } else {
        1 + spec_tok_end(s.drop_first())
    }
}

/// The token end lies inside the string.
proof fn lemma_tok_end_bounds(s: Seq<char>)
    ensures
        0 <= spec_tok_end(s) <= s.len(),
    decreases s.len(),
{
    if s.len() > 0 && !spec_is_space(s[0]) {
        lemma_tok_end_bounds(s.drop_first());
    }
}

fn tok_end(v: &Vec<char>) -> (r: usize)
    ensures
        r == spec_tok_end(v@),
        r <= v@.len(),
    decreases v@.len(),
{
    proof {
        lemma_tok_end_bounds(v@);
    }
    if v.len() == 0 {
        0
    } else if is_space(v[0]) {
        0
    } else {
        let rest = subvec(v, 1, v.len());
        proof {
            assert(rest@ =~= v@.drop_first());
        }
        1 + tok_end(&rest)
    }
}

/// The whitespace-separated tokens of `s`, each comparator-normalized, joined
/// with single spaces.  This is how each comma-separated segment of a clause
/// is rewritten.
pub open spec fn spec_norm_segment(s: Seq<char>) -> Seq<char>
    decreases s.len(),
{
    if s.len() == 0 {
        s
    } else if spec_is_space(s[0]) {
        spec_norm_segment(s.drop_first())
    } else {
        let i = spec_tok_end(s);
        if 1 <= i <= s.len() {
            let tok = spec_norm_comparator(s.subrange(0, i));
            let rest = spec_norm_segment(s.subrange(i, s.len() as int));
            if rest.len() == 0 {
                tok
            } else {
                tok + seq![' '] + rest
            }
        } else {
            s
        }
    }
}

fn norm_segment(v: &Vec<char>) -> (r: Vec<char>)
    ensures
        r@ == spec_norm_segment(v@),
    decreases v@.len(),
{
    if v.len() == 0 {
        Vec::new()
    } else if is_space(v[0]) {
        let rest = subvec(v, 1, v.len());
        proof {
            assert(rest@ =~= v@.drop_first());
        }
        norm_segment(&rest)
    } else {
        let i = tok_end(v);
        proof {
            lemma_tok_end_bounds(v@.drop_first());
            assert(spec_tok_end(v@) >= 1);
        }
        let tok_raw = subvec(v, 0, i);
        let tok = norm_comparator(&tok_raw);
        let tail = subvec(v, i, v.len());
        let rest = norm_segment(&tail);
        if rest.len() == 0 {
            tok
        } else {
            let mut r = tok;
            r.push(' ');
            concat_vecs(r, &rest)
        }
    }
}

/// The whitespace-separated tokens of `s` joined with `sep`, unchanged
/// otherwise.
pub open spec fn spec_join_ws(s: Seq<char>, sep: Seq<char>) -> Seq<char>
    decreases s.len(),
{
    if s.len() == 0 {
        s
    } else if spec_is_space(s[0]) {
        spec_join_ws(s.drop_first(), sep)
    } else {
        let i = spec_tok_end(s);
        if 1 <= i <= s.len() {
            let tok = s.subrange(0, i);
            let rest = spec_join_ws(s.subrange(i, s.len() as int), sep);
            if rest.len() == 0 {
                tok
            } else {
                tok + sep + rest
            }
        } else {
            s
        }
    }
}

pub fn join_ws(v: &Vec<char>, sep: &Vec<char>) -> (r: Vec<char>)
    ensures
        r@ == spec_join_ws(v@, sep@),
    decreases v@.len(),
{
    if v.len() == 0 {
        Vec::new()
    } else if is_space(v[0]) {
        let rest = subvec(v, 1, v.len());
        proof {
            assert(rest@ =~= v@.drop_first());
        }
        join_ws(&rest, sep)
    } else {
        let i = tok_end(v);
        proof {
            lemma_tok_end_bounds(v@.drop_first());
            assert(spec_tok_end(v@) >= 1);
        }
        let tok = subvec(v, 0, i);
        let tail = subvec(v, i, v.len());
        let rest = join_ws(&tail, sep);
        if rest.len() == 0 {
            tok
        } else {
            let joined = concat_vecs(tok, sep);
            concat_vecs(joined, &rest)
        }
    }
}

/// A clause with each comma-separated segment whitespace-normalized, the way
/// `>=1.0 <2.0, ^3` is rewritten before `semver` sees it.
pub open spec fn spec_norm_clause(s: Seq<char>) -> Seq<char>
    decreases s.len(),
{
    let i = spec_find_char(s, ',');
    if i < 0 || i >= s.len() {
        spec_norm_segment(s)
    } else {
        spec_norm_segment(s.subrange(0, i)) + seq![','] + spec_norm_clause(
            s.subrange(i + 1, s.len() as int),
        )
    }
}

fn norm_clause(v: &Vec<char>) -> (r: Vec<char>)
    ensures
        r@ == spec_norm_clause(v@),
    decreases v@.len(),
{
    let n = v.len();
    match find_char(v, ',') {
        None => norm_segment(v),
        Some(i) => {
            let head = subvec(v, 0, i);
            let tail = subvec(v, i + 1, n);
            let mut r = norm_segment(&head);
            r.push(',');
            let rest = norm_clause(&tail);
            concat_vecs(r, &rest)
        },
    }
}

/// The first index where `pat` occurs in `s`, or -1.
pub open spec fn spec_find_sub(s: Seq<char>, pat: Seq<char>) -> int
    decreases s.len(),
{
    if s.len() < pat.len() {
        -1
    } else if s.subrange(0, pat.len() as int) == pat {
        0
    } else if s.len() == 0 {
        -1
    } else {
        let r = spec_find_sub(s.drop_first(), pat);
        if r < 0 {
            -1
        } else {
            r + 1
        }
    }
}

/// A found occurrence lies inside the string.
proof fn lemma_find_sub_bounds(s: Seq<char>, pat: Seq<char>)
    ensures
        spec_find_sub(s, pat) >= 0 ==> spec_find_sub(s, pat) + pat.len() <= s.len(),
    decreases s.len(),
{
    if s.len() >= pat.len() && s.subrange(0, pat.len() as int) != pat && s.len() > 0 {
        lemma_find_sub_bounds(s.drop_first(), pat);
    }
}

fn find_sub(v: &Vec<char>, pat: &Vec<char>) -> (r: Option<usize>)
    ensures
        r matches Some(i) ==> spec_find_sub(v@, pat@) == i && i + pat@.len() <= v@.len(),
        r is None ==> spec_find_sub(v@, pat@) == -1,
    decreases v@.len(),
{
    proof {
        lemma_find_sub_bounds(v@, pat@);
    }
    if v.len() < pat.len() {
        return None;
    }
    let mut eq = true;
    let mut k: usize = 0;
    while k < pat.len()
        invariant
            k <= pat@.len() <= v@.len(),
            eq <==> v@.subrange(0, k as int) =~= pat@.subrange(0, k as int),
        decreases pat@.len() - k,
    {
        proof {
            assert(v@.subrange(0, k + 1).drop_last() =~= v@.subrange(0, k as int));
            assert(pat@.subrange(0, k + 1).drop_last() =~= pat@.subrange(0, k as int));
            assert(v@.subrange(0, k + 1).last() == v@[k as int]);
            assert(pat@.subrange(0, k + 1).last() == pat@[k as int]);
        }
        if v[k] != pat[k] {
            eq = false;
        }
        proof {
            if eq {
                assert(v@.subrange(0, k + 1) =~= pat@.subrange(0, k + 1));
            } else {
                assert(v@.subrange(0, k + 1) != pat@.subrange(0, k + 1));
            }
        }
        k = k + 1;
    }
    proof {
        assert(pat@.subrange(0, pat@.len() as int) =~= pat@);
    }
    if eq {
        return Some(0);
    }
    if v.len() == 0 {
        return None;
    }
    let rest = subvec(v, 1, v.len());
    proof {
        assert(rest@ =~= v@.drop_first());
    }
    match find_sub(&rest, pat) {
        Some(i) => Some(i + 1),
        None => None,
    }
}

/// The `||`-separated clauses of a range expression.
pub open spec fn spec_clauses(s: Seq<char>) -> Seq<Seq<char>>
    decreases s.len(),
{
    let i = spec_find_sub(s, seq!['|', '|']);
    if i < 0 || i + 2 > s.len() {
        seq![s]
    } else {
        seq![s.subrange(0, i)] + spec_clauses(s.subrange(i + 2, s.len() as int))
    }
}

fn clauses(v: &Vec<char>) -> (r: Vec<Vec<char>>)
    ensures
        r.deep_view() == spec_clauses(v@),
        r@.len() > 0,
    decreases v@.len(),
{
    let mut pat: Vec<char> = Vec::new();
    pat.push('|');
    pat.push('|');
    proof {
        assert(pat@ =~= seq!['|', '|']);
    }
    let n = v.len();
    match find_sub(v, &pat) {
        None => {
            let mut r: Vec<Vec<char>> = Vec::new();
            r.push(subvec(v, 0, n));
            proof {
                assert(v@.subrange(0, n as int) =~= v@);
                assert(r.deep_view() =~~= spec_clauses(v@));
            }
            r
        },
        Some(i) => {
            let head = subvec(v, 0, i);
            let tail = subvec(v, i + 2, n);
            let rest = clauses(&tail);
            let mut r: Vec<Vec<char>> = Vec::new();
            r.push(head);
            let mut j: usize = 0;
            let ghost head_view = v@.subrange(0, i as int);
            proof {
                assert(r.deep_view() =~~= seq![head_view] + rest.deep_view().subrange(0, 0));
            }
            while j < rest.len()
                invariant
                    j <= rest@.len(),
                    r.deep_view() =~~= seq![head_view] + rest.deep_view().subrange(0, j as int),
                    rest.deep_view() == spec_clauses(v@.subrange(i + 2, v@.len() as int)),
                    spec_find_sub(v@, seq!['|', '|']) == i,
                    i + 2 <= v@.len(),
                decreases rest@.len() - j,
            {
                let ghost prev = r.deep_view();
                let piece = subvec(&rest[j], 0, rest[j].len());
                proof {
                    assert(rest@[j as int]@.subrange(0, rest@[j as int]@.len() as int)
                        =~= rest@[j as int]@);
                    assert(piece@ == rest@[j as int]@);
                    assert(rest.deep_view()[j as int] == rest@[j as int]@);
                }
                r.push(piece);
                j = j + 1;
                proof {
                    assert(r.deep_view() =~~= prev + seq![rest.deep_view()[j - 1]]);
                    assert(r.deep_view() =~~= seq![head_view] + rest.deep_view().subrange(
                        0,
                        j as int,
                    ));
                }
            }
            proof {
                assert(rest.deep_view().subrange(0, rest.deep_view().len() as int)
                    =~= rest.deep_view());
                assert(r.deep_view() =~~= spec_clauses(v@));
            }
            r
        },
    }
}

} // verus!

verus! {

/// A hyphen range `A - B`: both sides, trimmed and wildcard-normalized,
/// non-empty, and `>=A, <=B` accepted by `semver`.
pub open spec fn spec_hyphen_ok(clause: Seq<char>) -> bool {
    let i = spec_find_sub(clause, seq![' ', '-', ' ']);
    if i < 0 || i + 3 > clause.len() {
        false
    } else {
        let left = spec_norm_token(spec_trim(clause.subrange(0, i)));
        let right = spec_norm_token(spec_trim(clause.subrange(i + 3, clause.len() as int)));
        left.len() > 0 && right.len() > 0 && semver_req_ok(">="@ + left + ", <="@ + right)
    }
}

fn is_valid_hyphen_range(clause: &Vec<char>) -> (r: bool)
    ensures
        r == spec_hyphen_ok(clause@),
{
    let mut pat: Vec<char> = Vec::new();
    pat.push(' ');
    pat.push('-');
    pat.push(' ');
    proof {
        assert(pat@ =~= seq![' ', '-', ' ']);
    }
    let n = clause.len();
    match find_sub(clause, &pat) {
        None => false,
        Some(i) => {
            let left_raw = subvec(clause, 0, i);
            let right_raw = subvec(clause, i + 3, n);
            let left_t = trim_vec(&left_raw);
            let left = norm_token(&left_t);
            let right_t = trim_vec(&right_raw);
            let right = norm_token(&right_t);
            if left.len() == 0 || right.len() == 0 {
                return false;
            }
            let req = ">=".to_owned();
            let req = req.concat(chars_to_string(left.as_slice()).as_str());
            let req = req.concat(", <=");
            let req = req.concat(chars_to_string(right.as_slice()).as_str());
            proof {
                assert(req@ =~= ">="@ + left@ + ", <="@ + right@);
            }
            semver_req_is_valid(req.as_str())
        },
    }
}

/// An acceptable OR-clause: a hyphen range, or a clause `semver` accepts
/// after wildcard normalization, or one it accepts once its space-separated
/// comparators are joined with commas.
pub open spec fn spec_clause_ok(clause: Seq<char>) -> bool {
    ||| spec_hyphen_ok(clause)
    ||| semver_req_ok(spec_norm_clause(clause))
    ||| {
        let cj = spec_join_ws(spec_norm_clause(clause), seq![',', ' ']);
        cj.len() > 0 && semver_req_ok(cj)
    }
}

fn clause_ok(clause: &Vec<char>) -> (r: bool)
    ensures
        r == spec_clause_ok(clause@),
{
    if is_valid_hyphen_range(clause) {
        return true;
    }
    let normalized = norm_clause(clause);
    if semver_req_is_valid(chars_to_string(normalized.as_slice()).as_str()) {
        return true;
    }
    let mut sep: Vec<char> = Vec::new();
    sep.push(',');
    sep.push(' ');
    proof {
        assert(sep@ =~= seq![',', ' ']);
    }
    let cj = join_ws(&normalized, &sep);
    cj.len() > 0 && semver_req_is_valid(chars_to_string(cj.as_slice()).as_str())
}

/// A VPM dependency range: non-empty after trimming, each `||`-separated
/// clause non-empty after trimming and acceptable.
pub open spec fn spec_vpm_range_ok(range: Seq<char>) -> bool {
    let t = spec_trim(range);
    t.len() > 0 && forall|k: int|
        0 <= k < spec_clauses(t).len() ==> spec_trim(#[trigger] spec_clauses(t)[k]).len() > 0
            && spec_clause_ok(spec_trim(spec_clauses(t)[k]))
}

/// The message given for an empty range.
pub open spec fn spec_range_empty_msg() -> Seq<char> {
    "VPM dependency range must not be empty"@
}

/// The message given when an OR-combination holds an empty clause.
pub open spec fn spec_range_or_msg(range: Seq<char>) -> Seq<char> {
    "VPM dependency range '"@ + range + "' contains an empty OR clause"@
}

/// The message given for an unacceptable range.
pub open spec fn spec_range_invalid_msg(range: Seq<char>) -> Seq<char> {
    "VPM dependency range '"@ + range + "' is invalid"@
}

/// Validates a VPM dependency range.  Exact versions, caret and tilde
/// requirements, x-ranges, space- and comma-separated AND clauses,
/// `||`-separated OR combinations and hyphen ranges are accepted; an empty
/// range is not.
pub fn validate_vpm_dependency_range(range: &str) -> (r: Result<(), Error>)
    ensures
        r is Ok <==> spec_vpm_range_ok(range@),
        r matches Err(e) ==> e matches Error::ConfigValidation(m) && (if spec_trim(range@).len()
            == 0 {
            m@ == spec_range_empty_msg()
        } else {
            m@ == spec_range_or_msg(range@) || m@ == spec_range_invalid_msg(range@)
        }),
        r matches Err(e) ==> e matches Error::ConfigValidation(m) && (m@ == spec_range_or_msg(
            range@,
        ) ==> exists|k: int|
            0 <= k < spec_clauses(spec_trim(range@)).len() && spec_trim(
                #[trigger] spec_clauses(spec_trim(range@))[k],
            ).len() == 0),
{
    let cs = str_to_chars(range);
    let t = trim_vec(&cs);
    if t.len() == 0 {
        proof {
            reveal_strlit("VPM dependency range must not be empty");
            reveal_strlit("VPM dependency range '");
            reveal_strlit("' contains an empty OR clause");
            assert(spec_range_empty_msg().len() == 38);
            assert(spec_range_or_msg(range@).len() >= 51);
        }
        return Err(Error::ConfigValidation("VPM dependency range must not be empty".to_owned()));
    }
    let cls = clauses(&t);
    let mut k: usize = 0;
    while k < cls.len()
        invariant
            k <= cls@.len(),
            cls.deep_view() == spec_clauses(spec_trim(range@)),
            spec_trim(range@).len() > 0,
            cs@ == range@,
            forall|j: int|
                0 <= j < k ==> spec_trim(#[trigger] cls.deep_view()[j]).len() > 0
                    && spec_clause_ok(spec_trim(cls.deep_view()[j])),
        decreases cls@.len() - k,
    {
        let ct = trim_vec(&cls[k]);
        proof {
            assert(cls.deep_view()[k as int] == cls@[k as int]@);
        }
        if ct.len() == 0 {
            let m = "VPM dependency range '".to_owned();
            let m = m.concat(range);
            let m = m.concat("' contains an empty OR clause");
            proof {
                assert(spec_trim(spec_clauses(spec_trim(range@))[k as int]).len() == 0);
            }
            return Err(Error::ConfigValidation(m));
        }
        if !clause_ok(&ct) {
            let m = "VPM dependency range '".to_owned();
            let m = m.concat(range);
            let m = m.concat("' is invalid");
            proof {
                reveal_strlit("VPM dependency range '");
                reveal_strlit("' contains an empty OR clause");
                reveal_strlit("' is invalid");
                assert(spec_range_or_msg(range@).len() == range@.len() + 51);
                assert(spec_range_invalid_msg(range@).len() == range@.len() + 34);
            }
            return Err(Error::ConfigValidation(m));
        }
        k = k + 1;
    }
    Ok(())
}

} // verus!
