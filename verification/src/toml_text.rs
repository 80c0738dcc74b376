//! The manifest's canonical TOML text: a serializer and a parser for the
//! subset of TOML the manifest uses, with the round-trip law between them.
//! The canonical text is the pre-image of the manifest content hash, so both
//! the hash gate and saving go through `manifest_to_toml`.

use vstd::prelude::*;

use crate::chars::{chars_to_string, str_to_chars};
use crate::error::Error;
use crate::manifest::{Manifest, ManifestView, Package, PackageView, Vpm, VpmView};

verus! {

/// How one character is written inside a TOML basic string: quotes,
/// backslashes, newlines, tabs and carriage returns are escaped, everything
/// else stands as itself.
pub open spec fn spec_escape_char(c: char) -> Seq<char> {
    if c == '"' {
        seq!['\\', '"']
    } else if c == '\\' {
        seq!['\\', '\\']
    } else if c == '\n' {
        seq!['\\', 'n']
    } else if c == '\t' {
        seq!['\\', 't']
    } else if c == '\r' {
        seq!['\\', 'r']
    } else {
        seq![c]
    }
}

/// A string's characters written inside a TOML basic string.
pub open spec fn spec_escape(s: Seq<char>) -> Seq<char>
    decreases s.len(),
{
    if s.len() == 0 {
        Seq::empty()
    } else {
        spec_escape_char(s[0]) + spec_escape(s.drop_first())
    }
}

/// One canonical `key = "value"` line, newline included.
pub open spec fn spec_kv_line(key: Seq<char>, value: Seq<char>) -> Seq<char> {
    key + " = \""@ + spec_escape(value) + "\"\n"@
}

/// The canonical `[vpm]` block.
pub open spec fn spec_vpm_toml(v: VpmView) -> Seq<char> {
    "[vpm]\n"@ + spec_kv_line("id"@, v.id) + spec_kv_line("name"@, v.name) + spec_kv_line(
        "author"@,
        v.author,
    ) + spec_kv_line("url"@, v.url)
}

/// The canonical block for one declared package.
pub open spec fn spec_package_block(p: PackageView) -> Seq<char> {
    "\n[[packages]]\n"@ + spec_kv_line("id"@, p.id) + spec_kv_line(
        "repository"@,
        p.owner + seq!['/'] + p.repo,
    )
}

/// The canonical blocks for the declared packages, in order.
pub open spec fn spec_packages_toml(ps: Seq<PackageView>) -> Seq<char>
    decreases ps.len(),
{
    if ps.len() == 0 {
        Seq::empty()
    } else {
        spec_packages_toml(ps.drop_last()) + spec_package_block(ps.last())
    }
}

/// The canonical TOML serialization of a manifest.  This single form is used
/// both when the manifest is saved and as the pre-image of its content hash.
pub open spec fn spec_manifest_toml(m: ManifestView) -> Seq<char> {
    spec_vpm_toml(m.vpm) + spec_packages_toml(m.packages)
}

/// Appends the characters of `s` to `out`.
fn push_str_chars(out: &mut Vec<char>, s: &str)
    ensures
        final(out)@ == old(out)@ + s@,
{
    let cs = str_to_chars(s);
    let ghost base = out@;
    let mut i: usize = 0;
    while i < cs.len()
        invariant
            i <= cs@.len(),
            cs@ == s@,
            out@ == base + s@.subrange(0, i as int),
        decreases cs@.len() - i,
    {
        out.push(cs[i]);
        i = i + 1;
        proof {
            assert(out@ =~= base + s@.subrange(0, i as int));
        }
    }
    proof {
        assert(out@ =~= base + s@);
    }
}

/// Appends the escaped form of `s` to `out`.
fn escape_into(out: &mut Vec<char>, s: &str)
    ensures
        final(out)@ == old(out)@ + spec_escape(s@),
{
    let cs = str_to_chars(s);
    let ghost base = old(out)@;
    proof {
        assert(s@.skip(0) =~= s@);
    }
    let mut i: usize = 0;
    while i < cs.len()
        invariant
            i <= cs@.len(),
            cs@ == s@,
            base + spec_escape(s@) == out@ + spec_escape(s@.skip(i as int)),
        decreases cs@.len() - i,
    {
        let c = cs[i];
        proof {
            assert(s@.skip(i as int).drop_first() =~= s@.skip(i as int + 1));
            assert(s@.skip(i as int)[0] == s@[i as int]);
        }
        if c == '"' {
            out.push('\\');
            out.push('"');
        } else if c == '\\' {
            out.push('\\');
            out.push('\\');
        } else if c == '\n' {
            out.push('\\');
            out.push('n');
        } else if c == '\t' {
            out.push('\\');
            out.push('t');
        } else if c == '\r' {
            out.push('\\');
            out.push('r');
        } else {
            out.push(c);
        }
        i = i + 1;
        proof {
            assert(base + spec_escape(s@) =~= out@ + spec_escape(s@.skip(i as int)));
        }
    }
    proof {
        assert(s@.skip(cs@.len() as int) =~= Seq::<char>::empty());
        assert(base + spec_escape(s@) =~= out@);
    }
}

/// Appends one canonical `key = "value"` line to `out`.
fn kv_line_into(out: &mut Vec<char>, key: &str, value: &str)
    ensures
        final(out)@ == old(out)@ + spec_kv_line(key@, value@),
{
    push_str_chars(out, key);
    push_str_chars(out, " = \"");
    escape_into(out, value);
    push_str_chars(out, "\"\n");
    proof {
        assert(out@ =~= old(out)@ + spec_kv_line(key@, value@));
    }
}

/// Serializes a manifest into its canonical TOML form.
pub fn manifest_to_toml(m: &Manifest) -> (r: String)
    ensures
        r@ == spec_manifest_toml(m@),
{
    let mut out: Vec<char> = Vec::new();
    push_str_chars(&mut out, "[vpm]\n");
    kv_line_into(&mut out, "id", m.vpm.id.as_str());
    kv_line_into(&mut out, "name", m.vpm.name.as_str());
    kv_line_into(&mut out, "author", m.vpm.author.as_str());
    kv_line_into(&mut out, "url", m.vpm.url.as_str());
    proof {
        assert(out@ =~= spec_vpm_toml(m@.vpm));
    }
    let ghost vpm_part = out@;
    let mut k: usize = 0;
    while k < m.packages.len()
        invariant
            k <= m.packages@.len(),
            vpm_part == spec_vpm_toml(m@.vpm),
            m@.packages.len() == m.packages@.len(),
            forall|j: int| 0 <= j < m.packages@.len() ==> m@.packages[j] == #[trigger] m.packages@[j]@,
            out@ == vpm_part + spec_packages_toml(m@.packages.subrange(0, k as int)),
        decreases m.packages@.len() - k,
    {
        let ghost before = out@;
        push_str_chars(&mut out, "\n[[packages]]\n");
        kv_line_into(&mut out, "id", m.packages[k].id.as_str());
        let repo_str = m.packages[k].repository.to_display_string();
        kv_line_into(&mut out, "repository", repo_str.as_str());
        k = k + 1;
        proof {
            assert(m@.packages.subrange(0, k as int).drop_last() =~= m@.packages.subrange(
                0,
                k as int - 1,
            ));
            assert(m@.packages.subrange(0, k as int).last() == m@.packages[k - 1]);
            assert(out@ =~= before + spec_package_block(m@.packages[k - 1]));
            assert(out@ =~= vpm_part + spec_packages_toml(m@.packages.subrange(0, k as int)));
        }
    }
    proof {
        assert(m@.packages.subrange(0, m.packages@.len() as int) =~= m@.packages);
        assert(out@ =~= spec_manifest_toml(m@));
    }
    chars_to_string(out.as_slice())
}

} // verus!

verus! {

/// A line without a trailing carriage return.
pub open spec fn spec_strip_cr(s: Seq<char>) -> Seq<char> {
    if s.len() > 0 && s.last() == '\r' {
        s.drop_last()
    } else {
        s
    }
}

/// The lines of a document, split at line feeds, each without its trailing
/// carriage return.  A final newline terminates the last line rather than
/// opening an empty one.
pub open spec fn spec_split_lines(s: Seq<char>) -> Seq<Seq<char>>
    decreases s.len(),
{
    if s.len() == 0 {
        Seq::empty()
    } else {
        let i = crate::validation::spec_find_char(s, '\n');
        if i < 0 || i >= s.len() {
            seq![spec_strip_cr(s)]
        } else {
            seq![spec_strip_cr(s.subrange(0, i))] + spec_split_lines(
                s.subrange(i + 1, s.len() as int),
            )
        }
    }
}

fn strip_cr(v: &Vec<char>) -> (r: Vec<char>)
    ensures
        r@ == spec_strip_cr(v@),
{
    if v.len() > 0 && v[v.len() - 1] == '\r' {
        let r = crate::validation::subvec(v, 0, v.len() - 1);
        proof {
            assert(r@ =~= v@.drop_last());
        }
        r
    } else {
        crate::validation::subvec(v, 0, v.len())
    }
}

fn split_lines(v: &Vec<char>) -> (r: Vec<Vec<char>>)
    ensures
        r.deep_view() == spec_split_lines(v@),
    decreases v@.len(),
{
    if v.len() == 0 {
        let r: Vec<Vec<char>> = Vec::new();
        proof {
            assert(r.deep_view() =~~= spec_split_lines(v@));
        }
        return r;
    }
    let n = v.len();
    match crate::validation::find_char(v, '\n') {
        None => {
            let mut r: Vec<Vec<char>> = Vec::new();
            r.push(strip_cr(v));
            proof {
                assert(r.deep_view() =~~= spec_split_lines(v@));
            }
            r
        },
        Some(i) => {
            let head = crate::validation::subvec(v, 0, i);
            let tail = crate::validation::subvec(v, i + 1, n);
            let first = strip_cr(&head);
            let rest = split_lines(&tail);
            let mut r: Vec<Vec<char>> = Vec::new();
            r.push(first);
            let ghost first_view = spec_strip_cr(v@.subrange(0, i as int));
            proof {
                assert(r.deep_view() =~~= seq![first_view] + rest.deep_view().subrange(0, 0));
            }
            let mut j: usize = 0;
            while j < rest.len()
                invariant
                    j <= rest@.len(),
                    r.deep_view() =~~= seq![first_view] + rest.deep_view().subrange(0, j as int),
                    rest.deep_view() == spec_split_lines(v@.subrange(i + 1, v@.len() as int)),
                    crate::validation::spec_find_char(v@, '\n') == i,
                    0 <= i < v@.len(),
                    first_view == spec_strip_cr(v@.subrange(0, i as int)),
                decreases rest@.len() - j,
            {
                let ghost prev = r.deep_view();
                let piece = crate::validation::subvec(&rest[j], 0, rest[j].len());
                proof {
                    assert(rest@[j as int]@.subrange(0, rest@[j as int]@.len() as int)
                        =~= rest@[j as int]@);
                    assert(rest.deep_view()[j as int] == rest@[j as int]@);
                }
                r.push(piece);
                j = j + 1;
                proof {
                    assert(r.deep_view() =~~= prev + seq![rest.deep_view()[j - 1]]);
                    assert(r.deep_view() =~~= seq![first_view] + rest.deep_view().subrange(
                        0,
                        j as int,
                    ));
                }
            }
            proof {
                assert(rest.deep_view().subrange(0, rest.deep_view().len() as int)
                    =~= rest.deep_view());
                assert(r.deep_view() =~~= spec_split_lines(v@));
            }
            r
        },
    }
}

/// What one line of manifest TOML says.
pub enum LineClass {
    /// Whitespace or a comment.
    Blank,
    /// The `[vpm]` table header.
    VpmHeader,
    /// A `[[packages]]` table header.
    PackagesHeader,
    /// A `key = "value"` assignment.
    KeyString(Seq<char>, Seq<char>),
    /// A `key = []` assignment.
    EmptyArray(Seq<char>),
    /// Anything else: not in the supported subset.
    Bad,
}

/// A line without its leading spaces and tabs.
pub open spec fn spec_skip_ws(s: Seq<char>) -> Seq<char>
    decreases s.len(),
{
    if s.len() > 0 && (s[0] == ' ' || s[0] == '\t') {
        spec_skip_ws(s.drop_first())
    } else {
        s
    }
}

/// A character allowed in a bare TOML key.
pub open spec fn spec_is_key_char(c: char) -> bool {
    crate::chars::spec_is_alnum(c) || c == '-' || c == '_'
}

/// Where the bare key at the start of `s` ends.
pub open spec fn spec_key_end(s: Seq<char>) -> int
    decreases s.len(),
{
    if s.len() > 0 && spec_is_key_char(s[0]) {
        1 + spec_key_end(s.drop_first())
    } else {
        0
    }
}

/// The key end lies inside the string.
pub proof fn lemma_key_end_bounds(s: Seq<char>)
    ensures
        0 <= spec_key_end(s) <= s.len(),
    decreases s.len(),
{
    if s.len() > 0 && spec_is_key_char(s[0]) {
        lemma_key_end_bounds(s.drop_first());
    }
}

/// Whether what follows a value is only whitespace or a comment.
pub open spec fn spec_trailing_ok(s: Seq<char>) -> bool {
    let t = spec_skip_ws(s);
    t.len() == 0 || t[0] == '#'
}

/// What a basic-string escape denotes, if it is one this subset accepts.
pub open spec fn spec_unescape_char(c: char) -> Option<char> {
    if c == '"' {
        Some('"')
    } else if c == '\\' {
        Some('\\')
    } else if c == 'n' {
        Some('\n')
    } else if c == 't' {
        Some('\t')
    } else if c == 'r' {
        Some('\r')
    } else {
        None
    }
}

/// Reads a basic string from just after its opening quote: the decoded value
/// and what follows the closing quote, or nothing when the string is
/// unterminated or holds an unsupported escape.
pub open spec fn spec_scan_string(s: Seq<char>) -> Option<(Seq<char>, Seq<char>)>
    decreases s.len(),
{
    if s.len() == 0 {
        None
    } else if s[0] == '"' {
        Some((Seq::empty(), s.drop_first()))
    } else if s[0] == '\\' {
        if s.len() < 2 {
            None
        } else {
            match spec_unescape_char(s[1]) {
                None => None,
                Some(c) => match spec_scan_string(s.subrange(2, s.len() as int)) {
                    None => None,
                    Some((v, rest)) => Some((seq![c] + v, rest)),
                },
            }
        }
    } else {
        match spec_scan_string(s.drop_first()) {
            None => None,
            Some((v, rest)) => Some((seq![s[0]] + v, rest)),
        }
    }
}

/// Whether `s` starts with `lit` and carries only whitespace or a comment
/// after it.
pub open spec fn spec_header_is(s: Seq<char>, lit: Seq<char>) -> bool {
    s.len() >= lit.len() && s.subrange(0, lit.len() as int) == lit && spec_trailing_ok(
        s.subrange(lit.len() as int, s.len() as int),
    )
}

/// Reads one line of the manifest subset of TOML.
pub open spec fn spec_classify(line: Seq<char>) -> LineClass {
    let t = spec_skip_ws(line);
    if t.len() == 0 || t[0] == '#' {
        LineClass::Blank
    } else if t[0] == '[' {
        if spec_header_is(t, "[[packages]]"@) {
            LineClass::PackagesHeader
        } else if spec_header_is(t, "[vpm]"@) {
            LineClass::VpmHeader
        } else {
            LineClass::Bad
        }
    } else {
        let ke = spec_key_end(t);
        if ke <= 0 || ke > t.len() {
            LineClass::Bad
        } else {
            let key = t.subrange(0, ke);
            let u = spec_skip_ws(t.subrange(ke, t.len() as int));
            if u.len() == 0 || u[0] != '=' {
                LineClass::Bad
            } else {
                let w = spec_skip_ws(u.drop_first());
                if w.len() > 0 && w[0] == '"' {
                    match spec_scan_string(w.drop_first()) {
                        None => LineClass::Bad,
                        Some((v, rest)) => if spec_trailing_ok(rest) {
                            LineClass::KeyString(key, v)
                        } else {
                            LineClass::Bad
                        },
                    }
                } else if w.len() > 0 && w[0] == '[' {
                    let x = spec_skip_ws(w.drop_first());
                    if x.len() > 0 && x[0] == ']' && spec_trailing_ok(x.drop_first()) {
                        LineClass::EmptyArray(key)
                    } else {
                        LineClass::Bad
                    }
                } else {
                    LineClass::Bad
                }
            }
        }
    }
}

} // verus!

verus! {

fn skip_ws_vec(v: &Vec<char>) -> (r: Vec<char>)
    ensures
        r@ == spec_skip_ws(v@),
    decreases v@.len(),
{
    if v.len() > 0 && (v[0] == ' ' || v[0] == '\t') {
        let rest = crate::validation::subvec(v, 1, v.len());
        proof {
            assert(rest@ =~= v@.drop_first());
        }
        skip_ws_vec(&rest)
    } else {
        crate::validation::subvec(v, 0, v.len())
    }
}

fn key_end(v: &Vec<char>) -> (r: usize)
    ensures
        r == spec_key_end(v@),
        r <= v@.len(),
    decreases v@.len(),
{
    proof {
        lemma_key_end_bounds(v@);
    }
    if v.len() > 0 && (crate::chars::is_alnum(v[0]) || v[0] == '-' || v[0] == '_') {
        let rest = crate::validation::subvec(v, 1, v.len());
        proof {
            assert(rest@ =~= v@.drop_first());
        }
        1 + key_end(&rest)
    } else {
        0
    }
}

fn starts_with_lit(v: &Vec<char>, lit: &str) -> (r: bool)
    ensures
        r == (v@.len() >= lit@.len() && v@.subrange(0, lit@.len() as int) == lit@),
{
    let m = lit.unicode_len();
    if v.len() < m {
        return false;
    }
    let mut i: usize = 0;
    while i < m
        invariant
            i <= m <= v@.len(),
            m == lit@.len(),
            forall|j: int| 0 <= j < i ==> v@[j] == lit@[j],
        decreases m - i,
    {
        if v[i] != lit.get_char(i) {
            proof {
                assert(v@.subrange(0, lit@.len() as int)[i as int] != lit@[i as int]);
            }
            return false;
        }
        i = i + 1;
    }
    proof {
        assert(v@.subrange(0, lit@.len() as int) =~= lit@);
    }
    true
}

fn trailing_ok(v: &Vec<char>) -> (r: bool)
    ensures
        r == spec_trailing_ok(v@),
{
    let t = skip_ws_vec(v);
    t.len() == 0 || t[0] == '#'
}

fn header_is(v: &Vec<char>, lit: &str) -> (r: bool)
    ensures
        r == spec_header_is(v@, lit@),
{
    if !starts_with_lit(v, lit) {
        return false;
    }
    let m = lit.unicode_len();
    let rest = crate::validation::subvec(v, m, v.len());
    trailing_ok(&rest)
}

fn unescape_char(c: char) -> (r: Option<char>)
    ensures
        r == spec_unescape_char(c),
{
    if c == '"' {
        Some('"')
    } else if c == '\\' {
        Some('\\')
    } else if c == 'n' {
        Some('\n')
    } else if c == 't' {
        Some('\t')
    } else if c == 'r' {
        Some('\r')
    } else {
        None
    }
}

fn scan_string(v: &Vec<char>) -> (r: Option<(Vec<char>, Vec<char>)>)
    ensures
        r is Some <==> spec_scan_string(v@) is Some,
        r matches Some((val, rest)) ==> spec_scan_string(v@) == Some((val@, rest@)),
    decreases v@.len(),
{
    if v.len() == 0 {
        return None;
    }
    if v[0] == '"' {
        let rest = crate::validation::subvec(v, 1, v.len());
        proof {
            assert(rest@ =~= v@.drop_first());
        }
        return Some((Vec::new(), rest));
    }
    if v[0] == '\\' {
        if v.len() < 2 {
            return None;
        }
        match unescape_char(v[1]) {
            None => None,
            Some(c) => {
                let tail = crate::validation::subvec(v, 2, v.len());
                match scan_string(&tail) {
                    None => None,
                    Some((val, rest)) => {
                        let mut head: Vec<char> = Vec::new();
                        head.push(c);
                        proof {
                            assert(head@ =~= seq![c]);
                        }
                        let joined = crate::validation::concat_vecs(head, &val);
                        Some((joined, rest))
                    },
                }
            },
        }
    } else {
        let tail = crate::validation::subvec(v, 1, v.len());
        proof {
            assert(tail@ =~= v@.drop_first());
        }
        match scan_string(&tail) {
            None => None,
            Some((val, rest)) => {
                let mut head: Vec<char> = Vec::new();
                head.push(v[0]);
                proof {
                    assert(head@ =~= seq![v@[0]]);
                }
                let joined = crate::validation::concat_vecs(head, &val);
                Some((joined, rest))
            },
        }
    }
}

/// What one line says, carried with its decoded strings.
pub enum LineKind {
    Blank,
    VpmHeader,
    PackagesHeader,
    KeyString(String, String),
    EmptyArray(String),
    Bad,
}

impl View for LineKind {
    type V = LineClass;

    open spec fn view(&self) -> LineClass {
        match self {
            LineKind::Blank => LineClass::Blank,
            LineKind::VpmHeader => LineClass::VpmHeader,
            LineKind::PackagesHeader => LineClass::PackagesHeader,
            LineKind::KeyString(k, v) => LineClass::KeyString(k@, v@),
            LineKind::EmptyArray(k) => LineClass::EmptyArray(k@),
            LineKind::Bad => LineClass::Bad,
        }
    }
}

fn classify_line(line: &Vec<char>) -> (r: LineKind)
    ensures
        r@ == spec_classify(line@),
{
    let t = skip_ws_vec(line);
    if t.len() == 0 || t[0] == '#' {
        return LineKind::Blank;
    }
    if t[0] == '[' {
        if header_is(&t, "[[packages]]") {
            return LineKind::PackagesHeader;
        }
        if header_is(&t, "[vpm]") {
            return LineKind::VpmHeader;
        }
        return LineKind::Bad;
    }
    let ke = key_end(&t);
    if ke == 0 {
        return LineKind::Bad;
    }
    let key = crate::validation::subvec(&t, 0, ke);
    let after_key = crate::validation::subvec(&t, ke, t.len());
    let u = skip_ws_vec(&after_key);
    if u.len() == 0 || u[0] != '=' {
        return LineKind::Bad;
    }
    let after_eq = crate::validation::subvec(&u, 1, u.len());
    proof {
        assert(after_eq@ =~= u@.drop_first());
    }
    let w = skip_ws_vec(&after_eq);
    if w.len() > 0 && w[0] == '"' {
        let body = crate::validation::subvec(&w, 1, w.len());
        proof {
            assert(body@ =~= w@.drop_first());
        }
        match scan_string(&body) {
            None => LineKind::Bad,
            Some((val, rest)) => {
                if trailing_ok(&rest) {
                    LineKind::KeyString(
                        chars_to_string(key.as_slice()),
                        chars_to_string(val.as_slice()),
                    )
                } else {
                    LineKind::Bad
                }
            },
        }
    } else if w.len() > 0 && w[0] == '[' {
        let x_pre = crate::validation::subvec(&w, 1, w.len());
        proof {
            assert(x_pre@ =~= w@.drop_first());
        }
        let x = skip_ws_vec(&x_pre);
        if x.len() > 0 && x[0] == ']' {
            let x_rest = crate::validation::subvec(&x, 1, x.len());
            proof {
                assert(x_rest@ =~= x@.drop_first());
            }
            if trailing_ok(&x_rest) {
                LineKind::EmptyArray(chars_to_string(key.as_slice()))
            } else {
                LineKind::Bad
            }
        } else {
            LineKind::Bad
        }
    } else {
        LineKind::Bad
    }
}

} // verus!

verus! {

/// Which table the parser is inside.
pub enum Sect {
    Top,
    Vpm,
    Pkg,
}

/// The parser's accumulated state.
#[verifier::ext_equal]
pub struct PState {
    pub sect: Sect,
    pub vpm_seen: bool,
    pub id: Option<Seq<char>>,
    pub name: Option<Seq<char>>,
    pub author: Option<Seq<char>>,
    pub url: Option<Seq<char>>,
    pub cur_id: Option<Seq<char>>,
    pub cur_owner: Option<Seq<char>>,
    pub cur_repo: Option<Seq<char>>,
    pub pkgs: Seq<PackageView>,
    pub top_array_seen: bool,
}

/// The state before any line has been read.
pub open spec fn spec_init_state() -> PState {
    PState {
        sect: Sect::Top,
        vpm_seen: false,
        id: None,
        name: None,
        author: None,
        url: None,
        cur_id: None,
        cur_owner: None,
        cur_repo: None,
        pkgs: Seq::empty(),
        top_array_seen: false,
    }
}

/// Finishes the package table being read, if one is open: both of its fields
/// must have been assigned.
pub open spec fn spec_close_pkg(st: PState) -> Option<PState> {
    match st.sect {
        Sect::Pkg => match (st.cur_id, st.cur_owner, st.cur_repo) {
            (Some(id), Some(owner), Some(repo)) => Some(
                PState {
                    cur_id: None,
                    cur_owner: None,
                    cur_repo: None,
                    pkgs: st.pkgs.push(PackageView { id, owner, repo }),
                    ..st
                },
            ),
            _ => None,
        },
        _ => Some(st),
    }
}

/// One step of the parser: how a classified line changes the state, or fails.
/// Unknown keys are ignored, as the manifest schema tolerates them; known
/// keys must not repeat and must carry the right shape of value.
pub open spec fn spec_step(st: PState, lc: LineClass) -> Option<PState> {
    match lc {
        LineClass::Blank => Some(st),
        LineClass::VpmHeader => if st.vpm_seen {
            None
        } else {
            match spec_close_pkg(st) {
                None => None,
                Some(s2) => Some(PState { sect: Sect::Vpm, vpm_seen: true, ..s2 }),
            }
        },
        LineClass::PackagesHeader => if st.top_array_seen {
            None
        } else {
            match spec_close_pkg(st) {
                None => None,
                Some(s2) => Some(PState { sect: Sect::Pkg, ..s2 }),
            }
        },
        LineClass::EmptyArray(key) => match st.sect {
            Sect::Top => if key == "packages"@ {
                if st.top_array_seen || st.pkgs.len() > 0 {
                    None
                } else {
                    Some(PState { top_array_seen: true, ..st })
                }
            } else {
                Some(st)
            },
            Sect::Vpm => if key == "id"@ || key == "name"@ || key == "author"@ || key == "url"@ {
                None
            } else {
                Some(st)
            },
            Sect::Pkg => if key == "id"@ || key == "repository"@ {
                None
            } else {
                Some(st)
            },
        },
        LineClass::KeyString(key, v) => match st.sect {
            Sect::Top => if key == "packages"@ || key == "vpm"@ {
                None
            } else {
                Some(st)
            },
            Sect::Vpm => if key == "id"@ {
                if st.id is Some {
                    None
                } else {
                    Some(PState { id: Some(v), ..st })
                }
            } else if key == "name"@ {
                if st.name is Some {
                    None
                } else {
                    Some(PState { name: Some(v), ..st })
                }
            } else if key == "author"@ {
                if st.author is Some {
                    None
                } else {
                    Some(PState { author: Some(v), ..st })
                }
            } else if key == "url"@ {
                if st.url is Some {
                    None
                } else {
                    Some(PState { url: Some(v), ..st })
                }
            } else {
                Some(st)
            },
            Sect::Pkg => if key == "id"@ {
                if st.cur_id is Some {
                    None
                } else {
                    Some(PState { cur_id: Some(v), ..st })
                }
            } else if key == "repository"@ {
                if st.cur_owner is Some || !crate::domain::spec_repo_parses(v) {
                    None
                } else {
                    let i = crate::validation::spec_find_char(v, '/');
                    Some(
                        PState {
                            cur_owner: Some(v.subrange(0, i)),
                            cur_repo: Some(v.subrange(i + 1, v.len() as int)),
                            ..st
                        },
                    )
                }
            } else {
                Some(st)
            },
        },
        LineClass::Bad => None,
    }
}

/// Runs the parser over a sequence of lines.
pub open spec fn spec_run(lines: Seq<Seq<char>>, st: PState) -> Option<PState>
    decreases lines.len(),
{
    if lines.len() == 0 {
        Some(st)
    } else {
        match spec_step(st, spec_classify(lines[0])) {
            None => None,
            Some(s2) => spec_run(lines.drop_first(), s2),
        }
    }
}

/// The parsed manifest, when the final state is complete: the `[vpm]` table
/// with all four fields, and every package table closed.
pub open spec fn spec_finish(st: PState) -> Option<ManifestView> {
    match spec_close_pkg(st) {
        None => None,
        Some(s2) => if s2.vpm_seen {
            match (s2.id, s2.name, s2.author, s2.url) {
                (Some(id), Some(name), Some(author), Some(url)) => Some(
                    ManifestView { vpm: VpmView { id, name, author, url }, packages: s2.pkgs },
                ),
                _ => None,
            }
        } else {
            None
        },
    }
}

/// What parsing a whole document yields, if it is accepted.
pub open spec fn spec_parse_manifest(s: Seq<char>) -> Option<ManifestView> {
    match spec_run(spec_split_lines(s), spec_init_state()) {
        None => None,
        Some(st) => spec_finish(st),
    }
}

/// The spec-level contents of the parser's executable locals.
pub open spec fn spec_locals(
    sect: Sect,
    vpm_seen: bool,
    id: Option<String>,
    name: Option<String>,
    author: Option<String>,
    url: Option<String>,
    cur_id: Option<String>,
    cur_owner: Option<String>,
    cur_repo: Option<String>,
    pkgs: Seq<Package>,
    top_array_seen: bool,
) -> PState {
    PState {
        sect,
        vpm_seen,
        id: id.deep_view(),
        name: name.deep_view(),
        author: author.deep_view(),
        url: url.deep_view(),
        cur_id: cur_id.deep_view(),
        cur_owner: cur_owner.deep_view(),
        cur_repo: cur_repo.deep_view(),
        pkgs: Seq::new(pkgs.len(), |i: int| pkgs[i]@),
        top_array_seen,
    }
}

/// Parses a document in the manifest subset of TOML.  No validation is
/// applied here; `Manifest::validate` is a separate step.
pub fn parse_manifest_toml(content: &str) -> (r: Result<Manifest, Error>)
    ensures
        r matches Ok(m) ==> spec_parse_manifest(content@) == Some(m@),
        r is Err <==> spec_parse_manifest(content@) is None,
        r matches Err(e) ==> e matches Error::TomlParse { .. },
{
    let cs = str_to_chars(content);
    let lines = split_lines(&cs);
    let ghost all_lines = spec_split_lines(content@);

    let mut sect = Sect::Top;
    let mut vpm_seen = false;
    let mut id: Option<String> = None;
    let mut name: Option<String> = None;
    let mut author: Option<String> = None;
    let mut url: Option<String> = None;
    let mut cur_id: Option<String> = None;
    let mut cur_owner: Option<String> = None;
    let mut cur_repo: Option<String> = None;
    let mut pkgs: Vec<Package> = Vec::new();
    let mut top_array_seen = false;

    let bad = Error::TomlParse {
        path: String::new(),
        message: "the document is not in the manifest subset of TOML".to_owned(),
    };

    proof {
        assert(all_lines.skip(0) =~= all_lines);
        assert(spec_locals(
            sect,
            vpm_seen,
            id,
            name,
            author,
            url,
            cur_id,
            cur_owner,
            cur_repo,
            pkgs@,
            top_array_seen,
        ) =~~= spec_init_state());
    }

    let mut li: usize = 0;
    while li < lines.len()
        invariant
            li <= lines@.len(),
            lines.deep_view() == all_lines,
            all_lines == spec_split_lines(content@),
            spec_run(all_lines, spec_init_state()) == spec_run(
                all_lines.skip(li as int),
                spec_locals(
                    sect,
                    vpm_seen,
                    id,
                    name,
                    author,
                    url,
                    cur_id,
                    cur_owner,
                    cur_repo,
                    pkgs@,
                    top_array_seen,
                ),
            ),
            bad matches Error::TomlParse { .. },
        decreases lines@.len() - li,
    {
        let ghost st_before = spec_locals(
            sect,
            vpm_seen,
            id,
            name,
            author,
            url,
            cur_id,
            cur_owner,
            cur_repo,
            pkgs@,
            top_array_seen,
        );
        proof {
            assert(all_lines.skip(li as int).len() > 0);
            assert(all_lines.skip(li as int)[0] == all_lines[li as int]);
            assert(all_lines.skip(li as int).drop_first() =~= all_lines.skip(li as int + 1));
            assert(lines.deep_view()[li as int] == lines@[li as int]@);
        }
        let lk = classify_line(&lines[li]);
        match lk {
            LineKind::Blank => {},
            LineKind::VpmHeader => {
                if vpm_seen {
                    return Err(bad);
                }
                match sect {
                    Sect::Pkg => {
                        match (&cur_id, &cur_owner, &cur_repo) {
                            (Some(pid), Some(po), Some(pr)) => {
                                pkgs.push(
                                    Package {
                                        id: pid.clone(),
                                        repository: crate::domain::Repository {
                                            owner: po.clone(),
                                            repo: pr.clone(),
                                        },
                                    },
                                );
                                cur_id = None;
                                cur_owner = None;
                                cur_repo = None;
                            },
                            _ => {
                                return Err(bad);
                            },
                        }
                    },
                    _ => {},
                }
                sect = Sect::Vpm;
                vpm_seen = true;
            },
            LineKind::PackagesHeader => {
                if top_array_seen {
                    return Err(bad);
                }
                match sect {
                    Sect::Pkg => {
                        match (&cur_id, &cur_owner, &cur_repo) {
                            (Some(pid), Some(po), Some(pr)) => {
                                pkgs.push(
                                    Package {
                                        id: pid.clone(),
                                        repository: crate::domain::Repository {
                                            owner: po.clone(),
                                            repo: pr.clone(),
                                        },
                                    },
                                );
                                cur_id = None;
                                cur_owner = None;
                                cur_repo = None;
                            },
                            _ => {
                                return Err(bad);
                            },
                        }
                    },
                    _ => {},
                }
                sect = Sect::Pkg;
            },
            LineKind::EmptyArray(key) => {
                match sect {
                    Sect::Top => {
                        if crate::domain::str_eq(key.as_str(), "packages") {
                            if top_array_seen || pkgs.len() > 0 {
                                return Err(bad);
                            }
                            top_array_seen = true;
                        }
                    },
                    Sect::Vpm => {
                        if crate::domain::str_eq(key.as_str(), "id") || crate::domain::str_eq(
                            key.as_str(),
                            "name",
                        ) || crate::domain::str_eq(key.as_str(), "author")
                            || crate::domain::str_eq(key.as_str(), "url") {
                            return Err(bad);
                        }
                    },
                    Sect::Pkg => {
                        if crate::domain::str_eq(key.as_str(), "id") || crate::domain::str_eq(
                            key.as_str(),
                            "repository",
                        ) {
                            return Err(bad);
                        }
                    },
                }
            },
            LineKind::KeyString(key, v) => {
                match sect {
                    Sect::Top => {
                        if crate::domain::str_eq(key.as_str(), "packages")
                            || crate::domain::str_eq(key.as_str(), "vpm") {
                            return Err(bad);
                        }
                    },
                    Sect::Vpm => {
                        if crate::domain::str_eq(key.as_str(), "id") {
                            if id.is_some() {
                                return Err(bad);
                            }
                            id = Some(v);
                        } else if crate::domain::str_eq(key.as_str(), "name") {
                            if name.is_some() {
                                return Err(bad);
                            }
                            name = Some(v);
                        } else if crate::domain::str_eq(key.as_str(), "author") {
                            if author.is_some() {
                                return Err(bad);
                            }
                            author = Some(v);
                        } else if crate::domain::str_eq(key.as_str(), "url") {
                            if url.is_some() {
                                return Err(bad);
                            }
                            url = Some(v);
                        }
                    },
                    Sect::Pkg => {
                        if crate::domain::str_eq(key.as_str(), "id") {
                            if cur_id.is_some() {
                                return Err(bad);
                            }
                            cur_id = Some(v);
                        } else if crate::domain::str_eq(key.as_str(), "repository") {
                            if cur_owner.is_some() {
                                return Err(bad);
                            }
                            match crate::domain::Repository::parse(v.as_str()) {
                                Err(_) => {
                                    return Err(bad);
                                },
                                Ok(repo) => {
                                    cur_owner = Some(repo.owner);
                                    cur_repo = Some(repo.repo);
                                },
                            }
                        }
                    },
                }
            },
            LineKind::Bad => {
                return Err(bad);
            },
        }
        li = li + 1;
        proof {
            let st_after = spec_locals(
                sect,
                vpm_seen,
                id,
                name,
                author,
                url,
                cur_id,
                cur_owner,
                cur_repo,
                pkgs@,
                top_array_seen,
            );
            let stepped = spec_step(st_before, spec_classify(all_lines[li - 1]));
            assert(stepped is Some);
            assert(st_after.pkgs =~= stepped.unwrap().pkgs);
            assert(st_after =~~= stepped.unwrap());
        }
    }
    let ghost st_exit = spec_locals(
        sect,
        vpm_seen,
        id,
        name,
        author,
        url,
        cur_id,
        cur_owner,
        cur_repo,
        pkgs@,
        top_array_seen,
    );
    proof {
        assert(all_lines.skip(all_lines.len() as int) =~= Seq::<Seq<char>>::empty());
        assert(spec_run(all_lines, spec_init_state()) == Some(st_exit));
    }
    // Close the final package table, if one is open.
    match sect {
        Sect::Pkg => {
            match (&cur_id, &cur_owner, &cur_repo) {
                (Some(pid), Some(po), Some(pr)) => {
                    pkgs.push(
                        Package {
                            id: pid.clone(),
                            repository: crate::domain::Repository {
                                owner: po.clone(),
                                repo: pr.clone(),
                            },
                        },
                    );
                },
                _ => {
                    return Err(bad);
                },
            }
        },
        _ => {},
    }
    if !vpm_seen {
        return Err(bad);
    }
    match (id, name, author, url) {
        (Some(vid), Some(vname), Some(vauthor), Some(vurl)) => {
            let m = Manifest {
                vpm: Vpm { id: vid, name: vname, author: vauthor, url: vurl },
                packages: pkgs,
            };
            proof {
                let closed = spec_close_pkg(st_exit);
                assert(closed is Some);
                assert(m@.packages =~= closed.unwrap().pkgs);
                assert(m@ =~~= spec_finish(st_exit).unwrap());
                assert(spec_finish(st_exit) == Some(m@));
            }
            Ok(m)
        },
        _ => Err(bad),
    }
}

/// Parses and validates a manifest document.
pub fn manifest_from_toml(content: &str) -> (r: Result<Manifest, Error>)
    ensures
        r matches Ok(m) ==> spec_parse_manifest(content@) == Some(m@)
            && crate::manifest::spec_manifest_valid(m),
        r is Ok <==> (spec_parse_manifest(content@) matches Some(mv)
            && crate::manifest::spec_manifest_valid_view(mv)),
{
    match parse_manifest_toml(content) {
        Err(e) => Err(e),
        Ok(m) => {
            proof {
                crate::manifest::lemma_manifest_valid_view(m);
            }
            match m.validate() {
                Err(e) => Err(e),
                Ok(()) => Ok(m),
            }
        },
    }
}

} // verus!

verus! {

/// Finding in a concatenation whose left part lacks the character reduces to
/// finding in the right part.
proof fn lemma_find_char_concat_none(a: Seq<char>, b: Seq<char>, c: char)
    requires
        forall|i: int| 0 <= i < a.len() ==> a[i] != c,
    ensures
        crate::validation::spec_find_char(a + b, c) == (if crate::validation::spec_find_char(b, c)
            < 0 {
            -1
        } else {
            a.len() + crate::validation::spec_find_char(b, c)
        }),
    decreases a.len(),
{
    crate::validation::lemma_find_char_bounds(b, c);
    if a.len() == 0 {
        assert(a + b =~= b);
    } else {
        assert((a + b)[0] == a[0]);
        assert((a + b).drop_first() =~= a.drop_first() + b);
        lemma_find_char_concat_none(a.drop_first(), b, c);
    }
}

/// A string without the character is searched in vain.
proof fn lemma_find_char_none(s: Seq<char>, c: char)
    requires
        forall|i: int| 0 <= i < s.len() ==> s[i] != c,
    ensures
        crate::validation::spec_find_char(s, c) == -1,
    decreases s.len(),
{
    if s.len() > 0 {
        lemma_find_char_none(s.drop_first(), c);
    }
}

/// Escaped text never holds a raw line feed or carriage return.
proof fn lemma_escape_no_newline(v: Seq<char>)
    ensures
        forall|i: int|
            0 <= i < spec_escape(v).len() ==> #[trigger] spec_escape(v)[i] != '\n' && spec_escape(
                v,
            )[i] != '\r',
    decreases v.len(),
{
    if v.len() > 0 {
        lemma_escape_no_newline(v.drop_first());
        assert forall|i: int|
            0 <= i < spec_escape(v).len() implies #[trigger] spec_escape(v)[i] != '\n'
            && spec_escape(v)[i] != '\r' by {
            if i < spec_escape_char(v[0]).len() {
                assert(spec_escape(v)[i] == spec_escape_char(v[0])[i]);
            } else {
                assert(spec_escape(v)[i] == spec_escape(v.drop_first())[i - spec_escape_char(
                    v[0],
                ).len()]);
            }
        }
    }
}

/// Reading a basic string back from escaped text recovers the original and
/// leaves exactly what follows the closing quote.
proof fn lemma_scan_escape(v: Seq<char>, rest: Seq<char>)
    ensures
        spec_scan_string(spec_escape(v) + seq!['"'] + rest) == Some((v, rest)),
    decreases v.len(),
{
    if v.len() == 0 {
        let s = spec_escape(v) + seq!['"'] + rest;
        assert(s =~= seq!['"'] + rest);
        assert(s[0] == '"');
        assert(s.drop_first() =~= rest);
    } else {
        let c = v[0];
        let s = spec_escape(v) + seq!['"'] + rest;
        let tail = spec_escape(v.drop_first()) + seq!['"'] + rest;
        lemma_scan_escape(v.drop_first(), rest);
        if c == '"' || c == '\\' || c == '\n' || c == '\t' || c == '\r' {
            assert(s =~= seq!['\\', spec_escape_char(c)[1]] + tail);
            assert(s[0] == '\\');
            assert(s[1] == spec_escape_char(c)[1]);
            assert(spec_unescape_char(s[1]) == Some(c));
            assert(s.subrange(2, s.len() as int) =~= tail);
            assert(seq![c] + v.drop_first() =~= v);
        } else {
            assert(s =~= seq![c] + tail);
            assert(s[0] == c && c != '"' && c != '\\');
            assert(s.drop_first() =~= tail);
            assert(seq![c] + v.drop_first() =~= v);
        }
    }
}

/// The bare key at the head of `key + rest` is exactly `key` when `rest`
/// opens with a non-key character.
proof fn lemma_key_end_concat(key: Seq<char>, rest: Seq<char>)
    requires
        forall|i: int| 0 <= i < key.len() ==> spec_is_key_char(#[trigger] key[i]),
        rest.len() > 0,
        !spec_is_key_char(rest[0]),
    ensures
        spec_key_end(key + rest) == key.len(),
    decreases key.len(),
{
    if key.len() == 0 {
        assert(key + rest =~= rest);
    } else {
        assert((key + rest)[0] == key[0]);
        assert((key + rest).drop_first() =~= key.drop_first() + rest);
        lemma_key_end_concat(key.drop_first(), rest);
    }
}

/// Splitting text that starts with a full line yields that line first.
proof fn lemma_split_lines_append(a: Seq<char>, b: Seq<char>)
    requires
        a.len() > 0,
        a.last() == '\n',
    ensures
        spec_split_lines(a + b) == spec_split_lines(a) + spec_split_lines(b),
    decreases a.len(),
{
    let i = crate::validation::spec_find_char(a, '\n');
    crate::validation::lemma_find_char_bounds(a, '\n');
    assert(i >= 0) by {
        if i < 0 {
            lemma_find_char_no_hit(a, '\n', a.len() - 1);
        }
    }
    assert(forall|j: int| 0 <= j < i ==> a[j] != '\n') by {
        lemma_find_char_first(a, '\n');
    }
    lemma_find_char_concat_prefix(a, b, '\n', i);
    assert(crate::validation::spec_find_char(a + b, '\n') == i);
    assert((a + b).subrange(0, i) =~= a.subrange(0, i));
    if i == a.len() - 1 {
        assert((a + b).subrange(i + 1, (a + b).len() as int) =~= b);
        assert(spec_split_lines(a) =~= seq![spec_strip_cr(a.subrange(0, i))] + spec_split_lines(
            a.subrange(i + 1, a.len() as int),
        ));
        assert(a.subrange(i + 1, a.len() as int) =~= Seq::<char>::empty());
    } else {
        let a2 = a.subrange(i + 1, a.len() as int);
        assert(a2.len() > 0 && a2.last() == '\n');
        lemma_split_lines_append(a2, b);
        assert((a + b).subrange(i + 1, (a + b).len() as int) =~= a2 + b);
    }
}

/// A character does not occur before its first-found index.
proof fn lemma_find_char_first(s: Seq<char>, c: char)
    ensures
        forall|j: int|
            0 <= j < crate::validation::spec_find_char(s, c) ==> #[trigger] s[j] != c,
    decreases s.len(),
{
    crate::validation::lemma_find_char_bounds(s, c);
    if s.len() > 0 && s[0] != c {
        lemma_find_char_first(s.drop_first(), c);
        crate::validation::lemma_find_char_bounds(s.drop_first(), c);
        assert forall|j: int|
            0 <= j < crate::validation::spec_find_char(s, c) implies #[trigger] s[j] != c by {
            if j > 0 {
                assert(s.drop_first()[j - 1] == s[j]);
            }
        }
    }
}

/// When the search misses, the character occurs nowhere, so any position
/// holding it is a contradiction.
proof fn lemma_find_char_no_hit(s: Seq<char>, c: char, at: int)
    requires
        crate::validation::spec_find_char(s, c) < 0,
        0 <= at < s.len(),
    ensures
        s[at] != c,
    decreases s.len(),
{
    if s[0] != c && at > 0 {
        assert(s.drop_first()[at - 1] == s[at]);
        lemma_find_char_no_hit(s.drop_first(), c, at - 1);
    }
}

/// The first line feed of `a + b` is the first line feed of `a`.
proof fn lemma_find_char_concat_prefix(a: Seq<char>, b: Seq<char>, c: char, i: int)
    requires
        crate::validation::spec_find_char(a, c) == i,
        i >= 0,
    ensures
        crate::validation::spec_find_char(a + b, c) == i,
    decreases a.len(),
{
    crate::validation::lemma_find_char_bounds(a, c);
    if a.len() > 0 {
        if a[0] == c {
        } else {
            assert((a + b)[0] == a[0]);
            assert((a + b).drop_first() =~= a.drop_first() + b);
            lemma_find_char_concat_prefix(a.drop_first(), b, c, i - 1);
        }
    }
}

} // verus!

verus! {

/// The body of a canonical `key = "value"` line, without its newline.
pub open spec fn spec_kv_body(key: Seq<char>, value: Seq<char>) -> Seq<char> {
    key + " = \""@ + spec_escape(value) + seq!['"']
}

/// A canonical key-value line reads back as exactly its key and value.
proof fn lemma_classify_kv(key: Seq<char>, value: Seq<char>)
    requires
        key.len() > 0,
        forall|i: int| 0 <= i < key.len() ==> spec_is_key_char(#[trigger] key[i]),
    ensures
        spec_classify(spec_kv_body(key, value)) == LineClass::KeyString(key, value),
{
    reveal_strlit(" = \"");
    let line = spec_kv_body(key, value);
    let mid = " = \""@;
    assert(mid.len() == 4 && mid[0] == ' ' && mid[1] == '=' && mid[2] == ' ' && mid[3] == '"');
    assert(line[0] == key[0]);
    assert(!(line[0] == ' ' || line[0] == '\t'));
    assert(spec_skip_ws(line) == line);
    assert(line[0] != '#' && line[0] != '[');
    let rest = mid + spec_escape(value) + seq!['"'];
    assert(line =~= key + rest);
    assert(!spec_is_key_char(rest[0]));
    lemma_key_end_concat(key, rest);
    let ke = spec_key_end(line);
    assert(ke == key.len());
    assert(line.subrange(0, ke) =~= key);
    assert(line.subrange(ke, line.len() as int) =~= rest);
    let u = spec_skip_ws(rest);
    assert(rest.drop_first() =~= "= \""@ + spec_escape(value) + seq!['"']) by {
        reveal_strlit("= \"");
        assert(rest.drop_first() =~= ("= \""@ + spec_escape(value) + seq!['"']));
    }
    reveal_strlit("= \"");
    let r2 = "= \""@ + spec_escape(value) + seq!['"'];
    assert(r2[0] == '=');
    assert(u == r2) by {
        assert(rest[0] == ' ');
        assert(spec_skip_ws(rest) == spec_skip_ws(rest.drop_first()));
        assert(rest.drop_first() =~= r2);
        assert(spec_skip_ws(r2) == r2);
    }
    let r3 = " \""@ + spec_escape(value) + seq!['"'];
    reveal_strlit(" \"");
    assert(u.drop_first() =~= r3);
    let w = spec_skip_ws(u.drop_first());
    let r4 = seq!['"'] + spec_escape(value) + seq!['"'];
    assert(r3[0] == ' ');
    assert(r3.drop_first() =~= r4);
    assert(w == r4) by {
        assert(spec_skip_ws(r3) == spec_skip_ws(r4));
        assert(r4[0] == '"');
        assert(spec_skip_ws(r4) == r4);
    }
    assert(w[0] == '"');
    assert(w.drop_first() =~= spec_escape(value) + seq!['"'] + Seq::<char>::empty());
    lemma_scan_escape(value, Seq::empty());
    assert(spec_scan_string(w.drop_first()) == Some((value, Seq::<char>::empty())));
    assert(spec_trailing_ok(Seq::<char>::empty()));
}

/// The `[vpm]` header line reads back as the header.
proof fn lemma_classify_vpm_header()
    ensures
        spec_classify("[vpm]"@) == LineClass::VpmHeader,
{
    reveal_strlit("[vpm]");
    reveal_strlit("[[packages]]");
    let t = "[vpm]"@;
    assert(t.len() == 5 && t[0] == '[');
    assert(spec_skip_ws(t) == t);
    assert(!spec_header_is(t, "[[packages]]"@));
    assert(t.subrange(0, 5) =~= t);
    assert(t.subrange(5, 5) =~= Seq::<char>::empty());
    assert(spec_trailing_ok(Seq::<char>::empty()));
    assert(spec_header_is(t, "[vpm]"@));
}

/// The `[[packages]]` header line reads back as the header.
proof fn lemma_classify_pkg_header()
    ensures
        spec_classify("[[packages]]"@) == LineClass::PackagesHeader,
{
    reveal_strlit("[[packages]]");
    let t = "[[packages]]"@;
    assert(t.len() == 12 && t[0] == '[');
    assert(spec_skip_ws(t) == t);
    assert(t.subrange(0, 12) =~= t);
    assert(t.subrange(12, 12) =~= Seq::<char>::empty());
    assert(spec_trailing_ok(Seq::<char>::empty()));
    assert(spec_header_is(t, "[[packages]]"@));
}

/// An empty line reads back as blank.
proof fn lemma_classify_blank()
    ensures
        spec_classify(Seq::<char>::empty()) == LineClass::Blank,
{
    assert(spec_skip_ws(Seq::<char>::empty()).len() == 0);
}

/// A key-value body holds no line break characters.
proof fn lemma_kv_body_no_newline(key: Seq<char>, value: Seq<char>)
    requires
        forall|i: int| 0 <= i < key.len() ==> spec_is_key_char(#[trigger] key[i]),
    ensures
        forall|i: int|
            0 <= i < spec_kv_body(key, value).len() ==> #[trigger] spec_kv_body(key, value)[i]
                != '\n' && spec_kv_body(key, value)[i] != '\r',
{
    reveal_strlit(" = \"");
    lemma_escape_no_newline(value);
    let body = spec_kv_body(key, value);
    assert forall|i: int|
        0 <= i < body.len() implies #[trigger] body[i] != '\n' && body[i] != '\r' by {
        let mid = " = \""@;
        let esc = spec_escape(value);
        if i < key.len() {
            assert(body[i] == key[i]);
        } else if i < key.len() + 4 {
            assert(body[i] == mid[i - key.len()]);
        } else if i < key.len() + 4 + esc.len() {
            assert(body[i] == esc[i - key.len() - 4]);
        } else {
            assert(body[i] == '"');
        }
    }
}

/// Text of one line followed by a newline splits into just that line.
proof fn lemma_split_single_line(c: Seq<char>)
    requires
        forall|i: int| 0 <= i < c.len() ==> #[trigger] c[i] != '\n' && c[i] != '\r',
    ensures
        spec_split_lines(c + seq!['\n']) == seq![c],
{
    let s = c + seq!['\n'];
    lemma_find_char_none(c, '\n');
    lemma_find_char_concat_none(c, seq!['\n'], '\n');
    assert(crate::validation::spec_find_char(s, '\n') == c.len());
    assert(s.subrange(0, c.len() as int) =~= c);
    if c.len() > 0 {
        assert(c.last() != '\r');
    }
    assert(spec_strip_cr(c) == c);
    assert(s.subrange(c.len() as int + 1, s.len() as int) =~= Seq::<char>::empty());
    assert(spec_split_lines(Seq::<char>::empty()) =~= Seq::<Seq<char>>::empty());
    assert(spec_split_lines(s) == seq![spec_strip_cr(s.subrange(0, c.len() as int))]
        + spec_split_lines(s.subrange(c.len() as int + 1, s.len() as int)));
    assert(spec_split_lines(s) =~~= seq![c]);
}

} // verus!

verus! {

/// The lines of the canonical `[vpm]` block.
pub open spec fn spec_vpm_lines(v: VpmView) -> Seq<Seq<char>> {
    seq![
        "[vpm]"@,
        spec_kv_body("id"@, v.id),
        spec_kv_body("name"@, v.name),
        spec_kv_body("author"@, v.author),
        spec_kv_body("url"@, v.url),
    ]
}

/// The lines of one canonical package block.
pub open spec fn spec_pkg_lines(p: PackageView) -> Seq<Seq<char>> {
    seq![
        Seq::<char>::empty(),
        "[[packages]]"@,
        spec_kv_body("id"@, p.id),
        spec_kv_body("repository"@, p.owner + seq!['/'] + p.repo),
    ]
}

/// The lines of all canonical package blocks, in order.
pub open spec fn spec_pkgs_lines(ps: Seq<PackageView>) -> Seq<Seq<char>>
    decreases ps.len(),
{
    if ps.len() == 0 {
        Seq::empty()
    } else {
        spec_pkgs_lines(ps.drop_last()) + spec_pkg_lines(ps.last())
    }
}

/// The key literals used by the canonical form are well-formed bare keys.
proof fn lemma_key_literals()
    ensures
        "id"@.len() == 2 && (forall|i: int|
            0 <= i < "id"@.len() ==> spec_is_key_char(#[trigger] "id"@[i])),
        "name"@.len() == 4 && (forall|i: int|
            0 <= i < "name"@.len() ==> spec_is_key_char(#[trigger] "name"@[i])),
        "author"@.len() == 6 && (forall|i: int|
            0 <= i < "author"@.len() ==> spec_is_key_char(#[trigger] "author"@[i])),
        "url"@.len() == 3 && (forall|i: int|
            0 <= i < "url"@.len() ==> spec_is_key_char(#[trigger] "url"@[i])),
        "repository"@.len() == 10 && (forall|i: int|
            0 <= i < "repository"@.len() ==> spec_is_key_char(#[trigger] "repository"@[i])),
        "id"@ != "name"@ && "id"@ != "author"@ && "id"@ != "url"@ && "name"@ != "author"@
            && "name"@ != "url"@ && "author"@ != "url"@ && "repository"@ != "id"@,
        "packages"@.len() == 8 && "vpm"@.len() == 3,
        "id"@ != "packages"@ && "name"@ != "packages"@ && "author"@ != "packages"@ && "url"@
            != "packages"@ && "repository"@ != "packages"@,
        "id"@ != "vpm"@ && "name"@ != "vpm"@ && "author"@ != "vpm"@ && "url"@ != "vpm"@
            && "repository"@ != "vpm"@,
{
    reveal_strlit("id");
    reveal_strlit("name");
    reveal_strlit("author");
    reveal_strlit("url");
    reveal_strlit("repository");
    reveal_strlit("packages");
    reveal_strlit("vpm");
    assert("url"@[0] == 'u' && "vpm"@[0] == 'v');
}

/// The canonical `[vpm]` block splits into its five lines.
proof fn lemma_vpm_block_lines(v: VpmView)
    ensures
        spec_split_lines(spec_vpm_toml(v)) == spec_vpm_lines(v),
{
    reveal_strlit("[vpm]\n");
    reveal_strlit("[vpm]");
    reveal_strlit("\"\n");
    lemma_key_literals();
    let h = "[vpm]\n"@;
    let l1 = spec_kv_line("id"@, v.id);
    let l2 = spec_kv_line("name"@, v.name);
    let l3 = spec_kv_line("author"@, v.author);
    let l4 = spec_kv_line("url"@, v.url);
    assert(l1 =~= spec_kv_body("id"@, v.id) + seq!['\n']);
    assert(l2 =~= spec_kv_body("name"@, v.name) + seq!['\n']);
    assert(l3 =~= spec_kv_body("author"@, v.author) + seq!['\n']);
    assert(l4 =~= spec_kv_body("url"@, v.url) + seq!['\n']);
    lemma_kv_body_no_newline("id"@, v.id);
    lemma_kv_body_no_newline("name"@, v.name);
    lemma_kv_body_no_newline("author"@, v.author);
    lemma_kv_body_no_newline("url"@, v.url);
    lemma_split_single_line(spec_kv_body("id"@, v.id));
    lemma_split_single_line(spec_kv_body("name"@, v.name));
    lemma_split_single_line(spec_kv_body("author"@, v.author));
    lemma_split_single_line(spec_kv_body("url"@, v.url));
    assert(h =~= "[vpm]"@ + seq!['\n']);
    assert(forall|i: int| 0 <= i < "[vpm]"@.len() ==> #[trigger] "[vpm]"@[i] != '\n' && "[vpm]"@[i] != '\r');
    lemma_split_single_line("[vpm]"@);
    assert(h.len() > 0 && h.last() == '\n');
    assert(l1.len() > 0 && l1.last() == '\n');
    assert(l2.len() > 0 && l2.last() == '\n');
    assert(l3.len() > 0 && l3.last() == '\n');
    assert(spec_vpm_toml(v) =~= h + (l1 + (l2 + (l3 + l4))));
    lemma_split_lines_append(h, l1 + (l2 + (l3 + l4)));
    lemma_split_lines_append(l1, l2 + (l3 + l4));
    lemma_split_lines_append(l2, l3 + l4);
    lemma_split_lines_append(l3, l4);
    assert(spec_split_lines(spec_vpm_toml(v)) =~~= spec_vpm_lines(v));
}

/// One canonical package block splits into its four lines.
proof fn lemma_pkg_block_lines(p: PackageView)
    ensures
        spec_split_lines(spec_package_block(p)) == spec_pkg_lines(p),
{
    reveal_strlit("\n[[packages]]\n");
    reveal_strlit("[[packages]]");
    reveal_strlit("\"\n");
    lemma_key_literals();
    let nl = seq!['\n'];
    let hdr = "[[packages]]"@ + seq!['\n'];
    let l1 = spec_kv_line("id"@, p.id);
    let l2 = spec_kv_line("repository"@, p.owner + seq!['/'] + p.repo);
    assert(l1 =~= spec_kv_body("id"@, p.id) + seq!['\n']);
    assert(l2 =~= spec_kv_body("repository"@, p.owner + seq!['/'] + p.repo) + seq!['\n']);
    lemma_kv_body_no_newline("id"@, p.id);
    lemma_kv_body_no_newline("repository"@, p.owner + seq!['/'] + p.repo);
    lemma_split_single_line(spec_kv_body("id"@, p.id));
    lemma_split_single_line(spec_kv_body("repository"@, p.owner + seq!['/'] + p.repo));
    assert(forall|i: int|
        0 <= i < "[[packages]]"@.len() ==> #[trigger] "[[packages]]"@[i] != '\n'
            && "[[packages]]"@[i] != '\r');
    lemma_split_single_line("[[packages]]"@);
    assert(nl =~= Seq::<char>::empty() + seq!['\n']);
    assert(forall|i: int|
        0 <= i < Seq::<char>::empty().len() ==> #[trigger] Seq::<char>::empty()[i] != '\n'
            && Seq::<char>::empty()[i] != '\r');
    lemma_split_single_line(Seq::<char>::empty());
    assert(spec_package_block(p) =~= nl + (hdr + (l1 + l2)));
    assert(nl.last() == '\n');
    assert(hdr.last() == '\n');
    assert(l1.len() > 0 && l1.last() == '\n');
    lemma_split_lines_append(nl, hdr + (l1 + l2));
    lemma_split_lines_append(hdr, l1 + l2);
    lemma_split_lines_append(l1, l2);
    assert(spec_split_lines(spec_package_block(p)) =~~= spec_pkg_lines(p));
}

/// Canonical package text always ends with a newline.
proof fn lemma_pkgs_toml_ends_newline(ps: Seq<PackageView>)
    requires
        ps.len() > 0,
    ensures
        spec_packages_toml(ps).len() > 0,
        spec_packages_toml(ps).last() == '\n',
{
    reveal_strlit("\"\n");
    let blk = spec_package_block(ps.last());
    let l2 = spec_kv_line("repository"@, ps.last().owner + seq!['/'] + ps.last().repo);
    assert(l2.len() > 0 && l2.last() == '\n');
    assert(blk.len() > 0 && blk.last() == '\n');
    assert(spec_packages_toml(ps).last() == blk.last());
}

/// The canonical package blocks split into their lines.
proof fn lemma_pkgs_toml_lines(ps: Seq<PackageView>)
    ensures
        spec_split_lines(spec_packages_toml(ps)) == spec_pkgs_lines(ps),
    decreases ps.len(),
{
    if ps.len() == 0 {
        assert(spec_split_lines(Seq::<char>::empty()) =~~= Seq::<Seq<char>>::empty());
    } else {
        lemma_pkgs_toml_lines(ps.drop_last());
        lemma_pkg_block_lines(ps.last());
        if ps.drop_last().len() == 0 {
            assert(spec_packages_toml(ps) =~= spec_package_block(ps.last()));
            assert(spec_pkgs_lines(ps) =~~= spec_pkg_lines(ps.last()));
        } else {
            lemma_pkgs_toml_ends_newline(ps.drop_last());
            lemma_split_lines_append(
                spec_packages_toml(ps.drop_last()),
                spec_package_block(ps.last()),
            );
        }
    }
}

/// The whole canonical document splits into the `[vpm]` lines followed by
/// the package lines.
proof fn lemma_manifest_lines(mv: ManifestView)
    ensures
        spec_split_lines(spec_manifest_toml(mv)) == spec_vpm_lines(mv.vpm) + spec_pkgs_lines(
            mv.packages,
        ),
{
    reveal_strlit("\"\n");
    lemma_vpm_block_lines(mv.vpm);
    lemma_pkgs_toml_lines(mv.packages);
    let l4 = spec_kv_line("url"@, mv.vpm.url);
    assert(l4.len() > 0 && l4.last() == '\n');
    assert(spec_vpm_toml(mv.vpm).len() > 0 && spec_vpm_toml(mv.vpm).last() == '\n');
    if mv.packages.len() == 0 {
        assert(spec_manifest_toml(mv) =~= spec_vpm_toml(mv.vpm));
        assert(spec_vpm_lines(mv.vpm) + spec_pkgs_lines(mv.packages) =~~= spec_vpm_lines(mv.vpm));
    } else {
        lemma_split_lines_append(spec_vpm_toml(mv.vpm), spec_packages_toml(mv.packages));
    }
}

} // verus!

verus! {

/// Running the parser over concatenated line groups runs them in sequence.
proof fn lemma_run_append(l1: Seq<Seq<char>>, l2: Seq<Seq<char>>, st: PState)
    ensures
        spec_run(l1 + l2, st) == (match spec_run(l1, st) {
            None => None::<PState>,
            Some(s2) => spec_run(l2, s2),
        }),
    decreases l1.len(),
{
    if l1.len() == 0 {
        assert(l1 + l2 =~= l2);
    } else {
        assert((l1 + l2)[0] == l1[0]);
        assert((l1 + l2).drop_first() =~= l1.drop_first() + l2);
        match spec_step(st, spec_classify(l1[0])) {
            None => {},
            Some(s2) => {
                lemma_run_append(l1.drop_first(), l2, s2);
            },
        }
    }
}

/// The state after reading the canonical `[vpm]` block.
pub open spec fn spec_state_after_vpm(v: VpmView) -> PState {
    PState {
        sect: Sect::Vpm,
        vpm_seen: true,
        id: Some(v.id),
        name: Some(v.name),
        author: Some(v.author),
        url: Some(v.url),
        cur_id: None,
        cur_owner: None,
        cur_repo: None,
        pkgs: Seq::empty(),
        top_array_seen: false,
    }
}

/// Reading the canonical `[vpm]` lines fills in exactly the four fields.
proof fn lemma_run_vpm(v: VpmView)
    ensures
        spec_run(spec_vpm_lines(v), spec_init_state()) == Some(spec_state_after_vpm(v)),
{
    lemma_key_literals();
    lemma_classify_vpm_header();
    lemma_classify_kv("id"@, v.id);
    lemma_classify_kv("name"@, v.name);
    lemma_classify_kv("author"@, v.author);
    lemma_classify_kv("url"@, v.url);
    let lines = spec_vpm_lines(v);
    let st0 = spec_init_state();
    let st1 = spec_step(st0, LineClass::VpmHeader).unwrap();
    let st2 = spec_step(st1, LineClass::KeyString("id"@, v.id)).unwrap();
    let st3 = spec_step(st2, LineClass::KeyString("name"@, v.name)).unwrap();
    let st4 = spec_step(st3, LineClass::KeyString("author"@, v.author)).unwrap();
    let st5 = spec_step(st4, LineClass::KeyString("url"@, v.url)).unwrap();
    assert(lines.drop_first() =~= seq![
        spec_kv_body("id"@, v.id),
        spec_kv_body("name"@, v.name),
        spec_kv_body("author"@, v.author),
        spec_kv_body("url"@, v.url),
    ]);
    assert(lines.drop_first().drop_first() =~= seq![
        spec_kv_body("name"@, v.name),
        spec_kv_body("author"@, v.author),
        spec_kv_body("url"@, v.url),
    ]);
    assert(lines.drop_first().drop_first().drop_first() =~= seq![
        spec_kv_body("author"@, v.author),
        spec_kv_body("url"@, v.url),
    ]);
    assert(lines.drop_first().drop_first().drop_first().drop_first() =~= seq![
        spec_kv_body("url"@, v.url),
    ]);
    assert(lines.drop_first().drop_first().drop_first().drop_first().drop_first()
        =~= Seq::<Seq<char>>::empty());
    assert(lines[0] == "[vpm]"@);
    assert(spec_run(lines, st0) == spec_run(lines.drop_first(), st1));
    assert(lines.drop_first()[0] == spec_kv_body("id"@, v.id));
    assert(spec_run(lines.drop_first(), st1) == spec_run(lines.drop_first().drop_first(), st2));
    assert(spec_run(lines.drop_first().drop_first(), st2) == spec_run(
        lines.drop_first().drop_first().drop_first(),
        st3,
    ));
    assert(spec_run(lines.drop_first().drop_first().drop_first(), st3) == spec_run(
        lines.drop_first().drop_first().drop_first().drop_first(),
        st4,
    ));
    assert(spec_run(lines.drop_first().drop_first().drop_first().drop_first(), st4) == spec_run(
        lines.drop_first().drop_first().drop_first().drop_first().drop_first(),
        st5,
    ));
    assert(spec_run(Seq::<Seq<char>>::empty(), st5) == Some(st5));
    assert(st5 =~~= spec_state_after_vpm(v));
}

/// Reading one canonical package block closes any open package and leaves
/// the new one open with both fields assigned.
proof fn lemma_run_pkg(p: PackageView, st: PState)
    requires
        !st.top_array_seen,
        spec_close_pkg(st) is Some,
        st.sect matches Sect::Pkg || (st.cur_id is None && st.cur_owner is None
            && st.cur_repo is None),
        crate::domain::spec_is_owner(p.owner),
        crate::domain::spec_is_repo(p.repo),
    ensures
        ({
            let closed = spec_close_pkg(st).unwrap();
            spec_run(spec_pkg_lines(p), st) == Some(
                PState {
                    sect: Sect::Pkg,
                    vpm_seen: closed.vpm_seen,
                    id: closed.id,
                    name: closed.name,
                    author: closed.author,
                    url: closed.url,
                    cur_id: Some(p.id),
                    cur_owner: Some(p.owner),
                    cur_repo: Some(p.repo),
                    pkgs: closed.pkgs,
                    top_array_seen: closed.top_array_seen,
                },
            )
        }),
{
    lemma_key_literals();
    lemma_classify_blank();
    lemma_classify_pkg_header();
    lemma_classify_kv("id"@, p.id);
    lemma_classify_kv("repository"@, p.owner + seq!['/'] + p.repo);
    lemma_repo_string(p.owner, p.repo);
    let lines = spec_pkg_lines(p);
    let closed = spec_close_pkg(st).unwrap();
    let st1 = spec_step(st, LineClass::Blank).unwrap();
    assert(st1 == st);
    let st2 = spec_step(st1, LineClass::PackagesHeader).unwrap();
    let st3 = spec_step(st2, LineClass::KeyString("id"@, p.id)).unwrap();
    let v = p.owner + seq!['/'] + p.repo;
    let st4 = spec_step(st3, LineClass::KeyString("repository"@, v)).unwrap();
    assert(v.subrange(0, crate::validation::spec_find_char(v, '/')) =~= p.owner);
    assert(v.subrange(crate::validation::spec_find_char(v, '/') + 1, v.len() as int) =~= p.repo);
    assert(lines.drop_first() =~= seq![
        "[[packages]]"@,
        spec_kv_body("id"@, p.id),
        spec_kv_body("repository"@, v),
    ]);
    assert(lines.drop_first().drop_first() =~= seq![
        spec_kv_body("id"@, p.id),
        spec_kv_body("repository"@, v),
    ]);
    assert(lines.drop_first().drop_first().drop_first() =~= seq![spec_kv_body("repository"@, v)]);
    assert(lines.drop_first().drop_first().drop_first().drop_first()
        =~= Seq::<Seq<char>>::empty());
    assert(lines[0] == Seq::<char>::empty());
    assert(spec_run(lines, st) == spec_run(lines.drop_first(), st1));
    assert(spec_run(lines.drop_first(), st1) == spec_run(lines.drop_first().drop_first(), st2));
    assert(spec_run(lines.drop_first().drop_first(), st2) == spec_run(
        lines.drop_first().drop_first().drop_first(),
        st3,
    ));
    assert(spec_run(lines.drop_first().drop_first().drop_first(), st3) == spec_run(
        lines.drop_first().drop_first().drop_first().drop_first(),
        st4,
    ));
    assert(spec_run(Seq::<Seq<char>>::empty(), st4) == Some(st4));
    assert(st4 =~~= PState {
        sect: Sect::Pkg,
        vpm_seen: closed.vpm_seen,
        id: closed.id,
        name: closed.name,
        author: closed.author,
        url: closed.url,
        cur_id: Some(p.id),
        cur_owner: Some(p.owner),
        cur_repo: Some(p.repo),
        pkgs: closed.pkgs,
        top_array_seen: closed.top_array_seen,
    });
}

/// A valid owner and repository joined with a slash parse back to
/// themselves.
proof fn lemma_repo_string(o: Seq<char>, r: Seq<char>)
    requires
        crate::domain::spec_is_owner(o),
        crate::domain::spec_is_repo(r),
    ensures
        crate::domain::spec_repo_parses(o + seq!['/'] + r),
        crate::validation::spec_find_char(o + seq!['/'] + r, '/') == o.len(),
        (o + seq!['/'] + r).subrange(0, o.len() as int) == o,
        (o + seq!['/'] + r).subrange(o.len() as int + 1, (o + seq!['/'] + r).len() as int) == r,
{
    let v = o + seq!['/'] + r;
    assert(forall|i: int| 0 <= i < o.len() ==> #[trigger] o[i] != '/');
    assert(o + seq!['/'] + r =~= o + (seq!['/'] + r));
    lemma_find_char_concat_none(o, seq!['/'] + r, '/');
    assert((seq!['/'] + r)[0] == '/');
    assert(crate::validation::spec_find_char(seq!['/'] + r, '/') == 0);
    assert(crate::validation::spec_find_char(v, '/') == o.len());
    assert(v.subrange(0, o.len() as int) =~= o);
    assert(v.subrange(o.len() as int + 1, v.len() as int) =~= r);
    assert(forall|i: int| 0 <= i < r.len() ==> #[trigger] r[i] != '/');
    lemma_find_char_none(r, '/');
}

/// The state after the canonical package blocks: the packages before the
/// last are closed, the last stays open.
proof fn lemma_run_pkgs(ps: Seq<PackageView>, st0: PState)
    requires
        st0.sect matches Sect::Vpm,
        !st0.top_array_seen,
        st0.cur_id is None && st0.cur_owner is None && st0.cur_repo is None,
        forall|k: int|
            0 <= k < ps.len() ==> crate::domain::spec_is_owner(#[trigger] ps[k].owner)
                && crate::domain::spec_is_repo(ps[k].repo),
    ensures
        ps.len() == 0 ==> spec_run(spec_pkgs_lines(ps), st0) == Some(st0),
        ps.len() > 0 ==> spec_run(spec_pkgs_lines(ps), st0) == Some(
            PState {
                sect: Sect::Pkg,
                vpm_seen: st0.vpm_seen,
                id: st0.id,
                name: st0.name,
                author: st0.author,
                url: st0.url,
                cur_id: Some(ps.last().id),
                cur_owner: Some(ps.last().owner),
                cur_repo: Some(ps.last().repo),
                pkgs: st0.pkgs + ps.drop_last(),
                top_array_seen: st0.top_array_seen,
            },
        ),
    decreases ps.len(),
{
    if ps.len() == 0 {
    } else {
        let ps2 = ps.drop_last();
        let p = ps.last();
        lemma_run_pkgs(ps2, st0);
        lemma_run_append(spec_pkgs_lines(ps2), spec_pkg_lines(p), st0);
        if ps2.len() == 0 {
            lemma_run_pkg(p, st0);
            assert(spec_close_pkg(st0) == Some(st0));
            assert(st0.pkgs + ps.drop_last() =~= st0.pkgs);
        } else {
            let mid = PState {
                sect: Sect::Pkg,
                vpm_seen: st0.vpm_seen,
                id: st0.id,
                name: st0.name,
                author: st0.author,
                url: st0.url,
                cur_id: Some(ps2.last().id),
                cur_owner: Some(ps2.last().owner),
                cur_repo: Some(ps2.last().repo),
                pkgs: st0.pkgs + ps2.drop_last(),
                top_array_seen: st0.top_array_seen,
            };
            assert(spec_run(spec_pkgs_lines(ps2), st0) == Some(mid));
            lemma_run_pkg(p, mid);
            let closed = spec_close_pkg(mid).unwrap();
            assert(closed.pkgs =~= st0.pkgs + ps2.drop_last() + seq![ps2.last()]);
            assert(st0.pkgs + ps2.drop_last() + seq![ps2.last()] =~= st0.pkgs + ps.drop_last());
        }
    }
}

/// THE ROUND-TRIP LAW: parsing the canonical serialization of any manifest
/// content recovers that content exactly, provided each package's repository
/// coordinate is well-formed.
pub proof fn lemma_manifest_round_trip(mv: ManifestView)
    requires
        forall|k: int|
            0 <= k < mv.packages.len() ==> crate::domain::spec_is_owner(
                #[trigger] mv.packages[k].owner,
            ) && crate::domain::spec_is_repo(mv.packages[k].repo),
    ensures
        spec_parse_manifest(spec_manifest_toml(mv)) == Some(mv),
{
    lemma_manifest_lines(mv);
    lemma_run_vpm(mv.vpm);
    lemma_run_append(spec_vpm_lines(mv.vpm), spec_pkgs_lines(mv.packages), spec_init_state());
    let st_v = spec_state_after_vpm(mv.vpm);
    lemma_run_pkgs(mv.packages, st_v);
    if mv.packages.len() == 0 {
        assert(spec_finish(st_v) == Some(ManifestView { vpm: mv.vpm, packages: st_v.pkgs }));
        assert(ManifestView { vpm: mv.vpm, packages: st_v.pkgs } =~~= mv);
        assert(mv.vpm =~~= VpmView {
            id: mv.vpm.id,
            name: mv.vpm.name,
            author: mv.vpm.author,
            url: mv.vpm.url,
        });
    } else {
        let fin = PState {
            sect: Sect::Pkg,
            vpm_seen: st_v.vpm_seen,
            id: st_v.id,
            name: st_v.name,
            author: st_v.author,
            url: st_v.url,
            cur_id: Some(mv.packages.last().id),
            cur_owner: Some(mv.packages.last().owner),
            cur_repo: Some(mv.packages.last().repo),
            pkgs: st_v.pkgs + mv.packages.drop_last(),
            top_array_seen: st_v.top_array_seen,
        };
        assert(spec_run(spec_split_lines(spec_manifest_toml(mv)), spec_init_state()) == Some(fin));
        let closed = spec_close_pkg(fin).unwrap();
        assert(closed.pkgs =~= mv.packages) by {
            assert(st_v.pkgs + mv.packages.drop_last() =~= mv.packages.drop_last());
            assert(mv.packages.drop_last().push(mv.packages.last()) =~= mv.packages);
            assert(mv.packages.last() =~~= PackageView {
                id: mv.packages.last().id,
                owner: mv.packages.last().owner,
                repo: mv.packages.last().repo,
            });
        }
        assert(spec_finish(fin) matches Some(got) && got =~~= mv);
    }
}

} // verus!

verus! {

/// Every repository coordinate the parser has accepted so far is
/// well-formed.
pub open spec fn spec_state_repos_ok(st: PState) -> bool {
    &&& forall|k: int|
        0 <= k < st.pkgs.len() ==> crate::domain::spec_is_owner(#[trigger] st.pkgs[k].owner)
            && crate::domain::spec_is_repo(st.pkgs[k].repo)
    &&& (st.cur_owner matches Some(o) ==> crate::domain::spec_is_owner(o))
    &&& (st.cur_repo matches Some(rp) ==> crate::domain::spec_is_repo(rp))
}

/// Closing a package keeps every accepted coordinate well-formed.
proof fn lemma_close_repos(st: PState)
    requires
        spec_state_repos_ok(st),
        spec_close_pkg(st) is Some,
    ensures
        spec_state_repos_ok(spec_close_pkg(st).unwrap()),
{
    match st.sect {
        Sect::Pkg => {
            let s2 = spec_close_pkg(st).unwrap();
            assert forall|k: int|
                0 <= k < s2.pkgs.len() implies crate::domain::spec_is_owner(
                #[trigger] s2.pkgs[k].owner,
            ) && crate::domain::spec_is_repo(s2.pkgs[k].repo) by {
                if k < st.pkgs.len() {
                    assert(s2.pkgs[k] == st.pkgs[k]);
                }
            }
        },
        _ => {},
    }
}

/// One accepted step keeps every accepted coordinate well-formed: the only
/// step that records a coordinate first checks that it parses.
proof fn lemma_step_repos(st: PState, lc: LineClass)
    requires
        spec_state_repos_ok(st),
        spec_step(st, lc) is Some,
    ensures
        spec_state_repos_ok(spec_step(st, lc).unwrap()),
{
    match lc {
        LineClass::VpmHeader => {
            lemma_close_repos(st);
        },
        LineClass::PackagesHeader => {
            lemma_close_repos(st);
        },
        LineClass::KeyString(key, v) => {
            match st.sect {
                Sect::Pkg => {
                    if key == "repository"@ && st.cur_owner is None
                        && crate::domain::spec_repo_parses(v) {
                        let i = crate::validation::spec_find_char(v, '/');
                        assert(crate::domain::spec_is_owner(v.subrange(0, i)));
                        assert(crate::domain::spec_is_repo(v.subrange(i + 1, v.len() as int)));
                    }
                },
                _ => {},
            }
        },
        _ => {},
    }
}

/// Running any accepted line sequence keeps every coordinate well-formed.
proof fn lemma_run_repos(lines: Seq<Seq<char>>, st: PState)
    requires
        spec_state_repos_ok(st),
        spec_run(lines, st) is Some,
    ensures
        spec_state_repos_ok(spec_run(lines, st).unwrap()),
    decreases lines.len(),
{
    if lines.len() > 0 {
        let s2 = spec_step(st, spec_classify(lines[0]));
        assert(s2 is Some);
        lemma_step_repos(st, spec_classify(lines[0]));
        lemma_run_repos(lines.drop_first(), s2.unwrap());
    }
}

/// Every package of an accepted document carries a well-formed repository
/// coordinate.
pub proof fn lemma_parse_repos_valid(t: Seq<char>)
    requires
        spec_parse_manifest(t) is Some,
    ensures
        forall|k: int|
            0 <= k < spec_parse_manifest(t).unwrap().packages.len()
                ==> crate::domain::spec_is_owner(
                #[trigger] spec_parse_manifest(t).unwrap().packages[k].owner,
            ) && crate::domain::spec_is_repo(spec_parse_manifest(t).unwrap().packages[k].repo),
{
    let st = spec_run(spec_split_lines(t), spec_init_state()).unwrap();
    lemma_run_repos(spec_split_lines(t), spec_init_state());
    lemma_close_repos(st);
    let closed = spec_close_pkg(st).unwrap();
    assert(spec_parse_manifest(t).unwrap().packages == closed.pkgs);
}

} // verus!
