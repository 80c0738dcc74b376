//! Pure helpers behind the command-line surface: configuration path
//! derivation and the bounded numeric argument parsers.

use vstd::prelude::*;

use crate::chars::{chars_to_string, push_char, spec_is_digit, str_to_chars};

verus! {

/// Where the file-name part of `path` begins: one past the last `/`.
pub open spec fn spec_file_name_start(path: Seq<char>) -> int
    decreases path.len(),
{
    if path.len() == 0 {
        0
    } else if path[path.len() - 1] == '/' {
        path.len() as int
    } else {
        spec_file_name_start(path.drop_last())
    }
}

/// Where the extension dot of `path` sits, if the file name has one: the last
/// `.` of the file name, provided it is not the file name's first character.
pub open spec fn spec_extension_dot(path: Seq<char>) -> Option<int>
    decreases path.len(),
{
    if path.len() == 0 {
        None
    } else if path[path.len() - 1] == '/' {
        None
    } else if path[path.len() - 1] == '.' && path.len() - 1 > spec_file_name_start(path) {
        Some(path.len() - 1)
    } else {
        spec_extension_dot(path.drop_last())
    }
}

/// `path` with its extension replaced by (or, when it has none, extended
/// with) a dot and `ext`.
pub open spec fn spec_with_extension(path: Seq<char>, ext: Seq<char>) -> Seq<char> {
    match spec_extension_dot(path) {
        Some(d) => path.subrange(0, d) + seq!['.'] + ext,
        None => path + seq!['.'] + ext,
    }
}

/// When no separator stands at or after `k`, the file name begins where it
/// begins in the prefix up to `k`.
proof fn lemma_file_name_start_suffix(s: Seq<char>, k: int)
    requires
        0 <= k <= s.len(),
        forall|j: int| k <= j < s.len() ==> s[j] != '/',
    ensures
        spec_file_name_start(s) == spec_file_name_start(s.subrange(0, k)),
    decreases s.len() - k,
{
    if s.len() > k {
        assert(s[s.len() - 1] != '/');
        assert(s.drop_last() =~= s.subrange(0, s.len() - 1));
        lemma_file_name_start_suffix(s.drop_last(), k);
        assert(s.drop_last().subrange(0, k) =~= s.subrange(0, k));
    } else {
        assert(s.subrange(0, k) =~= s);
    }
}

/// Replaces the extension of the file-name part of `path` with `ext`, the way
/// `Path::with_extension` does: the last dot of the file name starts the
/// extension, unless it is the file name's first character.
pub fn with_extension_str(path: &str, ext: &str) -> (r: String)
    ensures
        r@ == spec_with_extension(path@, ext@),
{
    let cs = str_to_chars(path);
    let n = cs.len();

    // Find one past the last '/'.
    let mut start: usize = n;
    while start > 0 && cs[start - 1] != '/'
        invariant
            start <= n,
            n == cs@.len(),
            cs@ == path@,
            forall|j: int| start <= j < n ==> cs@[j] != '/',
        decreases start,
    {
        start = start - 1;
    }
    proof {
        lemma_file_name_start_suffix(path@, start as int);
        if start == 0 {
            assert(path@.subrange(0, 0) =~= Seq::<char>::empty());
        } else {
            assert(path@.subrange(0, start as int)[start as int - 1] == '/');
        }
        assert(spec_file_name_start(path@) == start);
    }

    // Find the last '.' strictly after the file name's first character.
    let mut dot: usize = n;
    let mut found = false;
    let mut i: usize = n;
    proof {
        assert(path@.subrange(0, n as int) =~= path@);
    }
    while i > start
        invariant
            start <= i <= n,
            n == cs@.len(),
            cs@ == path@,
            spec_file_name_start(path@) == start,
            start > 0 ==> cs@[start - 1] == '/',
            forall|j: int| start <= j < n ==> cs@[j] != '/',
            found ==> start < dot < n && spec_extension_dot(path@) == Some(dot as int),
            !found ==> spec_extension_dot(path@) == spec_extension_dot(
                path@.subrange(0, i as int),
            ),
        decreases i,
    {
        proof {
            let pre = path@.subrange(0, i as int);
            assert(pre.drop_last() =~= path@.subrange(0, i as int - 1));
            assert(pre[i - 1] == path@[i - 1]);
            assert(pre.subrange(0, start as int) =~= path@.subrange(0, start as int));
            lemma_file_name_start_suffix(pre, start as int);
            if start == 0 {
                assert(path@.subrange(0, 0) =~= Seq::<char>::empty());
            } else {
                assert(path@.subrange(0, start as int)[start as int - 1] == '/');
            }
            assert(spec_file_name_start(pre) == start);
        }
        if !found && cs[i - 1] == '.' && i - 1 > start {
            dot = i - 1;
            found = true;
        }
        i = i - 1;
    }
    proof {
        if !found {
            let pre = path@.subrange(0, start as int);
            if start == 0 {
                assert(pre =~= Seq::<char>::empty());
            } else {
                assert(pre[start as int - 1] == '/');
            }
            assert(spec_extension_dot(path@) is None);
        }
    }

    let keep = if found {
        dot
    } else {
        n
    };
    let mut out: Vec<char> = Vec::new();
    let mut k: usize = 0;
    while k < keep
        invariant
            k <= keep <= n,
            n == cs@.len(),
            cs@ == path@,
            out@ == path@.subrange(0, k as int),
        decreases keep - k,
    {
        out.push(cs[k]);
        k = k + 1;
        proof {
            assert(out@ =~= path@.subrange(0, k as int));
        }
    }
    let mut s = chars_to_string(out.as_slice());
    push_char(&mut s, '.');
    let tail = ext.to_owned();
    let r = s.concat(tail.as_str());
    proof {
        assert(r@ =~= spec_with_extension(path@, ext@));
    }
    r
}

/// The manifest path and the lockfile path derived from it.
#[derive(Debug, Clone)]
pub struct ConfigPaths {
    config: String,
    lock: String,
}

impl ConfigPaths {
    /// The manifest path, at the spec level.
    pub closed spec fn spec_config(&self) -> Seq<char> {
        self.config@
    }

    /// The lockfile path, at the spec level.
    pub closed spec fn spec_lock(&self) -> Seq<char> {
        self.lock@
    }

    /// Derives the lockfile path by replacing the configuration file's
    /// extension with `lock`.
    pub fn new(config: String) -> (r: ConfigPaths)
        ensures
            r.spec_config() == config@,
            r.spec_lock() == spec_with_extension(config@, "lock"@),
    {
        let lock = with_extension_str(config.as_str(), "lock");
        ConfigPaths { config, lock }
    }

    /// The manifest file path.
    pub fn config_path(&self) -> (r: &str)
        ensures
            r@ == self.spec_config(),
    {
        self.config.as_str()
    }

    /// The lockfile path.
    pub fn lock_path(&self) -> (r: &str)
        ensures
            r@ == self.spec_lock(),
    {
        self.lock.as_str()
    }
}

/// The numeric value of a digit string.
pub open spec fn spec_digits_val(s: Seq<char>) -> nat
    decreases s.len(),
{
    if s.len() == 0 {
        0
    } else {
        (spec_digits_val(s.drop_last()) * 10 + (s.last() as int - '0' as int)) as nat
    }
}

/// The digit part of a number literal: everything after an optional leading
/// plus sign.
pub open spec fn spec_number_digits(s: Seq<char>) -> Seq<char> {
    if s.len() > 0 && s[0] == '+' {
        s.drop_first()
    } else {
        s
    }
}

/// Whether `s` is a well-formed unsigned decimal literal: an optional `+`,
/// then at least one digit.
pub open spec fn spec_is_number(s: Seq<char>) -> bool {
    spec_number_digits(s).len() > 0 && forall|i: int|
        0 <= i < spec_number_digits(s).len() ==> spec_is_digit(spec_number_digits(s)[i])
}

/// The error message for input that is not a number in range.
pub open spec fn spec_not_a_number_msg(s: Seq<char>) -> Seq<char> {
    seq!['\''] + s + "' is not a valid number"@
}

fn not_a_number_msg(s: &str) -> (r: String)
    ensures
        r@ == spec_not_a_number_msg(s@),
{
    let mut m = String::new();
    push_char(&mut m, '\'');
    let m2 = m.concat(s);
    m2.concat("' is not a valid number")
}

/// Parses an unsigned decimal number no larger than `max`, accepting an
/// optional leading plus sign, the way `str::parse` for unsigned integers
/// does.  A value over `max` is reported the same way as a malformed string,
/// mirroring integer overflow in `str::parse`.
pub fn parse_number(s: &str, max: u64) -> (r: Option<u64>)
    requires
        max >= 9,
    ensures
        r is Some <==> spec_is_number(s@) && spec_digits_val(spec_number_digits(s@)) <= max,
        r matches Some(v) ==> v == spec_digits_val(spec_number_digits(s@)),
{
    let cs = str_to_chars(s);
    let n = cs.len();
    let first: usize = if n > 0 && cs[0] == '+' {
        1
    } else {
        0
    };
    proof {
        if first == 1 {
            assert(spec_number_digits(s@) =~= s@.drop_first());
        } else {
            assert(spec_number_digits(s@) =~= s@);
        }
    }
    if n == first {
        return None;
    }
    let ghost digits = spec_number_digits(s@);
    let mut v: u64 = 0;
    let mut i: usize = first;
    while i < n
        invariant
            max >= 9,
            first <= i <= n,
            first <= 1,
            n == cs@.len(),
            cs@ == s@,
            digits == spec_number_digits(s@),
            digits.len() == n - first,
            forall|j: int| 0 <= j < i - first ==> digits[j] == cs@[j + first],
            forall|j: int| first <= j < i ==> spec_is_digit(cs@[j]),
            v == spec_digits_val(digits.subrange(0, i - first)),
            v <= max,
        decreases n - i,
    {
        let c = cs[i];
        if !('0' <= c && c <= '9') {
            proof {
                assert(digits[i - first] == cs@[i as int]);
                assert(!spec_is_number(s@));
            }
            return None;
        }
        let d: u64 = (c as u32 as u64) - 48;
        proof {
            assert(digits.subrange(0, i - first + 1).drop_last() =~= digits.subrange(
                0,
                i - first,
            ));
            assert(digits.subrange(0, i - first + 1).last() == c);
            assert(spec_digits_val(digits.subrange(0, i - first + 1)) == v * 10 + d);
        }
        if v > (max - d) / 10 {
            // The value would exceed `max`; later digits only grow it.
            proof {
                assert(v * 10 + d > max) by (nonlinear_arith)
                    requires
                        v > (max - d) / 10,
                        0 <= d <= 9,
                        max >= d,
                ;
                if spec_is_number(s@) && spec_digits_val(digits) <= max {
                    lemma_digits_val_monotone(digits, i - first + 1);
                    assert(false);
                }
            }
            return None;
        }
        proof {
            assert(v * 10 + d <= max) by (nonlinear_arith)
                requires
                    v <= (max - d) / 10,
                    0 <= d <= 9,
                    max >= d,
            ;
        }
        v = v * 10 + d;
        i = i + 1;
    }
    proof {
        assert(digits.subrange(0, n - first) =~= digits);
    }
    Some(v)
}

/// A digit string's value never shrinks as further digits are appended.
proof fn lemma_digits_val_monotone(s: Seq<char>, k: int)
    requires
        0 <= k <= s.len(),
        forall|j: int| 0 <= j < s.len() ==> spec_is_digit(s[j]),
    ensures
        spec_digits_val(s) >= spec_digits_val(s.subrange(0, k)),
    decreases s.len() - k,
{
    if k < s.len() {
        lemma_digits_val_monotone(s, k + 1);
        assert(s.subrange(0, k + 1).drop_last() =~= s.subrange(0, k));
        assert(spec_is_digit(s.subrange(0, k + 1).last()));
        assert(spec_digits_val(s.subrange(0, k + 1)) >= spec_digits_val(s.subrange(0, k)))
            by (nonlinear_arith)
            requires
                spec_digits_val(s.subrange(0, k + 1)) == (spec_digits_val(
                    s.subrange(0, k + 1).drop_last(),
                ) * 10 + (s.subrange(0, k + 1).last() as int - '0' as int)) as nat,
                s.subrange(0, k + 1).drop_last() == s.subrange(0, k),
                '0' as int <= s.subrange(0, k + 1).last() as int <= '9' as int,
        ;
    } else {
        assert(s.subrange(0, k) =~= s);
    }
}

/// Parses and bounds the concurrent-download count: a number from 1 to 50.
pub fn parse_max_concurrent(s: &str) -> (r: Result<usize, String>)
    ensures
        r matches Ok(v) ==> spec_is_number(s@) && 1 <= v <= 50 && v == spec_digits_val(
            spec_number_digits(s@),
        ),
        (spec_is_number(s@) && 1 <= spec_digits_val(spec_number_digits(s@)) <= 50) ==> r is Ok,
        r matches Err(m) ==> (if !spec_is_number(s@) || spec_digits_val(spec_number_digits(s@))
            > usize::MAX {
            m@ == spec_not_a_number_msg(s@)
        } else if spec_digits_val(spec_number_digits(s@)) == 0 {
            m@ == "max-concurrent must be at least 1"@
        } else {
            m@ == "max-concurrent must be at most 50"@
        }),
{
    match parse_number(s, usize::MAX as u64) {
        None => Err(not_a_number_msg(s)),
        Some(v) => {
            if v == 0 {
                Err("max-concurrent must be at least 1".to_owned())
            } else if v > 50 {
                Err("max-concurrent must be at most 50".to_owned())
            } else {
                Ok(v as usize)
            }
        },
    }
}

/// Parses and bounds the retry count: a number from 0 to 8.
pub fn parse_max_retries(s: &str) -> (r: Result<u32, String>)
    ensures
        r matches Ok(v) ==> spec_is_number(s@) && v <= 8 && v == spec_digits_val(
            spec_number_digits(s@),
        ),
        (spec_is_number(s@) && spec_digits_val(spec_number_digits(s@)) <= 8) ==> r is Ok,
        r matches Err(m) ==> (if !spec_is_number(s@) || spec_digits_val(spec_number_digits(s@))
            > u32::MAX {
            m@ == spec_not_a_number_msg(s@)
        } else {
            m@ == "max-retries must be at most 8"@
        }),
{
    match parse_number(s, u32::MAX as u64) {
        None => Err(not_a_number_msg(s)),
        Some(v) => {
            if v > 8 {
                Err("max-retries must be at most 8".to_owned())
            } else {
                Ok(v as u32)
            }
        },
    }
}

} // verus!

verus! {

/// When terminal output is colored: following the terminal, always, or
/// never.
#[derive(Debug, Clone, Copy, PartialEq, Eq, Structural)]
pub enum ColorChoice {
    Auto,
    Always,
    Never,
}

impl Default for ColorChoice {
    /// Color follows the terminal by default.
    fn default() -> (r: ColorChoice)
        ensures
            r == ColorChoice::Auto,
    {
        ColorChoice::Auto
    }
}

} // verus!
