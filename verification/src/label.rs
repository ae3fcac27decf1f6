//! Label resolution for snapshot rows, plus the text helpers the console
//! shares with it: left truncation and human-readable byte sizes.

use crate::numerals::{spec_dec, u64_to_string};
use vstd::prelude::*;

verus! {

/// Index of the last occurrence of `c` in `s`, if any.
pub open spec fn find_last(s: Seq<char>, c: char) -> Option<int>
    decreases s.len(),
{
    if s.len() == 0 {
        None
    } else if s.last() == c {
        Some(s.len() - 1)
    } else {
        find_last(s.drop_last(), c)
    }
}

/// The last occurrence is an occurrence, and nothing later is one.
pub proof fn lemma_find_last_props(s: Seq<char>, c: char)
    ensures
        match find_last(s, c) {
            Some(i) => 0 <= i < s.len() && s[i] == c && forall|j: int|
                i < j < s.len() ==> s[j] != c,
            None => forall|j: int| 0 <= j < s.len() ==> s[j] != c,
        },
    decreases s.len(),
{
    if s.len() > 0 && s.last() != c {
        lemma_find_last_props(s.drop_last(), c);
        match find_last(s.drop_last(), c) {
            Some(i) => {
                assert(s.drop_last()[i] == s[i]);
                assert forall|j: int| i < j < s.len() implies s[j] != c by {
                    if j < s.len() - 1 {
                        assert(s.drop_last()[j] == s[j]);
                    }
                }
            },
            None => {
                assert forall|j: int| 0 <= j < s.len() implies s[j] != c by {
                    if j < s.len() - 1 {
                        assert(s.drop_last()[j] == s[j]);
                    }
                }
            },
        }
    }
}

/// Index of the last occurrence of `c`, scanning from the end.
pub fn find_last_char(s: &str, c: char) -> (r: Option<usize>)
    ensures
        match r {
            Some(i) => find_last(s@, c) == Some(i as int),
            None => find_last(s@, c) is None,
        },
{
    proof {
        lemma_find_last_props(s@, c);
    }
    let n = s.unicode_len();
    let mut i: usize = n;
    while i > 0
        invariant
            i <= n,
            n == s@.len(),
            forall|j: int| i <= j < n ==> s@[j] != c,
        decreases i,
    {
        i = i - 1;
        if s.get_char(i) == c {
            proof {
                lemma_find_last_props(s@, c);
                match find_last(s@, c) {
                    Some(k) => {
                        if k < i {
                            assert(s@[i as int] != c);
                        }
                    },
                    None => {
                        assert(s@[i as int] != c);
                    },
                }
            }
            return Some(i);
        }
    }
    None
}

/// The last two path components of a `/`-separated path; a path with at
/// most one separator is kept whole.
pub open spec fn spec_extract_filename(path: Seq<char>) -> Seq<char> {
    match find_last(path, '/') {
        None => path,
        Some(i) => match find_last(path.take(i), '/') {
            None => path,
            Some(j) => path.skip(j + 1),
        },
    }
}

/// See `spec_extract_filename`.
pub fn extract_filename(path: &str) -> (r: String)
    ensures
        r@ == spec_extract_filename(path@),
{
    proof {
        lemma_find_last_props(path@, '/');
    }
    match find_last_char(path, '/') {
        None => path.to_owned(),
        Some(i) => {
            proof {
                lemma_find_last_props(path@.take(i as int), '/');
            }
            let prefix = path.substring_char(0, i);
            proof {
                assert(prefix@ =~= path@.take(i as int));
            }
            match find_last_char(prefix, '/') {
                None => path.to_owned(),
                Some(j) => {
                    let r = path.substring_char(j + 1, path.unicode_len()).to_owned();
                    proof {
                        assert(r@ =~= path@.skip(j + 1));
                    }
                    r
                },
            }
        },
    }
}

/// The base label of a channel: the user label verbatim if one was given,
/// else the shortened file path with the line number kept.
pub open spec fn spec_base_label(source: Seq<char>, provided: Option<Seq<char>>) -> Seq<char> {
    match provided {
        Some(l) => l,
        None => match find_last(source, ':') {
            Some(p) => spec_extract_filename(source.take(p)) + ":"@ + source.skip(p + 1),
            None => spec_extract_filename(source),
        },
    }
}

/// The resolved label: the base label, with `-{iter+1}` appended for every
/// channel after the first one created at the same source.
pub open spec fn spec_resolve_label(
    source: Seq<char>,
    provided: Option<Seq<char>>,
    iter: u32,
) -> Seq<char> {
    let base = spec_base_label(source, provided);
    if iter > 0 {
        base + "-"@ + spec_dec((iter + 1) as nat)
    } else {
        base
    }
}

/// See `spec_resolve_label`.
pub fn resolve_label(source: &str, provided: Option<&str>, iter: u32) -> (r: String)
    ensures
        r@ == spec_resolve_label(
            source@,
            match provided {
                Some(p) => Some(p@),
                None => None::<Seq<char>>,
            },
            iter,
        ),
{
    let mut base: String = match provided {
        Some(l) => l.to_owned(),
        None => match find_last_char(source, ':') {
            Some(p) => {
                proof {
                    lemma_find_last_props(source@, ':');
                }
                let path_part = source.substring_char(0, p);
                proof {
                    assert(path_part@ =~= source@.take(p as int));
                }
                let mut b = extract_filename(path_part);
                b.append(":");
                let n = source.unicode_len();
                let line_part = source.substring_char(p + 1, n);
                proof {
                    assert(line_part@ =~= source@.skip(p + 1));
                }
                b.append(line_part);
                b
            },
            None => extract_filename(source),
        },
    };
    if iter > 0 {
        base.append("-");
        let num = u64_to_string((iter as u64) + 1);
        base.append(num.as_str());
    }
    base
}

/// Left truncation to at most `max_len` characters, marking a removed head
/// with an ellipsis.
pub open spec fn spec_truncate_left(s: Seq<char>, max_len: nat) -> Seq<char> {
    if s.len() <= max_len {
        s
    } else {
        let keep = if max_len >= 3 {
            (max_len - 3) as nat
        } else {
            0nat
        };
        "..."@ + s.skip(s.len() - keep)
    }
}

/// See `spec_truncate_left`.
pub fn truncate_left(s: &str, max_len: usize) -> (r: String)
    ensures
        r@ == spec_truncate_left(s@, max_len as nat),
{
    let n = s.unicode_len();
    if n <= max_len {
        s.to_owned()
    } else {
        let keep = if max_len >= 3 {
            max_len - 3
        } else {
            0
        };
        let mut r = "...".to_owned();
        let tail = s.substring_char(n - keep, n);
        proof {
            assert(tail@ =~= s@.skip(s@.len() - keep));
        }
        r.append(tail);
        r
    }
}

/// 1024 to the `k`.
pub open spec fn pow1024(k: nat) -> nat
    decreases k,
{
    if k == 0 {
        1
    } else {
        1024 * pow1024((k - 1) as nat)
    }
}

/// The binary-SI unit a byte count is shown in: the largest of B, KB, MB,
/// GB, TB that keeps the integer part nonzero.
pub open spec fn spec_unit_index(n: u64) -> nat {
    if n < 1024 {
        0
    } else if n < 1048576 {
        1
    } else if n < 1073741824 {
        2
    } else if n < 1099511627776 {
        3
    } else {
        4
    }
}

/// The suffix for each unit.
pub open spec fn spec_unit_suffix(k: nat) -> Seq<char> {
    if k == 0 {
        "B"@
    } else if k == 1 {
        "KB"@
    } else if k == 2 {
        "MB"@
    } else if k == 3 {
        "GB"@
    } else {
        "TB"@
    }
}

/// `10 * n / p` rounded to the nearest integer, ties to even.
pub open spec fn spec_round_tenths(n: nat, p: nat) -> nat {
    let q = (10 * n) / p;
    let r = (10 * n) % p;
    if 2 * r > p {
        q + 1
    } else if 2 * r == p {
        if q % 2 == 1 {
            q + 1
        } else {
            q
        }
    } else {
        q
    }
}

/// Human-readable rendering of a byte count: the exact count below 1 KB,
/// otherwise one decimal place in the unit of `spec_unit_index`.
pub open spec fn spec_format_bytes(n: u64) -> Seq<char> {
    if n == 0 {
        "0 B"@
    } else {
        let k = spec_unit_index(n);
        if k == 0 {
            spec_dec(n as nat) + " B"@
        } else {
            let scaled = spec_round_tenths(n as nat, pow1024(k));
            spec_dec(scaled / 10) + "."@ + spec_dec(scaled % 10) + " "@ + spec_unit_suffix(k)
        }
    }
}

/// The suffix for each unit above bytes.
fn unit_suffix(k: usize) -> (r: &'static str)
    requires
        1 <= k <= 4,
    ensures
        r@ == spec_unit_suffix(k as nat),
{
    if k == 1 {
        "KB"
    } else if k == 2 {
        "MB"
    } else if k == 3 {
        "GB"
    } else {
        "TB"
    }
}

/// See `spec_format_bytes`.
pub fn format_bytes(bytes: u64) -> (r: String)
    ensures
        r@ == spec_format_bytes(bytes),
{
    if bytes == 0 {
        return "0 B".to_owned();
    }
    let mut k: usize = 0;
    let mut p: u64 = 1;
    while k < 4 && bytes >= p * 1024
        invariant
            k <= 4,
            p == pow1024(k as nat),
            bytes >= p,
            p <= 1099511627776,
        decreases 4 - k,
    {
        proof {
            assert(pow1024(0) == 1);
            assert(pow1024(1) == 1024);
            assert(pow1024(2) == 1048576);
            assert(pow1024(3) == 1073741824);
            assert(pow1024(4) == 1099511627776);
            assert(k == 0 || k == 1 || k == 2 || k == 3);
        }
        p = p * 1024;
        k = k + 1;
    }
    proof {
        assert(pow1024(0) == 1);
        assert(pow1024(1) == 1024);
        assert(pow1024(2) == 1048576);
        assert(pow1024(3) == 1073741824);
        assert(pow1024(4) == 1099511627776);
        assert(k == 0 || k == 1 || k == 2 || k == 3 || k == 4);
        assert(k == spec_unit_index(bytes));
    }
    if k == 0 {
        let mut r = u64_to_string(bytes);
        r.append(" B");
        return r;
    }
    let q = bytes / p;
    let rem = bytes % p;
    let t = rem * 10;
    let d0 = t / p;
    let r2 = t % p;
    proof {
        assert(10 * bytes == (10 * q + d0) * p + r2 && r2 < p && d0 < 10) by (nonlinear_arith)
            requires
                p > 0,
                q == bytes / p,
                rem == bytes % p,
                t == rem * 10,
                d0 == t / p,
                r2 == t % p,
        ;
        vstd::arithmetic::div_mod::lemma_fundamental_div_mod_converse(
            10 * bytes as int,
            p as int,
            10 * q + d0,
            r2 as int,
        );
        assert((10 * bytes) / (p as int) == 10 * q + d0);
        assert((10 * bytes) % (p as int) == r2);
    }
    let digit = if 2 * r2 > p {
        d0 + 1
    } else if 2 * r2 == p {
        if d0 % 2 == 1 {
            d0 + 1
        } else {
            d0
        }
    } else {
        d0
    };
    proof {
        assert(q < 16777216) by (nonlinear_arith)
            requires
                q == bytes / p,
                p == pow1024(spec_unit_index(bytes)),
                1 <= spec_unit_index(bytes) <= 4,
                pow1024(1) == 1024,
                pow1024(2) == 1048576,
                pow1024(3) == 1073741824,
                pow1024(4) == 1099511627776,
                bytes < 1048576 || spec_unit_index(bytes) >= 2,
                bytes < 1073741824 || spec_unit_index(bytes) >= 3,
                bytes < 1099511627776 || spec_unit_index(bytes) >= 4,
                bytes <= u64::MAX,
        ;
        assert(10 * q + digit == spec_round_tenths(bytes as nat, pow1024(k as nat)));
    }
    let scaled = q * 10 + digit;
    let mut r = u64_to_string(scaled / 10);
    r.append(".");
    let low = u64_to_string(scaled % 10);
    r.append(low.as_str());
    r.append(" ");
    r.append(unit_suffix(k));
    r
}

/// Character-for-character equality of two strings.
pub fn str_eq(a: &str, b: &str) -> (r: bool)
    ensures
        r == (a@ == b@),
{
    let n = a.unicode_len();
    if n != b.unicode_len() {
        proof {
            assert(a@ != b@);
        }
        return false;
    }
    let mut i: usize = 0;
    while i < n
        invariant
            i <= n,
            n == a@.len(),
            n == b@.len(),
            forall|j: int| 0 <= j < i ==> a@[j] == b@[j],
        decreases n - i,
    {
        if a.get_char(i) != b.get_char(i) {
            return false;
        }
        i = i + 1;
    }
    proof {
        assert(a@ =~= b@);
    }
    true
}

} // verus!
