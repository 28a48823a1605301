//! The command-line surface the program validates: the shape of an
//! address-range argument and of a configuration-file path, and the parsed
//! argument record the surrounding code hands in.
use vstd::prelude::*;
use vstd::string::*;
use crate::addr::is_digit;

verus! {

broadcast use vstd::string::group_string_axioms;

/// The parsed command line: quiet flag, verbosity count, address range,
/// configuration path, output path.
#[derive(Debug, Clone)]
pub struct Args {
    pub quiet: bool,
    pub verbose: u64,
    pub network: String,
    pub path_config: String,
    pub path_output: String,
}

/// The number of consecutive decimal digits at position `i`.
pub open spec fn spec_digit_run(s: Seq<char>, i: int) -> int
    decreases s.len() - i,
{
    if 0 <= i < s.len() && is_digit(s[i]) {
        1 + spec_digit_run(s, i + 1)
    } else {
        0
    }
}

/// The shape of an address-range argument: four groups of one to three
/// decimal digits separated by dots, a slash, and a mask of either one
/// digit or a first digit 1 to 3 followed by one more — so a number up to
/// 39. The shape alone is checked, not the octets' values.
pub open spec fn spec_is_ipmask(s: Seq<char>) -> bool {
    let r1 = spec_digit_run(s, 0);
    let p1 = r1;
    let r2 = spec_digit_run(s, p1 + 1);
    let p2 = p1 + 1 + r2;
    let r3 = spec_digit_run(s, p2 + 1);
    let p3 = p2 + 1 + r3;
    let r4 = spec_digit_run(s, p3 + 1);
    let p4 = p3 + 1 + r4;
    &&& 1 <= r1 <= 3
    &&& p1 < s.len() && s[p1] == '.'
    &&& 1 <= r2 <= 3
    &&& p2 < s.len() && s[p2] == '.'
    &&& 1 <= r3 <= 3
    &&& p3 < s.len() && s[p3] == '.'
    &&& 1 <= r4 <= 3
    &&& p4 < s.len() && s[p4] == '/'
    &&& {
        ||| (s.len() == p4 + 2 && is_digit(s[p4 + 1]))
        ||| (s.len() == p4 + 3 && '1' <= s[p4 + 1] && s[p4 + 1] <= '3' && is_digit(s[p4 + 2]))
    }
}

/// A character the file-name part of a path may hold: a letter, a digit,
/// or an underscore.
pub open spec fn is_word_char(c: char) -> bool {
    ('a' <= c && c <= 'z') || ('A' <= c && c <= 'Z') || ('0' <= c && c <= '9') || c == '_'
}

/// A file name of word characters with the extension ".yaml".
pub open spec fn spec_is_yaml_name(s: Seq<char>) -> bool {
    &&& s.len() >= 6
    &&& forall|i: int| 0 <= i < s.len() - 5 ==> is_word_char(#[trigger] s[i])
    &&& s[s.len() - 5] == '.'
    &&& s[s.len() - 4] == 'y'
    &&& s[s.len() - 3] == 'a'
    &&& s[s.len() - 2] == 'm'
    &&& s[s.len() - 1] == 'l'
}

/// The shape of a configuration-file path: a file name of word characters
/// ending in ".yaml", either alone or after a final slash that has at
/// least one character before it.
pub open spec fn spec_is_file_yaml(s: Seq<char>) -> bool {
    ||| ((forall|m: int| 0 <= m < s.len() ==> #[trigger] s[m] != '/') && spec_is_yaml_name(s))
    ||| (exists|k: int|
        1 <= k < s.len() && #[trigger] s[k] == '/' && (forall|m: int|
            k < m < s.len() ==> s[m] != '/') && spec_is_yaml_name(s.skip(k + 1)))
}

/// Counts the consecutive decimal digits at position `i`.
fn digit_run_from(s: &str, len: usize, i: usize) -> (r: usize)
    requires
        len == s@.len(),
        i <= len,
    ensures
        r == spec_digit_run(s@, i as int),
        i + r <= len,
{
    let mut k = i;
    loop
        invariant_except_break
            len == s@.len(),
            i <= k <= len,
            spec_digit_run(s@, i as int) == (k - i) + spec_digit_run(s@, k as int),
        ensures
            i <= k <= len,
            spec_digit_run(s@, i as int) == k - i,
        decreases len - k,
    {
        if k >= len {
            proof {
                assert(spec_digit_run(s@, k as int) == 0);
            }
            break;
        }
        let u = s.get_char(k) as u32;
        if !(48 <= u && u <= 57) {
            proof {
                assert(spec_digit_run(s@, k as int) == 0);
            }
            break;
        }
        proof {
            assert(spec_digit_run(s@, k as int) == 1 + spec_digit_run(s@, k + 1));
        }
        k = k + 1;
    }
    k - i
}

/// Checks the shape of an address-range argument, as the command line
/// validates it.
pub fn is_ipmask(val: &str) -> (b: bool)
    ensures
        b == spec_is_ipmask(val@),
{
    let len = val.unicode_len();
    let r1 = digit_run_from(val, len, 0);
    if !(1 <= r1 && r1 <= 3) {
        return false;
    }
    let p1 = r1;
    if p1 >= len || val.get_char(p1) as u32 != 46 {
        return false;
    }
    let r2 = digit_run_from(val, len, p1 + 1);
    if !(1 <= r2 && r2 <= 3) {
        return false;
    }
    let p2 = p1 + 1 + r2;
    if p2 >= len || val.get_char(p2) as u32 != 46 {
        return false;
    }
    let r3 = digit_run_from(val, len, p2 + 1);
    if !(1 <= r3 && r3 <= 3) {
        return false;
    }
    let p3 = p2 + 1 + r3;
    if p3 >= len || val.get_char(p3) as u32 != 46 {
        return false;
    }
    let r4 = digit_run_from(val, len, p3 + 1);
    if !(1 <= r4 && r4 <= 3) {
        return false;
    }
    let p4 = p3 + 1 + r4;
    if p4 >= len || val.get_char(p4) as u32 != 47 {
        return false;
    }
    if len == p4 + 2 {
        let u = val.get_char(p4 + 1) as u32;
        48 <= u && u <= 57
    } else if len == p4 + 3 {
        let u1 = val.get_char(p4 + 1) as u32;
        let u2 = val.get_char(p4 + 2) as u32;
        49 <= u1 && u1 <= 51 && 48 <= u2 && u2 <= 57
    } else {
        false
    }
}

/// Checks that the text is a file name of word characters ending in
/// ".yaml".
fn is_yaml_name(s: &str, len: usize, from: usize) -> (b: bool)
    requires
        len == s@.len(),
        from <= len,
    ensures
        b == spec_is_yaml_name(s@.skip(from as int)),
{
    let ghost t = s@.skip(from as int);
    if len - from < 6 {
        return false;
    }
    let stem = len - 5;
    let mut i = from;
    while i < stem
        invariant
            len == s@.len(),
            from <= i <= stem,
            stem == len - 5,
            len - from >= 6,
            t == s@.skip(from as int),
            forall|m: int| 0 <= m < i - from ==> is_word_char(#[trigger] t[m]),
        decreases stem - i,
    {
        let c = s.get_char(i);
        let u = c as u32;
        proof {
            assert(t[i - from] == s@[i as int]);
        }
        if !((97 <= u && u <= 122) || (65 <= u && u <= 90) || (48 <= u && u <= 57) || u == 95) {
            return false;
        }
        i = i + 1;
    }
    proof {
        assert(t[t.len() - 5] == s@[len - 5]);
        assert(t[t.len() - 4] == s@[len - 4]);
        assert(t[t.len() - 3] == s@[len - 3]);
        assert(t[t.len() - 2] == s@[len - 2]);
        assert(t[t.len() - 1] == s@[len - 1]);
    }
    let c1 = s.get_char(stem) as u32;
    let c2 = s.get_char(stem + 1) as u32;
    let c3 = s.get_char(stem + 2) as u32;
    let c4 = s.get_char(stem + 3) as u32;
    let c5 = s.get_char(stem + 4) as u32;
    c1 == 46 && c2 == 121 && c3 == 97 && c4 == 109 && c5 == 108
}

/// Checks the shape of a configuration-file path, as the command line
/// validates it.
pub fn is_file_yaml(val: &str) -> (b: bool)
    ensures
        b == spec_is_file_yaml(val@),
{
    let len = val.unicode_len();
    let mut back = len;
    loop
        invariant_except_break
            len == val@.len(),
            back <= len,
            forall|m: int| back <= m < len ==> #[trigger] val@[m] != '/',
        ensures
            back <= len,
            forall|m: int| back <= m < len ==> #[trigger] val@[m] != '/',
            back == 0 || val@[back - 1] == '/',
        decreases back,
    {
        if back == 0 {
            break;
        }
        if val.get_char(back - 1) as u32 == 47 {
            proof {
                assert(val@[back - 1] == '/');
            }
            break;
        }
        back = back - 1;
    }
    if back == 0 {
        proof {
            assert(val@.skip(0) =~= val@);
        }
        is_yaml_name(val, len, 0)
    } else if back == 1 {
        proof {
            assert(val@[0] == '/');
            assert forall|k: int|
                1 <= k < val@.len() && #[trigger] val@[k] == '/' implies false by {}
        }
        false
    } else {
        let k = back - 1;
        proof {
            assert(val@[k as int] == '/');
            assert(1 <= k < val@.len());
        }
        let r = is_yaml_name(val, len, back);
        proof {
            if r {
                assert(spec_is_file_yaml(val@));
            } else {
                assert forall|k2: int|
                    1 <= k2 < val@.len() && #[trigger] val@[k2] == '/' implies !(forall|m: int|
                    k2 < m < val@.len() ==> val@[m] != '/') || !spec_is_yaml_name(
                    val@.skip(k2 + 1),
                ) by {
                    if k2 == k as int {
                    } else if k2 > k as int {
                        assert(val@[k2] != '/');
                    } else {
                        assert(k2 < k as int && val@[k as int] == '/');
                    }
                }
            }
        }
        r
    }
}

} // verus!
