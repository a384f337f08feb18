//! Character-level string utilities: equality, trimming, splitting, decimal
//! conversion and component-wise path prefix tests, each specified over
//! `Seq<char>` views.

use vstd::prelude::*;
use vstd::string::*;

verus! {

/// View of a vector of strings as a sequence of character sequences.
pub open spec fn strs_view(v: Seq<String>) -> Seq<Seq<char>> {
    v.map_values(|s: String| s@)
}

pub proof fn lemma_strs_view_push(v: Seq<String>, s: String)
    ensures
        strs_view(v.push(s)) =~= strs_view(v).push(s@),
{
}

/// Compare two string slices character by character.
pub fn str_eq_str(a: &str, b: &str) -> (r: bool)
    ensures
        r == (a@ == b@),
{
    let an = a.unicode_len();
    let bn = b.unicode_len();
    if an != bn {
        return false;
    }
    let mut i: usize = 0;
    while i < an
        invariant
            an == a@.len(),
            bn == b@.len(),
            an == bn,
            0 <= i <= an,
            forall|j: int| 0 <= j < i ==> a@[j] == b@[j],
        decreases an - i,
    {
        if a.get_char(i) != b.get_char(i) {
            return false;
        }
        i += 1;
    }
    proof {
        assert(a@ =~= b@);
    }
    true
}

/// The characters trimmed from both ends of a line before tokenization.
pub open spec fn is_wsp(c: char) -> bool {
    c == ' ' || c == '\t' || c == '\r' || c == '\n'
}

fn is_wsp_char(c: char) -> (r: bool)
    ensures
        r == is_wsp(c),
{
    c == ' ' || c == '\t' || c == '\r' || c == '\n'
}

pub open spec fn trim_start_spec(s: Seq<char>) -> Seq<char>
    decreases s.len(),
{
    if s.len() > 0 && is_wsp(s[0]) {
        trim_start_spec(s.drop_first())
    } else {
        s
    }
}

pub open spec fn trim_end_spec(s: Seq<char>) -> Seq<char>
    decreases s.len(),
{
    if s.len() > 0 && is_wsp(s.last()) {
        trim_end_spec(s.drop_last())
    } else {
        s
    }
}

/// Leading and trailing whitespace removed.
pub open spec fn trim_spec(s: Seq<char>) -> Seq<char> {
    trim_end_spec(trim_start_spec(s))
}

/// Strip leading and trailing whitespace.
pub fn trim(s: &str) -> (r: &str)
    ensures
        r@ == trim_spec(s@),
{
    let n = s.unicode_len();
    let mut lo: usize = 0;
    proof {
        assert(s@.skip(0) =~= s@);
    }
    while lo < n && is_wsp_char(s.get_char(lo))
        invariant
            n == s@.len(),
            0 <= lo <= n,
            trim_start_spec(s@) == trim_start_spec(s@.skip(lo as int)),
        decreases n - lo,
    {
        proof {
            assert(s@.skip(lo as int).drop_first() =~= s@.skip(lo as int + 1));
        }
        lo += 1;
    }
    proof {
        assert(trim_start_spec(s@.skip(lo as int)) == s@.skip(lo as int));
    }
    let mut hi: usize = n;
    while hi > lo && is_wsp_char(s.get_char(hi - 1))
        invariant
            n == s@.len(),
            0 <= lo <= hi <= n,
            trim_start_spec(s@) == s@.skip(lo as int),
            trim_end_spec(s@.skip(lo as int)) == trim_end_spec(s@.subrange(lo as int, hi as int)),
        decreases hi,
    {
        proof {
            assert(s@.subrange(lo as int, hi as int).drop_last() =~= s@.subrange(
                lo as int,
                hi as int - 1,
            ));
        }
        hi -= 1;
    }
    proof {
        assert(s@.skip(lo as int) =~= s@.subrange(lo as int, n as int));
        assert(trim_end_spec(s@.subrange(lo as int, hi as int)) == s@.subrange(
            lo as int,
            hi as int,
        ));
    }
    s.substring_char(lo, hi)
}

/// One step of splitting on two delimiter characters, keeping only non-empty
/// fragments: `cur` is the fragment being read, `acc` the fragments found.
pub open spec fn sep_tokens_fold(
    s: Seq<char>,
    d1: char,
    d2: char,
    cur: Seq<char>,
    acc: Seq<Seq<char>>,
) -> Seq<Seq<char>>
    decreases s.len(),
{
    if s.len() == 0 {
        if cur.len() == 0 {
            acc
        } else {
            acc.push(cur)
        }
    } else if s[0] == d1 || s[0] == d2 {
        if cur.len() == 0 {
            sep_tokens_fold(s.drop_first(), d1, d2, Seq::empty(), acc)
        } else {
            sep_tokens_fold(s.drop_first(), d1, d2, Seq::empty(), acc.push(cur))
        }
    } else {
        sep_tokens_fold(s.drop_first(), d1, d2, cur.push(s[0]), acc)
    }
}

/// The maximal runs of non-delimiter characters of `s`, in order. Empty
/// fragments (from leading, trailing or repeated delimiters) are dropped.
pub open spec fn sep_tokens(s: Seq<char>, d1: char, d2: char) -> Seq<Seq<char>> {
    sep_tokens_fold(s, d1, d2, Seq::empty(), Seq::empty())
}

/// Split on two delimiter characters, discarding empty fragments.
pub fn split_nonempty(s: &str, d1: char, d2: char) -> (r: Vec<String>)
    ensures
        strs_view(r@) == sep_tokens(s@, d1, d2),
{
    let n = s.unicode_len();
    let mut acc: Vec<String> = Vec::new();
    let mut start: usize = 0;
    let mut i: usize = 0;
    proof {
        assert(s@.skip(0) =~= s@);
        assert(s@.subrange(0, 0) =~= Seq::<char>::empty());
        assert(strs_view(acc@) =~= Seq::<Seq<char>>::empty());
    }
    while i < n
        invariant
            n == s@.len(),
            0 <= start <= i <= n,
            sep_tokens_fold(
                s@.skip(i as int),
                d1,
                d2,
                s@.subrange(start as int, i as int),
                strs_view(acc@),
            ) == sep_tokens(s@, d1, d2),
        decreases n - i,
    {
        let c = s.get_char(i);
        proof {
            assert(s@.skip(i as int)[0] == s@[i as int]);
            assert(s@.skip(i as int).drop_first() =~= s@.skip(i as int + 1));
        }
        if c == d1 || c == d2 {
            if start < i {
                let tok = s.substring_char(start, i).to_owned();
                proof {
                    lemma_strs_view_push(acc@, tok);
                    assert(s@.subrange(i as int + 1, i as int + 1) =~= Seq::<char>::empty());
                }
                acc.push(tok);
            } else {
                proof {
                    assert(s@.subrange(start as int, i as int) =~= Seq::<char>::empty());
                    assert(s@.subrange(i as int + 1, i as int + 1) =~= Seq::<char>::empty());
                }
            }
            i += 1;
            start = i;
        } else {
            proof {
                assert(s@.subrange(start as int, i as int).push(s@[i as int]) =~= s@.subrange(
                    start as int,
                    i as int + 1,
                ));
            }
            i += 1;
        }
    }
    proof {
        assert(s@.skip(n as int) =~= Seq::<char>::empty());
    }
    if start < n {
        let tok = s.substring_char(start, n).to_owned();
        proof {
            lemma_strs_view_push(acc@, tok);
        }
        acc.push(tok);
    } else {
        proof {
            assert(s@.subrange(start as int, n as int) =~= Seq::<char>::empty());
        }
    }
    acc
}

/// One step of terminator-style splitting on a delimiter: every delimiter
/// closes a fragment (interior empty fragments are kept), but a fragment
/// left open at the end of the string is dropped when empty.
pub open spec fn term_split_fold(s: Seq<char>, d: char, cur: Seq<char>, acc: Seq<Seq<char>>) -> Seq<
    Seq<char>,
>
    decreases s.len(),
{
    if s.len() == 0 {
        if cur.len() == 0 {
            acc
        } else {
            acc.push(cur)
        }
    } else if s[0] == d {
        term_split_fold(s.drop_first(), d, Seq::empty(), acc.push(cur))
    } else {
        term_split_fold(s.drop_first(), d, cur.push(s[0]), acc)
    }
}

/// Split on every occurrence of `d`; a trailing delimiter does not open a
/// final empty fragment, and an empty string has no fragments.
pub open spec fn term_split(s: Seq<char>, d: char) -> Seq<Seq<char>> {
    term_split_fold(s, d, Seq::empty(), Seq::empty())
}

/// Split on every `d`, dropping only a final empty fragment.
pub fn split_terminator(s: &str, d: char) -> (r: Vec<String>)
    ensures
        strs_view(r@) == term_split(s@, d),
{
    let n = s.unicode_len();
    let mut acc: Vec<String> = Vec::new();
    let mut start: usize = 0;
    let mut i: usize = 0;
    proof {
        assert(s@.skip(0) =~= s@);
        assert(s@.subrange(0, 0) =~= Seq::<char>::empty());
        assert(strs_view(acc@) =~= Seq::<Seq<char>>::empty());
    }
    while i < n
        invariant
            n == s@.len(),
            0 <= start <= i <= n,
            term_split_fold(
                s@.skip(i as int),
                d,
                s@.subrange(start as int, i as int),
                strs_view(acc@),
            ) == term_split(s@, d),
        decreases n - i,
    {
        let c = s.get_char(i);
        proof {
            assert(s@.skip(i as int)[0] == s@[i as int]);
            assert(s@.skip(i as int).drop_first() =~= s@.skip(i as int + 1));
        }
        if c == d {
            let tok = s.substring_char(start, i).to_owned();
            proof {
                lemma_strs_view_push(acc@, tok);
                assert(s@.subrange(i as int + 1, i as int + 1) =~= Seq::<char>::empty());
            }
            acc.push(tok);
            i += 1;
            start = i;
        } else {
            proof {
                assert(s@.subrange(start as int, i as int).push(s@[i as int]) =~= s@.subrange(
                    start as int,
                    i as int + 1,
                ));
            }
            i += 1;
        }
    }
    proof {
        assert(s@.skip(n as int) =~= Seq::<char>::empty());
    }
    if start < n {
        let tok = s.substring_char(start, n).to_owned();
        proof {
            lemma_strs_view_push(acc@, tok);
        }
        acc.push(tok);
    } else {
        proof {
            assert(s@.subrange(start as int, n as int) =~= Seq::<char>::empty());
        }
    }
    acc
}

/// Index of the first occurrence of `c` in `s`, if any.
pub open spec fn find_char_spec(s: Seq<char>, c: char) -> Option<int>
    decreases s.len(),
{
    if s.len() == 0 {
        None
    } else if s[0] == c {
        Some(0int)
    } else {
        match find_char_spec(s.drop_first(), c) {
            None => None,
            Some(i) => Some(i + 1),
        }
    }
}

pub proof fn lemma_find_char(s: Seq<char>, c: char)
    ensures
        match find_char_spec(s, c) {
            None => forall|j: int| 0 <= j < s.len() ==> s[j] != c,
            Some(i) => 0 <= i < s.len() && s[i] == c && forall|j: int| 0 <= j < i ==> s[j] != c,
        },
    decreases s.len(),
{
    if s.len() == 0 {
    } else if s[0] == c {
    } else {
        lemma_find_char(s.drop_first(), c);
        match find_char_spec(s.drop_first(), c) {
            None => {
                assert forall|j: int| 0 <= j < s.len() implies s[j] != c by {
                    if j > 0 {
                        assert(s.drop_first()[j - 1] != c);
                    }
                }
            },
            Some(i) => {
                assert(s.drop_first()[i] == c);
                assert forall|j: int| 0 <= j < i + 1 implies s[j] != c by {
                    if j > 0 {
                        assert(s.drop_first()[j - 1] != c);
                    }
                }
            },
        }
    }
}

/// The fragments of `s` around the first occurrence of `c`, if there is one.
pub open spec fn split_first_spec(s: Seq<char>, c: char) -> Option<(Seq<char>, Seq<char>)> {
    match find_char_spec(s, c) {
        None => None,
        Some(i) => Some((s.take(i), s.skip(i + 1))),
    }
}

/// Split at the first occurrence of `c`: the part before it and the part
/// after it, or `None` when `c` does not occur.
pub fn split_first(s: &str, c: char) -> (r: Option<(String, String)>)
    ensures
        match r {
            Some(p) => split_first_spec(s@, c) == Some((p.0@, p.1@)),
            None => split_first_spec(s@, c) is None,
        },
{
    let n = s.unicode_len();
    let mut i: usize = 0;
    while i < n
        invariant
            n == s@.len(),
            0 <= i <= n,
            forall|j: int| 0 <= j < i ==> s@[j] != c,
        decreases n - i,
    {
        if s.get_char(i) == c {
            proof {
                lemma_find_char(s@, c);
                match find_char_spec(s@, c) {
                    None => {
                        assert(s@[i as int] != c);
                    },
                    Some(k) => {
                        if k < i {
                            assert(s@[k] != c);
                        }
                        if k > i {
                            assert(s@[i as int] != c);
                        }
                    },
                }
            }
            let before = s.substring_char(0, i).to_owned();
            let after = s.substring_char(i + 1, n).to_owned();
            proof {
                assert(s@.take(i as int) =~= s@.subrange(0, i as int));
                assert(s@.skip(i as int + 1) =~= s@.subrange(i as int + 1, n as int));
            }
            return Some((before, after));
        }
        i += 1;
    }
    proof {
        lemma_find_char(s@, c);
        if let Some(k) = find_char_spec(s@, c) {
            assert(s@[k] != c);
        }
    }
    None
}

pub open spec fn is_dec_digit(c: char) -> bool {
    '0' <= c <= '9'
}

pub open spec fn dec_digit_val(c: char) -> int {
    c as int - '0' as int
}

pub open spec fn all_dec_digits(s: Seq<char>) -> bool {
    forall|i: int| 0 <= i < s.len() ==> is_dec_digit(s[i])
}

/// The number a run of decimal digits denotes, most significant first.
pub open spec fn dec_val(s: Seq<char>) -> int
    decreases s.len(),
{
    if s.len() == 0 {
        0
    } else {
        dec_val(s.drop_last()) * 10 + dec_digit_val(s.last())
    }
}

pub proof fn lemma_dec_val_nonneg(s: Seq<char>)
    requires
        all_dec_digits(s),
    ensures
        dec_val(s) >= 0,
    decreases s.len(),
{
    if s.len() > 0 {
        assert(all_dec_digits(s.drop_last()));
        lemma_dec_val_nonneg(s.drop_last());
    }
}

/// A digit run's value only grows as more digits follow.
pub proof fn lemma_dec_val_take_le(s: Seq<char>, k: int)
    requires
        all_dec_digits(s),
        0 <= k <= s.len(),
    ensures
        dec_val(s.take(k)) <= dec_val(s),
    decreases s.len(),
{
    if k < s.len() {
        assert(all_dec_digits(s.drop_last()));
        assert(s.drop_last().take(k) =~= s.take(k));
        lemma_dec_val_take_le(s.drop_last(), k);
        lemma_dec_val_nonneg(s.drop_last());
    } else {
        assert(s.take(k) =~= s);
    }
}

/// A non-empty run of decimal digits whose value is at most `max`: the
/// texts accepted as a numeric field.
pub open spec fn valid_dec_text(s: Seq<char>, max: int) -> bool {
    s.len() > 0 && all_dec_digits(s) && dec_val(s) <= max
}

/// Parse a run of decimal digits as a number no greater than `max`.
/// Fails on an empty string, on any non-digit character, and on overflow.
pub fn parse_dec_bounded(s: &str, max: u32) -> (r: Option<u32>)
    ensures
        match r {
            Some(v) => valid_dec_text(s@, max as int) && dec_val(s@) == v,
            None => !valid_dec_text(s@, max as int),
        },
{
    let n = s.unicode_len();
    if n == 0 {
        return None;
    }
    let mut acc: u64 = 0;
    let mut i: usize = 0;
    proof {
        assert(s@.take(0) =~= Seq::<char>::empty());
    }
    while i < n
        invariant
            n == s@.len(),
            0 <= i <= n,
            all_dec_digits(s@.take(i as int)),
            acc == dec_val(s@.take(i as int)),
            acc <= max,
        decreases n - i,
    {
        let c = s.get_char(i);
        let cv = c as u32;
        if cv < 48 || cv > 57 {
            proof {
                assert(!is_dec_digit(s@[i as int]));
            }
            return None;
        }
        let d = (cv - 48) as u64;
        proof {
            assert(s@.take(i as int + 1).drop_last() =~= s@.take(i as int));
            assert(s@.take(i as int + 1).last() == s@[i as int]);
        }
        let next = acc * 10 + d;
        if next > max as u64 {
            proof {
                if all_dec_digits(s@) {
                    lemma_dec_val_take_le(s@, i as int + 1);
                }
            }
            return None;
        }
        acc = next;
        i += 1;
    }
    proof {
        assert(s@.take(n as int) =~= s@);
    }
    Some(acc as u32)
}

/// The decimal digit character for `d`.
pub open spec fn digit_char(d: int) -> char {
    if d == 0 {
        '0'
    } else if d == 1 {
        '1'
    } else if d == 2 {
        '2'
    } else if d == 3 {
        '3'
    } else if d == 4 {
        '4'
    } else if d == 5 {
        '5'
    } else if d == 6 {
        '6'
    } else if d == 7 {
        '7'
    } else if d == 8 {
        '8'
    } else {
        '9'
    }
}

fn digit_to_char(d: u64) -> (r: char)
    requires
        d < 10,
    ensures
        r == digit_char(d as int),
{
    if d == 0 {
        '0'
    } else if d == 1 {
        '1'
    } else if d == 2 {
        '2'
    } else if d == 3 {
        '3'
    } else if d == 4 {
        '4'
    } else if d == 5 {
        '5'
    } else if d == 6 {
        '6'
    } else if d == 7 {
        '7'
    } else if d == 8 {
        '8'
    } else {
        '9'
    }
}

/// The decimal spelling of a non-negative number, most significant digit
/// first.
pub open spec fn dec_str(n: int) -> Seq<char>
    decreases n,
{
    if n <= 0 {
        seq!['0']
    } else if n < 10 {
        seq![digit_char(n)]
    } else {
        dec_str(n / 10).push(digit_char(n % 10))
    }
}

/// Relies on `String::push`: appends one character at the end.
#[verifier::external_body]
fn push_char(s: &mut String, c: char)
    ensures
        final(s)@ == old(s)@.push(c),
{
    s.push(c);
}

/// Render a number in decimal.
pub fn usize_to_string(n: usize) -> (r: String)
    ensures
        r@ == dec_str(n as int),
{
    let mut rev: Vec<char> = Vec::new();
    if n == 0 {
        rev.push('0');
        proof {
            assert(rev@.reverse() =~= dec_str(n as int));
        }
    } else {
        let mut m: u64 = n as u64;
        proof {
            assert(dec_str(n as int) =~= dec_str(m as int) + rev@.reverse());
        }
        while m > 0
            invariant
                if m > 0 {
                    dec_str(n as int) == dec_str(m as int) + rev@.reverse()
                } else {
                    dec_str(n as int) == rev@.reverse()
                },
            decreases m,
        {
            let d = m % 10;
            let c = digit_to_char(d);
            proof {
                assert((rev@.push(c)).reverse() =~= seq![c] + rev@.reverse());
                if m >= 10 {
                    assert(dec_str(m as int) == dec_str(m as int / 10).push(
                        digit_char(m as int % 10),
                    ));
                    assert(dec_str(m as int / 10).push(digit_char(m as int % 10)) + rev@.reverse()
                        =~= dec_str(m as int / 10) + (seq![c] + rev@.reverse()));
                } else {
                    assert(dec_str(m as int) == seq![digit_char(m as int)]);
                    assert(seq![digit_char(m as int)] + rev@.reverse() =~= seq![c]
                        + rev@.reverse());
                }
            }
            rev.push(c);
            m = m / 10;
        }
    }
    let mut out = String::new();
    let len = rev.len();
    let mut j: usize = 0;
    while j < len
        invariant
            len == rev@.len(),
            0 <= j <= len,
            out@ =~= rev@.reverse().take(j as int),
        decreases len - j,
    {
        push_char(&mut out, rev[len - 1 - j]);
        proof {
            assert(rev@.reverse()[j as int] == rev@[len - 1 - j as int]);
            assert(rev@.reverse().take(j as int + 1) =~= rev@.reverse().take(j as int).push(
                rev@.reverse()[j as int],
            ));
        }
        j += 1;
    }
    proof {
        assert(rev@.reverse().take(len as int) =~= rev@.reverse());
    }
    out
}

/// Whether a path begins at the filesystem root.
pub open spec fn path_is_abs(s: Seq<char>) -> bool {
    s.len() > 0 && s[0] == '/'
}

/// The non-empty `/`-separated components of a path.
pub open spec fn path_components(s: Seq<char>) -> Seq<Seq<char>> {
    sep_tokens(s, '/', '/')
}

/// Component-wise path containment: `p` names the same directory as `s` or
/// an ancestor of it. An absolute `p` only matches absolute paths; a
/// non-empty relative `p` only matches relative ones; `/var` does not match
/// `/variant`.
pub open spec fn is_path_prefix(p: Seq<char>, s: Seq<char>) -> bool {
    if path_is_abs(p) {
        path_is_abs(s) && path_components(p).is_prefix_of(path_components(s))
    } else if path_components(p).len() == 0 {
        true
    } else {
        !path_is_abs(s) && path_components(p).is_prefix_of(path_components(s))
    }
}

fn str_vec_is_prefix(p: &Vec<String>, s: &Vec<String>) -> (r: bool)
    ensures
        r == strs_view(p@).is_prefix_of(strs_view(s@)),
{
    if p.len() > s.len() {
        return false;
    }
    let mut i: usize = 0;
    while i < p.len()
        invariant
            p@.len() <= s@.len(),
            0 <= i <= p@.len(),
            forall|j: int| 0 <= j < i ==> strs_view(p@)[j] == strs_view(s@)[j],
        decreases p@.len() - i,
    {
        if !str_eq_str(p[i].as_str(), s[i].as_str()) {
            proof {
                assert(strs_view(p@)[i as int] != strs_view(s@)[i as int]);
            }
            return false;
        }
        i += 1;
    }
    proof {
        assert(strs_view(p@) =~= strs_view(s@).subrange(0, p@.len() as int));
    }
    true
}

fn str_is_abs(s: &str) -> (r: bool)
    ensures
        r == path_is_abs(s@),
{
    s.unicode_len() > 0 && s.get_char(0) == '/'
}

/// Does `path` lie at or below `prefix`, comparing whole path components?
pub fn path_starts_with(path: &str, prefix: &str) -> (r: bool)
    ensures
        r == is_path_prefix(prefix@, path@),
{
    let p_abs = str_is_abs(prefix);
    let s_abs = str_is_abs(path);
    let pc = split_nonempty(prefix, '/', '/');
    if p_abs {
        if !s_abs {
            return false;
        }
        let sc = split_nonempty(path, '/', '/');
        str_vec_is_prefix(&pc, &sc)
    } else if pc.len() == 0 {
        true
    } else if s_abs {
        false
    } else {
        let sc = split_nonempty(path, '/', '/');
        str_vec_is_prefix(&pc, &sc)
    }
}

} // verus!
