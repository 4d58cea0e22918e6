//! Character-level string helpers with exact specifications.

use vstd::prelude::*;
use vstd::utf8::{decode_utf8, encode_utf8_decode_utf8, is_char_boundary};
use vstd::string::StringSliceAdditionalSpecFns;

verus! {

/// The Unicode `White_Space` property, which `char::is_whitespace` and
/// `str::trim` use.
pub open spec fn is_ws(c: char) -> bool {
    let u = c as u32;
    ||| 0x9 <= u <= 0xD
    ||| u == 0x20
    ||| u == 0x85
    ||| u == 0xA0
    ||| u == 0x1680
    ||| 0x2000 <= u <= 0x200A
    ||| u == 0x2028
    ||| u == 0x2029
    ||| u == 0x202F
    ||| u == 0x205F
    ||| u == 0x3000
}

/// `s` without its leading white space.
pub open spec fn trim_start(s: Seq<char>) -> Seq<char>
    decreases s.len(),
{
    if s.len() > 0 && is_ws(s[0]) {
        trim_start(s.drop_first())
    } else {
        s
    }
}

/// `s` without its trailing white space.
pub open spec fn trim_end(s: Seq<char>) -> Seq<char>
    decreases s.len(),
{
    if s.len() > 0 && is_ws(s.last()) {
        trim_end(s.drop_last())
    } else {
        s
    }
}

/// `s` without leading and trailing white space, as `str::trim` gives it.
pub open spec fn trim(s: Seq<char>) -> Seq<char> {
    trim_end(trim_start(s))
}

pub fn char_is_ws(c: char) -> (res: bool)
    ensures
        res == is_ws(c),
{
    let u = c as u32;
    (0x9 <= u && u <= 0xD) || u == 0x20 || u == 0x85 || u == 0xA0 || u == 0x1680 || (0x2000 <= u
        && u <= 0x200A) || u == 0x2028 || u == 0x2029 || u == 0x202F || u == 0x205F || u == 0x3000
}

/// `String::from_iter` over a slice of chars: the string holds exactly these chars.
#[verifier::external_body]
pub(crate) fn string_of(chars: &[char]) -> (res: String)
    ensures
        res@ == chars@,
{
    chars.iter().collect()
}

/// The chars of `s`, in order.
pub fn chars_of(s: &str) -> (res: Vec<char>)
    ensures
        res@ == s@,
{
    let n = s.unicode_len();
    let mut v: Vec<char> = Vec::new();
    let mut i: usize = 0;
    while i < n
        invariant
            n == s@.len(),
            i <= n,
            v@ == s@.take(i as int),
        decreases n - i,
    {
        v.push(s.get_char(i));
        i += 1;
        assert(v@ =~= s@.take(i as int));
    }
    assert(v@ =~= s@);
    v
}

/// The chars `v[lo..hi]`, in order.
pub fn sub_vec(v: &Vec<char>, lo: usize, hi: usize) -> (res: Vec<char>)
    requires
        lo <= hi <= v@.len(),
    ensures
        res@ == v@.subrange(lo as int, hi as int),
{
    let mut out: Vec<char> = Vec::new();
    let mut i: usize = lo;
    while i < hi
        invariant
            lo <= i <= hi <= v@.len(),
            out@ == v@.subrange(lo as int, i as int),
        decreases hi - i,
    {
        out.push(v[i]);
        i += 1;
        assert(out@ =~= v@.subrange(lo as int, i as int));
    }
    out
}

proof fn lemma_trim_start_skip(s: Seq<char>, k: int)
    requires
        0 <= k <= s.len(),
        forall|j: int| 0 <= j < k ==> is_ws(#[trigger] s[j]),
    ensures
        trim_start(s) == trim_start(s.skip(k)),
    decreases k,
{
    if k > 0 {
        assert(s.drop_first().skip(k - 1) =~= s.skip(k));
        lemma_trim_start_skip(s.drop_first(), k - 1);
    } else {
        assert(s.skip(0) =~= s);
    }
}

proof fn lemma_trim_end_take(s: Seq<char>, k: int)
    requires
        0 <= k <= s.len(),
        forall|j: int| k <= j < s.len() ==> is_ws(#[trigger] s[j]),
    ensures
        trim_end(s) == trim_end(s.take(k)),
    decreases s.len() - k,
{
    if k < s.len() {
        assert(s.drop_last().take(k) =~= s.take(k));
        lemma_trim_end_take(s.drop_last(), k);
    } else {
        assert(s.take(k) =~= s);
    }
}

proof fn lemma_trim_start_head(s: Seq<char>)
    ensures
        trim_start(s).len() == 0 || !is_ws(trim_start(s)[0]),
    decreases s.len(),
{
    if s.len() > 0 && is_ws(s[0]) {
        lemma_trim_start_head(s.drop_first());
    }
}

proof fn lemma_trim_end_prefix(s: Seq<char>)
    ensures
        trim_end(s).len() <= s.len(),
        trim_end(s) == s.take(trim_end(s).len() as int),
        trim_end(s).len() == 0 || !is_ws(trim_end(s).last()),
    decreases s.len(),
{
    if s.len() > 0 && is_ws(s.last()) {
        lemma_trim_end_prefix(s.drop_last());
        let r = trim_end(s.drop_last());
        assert(s.drop_last().take(r.len() as int) =~= s.take(r.len() as int));
    } else {
        assert(s.take(s.len() as int) =~= s);
    }
}

/// Trimming twice is trimming once.
pub proof fn lemma_trim_idempotent(s: Seq<char>)
    ensures
        trim(trim(s)) == trim(s),
{
    let u = trim_start(s);
    let v = trim_end(u);
    lemma_trim_start_head(s);
    lemma_trim_end_prefix(u);
    if v.len() > 0 {
        assert(v[0] == u[0]);
    }
    assert(trim_start(v) == v);
    assert(trim_end(v) == v);
}

/// The chars of `v` without leading and trailing white space.
pub fn trim_vec(v: &Vec<char>) -> (res: Vec<char>)
    ensures
        res@ == trim(v@),
{
    let n = v.len();
    let mut lo: usize = 0;
    while lo < n && char_is_ws(v[lo])
        invariant
            n == v@.len(),
            lo <= n,
            forall|j: int| 0 <= j < lo ==> is_ws(#[trigger] v@[j]),
        decreases n - lo,
    {
        lo += 1;
    }
    proof {
        lemma_trim_start_skip(v@, lo as int);
    }
    let mut hi: usize = n;
    while hi > lo && char_is_ws(v[hi - 1])
        invariant
            n == v@.len(),
            lo <= hi <= n,
            forall|j: int| hi <= j < n ==> is_ws(#[trigger] v@[j]),
        decreases hi,
    {
        hi -= 1;
    }
    let ghost t = v@.skip(lo as int);
    proof {
        assert(trim_start(t) == t);
        assert forall|j: int| hi - lo <= j < t.len() implies is_ws(#[trigger] t[j]) by {
            assert(t[j] == v@[lo + j]);
        }
        lemma_trim_end_take(t, hi - lo);
        let r = t.take(hi - lo);
        if r.len() > 0 {
            assert(r.last() == v@[hi - 1]);
        }
        assert(trim_end(r) == r);
        assert(r =~= v@.subrange(lo as int, hi as int));
    }
    sub_vec(v, lo, hi)
}

/// `s.trim()` as an owned string.
pub fn trim_str(s: &str) -> (res: String)
    ensures
        res@ == trim(s@),
{
    let v = chars_of(s);
    let t = trim_vec(&v);
    string_of(t.as_slice())
}

/// Whether two char vectors hold the same chars.
pub fn vec_eq(a: &Vec<char>, b: &Vec<char>) -> (res: bool)
    ensures
        res == (a@ == b@),
{
    if a.len() != b.len() {
        return false;
    }
    let n = a.len();
    let mut i: usize = 0;
    while i < n
        invariant
            n == a@.len(),
            n == b@.len(),
            i <= n,
            forall|j: int| 0 <= j < i ==> a@[j] == b@[j],
        decreases n - i,
    {
        if a[i] != b[i] {
            return false;
        }
        i += 1;
    }
    assert(a@ =~= b@);
    true
}

/// Whether two strings hold the same chars.
pub fn str_eq(a: &str, b: &str) -> (res: bool)
    ensures
        res == (a@ == b@),
{
    let va = chars_of(a);
    let vb = chars_of(b);
    vec_eq(&va, &vb)
}

/// `s` without the trailing chars equal to `c` (`str::trim_end_matches` with a char).
pub open spec fn trim_end_char(s: Seq<char>, c: char) -> Seq<char>
    decreases s.len(),
{
    if s.len() > 0 && s.last() == c {
        trim_end_char(s.drop_last(), c)
    } else {
        s
    }
}

proof fn lemma_trim_end_char_take(s: Seq<char>, k: int, c: char)
    requires
        0 <= k <= s.len(),
        forall|j: int| k <= j < s.len() ==> #[trigger] s[j] == c,
    ensures
        trim_end_char(s, c) == trim_end_char(s.take(k), c),
    decreases s.len() - k,
{
    if k < s.len() {
        assert(s.drop_last().take(k) =~= s.take(k));
        lemma_trim_end_char_take(s.drop_last(), k, c);
    } else {
        assert(s.take(k) =~= s);
    }
}

/// `s.trim_end_matches(c)` as an owned string.
pub fn trim_end_char_str(s: &str, c: char) -> (res: String)
    ensures
        res@ == trim_end_char(s@, c),
{
    let v = chars_of(s);
    let mut hi: usize = v.len();
    while hi > 0 && v[hi - 1] == c
        invariant
            hi <= v@.len(),
            forall|j: int| hi <= j < v@.len() ==> #[trigger] v@[j] == c,
        decreases hi,
    {
        hi -= 1;
    }
    proof {
        lemma_trim_end_char_take(v@, hi as int, c);
        let r = v@.take(hi as int);
        if r.len() > 0 {
            assert(r.last() == v@[hi - 1]);
        }
        assert(v@.subrange(0, hi as int) =~= r);
    }
    let t = sub_vec(&v, 0, hi);
    string_of(t.as_slice())
}

/// The concatenation of `a` and `b`.
pub fn concat2(a: &str, b: &str) -> (res: String)
    ensures
        res@ == a@ + b@,
{
    let mut s = a.to_owned();
    s.append(b);
    s
}

/// The concatenation of `a`, `b` and `c`.
pub fn concat3(a: &str, b: &str, c: &str) -> (res: String)
    ensures
        res@ == a@ + b@ + c@,
{
    let mut s = a.to_owned();
    s.append(b);
    s.append(c);
    s
}

/// The concatenation of `a`, `b`, `c` and `d`.
pub fn concat4(a: &str, b: &str, c: &str, d: &str) -> (res: String)
    ensures
        res@ == a@ + b@ + c@ + d@,
{
    let mut s = a.to_owned();
    s.append(b);
    s.append(c);
    s.append(d);
    s
}

/// The maximal suffix of `s` that holds no `/`.
pub open spec fn last_segment(s: Seq<char>) -> Seq<char>
    decreases s.len(),
{
    if s.len() == 0 || s.last() == '/' {
        Seq::empty()
    } else {
        last_segment(s.drop_last()).push(s.last())
    }
}

/// The final component of a `/`-separated path, as `Path::file_name` gives it
/// on Unix: trailing separators and `.` components are skipped, and a path
/// that ends in `..` or has no normal component has no file name.
pub open spec fn file_name(s: Seq<char>) -> Option<Seq<char>>
    decreases s.len(),
{
    if s.len() > 0 && s.last() == '/' {
        file_name(s.drop_last())
    } else {
        let c = last_segment(s);
        if c.len() == 0 {
            None
        } else if c == seq!['.'] {
            file_name(s.take(s.len() - 1))
        } else if c == seq!['.', '.'] {
            None
        } else {
            Some(c)
        }
    }
}

proof fn lemma_last_segment_len(s: Seq<char>)
    ensures
        last_segment(s).len() <= s.len(),
    decreases s.len(),
{
    if s.len() > 0 && s.last() != '/' {
        lemma_last_segment_len(s.drop_last());
    }
}

proof fn lemma_last_segment(s: Seq<char>, lo: int)
    requires
        0 <= lo <= s.len(),
        forall|j: int| lo <= j < s.len() ==> #[trigger] s[j] != '/',
        lo == 0 || s[lo - 1] == '/',
    ensures
        last_segment(s) == s.subrange(lo, s.len() as int),
    decreases s.len(),
{
    if s.len() == lo {
        assert(s.subrange(lo, s.len() as int) =~= Seq::<char>::empty());
        if s.len() > 0 {
            assert(s.last() == s[lo - 1]);
        }
    } else {
        lemma_last_segment(s.drop_last(), lo);
        assert(s.subrange(lo, s.len() as int) =~= s.drop_last().subrange(lo, s.len() - 1).push(
            s.last(),
        ));
    }
}

/// A string without `/` is its own last segment.
pub proof fn lemma_no_slash_segment(s: Seq<char>)
    requires
        forall|j: int| 0 <= j < s.len() ==> #[trigger] s[j] != '/',
    ensures
        last_segment(s) == s,
{
    lemma_last_segment(s, 0);
    assert(s.subrange(0, s.len() as int) =~= s);
}

/// `Path::new(s).file_name()` on a `/`-separated path.
pub fn path_file_name(s: &str) -> (res: Option<Vec<char>>)
    ensures
        match res {
            Some(v) => file_name(s@) == Some(v@),
            None => file_name(s@) is None,
        },
{
    let v = chars_of(s);
    let mut hi: usize = v.len();
    assert(v@.take(hi as int) =~= v@);
    loop
        invariant
            v@ == s@,
            hi <= v@.len(),
            file_name(v@) == file_name(v@.take(hi as int)),
        decreases hi,
    {
        let ghost h0 = hi;
        while hi > 0 && v[hi - 1] == '/'
            invariant
                hi <= h0 <= v@.len(),
                file_name(v@) == file_name(v@.take(hi as int)),
            decreases hi,
        {
            proof {
                let t = v@.take(hi as int);
                assert(t.last() == v@[hi - 1]);
                assert(t.drop_last() =~= v@.take(hi - 1));
            }
            hi -= 1;
        }
        let ghost t = v@.take(hi as int);
        proof {
            if hi > 0 {
                assert(t.last() == v@[hi - 1]);
            }
        }
        if hi == 0 {
            proof {
                assert(t.len() == 0);
                assert(last_segment(t).len() == 0);
            }
            return None;
        }
        let mut lo: usize = hi;
        while lo > 0 && v[lo - 1] != '/'
            invariant
                lo <= hi <= v@.len(),
                forall|j: int| lo <= j < hi ==> #[trigger] v@[j] != '/',
            decreases lo,
        {
            lo -= 1;
        }
        proof {
            assert forall|j: int| lo <= j < t.len() implies #[trigger] t[j] != '/' by {
                assert(t[j] == v@[j]);
            }
            if lo > 0 {
                assert(t[lo - 1] == v@[lo - 1]);
            }
            lemma_last_segment(t, lo as int);
            assert(t.subrange(lo as int, hi as int) =~= v@.subrange(lo as int, hi as int));
        }
        let seg = sub_vec(&v, lo, hi);
        let n = seg.len();
        if n == 1 && seg[0] == '.' {
            proof {
                assert(seg@ =~= seq!['.']);
                assert(t.take(t.len() - 1) =~= v@.take(lo as int));
            }
            hi = lo;
        } else if n == 2 && seg[0] == '.' && seg[1] == '.' {
            proof {
                assert(seg@ =~= seq!['.', '.']);
            }
            return None;
        } else {
            proof {
                assert(seg@ != seq!['.']) by {
                    if n == 1 {
                        assert(seq!['.'][0] == '.');
                    }
                }
                assert(seg@ != seq!['.', '.']) by {
                    if n == 2 {
                        assert(seq!['.', '.'][0] == '.');
                        assert(seq!['.', '.'][1] == '.');
                    }
                }
            }
            return Some(seg);
        }
    }
}

/// The char of decimal digit `d`.
pub open spec fn digit_char(d: nat) -> char {
    (48 + d) as char
}

/// The decimal digits of `n`, most significant first, as `to_string` writes them.
pub open spec fn dec(n: nat) -> Seq<char>
    decreases n,
{
    if n < 10 {
        seq![digit_char(n)]
    } else {
        dec(n / 10).push(digit_char(n % 10))
    }
}

/// The decimal text of a signed number, as `to_string` writes it.
pub open spec fn dec_int(n: int) -> Seq<char> {
    if n < 0 {
        seq!['-'] + dec((-n) as nat)
    } else {
        dec(n as nat)
    }
}

fn digit(d: u64) -> (c: char)
    requires
        d < 10,
    ensures
        c == digit_char(d as nat),
{
    let b: u8 = 48 + d as u8;
    b as char
}

/// The decimal digits of `n`.
pub fn dec_vec(n: u64) -> (res: Vec<char>)
    ensures
        res@ == dec(n as nat),
    decreases n,
{
    if n < 10 {
        let mut v: Vec<char> = Vec::new();
        v.push(digit(n));
        assert(v@ =~= seq![digit_char(n as nat)]);
        v
    } else {
        let mut v = dec_vec(n / 10);
        v.push(digit(n % 10));
        v
    }
}

/// `n.to_string()` for an unsigned number.
pub fn u64_text(n: u64) -> (res: String)
    ensures
        res@ == dec(n as nat),
{
    let v = dec_vec(n);
    string_of(v.as_slice())
}

/// `n.to_string()` for a signed number.
pub fn i64_text(n: i64) -> (res: String)
    ensures
        res@ == dec_int(n as int),
{
    if n < 0 {
        let m: u64 = (-(n + 1)) as u64 + 1;
        let mut v: Vec<char> = Vec::new();
        v.push('-');
        let d = dec_vec(m);
        let mut i: usize = 0;
        while i < d.len()
            invariant
                i <= d@.len(),
                v@ == seq!['-'] + d@.take(i as int),
            decreases d@.len() - i,
        {
            v.push(d[i]);
            i += 1;
            assert(v@ =~= seq!['-'] + d@.take(i as int));
        }
        assert(d@.take(d@.len() as int) =~= d@);
        string_of(v.as_slice())
    } else {
        u64_text(n as u64)
    }
}

pub open spec fn is_digit(c: char) -> bool {
    '0' <= c <= '9'
}

/// The number that a string of decimal digits denotes.
pub open spec fn digits_value(s: Seq<char>) -> nat
    decreases s.len(),
{
    if s.len() == 0 {
        0
    } else {
        digits_value(s.drop_last()) * 10 + ((s.last() as nat) - 48) as nat
    }
}

pub open spec fn all_digits(s: Seq<char>) -> bool {
    forall|i: int| 0 <= i < s.len() ==> is_digit(#[trigger] s[i])
}

/// `s.parse::<u64>()`: an optional `+` and one or more ASCII digits whose value fits.
pub open spec fn parse_u64(s: Seq<char>) -> Option<u64> {
    let d = if s.len() > 0 && s[0] == '+' {
        s.drop_first()
    } else {
        s
    };
    if d.len() == 0 || !all_digits(d) || digits_value(d) > u64::MAX {
        None
    } else {
        Some(digits_value(d) as u64)
    }
}

/// `s.parse::<i64>()`: an optional sign and one or more ASCII digits whose
/// value fits.
pub open spec fn parse_i64(s: Seq<char>) -> Option<i64> {
    let neg = s.len() > 0 && s[0] == '-';
    let d = if s.len() > 0 && (s[0] == '-' || s[0] == '+') {
        s.drop_first()
    } else {
        s
    };
    let v: int = if neg {
        -(digits_value(d) as int)
    } else {
        digits_value(d) as int
    };
    if d.len() == 0 || !all_digits(d) || v < i64::MIN || v > i64::MAX {
        None
    } else {
        Some(v as i64)
    }
}

proof fn lemma_digits_value_push(s: Seq<char>, c: char)
    ensures
        digits_value(s.push(c)) == digits_value(s) * 10 + ((c as nat) - 48) as nat,
{
    assert(s.push(c).drop_last() =~= s);
}

/// The value of the digits `d[lo..]`, or `None` where it exceeds `cap`
/// (`cap` at most 2^64), or some char is not a digit.
fn digits_capped(d: &Vec<char>, lo: usize, cap: u128) -> (res: Option<u128>)
    requires
        lo <= d@.len(),
        cap <= 0x1_0000_0000_0000_0000,
    ensures
        match res {
            Some(v) => all_digits(d@.skip(lo as int)) && v == digits_value(d@.skip(lo as int)) && v
                <= cap,
            None => !all_digits(d@.skip(lo as int)) || digits_value(d@.skip(lo as int)) > cap,
        },
{
    let ghost t = d@.skip(lo as int);
    let mut acc: u128 = 0;
    let mut i: usize = lo;
    let mut over = false;
    while i < d.len()
        invariant
            lo <= i <= d@.len(),
            t == d@.skip(lo as int),
            cap <= 0x1_0000_0000_0000_0000,
            all_digits(d@.subrange(lo as int, i as int)),
            !over ==> acc == digits_value(d@.subrange(lo as int, i as int)) && acc <= cap,
            over ==> digits_value(d@.subrange(lo as int, i as int)) > cap,
        decreases d@.len() - i,
    {
        let c = d[i];
        if !('0' <= c && c <= '9') {
            proof {
                assert(t[i - lo] == c);
            }
            return None;
        }
        proof {
            let p = d@.subrange(lo as int, i as int);
            assert(d@.subrange(lo as int, i + 1) =~= p.push(c));
            lemma_digits_value_push(p, c);
        }
        if !over {
            let dv: u128 = (c as u32 - 48) as u128;
            let next = acc * 10 + dv;
            if next > cap {
                over = true;
            } else {
                acc = next;
            }
        }
        i += 1;
    }
    assert(d@.subrange(lo as int, d@.len() as int) =~= t);
    if over {
        None
    } else {
        Some(acc)
    }
}

/// `s.parse::<u64>().ok()`.
pub fn parse_u64_str(s: &str) -> (res: Option<u64>)
    ensures
        res == parse_u64(s@),
{
    let v = chars_of(s);
    let lo: usize = if v.len() > 0 && v[0] == '+' {
        1
    } else {
        0
    };
    proof {
        if lo == 1 {
            assert(v@.skip(1) =~= v@.drop_first());
        } else {
            assert(v@.skip(0) =~= v@);
        }
    }
    if lo == v.len() {
        return None;
    }
    match digits_capped(&v, lo, 0xFFFF_FFFF_FFFF_FFFF) {
        Some(x) => Some(x as u64),
        None => None,
    }
}

/// `s.parse::<i64>().ok()`.
pub fn parse_i64_str(s: &str) -> (res: Option<i64>)
    ensures
        res == parse_i64(s@),
{
    let v = chars_of(s);
    let neg = v.len() > 0 && v[0] == '-';
    let lo: usize = if v.len() > 0 && (v[0] == '-' || v[0] == '+') {
        1
    } else {
        0
    };
    proof {
        if lo == 1 {
            assert(v@.skip(1) =~= v@.drop_first());
        } else {
            assert(v@.skip(0) =~= v@);
        }
    }
    if lo == v.len() {
        return None;
    }
    let cap: u128 = if neg {
        0x8000_0000_0000_0000
    } else {
        0x7FFF_FFFF_FFFF_FFFF
    };
    match digits_capped(&v, lo, cap) {
        Some(x) => {
            if neg {
                if x == 0x8000_0000_0000_0000 {
                    Some(i64::MIN)
                } else {
                    Some(-(x as i64))
                }
            } else {
                Some(x as i64)
            }
        },
        None => None,
    }
}

/// `c.to_ascii_lowercase()`.
pub open spec fn lower_char(c: char) -> char {
    if 'A' <= c <= 'Z' {
        ((c as u32) + 32) as char
    } else {
        c
    }
}

/// `s.to_ascii_lowercase()`.
pub open spec fn ascii_lower(s: Seq<char>) -> Seq<char> {
    s.map_values(|c: char| lower_char(c))
}

/// `s.to_ascii_lowercase()`.
pub fn ascii_lower_str(s: &str) -> (res: String)
    ensures
        res@ == ascii_lower(s@),
{
    let v = chars_of(s);
    let mut out: Vec<char> = Vec::new();
    let mut i: usize = 0;
    while i < v.len()
        invariant
            i <= v@.len(),
            out@ == ascii_lower(v@.take(i as int)),
        decreases v@.len() - i,
    {
        let c = v[i];
        let l = if 'A' <= c && c <= 'Z' {
            let b: u8 = c as u8 + 32;
            b as char
        } else {
            c
        };
        out.push(l);
        i += 1;
        assert(out@ =~= ascii_lower(v@.take(i as int)));
    }
    assert(v@.take(v@.len() as int) =~= v@);
    string_of(out.as_slice())
}

/// `s.starts_with(p)`.
pub open spec fn starts_with(s: Seq<char>, p: Seq<char>) -> bool {
    p.len() <= s.len() && s.take(p.len() as int) == p
}

/// `s.starts_with(p)`.
pub fn starts_with_str(s: &str, p: &str) -> (res: bool)
    ensures
        res == starts_with(s@, p@),
{
    let v = chars_of(s);
    let w = chars_of(p);
    if w.len() > v.len() {
        return false;
    }
    let mut i: usize = 0;
    while i < w.len()
        invariant
            v@ == s@,
            w@ == p@,
            w@.len() <= v@.len(),
            i <= w@.len(),
            forall|j: int| 0 <= j < i ==> v@[j] == w@[j],
        decreases w@.len() - i,
    {
        if v[i] != w[i] {
            assert(v@.take(w@.len() as int)[i as int] != w@[i as int]);
            return false;
        }
        i += 1;
    }
    assert(v@.take(w@.len() as int) =~= w@);
    true
}

/// `s.contains(p)`.
pub open spec fn contains_sub(s: Seq<char>, p: Seq<char>) -> bool {
    exists|i: int| 0 <= i && i + p.len() <= s.len() && #[trigger] s.subrange(i, i + p.len()) == p
}

/// `s.contains(p)`.
pub fn contains_str(s: &str, p: &str) -> (res: bool)
    ensures
        res == contains_sub(s@, p@),
{
    let v = chars_of(s);
    let w = chars_of(p);
    if w.len() > v.len() {
        return false;
    }
    let mut i: usize = 0;
    while w.len() <= v.len() - i
        invariant
            v@ == s@,
            w@ == p@,
            i <= v@.len(),
            forall|k: int| 0 <= k < i ==> #[trigger] v@.subrange(k, k + w@.len()) != w@,
        decreases v@.len() - i,
    {
        let seg = sub_vec(&v, i, i + w.len());
        if vec_eq(&seg, &w) {
            assert(v@.subrange(i as int, i + w@.len()) == w@);
            return true;
        }
        proof {
            if w@.len() == 0 {
                assert(seg@ =~= w@);
            }
        }
        i += 1;
    }
    assert forall|k: int| 0 <= k && k + p@.len() <= s@.len() implies #[trigger] s@.subrange(k, k + p@.len()) != p@ by {
        assert(k < i);
    }
    false
}

/// A key shown with its middle hidden: keys of at most `limit` bytes become
/// `sk-****`; longer ones keep their first `head` and last 4 bytes around `****`.
pub open spec fn masked(bytes: Seq<u8>, limit: nat, head: nat) -> Seq<char> {
    if bytes.len() <= limit {
        "sk-****"@
    } else {
        decode_utf8(bytes.take(head as int)) + "****"@ + decode_utf8(bytes.skip(bytes.len() - 4))
    }
}

/// Slicing `s` at `head` and at 4 bytes from the end is defined: both cuts fall
/// on char boundaries (the mask is cut by bytes).
pub open spec fn mask_slices_ok(s: &str, limit: nat, head: nat) -> bool {
    s.spec_bytes().len() <= limit || (is_char_boundary(s.spec_bytes(), head as int)
        && is_char_boundary(s.spec_bytes(), s.spec_bytes().len() - 4))
}

/// Hides the middle of a key for display.
pub fn mask_secret(s: &str, limit: usize, head: usize) -> (res: String)
    requires
        4 <= limit,
        head <= limit,
        s.spec_bytes().len() <= usize::MAX,
        mask_slices_ok(s, limit as nat, head as nat),
    ensures
        res@ == masked(s.spec_bytes(), limit as nat, head as nat),
{
    let n = s.len();
    if n <= limit {
        return "sk-****".to_owned();
    }
    let (a, _) = s.split_at(head);
    let (_, b) = s.split_at(n - 4);
    proof {
        encode_utf8_decode_utf8(a@);
        encode_utf8_decode_utf8(b@);
        assert(s.spec_bytes().take(head as int) =~= s.spec_bytes().subrange(0, head as int));
        assert(s.spec_bytes().skip(n - 4) =~= s.spec_bytes().subrange(n - 4, n as int));
    }
    concat3(a, "****", b)
}

/// A byte that `encode_path_segment` keeps as it is.
pub open spec fn unreserved(b: u8) -> bool {
    (65 <= b <= 90) || (97 <= b <= 122) || (48 <= b <= 57) || b == 45 || b == 95 || b == 46 || b == 126
}

/// An upper-case hexadecimal digit.
pub open spec fn hex_digit(d: nat) -> char {
    if d < 10 {
        (48 + d) as char
    } else {
        (55 + d) as char
    }
}

/// One byte of a path segment: itself where unreserved, else `%XX`.
pub open spec fn encode_byte(b: u8) -> Seq<char> {
    if unreserved(b) {
        seq![b as char]
    } else {
        seq!['%', hex_digit((b / 16) as nat), hex_digit((b % 16) as nat)]
    }
}

/// The percent-encoding of a byte string, byte by byte.
pub open spec fn encode_bytes(b: Seq<u8>) -> Seq<char>
    decreases b.len(),
{
    if b.len() == 0 {
        Seq::empty()
    } else {
        encode_bytes(b.drop_last()) + encode_byte(b.last())
    }
}

/// The value of an upper-case hexadecimal digit (0 for any other char).
pub open spec fn hex_value(c: char) -> nat {
    if '0' <= c <= '9' {
        (c as nat - 48) as nat
    } else if 'A' <= c <= 'F' {
        (c as nat - 55) as nat
    } else {
        0
    }
}

/// Percent-decoding: `%XY` gives the byte `XY`, any other char its own code.
pub open spec fn percent_decode(s: Seq<char>) -> Seq<u8>
    decreases s.len(),
{
    if s.len() == 0 {
        Seq::empty()
    } else if s[0] == '%' && s.len() >= 3 {
        seq![(hex_value(s[1]) * 16 + hex_value(s[2])) as u8] + percent_decode(s.skip(3))
    } else {
        seq![s[0] as u8] + percent_decode(s.drop_first())
    }
}

proof fn lemma_encode_bytes_concat(a: Seq<u8>, b: Seq<u8>)
    ensures
        encode_bytes(a + b) == encode_bytes(a) + encode_bytes(b),
    decreases b.len(),
{
    if b.len() == 0 {
        assert(a + b =~= a);
        assert(encode_bytes(a) + encode_bytes(b) =~= encode_bytes(a));
    } else {
        assert((a + b).drop_last() =~= a + b.drop_last());
        assert((a + b).last() == b.last());
        lemma_encode_bytes_concat(a, b.drop_last());
        assert(encode_bytes(a) + encode_bytes(b.drop_last()) + encode_byte(b.last()) =~= encode_bytes(a)
            + (encode_bytes(b.drop_last()) + encode_byte(b.last())));
    }
}

proof fn lemma_decode_byte(x: u8, rest: Seq<char>)
    ensures
        percent_decode(encode_byte(x) + rest) == seq![x] + percent_decode(rest),
{
    let e = encode_byte(x) + rest;
    if unreserved(x) {
        assert(e[0] == x as char);
        assert(e.drop_first() =~= rest);
        assert((x as char) as u8 == x);
    } else {
        let hi = (x / 16) as nat;
        let lo = (x % 16) as nat;
        assert(e[0] == '%');
        assert(e[1] == hex_digit(hi));
        assert(e[2] == hex_digit(lo));
        assert(hex_value(hex_digit(hi)) == hi);
        assert(hex_value(hex_digit(lo)) == lo);
        assert(hi * 16 + lo == x);
        assert(e.skip(3) =~= rest);
    }
}

/// Percent-decoding a path segment gives back its bytes exactly.
pub proof fn law_percent_round_trip(b: Seq<u8>)
    ensures
        percent_decode(encode_bytes(b)) == b,
    decreases b.len(),
{
    if b.len() > 0 {
        let rest = b.drop_first();
        assert(b =~= seq![b[0]] + rest);
        lemma_encode_bytes_concat(seq![b[0]], rest);
        assert(seq![b[0]].drop_last() =~= Seq::<u8>::empty());
        assert(seq![b[0]].last() == b[0]);
        assert(encode_bytes(Seq::<u8>::empty()) == Seq::<char>::empty());
        assert(encode_bytes(seq![b[0]]) == encode_bytes(Seq::<u8>::empty()) + encode_byte(b[0]));
        assert(encode_bytes(seq![b[0]]) =~= encode_byte(b[0]));
        lemma_decode_byte(b[0], encode_bytes(rest));
        law_percent_round_trip(rest);
    }
}

/// An encoded path segment never holds `/`, so it stays one segment.
pub proof fn law_encoded_has_no_slash(b: Seq<u8>)
    ensures
        forall|i: int| 0 <= i < encode_bytes(b).len() ==> encode_bytes(b)[i] != '/',
    decreases b.len(),
{
    if b.len() > 0 {
        law_encoded_has_no_slash(b.drop_last());
        let e = encode_byte(b.last());
        let p = encode_bytes(b.drop_last());
        assert forall|i: int| 0 <= i < e.len() implies e[i] != '/' by {
            if !unreserved(b.last()) {
                let hi = (b.last() / 16) as nat;
                let lo = (b.last() % 16) as nat;
                assert(e[1] == hex_digit(hi) && e[2] == hex_digit(lo));
            }
        }
        assert forall|i: int| 0 <= i < encode_bytes(b).len() implies encode_bytes(b)[i] != '/' by {
            if i < p.len() {
                assert(encode_bytes(b)[i] == p[i]);
            } else {
                assert(encode_bytes(b)[i] == e[i - p.len()]);
            }
        }
    }
}

fn hex(d: u8) -> (c: char)
    requires
        d < 16,
    ensures
        c == hex_digit(d as nat),
{
    if d < 10 {
        let b: u8 = 48 + d;
        b as char
    } else {
        let b: u8 = 55 + d;
        b as char
    }
}

/// Percent-encodes `value` for use as one URL path segment: unreserved ASCII
/// (letters, digits, `-`, `_`, `.`, `~`) stays, every other byte of its UTF-8
/// form becomes `%XX` with upper-case hex.
pub fn encode_path_segment(value: &str) -> (res: String)
    ensures
        res@ == encode_bytes(value.spec_bytes()),
{
    let bytes = value.as_bytes();
    let mut out: Vec<char> = Vec::new();
    let mut i: usize = 0;
    while i < bytes.len()
        invariant
            bytes@ == value.spec_bytes(),
            i <= bytes@.len(),
            out@ == encode_bytes(bytes@.take(i as int)),
        decreases bytes@.len() - i,
    {
        let b = bytes[i];
        proof {
            assert(bytes@.take(i + 1).drop_last() =~= bytes@.take(i as int));
            assert(bytes@.take(i + 1).last() == b);
        }
        let ghost before = out@;
        if (65 <= b && b <= 90) || (97 <= b && b <= 122) || (48 <= b && b <= 57) || b == 45 || b
            == 95 || b == 46 || b == 126 {
            out.push(b as char);
        } else {
            out.push('%');
            out.push(hex(b / 16));
            out.push(hex(b % 16));
        }
        assert(out@ =~= before + encode_byte(b));
        i += 1;
    }
    assert(bytes@.take(bytes@.len() as int) =~= bytes@);
    string_of(out.as_slice())
}

/// `s.replace(from, to)` for a non-empty `from`: the non-overlapping
/// occurrences of `from`, found from the left, are replaced by `to`.
pub open spec fn replace_all(s: Seq<char>, from: Seq<char>, to: Seq<char>) -> Seq<char>
    decreases s.len(),
{
    if from.len() == 0 || s.len() < from.len() {
        s
    } else if s.take(from.len() as int) == from {
        to + replace_all(s.skip(from.len() as int), from, to)
    } else {
        seq![s[0]] + replace_all(s.drop_first(), from, to)
    }
}

proof fn lemma_replace_prefix(s: Seq<char>, from: Seq<char>, to: Seq<char>, m: int)
    requires
        from.len() > 0,
        to.len() > 0,
        0 <= m <= replace_all(s, from, to).len(),
        forall|i: int| 0 <= i < m ==> !to.contains(#[trigger] replace_all(s, from, to)[i]),
    ensures
        m <= s.len(),
        replace_all(s, from, to).take(m) == s.take(m),
    decreases s.len(),
{
    let out = replace_all(s, from, to);
    if m == 0 {
        assert(out.take(0) =~= s.take(0));
    } else if s.len() < from.len() {
    } else if s.take(from.len() as int) == from {
        assert(out[0] == to[0]);
        assert(to.contains(to[0]));
    } else {
        let rest = replace_all(s.drop_first(), from, to);
        assert(out == seq![s[0]] + rest);
        assert forall|i: int| 0 <= i < m - 1 implies !to.contains(#[trigger] rest[i]) by {
            assert(rest[i] == out[i + 1]);
        }
        lemma_replace_prefix(s.drop_first(), from, to, m - 1);
        assert(out.take(m) =~= seq![s[0]] + rest.take(m - 1));
        assert(s.take(m) =~= seq![s[0]] + s.drop_first().take(m - 1));
    }
}

/// Replacing every occurrence of `from` by a `to` that shares no character
/// with it leaves no occurrence of `from`.
pub proof fn lemma_replace_all_removes(s: Seq<char>, from: Seq<char>, to: Seq<char>)
    requires
        from.len() > 0,
        to.len() > 0,
        forall|i: int| 0 <= i < from.len() ==> !to.contains(#[trigger] from[i]),
    ensures
        !contains_sub(replace_all(s, from, to), from),
    decreases s.len(),
{
    let out = replace_all(s, from, to);
    let n = from.len() as int;
    if s.len() < n {
    } else if s.take(n) == from {
        let rest = replace_all(s.skip(n), from, to);
        lemma_replace_all_removes(s.skip(n), from, to);
        assert(out == to + rest);
        assert forall|k: int| 0 <= k && k + n <= out.len() implies #[trigger] out.subrange(k, k + n) != from by {
            if k >= to.len() {
                assert(out.subrange(k, k + n) =~= rest.subrange(k - to.len(), k - to.len() + n));
            } else {
                assert(out.subrange(k, k + n)[0] == to[k]);
                assert(to.contains(to[k]));
                if out.subrange(k, k + n) == from {
                    assert(from[0] == to[k]);
                }
            }
        }
    } else {
        let rest = replace_all(s.drop_first(), from, to);
        lemma_replace_all_removes(s.drop_first(), from, to);
        assert(out == seq![s[0]] + rest);
        assert forall|k: int| 0 <= k && k + n <= out.len() implies #[trigger] out.subrange(k, k + n) != from by {
            if k >= 1 {
                assert(out.subrange(k, k + n) =~= rest.subrange(k - 1, k - 1 + n));
            } else if out.subrange(0, n) == from {
                assert forall|i: int| 0 <= i < n implies !to.contains(#[trigger] out[i]) by {
                    assert(out[i] == from[i]);
                }
                lemma_replace_prefix(s, from, to, n);
                assert(out.take(n) =~= out.subrange(0, n));
            }
        }
    }
}

/// `s.replace(from, to)` for a non-empty `from`.
pub fn replace_str(s: &str, from: &str, to: &str) -> (res: String)
    requires
        from@.len() > 0,
    ensures
        res@ == replace_all(s@, from@, to@),
{
    let v = chars_of(s);
    let f = chars_of(from);
    let t = chars_of(to);
    let mut out: Vec<char> = Vec::new();
    let mut i: usize = 0;
    assert(v@.skip(0) =~= v@);
    while i < v.len()
        invariant
            v@ == s@,
            f@ == from@,
            t@ == to@,
            f@.len() > 0,
            i <= v@.len(),
            out@ + replace_all(v@.skip(i as int), f@, t@) == replace_all(v@, f@, t@),
        decreases v@.len() - i,
    {
        let rest = v.len() - i;
        let ghost r = v@.skip(i as int);
        let mut matched = false;
        if f.len() <= rest {
            let seg = sub_vec(&v, i, i + f.len());
            assert(seg@ =~= r.take(f@.len() as int));
            matched = vec_eq(&seg, &f);
        }
        if matched {
            let ghost before = out@;
            let mut k: usize = 0;
            while k < t.len()
                invariant
                    k <= t@.len(),
                    out@ == before + t@.take(k as int),
                decreases t@.len() - k,
            {
                out.push(t[k]);
                k += 1;
                assert(out@ =~= before + t@.take(k as int));
            }
            assert(t@.take(t@.len() as int) =~= t@);
            assert(r.skip(f@.len() as int) =~= v@.skip(i + f@.len()));
            assert(before + replace_all(r, f@, t@) =~= out@ + replace_all(v@.skip(i + f@.len()), f@, t@));
            i += f.len();
        } else {
            let ghost before = out@;
            out.push(v[i]);
            assert(r.drop_first() =~= v@.skip(i + 1));
            assert(r[0] == v@[i as int]);
            assert(before + replace_all(r, f@, t@) =~= out@ + replace_all(v@.skip(i + 1), f@, t@));
            i += 1;
        }
    }
    assert(v@.skip(v@.len() as int) =~= Seq::<char>::empty());
    assert(out@ + Seq::<char>::empty() =~= out@);
    string_of(out.as_slice())
}

/// The chars of `s` up to its first line feed.
pub open spec fn until_newline(s: Seq<char>) -> Seq<char>
    decreases s.len(),
{
    if s.len() == 0 || s[0] == '\n' {
        Seq::empty()
    } else {
        seq![s[0]] + until_newline(s.drop_first())
    }
}

proof fn lemma_until_newline(s: Seq<char>, k: int)
    requires
        0 <= k <= s.len(),
        forall|j: int| 0 <= j < k ==> #[trigger] s[j] != '\n',
        k == s.len() || s[k] == '\n',
    ensures
        until_newline(s) == s.take(k),
    decreases k,
{
    if k == 0 {
        assert(s.take(0) =~= Seq::<char>::empty());
    } else {
        lemma_until_newline(s.drop_first(), k - 1);
        assert(s.take(k) =~= seq![s[0]] + s.drop_first().take(k - 1));
    }
}

/// The first line of `s`, trimmed, where `s` is not empty.
pub fn first_line_trimmed(s: &str) -> (res: Option<String>)
    ensures
        match res {
            Some(l) => s@.len() > 0 && l@ == trim(until_newline(s@)),
            None => s@.len() == 0,
        },
{
    let v = chars_of(s);
    if v.len() == 0 {
        return None;
    }
    let mut k: usize = 0;
    while k < v.len() && v[k] != '\n'
        invariant
            k <= v@.len(),
            forall|j: int| 0 <= j < k ==> #[trigger] v@[j] != '\n',
        decreases v@.len() - k,
    {
        k += 1;
    }
    proof {
        lemma_until_newline(v@, k as int);
        assert(v@.subrange(0, k as int) =~= v@.take(k as int));
    }
    let line = sub_vec(&v, 0, k);
    let t = trim_vec(&line);
    Some(string_of(t.as_slice()))
}

} // verus!
