//! Character-level scanners for the JSON the upstream API speaks:
//! whitespace, strings with escapes, integers, and value skipping for
//! unknown object members. Each scanner exists twice: a spec function that
//! defines it, and an executable mirror proved equal to it.

use vstd::prelude::*;

verus! {

/// Relies on std's `String::push`: appends the given character.
pub assume_specification[ String::push ](s: &mut String, c: char)
    ensures
        final(s)@ == old(s)@.push(c),
;

/// JSON insignificant whitespace.
pub open spec fn is_ws(c: char) -> bool {
    c == ' ' || c == '\t' || c == '\n' || c == '\r'
}

/// Decimal digit.
pub open spec fn is_digit(c: char) -> bool {
    48 <= c as u32 <= 57
}

pub open spec fn digit_val(c: char) -> int {
    c as u32 - 48
}

/// Characters that may make up an unquoted JSON atom (number, `true`,
/// `false`, `null`), scanned leniently when an unknown member is skipped.
pub open spec fn is_atom_char(c: char) -> bool {
    is_digit(c) || (97 <= c as u32 <= 122) || (65 <= c as u32 <= 90) || c == '-' || c == '+'
        || c == '.'
}

/// First index at or after `i` holding a non-whitespace character.
pub open spec fn skip_ws(s: Seq<char>, i: int) -> int
    decreases s.len() - i,
{
    if 0 <= i < s.len() && is_ws(s[i]) {
        skip_ws(s, i + 1)
    } else {
        i
    }
}

pub proof fn lemma_skip_ws_bounds(s: Seq<char>, i: int)
    requires
        0 <= i <= s.len(),
    ensures
        i <= skip_ws(s, i) <= s.len(),
    decreases s.len() - i,
{
    if i < s.len() && is_ws(s[i]) {
        lemma_skip_ws_bounds(s, i + 1);
    }
}

/// Content and end position of a JSON string, entered just after the
/// opening quote; `None` on an unterminated string or an unknown escape.
pub open spec fn scan_string(s: Seq<char>, i: int) -> Option<(Seq<char>, int)>
    decreases s.len() - i,
{
    if i < 0 || i >= s.len() {
        None
    } else if s[i] == '"' {
        Some((Seq::empty(), i + 1))
    } else if s[i] == '\\' {
        if i + 1 < s.len() && unescape_char(s[i + 1]) is Some {
            match scan_string(s, i + 2) {
                Some(p) => Some((seq![unescape_char(s[i + 1]).unwrap()] + p.0, p.1)),
                None => None,
            }
        } else {
            None
        }
    } else {
        match scan_string(s, i + 1) {
            Some(p) => Some((seq![s[i]] + p.0, p.1)),
            None => None,
        }
    }
}

/// The character an escape sequence `\c` stands for.
pub open spec fn unescape_char(c: char) -> Option<char> {
    if c == '"' {
        Some('"')
    } else if c == '\\' {
        Some('\\')
    } else if c == '/' {
        Some('/')
    } else if c == 'n' {
        Some('\n')
    } else if c == 't' {
        Some('\t')
    } else if c == 'r' {
        Some('\r')
    } else if c == 'b' {
        Some('\u{0008}')
    } else if c == 'f' {
        Some('\u{000C}')
    } else {
        None
    }
}

pub proof fn lemma_scan_string_adv(s: Seq<char>, i: int)
    ensures
        scan_string(s, i) matches Some(p) ==> i < p.1 <= s.len(),
    decreases s.len() - i,
{
    if 0 <= i < s.len() {
        if s[i] == '\\' {
            if i + 2 <= s.len() {
                lemma_scan_string_adv(s, i + 2);
            }
        } else {
            lemma_scan_string_adv(s, i + 1);
        }
    }
}

/// First index at or after `i` holding a non-digit character.
pub open spec fn scan_digits(s: Seq<char>, i: int) -> int
    decreases s.len() - i,
{
    if 0 <= i < s.len() && is_digit(s[i]) {
        scan_digits(s, i + 1)
    } else {
        i
    }
}

pub proof fn lemma_scan_digits_bounds(s: Seq<char>, i: int)
    requires
        0 <= i <= s.len(),
    ensures
        i <= scan_digits(s, i) <= s.len(),
    decreases s.len() - i,
{
    if i < s.len() && is_digit(s[i]) {
        lemma_scan_digits_bounds(s, i + 1);
    }
}

/// The number a sequence of decimal digits denotes.
pub open spec fn from_digits(d: Seq<char>) -> int
    decreases d.len(),
{
    if d.len() == 0 {
        0
    } else {
        from_digits(d.drop_last()) * 10 + digit_val(d.last())
    }
}

pub open spec fn pow10(n: nat) -> int
    decreases n,
{
    if n == 0 {
        1
    } else {
        10 * pow10((n - 1) as nat)
    }
}

pub proof fn lemma_from_digits_bound(d: Seq<char>)
    requires
        forall|k: int| 0 <= k < d.len() ==> is_digit(#[trigger] d[k]),
    ensures
        0 <= from_digits(d) < pow10(d.len()),
    decreases d.len(),
{
    if d.len() > 0 {
        assert(forall|k: int|
            0 <= k < d.drop_last().len() ==> is_digit(#[trigger] d.drop_last()[k]));
        lemma_from_digits_bound(d.drop_last());
        assert(is_digit(d.last()));
        assert(0 <= digit_val(d.last()) <= 9);
        assert(pow10(d.len()) == 10 * pow10((d.len() - 1) as nat));
    }
}

pub proof fn lemma_scan_digits_digits(s: Seq<char>, i: int)
    requires
        0 <= i <= s.len(),
    ensures
        forall|k: int| i <= k < scan_digits(s, i) ==> is_digit(#[trigger] s[k]),
    decreases s.len() - i,
{
    if i < s.len() && is_digit(s[i]) {
        lemma_scan_digits_digits(s, i + 1);
        lemma_scan_digits_bounds(s, i + 1);
    }
}

/// An integer in the value range of `i32`, scanned at `i`: optional minus
/// sign, then digits without a superfluous leading zero. `None` when the
/// text there is not such an integer.
pub open spec fn scan_int(s: Seq<char>, i: int) -> Option<(int, int)> {
    let neg = 0 <= i < s.len() && s[i] == '-';
    let j = if neg {
        i + 1
    } else {
        i
    };
    let k = scan_digits(s, j);
    if k == j || k - j > 10 || (k - j > 1 && s[j] == '0') {
        None
    } else {
        let m = from_digits(s.subrange(j, k));
        let v = if neg {
            -m
        } else {
            m
        };
        if v < i32::MIN as int || v > i32::MAX as int {
            None
        } else {
            Some((v, k))
        }
    }
}

pub proof fn lemma_scan_int_adv(s: Seq<char>, i: int)
    requires
        0 <= i <= s.len(),
    ensures
        scan_int(s, i) matches Some(p) ==> i < p.1 <= s.len(),
{
    lemma_scan_digits_bounds(s, i);
    if i < s.len() && s[i] == '-' {
        lemma_scan_digits_bounds(s, i + 1);
    }
}

/// End position of a string being skipped, entered just after the opening
/// quote; unlike `scan_string` this accepts any escaped character.
pub open spec fn scan_str_end(s: Seq<char>, i: int) -> Option<int>
    decreases s.len() - i,
{
    if i < 0 || i >= s.len() {
        None
    } else if s[i] == '\\' {
        if i + 1 >= s.len() {
            None
        } else {
            scan_str_end(s, i + 2)
        }
    } else if s[i] == '"' {
        Some(i + 1)
    } else {
        scan_str_end(s, i + 1)
    }
}

pub proof fn lemma_scan_str_end_adv(s: Seq<char>, i: int)
    ensures
        scan_str_end(s, i) matches Some(j) ==> i < j <= s.len(),
    decreases s.len() - i,
{
    if 0 <= i < s.len() {
        if s[i] == '\\' {
            if i + 1 < s.len() {
                lemma_scan_str_end_adv(s, i + 2);
            }
        } else {
            lemma_scan_str_end_adv(s, i + 1);
        }
    }
}

/// End position of a bracketed value being skipped, entered just after the
/// opening bracket with `depth` 1. Tracks bracket depth and whether the scan
/// stands inside a string (`in_str`) or just after a backslash (`esc`).
pub open spec fn scan_container_end(
    s: Seq<char>,
    i: int,
    depth: int,
    in_str: bool,
    esc: bool,
) -> Option<int>
    decreases s.len() - i,
{
    if i < 0 || i >= s.len() {
        None
    } else if in_str {
        if esc {
            scan_container_end(s, i + 1, depth, true, false)
        } else if s[i] == '\\' {
            scan_container_end(s, i + 1, depth, true, true)
        } else if s[i] == '"' {
            scan_container_end(s, i + 1, depth, false, false)
        } else {
            scan_container_end(s, i + 1, depth, true, false)
        }
    } else if s[i] == '{' || s[i] == '[' {
        scan_container_end(s, i + 1, depth + 1, false, false)
    } else if s[i] == '}' || s[i] == ']' {
        if depth <= 1 {
            Some(i + 1)
        } else {
            scan_container_end(s, i + 1, depth - 1, false, false)
        }
    } else if s[i] == '"' {
        scan_container_end(s, i + 1, depth, true, false)
    } else {
        scan_container_end(s, i + 1, depth, false, false)
    }
}

pub proof fn lemma_scan_container_end_adv(s: Seq<char>, i: int, depth: int, in_str: bool, esc: bool)
    ensures
        scan_container_end(s, i, depth, in_str, esc) matches Some(j) ==> i < j <= s.len(),
    decreases s.len() - i,
{
    if 0 <= i < s.len() {
        lemma_scan_container_end_adv(s, i + 1, depth, true, false);
        lemma_scan_container_end_adv(s, i + 1, depth, true, true);
        lemma_scan_container_end_adv(s, i + 1, depth, false, false);
        lemma_scan_container_end_adv(s, i + 1, depth + 1, false, false);
        lemma_scan_container_end_adv(s, i + 1, depth - 1, false, false);
    }
}

/// First index at or after `i` holding a character no unquoted atom holds.
pub open spec fn scan_atom(s: Seq<char>, i: int) -> int
    decreases s.len() - i,
{
    if 0 <= i < s.len() && is_atom_char(s[i]) {
        scan_atom(s, i + 1)
    } else {
        i
    }
}

pub proof fn lemma_scan_atom_bounds(s: Seq<char>, i: int)
    requires
        0 <= i <= s.len(),
    ensures
        i <= scan_atom(s, i) <= s.len(),
    decreases s.len() - i,
{
    if i < s.len() && is_atom_char(s[i]) {
        lemma_scan_atom_bounds(s, i + 1);
    }
}

/// End position of a whole JSON value standing at `i`, used to ignore the
/// members of an object that no schema field matches. Skipped values are
/// scanned leniently: bracket balance and string syntax are respected, but
/// atoms are not validated.
pub open spec fn skip_value(s: Seq<char>, i: int) -> Option<int> {
    if i < 0 || i >= s.len() {
        None
    } else if s[i] == '"' {
        scan_str_end(s, i + 1)
    } else if s[i] == '{' || s[i] == '[' {
        scan_container_end(s, i + 1, 1, false, false)
    } else {
        let j = scan_atom(s, i);
        if j == i {
            None
        } else {
            Some(j)
        }
    }
}

pub proof fn lemma_skip_value_adv(s: Seq<char>, i: int)
    requires
        0 <= i <= s.len(),
    ensures
        skip_value(s, i) matches Some(j) ==> i < j <= s.len(),
{
    lemma_scan_str_end_adv(s, i + 1);
    lemma_scan_container_end_adv(s, i + 1, 1, false, false);
    lemma_scan_atom_bounds(s, i);
}

/// The two characters that must be escaped when a string is encoded.
pub open spec fn esc1(c: char) -> Seq<char> {
    if c == '"' {
        seq!['\\', '"']
    } else if c == '\\' {
        seq!['\\', '\\']
    } else {
        seq![c]
    }
}

/// The escaped form of a string's characters.
pub open spec fn esc(s: Seq<char>) -> Seq<char>
    decreases s.len(),
{
    if s.len() == 0 {
        Seq::empty()
    } else {
        esc(s.drop_last()) + esc1(s.last())
    }
}

/// A string as JSON encodes it: quoted and escaped.
pub open spec fn quoted(s: Seq<char>) -> Seq<char> {
    seq!['"'] + esc(s) + seq!['"']
}

pub open spec fn digit_char(d: int) -> char {
    ((d + 48) as u8) as char
}

/// The decimal digits of a non-negative number.
pub open spec fn udec(n: nat) -> Seq<char>
    decreases n,
{
    if n < 10 {
        seq![digit_char(n as int)]
    } else {
        udec(n / 10).push(digit_char((n % 10) as int))
    }
}

/// An integer as JSON encodes it.
pub open spec fn enc_int(v: int) -> Seq<char> {
    if v < 0 {
        seq!['-'] + udec((-v) as nat)
    } else {
        udec(v as nat)
    }
}

/// Executable mirror of `quoted`.
pub fn quote_str_ex(t: &str) -> (r: String)
    ensures
        r@ == quoted(t@),
{
    let mut out = String::new();
    out.push('"');
    proof {
        assert(esc(t@.subrange(0, 0)) =~= Seq::<char>::empty());
        assert(out@ =~= seq!['"'] + esc(t@.subrange(0, 0)));
    }
    let n = t.unicode_len();
    let mut k: usize = 0;
    while k < n
        invariant
            k <= n,
            n == t@.len(),
            out@ == seq!['"'] + esc(t@.subrange(0, k as int)),
        decreases n - k,
    {
        let c = t.get_char(k);
        if c == '"' {
            out.push('\\');
            out.push('"');
        } else if c == '\\' {
            out.push('\\');
            out.push('\\');
        } else {
            out.push(c);
        }
        proof {
            assert(t@.subrange(0, k + 1).drop_last() =~= t@.subrange(0, k as int));
            assert(t@.subrange(0, k + 1).last() == t@[k as int]);
            assert(esc(t@.subrange(0, k + 1)) == esc(t@.subrange(0, k as int)) + esc1(
                t@[k as int],
            ));
            assert(out@ =~= seq!['"'] + esc(t@.subrange(0, k + 1)));
        }
        k = k + 1;
    }
    out.push('"');
    proof {
        assert(t@.subrange(0, n as int) =~= t@);
        assert(out@ =~= quoted(t@));
    }
    out
}

/// Executable mirror of `udec`.
pub fn udec_ex(n: u64) -> (r: String)
    ensures
        r@ == udec(n as nat),
    decreases n,
{
    if n < 10 {
        let mut out = String::new();
        out.push(((n as u8) + 48) as char);
        proof {
            assert(out@ =~= seq![digit_char(n as int)]);
        }
        out
    } else {
        let mut out = udec_ex(n / 10);
        out.push((((n % 10) as u8) + 48) as char);
        out
    }
}

/// Executable mirror of `enc_int` for the integers the schema holds.
pub fn enc_int_ex(v: i32) -> (r: String)
    ensures
        r@ == enc_int(v as int),
{
    if v < 0 {
        let mut out = String::new();
        out.push('-');
        let mag = (-(v as i64)) as u64;
        let d = udec_ex(mag);
        out.append(d.as_str());
        proof {
            assert(out@ =~= seq!['-'] + udec(mag as nat));
        }
        out
    } else {
        udec_ex(v as u64)
    }
}

pub proof fn lemma_esc_left(x: Seq<char>)
    requires
        x.len() > 0,
    ensures
        esc(x) == esc1(x[0]) + esc(x.drop_first()),
    decreases x.len(),
{
    if x.len() == 1 {
        assert(x.drop_last() =~= Seq::<char>::empty());
        assert(x.drop_first() =~= Seq::<char>::empty());
        assert(esc(x) =~= esc1(x[0]) + esc(x.drop_first()));
    } else {
        let y = x.drop_last();
        lemma_esc_left(y);
        assert(y[0] == x[0]);
        assert(y.drop_first() =~= x.drop_first().drop_last());
        assert(x.drop_first().last() == x.last());
        assert(esc(x.drop_first()) == esc(x.drop_first().drop_last()) + esc1(x.last()));
        assert(esc(x) =~= esc1(x[0]) + esc(x.drop_first()));
    }
}

/// Scanning an encoded string body gives back exactly the string: at `i`
/// stand the escaped characters of `x` and then a closing quote.
pub proof fn lemma_scan_quoted(s: Seq<char>, i: int, x: Seq<char>)
    requires
        0 <= i,
        i + esc(x).len() + 1 <= s.len(),
        s.subrange(i, i + esc(x).len() + 1) == esc(x) + seq!['"'],
    ensures
        scan_string(s, i) == Some((x, i + esc(x).len() + 1)),
    decreases x.len(),
{
    let bl = esc(x).len() + 1;
    if x.len() == 0 {
        assert(esc(x).len() == 0);
        assert(s[i] == s.subrange(i, i + 1)[0]);
        assert((esc(x) + seq!['"'])[0] == '"');
    } else {
        let c = x[0];
        let rest = x.drop_first();
        lemma_esc_left(x);
        let e1 = esc1(c);
        let a = e1.len() as int;
        let l2 = esc(rest).len() as int + 1;
        assert(esc(x).len() == a + esc(rest).len());
        assert(s[i] == s.subrange(i, i + bl)[0]);
        assert((esc(x) + seq!['"'])[0] == esc(x)[0]);
        assert(esc(x)[0] == (e1 + esc(rest))[0]);
        assert(s.subrange(i + a, i + a + l2) =~= s.subrange(i, i + bl).subrange(a, a + l2));
        assert((esc(x) + seq!['"']).subrange(a, a + l2) =~= esc(rest) + seq!['"']);
        lemma_scan_quoted(s, i + a, rest);
        assert(seq![c] + rest =~= x);
        if c == '"' {
            assert(e1 == seq!['\\', '"']);
            assert(s[i] == '\\');
            assert(s[i + 1] == s.subrange(i, i + bl)[1]);
            assert((esc(x) + seq!['"'])[1] == (e1 + esc(rest))[1]);
            assert(s[i + 1] == '"');
            assert(unescape_char(s[i + 1]) == Some('"'));
        } else if c == '\\' {
            assert(e1 == seq!['\\', '\\']);
            assert(s[i] == '\\');
            assert(s[i + 1] == s.subrange(i, i + bl)[1]);
            assert((esc(x) + seq!['"'])[1] == (e1 + esc(rest))[1]);
            assert(s[i + 1] == '\\');
            assert(unescape_char(s[i + 1]) == Some('\\'));
        } else {
            assert(e1 == seq![c]);
            assert(s[i] == c);
        }
    }
}

pub proof fn lemma_udec_props(n: nat)
    ensures
        udec(n).len() >= 1,
        forall|k: int| 0 <= k < udec(n).len() ==> is_digit(#[trigger] udec(n)[k]),
        n != 0 ==> udec(n)[0] != '0',
        udec(n).len() > 1 ==> n >= 10,
        from_digits(udec(n)) == n,
    decreases n,
{
    if n < 10 {
        assert(udec(n) =~= seq![digit_char(n as int)]);
        assert(digit_char(n as int) as u32 == n + 48);
        assert(is_digit(digit_char(n as int)));
        assert(('0') as u32 == 48);
        assert(n != 0 ==> digit_char(n as int) as u32 != 48);
        assert(udec(n).drop_last() =~= Seq::<char>::empty());
        assert(from_digits(udec(n)) == from_digits(Seq::<char>::empty()) * 10 + digit_val(
            udec(n).last(),
        ));
        assert(digit_val(digit_char(n as int)) == n);
    } else {
        lemma_udec_props(n / 10);
        let u = udec(n);
        assert(u == udec(n / 10).push(digit_char((n % 10) as int)));
        assert(u.drop_last() =~= udec(n / 10));
        assert(u.last() == digit_char((n % 10) as int));
        assert(digit_char((n % 10) as int) as u32 == n % 10 + 48);
        assert(digit_val(u.last()) == n % 10);
        assert(from_digits(u) == from_digits(udec(n / 10)) * 10 + (n % 10));
        assert(n / 10 * 10 + n % 10 == n);
        assert(u[0] == udec(n / 10)[0]);
        assert(n / 10 != 0);
        assert(forall|k: int| 0 <= k < u.len() ==> is_digit(#[trigger] u[k]));
    }
}

pub proof fn lemma_udec_len_le(n: nat, k: nat)
    requires
        1 <= k,
        n < pow10(k),
    ensures
        udec(n).len() <= k,
    decreases n,
{
    if n < 10 {
    } else {
        if k == 1 {
            assert(pow10(1) == 10 * pow10(0));
            assert(false);
        }
        assert(pow10(k) == 10 * pow10((k - 1) as nat));
        lemma_udec_len_le(n / 10, (k - 1) as nat);
    }
}

pub proof fn lemma_scan_digits_run(s: Seq<char>, i: int, j: int)
    requires
        0 <= i <= j <= s.len(),
        forall|k: int| i <= k < j ==> is_digit(#[trigger] s[k]),
        j == s.len() || !is_digit(s[j]),
    ensures
        scan_digits(s, i) == j,
    decreases j - i,
{
    if i < j {
        lemma_scan_digits_run(s, i + 1, j);
    }
}

/// Scanning an encoded integer gives back exactly the integer: at `i`
/// stand the digits of `v` (with sign), then a character no number holds.
pub proof fn lemma_scan_enc_int(s: Seq<char>, i: int, v: int)
    requires
        i32::MIN as int <= v <= i32::MAX as int,
        0 <= i,
        i + enc_int(v).len() < s.len(),
        s.subrange(i, i + enc_int(v).len()) == enc_int(v),
        !is_digit(s[i + enc_int(v).len()]),
    ensures
        scan_int(s, i) == Some((v, i + enc_int(v).len())),
{
    let enc = enc_int(v);
    lemma_pow10_ten();
    if v < 0 {
        let mag = (-v) as nat;
        lemma_udec_props(mag);
        lemma_udec_len_le(mag, 10);
        let u = udec(mag);
        assert(enc == seq!['-'] + u);
        assert(s[i] == s.subrange(i, i + enc.len())[0]);
        assert(enc[0] == '-');
        assert(s[i] == '-');
        assert(s.subrange(i + 1, i + 1 + u.len()) =~= s.subrange(i, i + enc.len()).subrange(
            1,
            enc.len() as int,
        ));
        assert(enc.subrange(1, enc.len() as int) =~= u);
        assert(s.subrange(i + 1, i + 1 + u.len()) == u);
        assert forall|k: int| i + 1 <= k < i + 1 + u.len() implies is_digit(#[trigger] s[k]) by {
            assert(s[k] == s.subrange(i + 1, i + 1 + u.len())[k - (i + 1)]);
            assert(is_digit(u[k - (i + 1)]));
        }
        lemma_scan_digits_run(s, i + 1, i + 1 + u.len());
        if u.len() > 1 {
            assert(s[i + 1] == s.subrange(i + 1, i + 1 + u.len())[0]);
            assert(s[i + 1] == u[0]);
            assert(s[i + 1] != '0');
        }
        assert(from_digits(s.subrange(i + 1, i + 1 + u.len())) == mag);
    } else {
        let mag = v as nat;
        lemma_udec_props(mag);
        lemma_udec_len_le(mag, 10);
        let u = udec(mag);
        assert(enc == u);
        assert(s.subrange(i, i + enc.len()) =~= s.subrange(i, i + u.len()));
        assert(s.subrange(i, i + u.len()) == u);
        assert forall|k: int| i <= k < i + u.len() implies is_digit(#[trigger] s[k]) by {
            assert(s[k] == s.subrange(i, i + u.len())[k - i]);
            assert(is_digit(u[k - i]));
        }
        assert(is_digit(s[i]));
        assert(('-') as u32 == 45);
        assert(s[i] as u32 != 45);
        assert(s[i] != '-');
        lemma_scan_digits_run(s, i, i + u.len());
        if u.len() > 1 {
            assert(s[i] == u[0]);
            assert(s[i] != '0');
        }
        assert(from_digits(s.subrange(i, i + u.len())) == mag);
    }
}

/// Clamp for the position a scanner hands to the next scanner: on every
/// reachable path the scanners advance, so `j` is returned unchanged; the
/// clamp makes that advance evident to the termination checker.
pub open spec fn step(s: Seq<char>, i: int, j: int) -> int {
    if i < j <= s.len() {
        j
    } else {
        i + 1
    }
}

/// Relates a spec scan that yields a string and a position to the result of
/// its executable mirror.
pub open spec fn str_res_matches(g: Option<(Seq<char>, int)>, r: Option<(String, usize)>) -> bool {
    match g {
        Some(gp) => r matches Some(rp) && rp.0@ == gp.0 && rp.1 as int == gp.1,
        None => r is None,
    }
}

/// Relates a spec scan that yields a position to its executable mirror.
pub open spec fn pos_res_matches(g: Option<int>, r: Option<usize>) -> bool {
    match g {
        Some(gj) => r matches Some(rj) && rj as int == gj,
        None => r is None,
    }
}

fn is_ws_ex(c: char) -> (r: bool)
    ensures
        r == is_ws(c),
{
    c == ' ' || c == '\t' || c == '\n' || c == '\r'
}

fn is_digit_ex(c: char) -> (r: bool)
    ensures
        r == is_digit(c),
{
    let u = c as u32;
    48 <= u && u <= 57
}

fn is_atom_char_ex(c: char) -> (r: bool)
    ensures
        r == is_atom_char(c),
{
    let u = c as u32;
    (48 <= u && u <= 57) || (97 <= u && u <= 122) || (65 <= u && u <= 90) || c == '-' || c == '+'
        || c == '.'
}

fn unescape_char_ex(c: char) -> (r: Option<char>)
    ensures
        r == unescape_char(c),
{
    if c == '"' {
        Some('"')
    } else if c == '\\' {
        Some('\\')
    } else if c == '/' {
        Some('/')
    } else if c == 'n' {
        Some('\n')
    } else if c == 't' {
        Some('\t')
    } else if c == 'r' {
        Some('\r')
    } else if c == 'b' {
        Some('\u{0008}')
    } else if c == 'f' {
        Some('\u{000C}')
    } else {
        None
    }
}

/// Executable mirror of `skip_ws`.
pub fn skip_ws_ex(s: &str, i: usize) -> (r: usize)
    requires
        i <= s@.len(),
    ensures
        r == skip_ws(s@, i as int),
        i <= r <= s@.len(),
{
    let n = s.unicode_len();
    let mut j = i;
    while j < n && is_ws_ex(s.get_char(j))
        invariant
            i <= j <= n,
            n == s@.len(),
            skip_ws(s@, i as int) == skip_ws(s@, j as int),
        decreases n - j,
    {
        j = j + 1;
    }
    assert(skip_ws(s@, j as int) == j);
    j
}

/// Executable mirror of `scan_string`.
pub fn scan_string_ex(s: &str, i: usize) -> (r: Option<(String, usize)>)
    requires
        i <= s@.len(),
    ensures
        str_res_matches(scan_string(s@, i as int), r),
    decreases s@.len() - i,
{
    let n = s.unicode_len();
    if i >= n {
        return None;
    }
    let c = s.get_char(i);
    if c == '"' {
        return Some((String::new(), i + 1));
    }
    if c == '\\' {
        if i + 1 >= n {
            return None;
        }
        let u = unescape_char_ex(s.get_char(i + 1));
        match u {
            None => None,
            Some(uc) => {
                match scan_string_ex(s, i + 2) {
                    None => None,
                    Some((t, j)) => {
                        let mut out = String::new();
                        out.push(uc);
                        out.append(t.as_str());
                        proof {
                            assert(out@ =~= seq![uc] + t@);
                        }
                        Some((out, j))
                    },
                }
            },
        }
    } else {
        match scan_string_ex(s, i + 1) {
            None => None,
            Some((t, j)) => {
                let mut out = String::new();
                out.push(c);
                out.append(t.as_str());
                proof {
                    assert(out@ =~= seq![c] + t@);
                }
                Some((out, j))
            },
        }
    }
}

/// Executable mirror of `scan_int`.
pub fn scan_int_ex(s: &str, i: usize) -> (r: Option<(i32, usize)>)
    requires
        i <= s@.len(),
    ensures
        match scan_int(s@, i as int) {
            Some(gp) => r matches Some(rp) && rp.0 as int == gp.0 && rp.1 as int == gp.1,
            None => r is None,
        },
{
    let n = s.unicode_len();
    let mut j = i;
    let mut neg = false;
    if j < n && s.get_char(j) == '-' {
        neg = true;
        j = j + 1;
    }
    let start = j;
    let mut e = start;
    while e < n && is_digit_ex(s.get_char(e))
        invariant
            start <= e <= n,
            n == s@.len(),
            scan_digits(s@, start as int) == scan_digits(s@, e as int),
        decreases n - e,
    {
        e = e + 1;
    }
    assert(scan_digits(s@, e as int) == e);
    if e == start || e - start > 10 {
        return None;
    }
    if e - start > 1 && s.get_char(start) == '0' {
        return None;
    }
    let ghost d = s@.subrange(start as int, e as int);
    proof {
        lemma_scan_digits_digits(s@, start as int);
        assert(forall|k: int| 0 <= k < d.len() ==> is_digit(#[trigger] d[k]));
        lemma_from_digits_bound(d);
        lemma_pow10_ten();
        lemma_pow10_mono(d.len(), 10);
    }
    let mut acc: i64 = 0;
    let mut k = start;
    while k < e
        invariant
            start <= k <= e <= n,
            n == s@.len(),
            e - start <= 10,
            d == s@.subrange(start as int, e as int),
            forall|m: int| 0 <= m < d.len() ==> is_digit(#[trigger] d[m]),
            acc == from_digits(s@.subrange(start as int, k as int)),
            0 <= acc < pow10((k - start) as nat),
            pow10((e - start) as nat) <= 10000000000,
        decreases e - k,
    {
        let c = s.get_char(k);
        proof {
            assert(d[k - start] == s@[k as int]);
            assert(is_digit(s@[k as int]));
            assert(0 <= digit_val(s@[k as int]) <= 9);
            assert(s@.subrange(start as int, k + 1).drop_last() =~= s@.subrange(
                start as int,
                k as int,
            ));
            assert(s@.subrange(start as int, k + 1).last() == s@[k as int]);
            assert(from_digits(s@.subrange(start as int, k + 1)) == from_digits(
                s@.subrange(start as int, k as int),
            ) * 10 + digit_val(s@[k as int]));
            lemma_pow10_mono((k - start + 1) as nat, (e - start) as nat);
            assert(pow10((k - start + 1) as nat) == 10 * pow10((k - start) as nat));
        }
        acc = acc * 10 + ((c as u32 as i64) - 48);
        k = k + 1;
    }
    proof {
        assert(s@.subrange(start as int, e as int) =~= d);
    }
    if neg {
        if acc > 2147483648 {
            return None;
        }
        Some(((-acc) as i32, e))
    } else {
        if acc > 2147483647 {
            return None;
        }
        Some((acc as i32, e))
    }
}

pub proof fn lemma_pow10_ten()
    ensures
        pow10(10) == 10000000000,
{
    assert(pow10(0) == 1);
    assert(pow10(1) == 10);
    assert(pow10(2) == 100);
    assert(pow10(3) == 1000);
    assert(pow10(4) == 10000);
    assert(pow10(5) == 100000);
    assert(pow10(6) == 1000000);
    assert(pow10(7) == 10000000);
    assert(pow10(8) == 100000000);
    assert(pow10(9) == 1000000000);
    assert(pow10(10) == 10000000000);
}

pub proof fn lemma_pow10_mono(a: nat, b: nat)
    requires
        a <= b,
    ensures
        pow10(a) <= pow10(b),
        pow10(a) >= 1,
    decreases b,
{
    if b > 0 {
        if a == b {
            lemma_pow10_mono((a - 1) as nat, (b - 1) as nat);
        } else {
            lemma_pow10_mono(a, (b - 1) as nat);
        }
    }
}

/// Executable mirror of `scan_str_end`.
pub fn scan_str_end_ex(s: &str, i: usize) -> (r: Option<usize>)
    requires
        i <= s@.len(),
    ensures
        pos_res_matches(scan_str_end(s@, i as int), r),
    decreases s@.len() - i,
{
    let n = s.unicode_len();
    if i >= n {
        return None;
    }
    let c = s.get_char(i);
    if c == '\\' {
        if i + 1 >= n {
            None
        } else {
            scan_str_end_ex(s, i + 2)
        }
    } else if c == '"' {
        Some(i + 1)
    } else {
        scan_str_end_ex(s, i + 1)
    }
}

/// Executable mirror of `scan_container_end`, entered just after the
/// opening bracket.
pub fn scan_container_end_ex(s: &str, i: usize) -> (r: Option<usize>)
    requires
        i <= s@.len(),
    ensures
        pos_res_matches(scan_container_end(s@, i as int, 1, false, false), r),
{
    let n = s.unicode_len();
    let mut j = i;
    let mut depth: u128 = 1;
    let mut in_str = false;
    let mut esc = false;
    loop
        invariant
            i <= j <= n,
            n == s@.len(),
            1 <= depth <= 1 + j as int,
            in_str || !esc,
            scan_container_end(s@, i as int, 1, false, false) == scan_container_end(
                s@,
                j as int,
                depth as int,
                in_str,
                esc,
            ),
        ensures
            j >= n,
            scan_container_end(s@, i as int, 1, false, false) == scan_container_end(
                s@,
                j as int,
                depth as int,
                in_str,
                esc,
            ),
        decreases n - j,
    {
        if j >= n {
            break;
        }
        let c = s.get_char(j);
        if in_str {
            if esc {
                esc = false;
            } else if c == '\\' {
                esc = true;
            } else if c == '"' {
                in_str = false;
            }
        } else if c == '{' || c == '[' {
            depth = depth + 1;
        } else if c == '}' || c == ']' {
            if depth <= 1 {
                return Some(j + 1);
            }
            depth = depth - 1;
        } else if c == '"' {
            in_str = true;
        }
        j = j + 1;
    }
    None
}

/// Executable mirror of `skip_value`.
pub fn skip_value_ex(s: &str, i: usize) -> (r: Option<usize>)
    requires
        i <= s@.len(),
    ensures
        pos_res_matches(skip_value(s@, i as int), r),
{
    let n = s.unicode_len();
    if i >= n {
        return None;
    }
    let c = s.get_char(i);
    if c == '"' {
        scan_str_end_ex(s, i + 1)
    } else if c == '{' || c == '[' {
        scan_container_end_ex(s, i + 1)
    } else {
        let mut j = i;
        while j < n && is_atom_char_ex(s.get_char(j))
            invariant
                i <= j <= n,
                n == s@.len(),
                scan_atom(s@, i as int) == scan_atom(s@, j as int),
            decreases n - j,
        {
            j = j + 1;
        }
        assert(scan_atom(s@, j as int) == j);
        if j == i {
            None
        } else {
            Some(j)
        }
    }
}

} // verus!
