//! Verified text helpers: decimal and hexadecimal rendering, string
//! comparison, prefix and substring search, and line splitting.

use vstd::prelude::*;
use vstd::string::*;

verus! {

/// The character of a decimal digit.
pub open spec fn digit_char(d: nat) -> char {
    if d == 0 { '0' }
    else if d == 1 { '1' }
    else if d == 2 { '2' }
    else if d == 3 { '3' }
    else if d == 4 { '4' }
    else if d == 5 { '5' }
    else if d == 6 { '6' }
    else if d == 7 { '7' }
    else if d == 8 { '8' }
    else if d == 9 { '9' }
    else if d == 10 { 'a' }
    else if d == 11 { 'b' }
    else if d == 12 { 'c' }
    else if d == 13 { 'd' }
    else if d == 14 { 'e' }
    else { 'f' }
}

/// Base-`b` rendering of `n` without leading zeros (`b` is 10 or 16).
pub open spec fn radix_string(n: nat, b: nat) -> Seq<char>
    decreases n,
{
    if b < 2 || n < b {
        seq![digit_char(n)]
    } else {
        proof {
            assert(n / b < n) by (nonlinear_arith)
                requires
                    b >= 2,
                    n >= b,
            ;
        }
        radix_string(n / b, b).push(digit_char(n % b))
    }
}

/// Decimal rendering of `n`, as `{}` formats an unsigned integer.
pub open spec fn decimal(n: nat) -> Seq<char> {
    radix_string(n, 10)
}

/// Lower-case hexadecimal rendering of `n`, as `{:x}` formats an unsigned integer.
pub open spec fn hex(n: nat) -> Seq<char> {
    radix_string(n, 16)
}

/// Two lower-case hexadecimal characters per byte.
pub open spec fn hex_bytes(bytes: Seq<u8>) -> Seq<char>
    decreases bytes.len(),
{
    if bytes.len() == 0 {
        Seq::empty()
    } else {
        hex_bytes(bytes.drop_last()) + seq![
            digit_char((bytes.last() / 16) as nat),
            digit_char((bytes.last() % 16) as nat),
        ]
    }
}

fn digit_str(d: u64) -> (s: &'static str)
    requires
        d < 16,
    ensures
        s@ == seq![digit_char(d as nat)],
{
    proof {
        reveal_strlit("0"); reveal_strlit("1"); reveal_strlit("2"); reveal_strlit("3");
        reveal_strlit("4"); reveal_strlit("5"); reveal_strlit("6"); reveal_strlit("7");
        reveal_strlit("8"); reveal_strlit("9"); reveal_strlit("a"); reveal_strlit("b");
        reveal_strlit("c"); reveal_strlit("d"); reveal_strlit("e"); reveal_strlit("f");
    }
    if d == 0 { "0" }
    else if d == 1 { "1" }
    else if d == 2 { "2" }
    else if d == 3 { "3" }
    else if d == 4 { "4" }
    else if d == 5 { "5" }
    else if d == 6 { "6" }
    else if d == 7 { "7" }
    else if d == 8 { "8" }
    else if d == 9 { "9" }
    else if d == 10 { "a" }
    else if d == 11 { "b" }
    else if d == 12 { "c" }
    else if d == 13 { "d" }
    else if d == 14 { "e" }
    else { "f" }
}

fn radix_u128(n: u128, b: u128) -> (s: String)
    requires
        b == 10 || b == 16,
    ensures
        s@ == radix_string(n as nat, b as nat),
    decreases n,
{
    if n < b {
        String::from_str(digit_str(n as u64))
    } else {
        let mut s = radix_u128(n / b, b);
        s.append(digit_str((n % b) as u64));
        s
    }
}

/// Renders `n` in decimal.
pub fn u64_to_decimal(n: u64) -> (s: String)
    ensures
        s@ == decimal(n as nat),
{
    radix_u128(n as u128, 10)
}

/// Renders `n` in lower-case hexadecimal.
pub fn u128_to_hex(n: u128) -> (s: String)
    ensures
        s@ == hex(n as nat),
{
    radix_u128(n, 16)
}

/// Renders bytes as lower-case hexadecimal, two characters per byte.
pub fn bytes_to_hex(bytes: &[u8]) -> (s: String)
    ensures
        s@ == hex_bytes(bytes@),
{
    let mut s = String::new();
    let mut i: usize = 0;
    while i < bytes.len()
        invariant
            i <= bytes@.len(),
            s@ == hex_bytes(bytes@.subrange(0, i as int)),
        decreases bytes@.len() - i,
    {
        let b = bytes[i];
        s.append(digit_str((b / 16) as u64));
        s.append(digit_str((b % 16) as u64));
        proof {
            let next = bytes@.subrange(0, i + 1);
            assert(next.drop_last() =~= bytes@.subrange(0, i as int));
            assert(next.last() == b);
        }
        i = i + 1;
    }
    proof {
        assert(bytes@.subrange(0, bytes@.len() as int) =~= bytes@);
    }
    s
}

/// String equality over character sequences.
pub fn str_eq(a: &str, b: &str) -> (r: bool)
    ensures
        r == (a@ == b@),
{
    let sa = String::from_str(a);
    let sb = String::from_str(b);
    sa == sb
}

/// `s` starts with `prefix`.
pub open spec fn has_prefix(s: Seq<char>, prefix: Seq<char>) -> bool {
    prefix.len() <= s.len() && s.subrange(0, prefix.len() as int) == prefix
}

/// `s` holds `pat` at position `i`.
pub open spec fn occurs_at(s: Seq<char>, pat: Seq<char>, i: int) -> bool {
    0 <= i && i + pat.len() <= s.len() && s.subrange(i, i + pat.len()) == pat
}

/// `s` contains `pat` as a contiguous substring.
pub open spec fn has_substring(s: Seq<char>, pat: Seq<char>) -> bool {
    exists|i: int| occurs_at(s, pat, i)
}

/// Compares `s` at offset `at` with the whole of `pat`.
fn matches_at(s: &str, pat: &str, at: usize) -> (r: bool)
    requires
        at + pat@.len() <= s@.len(),
    ensures
        r == (s@.subrange(at as int, at + pat@.len()) == pat@),
{
    let n = pat.unicode_len();
    let _len = s.unicode_len();
    let mut j: usize = 0;
    while j < n
        invariant
            n == pat@.len(),
            _len == s@.len(),
            at + n <= s@.len(),
            j <= n,
            forall|k: int| 0 <= k < j ==> s@[at + k] == pat@[k],
        decreases n - j,
    {
        if s.get_char(at + j) != pat.get_char(j) {
            assert(s@.subrange(at as int, at + n)[j as int] != pat@[j as int]);
            return false;
        }
        j = j + 1;
    }
    assert(s@.subrange(at as int, at + n) =~= pat@);
    true
}

/// `s` starts with `prefix`.
pub fn starts_with(s: &str, prefix: &str) -> (r: bool)
    ensures
        r == has_prefix(s@, prefix@),
{
    if prefix.unicode_len() > s.unicode_len() {
        return false;
    }
    matches_at(s, prefix, 0)
}

/// `s` contains `pat`.
pub fn contains(s: &str, pat: &str) -> (r: bool)
    ensures
        r == has_substring(s@, pat@),
{
    let n = s.unicode_len();
    let m = pat.unicode_len();
    if m > n {
        assert forall|i: int| !occurs_at(s@, pat@, i) by {}
        return false;
    }
    if m == 0 {
        assert(s@.subrange(0, 0) =~= pat@);
        assert(occurs_at(s@, pat@, 0));
        return true;
    }
    let mut i: usize = 0;
    while i <= n - m
        invariant
            n == s@.len(),
            m == pat@.len(),
            1 <= m <= n,
            i <= n - m + 1,
            forall|k: int| 0 <= k < i ==> !occurs_at(s@, pat@, k),
        decreases n - m + 1 - i,
    {
        if matches_at(s, pat, i) {
            assert(occurs_at(s@, pat@, i as int));
            return true;
        }
        i = i + 1;
    }
    assert forall|k: int| !occurs_at(s@, pat@, k) by {}
    false
}


/// `a` comes strictly before `b` in lexicographic order of characters
/// (a proper prefix comes first).
pub open spec fn lex_lt(a: Seq<char>, b: Seq<char>) -> bool {
    exists|i: int| 0 <= i <= a.len() && i <= b.len() && a.take(i) == b.take(i) && (
        (i == a.len() && i < b.len()) || (i < a.len() && i < b.len() && (a[i] as u32) < (b[i] as u32)))
}

/// `i` is where `a` and `b` part: they agree before it, and there one of
/// them ends or they differ.
pub open spec fn parts_at(a: Seq<char>, b: Seq<char>, i: int) -> bool {
    0 <= i <= a.len() && i <= b.len() && a.take(i) == b.take(i) && (i == a.len() || i == b.len() || a[i] != b[i])
}

proof fn lemma_parts_from(a: Seq<char>, b: Seq<char>, k: int) -> (i: int)
    requires
        0 <= k <= a.len(),
        k <= b.len(),
        a.take(k) == b.take(k),
    ensures
        parts_at(a, b, i),
    decreases a.len() - k,
{
    if k == a.len() || k == b.len() || a[k] != b[k] {
        k
    } else {
        assert(a.take(k + 1) =~= a.take(k).push(a[k]));
        assert(b.take(k + 1) =~= b.take(k).push(b[k]));
        lemma_parts_from(a, b, k + 1)
    }
}

/// Any two sequences part somewhere.
pub proof fn lemma_parts(a: Seq<char>, b: Seq<char>) -> (i: int)
    ensures
        parts_at(a, b, i),
        parts_at(b, a, i),
{
    assert(a.take(0) =~= b.take(0));
    lemma_parts_from(a, b, 0)
}

proof fn lemma_parts_bound(a: Seq<char>, b: Seq<char>, i: int, j: int)
    requires
        parts_at(a, b, i),
        0 <= j <= a.len(),
        j <= b.len(),
        a.take(j) == b.take(j),
    ensures
        j <= i,
{
    if j > i {
        assert(a.take(j)[i] == a[i]);
        assert(b.take(j)[i] == b[i]);
    }
}

/// Where two sequences part decides their order.
pub proof fn lemma_lex_at(a: Seq<char>, b: Seq<char>, i: int)
    requires
        parts_at(a, b, i),
    ensures
        lex_lt(a, b) == ((i == a.len() && i < b.len()) || (i < a.len() && i < b.len() && (a[i] as u32) < (b[i] as u32))),
{
    if lex_lt(a, b) {
        let w = choose|w: int| 0 <= w <= a.len() && w <= b.len() && a.take(w) == b.take(w) && (
            (w == a.len() && w < b.len()) || (w < a.len() && w < b.len() && (a[w] as u32) < (b[w] as u32)));
        lemma_parts_bound(a, b, i, w);
        if w < i {
            assert(a.take(i)[w] == a[w]);
            assert(b.take(i)[w] == b[w]);
        }
    }
}

/// Of two different sequences one comes first.
pub proof fn lemma_lex_total(a: Seq<char>, b: Seq<char>)
    ensures
        a == b || lex_lt(a, b) || lex_lt(b, a),
{
    let i = lemma_parts(a, b);
    lemma_lex_at(a, b, i);
    lemma_lex_at(b, a, i);
    if i == a.len() && i == b.len() {
        assert(a =~= a.take(i));
        assert(b =~= b.take(i));
    } else if i < a.len() && i < b.len() {
        if (a[i] as u32) == (b[i] as u32) {
            vstd::utf8::char_u32_cast(a[i], a[i] as u32);
            vstd::utf8::char_u32_cast(b[i], b[i] as u32);
        }
    }
}

/// Two sequences do not each come before the other.
pub proof fn lemma_lex_asymmetric(a: Seq<char>, b: Seq<char>)
    ensures
        !(lex_lt(a, b) && lex_lt(b, a)),
{
    let i = lemma_parts(a, b);
    lemma_lex_at(a, b, i);
    lemma_lex_at(b, a, i);
}

/// The order is transitive.
pub proof fn lemma_lex_transitive(a: Seq<char>, b: Seq<char>, c: Seq<char>)
    requires
        lex_lt(a, b),
        lex_lt(b, c),
    ensures
        lex_lt(a, c),
{
    let i = lemma_parts(a, b);
    let j = lemma_parts(b, c);
    let k = lemma_parts(a, c);
    lemma_lex_at(a, b, i);
    lemma_lex_at(b, c, j);
    lemma_lex_at(a, c, k);
    let m = if i <= j { i } else { j };
    assert(a.take(m) =~= c.take(m)) by {
        assert(a.take(m) =~= a.take(i).take(m));
        assert(b.take(m) =~= b.take(i).take(m));
        assert(b.take(m) =~= b.take(j).take(m));
        assert(c.take(m) =~= c.take(j).take(m));
    }
    lemma_parts_bound(a, c, k, m);
    if i < j {
        assert(b.take(j)[m] == b[m]);
        assert(c.take(j)[m] == c[m]);
    } else if j < i {
        assert(a.take(i)[m] == a[m]);
        assert(b.take(i)[m] == b[m]);
    }
    if k > m {
        assert(a.take(k)[m] == a[m]);
        assert(c.take(k)[m] == c[m]);
    }
}

/// Lexicographic comparison of character sequences, the order of `str`'s
/// `cmp` (UTF-8 byte order is code point order).
pub fn str_lt(a: &str, b: &str) -> (r: bool)
    ensures
        r == lex_lt(a@, b@),
{
    let n = a.unicode_len();
    let m = b.unicode_len();
    let mut i: usize = 0;
    while i < n && i < m && a.get_char(i) == b.get_char(i)
        invariant
            n == a@.len(),
            m == b@.len(),
            i <= n,
            i <= m,
            a@.take(i as int) == b@.take(i as int),
        decreases n - i,
    {
        assert(a@.take(i + 1) =~= a@.take(i as int).push(a@[i as int]));
        assert(b@.take(i + 1) =~= b@.take(i as int).push(b@[i as int]));
        i = i + 1;
    }
    let r = if i == n {
        i < m
    } else if i == m {
        false
    } else {
        (a.get_char(i) as u32) < (b.get_char(i) as u32)
    };
    proof {
        if r {
            assert(0 <= i <= a@.len() && i <= b@.len() && a@.take(i as int) == b@.take(i as int));
        } else {
            assert forall|j: int| !(0 <= j <= a@.len() && j <= b@.len() && a@.take(j) == b@.take(j) && (
                (j == a@.len() && j < b@.len()) || (j < a@.len() && j < b@.len() && (a@[j] as u32) < (b@[j] as u32)))) by {
                if 0 <= j <= a@.len() && j <= b@.len() && a@.take(j) == b@.take(j) {
                    if j > i {
                        assert(a@.take(j)[i as int] == b@.take(j)[i as int]);
                    } else if j < i {
                        assert(a@.take(i as int)[j] == b@.take(i as int)[j]);
                    }
                }
            }
        }
    }
    r
}


/// Unicode white space, the characters `char::is_whitespace` accepts.
pub open spec fn is_ws(c: char) -> bool {
    let u = c as u32;
    (0x9 <= u <= 0xD) || u == 0x20 || u == 0x85 || u == 0xA0 || u == 0x1680
        || (0x2000 <= u <= 0x200A) || u == 0x2028 || u == 0x2029 || u == 0x202F
        || u == 0x205F || u == 0x3000
}

/// Whether a character is white space.
pub fn char_is_ws(c: char) -> (r: bool)
    ensures
        r == is_ws(c),
{
    let u = c as u32;
    (0x9 <= u && u <= 0xD) || u == 0x20 || u == 0x85 || u == 0xA0 || u == 0x1680
        || (0x2000 <= u && u <= 0x200A) || u == 0x2028 || u == 0x2029 || u == 0x202F
        || u == 0x205F || u == 0x3000
}

/// The number of white-space characters `s` starts with.
pub open spec fn leading_ws(s: Seq<char>) -> nat
    decreases s.len(),
{
    if s.len() == 0 || !is_ws(s[0]) { 0 } else { 1 + leading_ws(s.drop_first()) }
}

/// The number of white-space characters `s` ends with.
pub open spec fn trailing_ws(s: Seq<char>) -> nat
    decreases s.len(),
{
    if s.len() == 0 || !is_ws(s.last()) { 0 } else { 1 + trailing_ws(s.drop_last()) }
}

/// `s` without leading and trailing white space.
pub open spec fn trim_ws(s: Seq<char>) -> Seq<char> {
    if leading_ws(s) == s.len() {
        Seq::empty()
    } else {
        s.subrange(leading_ws(s) as int, s.len() - trailing_ws(s))
    }
}

proof fn lemma_leading_ws(s: Seq<char>, k: int)
    requires
        0 <= k <= s.len(),
        forall|j: int| 0 <= j < k ==> is_ws(#[trigger] s[j]),
        k == s.len() || !is_ws(s[k]),
    ensures
        leading_ws(s) == k,
    decreases s.len(),
{
    if s.len() > 0 && k > 0 {
        let t = s.drop_first();
        assert forall|j: int| 0 <= j < k - 1 implies is_ws(#[trigger] t[j]) by {
            assert(t[j] == s[j + 1]);
        }
        if k < s.len() {
            assert(t[k - 1] == s[k]);
        }
        lemma_leading_ws(t, k - 1);
    }
}

proof fn lemma_trailing_ws(s: Seq<char>, k: int)
    requires
        0 <= k <= s.len(),
        forall|j: int| s.len() - k <= j < s.len() ==> is_ws(#[trigger] s[j]),
        k == s.len() || !is_ws(s[s.len() - 1 - k]),
    ensures
        trailing_ws(s) == k,
    decreases s.len(),
{
    if s.len() > 0 && k > 0 {
        let t = s.drop_last();
        assert forall|j: int| t.len() - (k - 1) <= j < t.len() implies is_ws(#[trigger] t[j]) by {
            assert(t[j] == s[j]);
        }
        if k < s.len() {
            assert(t[t.len() - 1 - (k - 1)] == s[s.len() - 1 - k]);
        }
        lemma_trailing_ws(t, k - 1);
    }
}

/// `s` without leading and trailing white space, as `str::trim` gives it.
pub fn trim_str(s: &str) -> (r: String)
    ensures
        r@ == trim_ws(s@),
{
    let n = s.unicode_len();
    let mut a: usize = 0;
    while a < n && char_is_ws(s.get_char(a))
        invariant
            n == s@.len(),
            a <= n,
            forall|j: int| 0 <= j < a ==> is_ws(#[trigger] s@[j]),
        decreases n - a,
    {
        a = a + 1;
    }
    proof { lemma_leading_ws(s@, a as int); }
    if a == n {
        return String::new();
    }
    let mut t: usize = 0;
    while t < n - a && char_is_ws(s.get_char(n - 1 - t))
        invariant
            n == s@.len(),
            a < n,
            t <= n - a,
            forall|j: int| 0 <= j < a ==> is_ws(#[trigger] s@[j]),
            !is_ws(s@[a as int]),
            forall|j: int| n - t <= j < n ==> is_ws(#[trigger] s@[j]),
        decreases n - a - t,
    {
        t = t + 1;
    }
    proof {
        if t == n - a {
            assert(is_ws(s@[a as int]));
        }
        lemma_trailing_ws(s@, t as int);
    }
    String::from_str(s.substring_char(a, n - t))
}


/// Appends the bytes of `b` to `out`.
pub fn append_bytes(out: &mut Vec<u8>, b: &[u8])
    ensures
        final(out)@ == old(out)@ + b@,
{
    let mut i: usize = 0;
    while i < b.len()
        invariant
            i <= b@.len(),
            out@ == old(out)@ + b@.take(i as int),
        decreases b@.len() - i,
    {
        out.push(b[i]);
        assert(b@.take(i + 1) =~= b@.take(i as int).push(b@[i as int]));
        assert(out@ =~= old(out)@ + b@.take(i + 1));
        i = i + 1;
    }
    assert(b@.take(b@.len() as int) =~= b@);
}

/// The number a little-endian byte sequence encodes.
pub open spec fn le_value(s: Seq<u8>) -> nat
    decreases s.len(),
{
    if s.len() == 0 { 0 } else { (s[0] + 256 * le_value(s.drop_first())) as nat }
}

/// `256` to the power `n`.
pub open spec fn pow256(n: nat) -> nat
    decreases n,
{
    if n == 0 { 1 } else { 256 * pow256((n - 1) as nat) }
}

proof fn lemma_le_value_bound(s: Seq<u8>)
    ensures
        le_value(s) < pow256(s.len()),
    decreases s.len(),
{
    if s.len() > 0 {
        lemma_le_value_bound(s.drop_first());
        let a = s[0] as int;
        let v = le_value(s.drop_first()) as int;
        let p = pow256(s.drop_first().len()) as int;
        assert(a + 256 * v < 256 * p) by (nonlinear_arith)
            requires
                0 <= a < 256,
                0 <= v < p,
        ;
    }
}

/// The unsigned 128-bit number of the first 16 bytes, little-endian, as
/// `u128::from_le_bytes` reads them.
pub fn u128_from_le_prefix(b: &[u8]) -> (r: u128)
    requires
        b@.len() >= 16,
    ensures
        r == le_value(b@.take(16)),
{
    let mut acc: u128 = 0;
    let mut i: usize = 16;
    assert(b@.subrange(16, 16) =~= Seq::<u8>::empty());
    while i > 0
        invariant
            i <= 16,
            b@.len() >= 16,
            acc == le_value(b@.subrange(i as int, 16)),
            acc < pow256((16 - i) as nat),
        decreases i,
    {
        let ghost sub = b@.subrange(i - 1, 16);
        assert(sub.drop_first() =~= b@.subrange(i as int, 16));
        proof {
            lemma_le_value_bound(sub);
            lemma_pow256_16();
            lemma_pow256_mono((17 - i) as nat, 16);
        }
        assert(acc * 256 + b[i - 1] == le_value(sub)) by (nonlinear_arith)
            requires
                le_value(sub) == sub[0] + 256 * le_value(sub.drop_first()),
                sub[0] == b@[i - 1],
                acc == le_value(sub.drop_first()),
        ;
        acc = acc * 256 + b[i - 1] as u128;
        i = i - 1;
    }
    assert(b@.subrange(0, 16) =~= b@.take(16));
    acc
}

proof fn lemma_pow256_16()
    ensures
        pow256(16) == 0x1_0000_0000_0000_0000_0000_0000_0000_0000nat,
{
    reveal_with_fuel(pow256, 17);
}

proof fn lemma_pow256_mono(a: nat, b: nat)
    requires
        a <= b,
    ensures
        pow256(a) <= pow256(b),
    decreases b,
{
    if a < b {
        lemma_pow256_mono(a, (b - 1) as nat);
    }
}


/// The first position of a line feed in `s`, if any.
pub open spec fn find_newline(s: Seq<char>) -> Option<int>
    decreases s.len(),
{
    if s.len() == 0 {
        None
    } else if s[0] == '\n' {
        Some(0)
    } else {
        match find_newline(s.drop_first()) {
            Some(k) => Some(k + 1),
            None => None,
        }
    }
}

/// A line without the carriage return that ended it.
pub open spec fn strip_cr(line: Seq<char>) -> Seq<char> {
    if line.len() > 0 && line.last() == '\r' { line.drop_last() } else { line }
}

/// The lines of `s`, as `str::lines` gives them: split at line feeds,
/// a carriage return before a line feed dropped, and no empty line after
/// a final line feed.
pub open spec fn lines_of(s: Seq<char>) -> Seq<Seq<char>>
    decreases s.len(),
{
    if s.len() == 0 {
        Seq::empty()
    } else {
        match find_newline(s) {
            Some(k) => if 0 <= k < s.len() {
                seq![strip_cr(s.take(k))] + lines_of(s.skip(k + 1))
            } else {
                Seq::empty()
            },
            None => seq![s],
        }
    }
}

proof fn lemma_find_newline(s: Seq<char>, k: int)
    requires
        0 <= k <= s.len(),
        forall|j: int| 0 <= j < k ==> #[trigger] s[j] != '\n',
    ensures
        k < s.len() && s[k] == '\n' ==> find_newline(s) == Some(k),
        k == s.len() ==> find_newline(s) is None,
    decreases s.len(),
{
    if s.len() > 0 && k > 0 {
        let t = s.drop_first();
        assert forall|j: int| 0 <= j < k - 1 implies #[trigger] t[j] != '\n' by {
            assert(t[j] == s[j + 1]);
        }
        if k < s.len() {
            assert(t[k - 1] == s[k]);
        }
        lemma_find_newline(t, k - 1);
    }
}

/// The lines of `s`, as `str::lines` gives them.
pub fn split_lines(s: &str) -> (r: Vec<String>)
    ensures
        r@.map_values(|x: String| x@) == lines_of(s@),
{
    let n = s.unicode_len();
    let mut out: Vec<String> = Vec::new();
    let mut start: usize = 0;
    let mut i: usize = 0;
    assert(s@.skip(0) =~= s@);
    assert(out@.map_values(|x: String| x@) + lines_of(s@) =~= lines_of(s@));
    while i < n
        invariant
            n == s@.len(),
            start <= i <= n,
            forall|j: int| start <= j < i ==> #[trigger] s@[j] != '\n',
            lines_of(s@) == out@.map_values(|x: String| x@) + lines_of(s@.skip(start as int)),
        decreases n - i,
    {
        if s.get_char(i) == '\n' {
            let ghost rest = s@.skip(start as int);
            proof {
                assert forall|j: int| 0 <= j < i - start implies #[trigger] rest[j] != '\n' by {
                    assert(rest[j] == s@[start + j]);
                }
                lemma_find_newline(rest, i - start);
                assert(rest.take(i - start) =~= s@.subrange(start as int, i as int));
                assert(rest.skip(i - start + 1) =~= s@.skip(i + 1));
            }
            let mut end = i;
            if end > start && s.get_char(end - 1) == '\r' {
                end = end - 1;
            }
            let line = String::from_str(s.substring_char(start, end));
            let ghost before = out@.map_values(|x: String| x@);
            out.push(line);
            proof {
                assert(line@ == strip_cr(rest.take(i - start)));
                assert(out@.map_values(|x: String| x@) =~= before.push(line@));
                assert(seq![strip_cr(rest.take(i - start))] + lines_of(s@.skip(i + 1))
                    =~= seq![line@] + lines_of(s@.skip(i + 1)));
                assert(before + (seq![line@] + lines_of(s@.skip(i + 1)))
                    =~= before.push(line@) + lines_of(s@.skip(i + 1)));
            }
            start = i + 1;
        }
        i = i + 1;
    }
    let ghost rest = s@.skip(start as int);
    if start < n {
        proof {
            assert forall|j: int| 0 <= j < n - start implies #[trigger] rest[j] != '\n' by {
                assert(rest[j] == s@[start + j]);
            }
            lemma_find_newline(rest, n - start);
        }
        let line = String::from_str(s.substring_char(start, n));
        let ghost before = out@.map_values(|x: String| x@);
        out.push(line);
        assert(line@ =~= rest);
        assert(out@.map_values(|x: String| x@) =~= before + lines_of(rest));
    } else {
        assert(rest.len() == 0);
        assert(out@.map_values(|x: String| x@) =~= out@.map_values(|x: String| x@) + lines_of(rest));
    }
    out
}

/// The `n` little-endian bytes of `x` (higher bytes dropped).
pub open spec fn le_bytes(x: nat, n: nat) -> Seq<u8>
    decreases n,
{
    if n == 0 {
        Seq::empty()
    } else {
        seq![(x % 256) as u8] + le_bytes(x / 256, (n - 1) as nat)
    }
}

/// Appends the `n` little-endian bytes of `x` to `out`.
pub fn push_le_bytes(out: &mut Vec<u8>, x: u128, n: usize)
    ensures
        final(out)@ == old(out)@ + le_bytes(x as nat, n as nat),
{
    let mut v = x;
    let mut k: usize = 0;
    while k < n
        invariant
            k <= n,
            final_bytes_ok(old(out)@, out@, x as nat, k as nat, v as nat, n as nat),
        decreases n - k,
    {
        proof { lemma_le_bytes_step(x as nat, k as nat, v as nat, n as nat); }
        let ghost cur = out@;
        let ghost rest = le_bytes((v / 256) as nat, (n - (k + 1)) as nat);
        out.push((v % 256) as u8);
        assert(cur + (seq![(v % 256) as u8] + rest) =~= out@ + rest);
        v = v / 256;
        k = k + 1;
    }
    proof { lemma_le_bytes_done(old(out)@, out@, x as nat, n as nat, v as nat); }
}

/// Loop state of `push_le_bytes`: `k` bytes written, `v` left to write.
spec fn final_bytes_ok(start: Seq<u8>, cur: Seq<u8>, x: nat, k: nat, v: nat, n: nat) -> bool {
    start + le_bytes(x, n) == cur + le_bytes(v, (n - k) as nat)
}

proof fn lemma_le_bytes_step(x: nat, k: nat, v: nat, n: nat)
    requires
        k < n,
    ensures
        le_bytes(v, (n - k) as nat) == seq![(v % 256) as u8] + le_bytes(v / 256, (n - (k + 1)) as nat),
{
}

proof fn lemma_le_bytes_done(start: Seq<u8>, cur: Seq<u8>, x: nat, n: nat, v: nat)
    requires
        final_bytes_ok(start, cur, x, n, v, n),
    ensures
        cur == start + le_bytes(x, n),
{
    assert(le_bytes(v, 0) =~= Seq::<u8>::empty());
    assert(cur + le_bytes(v, 0) =~= cur);
}

} // verus!

verus! {

/// What `{:?}` renders for a string: the quoted, escaped form.
pub uninterp spec fn debug_quoted(s: Seq<char>) -> Seq<char>;

/// Renders a string as `{:?}` does (std's `Debug` for `str`).
/// Trusted: the result is `debug_quoted` of the argument; its exact
/// escaping rules are std's and are not restated here.
#[verifier::external_body]
pub fn debug_string(s: &str) -> (r: String)
    ensures
        r@ == debug_quoted(s@),
{
    format!("{:?}", s)
}

/// Wrapping addition on counters.
pub open spec fn bump(x: u64, by: u64) -> u64 {
    vstd::wrapping::u64_specs::wrapping_add(x, by)
}

} // verus!
