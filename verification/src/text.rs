//! Text building blocks: hexadecimal and decimal rendering, joining, and
//! character-level comparisons of strings.
use vstd::prelude::*;
use vstd::string::*;

verus! {

// ── trusted access to `String::push` ──

/// Appends one character to a string.
///
/// Trusted: calls `String::push`, whose documentation states that it appends
/// the given `char` to the end of the string; the contract says exactly that.
#[verifier::external_body]
pub(crate) fn push_char(s: &mut String, c: char)
    ensures
        final(s)@ == old(s)@.push(c),
{
    s.push(c);
}

// ── digits ──

/// The hexadecimal digit for `d` (`d < 16`), upper or lower case.
pub open spec fn hex_digit(d: nat, upper: bool) -> char {
    if d < 10 {
        ((48 + d) as u8) as char
    } else if upper {
        ((55 + d) as u8) as char
    } else {
        ((87 + d) as u8) as char
    }
}

/// The hexadecimal digits of `v`, most significant first, without leading zeros
/// (a single `0` for zero).
pub open spec fn hex_digits(v: nat, upper: bool) -> Seq<char>
    decreases v,
{
    if v < 16 {
        seq![hex_digit(v, upper)]
    } else {
        hex_digits(v / 16, upper).push(hex_digit(v % 16, upper))
    }
}

/// `s` padded on the left with `0` characters up to `width` characters.
pub open spec fn zero_pad(s: Seq<char>, width: nat) -> Seq<char> {
    if s.len() >= width {
        s
    } else {
        Seq::new((width - s.len()) as nat, |i: int| '0') + s
    }
}

/// What `format!("{:0w$X}", v)` (or `{:0w$x}` when `upper` is false) writes.
pub open spec fn hex_text(v: nat, width: nat, upper: bool) -> Seq<char> {
    zero_pad(hex_digits(v, upper), width)
}

/// The decimal digits of `n`, most significant first (a single `0` for zero).
pub open spec fn dec_digits(n: nat) -> Seq<char>
    decreases n,
{
    if n < 10 {
        seq![((48 + n) as u8) as char]
    } else {
        dec_digits(n / 10).push(((48 + n % 10) as u8) as char)
    }
}

/// What `Display` writes for the integer `i`.
pub open spec fn dec_text(i: int) -> Seq<char> {
    if i < 0 {
        seq!['-'] + dec_digits((-i) as nat)
    } else {
        dec_digits(i as nat)
    }
}

/// The parts joined with `sep` between consecutive ones.
pub open spec fn join(parts: Seq<Seq<char>>, sep: Seq<char>) -> Seq<char>
    decreases parts.len(),
{
    if parts.len() == 0 {
        Seq::empty()
    } else if parts.len() == 1 {
        parts[0]
    } else {
        join(parts.drop_last(), sep) + sep + parts.last()
    }
}

/// Two-digit lower-case hexadecimal bytes separated by single spaces.
pub open spec fn hex_bytes(bytes: Seq<u8>) -> Seq<char> {
    join(bytes.map_values(|b: u8| hex_text(b as nat, 2, false)), seq![' '])
}

/// Joining one more part adds the separator and the part at the end.
pub proof fn lemma_join_push(parts: Seq<Seq<char>>, sep: Seq<char>, x: Seq<char>)
    ensures
        join(parts.push(x), sep) == if parts.len() == 0 {
            x
        } else {
            join(parts, sep) + sep + x
        },
{
    assert(parts.push(x).drop_last() =~= parts);
}

proof fn lemma_hex_digits_len(v: nat, upper: bool)
    ensures
        hex_digits(v, upper).len() >= 1,
    decreases v,
{
    if v >= 16 {
        lemma_hex_digits_len(v / 16, upper);
    }
}

fn hex_digit_exec(d: u64, upper: bool) -> (c: char)
    requires
        d < 16,
    ensures
        c == hex_digit(d as nat, upper),
{
    let b: u8 = if d < 10 {
        (48 + d) as u8
    } else if upper {
        (55 + d) as u8
    } else {
        (87 + d) as u8
    };
    b as char
}

fn push_hex_digits(out: &mut String, v: u64, upper: bool)
    ensures
        final(out)@ == old(out)@ + hex_digits(v as nat, upper),
    decreases v,
{
    if v >= 16 {
        push_hex_digits(out, v / 16, upper);
    }
    let c = hex_digit_exec(v % 16, upper);
    push_char(out, c);
    proof {
        if v < 16 {
            assert(v % 16 == v);
        }
    }
    assert(final(out)@ =~= old(out)@ + hex_digits(v as nat, upper)) by {
        if v >= 16 {
            assert(hex_digits(v as nat, upper) == hex_digits((v / 16) as nat, upper).push(
                hex_digit((v % 16) as nat, upper),
            ));
        }
    }
}

/// Appends `hex_text(v, width, upper)`.
pub fn push_hex(out: &mut String, v: u64, width: usize, upper: bool)
    ensures
        final(out)@ == old(out)@ + hex_text(v as nat, width as nat, upper),
{
    let mut digits = String::new();
    push_hex_digits(&mut digits, v, upper);
    assert(digits@ =~= hex_digits(v as nat, upper));
    let n = digits.as_str().unicode_len();
    if n < width {
        let mut i: usize = 0;
        while i < width - n
            invariant
                i <= width - n,
                n < width,
                out@ == old(out)@ + Seq::new(i as nat, |j: int| '0'),
            decreases width - n - i,
        {
            push_char(out, '0');
            i = i + 1;
            assert(out@ =~= old(out)@ + Seq::new(i as nat, |j: int| '0'));
        }
    }
    out.append(digits.as_str());
    assert(out@ =~= old(out)@ + hex_text(v as nat, width as nat, upper));
}

fn push_dec_digits(out: &mut String, n: u64)
    ensures
        final(out)@ == old(out)@ + dec_digits(n as nat),
    decreases n,
{
    if n >= 10 {
        push_dec_digits(out, n / 10);
    }
    let b: u8 = (48 + n % 10) as u8;
    push_char(out, b as char);
    proof {
        if n < 10 {
            assert(n % 10 == n);
        }
    }
    assert(out@ =~= old(out)@ + dec_digits(n as nat));
}

/// Appends the decimal text of `v` (as `Display` writes it).
pub fn push_dec(out: &mut String, v: i64)
    ensures
        final(out)@ == old(out)@ + dec_text(v as int),
{
    if v < 0 {
        push_char(out, '-');
        let m: u64 = (0i128 - (v as i128)) as u64;
        push_dec_digits(out, m);
    } else {
        push_dec_digits(out, v as u64);
    }
    assert(out@ =~= old(out)@ + dec_text(v as int));
}

/// Writing one more byte adds its two digits, after a space when bytes came
/// before.
pub proof fn lemma_hex_bytes_push(pre: Seq<u8>, b: u8)
    ensures
        hex_bytes(pre.push(b)) == if pre.len() == 0 {
            hex_text(b as nat, 2, false)
        } else {
            hex_bytes(pre) + seq![' '] + hex_text(b as nat, 2, false)
        },
{
    let f = |x: u8| hex_text(x as nat, 2, false);
    assert(pre.push(b).map_values(f) =~= pre.map_values(f).push(f(b)));
    lemma_join_push(pre.map_values(f), seq![' '], f(b));
}

/// Appends the decimal text of the unsigned `v`.
pub fn push_dec_u64(out: &mut String, v: u64)
    ensures
        final(out)@ == old(out)@ + dec_text(v as int),
{
    push_dec_digits(out, v);
}

/// Appends `hex_bytes(bytes)`.
pub fn push_hex_bytes(out: &mut String, bytes: &[u8])
    ensures
        final(out)@ == old(out)@ + hex_bytes(bytes@),
{
    let mut i: usize = 0;
    while i < bytes.len()
        invariant
            i <= bytes@.len(),
            out@ == old(out)@ + hex_bytes(bytes@.subrange(0, i as int)),
        decreases bytes@.len() - i,
    {
        if i > 0 {
            push_char(out, ' ');
        }
        push_hex(out, bytes[i] as u64, 2, false);
        proof {
            let pre = bytes@.subrange(0, i as int);
            assert(bytes@.subrange(0, i + 1) =~= pre.push(bytes@[i as int]));
            lemma_hex_bytes_push(pre, bytes@[i as int]);
        }
        i = i + 1;
        assert(out@ =~= old(out)@ + hex_bytes(bytes@.subrange(0, i as int)));
    }
    assert(bytes@.subrange(0, bytes@.len() as int) =~= bytes@);
}

// ── comparisons ──

/// Character-wise equality of two string slices.
pub fn str_eq(a: &str, b: &str) -> (r: bool)
    ensures
        r == (a@ == b@),
{
    let n = a.unicode_len();
    let m = b.unicode_len();
    if n != m {
        return false;
    }
    let mut i: usize = 0;
    while i < n
        invariant
            n == a@.len(),
            m == b@.len(),
            n == m,
            i <= n,
            forall|j: int| 0 <= j < i ==> a@[j] == b@[j],
        decreases n - i,
    {
        if a.get_char(i) != b.get_char(i) {
            return false;
        }
        i = i + 1;
    }
    assert(a@ =~= b@);
    true
}

/// Whether `s` begins with `prefix`.
pub fn str_starts_with(s: &str, prefix: &str) -> (r: bool)
    ensures
        r == (prefix@.len() <= s@.len() && s@.subrange(0, prefix@.len() as int) == prefix@),
{
    let n = s.unicode_len();
    let m = prefix.unicode_len();
    if m > n {
        return false;
    }
    let mut i: usize = 0;
    while i < m
        invariant
            n == s@.len(),
            m == prefix@.len(),
            m <= n,
            i <= m,
            forall|j: int| 0 <= j < i ==> s@[j] == prefix@[j],
        decreases m - i,
    {
        if s.get_char(i) != prefix.get_char(i) {
            assert(s@.subrange(0, m as int)[i as int] != prefix@[i as int]);
            return false;
        }
        i = i + 1;
    }
    assert(s@.subrange(0, m as int) =~= prefix@);
    true
}

/// `c` with ASCII upper-case letters mapped to lower case.
pub open spec fn ascii_lower_char(c: char) -> char {
    if 'A' <= c && c <= 'Z' {
        ((c as u8) + 32) as u8 as char
    } else {
        c
    }
}

/// What `str::to_ascii_lowercase` makes of `s`.
pub open spec fn ascii_lower(s: Seq<char>) -> Seq<char> {
    s.map_values(|c: char| ascii_lower_char(c))
}

/// The ASCII lower-case form of `s` (other characters kept as they are).
pub fn to_ascii_lowercase(s: &str) -> (r: String)
    ensures
        r@ == ascii_lower(s@),
{
    let n = s.unicode_len();
    let mut out = String::new();
    let mut i: usize = 0;
    while i < n
        invariant
            n == s@.len(),
            i <= n,
            out@ == ascii_lower(s@.subrange(0, i as int)),
        decreases n - i,
    {
        let c = s.get_char(i);
        let l = if 'A' <= c && c <= 'Z' {
            ((c as u8) + 32) as char
        } else {
            c
        };
        push_char(&mut out, l);
        i = i + 1;
        assert(out@ =~= ascii_lower(s@.subrange(0, i as int)));
    }
    assert(s@.subrange(0, n as int) =~= s@);
    out
}

/// A new string holding the characters of `s`.
pub fn to_string(s: &str) -> (r: String)
    ensures
        r@ == s@,
{
    String::from_str(s)
}

// ── hexadecimal numbers ──

/// The value of a hexadecimal digit of either case.
pub open spec fn hex_digit_value(c: char) -> Option<nat> {
    if '0' <= c && c <= '9' {
        Some((c as nat - '0' as nat) as nat)
    } else if 'a' <= c && c <= 'f' {
        Some((c as nat - 'a' as nat + 10) as nat)
    } else if 'A' <= c && c <= 'F' {
        Some((c as nat - 'A' as nat + 10) as nat)
    } else {
        None
    }
}

pub open spec fn all_hex(s: Seq<char>) -> bool {
    forall|i: int| 0 <= i < s.len() ==> (#[trigger] hex_digit_value(s[i])) is Some
}

/// The number the hexadecimal digits of `s` spell.
pub open spec fn hex_value(s: Seq<char>) -> nat
    decreases s.len(),
{
    if s.len() == 0 {
        0
    } else {
        hex_value(s.drop_last()) * 16 + match hex_digit_value(s.last()) {
            Some(d) => d,
            None => 0,
        }
    }
}

/// What `from_str_radix(s, 16)` accepts for an unsigned type whose largest
/// value is `max`: an optional `+`, then one or more hexadecimal digits
/// whose value is at most `max`.
pub open spec fn spec_parse_hex(s: Seq<char>, max: nat) -> Option<usize> {
    let digits = if s.len() > 0 && s[0] == '+' {
        s.drop_first()
    } else {
        s
    };
    if digits.len() > 0 && all_hex(digits) && hex_value(digits) <= max {
        Some(hex_value(digits) as usize)
    } else {
        None
    }
}

/// A prefix of a hexadecimal numeral never has a larger value.
pub proof fn lemma_hex_value_prefix(s: Seq<char>, j: int)
    requires
        0 <= j <= s.len(),
    ensures
        hex_value(s.subrange(0, j)) <= hex_value(s),
    decreases s.len(),
{
    if j < s.len() {
        lemma_hex_value_prefix(s.drop_last(), j);
        assert(s.drop_last().subrange(0, j) =~= s.subrange(0, j));
    } else {
        assert(s.subrange(0, j) =~= s);
    }
}

pub fn digit_value(c: char) -> (r: Option<usize>)
    ensures
        match hex_digit_value(c) {
            Some(d) => r == Some(d as usize),
            None => r is None,
        },
{
    if '0' <= c && c <= '9' {
        Some((c as u32 - '0' as u32) as usize)
    } else if 'a' <= c && c <= 'f' {
        Some((c as u32 - 'a' as u32 + 10) as usize)
    } else if 'A' <= c && c <= 'F' {
        Some((c as u32 - 'A' as u32 + 10) as usize)
    } else {
        None
    }
}

/// Parses the characters `start..end` of `s` as `from_str_radix` does in
/// base 16 for an unsigned type whose largest value is `max`.
#[verifier::rlimit(40)]
#[verifier::spinoff_prover]
pub fn parse_hex_range(s: &str, start: usize, end: usize, max: usize) -> (r: Option<usize>)
    requires
        start <= end <= s@.len(),
    ensures
        r == spec_parse_hex(s@.subrange(start as int, end as int), max as nat),
{
    let ghost whole = s@.subrange(start as int, end as int);
    let mut i = start;
    if i < end && s.get_char(i) == '+' {
        i = i + 1;
    }
    let ghost digits = s@.subrange(i as int, end as int);
    assert(digits =~= if whole.len() > 0 && whole[0] == '+' {
        whole.drop_first()
    } else {
        whole
    });
    if i == end {
        return None;
    }
    let first = i;
    let mut value: usize = 0;
    while i < end
        invariant
            first <= i <= end <= s@.len(),
            digits == s@.subrange(first as int, end as int),
            spec_parse_hex(s@.subrange(start as int, end as int), max as nat) == (if digits.len() > 0 && all_hex(
                digits,
            ) && hex_value(digits) <= max {
                Some(hex_value(digits) as usize)
            } else {
                None
            }),
            value == hex_value(s@.subrange(first as int, i as int)),
            value <= max,
            all_hex(s@.subrange(first as int, i as int)),
        decreases end - i,
    {
        let ghost pre = s@.subrange(first as int, i as int);
        let ghost next = s@.subrange(first as int, i + 1);
        assert(next.drop_last() =~= pre);
        assert(next.last() == s@[i as int]);
        let d = match digit_value(s.get_char(i)) {
            Some(d) => d,
            None => {
                assert(!all_hex(digits)) by {
                    assert(digits[i - first] == s@[i as int]);
                    assert(hex_digit_value(digits[i - first]) is None);
                }
                return None;
            },
        };
        if d > max || value > (max - d) / 16 {
            proof {
                assert(hex_value(next) == value * 16 + d);
                assert(value * 16 + d > max) by (nonlinear_arith)
                    requires
                        d > max || value > (max - d) / 16,
                        d < 16,
                ;
                if all_hex(digits) {
                    lemma_hex_value_prefix(digits, i + 1 - first);
                    assert(digits.subrange(0, i + 1 - first) =~= next);
                }
            }
            return None;
        }
        proof {
            assert(value * 16 + d <= max) by (nonlinear_arith)
                requires
                    d <= max,
                    value <= (max - d) / 16,
                    d < 16,
            ;
        }
        value = value * 16 + d;
        i = i + 1;
        assert(all_hex(next)) by {
            assert forall|k: int| 0 <= k < next.len() implies (#[trigger] hex_digit_value(next[k])) is Some by {
                if k < pre.len() {
                    assert(next[k] == pre[k]);
                }
            }
        }
    }
    Some(value)
}

/// Each digit `hex_digit` writes reads back as its value.
pub proof fn lemma_hex_digit_value(d: nat, upper: bool)
    requires
        d < 16,
    ensures
        hex_digit_value(hex_digit(d, upper)) == Some(d),
{
    let c = hex_digit(d, upper);
    if d < 10 {
        assert(c as nat == 48 + d);
    } else if upper {
        assert(c as nat == 55 + d);
    } else {
        assert(c as nat == 87 + d);
    }
}

/// The digits `hex_digits` writes are hexadecimal and spell `v`.
pub proof fn lemma_hex_digits_value(v: nat, upper: bool)
    ensures
        all_hex(hex_digits(v, upper)),
        hex_value(hex_digits(v, upper)) == v,
    decreases v,
{
    let s = hex_digits(v, upper);
    if v < 16 {
        lemma_hex_digit_value(v, upper);
        assert(s.drop_last() =~= Seq::<char>::empty());
        assert(s.last() == hex_digit(v, upper));
        assert(hex_value(Seq::<char>::empty()) == 0);
        assert(hex_value(s) == hex_value(s.drop_last()) * 16 + v);
    } else {
        lemma_hex_digits_value(v / 16, upper);
        lemma_hex_digit_value(v % 16, upper);
        let pre = hex_digits(v / 16, upper);
        assert(s.drop_last() =~= pre);
        assert(s.last() == hex_digit(v % 16, upper));
        assert((v / 16) * 16 + v % 16 == v);
        assert(hex_value(s) == hex_value(pre) * 16 + v % 16);
        assert forall|i: int| 0 <= i < s.len() implies (#[trigger] hex_digit_value(s[i])) is Some by {
            if i < pre.len() {
                assert(s[i] == pre[i]);
            }
        }
    }
}

/// Leading zeros do not change the value of hexadecimal digits.
pub proof fn lemma_hex_value_zeros(z: nat, s: Seq<char>)
    ensures
        hex_value(Seq::new(z, |i: int| '0') + s) == hex_value(s),
    decreases s.len(), z,
{
    let zs = Seq::new(z, |i: int| '0');
    if s.len() == 0 {
        assert(zs + s =~= zs);
        if z > 0 {
            assert(zs.drop_last() =~= Seq::new((z - 1) as nat, |i: int| '0'));
            lemma_hex_value_zeros((z - 1) as nat, s);
            assert(Seq::new((z - 1) as nat, |i: int| '0') + s =~= Seq::new((z - 1) as nat, |i: int| '0'));
            assert(hex_digit_value('0') == Some(0nat));
        }
    } else {
        lemma_hex_value_zeros(z, s.drop_last());
        assert((zs + s).drop_last() =~= zs + s.drop_last());
    }
}

/// `hex_text` writes hexadecimal digits that spell `v`.
pub proof fn lemma_hex_text_value(v: nat, width: nat, upper: bool)
    ensures
        all_hex(hex_text(v, width, upper)),
        hex_value(hex_text(v, width, upper)) == v,
        hex_text(v, width, upper).len() > 0,
{
    lemma_hex_digits_value(v, upper);
    let d = hex_digits(v, upper);
    if d.len() < width {
        lemma_hex_value_zeros((width - d.len()) as nat, d);
        let t = hex_text(v, width, upper);
        assert forall|i: int| 0 <= i < t.len() implies (#[trigger] hex_digit_value(t[i])) is Some by {
            if i >= width - d.len() {
                assert(t[i] == d[i - (width - d.len())]);
            }
        }
    }
}

} // verus!
