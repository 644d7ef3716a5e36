//! Text helpers shared by the tools: lossy UTF-8 decoding, decimal and
//! hexadecimal rendering, and the number and whitespace conventions of the
//! textual inputs they read.
use vstd::prelude::*;
use vstd::utf8::*;

verus! {

/// What `String::from_utf8_lossy` makes of a byte sequence.
pub uninterp spec fn utf8_lossy(bytes: Seq<u8>) -> Seq<char>;

/// `s` is the text that `bytes` decode to, invalid sequences replaced by
/// U+FFFD: for valid UTF-8, the plain decoding.
pub open spec fn decoded_text(s: Seq<char>, bytes: Seq<u8>) -> bool {
    &&& s == utf8_lossy(bytes)
    &&& valid_utf8(bytes) ==> s == decode_utf8(bytes)
}

/// Decodes bytes as UTF-8, replacing each invalid sequence by U+FFFD.
///
/// Calls `String::from_utf8_lossy`. The contract names its result
/// `utf8_lossy` and, as its documentation says, gives the plain decoding when
/// the bytes are valid UTF-8.
#[verifier::external_body]
pub(crate) fn lossy_string(bytes: &[u8]) -> (s: String)
    ensures
        s@ == utf8_lossy(bytes@),
        valid_utf8(bytes@) ==> s@ == decode_utf8(bytes@),
{
    String::from_utf8_lossy(bytes).into_owned()
}

/// The character of a decimal digit.
pub open spec fn digit_char(d: nat) -> char {
    (48 + d) as char
}

/// The decimal rendering of a natural number, without sign or leading zeros.
pub open spec fn decimal(n: nat) -> Seq<char>
    decreases n,
{
    if n < 10 {
        seq![digit_char(n)]
    } else {
        decimal(n / 10).push(digit_char(n % 10))
    }
}

/// Appends the character of the digit `d`.
fn push_digit(s: &mut String, d: u64)
    requires
        d < 10,
    ensures
        final(s)@ == old(s)@.push(digit_char(d as nat)),
{
    proof {
        reveal_strlit("0");
        reveal_strlit("1");
        reveal_strlit("2");
        reveal_strlit("3");
        reveal_strlit("4");
        reveal_strlit("5");
        reveal_strlit("6");
        reveal_strlit("7");
        reveal_strlit("8");
        reveal_strlit("9");
    }
    match d {
        0 => s.append("0"),
        1 => s.append("1"),
        2 => s.append("2"),
        3 => s.append("3"),
        4 => s.append("4"),
        5 => s.append("5"),
        6 => s.append("6"),
        7 => s.append("7"),
        8 => s.append("8"),
        _ => s.append("9"),
    }
}

/// Appends the decimal rendering of `n`.
pub fn push_decimal(s: &mut String, n: u64)
    ensures
        final(s)@ == old(s)@ + decimal(n as nat),
    decreases n,
{
    if n >= 10 {
        push_decimal(s, n / 10);
    }
    push_digit(s, n % 10);
    proof {
        assert(old(s)@ + decimal(n as nat) =~= if n >= 10 {
            old(s)@ + decimal((n / 10) as nat) + seq![digit_char((n % 10) as nat)]
        } else {
            old(s)@ + seq![digit_char((n % 10) as nat)]
        });
    }
}

/// The character of a hexadecimal digit, in lower case.
pub open spec fn hex_char(d: nat) -> char {
    if d < 10 {
        (48 + d) as char
    } else {
        (87 + d) as char
    }
}

/// Appends the lower-case character of the hexadecimal digit `d`.
pub fn push_hex_digit(s: &mut String, d: u8)
    requires
        d < 16,
    ensures
        final(s)@ == old(s)@.push(hex_char(d as nat)),
{
    if d < 10 {
        push_decimal(s, d as u64);
    } else {
        proof {
            reveal_strlit("a");
            reveal_strlit("b");
            reveal_strlit("c");
            reveal_strlit("d");
            reveal_strlit("e");
            reveal_strlit("f");
        }
        match d {
            10 => s.append("a"),
            11 => s.append("b"),
            12 => s.append("c"),
            13 => s.append("d"),
            14 => s.append("e"),
            _ => s.append("f"),
        }
    }
}

/// The lower-case hexadecimal rendering of a natural number, without
/// prefix or leading zeros.
pub open spec fn hex_digits(n: nat) -> Seq<char>
    decreases n,
{
    if n < 16 {
        seq![hex_char(n)]
    } else {
        hex_digits(n / 16).push(hex_char(n % 16))
    }
}

/// Appends the lower-case hexadecimal rendering of `n`.
pub fn push_hex(s: &mut String, n: u64)
    ensures
        final(s)@ == old(s)@ + hex_digits(n as nat),
    decreases n,
{
    if n >= 16 {
        push_hex(s, n / 16);
    }
    push_hex_digit(s, (n % 16) as u8);
    proof {
        assert(old(s)@ + hex_digits(n as nat) =~= if n >= 16 {
            old(s)@ + hex_digits((n / 16) as nat) + seq![hex_char((n % 16) as nat)]
        } else {
            old(s)@ + seq![hex_char((n % 16) as nat)]
        });
    }
}

/// The characters of a string slice, in order.
pub fn chars_of(s: &str) -> (v: Vec<char>)
    ensures
        v@ == s@,
{
    let n = s.unicode_len();
    let mut v: Vec<char> = Vec::new();
    let mut i: usize = 0;
    while i < n
        invariant
            n == s@.len(),
            i <= n,
            v@ == s@.take(i as int),
        decreases n - i,
    {
        v.push(s.get_char(i));
        i = i + 1;
        assert(v@ =~= s@.take(i as int));
    }
    assert(s@.take(n as int) =~= s@);
    v
}

/// The characters with the Unicode White_Space property, which `str::trim`
/// removes.
pub open spec fn is_white_space(c: char) -> bool {
    ||| ('\u{9}' <= c <= '\u{d}')
    ||| c == ' '
    ||| c == '\u{85}'
    ||| c == '\u{a0}'
    ||| c == '\u{1680}'
    ||| ('\u{2000}' <= c <= '\u{200a}')
    ||| c == '\u{2028}'
    ||| c == '\u{2029}'
    ||| c == '\u{202f}'
    ||| c == '\u{205f}'
    ||| c == '\u{3000}'
}

fn white_space(c: char) -> (b: bool)
    ensures
        b == is_white_space(c),
{
    ('\u{9}' <= c && c <= '\u{d}') || c == ' ' || c == '\u{85}' || c == '\u{a0}' || c
        == '\u{1680}' || ('\u{2000}' <= c && c <= '\u{200a}') || c == '\u{2028}' || c
        == '\u{2029}' || c == '\u{202f}' || c == '\u{205f}' || c == '\u{3000}'
}

/// `s` without its leading white space.
pub open spec fn trim_start_ws(s: Seq<char>) -> Seq<char>
    decreases s.len(),
{
    if s.len() > 0 && is_white_space(s[0]) {
        trim_start_ws(s.drop_first())
    } else {
        s
    }
}

/// `s` without its trailing white space.
pub open spec fn trim_end_ws(s: Seq<char>) -> Seq<char>
    decreases s.len(),
{
    if s.len() > 0 && is_white_space(s.last()) {
        trim_end_ws(s.drop_last())
    } else {
        s
    }
}

/// `s` without leading and trailing white space, as `str::trim` gives it.
pub open spec fn trim_ws(s: Seq<char>) -> Seq<char> {
    trim_end_ws(trim_start_ws(s))
}

/// The bounds `lo..hi` of the part of `s[from..to]` that is left once white
/// space is trimmed from both ends.
pub fn trim_bounds(s: &Vec<char>, from: usize, to: usize) -> (r: (usize, usize))
    requires
        from <= to <= s@.len(),
    ensures
        from <= r.0 <= r.1 <= to,
        s@.subrange(r.0 as int, r.1 as int) == trim_ws(s@.subrange(from as int, to as int)),
{
    let ghost whole = s@.subrange(from as int, to as int);
    let mut lo = from;
    while lo < to && white_space(s[lo])
        invariant
            from <= lo <= to <= s@.len(),
            trim_start_ws(whole) == trim_start_ws(s@.subrange(lo as int, to as int)),
        decreases to - lo,
    {
        assert(s@.subrange(lo as int, to as int).drop_first() =~= s@.subrange(lo + 1, to as int));
        lo = lo + 1;
    }
    let mut hi = to;
    while hi > lo && white_space(s[hi - 1])
        invariant
            from <= lo <= hi <= to <= s@.len(),
            trim_start_ws(whole) == s@.subrange(lo as int, to as int),
            trim_ws(whole) == trim_end_ws(s@.subrange(lo as int, hi as int)),
        decreases hi - lo,
    {
        assert(s@.subrange(lo as int, hi as int).drop_last() =~= s@.subrange(lo as int, hi - 1));
        hi = hi - 1;
    }
    (lo, hi)
}

/// The value of a digit character in base 16 (digits, then `a` to `f` in
/// either case).
pub open spec fn digit_value(c: char) -> nat {
    if '0' <= c <= '9' {
        (c as nat - 48) as nat
    } else if 'a' <= c <= 'f' {
        (c as nat - 87) as nat
    } else {
        (c as nat - 55) as nat
    }
}

/// `c` is a digit in base `radix` (10 or 16).
pub open spec fn is_digit_in(c: char, radix: nat) -> bool {
    ||| '0' <= c <= '9'
    ||| (radix == 16 && ('a' <= c <= 'f' || 'A' <= c <= 'F'))
}

/// The value of a sequence of digits in base `radix`.
pub open spec fn digits_value(d: Seq<char>, radix: nat) -> nat
    decreases d.len(),
{
    if d.len() == 0 {
        0
    } else {
        digits_value(d.drop_last(), radix) * radix + digit_value(d.last())
    }
}

/// The digits of an unsigned number: the text past an optional leading `+`.
pub open spec fn unsigned_digits(s: Seq<char>) -> Seq<char> {
    if s.len() > 0 && s[0] == '+' {
        s.drop_first()
    } else {
        s
    }
}

/// What `from_str_radix` makes of `s` for an unsigned type whose largest
/// value is `max`: the number, when `s` is an optional `+` and one or more
/// digits whose value is at most `max`.
pub open spec fn parse_unsigned(s: Seq<char>, radix: nat, max: nat) -> Option<nat> {
    let d = unsigned_digits(s);
    if d.len() > 0 && (forall|i: int| 0 <= i < d.len() ==> is_digit_in(#[trigger] d[i], radix))
        && digits_value(d, radix) <= max {
        Some(digits_value(d, radix))
    } else {
        None
    }
}

fn digit_in(c: char, radix: u64) -> (r: Option<u64>)
    requires
        radix == 10 || radix == 16,
    ensures
        r is Some <==> is_digit_in(c, radix as nat),
        r matches Some(v) ==> v == digit_value(c) && v < radix,
{
    if '0' <= c && c <= '9' {
        Some(c as u64 - 48)
    } else if radix == 16 && 'a' <= c && c <= 'f' {
        Some(c as u64 - 87)
    } else if radix == 16 && 'A' <= c && c <= 'F' {
        Some(c as u64 - 55)
    } else {
        None
    }
}

/// Parses `s[lo..hi]` as an unsigned number in base `radix` of at most
/// `max`, as `from_str_radix` does.
pub fn parse_unsigned_in(s: &Vec<char>, lo: usize, hi: usize, radix: u64, max: u64) -> (r: Option<
    u64,
>)
    requires
        lo <= hi <= s@.len(),
        radix == 10 || radix == 16,
        max <= u32::MAX,
    ensures
        r matches Some(v) ==> parse_unsigned(s@.subrange(lo as int, hi as int), radix as nat, max as nat) == Some(v as nat),
        r is None ==> parse_unsigned(s@.subrange(lo as int, hi as int), radix as nat, max as nat) is None,
{
    let ghost whole = s@.subrange(lo as int, hi as int);
    let start = if lo < hi && s[lo] == '+' { lo + 1 } else { lo };
    let ghost d = s@.subrange(start as int, hi as int);
    assert(unsigned_digits(whole) =~= d);
    if start == hi {
        return None;
    }
    let mut acc: u64 = 0;
    let mut i = start;
    while i < hi
        invariant
            lo <= start <= i <= hi <= s@.len(),
            d == s@.subrange(start as int, hi as int),
            whole == s@.subrange(lo as int, hi as int),
            unsigned_digits(whole) == d,
            radix == 10 || radix == 16,
            max <= u32::MAX,
            forall|k: int| start <= k < i ==> is_digit_in(#[trigger] s@[k], radix as nat),
            acc as nat == if digits_value(s@.subrange(start as int, i as int), radix as nat) <= max {
                digits_value(s@.subrange(start as int, i as int), radix as nat)
            } else {
                max as nat + 1
            },
        decreases hi - i,
    {
        let dv = match digit_in(s[i], radix) {
            Some(v) => v,
            None => {
                assert(d[i - start] == s@[i as int]);
                assert(!is_digit_in(unsigned_digits(whole)[i - start], radix as nat));
                return None;
            },
        };
        let ghost prev = digits_value(s@.subrange(start as int, i as int), radix as nat);
        assert(s@.subrange(start as int, i + 1).drop_last() =~= s@.subrange(start as int, i as int));
        let next = acc * radix + dv;
        proof {
            let cur = digits_value(s@.subrange(start as int, i + 1), radix as nat);
            assert(cur == prev * radix + dv);
            if prev > max {
                assert(prev * radix >= prev) by (nonlinear_arith)
                    requires radix >= 1;
            } else {
                assert(acc == prev);
            }
        }
        acc = if next > max { max + 1 } else { next };
        i = i + 1;
    }
    assert(s@.subrange(start as int, hi as int) =~= d);
    if acc > max {
        None
    } else {
        Some(acc)
    }
}

/// `s` split at every `sep`, as `str::split` gives it: always at least one
/// (possibly empty) field.
pub open spec fn split_fields(s: Seq<char>, sep: char) -> Seq<Seq<char>>
    decreases s.len(),
{
    if s.len() == 0 {
        seq![Seq::empty()]
    } else {
        let r = split_fields(s.drop_last(), sep);
        if s.last() == sep {
            r.push(Seq::empty())
        } else {
            r.update(r.len() - 1, r.last().push(s.last()))
        }
    }
}

/// The fields of a split, as the parts of `s` between the bounds in `spans`.
pub open spec fn span_fields(s: Seq<char>, spans: Seq<(usize, usize)>) -> Seq<Seq<char>> {
    Seq::new(spans.len(), |k: int| s.subrange(spans[k].0 as int, spans[k].1 as int))
}

/// The bounds of the fields of `s[lo..hi]` split at every `sep`.
pub fn split_spans(s: &Vec<char>, lo: usize, hi: usize, sep: char) -> (spans: Vec<(usize, usize)>)
    requires
        lo <= hi <= s@.len(),
    ensures
        span_fields(s@, spans@) == split_fields(s@.subrange(lo as int, hi as int), sep),
        forall|k: int|
            0 <= k < spans@.len() ==> lo <= (#[trigger] spans@[k]).0 <= spans@[k].1 <= hi,
{
    let mut spans: Vec<(usize, usize)> = Vec::new();
    let mut cur = lo;
    let mut i = lo;
    assert(split_fields(s@.subrange(lo as int, lo as int), sep) =~~= span_fields(s@, spans@) + seq![
        s@.subrange(cur as int, i as int)]);
    while i < hi
        invariant
            lo <= cur <= i <= hi <= s@.len(),
            split_fields(s@.subrange(lo as int, i as int), sep) == span_fields(s@, spans@) + seq![
                s@.subrange(cur as int, i as int)],
            forall|k: int|
                0 <= k < spans@.len() ==> lo <= (#[trigger] spans@[k]).0 <= spans@[k].1 <= i,
        decreases hi - i,
    {
        let ghost before = span_fields(s@, spans@) + seq![s@.subrange(cur as int, i as int)];
        assert(s@.subrange(lo as int, i + 1).drop_last() =~~= s@.subrange(lo as int, i as int));
        assert(s@.subrange(lo as int, i + 1).last() == s@[i as int]);
        if s[i] == sep {
            spans.push((cur, i));
            cur = i + 1;
            assert(before.push(Seq::empty()) =~~= span_fields(s@, spans@) + seq![
                s@.subrange(cur as int, i + 1)]);
        } else {
            assert(before.update(before.len() - 1, before.last().push(s@[i as int]))
                =~~= span_fields(s@, spans@) + seq![s@.subrange(cur as int, i + 1)]);
        }
        i = i + 1;
    }
    let last = (cur, hi);
    spans.push(last);
    assert(span_fields(s@, spans@) =~~= split_fields(s@.subrange(lo as int, hi as int), sep));
    spans
}

/// A text without separator splits into itself alone.
pub proof fn lemma_split_no_sep(t: Seq<char>, sep: char)
    requires
        forall|j: int| 0 <= j < t.len() ==> t[j] != sep,
    ensures
        split_fields(t, sep) == seq![t],
    decreases t.len(),
{
    if t.len() == 0 {
        assert(t =~= Seq::<char>::empty());
    } else {
        lemma_split_no_sep(t.drop_last(), sep);
        assert(t.drop_last().push(t.last()) =~= t);
        let r = split_fields(t.drop_last(), sep);
        assert(r.update(0, r[0].push(t.last())) =~= seq![t]);
    }
}

/// Past the first separator, the first field of a split stays the text
/// before it.
proof fn lemma_split_prefix(s: Seq<char>, sep: char, i: int, n: int)
    requires
        0 <= i < n <= s.len(),
        forall|j: int| 0 <= j < i ==> s[j] != sep,
        s[i] == sep,
    ensures
        split_fields(s.take(n), sep).len() >= 2,
        split_fields(s.take(n), sep)[0] == s.take(i),
    decreases n,
{
    let t = s.take(n);
    assert(t.drop_last() =~= s.take(n - 1));
    if n == i + 1 {
        lemma_split_no_sep(s.take(i), sep);
    } else {
        lemma_split_prefix(s, sep, i, n - 1);
    }
}

/// The first field of a split is the text before the first separator.
pub proof fn lemma_split_first_field(s: Seq<char>, sep: char, i: int)
    requires
        0 <= i <= s.len(),
        forall|j: int| 0 <= j < i ==> s[j] != sep,
        i < s.len() ==> s[i] == sep,
    ensures
        split_fields(s, sep)[0] == s.take(i),
{
    if i == s.len() {
        lemma_split_no_sep(s, sep);
        assert(s.take(i) =~= s);
    } else {
        lemma_split_prefix(s, sep, i, s.len() as int);
        assert(s.take(s.len() as int) =~= s);
    }
}



/// Appending a separator and a field without separator to a text adds
/// that field to its split.
pub proof fn lemma_split_append_field(p: Seq<char>, f: Seq<char>, sep: char)
    requires
        forall|j: int| 0 <= j < f.len() ==> f[j] != sep,
    ensures
        split_fields(p + seq![sep] + f, sep) == split_fields(p, sep).push(f),
    decreases f.len(),
{
    let t = p + seq![sep] + f;
    if f.len() == 0 {
        assert(t.drop_last() =~= p);
        assert(f =~= Seq::<char>::empty());
    } else {
        assert(t.drop_last() =~= p + seq![sep] + f.drop_last());
        lemma_split_append_field(p, f.drop_last(), sep);
        let r = split_fields(p, sep).push(f.drop_last());
        assert(f.drop_last().push(f.last()) =~= f);
        assert(r.update(r.len() - 1, r.last().push(f.last())) =~= split_fields(p, sep).push(f));
    }
}

/// A decimal digit's value is the digit.
proof fn lemma_digit_char_value(d: nat)
    requires
        d < 10,
    ensures
        digit_value(digit_char(d)) == d,
        is_digit_in(digit_char(d), 10),
        is_digit_in(digit_char(d), 16),
        digit_char(d) != '+',
{
}

/// A hexadecimal digit's value is the digit.
pub proof fn lemma_hex_char_value(d: nat)
    requires
        d < 16,
    ensures
        digit_value(hex_char(d)) == d,
        is_digit_in(hex_char(d), 16),
        hex_char(d) != '+',
        !is_white_space(hex_char(d)),
{
}

/// The decimal rendering of a number is made of digits whose value is the
/// number.
proof fn lemma_decimal_digits(n: nat)
    ensures
        decimal(n).len() > 0,
        decimal(n)[0] != '+',
        forall|i: int| 0 <= i < decimal(n).len() ==> is_digit_in(#[trigger] decimal(n)[i], 10),
        digits_value(decimal(n), 10) == n,
    decreases n,
{
    if n < 10 {
        lemma_digit_char_value(n);
        assert(decimal(n).drop_last() =~= Seq::<char>::empty());
        assert(digits_value(Seq::<char>::empty(), 10) == 0);
        assert(digits_value(decimal(n), 10) == digits_value(decimal(n).drop_last(), 10) * 10
            + digit_value(decimal(n).last()));
    } else {
        lemma_decimal_digits(n / 10);
        lemma_digit_char_value(n % 10);
        assert(decimal(n).drop_last() =~= decimal(n / 10));
        assert(decimal(n).last() == digit_char(n % 10));
        assert(digits_value(decimal(n), 10) == digits_value(decimal(n / 10), 10) * 10
            + digit_value(decimal(n).last()));
        assert(decimal(n)[0] == decimal(n / 10)[0]);
        assert forall|i: int| 0 <= i < decimal(n).len() implies is_digit_in(#[trigger] decimal(n)[i], 10) by {
            if i < decimal(n).len() - 1 {
                assert(decimal(n)[i] == decimal(n / 10)[i]);
            }
        }
    }
}

/// Reading back the decimal rendering of a number gives the number.
pub proof fn lemma_decimal_parses(n: nat, max: nat)
    requires
        n <= max,
    ensures
        parse_unsigned(decimal(n), 10, max) == Some(n),
{
    lemma_decimal_digits(n);
    assert(unsigned_digits(decimal(n)) == decimal(n));
}

/// The decimal rendering of a number holds no character other than
/// digits.
pub proof fn lemma_decimal_only_digits(n: nat)
    ensures
        forall|i: int| 0 <= i < decimal(n).len() ==> '0' <= #[trigger] decimal(n)[i] <= '9',
    decreases n,
{
    if n >= 10 {
        lemma_decimal_only_digits(n / 10);
        assert forall|i: int| 0 <= i < decimal(n).len() implies '0' <= #[trigger] decimal(n)[i] <= '9' by {
            if i < decimal(n).len() - 1 {
                assert(decimal(n)[i] == decimal(n / 10)[i]);
            }
        }
    }
}

} // verus!
