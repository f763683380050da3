//! Verified string utilities: character classes, case-insensitive and
//! lexicographic comparison, decimal rendering and parsing of integers.

use vstd::prelude::*;

verus! {

// ---------------------------------------------------------------------------
// Character classes
// ---------------------------------------------------------------------------

pub open spec fn is_digit_char(c: char) -> bool {
    '0' <= c && c <= '9'
}

pub open spec fn digit_of(c: char) -> int {
    c as int - '0' as int
}

/// ASCII whitespace, the class used when a line is judged blank. This is
/// a deliberate choice: a line of exotic Unicode whitespace (a no-break
/// space, say) counts as content here, and such a first line is judged by
/// the comma check rather than skipped.
pub open spec fn is_space_char(c: char) -> bool {
    c == ' ' || c == '\t' || c == '\r' || c == '\n' || c == '\u{b}' || c == '\u{c}'
}

pub open spec fn all_digits(s: Seq<char>) -> bool {
    forall|i: int| 0 <= i < s.len() ==> is_digit_char(#[trigger] s[i])
}

pub open spec fn all_space(s: Seq<char>) -> bool {
    forall|i: int| 0 <= i < s.len() ==> is_space_char(#[trigger] s[i])
}

/// ASCII lowercase of one character; everything outside `A`..`Z` is kept.
pub open spec fn lower_char(c: char) -> char {
    if 'A' <= c && c <= 'Z' {
        ((c as u32) + 32) as char
    } else {
        c
    }
}

pub open spec fn lower_seq(s: Seq<char>) -> Seq<char> {
    s.map_values(|c: char| lower_char(c))
}

pub fn char_is_digit(c: char) -> (r: bool)
    ensures
        r == is_digit_char(c),
{
    c >= '0' && c <= '9'
}

pub fn char_is_space(c: char) -> (r: bool)
    ensures
        r == is_space_char(c),
{
    c == ' ' || c == '\t' || c == '\r' || c == '\n' || c == '\u{b}' || c == '\u{c}'
}

// ---------------------------------------------------------------------------
// Equality and case-insensitive equality
// ---------------------------------------------------------------------------

/// Equality of two string slices, by their character sequences.
pub fn str_eq(a: &str, b: &str) -> (r: bool)
    ensures
        r == (a@ == b@),
{
    let oa = a.to_owned();
    let ob = b.to_owned();
    oa.eq(&ob)
}

/// Whether `a` and `b` agree after ASCII-lowercasing both.
pub fn eq_ignore_ascii_case(a: &str, b: &str) -> (r: bool)
    ensures
        r == (lower_seq(a@) == lower_seq(b@)),
{
    let na = a.unicode_len();
    let nb = b.unicode_len();
    if na != nb {
        assert(lower_seq(a@).len() == a@.len());
        assert(lower_seq(b@).len() == b@.len());
        return false;
    }
    let mut i: usize = 0;
    while i < na
        invariant
            na == a@.len(),
            nb == b@.len(),
            na == nb,
            i <= na,
            forall|j: int| 0 <= j < i ==> lower_char(a@[j]) == lower_char(b@[j]),
        decreases na - i,
    {
        let ca = a.get_char(i);
        let cb = b.get_char(i);
        let xa: u32 = ca as u32;
        let xb: u32 = cb as u32;
        let la: u32 = if xa >= 65 && xa <= 90 { xa + 32 } else { xa };
        let lb: u32 = if xb >= 65 && xb <= 90 { xb + 32 } else { xb };
        assert(la == lower_char(a@[i as int]) as u32);
        assert(lb == lower_char(b@[i as int]) as u32);
        if la != lb {
            assert(lower_char(a@[i as int]) != lower_char(b@[i as int]));
            assert(lower_seq(a@)[i as int] != lower_seq(b@)[i as int]);
            return false;
        }
        proof {
            assert(lower_char(a@[i as int]) as u32 == lower_char(b@[i as int]) as u32);
            assert(lower_char(a@[i as int]) == lower_char(b@[i as int]));
        }
        i += 1;
    }
    assert(lower_seq(a@) =~= lower_seq(b@));
    true
}

// ---------------------------------------------------------------------------
// Lexicographic order on character sequences
// ---------------------------------------------------------------------------

/// Strict lexicographic order by character code, the order `BTreeMap<String, _>`
/// keeps its keys in for valid UTF-8 text.
pub open spec fn lex_lt(a: Seq<char>, b: Seq<char>) -> bool
    decreases a.len(),
{
    if b.len() == 0 {
        false
    } else if a.len() == 0 {
        true
    } else if a[0] != b[0] {
        (a[0] as int) < (b[0] as int)
    } else {
        lex_lt(a.skip(1), b.skip(1))
    }
}

pub proof fn lemma_lex_irreflexive(a: Seq<char>)
    ensures
        !lex_lt(a, a),
    decreases a.len(),
{
    if a.len() > 0 {
        lemma_lex_irreflexive(a.skip(1));
    }
}

pub proof fn lemma_lex_total(a: Seq<char>, b: Seq<char>)
    ensures
        lex_lt(a, b) || lex_lt(b, a) || a == b,
    decreases a.len(),
{
    if b.len() == 0 || a.len() == 0 {
        if a.len() == b.len() {
            assert(a =~= b);
        }
    } else if a[0] == b[0] {
        lemma_lex_total(a.skip(1), b.skip(1));
        if a.skip(1) == b.skip(1) {
            assert(a.skip(1).len() == a.len() - 1);
            assert(b.skip(1).len() == b.len() - 1);
            assert(a.len() == b.len());
            assert forall|i: int| 0 <= i < a.len() implies a[i] == b[i] by {
                if i > 0 {
                    assert(a.skip(1)[i - 1] == a[i]);
                    assert(b.skip(1)[i - 1] == b[i]);
                }
            }
            assert(a =~= b);
        }
    }
}

pub proof fn lemma_lex_asymmetric(a: Seq<char>, b: Seq<char>)
    ensures
        !(lex_lt(a, b) && lex_lt(b, a)),
    decreases a.len(),
{
    if a.len() > 0 && b.len() > 0 && a[0] == b[0] {
        lemma_lex_asymmetric(a.skip(1), b.skip(1));
    }
}

pub proof fn lemma_lex_transitive(a: Seq<char>, b: Seq<char>, c: Seq<char>)
    requires
        lex_lt(a, b),
        lex_lt(b, c),
    ensures
        lex_lt(a, c),
    decreases a.len(),
{
    if c.len() == 0 {
    } else if b.len() == 0 {
    } else if a.len() == 0 {
    } else {
        if a[0] == b[0] && b[0] == c[0] {
            lemma_lex_transitive(a.skip(1), b.skip(1), c.skip(1));
        }
    }
}

/// If the first `i` characters agree, the order is decided at position `i`.
pub proof fn lemma_lex_from_diff(a: Seq<char>, b: Seq<char>, i: int)
    requires
        0 <= i <= a.len(),
        0 <= i <= b.len(),
        forall|j: int| 0 <= j < i ==> a[j] == b[j],
        i < a.len() && i < b.len() && a[i] != b[i] || (i == a.len() && i < b.len()),
    ensures
        lex_lt(a, b) == (i == a.len() || (a[i] as int) < (b[i] as int)),
    decreases i,
{
    if i == 0 {
    } else {
        assert(a[0] == b[0]);
        let a1 = a.skip(1);
        let b1 = b.skip(1);
        assert(forall|j: int| 0 <= j < i - 1 ==> a1[j] == b1[j]) by {
            assert(forall|j: int| 0 <= j < i - 1 ==> a1[j] == a[j + 1] && b1[j] == b[j + 1]);
        }
        if i < a.len() {
            assert(a1[i - 1] == a[i]);
            assert(b1[i - 1] == b[i]);
        } else {
            assert(b1[i - 1] == b[i]);
        }
        lemma_lex_from_diff(a1, b1, i - 1);
    }
}

/// Exact three-way comparison: `r < 0`, `r == 0`, `r > 0` for less, equal,
/// greater in the lexicographic order.
pub fn str_compare(a: &str, b: &str) -> (r: i8)
    ensures
        r < 0 <==> lex_lt(a@, b@),
        r == 0 <==> a@ == b@,
        r > 0 <==> lex_lt(b@, a@),
{
    let na = a.unicode_len();
    let nb = b.unicode_len();
    let min: usize = if na < nb { na } else { nb };
    let mut i: usize = 0;
    while i < min
        invariant
            na == a@.len(),
            nb == b@.len(),
            min == if na < nb { na as int } else { nb as int },
            i <= min,
            forall|j: int| 0 <= j < i ==> a@[j] == b@[j],
        decreases min - i,
    {
        let ca = a.get_char(i);
        let cb = b.get_char(i);
        if ca != cb {
            proof {
                lemma_lex_from_diff(a@, b@, i as int);
                lemma_lex_from_diff(b@, a@, i as int);
                lemma_lex_asymmetric(a@, b@);
                assert(a@ != b@) by {
                    if a@ == b@ {
                        assert(a@[i as int] == b@[i as int]);
                    }
                }
            }
            if (ca as u32) < (cb as u32) {
                return -1;
            } else {
                return 1;
            }
        }
        i += 1;
    }
    if na < nb {
        proof {
            lemma_lex_from_diff(a@, b@, na as int);
            lemma_lex_asymmetric(a@, b@);
            assert(a@ != b@) by {
                if a@ == b@ {
                    assert(a@.len() == b@.len());
                }
            }
        }
        -1
    } else if nb < na {
        proof {
            lemma_lex_from_diff(b@, a@, nb as int);
            lemma_lex_asymmetric(b@, a@);
            assert(a@ != b@) by {
                if a@ == b@ {
                    assert(a@.len() == b@.len());
                }
            }
        }
        1
    } else {
        proof {
            assert(a@ =~= b@);
            lemma_lex_irreflexive(a@);
        }
        0
    }
}

// ---------------------------------------------------------------------------
// Decimal rendering of integers
// ---------------------------------------------------------------------------

pub open spec fn digit_char(d: int) -> char
    recommends
        0 <= d < 10,
{
    if d == 0 {
        '0'
    } else if d == 1 {
        '1'
    } else if d == 2 {
        '2'
    } else if d == 3 {
        '3'
    } else if d == 4 {
        '4'
    } else if d == 5 {
        '5'
    } else if d == 6 {
        '6'
    } else if d == 7 {
        '7'
    } else if d == 8 {
        '8'
    } else {
        '9'
    }
}

/// The decimal digits of `n`, most significant first, no sign and no padding.
pub open spec fn dec_of(n: nat) -> Seq<char>
    decreases n,
{
    if n < 10 {
        seq![digit_char(n as int)]
    } else {
        dec_of(n / 10) + seq![digit_char((n % 10) as int)]
    }
}

/// The text that Rust's standard formatting gives a signed 64-bit integer.
pub open spec fn i64_text(n: int) -> Seq<char> {
    if n < 0 {
        seq!['-'] + dec_of((-n) as nat)
    } else {
        dec_of(n as nat)
    }
}

fn digit_str(d: u64) -> (r: &'static str)
    requires
        d < 10,
    ensures
        r@ =~= seq![digit_char(d as int)],
{
    let s: &'static str = match d {
        0 => "0",
        1 => "1",
        2 => "2",
        3 => "3",
        4 => "4",
        5 => "5",
        6 => "6",
        7 => "7",
        8 => "8",
        _ => "9",
    };
    proof {
        reveal_strlit("0");
        reveal_strlit("1");
        reveal_strlit("2");
        reveal_strlit("3");
        reveal_strlit("4");
        reveal_strlit("5");
        reveal_strlit("6");
        reveal_strlit("7");
        reveal_strlit("8");
        reveal_strlit("9");
    }
    s
}

pub fn u64_to_string(n: u64) -> (r: String)
    ensures
        r@ == dec_of(n as nat),
    decreases n,
{
    if n < 10 {
        String::from_str(digit_str(n))
    } else {
        let mut s = u64_to_string(n / 10);
        s.append(digit_str(n % 10));
        assert(s@ =~= dec_of(n as nat));
        s
    }
}

pub fn i64_to_string(n: i64) -> (r: String)
    ensures
        r@ == i64_text(n as int),
{
    if n >= 0 {
        u64_to_string(n as u64)
    } else {
        let mag: u64 = if n == -0x8000_0000_0000_0000i64 {
            0x8000_0000_0000_0000u64
        } else {
            (-n) as u64
        };
        let mut s = String::from_str("-");
        s.append(u64_to_string(mag).as_str());
        proof {
            reveal_strlit("-");
            assert(s@ =~= i64_text(n as int));
        }
        s
    }
}

pub fn usize_to_string(n: usize) -> (r: String)
    ensures
        r@ == dec_of(n as nat),
{
    u64_to_string(n as u64)
}

// ---------------------------------------------------------------------------
// Decimal parsing of integers
// ---------------------------------------------------------------------------

/// The non-negative value of a digit string, most significant first.
pub open spec fn digits_val(s: Seq<char>) -> int
    decreases s.len(),
{
    if s.len() == 0 {
        0
    } else {
        digits_val(s.drop_last()) * 10 + digit_of(s.last())
    }
}

/// The decimal digits of a number are one or more ASCII digits.
pub proof fn lemma_dec_of_digits(n: nat)
    ensures
        dec_of(n).len() >= 1,
        all_digits(dec_of(n)),
    decreases n,
{
    if n < 10 {
        assert(is_digit_char(digit_char(n as int)));
    } else {
        lemma_dec_of_digits(n / 10);
        let s = dec_of(n);
        assert(s == dec_of(n / 10) + seq![digit_char((n % 10) as int)]);
        assert forall|i: int| 0 <= i < s.len() implies is_digit_char(#[trigger] s[i]) by {
            if i < s.len() - 1 {
                assert(s[i] == dec_of(n / 10)[i]);
            } else {
                assert(s[i] == digit_char((n % 10) as int));
                assert(is_digit_char(digit_char((n % 10) as int)));
            }
        }
    }
}

/// Rendering and then reading the digits gives the number back.
pub proof fn lemma_dec_of_val(n: nat)
    ensures
        digits_val(dec_of(n)) == n,
    decreases n,
{
    if n < 10 {
        let s = dec_of(n);
        assert(s =~= seq![digit_char(n as int)]);
        assert(s.drop_last() =~= Seq::<char>::empty());
        assert(digits_val(Seq::<char>::empty()) == 0);
        assert(s.last() == digit_char(n as int));
        assert(digit_of(digit_char(n as int)) == n);
    } else {
        lemma_dec_of_val(n / 10);
        let s = dec_of(n);
        assert(s.drop_last() =~= dec_of(n / 10));
        assert(s.last() == digit_char((n % 10) as int));
        assert(digit_of(digit_char((n % 10) as int)) == n % 10);
    }
}

/// The text of a signed 64-bit integer parses back to it.
pub proof fn lemma_parse_i64_text(n: int)
    requires
        -0x8000_0000_0000_0000 <= n <= 0x7fff_ffff_ffff_ffff,
    ensures
        parse_i64_spec(i64_text(n)) == Some(n as i64),
        i64_text(n).len() > 0,
        i64_text(n)[0] == '-' || is_digit_char(i64_text(n)[0]),
    decreases 0int,
{
    if n >= 0 {
        let s = dec_of(n as nat);
        lemma_dec_of_digits(n as nat);
        lemma_dec_of_val(n as nat);
        assert(is_digit_char(s[0]));
        assert(s[0] != '+' && s[0] != '-');
        assert(i64_text(n) == s);
    } else {
        let s = i64_text(n);
        let m = (-n) as nat;
        lemma_dec_of_digits(m);
        lemma_dec_of_val(m);
        assert(s == seq!['-'] + dec_of(m));
        assert(s[0] == '-');
        assert(s.skip(1) =~= dec_of(m));
        assert(all_digits(s.skip(1)));
    }
}

/// What `str::parse::<i64>` accepts: an optional sign, then one or more
/// ASCII digits, with the value within the 64-bit signed range.
pub open spec fn parse_i64_spec(s: Seq<char>) -> Option<i64> {
    let neg = s.len() > 0 && s[0] == '-';
    let ds = if s.len() > 0 && (s[0] == '-' || s[0] == '+') {
        s.skip(1)
    } else {
        s
    };
    if ds.len() == 0 || !all_digits(ds) {
        None
    } else {
        let v = if neg {
            -digits_val(ds)
        } else {
            digits_val(ds)
        };
        if -0x8000_0000_0000_0000 <= v && v <= 0x7fff_ffff_ffff_ffff {
            Some(v as i64)
        } else {
            None
        }
    }
}

pub proof fn lemma_digits_val_nonneg(s: Seq<char>)
    requires
        all_digits(s),
    ensures
        digits_val(s) >= 0,
    decreases s.len(),
{
    if s.len() > 0 {
        assert(all_digits(s.drop_last()));
        lemma_digits_val_nonneg(s.drop_last());
        assert(digits_val(s.drop_last()) * 10 >= 0) by (nonlinear_arith)
            requires
                digits_val(s.drop_last()) >= 0,
        ;
    }
}

/// Extending a digit string multiplies its value by ten and adds the digit.
pub proof fn lemma_digits_val_step(s: Seq<char>, i: int)
    requires
        0 <= i < s.len(),
    ensures
        digits_val(s.take(i + 1)) == digits_val(s.take(i)) * 10 + digit_of(s[i]),
{
    assert(s.take(i + 1).drop_last() =~= s.take(i));
    assert(s.take(i + 1).last() == s[i]);
}

/// A longer prefix of a digit string never has a smaller value.
pub proof fn lemma_digits_val_monotone(s: Seq<char>, i: int, j: int)
    requires
        all_digits(s),
        0 <= i <= j <= s.len(),
    ensures
        digits_val(s.take(i)) <= digits_val(s.take(j)),
    decreases j - i,
{
    if i < j {
        lemma_digits_val_monotone(s, i, j - 1);
        assert(all_digits(s.take(j - 1)));
        lemma_digits_val_nonneg(s.take(j - 1));
        lemma_digits_val_step(s, j - 1);
        assert(digits_val(s.take(j - 1)) * 10 >= digits_val(s.take(j - 1))) by (nonlinear_arith)
            requires
                digits_val(s.take(j - 1)) >= 0,
        ;
        assert(digit_of(s[j - 1]) >= 0);
    }
}

/// What `str::parse::<i64>` returns, proved against `parse_i64_spec`.
pub fn parse_i64(s: &str) -> (r: Option<i64>)
    ensures
        r == parse_i64_spec(s@),
{
    let n = s.unicode_len();
    if n == 0 {
        return None;
    }
    let first = s.get_char(0);
    let neg = first == '-';
    let start: usize = if first == '-' || first == '+' {
        1
    } else {
        0
    };
    let ghost ds = if s@[0] == '-' || s@[0] == '+' {
        s@.skip(1)
    } else {
        s@
    };
    assert(ds =~= s@.subrange(start as int, n as int));
    if start == n {
        return None;
    }
    let limit: u64 = if neg {
        0x8000_0000_0000_0000u64
    } else {
        0x7fff_ffff_ffff_ffffu64
    };
    let mut mag: u64 = 0;
    let mut i: usize = start;
    while i < n
        invariant
            n == s@.len(),
            start <= i <= n,
            start < n,
            neg == (s@[0] == '-'),
            start == if s@[0] == '-' || s@[0] == '+' {
                1int
            } else {
                0int
            },
            ds == s@.subrange(start as int, n as int),
            all_digits(ds.take(i - start)),
            mag == digits_val(ds.take(i - start)),
            mag <= limit,
            limit == if neg {
                0x8000_0000_0000_0000u64
            } else {
                0x7fff_ffff_ffff_ffffu64
            },
        decreases n - i,
    {
        let c = s.get_char(i);
        assert(c == ds[i - start]);
        if !(c >= '0' && c <= '9') {
            assert(!all_digits(ds));
            return None;
        }
        let d: u64 = ((c as u32) - 48) as u64;
        assert(d == digit_of(c));
        assert(all_digits(ds.take(i + 1 - start))) by {
            assert(forall|j: int|
                0 <= j < i + 1 - start ==> is_digit_char(#[trigger] ds.take(i + 1 - start)[j]));
        }
        proof {
            lemma_digits_val_step(ds, i - start);
        }
        if mag > (limit - d) / 10 {
            proof {
                assert(mag * 10 + d > limit) by (nonlinear_arith)
                    requires
                        mag > (limit - d) / 10,
                        d <= 9,
                        limit >= 9,
                        mag >= 0,
                ;
                if all_digits(ds) {
                    lemma_digits_val_monotone(ds, i + 1 - start, ds.len() as int);
                    assert(ds.take(ds.len() as int) =~= ds);
                    assert(digits_val(ds) > limit);
                }
            }
            return None;
        }
        assert(mag * 10 + d <= limit) by (nonlinear_arith)
            requires
                mag <= (limit - d) / 10,
                d <= 9,
                limit >= 9,
                mag >= 0,
        ;
        mag = mag * 10 + d;
        i += 1;
    }
    assert(ds.take(n - start) =~= ds);
    if neg {
        if mag == 0x8000_0000_0000_0000u64 {
            Some(-0x8000_0000_0000_0000i64)
        } else {
            Some(-(mag as i64))
        }
    } else {
        Some(mag as i64)
    }
}

// ---------------------------------------------------------------------------
// Substring search
// ---------------------------------------------------------------------------

/// The pattern occurs at position `i`.
pub open spec fn match_at(s: Seq<char>, p: Seq<char>, i: int) -> bool {
    0 <= i && i + p.len() <= s.len() && s.subrange(i, i + p.len()) == p
}

/// The first occurrence of the pattern at or after `i`.
pub open spec fn find_from(s: Seq<char>, p: Seq<char>, i: int) -> Option<int>
    decreases s.len() - i,
    when 0 <= i
    via find_from_decreases
{
    if i + p.len() > s.len() {
        None
    } else if match_at(s, p, i) {
        Some(i)
    } else {
        find_from(s, p, i + 1)
    }
}

#[via_fn]
proof fn find_from_decreases(s: Seq<char>, p: Seq<char>, i: int) {
    if 0 <= i && !(i + p.len() > s.len()) && !match_at(s, p, i) {
        if p.len() == 0 {
            assert(s.subrange(i, i) =~= p);
        }
    }
}

pub open spec fn contains_sub(s: Seq<char>, p: Seq<char>) -> bool {
    find_from(s, p, 0) is Some
}

/// A found position carries a match within bounds.
pub proof fn lemma_find_from_some(s: Seq<char>, p: Seq<char>, i: int)
    requires
        0 <= i,
        find_from(s, p, i) is Some,
    ensures
        i <= find_from(s, p, i)->0,
        match_at(s, p, find_from(s, p, i)->0),
    decreases s.len() - i,
{
    if i + p.len() > s.len() {
    } else if match_at(s, p, i) {
    } else {
        if p.len() == 0 {
            assert(s.subrange(i, i) =~= p);
        }
        lemma_find_from_some(s, p, i + 1);
    }
}

pub open spec fn starts_with_spec(s: Seq<char>, p: Seq<char>) -> bool {
    p.len() <= s.len() && s.subrange(0, p.len() as int) == p
}


fn check_match_at(s: &str, p: &str, i: usize) -> (r: bool)
    requires
        i + p@.len() <= s@.len(),
        s@.len() <= usize::MAX,
    ensures
        r == match_at(s@, p@, i as int),
{
    let m = p.unicode_len();
    let mut j: usize = 0;
    while j < m
        invariant
            j <= m,
            m == p@.len(),
            i + m <= s@.len(),
            forall|q: int| 0 <= q < j ==> s@[i + q] == p@[q],
        decreases m - j,
    {
        if s.get_char(i + j) != p.get_char(j) {
            assert(s@.subrange(i as int, i + m) != p@) by {
                if s@.subrange(i as int, i + m) == p@ {
                    assert(s@.subrange(i as int, i + m)[j as int] == p@[j as int]);
                }
            }
            return false;
        }
        j += 1;
    }
    assert(s@.subrange(i as int, i + m) =~= p@);
    true
}

/// The first occurrence of `p` in `s`, scanning left to right.
pub fn find_sub(s: &str, p: &str) -> (r: Option<usize>)
    ensures
        match r {
            Some(i) => find_from(s@, p@, 0) == Some(i as int),
            None => find_from(s@, p@, 0) is None,
        },
{
    let n = s.unicode_len();
    let m = p.unicode_len();
    if m > n {
        return None;
    }
    if m == 0 {
        proof {
            assert(s@.subrange(0, 0) =~= p@);
        }
        return Some(0);
    }
    let mut i: usize = 0;
    while i <= n - m
        invariant
            n == s@.len(),
            m == p@.len(),
            m <= n,
            i <= n - m + 1,
            find_from(s@, p@, 0) == find_from(s@, p@, i as int),
        decreases n - m + 1 - i,
    {
        if check_match_at(s, p, i) {
            return Some(i);
        }
        i += 1;
    }
    None
}

/// Whether `s` starts with `p`.
pub fn str_starts_with(s: &str, p: &str) -> (r: bool)
    ensures
        r == starts_with_spec(s@, p@),
{
    let m = p.unicode_len();
    if m > s.unicode_len() {
        return false;
    }
    check_match_at(s, p, 0)
}

// ---------------------------------------------------------------------------
// Digit runs and unsigned parsing
// ---------------------------------------------------------------------------

/// The length of the leading run of ASCII digits.
pub open spec fn digits_prefix_end(s: Seq<char>) -> int
    decreases s.len(),
{
    if s.len() == 0 {
        0
    } else if !is_digit_char(s[0]) {
        0
    } else {
        1 + digits_prefix_end(s.skip(1))
    }
}

/// The length of the leading run of ASCII digits and commas.
pub open spec fn digits_comma_prefix_end(s: Seq<char>) -> int
    decreases s.len(),
{
    if s.len() == 0 {
        0
    } else if !is_digit_char(s[0]) && s[0] != ',' {
        0
    } else {
        1 + digits_comma_prefix_end(s.skip(1))
    }
}

pub proof fn lemma_digits_prefix_end_at(s: Seq<char>, i: int)
    requires
        0 <= i <= s.len(),
        forall|j: int| 0 <= j < i ==> is_digit_char(#[trigger] s[j]),
        i < s.len() ==> !is_digit_char(s[i]),
    ensures
        digits_prefix_end(s) == i,
    decreases i,
{
    if i > 0 {
        lemma_digits_prefix_end_at(s.skip(1), i - 1);
        assert(forall|j: int| 0 <= j < s.skip(1).len() ==> s.skip(1)[j] == s[j + 1]);
    }
}

pub proof fn lemma_digits_comma_prefix_end_at(s: Seq<char>, i: int)
    requires
        0 <= i <= s.len(),
        forall|j: int| 0 <= j < i ==> is_digit_char(#[trigger] s[j]) || s[j] == ',',
        i < s.len() ==> !is_digit_char(s[i]) && s[i] != ',',
    ensures
        digits_comma_prefix_end(s) == i,
    decreases i,
{
    if i > 0 {
        lemma_digits_comma_prefix_end_at(s.skip(1), i - 1);
        assert(forall|j: int| 0 <= j < s.skip(1).len() ==> s.skip(1)[j] == s[j + 1]);
    }
}

/// The length of the leading digit run, scanned.
#[verifier::loop_isolation(true)]
pub fn digits_run_len(s: &str) -> (r: usize)
    ensures
        r == digits_prefix_end(s@),
        r <= s@.len(),
{
    let n = s.unicode_len();
    let mut k: usize = 0;
    loop
        invariant_except_break
            k <= n,
            n == s@.len(),
            forall|j: int| 0 <= j < k ==> is_digit_char(#[trigger] s@[j]),
        ensures
            k <= n,
            n == s@.len(),
            forall|j: int| 0 <= j < k ==> is_digit_char(#[trigger] s@[j]),
            k < n ==> !is_digit_char(s@[k as int]),
        decreases n - k,
    {
        if k >= n {
            break ;
        }
        let c = s.get_char(k);
        if !(c >= '0' && c <= '9') {
            break ;
        }
        k += 1;
    }
    proof {
        lemma_digits_prefix_end_at(s@, k as int);
    }
    k
}

/// The length of the leading run of digits and commas, scanned.
#[verifier::loop_isolation(true)]
pub fn digits_comma_run_len(s: &str) -> (r: usize)
    ensures
        r == digits_comma_prefix_end(s@),
{
    let n = s.unicode_len();
    let mut k: usize = 0;
    loop
        invariant_except_break
            k <= n,
            n == s@.len(),
            forall|j: int| 0 <= j < k ==> is_digit_char(#[trigger] s@[j]) || s@[j] == ',',
        ensures
            k <= n,
            n == s@.len(),
            forall|j: int| 0 <= j < k ==> is_digit_char(#[trigger] s@[j]) || s@[j] == ',',
            k < n ==> !is_digit_char(s@[k as int]) && s@[k as int] != ',',
        decreases n - k,
    {
        if k >= n {
            break ;
        }
        let c = s.get_char(k);
        if !(c >= '0' && c <= '9') && c != ',' {
            break ;
        }
        k += 1;
    }
    proof {
        lemma_digits_comma_prefix_end_at(s@, k as int);
    }
    k
}

/// The text with every trailing comma removed.
pub open spec fn trim_end_commas(s: Seq<char>) -> Seq<char>
    decreases s.len(),
{
    if s.len() > 0 && s.last() == ',' {
        trim_end_commas(s.drop_last())
    } else {
        s
    }
}

/// What parsing an unsigned size from a digit-only text yields: the value
/// when the text is non-empty, all digits, and within range.
pub open spec fn parse_usize_spec(s: Seq<char>) -> Option<usize> {
    if s.len() == 0 || !all_digits(s) {
        None
    } else if digits_val(s) <= usize::MAX {
        Some(digits_val(s) as usize)
    } else {
        None
    }
}

/// Parses an unsigned size, proved against `parse_usize_spec`.
pub fn parse_usize(s: &str) -> (r: Option<usize>)
    ensures
        r == parse_usize_spec(s@),
{
    let n = s.unicode_len();
    if n == 0 {
        return None;
    }
    let limit: u64 = usize::MAX as u64;
    let mut mag: u64 = 0;
    let mut i: usize = 0;
    while i < n
        invariant
            n == s@.len(),
            i <= n,
            all_digits(s@.take(i as int)),
            mag == digits_val(s@.take(i as int)),
            mag <= limit,
            limit == usize::MAX as u64,
        decreases n - i,
    {
        let c = s.get_char(i);
        if !(c >= '0' && c <= '9') {
            assert(!all_digits(s@));
            return None;
        }
        let d: u64 = ((c as u32) - 48) as u64;
        assert(d == digit_of(c));
        assert(all_digits(s@.take(i + 1))) by {
            assert(forall|j: int|
                0 <= j < i + 1 ==> is_digit_char(#[trigger] s@.take(i + 1)[j]));
        }
        proof {
            lemma_digits_val_step(s@, i as int);
        }
        if mag > (limit - d) / 10 {
            proof {
                assert(mag * 10 + d > limit) by (nonlinear_arith)
                    requires
                        mag > (limit - d) / 10,
                        d <= 9,
                        limit >= 9,
                        mag >= 0,
                ;
                if all_digits(s@) {
                    lemma_digits_val_monotone(s@, i + 1, s@.len() as int);
                    assert(s@.take(s@.len() as int) =~= s@);
                    assert(digits_val(s@) > limit);
                }
            }
            return None;
        }
        assert(mag * 10 + d <= limit) by (nonlinear_arith)
            requires
                mag <= (limit - d) / 10,
                d <= 9,
                limit >= 9,
                mag >= 0,
        ;
        mag = mag * 10 + d;
        i += 1;
    }
    assert(s@.take(n as int) =~= s@);
    Some(mag as usize)
}

// ---------------------------------------------------------------------------
// File extensions
// ---------------------------------------------------------------------------

/// The position of the last occurrence of a character, `-1` when absent.
pub open spec fn last_pos(s: Seq<char>, c: char) -> int
    decreases s.len(),
{
    if s.len() == 0 {
        -1
    } else if s.last() == c {
        s.len() - 1
    } else {
        last_pos(s.drop_last(), c)
    }
}

pub proof fn lemma_last_pos_at(s: Seq<char>, c: char, i: int)
    requires
        -1 <= i < s.len(),
        i >= 0 ==> s[i] == c,
        forall|j: int| i < j < s.len() ==> s[j] != c,
    ensures
        last_pos(s, c) == i,
    decreases s.len(),
{
    if s.len() > 0 && s.last() != c {
        lemma_last_pos_at(s.drop_last(), c, i);
        assert(forall|j: int| 0 <= j < s.len() - 1 ==> s.drop_last()[j] == s[j]);
    }
}

/// The extension of a path: the part of the final path component after
/// its last dot, none when there is no dot or the dot leads the name.
pub open spec fn extension_spec(p: Seq<char>) -> Option<Seq<char>> {
    let name = p.skip(last_pos(p, '/') + 1);
    let d = last_pos(name, '.');
    if d <= 0 {
        None
    } else {
        Some(name.skip(d + 1))
    }
}

fn last_pos_exec(s: &str, c: char) -> (r: Option<usize>)
    ensures
        match r {
            Some(i) => last_pos(s@, c) == i as int && i < s@.len(),
            None => last_pos(s@, c) == -1,
        },
{
    let n = s.unicode_len();
    let mut i: usize = n;
    while i > 0
        invariant
            i <= n,
            n == s@.len(),
            forall|j: int| i <= j < n ==> s@[j] != c,
        decreases i,
    {
        i -= 1;
        if s.get_char(i) == c {
            proof {
                lemma_last_pos_at(s@, c, i as int);
            }
            return Some(i);
        }
    }
    proof {
        lemma_last_pos_at(s@, c, -1);
    }
    None
}

/// The file extension of a path text, by `extension_spec`.
pub fn extension_of(path: &str) -> (r: Option<String>)
    ensures
        match r {
            Some(e) => extension_spec(path@) == Some(e@),
            None => extension_spec(path@) is None,
        },
{
    let n = path.unicode_len();
    let start: usize = match last_pos_exec(path, '/') {
        Some(i) => i + 1,
        None => 0,
    };
    let name = path.substring_char(start, n);
    proof {
        assert(name@ =~= path@.skip(last_pos(path@, '/') + 1));
    }
    let d = match last_pos_exec(name, '.') {
        Some(d) => d,
        None => {
            return None;
        },
    };
    if d == 0 {
        return None;
    }
    let nl = name.unicode_len();
    let ext = name.substring_char(d + 1, nl);
    let mut out = String::new();
    out.append(ext);
    proof {
        assert(out@ =~= name@.skip(d + 1));
    }
    Some(out)
}

// ---------------------------------------------------------------------------
// Lines
// ---------------------------------------------------------------------------

pub open spec fn seq_contains_char(s: Seq<char>, c: char) -> bool {
    exists|i: int| 0 <= i < s.len() && s[i] == c
}

/// Index of the first newline, or the length when there is none.
pub open spec fn first_nl(s: Seq<char>) -> int
    decreases s.len(),
{
    if s.len() == 0 {
        0
    } else if s[0] == '\n' {
        0
    } else {
        1 + first_nl(s.skip(1))
    }
}

pub proof fn lemma_first_nl_bounds(s: Seq<char>)
    ensures
        0 <= first_nl(s) <= s.len(),
        first_nl(s) < s.len() ==> s[first_nl(s)] == '\n',
        forall|j: int| 0 <= j < first_nl(s) ==> s[j] != '\n',
    decreases s.len(),
{
    if s.len() > 0 && s[0] != '\n' {
        lemma_first_nl_bounds(s.skip(1));
        assert forall|j: int| 0 <= j < first_nl(s) implies s[j] != '\n' by {
            if j > 0 {
                assert(s.skip(1)[j - 1] == s[j]);
                assert(s.skip(1)[j - 1] != '\n');
            }
        }
    }
}

/// A position with no newline before it and a newline or the end at it is
/// the first newline.
pub proof fn lemma_first_nl_at(s: Seq<char>, i: int)
    requires
        0 <= i <= s.len(),
        forall|j: int| 0 <= j < i ==> s[j] != '\n',
        i < s.len() ==> s[i] == '\n',
        i == s.len() || s[i] == '\n',
    ensures
        first_nl(s) == i,
    decreases i,
{
    if i > 0 {
        lemma_first_nl_at(s.skip(1), i - 1);
        assert(forall|j: int| 0 <= j < s.skip(1).len() ==> s.skip(1)[j] == s[j + 1]);
    }
}

/// Index of the first occurrence of a character, or the length when there
/// is none.
pub open spec fn first_pos(s: Seq<char>, c: char) -> int
    decreases s.len(),
{
    if s.len() == 0 {
        0
    } else if s[0] == c {
        0
    } else {
        1 + first_pos(s.skip(1), c)
    }
}

pub proof fn lemma_first_pos_bounds(s: Seq<char>, c: char)
    ensures
        0 <= first_pos(s, c) <= s.len(),
        first_pos(s, c) < s.len() ==> s[first_pos(s, c)] == c,
        forall|j: int| 0 <= j < first_pos(s, c) ==> s[j] != c,
    decreases s.len(),
{
    if s.len() > 0 && s[0] != c {
        lemma_first_pos_bounds(s.skip(1), c);
        assert forall|j: int| 0 <= j < first_pos(s, c) implies s[j] != c by {
            if j > 0 {
                assert(s.skip(1)[j - 1] == s[j]);
                assert(s.skip(1)[j - 1] != c);
            }
        }
    }
}

pub proof fn lemma_first_pos_at(s: Seq<char>, c: char, i: int)
    requires
        0 <= i <= s.len(),
        forall|j: int| 0 <= j < i ==> s[j] != c,
        i == s.len() || s[i] == c,
    ensures
        first_pos(s, c) == i,
    decreases i,
{
    if i > 0 {
        lemma_first_pos_at(s.skip(1), c, i - 1);
        assert(forall|j: int| 0 <= j < s.skip(1).len() ==> s.skip(1)[j] == s[j + 1]);
    }
}

/// The first occurrence of a character, scanned.
pub fn find_char(s: &str, c: char) -> (r: usize)
    ensures
        r == first_pos(s@, c),
        r <= s@.len(),
{
    let n = s.unicode_len();
    let mut i: usize = 0;
    while i < n && s.get_char(i) != c
        invariant
            i <= n,
            n == s@.len(),
            forall|j: int| 0 <= j < i ==> s@[j] != c,
        decreases n - i,
    {
        i += 1;
    }
    proof {
        lemma_first_pos_at(s@, c, i as int);
    }
    i
}

/// A line with its trailing carriage return removed, as `str::lines` does.
pub open spec fn strip_cr(l: Seq<char>) -> Seq<char> {
    if l.len() > 0 && l.last() == '\r' {
        l.drop_last()
    } else {
        l
    }
}

/// The lines of a text, split at newlines, trailing carriage returns
/// stripped; what `str::lines` yields.
pub open spec fn lines_of(s: Seq<char>) -> Seq<Seq<char>>
    decreases s.len(),
    via lines_of_decreases
{
    if s.len() == 0 {
        Seq::empty()
    } else if first_nl(s) >= s.len() {
        seq![strip_cr(s)]
    } else {
        seq![strip_cr(s.take(first_nl(s)))] + lines_of(s.skip(first_nl(s) + 1))
    }
}

#[via_fn]
proof fn lines_of_decreases(s: Seq<char>) {
    lemma_first_nl_bounds(s);
}

/// The first line that holds a character outside the whitespace class.
pub open spec fn first_nonblank_line(ls: Seq<Seq<char>>) -> Option<Seq<char>>
    decreases ls.len(),
{
    if ls.len() == 0 {
        None
    } else if !all_space(ls[0]) {
        Some(ls[0])
    } else {
        first_nonblank_line(ls.skip(1))
    }
}

/// No newline and no carriage return anywhere in the text.
pub open spec fn no_line_breaks(s: Seq<char>) -> bool {
    forall|i: int| 0 <= i < s.len() ==> #[trigger] s[i] != '\n' && s[i] != '\r'
}

/// Whether the first non-blank line holds a comma; `None` when every line
/// is blank.
pub open spec fn first_nonblank_comma_spec(s: Seq<char>) -> Option<bool> {
    match first_nonblank_line(lines_of(s)) {
        Some(l) => Some(seq_contains_char(l, ',')),
        None => None,
    }
}

fn line_is_blank(s: &str, from: usize, to: usize) -> (r: bool)
    requires
        from <= to <= s@.len(),
    ensures
        r == all_space(s@.subrange(from as int, to as int)),
{
    let ghost l = s@.subrange(from as int, to as int);
    let mut i: usize = from;
    while i < to
        invariant
            from <= i <= to <= s@.len(),
            l == s@.subrange(from as int, to as int),
            forall|j: int| 0 <= j < i - from ==> is_space_char(#[trigger] l[j]),
        decreases to - i,
    {
        let c = s.get_char(i);
        assert(c == l[i - from]);
        if !char_is_space(c) {
            return false;
        }
        i += 1;
    }
    true
}

fn line_has_comma(s: &str, from: usize, to: usize) -> (r: bool)
    requires
        from <= to <= s@.len(),
    ensures
        r == seq_contains_char(s@.subrange(from as int, to as int), ','),
{
    let ghost l = s@.subrange(from as int, to as int);
    let mut i: usize = from;
    while i < to
        invariant
            from <= i <= to <= s@.len(),
            l == s@.subrange(from as int, to as int),
            forall|j: int| 0 <= j < i - from ==> #[trigger] l[j] != ',',
        decreases to - i,
    {
        let c = s.get_char(i);
        assert(c == l[i - from]);
        if c == ',' {
            return true;
        }
        i += 1;
    }
    false
}

/// Scans the text line by line for the first non-blank line and reports
/// whether it holds a comma; `None` when there is no such line.
pub fn first_nonblank_comma(s: &str) -> (r: Option<bool>)
    ensures
        r == first_nonblank_comma_spec(s@),
    decreases s@.len(),
{
    let n = s.unicode_len();
    if n == 0 {
        return None;
    }
    let mut i: usize = 0;
    while i < n && s.get_char(i) != '\n'
        invariant
            i <= n,
            n == s@.len(),
            forall|j: int| 0 <= j < i ==> s@[j] != '\n',
        decreases n - i,
    {
        i += 1;
    }
    proof {
        lemma_first_nl_at(s@, i as int);
    }
    // the line without its trailing carriage return
    let end: usize = if i > 0 && s.get_char(i - 1) == '\r' {
        i - 1
    } else {
        i
    };
    proof {
        assert(s@.subrange(0, end as int) =~= strip_cr(s@.take(i as int)));
        if i == n {
            assert(s@.take(i as int) =~= s@);
        }
    }
    let ghost ls = lines_of(s@);
    proof {
        if i == n {
            assert(ls == seq![strip_cr(s@)]);
            assert(ls[0] == strip_cr(s@.take(i as int)));
        } else {
            assert(ls == seq![strip_cr(s@.take(i as int))] + lines_of(s@.skip(i + 1)));
            assert(ls[0] == strip_cr(s@.take(i as int)));
        }
    }
    if !line_is_blank(s, 0, end) {
        let has = line_has_comma(s, 0, end);
        proof {
            assert(first_nonblank_line(ls) == Some(ls[0]));
        }
        return Some(has);
    }
    proof {
        assert(all_space(ls[0]));
        assert(first_nonblank_line(ls) == first_nonblank_line(ls.skip(1)));
    }
    if i == n {
        proof {
            assert(ls.skip(1) =~= Seq::<Seq<char>>::empty());
            assert(first_nonblank_line(ls.skip(1)) is None);
        }
        None
    } else {
        let rest = s.substring_char(i + 1, n);
        let r = first_nonblank_comma(rest);
        proof {
            assert(rest@ =~= s@.skip(i + 1));
            assert(ls.skip(1) =~= lines_of(s@.skip(i + 1)));
        }
        r
    }
}

} // verus!
