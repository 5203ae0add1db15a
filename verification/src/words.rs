//! Text as a sequence of characters, and the numbers written in it.

use vstd::prelude::*;

verus! {

/// `String::push` adds one character at the end.
pub assume_specification[ String::push ](s: &mut String, c: char)
    ensures
        final(s)@ == old(s)@.push(c),
;

/// What `format!("{:?}", text)` makes of a text: the text between double quotes,
/// with what cannot be shown as it is written out as an escape.
pub uninterp spec fn quoted(text: Seq<char>) -> Seq<char>;

/// `format!` with `{:?}`, applied to one text: the result depends on that text
/// alone.
#[verifier::external_body]
pub(crate) fn quote(text: &str) -> (r: String)
    ensures
        r@ == quoted(text@),
{
    format!("{:?}", text)
}

/// The characters of `s`, in order.
pub fn chars_of(s: &str) -> (r: Vec<char>)
    ensures
        r@ == s@,
{
    let mut out: Vec<char> = Vec::new();
    for c in it: s.chars()
        invariant
            it.seq() == s@,
            out@ == s@.take(it.index() as int),
    {
        out.push(c);
    }
    assert(s@.take(s@.len() as int) =~= s@);
    out
}

/// The text made of these characters.
pub fn string_of(v: &[char]) -> (r: String)
    ensures
        r@ == v@,
{
    let mut out = String::new();
    for i in 0..v.len()
        invariant
            out@ == v@.take(i as int),
    {
        out.push(v[i]);
        assert(v@.take(i + 1) =~= v@.take(i as int).push(v@[i as int]));
    }
    assert(v@.take(v@.len() as int) =~= v@);
    out
}

/// Whether two texts hold the same characters.
pub fn same(a: &str, b: &str) -> (r: bool)
    ensures
        r == (a@ == b@),
{
    let x = chars_of(a);
    let y = chars_of(b);
    if x.len() != y.len() {
        return false;
    }
    for i in 0..x.len()
        invariant
            x@ == a@,
            y@ == b@,
            x@.len() == y@.len(),
            forall|j: int| 0 <= j < i ==> x@[j] == y@[j],
    {
        if x[i] != y[i] {
            assert(a@[i as int] != b@[i as int]);
            return false;
        }
    }
    assert(a@ =~= b@);
    true
}

/// What a vector of strings holds.
pub open spec fn texts(v: Seq<String>) -> Seq<Seq<char>> {
    Seq::new(v.len(), |i: int| v[i]@)
}

// --- whitespace ------------------------------------------------------------
/// The characters with Unicode's White_Space property.
pub open spec fn is_white(c: char) -> bool {
    let n = c as u32;
    ||| 0x09 <= n <= 0x0d
    ||| n == 0x20
    ||| n == 0x85
    ||| n == 0xa0
    ||| n == 0x1680
    ||| 0x2000 <= n <= 0x200a
    ||| n == 0x2028
    ||| n == 0x2029
    ||| n == 0x202f
    ||| n == 0x205f
    ||| n == 0x3000
}

pub fn white(c: char) -> (r: bool)
    ensures
        r == is_white(c),
{
    let n: u32 = c as u32;
    (0x09 <= n && n <= 0x0d) || n == 0x20 || n == 0x85 || n == 0xa0 || n == 0x1680 || (0x2000 <= n
        && n <= 0x200a) || n == 0x2028 || n == 0x2029 || n == 0x202f || n == 0x205f || n == 0x3000
}

pub open spec fn trimmed_start(s: Seq<char>) -> Seq<char>
    decreases s.len(),
{
    if s.len() > 0 && is_white(s[0]) {
        trimmed_start(s.drop_first())
    } else {
        s
    }
}

pub open spec fn trimmed_end(s: Seq<char>) -> Seq<char>
    decreases s.len(),
{
    if s.len() > 0 && is_white(s.last()) {
        trimmed_end(s.drop_last())
    } else {
        s
    }
}

/// `s` without the whitespace at either end.
pub open spec fn trimmed(s: Seq<char>) -> Seq<char> {
    trimmed_end(trimmed_start(s))
}

pub fn trim(v: &[char]) -> (r: &[char])
    ensures
        r@ == trimmed(v@),
{
    let mut from: usize = 0;
    assert(v@.skip(0) =~= v@);
    while from < v.len() && white(v[from])
        invariant
            from <= v@.len(),
            trimmed_start(v@) == trimmed_start(v@.skip(from as int)),
        decreases v@.len() - from,
    {
        assert(v@.skip(from as int).drop_first() =~= v@.skip(from + 1));
        from = from + 1;
    }
    let ghost mid = v@.skip(from as int);
    assert(trimmed_start(v@) == mid);
    let mut to: usize = v.len();
    assert(v@.subrange(from as int, to as int) =~= mid);
    while from < to && white(v[to - 1])
        invariant
            from <= to <= v@.len(),
            trimmed_end(mid) == trimmed_end(v@.subrange(from as int, to as int)),
        decreases to,
    {
        assert(v@.subrange(from as int, to as int).drop_last() =~= v@.subrange(
            from as int,
            to - 1,
        ));
        to = to - 1;
    }
    &v[from..to]
}

/// `s` without the whitespace at either end, as text.
pub fn trim_text(s: &str) -> (r: String)
    ensures
        r@ == trimmed(s@),
{
    let v = chars_of(s);
    string_of(trim(v.as_slice()))
}

// --- letters and digits ----------------------------------------------------
pub open spec fn is_digit(c: char) -> bool {
    '0' <= c <= '9'
}

pub open spec fn is_ascii_upper(c: char) -> bool {
    'A' <= c <= 'Z'
}

pub open spec fn is_ascii_lower(c: char) -> bool {
    'a' <= c <= 'z'
}

pub fn digit(c: char) -> (r: bool)
    ensures
        r == is_digit(c),
{
    '0' <= c && c <= '9'
}

/// `c` in lower case, where it is an ASCII letter.
pub open spec fn lowered(c: char) -> char {
    if is_ascii_upper(c) {
        (c as u32 + 32) as char
    } else {
        c
    }
}

pub fn lower(c: char) -> (r: char)
    ensures
        r == lowered(c),
{
    if 'A' <= c && c <= 'Z' {
        ((c as u8) + 32) as char
    } else {
        c
    }
}

/// Whether two texts are equal but for the case of their ASCII letters.
pub open spec fn same_letters(a: Seq<char>, b: Seq<char>) -> bool {
    &&& a.len() == b.len()
    &&& forall|i: int| 0 <= i < a.len() ==> lowered(#[trigger] a[i]) == lowered(b[i])
}

pub fn same_ignoring_case(a: &str, b: &str) -> (r: bool)
    ensures
        r == same_letters(a@, b@),
{
    let x = chars_of(a);
    let y = chars_of(b);
    if x.len() != y.len() {
        return false;
    }
    for i in 0..x.len()
        invariant
            x@ == a@,
            y@ == b@,
            x@.len() == y@.len(),
            forall|j: int| 0 <= j < i ==> lowered(x@[j]) == lowered(y@[j]),
    {
        if lower(x[i]) != lower(y[i]) {
            assert(lowered(a@[i as int]) != lowered(b@[i as int]));
            return false;
        }
    }
    true
}

// --- whole numbers ---------------------------------------------------------
pub open spec fn digit_char(d: nat) -> char {
    (d + 48) as char
}

/// `n` in decimal, without leading zeros.
pub open spec fn digits_of(n: nat) -> Seq<char>
    decreases n,
{
    if n < 10 {
        seq![digit_char(n)]
    } else {
        digits_of(n / 10).push(digit_char(n % 10))
    }
}

/// `n` in decimal, with a minus sign where it is negative.
pub open spec fn decimal(n: int) -> Seq<char> {
    if n < 0 {
        seq!['-'] + digits_of((-n) as nat)
    } else {
        digits_of(n as nat)
    }
}

fn push_digits(out: &mut String, n: u64)
    ensures
        final(out)@ == old(out)@ + digits_of(n as nat),
    decreases n,
{
    let ghost before = out@;
    if n >= 10 {
        push_digits(out, n / 10);
    }
    let d: u8 = (n % 10) as u8;
    out.push((d + 48) as char);
    assert(out@ =~= before + digits_of(n as nat));
}

/// `n` in decimal.
pub fn u64_text(n: u64) -> (r: String)
    ensures
        r@ == decimal(n as int),
{
    let mut out = String::new();
    push_digits(&mut out, n);
    assert(out@ =~= digits_of(n as nat));
    out
}

/// `n` in decimal.
pub fn i64_text(n: i64) -> (r: String)
    ensures
        r@ == decimal(n as int),
{
    let mut out = String::new();
    if n < 0 {
        out.push('-');
        let m: u64 = (-(n as i128)) as u64;
        push_digits(&mut out, m);
        assert(out@ =~= seq!['-'] + digits_of(m as nat));
    } else {
        push_digits(&mut out, n as u64);
        assert(out@ =~= digits_of(n as nat));
    }
    out
}

/// What the digit `c` is worth in base `radix`, if it is one.
pub open spec fn digit_value(c: char, radix: int) -> Option<int> {
    let v = if '0' <= c <= '9' {
        c as int - '0' as int
    } else if 'a' <= c <= 'z' {
        c as int - 'a' as int + 10
    } else if 'A' <= c <= 'Z' {
        c as int - 'A' as int + 10
    } else {
        radix
    };
    if v < radix {
        Some(v)
    } else {
        None
    }
}

fn digit_worth(c: char, radix: u32) -> (r: Option<u32>)
    requires
        2 <= radix <= 36,
    ensures
        match r {
            Some(d) => digit_value(c, radix as int) == Some(d as int) && d < radix,
            None => digit_value(c, radix as int) is None,
        },
{
    let n: u32 = c as u32;
    let v: u32 = if '0' <= c && c <= '9' {
        n - 48
    } else if 'a' <= c && c <= 'z' {
        n - 97 + 10
    } else if 'A' <= c && c <= 'Z' {
        n - 65 + 10
    } else {
        radix
    };
    if v < radix {
        Some(v)
    } else {
        None
    }
}

/// The number that `s` writes in base `radix`, if every character is a digit.
pub open spec fn magnitude(s: Seq<char>, radix: int) -> Option<int>
    decreases s.len(),
{
    if s.len() == 0 {
        Some(0)
    } else {
        match (magnitude(s.drop_last(), radix), digit_value(s.last(), radix)) {
            (Some(m), Some(d)) => Some(m * radix + d),
            _ => None,
        }
    }
}

/// A magnitude grows with every digit added to it.
proof fn lemma_magnitude_grows(s: Seq<char>, k: int, radix: int)
    requires
        0 <= k <= s.len(),
        radix >= 2,
    ensures
        magnitude(s, radix) is Some ==> magnitude(s.take(k), radix) is Some && 0 <= magnitude(
            s.take(k),
            radix,
        )->0 <= magnitude(s, radix)->0,
    decreases s.len(),
{
    if k == s.len() {
        assert(s.take(k) =~= s);
        if s.len() > 0 {
            lemma_magnitude_grows(s.drop_last(), s.len() - 1, radix);
            assert(s.drop_last().take(s.len() - 1) =~= s.drop_last());
            if magnitude(s, radix) is Some {
                let m = magnitude(s.drop_last(), radix)->0;
                assert(m * radix >= 0) by (nonlinear_arith)
                    requires
                        m >= 0,
                        radix >= 2,
                ;
            }
        }
    } else {
        lemma_magnitude_grows(s.drop_last(), k, radix);
        assert(s.drop_last().take(k) =~= s.take(k));
        if magnitude(s, radix) is Some {
            let m = magnitude(s.drop_last(), radix)->0;
            assert(m * radix >= m) by (nonlinear_arith)
                requires
                    m >= 0,
                    radix >= 2,
            ;
        }
    }
}

/// The magnitude of `v`, where it is at most `limit`.
fn read_magnitude(v: &[char], radix: u32, limit: u64) -> (r: Option<u64>)
    requires
        2 <= radix <= 36,
        limit <= 0x1_0000_0000,
    ensures
        r matches Some(m) ==> magnitude(v@, radix as int) == Some(m as int) && m <= limit,
        r is None ==> (magnitude(v@, radix as int) matches Some(m) ==> m > limit),
{
    let mut acc: u64 = 0;
    for i in 0..v.len()
        invariant
            2 <= radix <= 36,
            limit <= 0x1_0000_0000,
            acc <= limit,
            magnitude(v@.take(i as int), radix as int) == Some(acc as int),
    {
        proof {
            assert(v@.take(i + 1).drop_last() =~= v@.take(i as int));
            lemma_magnitude_grows(v@, i + 1, radix as int);
        }
        match digit_worth(v[i], radix) {
            None => {
                return None;
            },
            Some(d) => {
                assert(acc * radix <= 0x1_0000_0000 * 36) by (nonlinear_arith)
                    requires
                        acc <= 0x1_0000_0000,
                        radix <= 36,
                ;
                acc = acc * (radix as u64) + (d as u64);
                if acc > limit {
                    return None;
                }
            },
        }
    }
    assert(v@.take(v@.len() as int) =~= v@);
    Some(acc)
}

/// The value of `s` as an unsigned 32-bit number in base `radix`: digits, after
/// a plus sign or none.
pub open spec fn u32_value(s: Seq<char>, radix: int) -> Option<u32> {
    let t = if s.len() > 0 && s[0] == '+' {
        s.skip(1)
    } else {
        s
    };
    match magnitude(t, radix) {
        Some(m) => if t.len() > 0 && m <= u32::MAX {
            Some(m as u32)
        } else {
            None
        },
        None => None,
    }
}

pub fn read_u32(v: &[char], radix: u32) -> (r: Option<u32>)
    requires
        2 <= radix <= 36,
    ensures
        r == u32_value(v@, radix as int),
{
    let from: usize = if v.len() > 0 && v[0] == '+' {
        1
    } else {
        0
    };
    let t = &v[from..v.len()];
    assert(t@ =~= if from == 1 {
        v@.skip(1)
    } else {
        v@
    });
    if t.len() == 0 {
        return None;
    }
    proof {
        lemma_magnitude_grows(t@, t@.len() as int, radix as int);
    }
    match read_magnitude(t, radix, 0xffff_ffff) {
        Some(m) => Some(m as u32),
        None => None,
    }
}

/// The value of `s` as a signed 32-bit decimal number: digits, after a sign or
/// none.
pub open spec fn i32_value(s: Seq<char>) -> Option<i32> {
    let signed = s.len() > 0 && (s[0] == '+' || s[0] == '-');
    let negative = signed && s[0] == '-';
    let t = if signed {
        s.skip(1)
    } else {
        s
    };
    match magnitude(t, 10) {
        Some(m) => if t.len() == 0 {
            None
        } else if negative && m <= 0x8000_0000 {
            Some((-m) as i32)
        } else if !negative && m <= 0x7fff_ffff {
            Some(m as i32)
        } else {
            None
        },
        None => None,
    }
}

pub fn read_i32(v: &[char]) -> (r: Option<i32>)
    ensures
        r == i32_value(v@),
{
    let signed = v.len() > 0 && (v[0] == '+' || v[0] == '-');
    let negative = signed && v[0] == '-';
    let from: usize = if signed {
        1
    } else {
        0
    };
    let t = &v[from..v.len()];
    assert(t@ =~= if signed {
        v@.skip(1)
    } else {
        v@
    });
    if t.len() == 0 {
        return None;
    }
    proof {
        lemma_magnitude_grows(t@, t@.len() as int, 10);
    }
    let limit: u64 = if negative {
        0x8000_0000
    } else {
        0x7fff_ffff
    };
    match read_magnitude(t, 10, limit) {
        Some(m) => {
            if negative {
                Some((-(m as i64)) as i32)
            } else {
                Some(m as i32)
            }
        },
        None => None,
    }
}

// --- decimal literals ------------------------------------------------------
/// How many digits `s` starts with.
pub open spec fn digit_run(s: Seq<char>) -> int
    decreases s.len(),
{
    if s.len() > 0 && is_digit(s[0]) {
        1 + digit_run(s.drop_first())
    } else {
        0
    }
}

/// `s` without the sign it may start with.
pub open spec fn unsigned(s: Seq<char>) -> Seq<char> {
    if s.len() > 0 && (s[0] == '+' || s[0] == '-') {
        s.skip(1)
    } else {
        s
    }
}

/// An exponent, or nothing: `e` or `E`, a sign or none, and digits.
pub open spec fn is_exponent(s: Seq<char>) -> bool {
    ||| s.len() == 0
    ||| {
        let t = unsigned(s.skip(1));
        (s[0] == 'e' || s[0] == 'E') && t.len() > 0 && digit_run(t) == t.len()
    }
}

/// Digits with at most one point among them, at least one digit, and then an
/// exponent or nothing.
pub open spec fn is_decimal(s: Seq<char>) -> bool {
    let whole = digit_run(s);
    if whole < s.len() && s[whole] == '.' {
        let rest = s.skip(whole + 1);
        let part = digit_run(rest);
        whole + part > 0 && is_exponent(rest.skip(part))
    } else {
        whole > 0 && is_exponent(s.skip(whole))
    }
}

/// The texts that read as a floating-point number: a sign or none, and then a
/// decimal or one of the words for infinity and for not a number.
pub open spec fn is_literal(s: Seq<char>) -> bool {
    let t = unsigned(s);
    ||| same_letters(t, "inf"@)
    ||| same_letters(t, "infinity"@)
    ||| same_letters(t, "nan"@)
    ||| is_decimal(t)
}

fn count_digits(v: &[char]) -> (r: usize)
    ensures
        r == digit_run(v@),
        r <= v@.len(),
{
    let mut i: usize = 0;
    assert(v@.skip(0) =~= v@);
    while i < v.len() && digit(v[i])
        invariant
            i <= v@.len(),
            digit_run(v@) == i + digit_run(v@.skip(i as int)),
        decreases v@.len() - i,
    {
        assert(v@.skip(i as int).drop_first() =~= v@.skip(i + 1));
        i = i + 1;
    }
    i
}

fn without_sign(v: &[char]) -> (r: &[char])
    ensures
        r@ == unsigned(v@),
{
    if v.len() > 0 && (v[0] == '+' || v[0] == '-') {
        let r = &v[1..v.len()];
        assert(r@ =~= v@.skip(1));
        r
    } else {
        v
    }
}

fn exponent(v: &[char]) -> (r: bool)
    ensures
        r == is_exponent(v@),
{
    if v.len() == 0 {
        return true;
    }
    let rest = &v[1..v.len()];
    assert(rest@ =~= v@.skip(1));
    let t = without_sign(rest);
    (v[0] == 'e' || v[0] == 'E') && t.len() > 0 && count_digits(t) == t.len()
}

fn decimal_literal(v: &[char]) -> (r: bool)
    ensures
        r == is_decimal(v@),
{
    let whole = count_digits(v);
    if whole < v.len() && v[whole] == '.' {
        let rest = &v[whole + 1..v.len()];
        assert(rest@ =~= v@.skip(whole + 1));
        let part = count_digits(rest);
        let tail = &rest[part..rest.len()];
        assert(tail@ =~= rest@.skip(part as int));
        (whole > 0 || part > 0) && exponent(tail)
    } else {
        let tail = &v[whole..v.len()];
        assert(tail@ =~= v@.skip(whole as int));
        whole > 0 && exponent(tail)
    }
}

fn same_word(v: &[char], word: &str) -> (r: bool)
    ensures
        r == same_letters(v@, word@),
{
    let t = string_of(v);
    same_ignoring_case(t.as_str(), word)
}

/// Whether `v` reads as a floating-point number.
pub fn literal(v: &[char]) -> (r: bool)
    ensures
        r == is_literal(v@),
{
    let t = without_sign(v);
    same_word(t, "inf") || same_word(t, "infinity") || same_word(t, "nan") || decimal_literal(t)
}

/// A number kept as it was written. What it is worth is for whoever computes
/// with it to say: nothing here does.
#[derive(Debug, PartialEq)]
pub struct Literal {
    pub text: String,
}

impl View for Literal {
    type V = Seq<char>;

    open spec fn view(&self) -> Seq<char> {
        self.text@
    }
}

impl Literal {
    /// The text reads as a number.
    pub open spec fn wf(&self) -> bool {
        is_literal(self@)
    }

    pub fn read(v: &[char]) -> (r: Option<Literal>)
        ensures
            r is Some <==> is_literal(v@),
            r matches Some(n) ==> n@ == v@ && n.wf(),
    {
        if literal(v) {
            Some(Literal { text: string_of(v) })
        } else {
            None
        }
    }

    pub fn copy(&self) -> (r: Literal)
        ensures
            r@ == self@,
    {
        Literal { text: self.text.clone() }
    }
}

// --- letters of any script -------------------------------------------------
/// Whether a character has Unicode's Alphabetic property.
pub uninterp spec fn alphabetic(c: char) -> bool;

pub open spec fn is_ascii_letter(c: char) -> bool {
    is_ascii_upper(c) || is_ascii_lower(c)
}

/// `char::is_alphabetic`: the Alphabetic property, which depends on the
/// character alone. Below U+0080 the characters that have it are the letters A
/// to Z, in either case.
#[verifier::external_body]
pub(crate) fn is_alphabetic(c: char) -> (r: bool)
    ensures
        r == alphabetic(c),
        (c as u32) < 0x80 ==> r == is_ascii_letter(c),
{
    c.is_alphabetic()
}

// --- cutting text up -------------------------------------------------------
/// How many characters of `s` stand before the first `c`, all of them if there
/// is none.
pub open spec fn find(s: Seq<char>, c: char) -> int
    decreases s.len(),
{
    if s.len() == 0 || s[0] == c {
        0
    } else {
        1 + find(s.drop_first(), c)
    }
}

pub fn find_char(v: &[char], c: char) -> (r: usize)
    ensures
        r == find(v@, c),
        r <= v@.len(),
        r < v@.len() ==> v@[r as int] == c,
{
    let mut i: usize = 0;
    assert(v@.skip(0) =~= v@);
    while i < v.len() && v[i] != c
        invariant
            i <= v@.len(),
            find(v@, c) == i + find(v@.skip(i as int), c),
        decreases v@.len() - i,
    {
        assert(v@.skip(i as int).drop_first() =~= v@.skip(i + 1));
        i = i + 1;
    }
    i
}

/// The pieces of `s` between one `sep` and the next.
pub open spec fn pieces(s: Seq<char>, sep: char) -> Seq<Seq<char>>
    decreases s.len(),
{
    if s.len() == 0 {
        seq![Seq::empty()]
    } else {
        let f = pieces(s.drop_last(), sep);
        if s.last() == sep {
            f.push(Seq::empty())
        } else {
            f.drop_last().push(f.last().push(s.last()))
        }
    }
}

/// What a vector of character vectors holds.
pub open spec fn rows_of(v: Seq<Vec<char>>) -> Seq<Seq<char>> {
    v.map_values(|r: Vec<char>| r@)
}

pub fn split(v: &[char], sep: char) -> (r: Vec<Vec<char>>)
    ensures
        rows_of(r@) == pieces(v@, sep),
{
    let mut done: Vec<Vec<char>> = Vec::new();
    let mut piece: Vec<char> = Vec::new();
    assert(rows_of(done@).push(piece@) =~= pieces(v@.take(0), sep));
    for i in 0..v.len()
        invariant
            rows_of(done@).push(piece@) == pieces(v@.take(i as int), sep),
    {
        let ghost before = pieces(v@.take(i as int), sep);
        let c = v[i];
        assert(v@.take(i + 1).drop_last() =~= v@.take(i as int));
        assert(before.drop_last() =~= rows_of(done@));
        if c == sep {
            let ghost old_rows = rows_of(done@);
            let ghost text = piece@;
            done.push(piece);
            piece = Vec::new();
            assert(rows_of(done@) =~= old_rows.push(text));
            assert(piece@ =~= Seq::empty());
        } else {
            piece.push(c);
        }
    }
    assert(v@.take(v@.len() as int) =~= v@);
    let ghost old_rows = rows_of(done@);
    let ghost text = piece@;
    done.push(piece);
    assert(rows_of(done@) =~= old_rows.push(text));
    done
}

/// Texts one after the other, with `sep` between each two.
pub open spec fn joined(s: Seq<Seq<char>>, sep: Seq<char>) -> Seq<char>
    decreases s.len(),
{
    if s.len() == 0 {
        Seq::empty()
    } else if s.len() == 1 {
        s[0]
    } else {
        joined(s.drop_last(), sep) + sep + s.last()
    }
}

pub fn join(v: &[String], sep: &str) -> (r: String)
    ensures
        r@ == joined(texts(v@), sep@),
{
    let mut out = String::new();
    for i in 0..v.len()
        invariant
            out@ == joined(texts(v@).take(i as int), sep@),
    {
        proof {
            assert(texts(v@).take(i + 1).drop_last() =~= texts(v@).take(i as int));
        }
        if i > 0 {
            out.append(sep);
        }
        out.append(v[i].as_str());
        assert(out@ =~= joined(texts(v@).take(i + 1), sep@));
    }
    assert(texts(v@).take(v@.len() as int) =~= texts(v@));
    out
}

/// Where the first text stands that is `want`, or `s.len()`.
pub open spec fn position(s: Seq<Seq<char>>, want: Seq<char>) -> int
    decreases s.len(),
{
    if s.len() == 0 || s[0] == want {
        0
    } else {
        1 + position(s.drop_first(), want)
    }
}

pub fn find_text(v: &[String], want: &str) -> (r: usize)
    ensures
        r == position(texts(v@), want@),
        r <= v@.len(),
{
    let ghost all = texts(v@);
    assert(all.skip(0) =~= all);
    for i in 0..v.len()
        invariant
            all == texts(v@),
            position(all, want@) == i + position(all.skip(i as int), want@),
    {
        if same(v[i].as_str(), want) {
            return i;
        }
        assert(all.skip(i as int).drop_first() =~= all.skip(i + 1));
    }
    v.len()
}

/// The runs of characters between whitespace, in order.
pub open spec fn words_in(s: Seq<char>) -> Seq<Seq<char>>
    decreases s.len(),
{
    if s.len() == 0 {
        Seq::empty()
    } else {
        let before = words_in(s.drop_last());
        if is_white(s.last()) {
            before
        } else if s.len() >= 2 && !is_white(s[s.len() - 2]) {
            before.drop_last().push(before.last().push(s.last()))
        } else {
            before.push(seq![s.last()])
        }
    }
}

pub fn split_words(text: &str) -> (r: Vec<String>)
    ensures
        texts(r@) == words_in(text@),
{
    let v = chars_of(text);
    let mut out: Vec<String> = Vec::new();
    for i in 0..v.len()
        invariant
            texts(out@) == words_in(v@.take(i as int)),
    {
        let ghost s = v@.take(i + 1);
        let ghost before = texts(out@);
        assert(s.drop_last() =~= v@.take(i as int));
        let c = v[i];
        if !white(c) {
            if i > 0 && !white(v[i - 1]) {
                assert(s.drop_last().last() == v@[i - 1]);
                if let Some(w) = out.pop() {
                    let mut w = w;
                    w.push(c);
                    out.push(w);
                    assert(texts(out@) =~= before.drop_last().push(before.last().push(c)));
                }
            } else {
                let mut w = String::new();
                w.push(c);
                out.push(w);
                assert(w@ =~= seq![c]);
                assert(texts(out@) =~= before.push(seq![c]));
            }
        }
    }
    assert(v@.take(v@.len() as int) =~= v@);
    out
}

/// The texts of all these lists, one list after the other.
pub open spec fn flat(s: Seq<Seq<Seq<char>>>) -> Seq<Seq<char>>
    decreases s.len(),
{
    if s.len() == 0 {
        Seq::empty()
    } else {
        flat(s.drop_last()) + s.last()
    }
}

/// The first text that is wanted is found: it stands there, and none before it
/// is the same; and where none is wanted, none is found.
pub proof fn law_the_first_of_its_kind_is_found(s: Seq<Seq<char>>, want: Seq<char>)
    ensures
        0 <= position(s, want) <= s.len(),
        position(s, want) < s.len() <==> s.contains(want),
        position(s, want) < s.len() ==> s[position(s, want)] == want,
        forall|i: int| 0 <= i < position(s, want) ==> #[trigger] s[i] != want,
    decreases s.len(),
{
    if s.len() > 0 && s[0] != want {
        let t = s.drop_first();
        law_the_first_of_its_kind_is_found(t, want);
        assert forall|i: int| 0 <= i < position(s, want) implies #[trigger] s[i] != want by {
            if i > 0 {
                assert(s[i] == t[i - 1]);
            }
        }
        if s.contains(want) {
            let i = choose|i: int| 0 <= i < s.len() && s[i] == want;
            assert(t[i - 1] == want);
        }
    } else if s.len() > 0 {
        assert(s.contains(want));
    }
}

/// The first such character is found: it stands there, and none before it is the
/// same; and where there is none, the search goes to the end.
pub proof fn law_the_first_character_is_found(s: Seq<char>, c: char)
    ensures
        0 <= find(s, c) <= s.len(),
        find(s, c) < s.len() <==> s.contains(c),
        find(s, c) < s.len() ==> s[find(s, c)] == c,
        forall|i: int| 0 <= i < find(s, c) ==> #[trigger] s[i] != c,
    decreases s.len(),
{
    if s.len() > 0 && s[0] != c {
        let t = s.drop_first();
        law_the_first_character_is_found(t, c);
        assert forall|i: int| 0 <= i < find(s, c) implies #[trigger] s[i] != c by {
            if i > 0 {
                assert(s[i] == t[i - 1]);
            }
        }
        if s.contains(c) {
            let i = choose|i: int| 0 <= i < s.len() && s[i] == c;
            assert(t[i - 1] == c);
        }
    } else if s.len() > 0 {
        assert(s.contains(c));
    }
}

/// The digits of a number are decimal digits, the first of them no zero unless
/// it is the only one, and they are worth the number.
pub proof fn law_digits_are_decimal(n: nat)
    ensures
        digits_of(n).len() >= 1,
        forall|i: int| 0 <= i < digits_of(n).len() ==> is_digit(#[trigger] digits_of(n)[i]),
        magnitude(digits_of(n), 10) == Some(n as int),
        n > 0 ==> digits_of(n)[0] != '0',
    decreases n,
{
    reveal_with_fuel(magnitude, 2);
    let d = digits_of(n);
    if n < 10 {
        assert(d.drop_last() =~= Seq::empty());
    } else {
        law_digits_are_decimal(n / 10);
        let e = digits_of(n / 10);
        assert(d.drop_last() =~= e);
        assert forall|i: int| 0 <= i < d.len() implies is_digit(#[trigger] d[i]) by {
            if i < e.len() {
                assert(d[i] == e[i]);
            }
        }
        assert(d[0] == e[0]);
    }
}

/// A number reads back as itself: signed or not, with or without a plus.
pub proof fn law_numbers_read_back(n: int)
    ensures
        i32::MIN <= n <= i32::MAX ==> i32_value(decimal(n)) == Some(n as i32),
        0 <= n <= i32::MAX ==> i32_value(seq!['+'] + decimal(n)) == Some(n as i32),
        0 <= n <= u32::MAX ==> u32_value(decimal(n), 10) == Some(n as u32),
        0 <= n <= u32::MAX ==> u32_value(seq!['+'] + decimal(n), 10) == Some(n as u32),
        n > u32::MAX ==> u32_value(decimal(n), 10) is None,
        n < 0 ==> u32_value(decimal(n), 10) is None,
        n > i32::MAX || n < i32::MIN ==> i32_value(decimal(n)) is None,
{
    let m: nat = if n < 0 {
        (-n) as nat
    } else {
        n as nat
    };
    law_digits_are_decimal(m);
    let d = digits_of(m);
    assert(is_digit(d[0]));
    assert((seq!['+'] + d).skip(1) =~= d);
    assert((seq!['-'] + d).skip(1) =~= d);
    if n < 0 {
        let s = decimal(n);
        assert(s[0] == '-');
        lemma_no_digit_no_magnitude(s, 0, 10);
    }
}

/// A text with anything else among its digits is worth nothing.
pub proof fn lemma_no_digit_no_magnitude(s: Seq<char>, i: int, radix: int)
    requires
        0 <= i < s.len(),
        digit_value(s[i], radix) is None,
    ensures
        magnitude(s, radix) is None,
    decreases s.len(),
{
    if i < s.len() - 1 {
        assert(s.drop_last()[i] == s[i]);
        lemma_no_digit_no_magnitude(s.drop_last(), i, radix);
    }
}

/// Nothing but a sign and digits is a number.
pub proof fn law_only_digits_are_a_number(s: Seq<char>, i: int)
    requires
        1 <= i < s.len() || i == 0 && s.len() > 0 && s[0] != '+' && s[0] != '-',
        !(48 <= s[i] as u32 <= 57),
    ensures
        i32_value(s) is None,
        u32_value(s, 10) is None,
{
    let signed = s.len() > 0 && (s[0] == '+' || s[0] == '-');
    if signed {
        assert(s.skip(1)[i - 1] == s[i]);
        lemma_no_digit_no_magnitude(s.skip(1), i - 1, 10);
    }
    lemma_no_digit_no_magnitude(s, i, 10);
}

/// An empty text is no number, nor is a sign alone.
pub proof fn law_a_number_has_digits(s: Seq<char>)
    requires
        s.len() == 0 || s.len() == 1 && (s[0] == '+' || s[0] == '-'),
    ensures
        i32_value(s) is None,
        u32_value(s, 10) is None,
{
    if s.len() == 1 && s[0] == '-' {
        lemma_no_digit_no_magnitude(s, 0, 10);
    }
}

/// Whitespace is cut off at either end, all of it, and nothing else: what is
/// left stands in the text as it is.
pub proof fn law_trimming_cuts_whitespace_alone(s: Seq<char>)
    ensures
        trimmed(s).len() > 0 ==> !is_white(trimmed(s)[0]) && !is_white(trimmed(s).last()),
        exists|i: int|
            0 <= i && i + trimmed(s).len() <= s.len() && trimmed(s) == #[trigger] s.subrange(
                i,
                i + trimmed(s).len(),
            ) && (forall|j: int|
                0 <= j < s.len() && (j < i || j >= i + trimmed(s).len()) ==> is_white(
                    #[trigger] s[j],
                )),
{
    lemma_trimmed_start(s);
    let t = trimmed_start(s);
    lemma_trimmed_end(t);
    let i = s.len() - t.len();
    let u = trimmed(s);
    assert(u =~= s.subrange(i, i + u.len()));
    assert forall|j: int| 0 <= j < s.len() && (j < i || j >= i + u.len()) implies is_white(
        #[trigger] s[j],
    ) by {
        if j >= i {
            assert(t[j - i] == s[j]);
        }
    }
    if u.len() > 0 {
        assert(u[0] == t[0]);
    }
}

proof fn lemma_trimmed_start(s: Seq<char>)
    ensures
        trimmed_start(s).len() <= s.len(),
        trimmed_start(s) == s.skip(s.len() - trimmed_start(s).len()),
        trimmed_start(s).len() > 0 ==> !is_white(trimmed_start(s)[0]),
        forall|j: int| 0 <= j < s.len() - trimmed_start(s).len() ==> is_white(#[trigger] s[j]),
    decreases s.len(),
{
    if s.len() > 0 && is_white(s[0]) {
        let t = s.drop_first();
        lemma_trimmed_start(t);
        let n = s.len() - trimmed_start(s).len();
        assert(trimmed_start(s) =~= s.skip(n));
        assert forall|j: int| 0 <= j < n implies is_white(#[trigger] s[j]) by {
            if j > 0 {
                assert(s[j] == t[j - 1]);
            }
        }
    } else {
        assert(s.skip(0) =~= s);
    }
}

proof fn lemma_trimmed_end(s: Seq<char>)
    ensures
        trimmed_end(s).len() <= s.len(),
        trimmed_end(s) == s.take(trimmed_end(s).len() as int),
        trimmed_end(s).len() > 0 ==> !is_white(trimmed_end(s).last()),
        forall|j: int| trimmed_end(s).len() <= j < s.len() ==> is_white(#[trigger] s[j]),
    decreases s.len(),
{
    if s.len() > 0 && is_white(s.last()) {
        let t = s.drop_last();
        lemma_trimmed_end(t);
        assert(trimmed_end(s) =~= s.take(trimmed_end(s).len() as int));
        assert forall|j: int| trimmed_end(s).len() <= j < s.len() implies is_white(#[trigger] s[j]) by {
            if j < t.len() {
                assert(s[j] == t[j]);
            }
        }
    } else {
        assert(s.take(s.len() as int) =~= s);
    }
}

/// Among the ASCII characters, a space and the five from tab to carriage return
/// are white; no letter and no digit is.
pub proof fn law_spaces_and_tabs_are_white(c: char)
    requires
        (c as u32) < 0x80,
    ensures
        is_white(c) <==> c == ' ' || 9 <= c as u32 <= 13,
{
}

/// Cut up at a character, a text is its pieces with that character between them,
/// and no piece holds it.
pub proof fn law_pieces_make_the_whole(s: Seq<char>, sep: char)
    ensures
        pieces(s, sep).len() >= 1,
        joined(pieces(s, sep), seq![sep]) == s,
        forall|i: int| 0 <= i < pieces(s, sep).len() ==> !(#[trigger] pieces(s, sep)[i]).contains(
            sep,
        ),
    decreases s.len(),
{
    let all = pieces(s, sep);
    if s.len() == 0 {
        assert(joined(all, seq![sep]) =~= s);
    } else {
        let before = s.drop_last();
        law_pieces_make_the_whole(before, sep);
        let f = pieces(before, sep);
        let c = s.last();
        assert(before.push(c) =~= s);
        if c == sep {
            assert(all.drop_last() =~= f);
            assert(joined(all, seq![sep]) =~= s);
            assert forall|i: int| 0 <= i < all.len() implies !(#[trigger] all[i]).contains(sep) by {
                if i < f.len() {
                    assert(all[i] == f[i]);
                }
            }
        } else {
            let head = f.drop_last();
            assert(all.drop_last() =~= head);
            assert(f =~= head.push(f.last()));
            assert(!f[f.len() - 1].contains(sep));
            assert forall|i: int| 0 <= i < all.len() implies !(#[trigger] all[i]).contains(sep) by {
                if i < head.len() {
                    assert(all[i] == f[i]);
                } else {
                    let p = all[i];
                    if p.contains(sep) {
                        let k = choose|k: int| 0 <= k < p.len() && p[k] == sep;
                        assert(f.last()[k] == sep);
                        assert(f.last().contains(sep));
                    }
                }
            }
            assert(joined(all, seq![sep]) =~= joined(f, seq![sep]).push(c));
        }
    }
}

/// Joined texts stand one after the other, with the separator between each two.
pub proof fn law_joining_puts_the_separator_between(s: Seq<Seq<char>>, t: Seq<char>, sep: Seq<char>)
    ensures
        joined(Seq::empty(), sep).len() == 0,
        joined(seq![t], sep) == t,
        s.len() > 0 ==> joined(s.push(t), sep) == joined(s, sep) + sep + t,
{
    assert(s.push(t).drop_last() =~= s);
}

/// A run without whitespace is one word.
pub proof fn law_a_run_is_one_word(s: Seq<char>)
    requires
        s.len() > 0,
        forall|i: int| 0 <= i < s.len() ==> !is_white(#[trigger] s[i]),
    ensures
        words_in(s) == seq![s],
    decreases s.len(),
{
    let t = s.drop_last();
    assert(t.push(s.last()) =~= s);
    assert(!is_white(s[s.len() - 1]));
    if s.len() == 1 {
        assert(words_in(t) =~= Seq::empty());
        assert(seq![s.last()] =~= s);
        assert(words_in(s) =~= seq![s]);
    } else {
        assert forall|i: int| 0 <= i < t.len() implies !is_white(#[trigger] t[i]) by {
            assert(t[i] == s[i]);
        }
        law_a_run_is_one_word(t);
        assert(!is_white(s[s.len() - 2]));
        assert(words_in(s) =~= seq![s]);
    }
}

/// Whitespace parts words: those before it are words, and those after it, and no
/// word goes across.
pub proof fn law_whitespace_parts_words(a: Seq<char>, w: char, b: Seq<char>)
    requires
        is_white(w),
    ensures
        words_in(a + seq![w] + b) == words_in(a) + words_in(b),
        words_in(Seq::empty()).len() == 0,
    decreases b.len(),
{
    let s = a + seq![w] + b;
    if b.len() == 0 {
        assert(s.last() == w);
        assert(s.drop_last() =~= a);
        assert(words_in(s) =~= words_in(a) + words_in(b));
    } else {
        let c = b.drop_last();
        law_whitespace_parts_words(a, w, c);
        assert(s.drop_last() =~= a + seq![w] + c);
        assert(s.last() == b.last());
        let (x, y) = (words_in(a), words_in(c));
        if is_white(b.last()) {
        } else if c.len() > 0 {
            assert(s[s.len() - 2] == b[b.len() - 2]);
            if !is_white(b[b.len() - 2]) {
                lemma_a_word_is_open(c);
                assert((x + y).drop_last() =~= x + y.drop_last());
                assert((x + y).last() == y.last());
                assert(words_in(s) =~= x + words_in(b));
            } else {
                assert(words_in(s) =~= x + words_in(b));
            }
        } else {
            assert(s[s.len() - 2] == w);
            assert(y =~= Seq::empty());
            assert(x + y =~= x);
            assert(words_in(b) =~= seq![seq![b.last()]]);
            assert(words_in(s) =~= x + words_in(b));
        }
    }
}

/// A text that does not end in whitespace ends in a word.
proof fn lemma_a_word_is_open(s: Seq<char>)
    requires
        s.len() > 0,
        !is_white(s.last()),
    ensures
        words_in(s).len() > 0,
{
}

/// A sign or none, and digits with a point among them or none, are a number.
pub proof fn law_digits_and_a_point_are_a_number(whole: Seq<char>, part: Seq<char>, sign: char)
    requires
        forall|i: int| 0 <= i < whole.len() ==> is_digit(#[trigger] whole[i]),
        forall|i: int| 0 <= i < part.len() ==> is_digit(#[trigger] part[i]),
        sign == '+' || sign == '-',
    ensures
        whole.len() > 0 ==> is_literal(whole) && is_literal(seq![sign] + whole),
        whole.len() + part.len() > 0 ==> is_literal(whole + seq!['.'] + part) && is_literal(
            seq![sign] + (whole + seq!['.'] + part),
        ),
{
    let s = whole + seq!['.'] + part;
    lemma_digit_run(whole, Seq::empty());
    assert(whole + Seq::<char>::empty() =~= whole);
    lemma_digit_run(whole, seq!['.'] + part);
    assert(whole + (seq!['.'] + part) =~= s);
    let n = whole.len() as int;
    assert(s[n] == '.');
    assert(s.skip(n + 1) =~= part);
    lemma_digit_run(part, Seq::empty());
    assert(part + Seq::<char>::empty() =~= part);
    assert(part.skip(part.len() as int).len() == 0);
    assert(whole.skip(n).len() == 0);
    assert((seq![sign] + whole).skip(1) =~= whole);
    assert((seq![sign] + s).skip(1) =~= s);
    if n > 0 {
        assert(is_digit(whole[0]));
        assert(s[0] == whole[0]);
    }
}

/// Digits run as far as they go.
proof fn lemma_digit_run(d: Seq<char>, rest: Seq<char>)
    requires
        forall|i: int| 0 <= i < d.len() ==> is_digit(#[trigger] d[i]),
        rest.len() == 0 || !is_digit(rest[0]),
    ensures
        digit_run(d + rest) == d.len(),
    decreases d.len(),
{
    let s = d + rest;
    if d.len() > 0 {
        assert(s[0] == d[0]);
        assert(s.drop_first() =~= d.drop_first() + rest);
        assert forall|i: int| 0 <= i < d.drop_first().len() implies is_digit(
            #[trigger] d.drop_first()[i],
        ) by {
            assert(d.drop_first()[i] == d[i + 1]);
        }
        lemma_digit_run(d.drop_first(), rest);
    } else {
        assert(s =~= rest);
    }
}

/// Nothing at all is no number, nor is what starts with neither a sign, a digit,
/// a point, nor the letter of a word for one.
pub proof fn law_a_number_starts_like_one(s: Seq<char>)
    requires
        s.len() == 0 || !is_digit(s[0]) && s[0] != '+' && s[0] != '-' && s[0] != '.' && s[0] != 'i'
            && s[0] != 'I' && s[0] != 'n' && s[0] != 'N',
    ensures
        !is_literal(s),
{
    reveal_strlit("inf");
    reveal_strlit("infinity");
    reveal_strlit("nan");
    assert("inf"@[0] == 'i' && "infinity"@[0] == 'i' && "nan"@[0] == 'n');
    assert("inf"@.len() == 3 && "infinity"@.len() == 8 && "nan"@.len() == 3);
    if s.len() > 0 {
        assert(lowered(s[0]) != 'i' && lowered(s[0]) != 'n');
        assert(digit_run(s) == 0);
    }
}

/// Letters are the same in either case, and no other character is the same as
/// another.
pub proof fn law_only_the_case_of_letters_is_ignored(a: char, b: char)
    ensures
        lowered(a) == lowered(b) <==> a == b || 'a' <= a <= 'z' && b as u32 + 32 == a as u32 || 'a'
            <= b <= 'z' && a as u32 + 32 == b as u32,
{
}

/// Texts are the same but for case where each of their characters is.
pub proof fn law_texts_are_the_same_letter_by_letter(a: Seq<char>, b: Seq<char>, i: int)
    ensures
        same_letters(a, a),
        same_letters(a, b) ==> same_letters(b, a) && a.len() == b.len(),
        same_letters(a, b) && 0 <= i < a.len() ==> lowered(a[i]) == lowered(b[i]),
        a.len() == b.len() && (forall|k: int|
            0 <= k < a.len() ==> lowered(#[trigger] a[k]) == lowered(b[k])) ==> same_letters(a, b),
{
    if same_letters(a, b) {
        assert forall|k: int| 0 <= k < b.len() implies lowered(#[trigger] b[k]) == lowered(a[k]) by {
            assert(lowered(a[k]) == lowered(b[k]));
        }
    }
}

/// What a list of lists comes to holds each list, one after the other.
pub proof fn law_a_flat_list_holds_every_list(s: Seq<Seq<Seq<char>>>, t: Seq<Seq<char>>)
    ensures
        flat(Seq::empty()).len() == 0,
        flat(s.push(t)) == flat(s) + t,
{
    assert(s.push(t).drop_last() =~= s);
}

/// A negative number is written with a minus, and no other.
pub proof fn law_a_minus_means_less_than_nothing(n: int)
    ensures
        n < 0 ==> decimal(n) == seq!['-'] + decimal(-n),
        n < 0 <==> decimal(n)[0] == '-',
{
    if n >= 0 {
        law_digits_are_decimal(n as nat);
        assert(is_digit(digits_of(n as nat)[0]));
    }
}

/// Digits may be followed by an exponent: the letter, a sign or none, and
/// digits.
pub proof fn law_a_number_may_have_an_exponent(
    whole: Seq<char>,
    power: Seq<char>,
    letter: char,
    sign: char,
)
    requires
        whole.len() > 0,
        power.len() > 0,
        forall|i: int| 0 <= i < whole.len() ==> is_digit(#[trigger] whole[i]),
        forall|i: int| 0 <= i < power.len() ==> is_digit(#[trigger] power[i]),
        letter == 'e' || letter == 'E',
        sign == '+' || sign == '-',
    ensures
        is_literal(whole + (seq![letter] + power)),
        is_literal(whole + (seq![letter, sign] + power)),
{
    let n = whole.len() as int;
    let (a, b) = (seq![letter] + power, seq![letter, sign] + power);
    lemma_digit_run(whole, a);
    lemma_digit_run(whole, b);
    lemma_digit_run(power, Seq::empty());
    assert(power + Seq::<char>::empty() =~= power);
    assert(is_digit(whole[0]) && is_digit(power[0]));
    assert((whole + a).skip(n) =~= a && (whole + b).skip(n) =~= b);
    assert((whole + a)[n] == letter && (whole + b)[n] == letter);
    assert((whole + a)[0] == whole[0] && (whole + b)[0] == whole[0]);
    assert(a.skip(1) =~= power);
    assert(b.skip(1) =~= seq![sign] + power);
    assert(b.skip(1).skip(1) =~= power);
}

/// A digit is worth its place among the digits and then the letters, in either
/// case, where that is below the base; nothing else is a digit.
pub proof fn law_a_digit_is_worth_its_place(c: char, radix: int)
    requires
        2 <= radix <= 36,
    ensures
        digit_value(c, radix) matches Some(v) ==> {
            &&& 0 <= v < radix
            &&& v < 10 ==> c as u32 == 48 + v
            &&& v >= 10 ==> c as u32 == 55 + v || c as u32 == 87 + v
        },
        48 <= c as u32 <= 57 && c as u32 - 48 < radix ==> digit_value(c, radix) is Some,
        65 <= c as u32 <= 90 && c as u32 - 55 < radix ==> digit_value(c, radix) is Some,
        97 <= c as u32 <= 122 && c as u32 - 87 < radix ==> digit_value(c, radix) is Some,
{
}

/// The letters of ASCII are two runs of twenty-six.
pub proof fn law_letters_are_two_runs(c: char)
    ensures
        is_ascii_upper(c) <==> 65 <= c as u32 <= 90,
        is_ascii_lower(c) <==> 97 <= c as u32 <= 122,
        is_ascii_letter(c) <==> 65 <= c as u32 <= 90 || 97 <= c as u32 <= 122,
{
}

} // verus!
