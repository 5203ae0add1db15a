//! The config file: flat `key = value` lines with `#` comments, no sections, no
//! nesting. Every setting is optional; anything absent keeps its default, and a
//! command-line flag beats the file.
//!
//! Sizes take sway's syntax: `600px` is absolute, `70ppt` is 70 percent of the
//! display the grid appears on. That matters on a multi-monitor setup, where a
//! pixel size that suits one screen is wrong on the next: percentages are
//! resolved against whichever display the overlay actually maps on, each time
//! it runs.

use vstd::prelude::*;
use vstd::string::*;

use crate::capture::Live;
use crate::target;
use crate::target::Format;
use crate::theme::Argb;
use crate::words;
use crate::words::{
    Literal, chars_of, find_char, is_alphabetic, quote, read_i32, read_u32, same, split, string_of,
    trim, trim_text, u64_text,
};

verus! {

/// That a result is the one specified: the same value, or an error that says the
/// same.
pub open spec fn says<T>(r: Result<T, String>, want: Result<T, Seq<char>>) -> bool {
    match (r, want) {
        (Ok(a), Ok(b)) => a == b,
        (Err(a), Err(b)) => a@ == b,
        _ => false,
    }
}

// --- sizes -----------------------------------------------------------------
/// A size, either absolute or relative to the display it will be shown on. The
/// number is kept as it was written.
#[derive(Debug, PartialEq)]
pub enum Length {
    Px(Literal),
    /// Percentage points, as sway spells it.
    Ppt(Literal),
}

/// A size, as text.
pub enum Size {
    Px(Seq<char>),
    Ppt(Seq<char>),
}

impl View for Length {
    type V = Size;

    open spec fn view(&self) -> Size {
        match self {
            Length::Px(n) => Size::Px(n@),
            Length::Ppt(n) => Size::Ppt(n@),
        }
    }
}

/// Where the unit of a size starts: at the first letter or percent sign.
pub open spec fn unit_start(s: Seq<char>) -> int
    decreases s.len(),
{
    if s.len() == 0 || words::alphabetic(s[0]) || s[0] == '%' {
        0
    } else {
        1 + unit_start(s.drop_first())
    }
}

/// The size that a number and a unit make; `whole` is what both were read from.
pub open spec fn sized(whole: Seq<char>, number: Seq<char>, unit: Seq<char>) -> Result<
    Size,
    Seq<char>,
> {
    if !words::is_literal(number) {
        Err(words::quoted(whole) + " is not a number followed by px or ppt"@)
    } else if unit == ""@ || unit == "px"@ {
        Ok(Size::Px(number))
    } else if unit == "ppt"@ || unit == "%"@ {
        Ok(Size::Ppt(number))
    } else {
        Err("unknown unit "@ + words::quoted(unit) + ", expected px or ppt"@)
    }
}

/// The size that a text writes.
pub open spec fn size_of(s: Seq<char>) -> Result<Size, Seq<char>> {
    let t = words::trimmed(s);
    let i = unit_start(t);
    sized(t, words::trimmed(t.take(i)), words::trimmed(t.skip(i)))
}

/// That a length is the size specified.
pub open spec fn measures(r: Result<Length, String>, want: Result<Size, Seq<char>>) -> bool {
    match (r, want) {
        (Ok(a), Ok(b)) => a@ == b && a.wf(),
        (Err(a), Err(b)) => a@ == b,
        _ => false,
    }
}

impl Length {
    /// The number reads as one.
    pub open spec fn wf(&self) -> bool {
        match self {
            Length::Px(n) => n.wf(),
            Length::Ppt(n) => n.wf(),
        }
    }

    /// The length that a number and a unit make; `whole` is what both were read
    /// from, for the error to name.
    pub fn of(whole: &str, number: &str, unit: &str) -> (r: Result<Length, String>)
        ensures
            measures(r, sized(whole@, number@, unit@)),
    {
        let digits = chars_of(number);
        match Literal::read(digits.as_slice()) {
            None => Err(quote(whole).concat(" is not a number followed by px or ppt")),
            Some(n) => {
                if same(unit, "") || same(unit, "px") {
                    Ok(Length::Px(n))
                } else if same(unit, "ppt") || same(unit, "%") {
                    Ok(Length::Ppt(n))
                } else {
                    let mut e = "unknown unit ".to_owned();
                    e.append(quote(unit).as_str());
                    e.append(", expected px or ppt");
                    Err(e)
                }
            },
        }
    }

    pub fn copy(&self) -> (r: Length)
        requires
            self.wf(),
        ensures
            r@ == self@,
            r.wf(),
    {
        match self {
            Length::Px(n) => Length::Px(n.copy()),
            Length::Ppt(n) => Length::Ppt(n.copy()),
        }
    }

    /// `600px`, `70ppt`, `70%`, or a bare number meaning pixels.
    pub fn parse(s: &str) -> (r: Result<Length, String>)
        ensures
            measures(r, size_of(s@)),
    {
        let all = chars_of(s);
        let t = trim(all.as_slice());
        let mut i: usize = 0;
        assert(t@.skip(0) =~= t@);
        while i < t.len() && !is_alphabetic(t[i]) && t[i] != '%'
            invariant
                i <= t@.len(),
                unit_start(t@) == i + unit_start(t@.skip(i as int)),
            decreases t@.len() - i,
        {
            assert(t@.skip(i as int).drop_first() =~= t@.skip(i + 1));
            i = i + 1;
        }
        let (number, unit) = (&t[0..i], &t[i..t.len()]);
        assert(number@ =~= t@.take(i as int));
        assert(unit@ =~= t@.skip(i as int));
        let whole = string_of(t);
        let number = string_of(trim(number));
        let unit = string_of(trim(unit));
        Length::of(whole.as_str(), number.as_str(), unit.as_str())
    }
}

// --- colours and other values ----------------------------------------------
/// The digits of a colour: what follows the `#`, if there is one.
pub open spec fn hex_of(s: Seq<char>) -> Seq<char> {
    let t = words::trimmed(s);
    if t.len() > 0 && t[0] == '#' {
        t.skip(1)
    } else {
        t
    }
}

pub open spec fn is_hex(c: char) -> bool {
    '0' <= c <= '9' || 'a' <= c <= 'f' || 'A' <= c <= 'F'
}

/// Hex digits, in either case, and nothing else.
pub open spec fn all_hex(s: Seq<char>) -> bool {
    forall|i: int| 0 <= i < s.len() ==> is_hex(#[trigger] s[i])
}

/// What hex digits are worth.
pub open spec fn hex_value(s: Seq<char>) -> int
    decreases s.len(),
{
    if s.len() == 0 {
        0
    } else {
        hex_value(s.drop_last()) * 16 + words::digit_value(s.last(), 16)->Some_0
    }
}

/// The colour that a text writes: `#rrggbb`, which is opaque, or `#aarrggbb`.
/// What is not a number at all, or one past 32 bits, is told apart from one of
/// another length.
pub open spec fn colour_of(s: Seq<char>) -> Result<Argb, Seq<char>> {
    let hex = hex_of(s);
    if all_hex(hex) && hex.len() == 6 {
        Ok((0xff00_0000 + hex_value(hex)) as u32)
    } else if all_hex(hex) && hex.len() == 8 {
        Ok(hex_value(hex) as u32)
    } else if all_hex(hex) && hex.len() > 0 && hex_value(hex) <= u32::MAX {
        Err(words::quoted(s) + " should be #rrggbb or #aarrggbb"@)
    } else {
        Err(words::quoted(s) + " is not a colour"@)
    }
}

/// One more than the largest number of `n` hex digits.
spec fn sixteens(n: nat) -> int
    decreases n,
{
    if n == 0 {
        1
    } else {
        16 * sixteens((n - 1) as nat)
    }
}

/// A text has a magnitude in base 16 just where it is hex digits; that is what
/// they are worth, and less than their count can write.
proof fn lemma_hex(s: Seq<char>)
    ensures
        words::magnitude(s, 16) is Some <==> all_hex(s),
        all_hex(s) ==> words::magnitude(s, 16) == Some(hex_value(s)) && 0 <= hex_value(s)
            < sixteens(s.len()),
    decreases s.len(),
{
    if s.len() > 0 {
        let t = s.drop_last();
        lemma_hex(t);
        if all_hex(t) && is_hex(s.last()) {
            assert forall|i: int| 0 <= i < s.len() implies is_hex(#[trigger] s[i]) by {
                if i < t.len() {
                    assert(s[i] == t[i]);
                }
            }
        }
        if all_hex(s) {
            assert forall|i: int| 0 <= i < t.len() implies is_hex(#[trigger] t[i]) by {
                assert(t[i] == s[i]);
            }
            assert(is_hex(s[s.len() - 1]));
        }
    }
}

/// `#rrggbb` or `#aarrggbb`, to the 0xAARRGGBB the painter uses. Opaque when no
/// alpha is given.
pub fn colour(s: &str) -> (r: Result<Argb, String>)
    ensures
        says(r, colour_of(s@)),
{
    let all = chars_of(s);
    let t = trim(all.as_slice());
    let from: usize = if t.len() > 0 && t[0] == '#' {
        1
    } else {
        0
    };
    let hex = &t[from..t.len()];
    assert(hex@ =~= hex_of(s@));
    proof {
        lemma_hex(hex@);
        assert(sixteens(6) == 0x100_0000 && sixteens(8) == 0x1_0000_0000) by {
            reveal_with_fuel(sixteens, 9);
        }
    }
    // A sign is not a digit.
    if hex.len() == 0 || hex[0] == '+' {
        assert(hex@.len() > 0 ==> !is_hex(hex@[0]));
        return Err(quote(s).concat(" is not a colour"));
    }
    match read_u32(hex, 16) {
        None => Err(quote(s).concat(" is not a colour")),
        Some(v) => {
            if hex.len() == 6 {
                Ok(0xff00_0000 + v)
            } else if hex.len() == 8 {
                Ok(v)
            } else {
                Err(quote(s).concat(" should be #rrggbb or #aarrggbb"))
            }
        },
    }
}

pub open spec fn boolean_of(s: Seq<char>) -> Result<bool, Seq<char>> {
    let t = words::trimmed(s);
    if t == "true"@ || t == "yes"@ || t == "on"@ || t == "1"@ {
        Ok(true)
    } else if t == "false"@ || t == "no"@ || t == "off"@ || t == "0"@ {
        Ok(false)
    } else {
        Err(words::quoted(t) + " is not true or false"@)
    }
}

pub fn boolean(s: &str) -> (r: Result<bool, String>)
    ensures
        says(r, boolean_of(s@)),
{
    let t = trim_text(s);
    let w = t.as_str();
    if same(w, "true") || same(w, "yes") || same(w, "on") || same(w, "1") {
        Ok(true)
    } else if same(w, "false") || same(w, "no") || same(w, "off") || same(w, "0") {
        Ok(false)
    } else {
        Err(quote(w).concat(" is not true or false"))
    }
}

/// What a number that could not be read is answered with.
pub open spec fn no_number(s: Seq<char>) -> Seq<char> {
    words::quoted(s) + " is not a number"@
}

pub open spec fn whole_of(s: Seq<char>) -> Result<i32, Seq<char>> {
    match words::i32_value(words::trimmed(s)) {
        Some(n) => Ok(n),
        None => Err(no_number(s)),
    }
}

pub open spec fn count_of(s: Seq<char>) -> Result<u32, Seq<char>> {
    match words::u32_value(words::trimmed(s), 10) {
        Some(n) => Ok(n),
        None => Err(no_number(s)),
    }
}

/// A number with a fraction, kept as text.
pub open spec fn literal_of(s: Seq<char>) -> Result<Seq<char>, Seq<char>> {
    if words::is_literal(words::trimmed(s)) {
        Ok(words::trimmed(s))
    } else {
        Err(no_number(s))
    }
}

fn not_a_number(s: &str) -> (r: String)
    ensures
        r@ == no_number(s@),
{
    quote(s).concat(" is not a number")
}

/// A whole number.
pub fn number(s: &str) -> (r: Result<i32, String>)
    ensures
        says(r, whole_of(s@)),
{
    let all = chars_of(s);
    match read_i32(trim(all.as_slice())) {
        Some(n) => Ok(n),
        None => Err(not_a_number(s)),
    }
}

/// A whole number that is not negative.
pub fn count(s: &str) -> (r: Result<u32, String>)
    ensures
        says(r, count_of(s@)),
{
    let all = chars_of(s);
    match read_u32(trim(all.as_slice()), 10) {
        Some(n) => Ok(n),
        None => Err(not_a_number(s)),
    }
}

/// A number with a fraction.
pub fn fraction(s: &str) -> (r: Result<Literal, String>)
    ensures
        match (r, literal_of(s@)) {
            (Ok(a), Ok(b)) => a@ == b && a.wf(),
            (Err(a), Err(b)) => a@ == b,
            _ => false,
        },
{
    let all = chars_of(s);
    match Literal::read(trim(all.as_slice())) {
        Some(n) => Ok(n),
        None => Err(not_a_number(s)),
    }
}

// --- comments --------------------------------------------------------------
pub open spec fn is_ascii_white(c: char) -> bool {
    c == ' ' || c == '\t' || c == '\n' || c == '\u{c}' || c == '\r'
}

/// A `#` at the end of the line, or one that whitespace follows.
pub open spec fn starts_comment(s: Seq<char>) -> bool {
    s.len() > 0 && s[0] == '#' && (s.len() == 1 || is_ascii_white(s[1]))
}

/// A line up to its comment.
pub open spec fn uncommented(s: Seq<char>) -> Seq<char>
    decreases s.len(),
{
    if s.len() == 0 || starts_comment(s) {
        Seq::empty()
    } else {
        seq![s[0]] + uncommented(s.drop_first())
    }
}

/// Cut a trailing comment. `#` starts one only when followed by whitespace or
/// the end of the line, so `#d79921` stays a colour.
pub fn strip_comment(line: &str) -> (r: &str)
    ensures
        r@ == uncommented(line@),
{
    let all = chars_of(line);
    let kept = uncomment(all.as_slice());
    proof {
        lemma_uncommented_is_a_prefix(line@);
    }
    line.substring_char(0, kept.len())
}

proof fn lemma_uncommented_is_a_prefix(s: Seq<char>)
    ensures
        uncommented(s).len() <= s.len(),
        uncommented(s) == s.subrange(0, uncommented(s).len() as int),
    decreases s.len(),
{
    if s.len() == 0 || starts_comment(s) {
        assert(uncommented(s) =~= s.subrange(0, 0));
    } else {
        lemma_uncommented_is_a_prefix(s.drop_first());
        assert(uncommented(s) =~= s.subrange(0, uncommented(s).len() as int));
    }
}

fn uncomment(line: &[char]) -> (r: &[char])
    ensures
        r@ == uncommented(line@),
{
    let mut i: usize = 0;
    assert(line@.skip(0) =~= line@);
    assert(line@.take(0) + uncommented(line@) =~= uncommented(line@));
    while i < line.len()
        invariant
            i <= line@.len(),
            line@.take(i as int) + uncommented(line@.skip(i as int)) == uncommented(line@),
        decreases line@.len() - i,
    {
        let ghost rest = line@.skip(i as int);
        if line[i] == '#' {
            let ends = i + 1 == line.len();
            let white = !ends && {
                let c = line[i + 1];
                c == ' ' || c == '\t' || c == '\n' || c == '\u{c}' || c == '\r'
            };
            if ends || white {
                assert(starts_comment(rest));
                let r = &line[0..i];
                assert(r@ =~= uncommented(line@));
                return r;
            }
        }
        assert(!starts_comment(rest));
        assert(rest.drop_first() =~= line@.skip(i + 1));
        assert(line@.take(i as int) + (seq![rest[0]] + uncommented(line@.skip(i + 1)))
            =~= line@.take(i + 1) + uncommented(line@.skip(i + 1)));
        i = i + 1;
    }
    assert(line@ =~= uncommented(line@));
    line
}

// --- the file --------------------------------------------------------------
/// Everything the file can set. `None` means "keep the default".
#[derive(Debug)]
pub struct Config {
    pub background: Option<Argb>,
    pub foreground: Option<Argb>,
    pub selection: Option<Argb>,
    pub selection_text: Option<Argb>,
    pub border: Option<Argb>,
    pub border_width: Option<Length>,
    /// The box the grid may fill.
    pub max_width: Option<Length>,
    pub max_height: Option<Length>,
    /// Largest a thumbnail may be.
    pub tile_width: Option<Length>,
    pub tile_height: Option<Length>,
    /// How many tiles the grid may show at once.
    pub max_columns: Option<i32>,
    pub max_rows: Option<i32>,
    pub font: Option<String>,
    pub font_size: Option<Literal>,
    pub labels: Option<bool>,
    pub outputs: Option<bool>,
    pub live: Option<Live>,
    pub fps: Option<u32>,
    pub format: Option<Format>,
    /// Seconds until the picker gives up; none where they are not positive.
    pub timeout: Option<Literal>,
}

/// What the file sets, as text where it is text.
pub struct Choices {
    pub background: Option<Argb>,
    pub foreground: Option<Argb>,
    pub selection: Option<Argb>,
    pub selection_text: Option<Argb>,
    pub border: Option<Argb>,
    pub border_width: Option<Size>,
    pub max_width: Option<Size>,
    pub max_height: Option<Size>,
    pub tile_width: Option<Size>,
    pub tile_height: Option<Size>,
    pub max_columns: Option<i32>,
    pub max_rows: Option<i32>,
    pub font: Option<Seq<char>>,
    pub font_size: Option<Seq<char>>,
    pub labels: Option<bool>,
    pub outputs: Option<bool>,
    pub live: Option<Live>,
    pub fps: Option<u32>,
    pub format: Option<Format>,
    pub timeout: Option<Seq<char>>,
}

impl Choices {
    /// Nothing set.
    pub open spec fn none() -> Choices {
        Choices {
            background: None,
            foreground: None,
            selection: None,
            selection_text: None,
            border: None,
            border_width: None,
            max_width: None,
            max_height: None,
            tile_width: None,
            tile_height: None,
            max_columns: None,
            max_rows: None,
            font: None,
            font_size: None,
            labels: None,
            outputs: None,
            live: None,
            fps: None,
            format: None,
            timeout: None,
        }
    }
}

/// The view of a value that may not be there.
pub open spec fn viewed<T: View>(v: Option<T>) -> Option<T::V> {
    match v {
        Some(v) => Some(v@),
        None => None,
    }
}

impl View for Config {
    type V = Choices;

    open spec fn view(&self) -> Choices {
        Choices {
            background: self.background,
            foreground: self.foreground,
            selection: self.selection,
            selection_text: self.selection_text,
            border: self.border,
            border_width: viewed(self.border_width),
            max_width: viewed(self.max_width),
            max_height: viewed(self.max_height),
            tile_width: viewed(self.tile_width),
            tile_height: viewed(self.tile_height),
            max_columns: self.max_columns,
            max_rows: self.max_rows,
            font: viewed(self.font),
            font_size: viewed(self.font_size),
            labels: self.labels,
            outputs: self.outputs,
            live: self.live,
            fps: self.fps,
            format: self.format,
            timeout: viewed(self.timeout),
        }
    }
}

impl Default for Config {
    fn default() -> (c: Self)
        ensures
            c@ == Choices::none(),
            c.wf(),
    {
        Config {
            background: None,
            foreground: None,
            selection: None,
            selection_text: None,
            border: None,
            border_width: None,
            max_width: None,
            max_height: None,
            tile_width: None,
            tile_height: None,
            max_columns: None,
            max_rows: None,
            font: None,
            font_size: None,
            labels: None,
            outputs: None,
            live: None,
            fps: None,
            format: None,
            timeout: None,
        }
    }
}

/// What setting `key` to `value` makes of the settings, or why it cannot be.
pub open spec fn assigned(c: Choices, key: Seq<char>, value: Seq<char>) -> Result<
    Choices,
    Seq<char>,
> {
    if key == "background"@ {
        match colour_of(value) {
            Ok(v) => Ok(Choices { background: Some(v), ..c }),
            Err(e) => Err(e),
        }
    } else if key == "foreground"@ {
        match colour_of(value) {
            Ok(v) => Ok(Choices { foreground: Some(v), ..c }),
            Err(e) => Err(e),
        }
    } else if key == "selection"@ {
        match colour_of(value) {
            Ok(v) => Ok(Choices { selection: Some(v), ..c }),
            Err(e) => Err(e),
        }
    } else if key == "selection-text"@ {
        match colour_of(value) {
            Ok(v) => Ok(Choices { selection_text: Some(v), ..c }),
            Err(e) => Err(e),
        }
    } else if key == "border"@ {
        match colour_of(value) {
            Ok(v) => Ok(Choices { border: Some(v), ..c }),
            Err(e) => Err(e),
        }
    } else if key == "border-width"@ {
        match size_of(value) {
            Ok(v) => Ok(Choices { border_width: Some(v), ..c }),
            Err(e) => Err(e),
        }
    } else if key == "max-width"@ {
        match size_of(value) {
            Ok(v) => Ok(Choices { max_width: Some(v), ..c }),
            Err(e) => Err(e),
        }
    } else if key == "max-height"@ {
        match size_of(value) {
            Ok(v) => Ok(Choices { max_height: Some(v), ..c }),
            Err(e) => Err(e),
        }
    } else if key == "tile-width"@ {
        match size_of(value) {
            Ok(v) => Ok(Choices { tile_width: Some(v), ..c }),
            Err(e) => Err(e),
        }
    } else if key == "tile-height"@ {
        match size_of(value) {
            Ok(v) => Ok(Choices { tile_height: Some(v), ..c }),
            Err(e) => Err(e),
        }
    } else if key == "max-columns"@ {
        match whole_of(value) {
            Ok(v) => Ok(Choices { max_columns: Some(v), ..c }),
            Err(e) => Err(e),
        }
    } else if key == "max-rows"@ {
        match whole_of(value) {
            Ok(v) => Ok(Choices { max_rows: Some(v), ..c }),
            Err(e) => Err(e),
        }
    } else if key == "font"@ {
        Ok(Choices { font: Some(value), ..c })
    } else if key == "font-size"@ {
        match literal_of(value) {
            Ok(v) => Ok(Choices { font_size: Some(v), ..c }),
            Err(e) => Err(e),
        }
    } else if key == "labels"@ {
        match boolean_of(value) {
            Ok(v) => Ok(Choices { labels: Some(v), ..c }),
            Err(e) => Err(e),
        }
    } else if key == "outputs"@ {
        match boolean_of(value) {
            Ok(v) => Ok(Choices { outputs: Some(v), ..c }),
            Err(e) => Err(e),
        }
    } else if key == "live"@ {
        match Live::named(words::trimmed(value)) {
            Some(v) => Ok(Choices { live: Some(v), ..c }),
            None => Err(words::quoted(words::trimmed(value)) + " is not all, current or none"@),
        }
    } else if key == "fps"@ {
        match count_of(value) {
            Ok(v) => Ok(Choices { fps: Some(v), ..c }),
            Err(e) => Err(e),
        }
    } else if key == "format"@ {
        match Format::named(words::trimmed(value)) {
            Some(v) => Ok(Choices { format: Some(v), ..c }),
            None => Err(words::quoted(words::trimmed(value)) + " is not tsv, json or portal"@),
        }
    } else if key == "timeout"@ {
        match literal_of(value) {
            Ok(v) => Ok(Choices { timeout: Some(v), ..c }),
            Err(e) => Err(e),
        }
    } else {
        Err("unknown setting "@ + words::quoted(key))
    }
}

/// The settings after one more line, or what is wrong with it.
pub open spec fn with_line(c: Choices, line: Seq<char>) -> Result<Choices, Seq<char>> {
    let t = words::trimmed(uncommented(line));
    let i = words::find(t, '=');
    if t.len() == 0 {
        Ok(c)
    } else if i == t.len() {
        Err("expected key = value"@)
    } else {
        assigned(c, words::trimmed(t.take(i)), words::trimmed(t.skip(i + 1)))
    }
}

/// The settings that these lines make, or the first mistake, with its line.
pub open spec fn with_lines(lines: Seq<Seq<char>>) -> Result<Choices, Seq<char>>
    decreases lines.len(),
{
    if lines.len() == 0 {
        Ok(Choices::none())
    } else {
        match with_lines(lines.drop_last()) {
            Err(e) => Err(e),
            Ok(c) => match with_line(c, lines.last()) {
                Err(e) => Err("line "@ + words::decimal(lines.len() as int) + ": "@ + e),
                Ok(d) => Ok(d),
            },
        }
    }
}

/// The settings that a file makes.
pub open spec fn settings_of(text: Seq<char>) -> Result<Choices, Seq<char>> {
    with_lines(words::pieces(text, '\n'))
}

/// That a configuration is the one specified.
pub open spec fn configures(r: Result<Config, String>, want: Result<Choices, Seq<char>>) -> bool {
    match (r, want) {
        (Ok(a), Ok(b)) => a@ == b && a.wf(),
        (Err(a), Err(b)) => a@ == b,
        _ => false,
    }
}

impl Config {
    /// Every number in it reads as one.
    pub open spec fn wf(&self) -> bool {
        &&& self.border_width matches Some(v) ==> v.wf()
        &&& self.max_width matches Some(v) ==> v.wf()
        &&& self.max_height matches Some(v) ==> v.wf()
        &&& self.tile_width matches Some(v) ==> v.wf()
        &&& self.tile_height matches Some(v) ==> v.wf()
        &&& self.font_size matches Some(v) ==> v.wf()
        &&& self.timeout matches Some(v) ==> v.wf()
    }

    /// Change one setting.
    pub fn set(&mut self, key: &str, value: &str) -> (r: Result<(), String>)
        requires
            old(self).wf(),
        ensures
            final(self).wf(),
            match (r, assigned(old(self)@, key@, value@)) {
                (Ok(_), Ok(c)) => final(self)@ == c,
                (Err(a), Err(b)) => a@ == b && *final(self) == *old(self),
                _ => false,
            },
    {
        if same(key, "background") {
            match colour(value) {
                Ok(v) => self.background = Some(v),
                Err(e) => return Err(e),
            }
        } else if same(key, "foreground") {
            match colour(value) {
                Ok(v) => self.foreground = Some(v),
                Err(e) => return Err(e),
            }
        } else if same(key, "selection") {
            match colour(value) {
                Ok(v) => self.selection = Some(v),
                Err(e) => return Err(e),
            }
        } else if same(key, "selection-text") {
            match colour(value) {
                Ok(v) => self.selection_text = Some(v),
                Err(e) => return Err(e),
            }
        } else if same(key, "border") {
            match colour(value) {
                Ok(v) => self.border = Some(v),
                Err(e) => return Err(e),
            }
        } else if same(key, "border-width") {
            match Length::parse(value) {
                Ok(v) => self.border_width = Some(v),
                Err(e) => return Err(e),
            }
        } else if same(key, "max-width") {
            match Length::parse(value) {
                Ok(v) => self.max_width = Some(v),
                Err(e) => return Err(e),
            }
        } else if same(key, "max-height") {
            match Length::parse(value) {
                Ok(v) => self.max_height = Some(v),
                Err(e) => return Err(e),
            }
        } else if same(key, "tile-width") {
            match Length::parse(value) {
                Ok(v) => self.tile_width = Some(v),
                Err(e) => return Err(e),
            }
        } else if same(key, "tile-height") {
            match Length::parse(value) {
                Ok(v) => self.tile_height = Some(v),
                Err(e) => return Err(e),
            }
        } else if same(key, "max-columns") {
            match number(value) {
                Ok(v) => self.max_columns = Some(v),
                Err(e) => return Err(e),
            }
        } else if same(key, "max-rows") {
            match number(value) {
                Ok(v) => self.max_rows = Some(v),
                Err(e) => return Err(e),
            }
        } else if same(key, "font") {
            self.font = Some(value.to_owned());
        } else if same(key, "font-size") {
            match fraction(value) {
                Ok(v) => self.font_size = Some(v),
                Err(e) => return Err(e),
            }
        } else if same(key, "labels") {
            match boolean(value) {
                Ok(v) => self.labels = Some(v),
                Err(e) => return Err(e),
            }
        } else if same(key, "outputs") {
            match boolean(value) {
                Ok(v) => self.outputs = Some(v),
                Err(e) => return Err(e),
            }
        } else if same(key, "live") {
            match Live::parse(value) {
                Ok(v) => self.live = Some(v),
                Err(e) => return Err(e),
            }
        } else if same(key, "fps") {
            match count(value) {
                Ok(v) => self.fps = Some(v),
                Err(e) => return Err(e),
            }
        } else if same(key, "format") {
            match Format::parse(value) {
                Ok(v) => self.format = Some(v),
                Err(e) => return Err(e),
            }
        } else if same(key, "timeout") {
            match fraction(value) {
                Ok(v) => self.timeout = Some(v),
                Err(e) => return Err(e),
            }
        } else {
            return Err("unknown setting ".to_owned().concat(quote(key).as_str()));
        }
        Ok(())
    }

    /// Read one line.
    fn read_line(&mut self, line: &[char]) -> (r: Result<(), String>)
        requires
            old(self).wf(),
        ensures
            final(self).wf(),
            match (r, with_line(old(self)@, line@)) {
                (Ok(_), Ok(c)) => final(self)@ == c,
                (Err(a), Err(b)) => a@ == b,
                _ => false,
            },
    {
        let t = trim(uncomment(line));
        if t.len() == 0 {
            return Ok(());
        }
        let i = find_char(t, '=');
        if i == t.len() {
            return Err("expected key = value".to_owned());
        }
        let (key, value) = (&t[0..i], &t[i + 1..t.len()]);
        assert(key@ =~= t@.take(i as int));
        assert(value@ =~= t@.skip(i + 1));
        let key = string_of(trim(key));
        let value = string_of(trim(value));
        self.set(key.as_str(), value.as_str())
    }

    /// Read a whole file. A carriage return before a newline is whitespace at
    /// the end of a line, and is dropped as such.
    pub fn parse(text: &str) -> (r: Result<Config, String>)
        ensures
            configures(r, settings_of(text@)),
    {
        let all = chars_of(text);
        let lines = split(all.as_slice(), '\n');
        let ghost want = words::pieces(text@, '\n');
        let mut cfg = Config::default();
        for n in 0..lines.len()
            invariant
                want == words::pieces(text@, '\n'),
                words::rows_of(lines@) == want,
                cfg.wf(),
                with_lines(want.take(n as int)) == Ok::<Choices, Seq<char>>(cfg@),
        {
            proof {
                assert(want.take(n + 1).drop_last() =~= want.take(n as int));
                assert(want[n as int] == lines@[n as int]@);
            }
            if let Err(e) = cfg.read_line(lines[n].as_slice()) {
                let mut message = "line ".to_owned();
                message.append(u64_text(n as u64 + 1).as_str());
                message.append(": ");
                message.append(e.as_str());
                proof {
                    lemma_a_mistake_stays(want, n + 1);
                }
                return Err(message);
            }
        }
        assert(want.take(want.len() as int) =~= want);
        Ok(cfg)
    }

    /// What comes of reading the file at `path`: `read` is its text, or what
    /// went wrong. A missing file is not an error unless it was `required`; a
    /// malformed one is, because silently ignoring a typo in a colour is worse
    /// than refusing to start.
    pub fn load(path: &str, required: bool, read: Result<String, String>) -> (r: Result<
        Config,
        String,
    >)
        ensures
            configures(
                r,
                match read {
                    Ok(text) => match settings_of(text@) {
                        Ok(c) => Ok(c),
                        Err(e) => Err(path@ + ": "@ + e),
                    },
                    Err(e) => if required {
                        Err(path@ + ": "@ + e@)
                    } else {
                        Ok(Choices::none())
                    },
                },
            ),
            configures(r, loaded(path@, required, target::text_or_error(read))),
    {
        let problem = match read {
            Ok(text) => match Config::parse(text.as_str()) {
                Ok(c) => return Ok(c),
                Err(e) => e,
            },
            Err(e) => {
                if !required {
                    return Ok(Config::default());
                }
                e
            },
        };
        let mut message = path.to_owned();
        message.append(": ");
        message.append(problem.as_str());
        Err(message)
    }
}

/// No line after a mistake mends it.
proof fn lemma_a_mistake_stays(lines: Seq<Seq<char>>, n: int)
    requires
        0 <= n <= lines.len(),
        with_lines(lines.take(n)) is Err,
    ensures
        with_lines(lines) == with_lines(lines.take(n)),
    decreases lines.len(),
{
    if n < lines.len() {
        assert(lines.drop_last().take(n) =~= lines.take(n));
        lemma_a_mistake_stays(lines.drop_last(), n);
    } else {
        assert(lines.take(n) =~= lines);
    }
}

// --- what holds of every file ----------------------------------------------
/// A colour is six or eight hex digits, after a `#` or none, and nothing else
/// is.
pub proof fn law_a_colour_is_six_or_eight_digits(s: Seq<char>)
    ensures
        colour_of(s) is Ok <==> all_hex(hex_of(s)) && (hex_of(s).len() == 6 || hex_of(s).len()
            == 8),
{
}

/// A line sets the one setting it names and leaves every other as it was.
pub proof fn law_a_setting_changes_nothing_else(
    c: Choices,
    d: Choices,
    key: Seq<char>,
    value: Seq<char>,
)
    requires
        assigned(c, key, value) == Ok::<Choices, Seq<char>>(d),
    ensures
        key != "background"@ ==> d.background == c.background,
        key != "foreground"@ ==> d.foreground == c.foreground,
        key != "selection"@ ==> d.selection == c.selection,
        key != "selection-text"@ ==> d.selection_text == c.selection_text,
        key != "border"@ ==> d.border == c.border,
        key != "border-width"@ ==> d.border_width == c.border_width,
        key != "max-width"@ ==> d.max_width == c.max_width,
        key != "max-height"@ ==> d.max_height == c.max_height,
        key != "tile-width"@ ==> d.tile_width == c.tile_width,
        key != "tile-height"@ ==> d.tile_height == c.tile_height,
        key != "max-columns"@ ==> d.max_columns == c.max_columns,
        key != "max-rows"@ ==> d.max_rows == c.max_rows,
        key != "font"@ ==> d.font == c.font,
        key != "font-size"@ ==> d.font_size == c.font_size,
        key != "labels"@ ==> d.labels == c.labels,
        key != "outputs"@ ==> d.outputs == c.outputs,
        key != "live"@ ==> d.live == c.live,
        key != "fps"@ ==> d.fps == c.fps,
        key != "format"@ ==> d.format == c.format,
        key != "timeout"@ ==> d.timeout == c.timeout,
{
    if key == "background"@ {
    } else if key == "foreground"@ {
    } else if key == "selection"@ {
    } else if key == "selection-text"@ {
    } else if key == "border"@ {
    } else if key == "border-width"@ {
    } else if key == "max-width"@ {
    } else if key == "max-height"@ {
    } else if key == "tile-width"@ {
    } else if key == "tile-height"@ {
    } else if key == "max-columns"@ {
    } else if key == "max-rows"@ {
    } else if key == "font"@ {
    } else if key == "font-size"@ {
    } else if key == "labels"@ {
    } else if key == "outputs"@ {
    } else if key == "live"@ {
    } else if key == "fps"@ {
    } else if key == "format"@ {
    } else if key == "timeout"@ {
    }
}

/// An empty line or one that holds nothing but a comment sets nothing.
pub proof fn law_comments_and_blank_lines_set_nothing(c: Choices, line: Seq<char>)
    requires
        words::trimmed(uncommented(line)).len() == 0,
    ensures
        with_line(c, line) == Ok::<Choices, Seq<char>>(c),
{
}

/// A `#` that neither whitespace nor the end of the line follows starts no
/// comment, so a colour survives.
pub proof fn law_comments_do_not_eat_colours(s: Seq<char>)
    requires
        forall|i: int| 0 <= i < s.len() ==> !starts_comment(#[trigger] s.skip(i)),
    ensures
        uncommented(s) == s,
    decreases s.len(),
{
    if s.len() > 0 {
        assert(s.skip(0) =~= s);
        let t = s.drop_first();
        assert forall|i: int| 0 <= i < t.len() implies !starts_comment(#[trigger] t.skip(i)) by {
            assert(t.skip(i) =~= s.skip(i + 1));
        }
        law_comments_do_not_eat_colours(t);
        assert(uncommented(s) =~= s);
    } else {
        assert(uncommented(s) =~= s);
    }
}

/// A mistake is answered with the number of its line, and it is the first one: what
/// stands before it can be read.
pub proof fn law_mistakes_say_which_line(lines: Seq<Seq<char>>)
    requires
        with_lines(lines) is Err,
    ensures
        exists|n: int|
            1 <= n <= lines.len() && #[trigger] with_lines(lines.take(n - 1)) is Ok && with_line(
                with_lines(lines.take(n - 1))->Ok_0,
                lines[n - 1],
            ) is Err && with_lines(lines) == Err::<Choices, Seq<char>>(
                "line "@ + words::decimal(n) + ": "@ + with_line(
                    with_lines(lines.take(n - 1))->Ok_0,
                    lines[n - 1],
                )->Err_0,
            ),
    decreases lines.len(),
{
    let before = lines.drop_last();
    if with_lines(before) is Err {
        law_mistakes_say_which_line(before);
        let n = choose|n: int|
            1 <= n <= before.len() && #[trigger] with_lines(before.take(n - 1)) is Ok && with_line(
                with_lines(before.take(n - 1))->Ok_0,
                before[n - 1],
            ) is Err && with_lines(before) == Err::<Choices, Seq<char>>(
                "line "@ + words::decimal(n) + ": "@ + with_line(
                    with_lines(before.take(n - 1))->Ok_0,
                    before[n - 1],
                )->Err_0,
            );
        assert(before.take(n - 1) =~= lines.take(n - 1));
        assert(before[n - 1] == lines[n - 1]);
    } else {
        let n = lines.len() as int;
        assert(lines.take(n - 1) =~= before);
    }
}

/// A later line wins: what it sets does not depend on what an earlier one set
/// the same setting to.
pub proof fn law_a_later_line_wins(
    c: Choices,
    d: Choices,
    key: Seq<char>,
    earlier: Seq<char>,
    later: Seq<char>,
)
    requires
        assigned(c, key, earlier) == Ok::<Choices, Seq<char>>(d),
    ensures
        assigned(d, key, later) == assigned(c, key, later),
{
    if key == "background"@ {
    } else if key == "foreground"@ {
    } else if key == "selection"@ {
    } else if key == "selection-text"@ {
    } else if key == "border"@ {
    } else if key == "border-width"@ {
    } else if key == "max-width"@ {
    } else if key == "max-height"@ {
    } else if key == "tile-width"@ {
    } else if key == "tile-height"@ {
    } else if key == "max-columns"@ {
    } else if key == "max-rows"@ {
    } else if key == "font"@ {
    } else if key == "font-size"@ {
    } else if key == "labels"@ {
    } else if key == "outputs"@ {
    } else if key == "live"@ {
    } else if key == "fps"@ {
    } else if key == "format"@ {
    } else if key == "timeout"@ {
    }
}

/// What a hex digit is worth.
pub open spec fn nibble(c: char) -> int {
    if '0' <= c <= '9' {
        c as int - 48
    } else if 'a' <= c <= 'f' {
        c as int - 87
    } else {
        c as int - 55
    }
}

/// The byte that two hex digits write.
pub open spec fn byte_at(s: Seq<char>, i: int) -> int {
    16 * nibble(s[i]) + nibble(s[i + 1])
}

proof fn lemma_hex_value_of_last(s: Seq<char>)
    requires
        s.len() > 0,
        all_hex(s),
    ensures
        hex_value(s) == 16 * hex_value(s.drop_last()) + nibble(s.last()),
        all_hex(s.drop_last()),
        0 <= nibble(s.last()) < 16,
{
    assert(is_hex(s[s.len() - 1]));
    assert forall|i: int| 0 <= i < s.drop_last().len() implies is_hex(#[trigger] s.drop_last()[i]) by {
        assert(s.drop_last()[i] == s[i]);
    }
}

proof fn lemma_six_digits(s: Seq<char>)
    requires
        s.len() == 6,
        all_hex(s),
    ensures
        hex_value(s) == 65536 * byte_at(s, 0) + 256 * byte_at(s, 2) + byte_at(s, 4),
        0 <= byte_at(s, 0) < 256 && 0 <= byte_at(s, 2) < 256 && 0 <= byte_at(s, 4) < 256,
{
    let e = s.drop_last();
    let d = e.drop_last();
    let c = d.drop_last();
    let b = c.drop_last();
    let a = b.drop_last();
    lemma_hex_value_of_last(s);
    lemma_hex_value_of_last(e);
    lemma_hex_value_of_last(d);
    lemma_hex_value_of_last(c);
    lemma_hex_value_of_last(b);
    lemma_hex_value_of_last(a);
    assert(hex_value(a.drop_last()) == 0);
}

/// A colour is its digits, two to a channel: red, green and blue after an alpha,
/// or opaque without one; in either case, with a `#` before them or none, and
/// whatever whitespace stands round it.
pub proof fn law_a_colour_is_its_channels(s: Seq<char>)
    requires
        all_hex(hex_of(s)),
    ensures
        hex_of(s).len() == 6 ==> ({
            let (hex, c) = (hex_of(s), colour_of(s)->Ok_0 as int);
            &&& colour_of(s) is Ok
            &&& c == 0xff00_0000 + 65536 * byte_at(hex, 0) + 256 * byte_at(hex, 2) + byte_at(hex, 4)
        }),
        hex_of(s).len() == 8 ==> ({
            let (hex, c) = (hex_of(s), colour_of(s)->Ok_0 as int);
            &&& colour_of(s) is Ok
            &&& c == 0x100_0000 * byte_at(hex, 0) + 65536 * byte_at(hex, 2) + 256 * byte_at(hex, 4)
                + byte_at(hex, 6)
        }),
{
    let hex = hex_of(s);
    if hex.len() == 6 {
        lemma_six_digits(hex);
    } else if hex.len() == 8 {
        lemma_hex_value_of_last(hex);
        let g = hex.drop_last();
        lemma_hex_value_of_last(g);
        let f = g.drop_last();
        lemma_six_digits(f);
        assert(byte_at(f, 0) == byte_at(hex, 0) && byte_at(f, 2) == byte_at(hex, 2) && byte_at(f, 4)
            == byte_at(hex, 4));
    }
}

/// A hash before a colour's digits changes nothing, and the digits are all that
/// is left without it.
pub proof fn law_a_hash_is_no_digit(s: Seq<char>)
    requires
        words::trimmed(s).len() > 0,
    ensures
        words::trimmed(s)[0] == '#' ==> hex_of(s) == words::trimmed(s).drop_first(),
        words::trimmed(s)[0] != '#' ==> hex_of(s) == words::trimmed(s),
{
    assert(words::trimmed(s).skip(1) =~= words::trimmed(s).drop_first());
}

/// What is yes and what is no, and nothing else is either.
pub proof fn law_yes_and_no_have_their_words(s: Seq<char>)
    ensures
        ({
            let t = words::trimmed(s);
            let yes = t == "true"@ || t == "yes"@ || t == "on"@ || t == "1"@;
            let no = t == "false"@ || t == "no"@ || t == "off"@ || t == "0"@;
            &&& yes <==> boolean_of(s) == Ok::<bool, Seq<char>>(true)
            &&& no <==> boolean_of(s) == Ok::<bool, Seq<char>>(false)
            &&& !yes && !no <==> boolean_of(s) is Err
        }),
{
    reveal_strlit("true");
    reveal_strlit("yes");
    reveal_strlit("on");
    reveal_strlit("1");
    reveal_strlit("false");
    reveal_strlit("no");
    reveal_strlit("off");
    reveal_strlit("0");
    assert("true"@[0] == 't' && "yes"@[0] == 'y' && "on"@[1] == 'n' && "1"@[0] == '1');
    assert("false"@[0] == 'f' && "no"@[0] == 'n' && "off"@[1] == 'f' && "0"@[0] == '0');
    assert("on"@[0] == 'o' && "off"@[0] == 'o');
}

/// A line sets the one setting it names to what its value says.
pub proof fn law_a_setting_is_set_to_its_value(c: Choices, value: Seq<char>)
    ensures
        colour_of(value) matches Ok(v) ==> {
            &&& assigned(c, "background"@, value) == Ok::<Choices, Seq<char>>(
                Choices { background: Some(v), ..c },
            )
            &&& assigned(c, "foreground"@, value) == Ok::<Choices, Seq<char>>(
                Choices { foreground: Some(v), ..c },
            )
            &&& assigned(c, "selection"@, value) == Ok::<Choices, Seq<char>>(
                Choices { selection: Some(v), ..c },
            )
            &&& assigned(c, "selection-text"@, value) == Ok::<Choices, Seq<char>>(
                Choices { selection_text: Some(v), ..c },
            )
            &&& assigned(c, "border"@, value) == Ok::<Choices, Seq<char>>(
                Choices { border: Some(v), ..c },
            )
        },
        size_of(value) matches Ok(v) ==> {
            &&& assigned(c, "border-width"@, value) == Ok::<Choices, Seq<char>>(
                Choices { border_width: Some(v), ..c },
            )
            &&& assigned(c, "max-width"@, value) == Ok::<Choices, Seq<char>>(
                Choices { max_width: Some(v), ..c },
            )
            &&& assigned(c, "max-height"@, value) == Ok::<Choices, Seq<char>>(
                Choices { max_height: Some(v), ..c },
            )
            &&& assigned(c, "tile-width"@, value) == Ok::<Choices, Seq<char>>(
                Choices { tile_width: Some(v), ..c },
            )
            &&& assigned(c, "tile-height"@, value) == Ok::<Choices, Seq<char>>(
                Choices { tile_height: Some(v), ..c },
            )
        },
        words::i32_value(words::trimmed(value)) matches Some(v) ==> {
            &&& assigned(c, "max-columns"@, value) == Ok::<Choices, Seq<char>>(
                Choices { max_columns: Some(v), ..c },
            )
            &&& assigned(c, "max-rows"@, value) == Ok::<Choices, Seq<char>>(
                Choices { max_rows: Some(v), ..c },
            )
        },
        assigned(c, "font"@, value) == Ok::<Choices, Seq<char>>(Choices { font: Some(value), ..c }),
        words::is_literal(words::trimmed(value)) ==> {
            &&& assigned(c, "font-size"@, value) == Ok::<Choices, Seq<char>>(
                Choices { font_size: Some(words::trimmed(value)), ..c },
            )
            &&& assigned(c, "timeout"@, value) == Ok::<Choices, Seq<char>>(
                Choices { timeout: Some(words::trimmed(value)), ..c },
            )
        },
        boolean_of(value) matches Ok(v) ==> {
            &&& assigned(c, "labels"@, value) == Ok::<Choices, Seq<char>>(
                Choices { labels: Some(v), ..c },
            )
            &&& assigned(c, "outputs"@, value) == Ok::<Choices, Seq<char>>(
                Choices { outputs: Some(v), ..c },
            )
        },
        Live::named(words::trimmed(value)) matches Some(v) ==> assigned(c, "live"@, value) == Ok::<
            Choices,
            Seq<char>,
        >(Choices { live: Some(v), ..c }),
        words::u32_value(words::trimmed(value), 10) matches Some(v) ==> assigned(c, "fps"@, value)
            == Ok::<Choices, Seq<char>>(Choices { fps: Some(v), ..c }),
        Format::named(words::trimmed(value)) matches Some(v) ==> assigned(c, "format"@, value)
            == Ok::<Choices, Seq<char>>(Choices { format: Some(v), ..c }),
{
    lemma_keys_differ();
}

/// A value that says nothing is refused, and so is a setting that is none.
pub proof fn law_a_value_must_say_something(c: Choices, key: Seq<char>, value: Seq<char>)
    ensures
        (key == "background"@ || key == "foreground"@ || key == "selection"@ || key
            == "selection-text"@ || key == "border"@) && colour_of(value) is Err ==> assigned(
            c,
            key,
            value,
        ) is Err,
        (key == "border-width"@ || key == "max-width"@ || key == "max-height"@ || key
            == "tile-width"@ || key == "tile-height"@) && size_of(value) is Err ==> assigned(
            c,
            key,
            value,
        ) is Err,
        (key == "max-columns"@ || key == "max-rows"@) && words::i32_value(words::trimmed(value))
            is None ==> assigned(c, key, value) is Err,
        (key == "font-size"@ || key == "timeout"@) && !words::is_literal(words::trimmed(value))
            ==> assigned(c, key, value) is Err,
        (key == "labels"@ || key == "outputs"@) && boolean_of(value) is Err ==> assigned(
            c,
            key,
            value,
        ) is Err,
        key == "live"@ && Live::named(words::trimmed(value)) is None ==> assigned(c, key, value)
            is Err,
        key == "fps"@ && words::u32_value(words::trimmed(value), 10) is None ==> assigned(
            c,
            key,
            value,
        ) is Err,
        key == "format"@ && Format::named(words::trimmed(value)) is None ==> assigned(c, key, value)
            is Err,
        key != "background"@ && key != "foreground"@ && key != "selection"@ && key
            != "selection-text"@ && key != "border"@ && key != "border-width"@ && key
            != "max-width"@ && key != "max-height"@ && key != "tile-width"@ && key
            != "tile-height"@ && key != "max-columns"@ && key != "max-rows"@ && key != "font"@
            && key != "font-size"@ && key != "labels"@ && key != "outputs"@ && key != "live"@
            && key != "fps"@ && key != "format"@ && key != "timeout"@ ==> assigned(c, key, value)
            == Err::<Choices, Seq<char>>("unknown setting "@ + words::quoted(key)),
{
    lemma_keys_differ();
}

/// Each key by its number of characters and, where that is another's too, by
/// one of them.
proof fn lemma_keys_differ()
    ensures
        "fps"@.len() == 3,
        "font"@.len() == 4 && "live"@.len() == 4 && "font"@ != "live"@,
        "border"@.len() == 6 && "labels"@.len() == 6 && "format"@.len() == 6 && "border"@
            != "labels"@ && "border"@ != "format"@ && "labels"@ != "format"@,
        "outputs"@.len() == 7 && "timeout"@.len() == 7 && "outputs"@ != "timeout"@,
        "max-rows"@.len() == 8,
        "selection"@.len() == 9 && "max-width"@.len() == 9 && "font-size"@.len() == 9
            && "selection"@ != "max-width"@ && "selection"@ != "font-size"@ && "max-width"@
            != "font-size"@,
        "background"@.len() == 10 && "foreground"@.len() == 10 && "max-height"@.len() == 10
            && "tile-width"@.len() == 10 && "background"@ != "foreground"@ && "background"@
            != "max-height"@ && "background"@ != "tile-width"@ && "foreground"@ != "max-height"@
            && "foreground"@ != "tile-width"@ && "max-height"@ != "tile-width"@,
        "tile-height"@.len() == 11 && "max-columns"@.len() == 11 && "tile-height"@
            != "max-columns"@,
        "border-width"@.len() == 12,
        "selection-text"@.len() == 14,
{
    reveal_strlit("fps");
    reveal_strlit("font");
    reveal_strlit("live");
    reveal_strlit("border");
    reveal_strlit("labels");
    reveal_strlit("format");
    reveal_strlit("outputs");
    reveal_strlit("timeout");
    reveal_strlit("max-rows");
    reveal_strlit("selection");
    reveal_strlit("max-width");
    reveal_strlit("font-size");
    reveal_strlit("background");
    reveal_strlit("foreground");
    reveal_strlit("max-height");
    reveal_strlit("tile-width");
    reveal_strlit("tile-height");
    reveal_strlit("max-columns");
    reveal_strlit("border-width");
    reveal_strlit("selection-text");
    assert("font"@[0] == 'f' && "live"@[0] == 'l');
    assert("border"@[0] == 'b' && "labels"@[0] == 'l' && "format"@[0] == 'f');
    assert("outputs"@[0] == 'o' && "timeout"@[0] == 't');
    assert("selection"@[0] == 's' && "max-width"@[0] == 'm' && "font-size"@[0] == 'f');
    assert("background"@[0] == 'b' && "foreground"@[0] == 'f' && "max-height"@[0] == 'm'
        && "tile-width"@[0] == 't');
    assert("tile-height"@[0] == 't' && "max-columns"@[0] == 'm');
}

/// A number without a unit, or in pixels, is that many pixels, and one in `ppt`
/// or percent that many parts of the display; with or without space between.
pub proof fn law_a_size_has_a_unit(whole: Seq<char>, number: Seq<char>, unit: Seq<char>)
    ensures
        words::is_literal(number) && (unit.len() == 0 || unit == "px"@) ==> sized(
            whole,
            number,
            unit,
        ) == Ok::<Size, Seq<char>>(Size::Px(number)),
        words::is_literal(number) && (unit == "ppt"@ || unit == "%"@) ==> sized(
            whole,
            number,
            unit,
        ) == Ok::<Size, Seq<char>>(Size::Ppt(number)),
        sized(whole, number, unit) is Ok ==> words::is_literal(number) && (unit.len() == 0 || unit
            == "px"@ || unit == "ppt"@ || unit == "%"@),
{
    reveal_strlit("");
    reveal_strlit("px");
    reveal_strlit("ppt");
    reveal_strlit("%");
    assert("px"@.len() == 2 && "ppt"@.len() == 3 && "%"@.len() == 1 && ""@.len() == 0);
    if unit.len() == 0 {
        assert(unit =~= ""@);
    }
}

/// The unit of a size starts at its first letter or percent sign: what stands
/// before it is the number, and the rest the unit.
pub proof fn law_a_unit_starts_at_a_letter(s: Seq<char>)
    ensures
        0 <= unit_start(s) <= s.len(),
        unit_start(s) < s.len() ==> words::alphabetic(s[unit_start(s)]) || s[unit_start(s)] == '%',
        forall|i: int|
            0 <= i < unit_start(s) ==> !words::alphabetic(#[trigger] s[i]) && s[i] != '%',
    decreases s.len(),
{
    if s.len() > 0 && !words::alphabetic(s[0]) && s[0] != '%' {
        let t = s.drop_first();
        law_a_unit_starts_at_a_letter(t);
        assert forall|i: int| 0 <= i < unit_start(s) implies !words::alphabetic(#[trigger] s[i])
            && s[i] != '%' by {
            if i > 0 {
                assert(s[i] == t[i - 1]);
            }
        }
        if unit_start(s) < s.len() {
            assert(s[unit_start(s)] == t[unit_start(t)]);
        }
    }
}

/// A size is read as its number and its unit, wherever the one ends and the
/// other starts.
pub proof fn law_a_size_is_a_number_and_a_unit(s: Seq<char>, number: Seq<char>, unit: Seq<char>)
    requires
        words::trimmed(s) == number + unit,
        forall|i: int| 0 <= i < number.len() ==> !words::alphabetic(#[trigger] number[i])
            && number[i] != '%',
        unit.len() == 0 || words::alphabetic(unit[0]) || unit[0] == '%',
    ensures
        size_of(s) == sized(words::trimmed(s), words::trimmed(number), words::trimmed(unit)),
{
    let t = words::trimmed(s);
    law_a_unit_starts_at_a_letter(t);
    let i = unit_start(t);
    assert(i == number.len()) by {
        if i < number.len() {
            assert(t[i] == number[i]);
        } else if i > number.len() {
            assert(t[number.len() as int] == unit[0]);
        }
    }
    assert(t.take(i) =~= number);
    assert(t.skip(i) =~= unit);
}

/// Numbers are read as they are written, with whitespace round them or not.
pub proof fn law_numbers_are_read(s: Seq<char>)
    ensures
        words::i32_value(words::trimmed(s)) matches Some(n) ==> whole_of(s) == Ok::<i32, Seq<char>>(
            n,
        ),
        words::i32_value(words::trimmed(s)) is None ==> whole_of(s) is Err,
        words::u32_value(words::trimmed(s), 10) matches Some(n) ==> count_of(s) == Ok::<
            u32,
            Seq<char>,
        >(n),
        words::u32_value(words::trimmed(s), 10) is None ==> count_of(s) is Err,
        words::is_literal(words::trimmed(s)) ==> literal_of(s) == Ok::<Seq<char>, Seq<char>>(
            words::trimmed(s),
        ),
        !words::is_literal(words::trimmed(s)) ==> literal_of(s) is Err,
{
}

/// A comment is cut off where it starts: at the first hash that whitespace or
/// the end of the line follows.
pub proof fn law_a_comment_is_cut_off(s: Seq<char>, i: int)
    requires
        0 <= i < s.len(),
        s[i] == '#',
        i + 1 == s.len() || s[i + 1] == ' ' || s[i + 1] == '\t' || s[i + 1] == '\n' || s[i + 1]
            == '\r' || s[i + 1] == '\u{c}',
        forall|j: int|
            0 <= j < i ==> #[trigger] s[j] != '#' || s[j + 1] != ' ' && s[j + 1] != '\t' && s[j + 1]
                != '\n' && s[j + 1] != '\r' && s[j + 1] != '\u{c}',
    ensures
        uncommented(s) == s.take(i),
    decreases s.len(),
{
    if i > 0 {
        assert(s[0] != '#' || s[1] != ' ' && s[1] != '\t' && s[1] != '\n' && s[1] != '\r' && s[1]
            != '\u{c}');
        let t = s.drop_first();
        assert forall|j: int| 0 <= j < i - 1 implies #[trigger] t[j] != '#' || t[j + 1] != ' '
            && t[j + 1] != '\t' && t[j + 1] != '\n' && t[j + 1] != '\r' && t[j + 1] != '\u{c}' by {
            assert(t[j] == s[j + 1] && t[j + 1] == s[j + 2]);
            assert(s[j + 1] != '#' || s[j + 1 + 1] != ' ');
        }
        law_a_comment_is_cut_off(t, i - 1);
    }
    assert(uncommented(s) =~= s.take(i));
}

/// A line is its key and its value, either side of the first equals sign, each
/// without the whitespace round it; without one it is a mistake.
pub proof fn law_a_line_is_a_key_and_a_value(
    c: Choices,
    line: Seq<char>,
    key: Seq<char>,
    value: Seq<char>,
)
    requires
        !key.contains('='),
    ensures
        words::trimmed(uncommented(line)) == key + seq!['='] + value ==> with_line(c, line)
            == assigned(c, words::trimmed(key), words::trimmed(value)),
        words::trimmed(uncommented(line)) == key && key.len() > 0 ==> with_line(c, line) == Err::<
            Choices,
            Seq<char>,
        >("expected key = value"@),
{
    let t = words::trimmed(uncommented(line));
    words::law_the_first_character_is_found(t, '=');
    let i = words::find(t, '=');
    if t == key + seq!['='] + value {
        assert(t[key.len() as int] == '=');
        assert(t.contains('='));
        assert(i == key.len()) by {
            if i < key.len() {
                assert(key[i] == t[i]);
                assert(key.contains('='));
            }
        }
        assert(t.take(i) =~= key);
        assert(t.skip(i + 1) =~= value);
    }
}

/// A file is its lines, one after the other: one more line changes what the
/// lines before it set, and a mistake names its line.
pub proof fn law_a_file_is_read_line_by_line(lines: Seq<Seq<char>>, line: Seq<char>)
    ensures
        with_lines(Seq::empty()) == Ok::<Choices, Seq<char>>(Choices::none()),
        with_lines(lines) matches Ok(c) ==> (with_line(c, line) matches Ok(d) ==> with_lines(
            lines.push(line),
        ) == Ok::<Choices, Seq<char>>(d)),
        with_lines(lines) matches Ok(c) ==> (with_line(c, line) matches Err(e) ==> with_lines(
            lines.push(line),
        ) == Err::<Choices, Seq<char>>(
            "line "@ + words::decimal(lines.len() as int + 1) + ": "@ + e,
        )),
        with_lines(lines) matches Err(e) ==> with_lines(lines.push(line)) == Err::<
            Choices,
            Seq<char>,
        >(e),
{
    assert(lines.push(line).drop_last() =~= lines);
}

/// An empty file sets nothing.
pub proof fn law_nothing_is_set_unsaid()
    ensures
        ({
            let c = Choices::none();
            &&& c.background is None && c.foreground is None && c.selection is None
            &&& c.selection_text is None && c.border is None && c.border_width is None
            &&& c.max_width is None && c.max_height is None && c.tile_width is None
            &&& c.tile_height is None && c.max_columns is None && c.max_rows is None
            &&& c.font is None && c.font_size is None && c.labels is None && c.outputs is None
            &&& c.live is None && c.fps is None && c.format is None && c.timeout is None
        }),
{
}

/// What a configuration shows is what it holds.
pub proof fn law_a_configuration_shows_what_it_holds(c: Config)
    ensures
        c@.background == c.background && c@.foreground == c.foreground && c@.selection
            == c.selection && c@.selection_text == c.selection_text && c@.border == c.border,
        c@.max_columns == c.max_columns && c@.max_rows == c.max_rows && c@.labels == c.labels
            && c@.outputs == c.outputs && c@.live == c.live && c@.fps == c.fps && c@.format
            == c.format,
        c@.border_width is Some == c.border_width is Some && (c.border_width matches Some(v)
            ==> c@.border_width == Some(v@)),
        c@.max_width is Some == c.max_width is Some && (c.max_width matches Some(v)
            ==> c@.max_width == Some(v@)),
        c@.max_height is Some == c.max_height is Some && (c.max_height matches Some(v)
            ==> c@.max_height == Some(v@)),
        c@.tile_width is Some == c.tile_width is Some && (c.tile_width matches Some(v)
            ==> c@.tile_width == Some(v@)),
        c@.tile_height is Some == c.tile_height is Some && (c.tile_height matches Some(v)
            ==> c@.tile_height == Some(v@)),
        c@.font is Some == c.font is Some && (c.font matches Some(v) ==> c@.font == Some(v@)),
        c@.font_size is Some == c.font_size is Some && (c.font_size matches Some(v)
            ==> c@.font_size == Some(v.text@)),
        c@.timeout is Some == c.timeout is Some && (c.timeout matches Some(v) ==> c@.timeout
            == Some(v.text@)),
{
}

/// A length shows its number and its unit.
pub proof fn law_a_length_shows_its_unit(n: Literal)
    ensures
        Length::Px(n)@ == Size::Px(n.text@),
        Length::Ppt(n)@ == Size::Ppt(n.text@),
{
}

/// The settings that come of a file at that path, given what reading it came to.
pub open spec fn loaded(
    path: Seq<char>,
    required: bool,
    read: Result<Seq<char>, Seq<char>>,
) -> Result<Choices, Seq<char>> {
    match read {
        Ok(text) => match settings_of(text) {
            Ok(c) => Ok(c),
            Err(e) => Err(path + ": "@ + e),
        },
        Err(e) => if required {
            Err(path + ": "@ + e)
        } else {
            Ok(Choices::none())
        },
    }
}

/// A file that is there is read, and a mistake in it is never passed over; one
/// that is not there sets nothing, unless it was asked for by name. Either
/// complaint names the file.
pub proof fn law_a_mistake_is_never_passed_over(
    path: Seq<char>,
    required: bool,
    text: Seq<char>,
    problem: Seq<char>,
)
    ensures
        with_lines(words::pieces(text, '\n')) matches Ok(c) ==> loaded(path, required, Ok(text))
            == Ok::<Choices, Seq<char>>(c),
        with_lines(words::pieces(text, '\n')) matches Err(e) ==> loaded(path, required, Ok(text))
            == Err::<Choices, Seq<char>>(path + ": "@ + e),
        loaded(path, false, Err(problem)) == Ok::<Choices, Seq<char>>(Choices::none()),
        loaded(path, true, Err(problem)) == Err::<Choices, Seq<char>>(path + ": "@ + problem),
{
}

} // verus!
