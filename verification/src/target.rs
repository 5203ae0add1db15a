//! What a tile stands for: a window, or a whole display.
//!
//! Both are capture sources as far as the protocol is concerned, one from a
//! foreign-toplevel handle, one from a `wl_output`, so the grid treats them
//! alike and only differs in how it labels them and what picking one does.

use vstd::prelude::*;
use vstd::string::*;

use crate::words;
use crate::words::{chars_of, i64_text, quote, same, trim_text};

verus! {

#[derive(Clone, Copy, PartialEq, Eq, Structural, Debug)]
pub enum Kind {
    Window,
    Output,
}

impl Kind {
    /// The word that a report names the kind by.
    pub open spec fn word(self) -> Seq<char> {
        match self {
            Kind::Window => "window"@,
            Kind::Output => "output"@,
        }
    }

    pub fn name(self) -> (r: &'static str)
        ensures
            r@ == self.word(),
    {
        match self {
            Kind::Window => "window",
            Kind::Output => "output",
        }
    }
}

/// How a pick is reported.
#[derive(Clone, Copy, PartialEq, Eq, Structural, Debug)]
pub enum Format {
    /// One tab-separated row.
    Tsv,
    /// The same fields as one object.
    Json,
    /// What a desktop portal's chooser reads.
    Portal,
}

impl Format {
    /// The format that a word names.
    pub open spec fn named(word: Seq<char>) -> Option<Format> {
        if word == "tsv"@ {
            Some(Format::Tsv)
        } else if word == "json"@ {
            Some(Format::Json)
        } else if word == "portal"@ {
            Some(Format::Portal)
        } else {
            None
        }
    }

    pub fn parse(s: &str) -> (r: Result<Format, String>)
        ensures
            match r {
                Ok(f) => Self::named(words::trimmed(s@)) == Some(f),
                Err(e) => Self::named(words::trimmed(s@)) is None && e@ == words::quoted(
                    words::trimmed(s@),
                ) + " is not tsv, json or portal"@,
            },
    {
        let word = trim_text(s);
        if same(word.as_str(), "tsv") {
            Ok(Format::Tsv)
        } else if same(word.as_str(), "json") {
            Ok(Format::Json)
        } else if same(word.as_str(), "portal") {
            Ok(Format::Portal)
        } else {
            Err(quote(word.as_str()).concat(" is not tsv, json or portal"))
        }
    }
}

// --- characters that a report must not hold as they are --------------------
pub open spec fn is_control(c: char) -> bool {
    (c as u32) < 0x20
}

/// A control character would split the row a caller is parsing: a space stands
/// for it.
pub open spec fn cleaned(s: Seq<char>) -> Seq<char> {
    s.map_values(
        |c: char|
            if is_control(c) || c == '\u{7f}' {
                ' '
            } else {
                c
            },
    )
}

/// Titles are arbitrary application strings; a tab or newline in one would split
/// the row a caller is parsing.
pub fn clean(s: &str) -> (r: String)
    ensures
        r@ == cleaned(s@),
{
    let v = chars_of(s);
    let mut out = String::new();
    for i in 0..v.len()
        invariant
            v@ == s@,
            out@ == cleaned(s@).take(i as int),
    {
        let c = v[i];
        if (c as u32) < 0x20 || c == '\u{7f}' {
            out.push(' ');
        } else {
            out.push(c);
        }
        assert(cleaned(s@).take(i + 1) =~= cleaned(s@).take(i as int).push(cleaned(s@)[i as int]));
    }
    assert(cleaned(s@).take(s@.len() as int) =~= cleaned(s@));
    out
}

/// A hexadecimal digit, in lower case.
pub open spec fn hex_digit(d: int) -> char {
    if d < 10 {
        (d + 48) as char
    } else {
        (d + 87) as char
    }
}

/// One character as it is written in a JSON string, per RFC 8259.
pub open spec fn escape(c: char) -> Seq<char> {
    if c == '"' {
        seq!['\\', '"']
    } else if c == '\\' {
        seq!['\\', '\\']
    } else if c == '\n' {
        seq!['\\', 'n']
    } else if c == '\r' {
        seq!['\\', 'r']
    } else if c == '\t' {
        seq!['\\', 't']
    } else if is_control(c) {
        seq!['\\', 'u', '0', '0', hex_digit(c as int / 16), hex_digit(c as int % 16)]
    } else {
        seq![c]
    }
}

/// A text as it is written in a JSON string.
pub open spec fn escaped(s: Seq<char>) -> Seq<char>
    decreases s.len(),
{
    if s.len() == 0 {
        Seq::empty()
    } else {
        escape(s[0]) + escaped(s.drop_first())
    }
}

fn hex_char(d: u8) -> (r: char)
    requires
        d < 16,
    ensures
        r == hex_digit(d as int),
{
    if d < 10 {
        (d + 48) as char
    } else {
        (d + 87) as char
    }
}

fn push_escaped(out: &mut String, c: char)
    ensures
        final(out)@ == old(out)@ + escape(c),
{
    let ghost before = out@;
    if c == '"' {
        out.push('\\');
        out.push('"');
    } else if c == '\\' {
        out.push('\\');
        out.push('\\');
    } else if c == '\n' {
        out.push('\\');
        out.push('n');
    } else if c == '\r' {
        out.push('\\');
        out.push('r');
    } else if c == '\t' {
        out.push('\\');
        out.push('t');
    } else if (c as u32) < 0x20 {
        let n: u8 = c as u8;
        out.push('\\');
        out.push('u');
        out.push('0');
        out.push('0');
        out.push(hex_char(n / 16));
        out.push(hex_char(n % 16));
    } else {
        out.push(c);
    }
    assert(out@ =~= before + escape(c));
}

/// JSON string escaping, per RFC 8259.
pub fn esc(s: &str) -> (r: String)
    ensures
        r@ == escaped(s@),
{
    let v = chars_of(s);
    let mut out = String::new();
    assert(s@.skip(0) =~= s@);
    for i in 0..v.len()
        invariant
            v@ == s@,
            out@ + escaped(s@.skip(i as int)) == escaped(s@),
    {
        let ghost before = out@;
        push_escaped(&mut out, v[i]);
        proof {
            let rest = s@.skip(i as int);
            assert(rest.drop_first() =~= s@.skip(i + 1));
            assert(before + (escape(rest[0]) + escaped(s@.skip(i + 1))) =~= (before + escape(
                rest[0],
            )) + escaped(s@.skip(i + 1)));
        }
    }
    assert(out@ =~= out@ + escaped(s@.skip(s@.len() as int)));
    out
}

// --- targets ---------------------------------------------------------------
pub struct Target {
    pub kind: Kind,
    /// The thing a caller acts on: a sway `con_id` for a window, an output name
    /// for a display.
    pub id: String,
    /// sway container id, when there is one.
    pub con_id: Option<i64>,
    /// ext-foreign-toplevel-list identifier, for matching a capture source.
    pub ft_id: String,
    pub app: String,
    pub title: String,
}

/// What a target says, as text.
pub struct Record {
    pub kind: Kind,
    pub id: Seq<char>,
    pub con_id: Option<i64>,
    pub ft_id: Seq<char>,
    pub app: Seq<char>,
    pub title: Seq<char>,
}

impl View for Target {
    type V = Record;

    open spec fn view(&self) -> Record {
        Record {
            kind: self.kind,
            id: self.id@,
            con_id: self.con_id,
            ft_id: self.ft_id@,
            app: self.app@,
            title: self.title@,
        }
    }
}

/// What each of these targets holds.
pub open spec fn records(s: Seq<Target>) -> Seq<Record> {
    s.map_values(|t: Target| t@)
}

impl Clone for Target {
    fn clone(&self) -> (r: Self)
        ensures
            r == *self,
    {
        Target {
            kind: self.kind,
            id: self.id.clone(),
            con_id: self.con_id,
            ft_id: self.ft_id.clone(),
            app: self.app.clone(),
            title: self.title.clone(),
        }
    }
}

/// A text between double quotes, as JSON writes it.
pub open spec fn json_string(s: Seq<char>) -> Seq<char> {
    "\""@ + escaped(s) + "\""@
}

impl Record {
    pub open spec fn window(con_id: i64, ft_id: Seq<char>, app: Seq<char>, title: Seq<char>) -> Record {
        Record {
            kind: Kind::Window,
            id: words::decimal(con_id as int),
            con_id: Some(con_id),
            ft_id,
            app,
            title,
        }
    }

    pub open spec fn output(name: Seq<char>) -> Record {
        Record {
            kind: Kind::Output,
            id: name,
            con_id: None,
            ft_id: Seq::empty(),
            app: "display"@,
            title: name,
        }
    }

    pub open spec fn label(self) -> Seq<char> {
        if self.app.len() == 0 {
            self.title
        } else {
            self.title + " · "@ + self.app
        }
    }

    pub open spec fn tsv(self) -> Seq<char> {
        self.kind.word() + "\t"@ + self.id + "\t"@ + self.ft_id + "\t"@ + cleaned(self.app) + "\t"@
            + cleaned(self.title)
    }

    pub open spec fn json(self) -> Seq<char> {
        let con_id = match (self.kind, self.con_id) {
            (Kind::Window, Some(n)) => words::decimal(n as int),
            _ => "null"@,
        };
        let toplevel = if self.ft_id.len() == 0 {
            "null"@
        } else {
            json_string(self.ft_id)
        };
        let output = match self.kind {
            Kind::Window => "null"@,
            Kind::Output => json_string(self.id),
        };
        "{\"type\":\""@ + self.kind.word() + "\",\"con_id\":"@ + con_id + ",\"toplevel_id\":"@
            + toplevel + ",\"output\":"@ + output + ",\"app\":"@ + json_string(self.app)
            + ",\"title\":"@ + json_string(self.title) + "}"@
    }

    pub open spec fn portal(self) -> Option<Seq<char>> {
        match self.kind {
            Kind::Output => Some("Monitor: "@ + self.id),
            Kind::Window => if self.ft_id.len() == 0 {
                None
            } else {
                Some("Window: "@ + self.ft_id)
            },
        }
    }

    /// The report of a pick.
    pub open spec fn render(self, format: Format) -> Option<Seq<char>> {
        match format {
            Format::Tsv => Some(self.tsv()),
            Format::Json => Some(self.json()),
            Format::Portal => self.portal(),
        }
    }
}

/// The text of a string that may not be there.
pub open spec fn text_of(s: Option<String>) -> Option<Seq<char>> {
    match s {
        Some(s) => Some(s@),
        None => None,
    }
}

/// The text of a string that was read, or of why it was not.
pub open spec fn text_or_error(s: Result<String, String>) -> Result<Seq<char>, Seq<char>> {
    match s {
        Ok(s) => Ok(s@),
        Err(e) => Err(e@),
    }
}

fn quoted_json(s: &str) -> (r: String)
    ensures
        r@ == json_string(s@),
{
    let mut out = "\"".to_owned();
    out.append(esc(s).as_str());
    out.append("\"");
    out
}

impl Target {
    pub fn window(con_id: i64, ft_id: String, app: String, title: String) -> (t: Target)
        ensures
            t@ == Record::window(con_id, ft_id@, app@, title@),
    {
        Target { kind: Kind::Window, id: i64_text(con_id), con_id: Some(con_id), ft_id, app, title }
    }

    /// A display. `app` is "display" so the label says what kind of tile it is
    /// without needing a second visual language for it.
    pub fn output(name: String) -> (t: Target)
        ensures
            t@ == Record::output(name@),
    {
        Target {
            kind: Kind::Output,
            id: name.clone(),
            con_id: None,
            ft_id: String::new(),
            app: "display".to_owned(),
            title: name,
        }
    }

    /// "title · app".
    pub fn label(&self) -> (r: String)
        ensures
            r@ == self@.label(),
    {
        if self.app.as_str().is_empty() {
            self.title.clone()
        } else {
            let mut out = self.title.clone();
            out.append(" · ");
            out.append(self.app.as_str());
            out
        }
    }

    /// One tab-separated row, so a shell caller can
    /// `IFS=$'\t' read -r type id toplevel app title`.
    ///
    /// Both identifiers are there because both get used: sway scripting acts on
    /// the con_id (`[con_id=N] focus`), while tools that capture a window
    /// (grim -T, the desktop portal) want the foreign-toplevel identifier.
    pub fn tsv(&self) -> (r: String)
        ensures
            r@ == self@.tsv(),
    {
        let mut out = self.kind.name().to_owned();
        out.append("\t");
        out.append(self.id.as_str());
        out.append("\t");
        out.append(self.ft_id.as_str());
        out.append("\t");
        out.append(clean(self.app.as_str()).as_str());
        out.append("\t");
        out.append(clean(self.title.as_str()).as_str());
        out
    }

    /// The same record as JSON, with every key always present so `jq` can rely
    /// on it. Written by hand: one object is not worth a serialiser.
    pub fn json(&self) -> (r: String)
        ensures
            r@ == self@.json(),
    {
        let con_id = match (self.kind, self.con_id) {
            (Kind::Window, Some(n)) => i64_text(n),
            _ => "null".to_owned(),
        };
        let toplevel = if self.ft_id.as_str().is_empty() {
            "null".to_owned()
        } else {
            quoted_json(self.ft_id.as_str())
        };
        let output = match self.kind {
            Kind::Window => "null".to_owned(),
            Kind::Output => quoted_json(self.id.as_str()),
        };
        let mut out = "{\"type\":\"".to_owned();
        out.append(self.kind.name());
        out.append("\",\"con_id\":");
        out.append(con_id.as_str());
        out.append(",\"toplevel_id\":");
        out.append(toplevel.as_str());
        out.append(",\"output\":");
        out.append(output.as_str());
        out.append(",\"app\":");
        out.append(quoted_json(self.app.as_str()).as_str());
        out.append(",\"title\":");
        out.append(quoted_json(self.title.as_str()).as_str());
        out.append("}");
        out
    }

    /// What xdg-desktop-portal-wlr's `simple` chooser accepts: `Monitor: NAME`
    /// or `Window: <foreign-toplevel identifier>`. A window the compositor never
    /// gave an identifier for cannot be named this way, hence the Option; an
    /// empty stdout is exactly how that chooser says "declined".
    pub fn portal(&self) -> (r: Option<String>)
        ensures
            text_of(r) == self@.portal(),
    {
        match self.kind {
            Kind::Output => Some("Monitor: ".to_owned().concat(self.id.as_str())),
            Kind::Window => {
                if self.ft_id.as_str().is_empty() {
                    None
                } else {
                    Some("Window: ".to_owned().concat(self.ft_id.as_str()))
                }
            },
        }
    }

    /// The report of a pick, in the format asked for. Only the portal format can
    /// fail to name something: it identifies a window by its foreign-toplevel
    /// identifier, and the window may have none.
    pub fn render(&self, format: Format) -> (r: Option<String>)
        ensures
            text_of(r) == self@.render(format),
    {
        match format {
            Format::Tsv => Some(self.tsv()),
            Format::Json => Some(self.json()),
            Format::Portal => self.portal(),
        }
    }
}

// --- what a reader gets back -----------------------------------------------
/// The number that four hexadecimal digits in lower case write.
pub open spec fn hex_value(c: char) -> int {
    if '0' <= c <= '9' {
        c as int - 48
    } else {
        c as int - 87
    }
}

/// The character that an escape stands for, and how many characters it takes.
pub open spec fn unescape(s: Seq<char>) -> (char, int) {
    if s[0] != '\\' {
        (s[0], 1)
    } else if s[1] == 'n' {
        ('\n', 2)
    } else if s[1] == 'r' {
        ('\r', 2)
    } else if s[1] == 't' {
        ('\t', 2)
    } else if s[1] == 'u' {
        (
            (4096 * hex_value(s[2]) + 256 * hex_value(s[3]) + 16 * hex_value(s[4]) + hex_value(
                s[5],
            )) as char,
            6,
        )
    } else {
        (s[1], 2)
    }
}

/// The text that a JSON reader takes a string to hold.
pub open spec fn unescaped(s: Seq<char>) -> Seq<char>
    decreases s.len(),
{
    if s.len() == 0 {
        Seq::empty()
    } else {
        let (c, n) = unescape(s);
        if n <= s.len() {
            seq![c] + unescaped(s.skip(n))
        } else {
            Seq::empty()
        }
    }
}

/// Where a JSON reader sees a string end: at the first double quote that no
/// backslash stands before.
pub open spec fn string_end(s: Seq<char>) -> int
    decreases s.len(),
{
    if s.len() == 0 || s[0] == '"' {
        0
    } else if s[0] == '\\' && s.len() >= 2 {
        2 + string_end(s.skip(2))
    } else {
        1 + string_end(s.skip(1))
    }
}

/// A JSON reader gets back the text that was written: the string ends where it
/// should, whatever follows it, holds no control character, and stands for the
/// text.
pub proof fn law_json_strings_read_back(s: Seq<char>, rest: Seq<char>)
    ensures
        unescaped(escaped(s)) == s,
        string_end(escaped(s) + seq!['"'] + rest) == escaped(s).len(),
        forall|i: int| 0 <= i < escaped(s).len() ==> !is_control(#[trigger] escaped(s)[i]),
    decreases s.len(),
{
    if s.len() > 0 {
        let c = s[0];
        let t = s.drop_first();
        let e = escape(c);
        let whole = escaped(s);
        law_json_strings_read_back(t, rest);
        assert(whole == e + escaped(t));
        assert(whole.skip(e.len() as int) =~= escaped(t));
        assert(forall|i: int| 0 <= i < e.len() ==> whole[i] == e[i]);
        assert(unescape(whole) == (c, e.len() as int)) by {
            if is_control(c) && c != '\n' && c != '\r' && c != '\t' {
                lemma_control_escape(c);
            }
        }
        assert(seq![c] + t =~= s);
        let tail = escaped(t) + seq!['"'] + rest;
        let line = whole + seq!['"'] + rest;
        assert(line =~= e + tail);
        lemma_string_end_skips(c, tail);
        assert forall|i: int| 0 <= i < whole.len() implies !is_control(#[trigger] whole[i]) by {
            if i < e.len() {
                if is_control(c) && c != '\n' && c != '\r' && c != '\t' {
                    lemma_control_escape(c);
                }
            } else {
                assert(whole[i] == escaped(t)[i - e.len()]);
            }
        }
    } else {
        let line = escaped(s) + seq!['"'] + rest;
        assert(line[0] == '"');
        assert(unescaped(escaped(s)) =~= s);
    }
}

proof fn lemma_control_escape(c: char)
    requires
        is_control(c),
    ensures
        hex_value(hex_digit(c as int / 16)) == c as int / 16,
        hex_value(hex_digit(c as int % 16)) == c as int % 16,
        !is_control(hex_digit(c as int / 16)),
        !is_control(hex_digit(c as int % 16)),
        hex_digit(c as int / 16) != '"',
        hex_digit(c as int % 16) != '"',
        hex_digit(c as int / 16) != '\\',
        hex_digit(c as int % 16) != '\\',
        (16 * (c as int / 16) + c as int % 16) as char == c,
{
}

proof fn lemma_string_end_skips(c: char, tail: Seq<char>)
    ensures
        string_end(escape(c) + tail) == escape(c).len() + string_end(tail),
{
    let e = escape(c);
    let s = e + tail;
    reveal_with_fuel(string_end, 6);
    if e.len() == 1 {
        assert(s.skip(1) =~= tail);
    } else if e.len() == 2 {
        assert(s.skip(2) =~= tail);
    } else {
        lemma_control_escape(c);
        let (a, b) = (s.skip(2), s.skip(2).skip(1));
        let (d, f) = (b.skip(1), b.skip(1).skip(1));
        assert(a[0] == '0' && b[0] == '0' && d[0] == e[4] && f[0] == e[5]);
        assert(f.skip(1) =~= tail);
        assert(string_end(f) == 1 + string_end(tail));
        assert(string_end(d) == 1 + string_end(f));
        assert(string_end(b) == 1 + string_end(d));
        assert(string_end(a) == 1 + string_end(b));
        assert(string_end(s) == 2 + string_end(a));
    }
}

/// The fields of a tab-separated row.
pub open spec fn fields(s: Seq<char>) -> Seq<Seq<char>> {
    words::pieces(s, '\t')
}

pub open spec fn has_tab_or_newline(s: Seq<char>) -> bool {
    exists|i: int| 0 <= i < s.len() && (#[trigger] s[i] == '\t' || s[i] == '\n')
}

proof fn lemma_fields_are_some(s: Seq<char>)
    ensures
        fields(s).len() >= 1,
    decreases s.len(),
{
    if s.len() > 0 {
        lemma_fields_are_some(s.drop_last());
    }
}

/// Text without a tab adds to the last field.
proof fn lemma_fields_grow(a: Seq<char>, b: Seq<char>)
    requires
        !has_tab_or_newline(b),
    ensures
        fields(a + b) == fields(a).drop_last().push(fields(a).last() + b),
    decreases b.len(),
{
    lemma_fields_are_some(a);
    if b.len() == 0 {
        assert(a + b =~= a);
        assert(fields(a).last() + b =~= fields(a).last());
        assert(fields(a) =~= fields(a).drop_last().push(fields(a).last()));
    } else {
        let c = b.drop_last();
        assert(!has_tab_or_newline(c)) by {
            if has_tab_or_newline(c) {
                let i = choose|i: int| 0 <= i < c.len() && (#[trigger] c[i] == '\t' || c[i] == '\n');
                assert(b[i] == c[i]);
            }
        }
        lemma_fields_grow(a, c);
        assert((a + b).drop_last() =~= a + c);
        assert((a + b).last() == b.last());
        assert(b[b.len() - 1] != '\t');
        let f = fields(a + c);
        assert(f.drop_last() =~= fields(a).drop_last());
        assert((fields(a).last() + c).push(b.last()) =~= fields(a).last() + b);
    }
}

/// A tab starts a field.
proof fn lemma_tab_starts_a_field(a: Seq<char>)
    ensures
        fields(a + "\t"@) == fields(a).push(Seq::empty()),
{
    reveal_strlit("\t");
    assert((a + "\t"@).drop_last() =~= a);
    assert((a + "\t"@).last() == '\t');
}

proof fn lemma_cleaned_is_clean(s: Seq<char>)
    ensures
        !has_tab_or_newline(cleaned(s)),
{
    assert(forall|i: int| 0 <= i < s.len() ==> #[trigger] cleaned(s)[i] != '\t' && cleaned(s)[i]
        != '\n');
}

proof fn lemma_words_are_clean(k: Kind)
    ensures
        !has_tab_or_newline(k.word()),
{
    reveal_strlit("window");
    reveal_strlit("output");
}

/// A row is one line of five fields, whatever the title and the application are:
/// the kind, both identifiers, the application and the title.
pub proof fn law_a_row_has_five_fields(t: Record)
    requires
        !has_tab_or_newline(t.id),
        !has_tab_or_newline(t.ft_id),
    ensures
        fields(t.tsv()) == seq![t.kind.word(), t.id, t.ft_id, cleaned(t.app), cleaned(t.title)],
        !t.tsv().contains('\n'),
{
    let tab = "\t"@;
    reveal_strlit("\t");
    let empty = Seq::<char>::empty();
    lemma_words_are_clean(t.kind);
    lemma_cleaned_is_clean(t.app);
    lemma_cleaned_is_clean(t.title);
    let parts = seq![t.kind.word(), t.id, t.ft_id, cleaned(t.app), cleaned(t.title)];
    let a = parts[0];
    lemma_fields_grow(empty, a);
    assert(empty + a =~= a);
    assert(fields(a) =~= seq![a]);
    let b = a + tab;
    lemma_tab_starts_a_field(a);
    lemma_fields_grow(b, parts[1]);
    let c = b + parts[1];
    assert(fields(c) =~= seq![a, parts[1]]) by {
        assert(empty + parts[1] =~= parts[1]);
    }
    let d = c + tab;
    lemma_tab_starts_a_field(c);
    lemma_fields_grow(d, parts[2]);
    let e = d + parts[2];
    assert(fields(e) =~= seq![a, parts[1], parts[2]]) by {
        assert(empty + parts[2] =~= parts[2]);
    }
    let f = e + tab;
    lemma_tab_starts_a_field(e);
    lemma_fields_grow(f, parts[3]);
    let g = f + parts[3];
    assert(fields(g) =~= seq![a, parts[1], parts[2], parts[3]]) by {
        assert(empty + parts[3] =~= parts[3]);
    }
    let h = g + tab;
    lemma_tab_starts_a_field(g);
    lemma_fields_grow(h, parts[4]);
    let row = h + parts[4];
    assert(fields(row) =~= parts) by {
        assert(empty + parts[4] =~= parts[4]);
    }
    assert(row == t.tsv());
    assert(!row.contains('\n')) by {
        if row.contains('\n') {
            let i = choose|i: int| 0 <= i < row.len() && row[i] == '\n';
            if i < a.len() {
                assert(a[i] == '\n');
            } else if i < b.len() {
                assert(tab[i - a.len()] == '\n');
            } else if i < c.len() {
                assert(parts[1][i - b.len()] == '\n');
            } else if i < d.len() {
                assert(tab[i - c.len()] == '\n');
            } else if i < e.len() {
                assert(parts[2][i - d.len()] == '\n');
            } else if i < f.len() {
                assert(tab[i - e.len()] == '\n');
            } else if i < g.len() {
                assert(parts[3][i - f.len()] == '\n');
            } else if i < h.len() {
                assert(tab[i - g.len()] == '\n');
            } else {
                assert(parts[4][i - h.len()] == '\n');
            }
        }
    }
}

/// A pick can always be reported, but for a window without an identifier that a
/// portal is to be told of.
pub proof fn law_only_a_portal_declines(t: Record, format: Format)
    ensures
        t.render(format) is None <==> format == Format::Portal && t.kind == Kind::Window
            && t.ft_id.len() == 0,
{
}

// --- reading an object back ------------------------------------------------
/// Where a JSON value that is not a string ends: at the comma or the brace that
/// follows it.
pub open spec fn plain_end(s: Seq<char>) -> int
    decreases s.len(),
{
    if s.len() == 0 || s[0] == ',' || s[0] == '}' {
        0
    } else {
        1 + plain_end(s.skip(1))
    }
}

/// Where the JSON value that starts a text ends.
pub open spec fn value_end(s: Seq<char>) -> int {
    if s.len() > 0 && s[0] == '"' {
        string_end(s.skip(1)) + 2
    } else {
        plain_end(s)
    }
}

/// What a reader finds under a key, from the first key of an object on.
pub open spec fn found(s: Seq<char>, key: Seq<char>) -> Option<Seq<char>>
    decreases s.len(),
{
    let name_end = string_end(s.skip(1));
    let after = s.skip(name_end + 3);
    let end = value_end(after);
    if s.len() == 0 || name_end < 0 || name_end + 3 > s.len() || end < 0 || end > after.len() {
        None
    } else if unescaped(s.skip(1).take(name_end)) == key {
        Some(after.take(end))
    } else if end < after.len() && after[end] == ',' {
        found(after.skip(end + 1), key)
    } else {
        None
    }
}

/// What a reader of an object finds under a key.
pub open spec fn member(object: Seq<char>, key: Seq<char>) -> Option<Seq<char>> {
    if object.len() > 0 && object[0] == '{' {
        found(object.skip(1), key)
    } else {
        None
    }
}

/// That a value is a string that holds this text.
pub open spec fn holds_text(value: Option<Seq<char>>, text: Seq<char>) -> bool {
    match value {
        Some(v) => v.len() >= 2 && v[0] == '"' && v.last() == '"' && unescaped(
            v.subrange(1, v.len() - 1),
        ) == text,
        None => false,
    }
}

/// A character that stands for itself in a JSON string.
pub open spec fn is_plain(c: char) -> bool {
    c != '"' && c != '\\' && !is_control(c)
}

proof fn lemma_plain_text(s: Seq<char>)
    requires
        forall|i: int| 0 <= i < s.len() ==> is_plain(#[trigger] s[i]),
    ensures
        escaped(s) == s,
    decreases s.len(),
{
    if s.len() > 0 {
        let t = s.drop_first();
        assert forall|i: int| 0 <= i < t.len() implies is_plain(#[trigger] t[i]) by {
            assert(t[i] == s[i + 1]);
        }
        lemma_plain_text(t);
        assert(is_plain(s[0]));
        assert(escaped(s) =~= s);
    } else {
        assert(escaped(s) =~= s);
    }
}

/// A value that ends where it should is followed by what follows it.
proof fn lemma_plain_end(v: Seq<char>, tail: Seq<char>)
    requires
        forall|i: int| 0 <= i < v.len() ==> #[trigger] v[i] != ',' && v[i] != '}',
        tail.len() > 0,
        tail[0] == ',' || tail[0] == '}',
    ensures
        plain_end(v + tail) == v.len(),
    decreases v.len(),
{
    let s = v + tail;
    if v.len() > 0 {
        let u = v.drop_first();
        assert(s.skip(1) =~= u + tail);
        assert(s[0] == v[0]);
        assert forall|i: int| 0 <= i < u.len() implies #[trigger] u[i] != ',' && u[i] != '}' by {
            assert(u[i] == v[i + 1]);
        }
        lemma_plain_end(u, tail);
    } else {
        assert(s =~= tail);
    }
}

proof fn lemma_string_value(x: Seq<char>, tail: Seq<char>)
    ensures
        value_end(json_string(x) + tail) == json_string(x).len(),
        holds_text(Some(json_string(x)), x),
{
    reveal_strlit("\"");
    let v = json_string(x);
    let s = v + tail;
    law_json_strings_read_back(x, tail);
    assert(s[0] == '"');
    assert(s.skip(1) =~= escaped(x) + seq!['"'] + tail);
    assert(v.subrange(1, v.len() - 1) =~= escaped(x));
}

/// One member of an object: its name, its value, and what follows.
#[verifier::opaque]
spec fn written(name: Seq<char>, v: Seq<char>, tail: Seq<char>) -> Seq<char> {
    seq!['"'] + name + seq!['"', ':'] + v + tail
}

/// What follows a member that is not the last.
#[verifier::opaque]
spec fn following(next: Seq<char>) -> Seq<char> {
    seq![','] + next
}

spec fn plain_text(s: Seq<char>) -> bool {
    forall|i: int| 0 <= i < s.len() ==> is_plain(#[trigger] s[i])
}

proof fn lemma_member(name: Seq<char>, v: Seq<char>, tail: Seq<char>, key: Seq<char>)
    requires
        plain_text(name),
        value_end(v + tail) == v.len(),
    ensures
        name == key ==> found(written(name, v, tail), key) == Some(v),
        name != key && tail.len() > 0 && tail[0] == ',' ==> found(written(name, v, tail), key)
            == found(tail.skip(1), key),
{
    reveal(written);
    let s = written(name, v, tail);
    lemma_plain_text(name);
    let rest = seq![':'] + v + tail;
    law_json_strings_read_back(name, rest);
    assert(s.skip(1) =~= escaped(name) + seq!['"'] + rest);
    let end = string_end(s.skip(1));
    assert(end == name.len());
    assert(s.skip(1).take(end) =~= name);
    let after = s.skip(end + 3);
    assert(after =~= v + tail);
    assert(after.take(v.len() as int) =~= v);
    if tail.len() > 0 {
        assert(after[v.len() as int] == tail[0]);
        assert(after.skip(v.len() as int + 1) =~= tail.skip(1));
    }
}

proof fn lemma_next_member(name: Seq<char>, v: Seq<char>, next: Seq<char>, key: Seq<char>)
    requires
        plain_text(name),
        value_end(v + following(next)) == v.len(),
    ensures
        found(written(name, v, following(next)), key) == if name == key {
            Some(v)
        } else {
            found(next, key)
        },
{
    lemma_member(name, v, following(next), key);
    reveal(following);
    assert(following(next).skip(1) =~= next);
}

proof fn lemma_following(next: Seq<char>)
    ensures
        following(next).len() > 0,
        following(next)[0] == ',',
{
    reveal(following);
}

/// A member is written after what stands before it.
proof fn lemma_append_member(
    before: Seq<char>,
    lead: Seq<char>,
    name: Seq<char>,
    v: Seq<char>,
    tail: Seq<char>,
)
    requires
        lead == seq![',', '"'] + name + seq!['"', ':'],
    ensures
        before + lead + v + tail == before + following(written(name, v, tail)),
{
    reveal(written);
    reveal(following);
    assert(before + lead + v + tail =~= before + following(written(name, v, tail)));
}

/// The first two members, behind the brace that opens the object.
proof fn lemma_first_members(word: Seq<char>, con_id: Seq<char>, tail: Seq<char>)
    requires
        plain_text(word),
    ensures
        "{\"type\":\""@ + word + "\",\"con_id\":"@ + con_id + tail == seq!['{'] + written(
            "type"@,
            json_string(word),
            following(written("con_id"@, con_id, tail)),
        ),
{
    reveal(written);
    reveal(following);
    reveal_strlit("{\"type\":\"");
    reveal_strlit("\",\"con_id\":");
    reveal_strlit("type");
    reveal_strlit("con_id");
    reveal_strlit("\"");
    lemma_plain_text(word);
    let left = "{\"type\":\""@ + word + "\",\"con_id\":"@;
    let right = seq!['{'] + (seq!['"'] + "type"@ + seq!['"', ':'] + json_string(word)) + seq![
        ',',
    ] + (seq!['"'] + "con_id"@ + seq!['"', ':']);
    assert(left =~= right);
    assert(right + con_id + tail =~= seq!['{'] + written(
        "type"@,
        json_string(word),
        following(written("con_id"@, con_id, tail)),
    ));
}

proof fn lemma_leads()
    ensures
        ",\"toplevel_id\":"@ == seq![',', '"'] + "toplevel_id"@ + seq!['"', ':'],
        ",\"output\":"@ == seq![',', '"'] + "output"@ + seq!['"', ':'],
        ",\"app\":"@ == seq![',', '"'] + "app"@ + seq!['"', ':'],
        ",\"title\":"@ == seq![',', '"'] + "title"@ + seq!['"', ':'],
{
    reveal_strlit("toplevel_id");
    reveal_strlit("output");
    reveal_strlit("app");
    reveal_strlit("title");
    reveal_strlit(",\"toplevel_id\":");
    reveal_strlit(",\"output\":");
    reveal_strlit(",\"app\":");
    reveal_strlit(",\"title\":");
    assert(",\"toplevel_id\":"@ =~= seq![',', '"'] + "toplevel_id"@ + seq!['"', ':']);
    assert(",\"output\":"@ =~= seq![',', '"'] + "output"@ + seq!['"', ':']);
    assert(",\"app\":"@ =~= seq![',', '"'] + "app"@ + seq!['"', ':']);
    assert(",\"title\":"@ =~= seq![',', '"'] + "title"@ + seq!['"', ':']);
}

proof fn lemma_keys_are_plain()
    ensures
        plain_text("type"@) && plain_text("con_id"@) && plain_text("toplevel_id"@) && plain_text(
            "output"@,
        ) && plain_text("app"@) && plain_text("title"@) && plain_text("window"@),
        "type"@ != "con_id"@ && "type"@ != "toplevel_id"@ && "type"@ != "output"@ && "type"@
            != "app"@ && "type"@ != "title"@,
        "con_id"@ != "toplevel_id"@ && "con_id"@ != "output"@ && "con_id"@ != "app"@ && "con_id"@
            != "title"@,
        "toplevel_id"@ != "output"@ && "toplevel_id"@ != "app"@ && "toplevel_id"@ != "title"@,
        "output"@ != "app"@ && "output"@ != "title"@,
        "app"@ != "title"@,
{
    reveal_strlit("type");
    reveal_strlit("con_id");
    reveal_strlit("toplevel_id");
    reveal_strlit("output");
    reveal_strlit("app");
    reveal_strlit("title");
    reveal_strlit("window");
    assert("type"@.len() == 4 && "con_id"@.len() == 6 && "toplevel_id"@.len() == 11
        && "output"@.len() == 6 && "app"@.len() == 3 && "title"@.len() == 5);
    assert("con_id"@[0] != "output"@[0]);
}

/// The digits of a number hold nothing else.
proof fn lemma_decimal_is_plain(n: int)
    ensures
        forall|i: int|
            0 <= i < words::decimal(n).len() ==> #[trigger] words::decimal(n)[i] != ','
                && words::decimal(n)[i] != '}' && words::decimal(n)[i] != '"',
        words::decimal(n).len() > 0,
{
    let m: nat = if n < 0 {
        (-n) as nat
    } else {
        n as nat
    };
    words::law_digits_are_decimal(m);
    let d = words::digits_of(m);
    assert forall|i: int| 0 <= i < words::decimal(n).len() implies #[trigger] words::decimal(n)[i]
        != ',' && words::decimal(n)[i] != '}' && words::decimal(n)[i] != '"' by {
        if n < 0 {
            if i > 0 {
                assert(words::decimal(n)[i] == d[i - 1]);
                assert(words::is_digit(d[i - 1]));
            }
        } else {
            assert(words::is_digit(d[i]));
        }
    }
}

/// A value that no member follows or another does is read whole.
proof fn lemma_plain_value(v: Seq<char>, tail: Seq<char>)
    requires
        v.len() > 0,
        forall|i: int| 0 <= i < v.len() ==> #[trigger] v[i] != ',' && v[i] != '}' && v[i] != '"',
        tail.len() > 0,
        tail[0] == ',' || tail[0] == '}',
    ensures
        value_end(v + tail) == v.len(),
{
    lemma_plain_end(v, tail);
    assert((v + tail)[0] == v[0]);
}

/// A reader of the object gets the record back, key by key: its own kind, its
/// number or null, its identifier or null, its name if it is a display or null,
/// and its application and its title as they are.
pub proof fn law_an_object_reads_back(t: Record)
    ensures
        t.kind == Kind::Window ==> holds_text(member(t.json(), "type"@), "window"@),
        t.kind == Kind::Output ==> holds_text(member(t.json(), "type"@), "output"@),
        t.kind == Kind::Window && t.con_id is Some ==> member(t.json(), "con_id"@) == Some(
            words::decimal(t.con_id->Some_0 as int),
        ),
        t.kind == Kind::Output || t.con_id is None ==> member(t.json(), "con_id"@) == Some("null"@),
        t.ft_id.len() > 0 ==> holds_text(member(t.json(), "toplevel_id"@), t.ft_id),
        t.ft_id.len() == 0 ==> member(t.json(), "toplevel_id"@) == Some("null"@),
        t.kind == Kind::Output ==> holds_text(member(t.json(), "output"@), t.id),
        t.kind == Kind::Window ==> member(t.json(), "output"@) == Some("null"@),
        holds_text(member(t.json(), "app"@), t.app),
        holds_text(member(t.json(), "title"@), t.title),
        t.json().last() == '}',
{
    let con_id = if t.kind == Kind::Window && t.con_id is Some {
        words::decimal(t.con_id->Some_0 as int)
    } else {
        "null"@
    };
    let toplevel = if t.ft_id.len() == 0 {
        "null"@
    } else {
        json_string(t.ft_id)
    };
    let output = if t.kind == Kind::Window {
        "null"@
    } else {
        json_string(t.id)
    };
    let word = if t.kind == Kind::Window {
        "window"@
    } else {
        "output"@
    };
    let (kind, app, title) = (json_string(word), json_string(t.app), json_string(t.title));
    // From the last member to the first, what is left of the object.
    let s6 = written("title"@, title, "}"@);
    let s5 = written("app"@, app, following(s6));
    let s4 = written("output"@, output, following(s5));
    let s3 = written("toplevel_id"@, toplevel, following(s4));
    let s2 = written("con_id"@, con_id, following(s3));
    let s1 = written("type"@, kind, following(s2));
    lemma_keys_are_plain();
    lemma_leads();
    let a = "{\"type\":\""@ + word + "\",\"con_id\":"@ + con_id;
    let b = a + ",\"toplevel_id\":"@ + toplevel;
    let c = b + ",\"output\":"@ + output;
    let d = c + ",\"app\":"@ + app;
    assert(t.json() == d + ",\"title\":"@ + title + "}"@);
    lemma_append_member(d, ",\"title\":"@, "title"@, title, "}"@);
    lemma_append_member(c, ",\"app\":"@, "app"@, app, following(s6));
    lemma_append_member(b, ",\"output\":"@, "output"@, output, following(s5));
    lemma_append_member(a, ",\"toplevel_id\":"@, "toplevel_id"@, toplevel, following(s4));
    lemma_first_members(word, con_id, following(s3));
    assert(t.json() == seq!['{'] + s1);
    assert(t.json().skip(1) =~= s1);
    assert(t.json().last() == '}') by {
        reveal_strlit("}");
    }
    lemma_values_end(t, s2, s3, s4, s5, s6, word, con_id, toplevel, output);
    lemma_all_members(s2, s3, s4, s5, s6, kind, con_id, toplevel, output, app, title);
}

/// Each value of the object ends where the next member follows.
proof fn lemma_values_end(
    t: Record,
    s2: Seq<char>,
    s3: Seq<char>,
    s4: Seq<char>,
    s5: Seq<char>,
    s6: Seq<char>,
    word: Seq<char>,
    con_id: Seq<char>,
    toplevel: Seq<char>,
    output: Seq<char>,
)
    requires
        con_id == "null"@ || exists|n: int| con_id == #[trigger] words::decimal(n),
        toplevel == "null"@ || toplevel == json_string(t.ft_id),
        output == "null"@ || output == json_string(t.id),
    ensures
        value_end(json_string(word) + following(s2)) == json_string(word).len(),
        holds_text(Some(json_string(word)), word),
        value_end(con_id + following(s3)) == con_id.len(),
        value_end(toplevel + following(s4)) == toplevel.len(),
        holds_text(Some(json_string(t.ft_id)), t.ft_id),
        value_end(output + following(s5)) == output.len(),
        holds_text(Some(json_string(t.id)), t.id),
        value_end(json_string(t.app) + following(s6)) == json_string(t.app).len(),
        holds_text(Some(json_string(t.app)), t.app),
        value_end(json_string(t.title) + "}"@) == json_string(t.title).len(),
        holds_text(Some(json_string(t.title)), t.title),
{
    lemma_following(s3);
    lemma_following(s4);
    lemma_following(s5);
    lemma_string_value(word, following(s2));
    lemma_string_value(t.ft_id, following(s4));
    lemma_string_value(t.id, following(s5));
    lemma_string_value(t.app, following(s6));
    lemma_string_value(t.title, "}"@);
    reveal_strlit("null");
    lemma_plain_value("null"@, following(s3));
    lemma_plain_value("null"@, following(s4));
    lemma_plain_value("null"@, following(s5));
    if con_id != "null"@ {
        let n = choose|n: int| con_id == #[trigger] words::decimal(n);
        lemma_decimal_is_plain(n);
        lemma_plain_value(con_id, following(s3));
    }
}

/// What a reader finds under each key, where each member is followed by the
/// next.
proof fn lemma_all_members(
    s2: Seq<char>,
    s3: Seq<char>,
    s4: Seq<char>,
    s5: Seq<char>,
    s6: Seq<char>,
    kind: Seq<char>,
    con_id: Seq<char>,
    toplevel: Seq<char>,
    output: Seq<char>,
    app: Seq<char>,
    title: Seq<char>,
)
    requires
        s2 == written("con_id"@, con_id, following(s3)),
        s3 == written("toplevel_id"@, toplevel, following(s4)),
        s4 == written("output"@, output, following(s5)),
        s5 == written("app"@, app, following(s6)),
        s6 == written("title"@, title, "}"@),
        value_end(kind + following(s2)) == kind.len(),
        value_end(con_id + following(s3)) == con_id.len(),
        value_end(toplevel + following(s4)) == toplevel.len(),
        value_end(output + following(s5)) == output.len(),
        value_end(app + following(s6)) == app.len(),
        value_end(title + "}"@) == title.len(),
    ensures
        ({
            let s1 = written("type"@, kind, following(s2));
            &&& found(s1, "type"@) == Some(kind)
            &&& found(s1, "con_id"@) == Some(con_id)
            &&& found(s1, "toplevel_id"@) == Some(toplevel)
            &&& found(s1, "output"@) == Some(output)
            &&& found(s1, "app"@) == Some(app)
            &&& found(s1, "title"@) == Some(title)
        }),
{
    lemma_keys_are_plain();
    lemma_next_member("type"@, kind, s2, "type"@);
    lemma_next_member("type"@, kind, s2, "con_id"@);
    lemma_next_member("type"@, kind, s2, "toplevel_id"@);
    lemma_next_member("type"@, kind, s2, "output"@);
    lemma_next_member("type"@, kind, s2, "app"@);
    lemma_next_member("type"@, kind, s2, "title"@);
    lemma_next_member("con_id"@, con_id, s3, "con_id"@);
    lemma_next_member("con_id"@, con_id, s3, "toplevel_id"@);
    lemma_next_member("con_id"@, con_id, s3, "output"@);
    lemma_next_member("con_id"@, con_id, s3, "app"@);
    lemma_next_member("con_id"@, con_id, s3, "title"@);
    lemma_next_member("toplevel_id"@, toplevel, s4, "toplevel_id"@);
    lemma_next_member("toplevel_id"@, toplevel, s4, "output"@);
    lemma_next_member("toplevel_id"@, toplevel, s4, "app"@);
    lemma_next_member("toplevel_id"@, toplevel, s4, "title"@);
    lemma_next_member("output"@, output, s5, "output"@);
    lemma_next_member("output"@, output, s5, "app"@);
    lemma_next_member("output"@, output, s5, "title"@);
    lemma_next_member("app"@, app, s6, "app"@);
    lemma_next_member("app"@, app, s6, "title"@);
    lemma_member("title"@, title, "}"@, "title"@);
}

/// The five fields of a row are the record's own: the word for its kind, its
/// identifiers as they are, and its application and its title with a space for
/// each control character and everything else as it is.
pub proof fn law_a_row_tells_the_record(t: Record, i: int)
    requires
        !has_tab_or_newline(t.id),
        !has_tab_or_newline(t.ft_id),
    ensures
        fields(t.tsv()).len() == 5,
        t.kind == Kind::Window ==> fields(t.tsv())[0] == "window"@,
        t.kind == Kind::Output ==> fields(t.tsv())[0] == "output"@,
        fields(t.tsv())[1] == t.id,
        fields(t.tsv())[2] == t.ft_id,
        fields(t.tsv())[3].len() == t.app.len(),
        fields(t.tsv())[4].len() == t.title.len(),
        0 <= i < t.app.len() ==> fields(t.tsv())[3][i] == if (t.app[i] as u32) < 32 || t.app[i]
            == '\u{7f}' {
            ' '
        } else {
            t.app[i]
        },
        0 <= i < t.title.len() ==> fields(t.tsv())[4][i] == if (t.title[i] as u32) < 32
            || t.title[i] == '\u{7f}' {
            ' '
        } else {
            t.title[i]
        },
{
    law_a_row_has_five_fields(t);
}

/// What a portal is told of a window is its identifier, and of a display its
/// name.
pub proof fn law_a_portal_is_told_the_source(t: Record)
    ensures
        t.kind == Kind::Window && t.ft_id.len() > 0 ==> t.portal() == Some("Window: "@ + t.ft_id),
        t.kind == Kind::Window && t.ft_id.len() == 0 ==> t.portal() is None,
        t.kind == Kind::Output ==> t.portal() == Some("Monitor: "@ + t.id),
{
}

/// Each format is rendered as itself.
pub proof fn law_each_format_is_rendered_as_itself(t: Record)
    ensures
        t.render(Format::Tsv) == Some(t.tsv()),
        t.render(Format::Json) == Some(t.json()),
        t.render(Format::Portal) == t.portal(),
{
}

/// Each format has one word, and no other word has any.
pub proof fn law_formats_have_one_word_each(word: Seq<char>)
    ensures
        word == "tsv"@ ==> Format::named(word) == Some(Format::Tsv),
        Format::named(word) == Some(Format::Tsv) ==> word == "tsv"@,
        word == "json"@ ==> Format::named(word) == Some(Format::Json),
        Format::named(word) == Some(Format::Json) ==> word == "json"@,
        word == "portal"@ ==> Format::named(word) == Some(Format::Portal),
        Format::named(word) == Some(Format::Portal) ==> word == "portal"@,
{
    reveal_strlit("tsv");
    reveal_strlit("json");
    reveal_strlit("portal");
    assert("tsv"@.len() == 3 && "json"@.len() == 4 && "portal"@.len() == 6);
}

/// A window is known by its number, and a display by its name, which is its
/// title too.
pub proof fn law_a_target_is_known_by_its_id(
    con_id: i64,
    ft_id: Seq<char>,
    app: Seq<char>,
    title: Seq<char>,
    name: Seq<char>,
)
    ensures
        ({
            let w = Record::window(con_id, ft_id, app, title);
            &&& w.kind == Kind::Window
            &&& w.con_id == Some(con_id)
            &&& w.id == words::decimal(con_id as int)
            &&& w.ft_id == ft_id && w.app == app && w.title == title
        }),
        ({
            let d = Record::output(name);
            &&& d.kind == Kind::Output
            &&& d.con_id is None
            &&& d.id == name && d.title == name
            &&& d.ft_id.len() == 0
            &&& d.app == "display"@
        }),
{
}

/// A label starts with the title and ends with the application, where there is
/// one; and is the title alone where there is not.
pub proof fn law_a_label_is_title_and_application(t: Record)
    ensures
        t.app.len() == 0 ==> t.label() == t.title,
        t.app.len() > 0 ==> t.label().len() == t.title.len() + 3 + t.app.len() && t.label().take(
            t.title.len() as int,
        ) == t.title && t.label().skip(t.title.len() as int + 3) == t.app && t.label().subrange(
            t.title.len() as int,
            t.title.len() as int + 3,
        ) == seq![' ', '\u{b7}', ' '],
{
    reveal_strlit(" · ");
    let l = t.label();
    let n = t.title.len() as int;
    if t.app.len() > 0 {
        assert(l.take(n) =~= t.title);
        assert(l.skip(n + 3) =~= t.app);
        assert(l.subrange(n, n + 3) =~= seq![' ', '\u{b7}', ' ']);
    }
}

/// What a target shows is what it holds.
pub proof fn law_a_target_shows_what_it_holds(t: Target, s: Seq<Target>, i: int)
    ensures
        t@.kind == t.kind && t@.con_id == t.con_id,
        t@.id == t.id@ && t@.ft_id == t.ft_id@ && t@.app == t.app@ && t@.title == t.title@,
        records(s).len() == s.len(),
        0 <= i < s.len() ==> records(s)[i] == s[i]@,
{
}

} // verus!
