//! Labels: which font they are drawn in, and how they are shortened.
//!
//! Shaping and rasterising happen elsewhere, on a worker thread; what is here is
//! what they are asked for.

use vstd::prelude::*;
use vstd::string::*;

use crate::target;
use crate::words;
use crate::words::{
    chars_of, digit, find_char, join, lower, quote, same, same_ignoring_case, split_words,
    string_of, trim,
};

verus! {

/// The default family: whatever this system calls its monospace font.
pub const SYSTEM_MONO: &'static str = "monospace";

// --- styles ----------------------------------------------------------------
/// How heavy a face is.
#[derive(Clone, Copy, PartialEq, Eq, Structural, Debug)]
pub enum Weight {
    Thin,
    ExtraLight,
    Light,
    Normal,
    Medium,
    SemiBold,
    Bold,
    ExtraBold,
    Black,
}

/// How wide a face is.
#[derive(Clone, Copy, PartialEq, Eq, Structural, Debug)]
pub enum Stretch {
    UltraCondensed,
    ExtraCondensed,
    Condensed,
    SemiCondensed,
    Normal,
    SemiExpanded,
    Expanded,
    ExtraExpanded,
    UltraExpanded,
}

pub open spec fn is_alphanumeric(c: char) -> bool {
    words::is_digit(c) || words::is_ascii_upper(c) || words::is_ascii_lower(c)
}

/// Style words as fonts spell them, joined or spaced, in any case: only their
/// ASCII letters and digits count.
pub open spec fn normalised(s: Seq<char>) -> Seq<char>
    decreases s.len(),
{
    if s.len() == 0 {
        Seq::empty()
    } else if is_alphanumeric(s.last()) {
        normalised(s.drop_last()).push(words::lowered(s.last()))
    } else {
        normalised(s.drop_last())
    }
}

pub fn normalise(word: &str) -> (r: String)
    ensures
        r@ == normalised(word@),
{
    let v = chars_of(word);
    let mut out = String::new();
    for i in 0..v.len()
        invariant
            out@ == normalised(v@.take(i as int)),
    {
        assert(v@.take(i + 1).drop_last() =~= v@.take(i as int));
        let c = v[i];
        if digit(c) || (c >= 'a' && c <= 'z') || (c >= 'A' && c <= 'Z') {
            out.push(lower(c));
        }
    }
    assert(v@.take(v@.len() as int) =~= v@);
    out
}

/// The weight that a normalised word names.
pub open spec fn weight_of(word: Seq<char>) -> Option<Weight> {
    if word == "thin"@ || word == "hairline"@ {
        Some(Weight::Thin)
    } else if word == "extralight"@ || word == "ultralight"@ {
        Some(Weight::ExtraLight)
    } else if word == "light"@ {
        Some(Weight::Light)
    } else if word == "regular"@ || word == "normal"@ || word == "book"@ {
        Some(Weight::Normal)
    } else if word == "medium"@ {
        Some(Weight::Medium)
    } else if word == "semibold"@ || word == "demibold"@ {
        Some(Weight::SemiBold)
    } else if word == "bold"@ {
        Some(Weight::Bold)
    } else if word == "extrabold"@ || word == "ultrabold"@ {
        Some(Weight::ExtraBold)
    } else if word == "black"@ || word == "heavy"@ {
        Some(Weight::Black)
    } else {
        None
    }
}

pub fn weight_from(word: &str) -> (r: Option<Weight>)
    ensures
        r == weight_of(normalised(word@)),
{
    let word = normalise(word);
    let w = word.as_str();
    if same(w, "thin") || same(w, "hairline") {
        Some(Weight::Thin)
    } else if same(w, "extralight") || same(w, "ultralight") {
        Some(Weight::ExtraLight)
    } else if same(w, "light") {
        Some(Weight::Light)
    } else if same(w, "regular") || same(w, "normal") || same(w, "book") {
        Some(Weight::Normal)
    } else if same(w, "medium") {
        Some(Weight::Medium)
    } else if same(w, "semibold") || same(w, "demibold") {
        Some(Weight::SemiBold)
    } else if same(w, "bold") {
        Some(Weight::Bold)
    } else if same(w, "extrabold") || same(w, "ultrabold") {
        Some(Weight::ExtraBold)
    } else if same(w, "black") || same(w, "heavy") {
        Some(Weight::Black)
    } else {
        None
    }
}

pub open spec fn weight_word(weight: Weight) -> Seq<char> {
    match weight {
        Weight::Thin => "Thin"@,
        Weight::ExtraLight => "ExtraLight"@,
        Weight::Light => "Light"@,
        Weight::Normal => "Regular"@,
        Weight::Medium => "Medium"@,
        Weight::SemiBold => "SemiBold"@,
        Weight::Bold => "Bold"@,
        Weight::ExtraBold => "ExtraBold"@,
        Weight::Black => "Black"@,
    }
}

pub fn weight_name(weight: Weight) -> (r: &'static str)
    ensures
        r@ == weight_word(weight),
{
    match weight {
        Weight::Thin => "Thin",
        Weight::ExtraLight => "ExtraLight",
        Weight::Light => "Light",
        Weight::Normal => "Regular",
        Weight::Medium => "Medium",
        Weight::SemiBold => "SemiBold",
        Weight::Bold => "Bold",
        Weight::ExtraBold => "ExtraBold",
        Weight::Black => "Black",
    }
}

/// The width that a normalised word names.
pub open spec fn stretch_of(word: Seq<char>) -> Option<Stretch> {
    if word == "ultracondensed"@ {
        Some(Stretch::UltraCondensed)
    } else if word == "extracondensed"@ {
        Some(Stretch::ExtraCondensed)
    } else if word == "condensed"@ {
        Some(Stretch::Condensed)
    } else if word == "semicondensed"@ {
        Some(Stretch::SemiCondensed)
    } else if word == "semiexpanded"@ {
        Some(Stretch::SemiExpanded)
    } else if word == "expanded"@ {
        Some(Stretch::Expanded)
    } else if word == "extraexpanded"@ {
        Some(Stretch::ExtraExpanded)
    } else if word == "ultraexpanded"@ {
        Some(Stretch::UltraExpanded)
    } else {
        None
    }
}

pub fn stretch_from(word: &str) -> (r: Option<Stretch>)
    ensures
        r == stretch_of(normalised(word@)),
{
    let word = normalise(word);
    let w = word.as_str();
    if same(w, "ultracondensed") {
        Some(Stretch::UltraCondensed)
    } else if same(w, "extracondensed") {
        Some(Stretch::ExtraCondensed)
    } else if same(w, "condensed") {
        Some(Stretch::Condensed)
    } else if same(w, "semicondensed") {
        Some(Stretch::SemiCondensed)
    } else if same(w, "semiexpanded") {
        Some(Stretch::SemiExpanded)
    } else if same(w, "expanded") {
        Some(Stretch::Expanded)
    } else if same(w, "extraexpanded") {
        Some(Stretch::ExtraExpanded)
    } else if same(w, "ultraexpanded") {
        Some(Stretch::UltraExpanded)
    } else {
        None
    }
}

pub open spec fn stretch_word(stretch: Stretch) -> Seq<char> {
    match stretch {
        Stretch::UltraCondensed => "UltraCondensed"@,
        Stretch::ExtraCondensed => "ExtraCondensed"@,
        Stretch::Condensed => "Condensed"@,
        Stretch::SemiCondensed => "SemiCondensed"@,
        Stretch::Normal => "Normal"@,
        Stretch::SemiExpanded => "SemiExpanded"@,
        Stretch::Expanded => "Expanded"@,
        Stretch::ExtraExpanded => "ExtraExpanded"@,
        Stretch::UltraExpanded => "UltraExpanded"@,
    }
}

pub fn stretch_name(stretch: Stretch) -> (r: &'static str)
    ensures
        r@ == stretch_word(stretch),
{
    match stretch {
        Stretch::UltraCondensed => "UltraCondensed",
        Stretch::ExtraCondensed => "ExtraCondensed",
        Stretch::Condensed => "Condensed",
        Stretch::SemiCondensed => "SemiCondensed",
        Stretch::Normal => "Normal",
        Stretch::SemiExpanded => "SemiExpanded",
        Stretch::Expanded => "Expanded",
        Stretch::ExtraExpanded => "ExtraExpanded",
        Stretch::UltraExpanded => "UltraExpanded",
    }
}

// --- choosing a face -------------------------------------------------------
/// A family name, and the face within it to ask for.
///
/// Fonts are commonly known by their full display name ("Berkeley Mono Medium
/// SemiCondensed" is what `fc-match` prints and what a font menu shows), but
/// only "Berkeley Mono" is the family; the rest names a face inside it. Asking a
/// font database for the whole string matches nothing, so a request is split
/// into the longest part that is a real family and a style read off the
/// remainder.
#[derive(Debug, PartialEq)]
pub struct Choice {
    pub family: String,
    pub weight: Weight,
    pub stretch: Stretch,
}

pub struct Face {
    pub family: Seq<char>,
    pub weight: Weight,
    pub stretch: Stretch,
}

impl View for Choice {
    type V = Face;

    open spec fn view(&self) -> Face {
        Face { family: self.family@, weight: self.weight, stretch: self.stretch }
    }
}

impl Face {
    pub open spec fn plain(family: Seq<char>) -> Face {
        Face { family, weight: Weight::Normal, stretch: Stretch::Normal }
    }

    /// The face in words, in the shape a request is written in.
    pub open spec fn description(self) -> Seq<char> {
        let weight = if self.weight == Weight::Normal {
            Seq::empty()
        } else {
            seq![' '] + weight_word(self.weight)
        };
        let stretch = if self.stretch == Stretch::Normal {
            Seq::empty()
        } else {
            seq![' '] + stretch_word(self.stretch)
        };
        self.family + weight + stretch
    }

    /// The face with one more style word, if that is what the word is.
    pub open spec fn styled(self, word: Seq<char>) -> Option<Face> {
        match weight_of(normalised(word)) {
            Some(weight) => Some(Face { weight, ..self }),
            None => match stretch_of(normalised(word)) {
                Some(stretch) => Some(Face { stretch, ..self }),
                None => None,
            },
        }
    }

    /// The face with all these style words, if that is what they are. Fonts
    /// spell a two-part style either way round ("ExtraLight" and "Extra Light"
    /// are the same face), so each pair of words gets a look before either is
    /// read on its own.
    pub open spec fn dressed(self, style: Seq<Seq<char>>) -> Option<Face>
        decreases style.len(),
    {
        if style.len() == 0 {
            Some(self)
        } else if style.len() >= 2 && self.styled(style[0] + style[1]) is Some {
            self.styled(style[0] + style[1])->Some_0.dressed(style.skip(2))
        } else if self.styled(style[0]) is Some {
            self.styled(style[0])->Some_0.dressed(style.skip(1))
        } else {
            None
        }
    }
}

pub open spec fn face_of(c: Option<Choice>) -> Option<Face> {
    match c {
        Some(c) => Some(c@),
        None => None,
    }
}

impl Choice {
    pub fn plain(family: &str) -> (r: Choice)
        ensures
            r@ == Face::plain(family@),
    {
        Choice { family: family.to_owned(), weight: Weight::Normal, stretch: Stretch::Normal }
    }

    /// How to describe what was used, in the shape the request was written in.
    pub fn describe(&self) -> (r: String)
        ensures
            r@ == self@.description(),
    {
        let mut out = self.family.clone();
        if self.weight != Weight::Normal {
            out.push(' ');
            out.append(weight_name(self.weight));
        }
        assert(out@ =~= self@.family + (if self.weight == Weight::Normal {
            Seq::empty()
        } else {
            seq![' '] + weight_word(self.weight)
        }));
        let ghost before = out@;
        if self.stretch != Stretch::Normal {
            out.push(' ');
            out.append(stretch_name(self.stretch));
        }
        assert(out@ =~= before + (if self.stretch == Stretch::Normal {
            Seq::empty()
        } else {
            seq![' '] + stretch_word(self.stretch)
        }));
        out
    }
}

/// Read one word as a weight or a width, and apply it.
pub fn apply_style(word: &str, choice: &mut Choice) -> (r: bool)
    ensures
        match old(choice)@.styled(word@) {
            Some(face) => r && final(choice)@ == face,
            None => !r && *final(choice) == *old(choice),
        },
{
    if let Some(weight) = weight_from(word) {
        choice.weight = weight;
        true
    } else if let Some(stretch) = stretch_from(word) {
        choice.stretch = stretch;
        true
    } else {
        false
    }
}

/// Apply the style `words` to `choice`, or report that one of them is not a
/// style at all.
pub fn read_style(style: &[String], choice: &mut Choice) -> (r: bool)
    ensures
        match old(choice)@.dressed(words::texts(style@)) {
            Some(face) => r && final(choice)@ == face,
            None => !r,
        },
{
    let ghost all = words::texts(style@);
    let ghost want = choice@.dressed(all);
    let mut i: usize = 0;
    assert(all.skip(0) =~= all);
    while i < style.len()
        invariant
            i <= style@.len(),
            all == words::texts(style@),
            want == old(choice)@.dressed(all),
            want == choice@.dressed(all.skip(i as int)),
        decreases style@.len() - i,
    {
        let ghost rest = all.skip(i as int);
        if style.len() - i >= 2 {
            let mut pair = style[i].clone();
            pair.append(style[i + 1].as_str());
            assert(pair@ == rest[0] + rest[1]);
            assert(rest.skip(2) =~= all.skip(i + 2));
            if apply_style(pair.as_str(), choice) {
                i = i + 2;
                continue ;
            }
        }
        assert(rest.skip(1) =~= all.skip(i + 1));
        assert(rest[0] == style@[i as int]@);
        if apply_style(style[i].as_str(), choice) {
            i = i + 1;
        } else {
            return false;
        }
    }
    true
}

/// Where the first family stands whose name is `want`, or `families.len()`.
pub open spec fn named(families: Seq<Seq<char>>, want: Seq<char>) -> int
    decreases families.len(),
{
    if families.len() == 0 || words::same_letters(families[0], want) {
        0
    } else {
        1 + named(families.drop_first(), want)
    }
}

/// The list's own spelling of a family, matched the way fontconfig matches:
/// without caring about case.
pub open spec fn spelled(families: Seq<Seq<char>>, want: Seq<char>) -> Option<Seq<char>> {
    let i = named(families, want);
    if i < families.len() {
        Some(families[i])
    } else {
        None
    }
}

fn look_up(families: &[String], want: &str) -> (r: Option<String>)
    ensures
        match (r, spelled(words::texts(families@), want@)) {
            (Some(a), Some(b)) => a@ == b,
            (None, None) => true,
            _ => false,
        },
{
    let ghost all = words::texts(families@);
    assert(all.skip(0) =~= all);
    for i in 0..families.len()
        invariant
            all == words::texts(families@),
            named(all, want@) == i + named(all.skip(i as int), want@),
    {
        if same_ignoring_case(families[i].as_str(), want) {
            return Some(families[i].clone());
        }
        assert(all.skip(i as int).drop_first() =~= all.skip(i + 1));
    }
    None
}

/// The face that a request means when its first `n` words are the family.
pub open spec fn reading(families: Seq<Seq<char>>, request: Seq<Seq<char>>, n: int) -> Option<
    Face,
> {
    match spelled(families, words::joined(request.take(n), " "@)) {
        Some(family) => Face::plain(family).dressed(request.skip(n)),
        None => None,
    }
}

/// The face that a request means when at most its first `n` words are the
/// family: the longest reading that makes sense.
pub open spec fn meant(families: Seq<Seq<char>>, request: Seq<Seq<char>>, n: int) -> Option<Face>
    decreases n,
{
    if n <= 0 {
        None
    } else if reading(families, request, n) is Some {
        reading(families, request, n)
    } else {
        meant(families, request, n - 1)
    }
}

/// The face that a request means, among these families.
pub open spec fn resolved(families: Seq<Seq<char>>, request: Seq<char>) -> Option<Face> {
    meant(families, words::words_in(request), words::words_in(request).len() as int)
}

/// Split `request` into the longest leading part that names a family and a
/// style read off the words after it.
///
/// Longest first, so a family whose own name ends in a style word ("Fira Code
/// Light" is a family in its own right) wins over reading that word as a style.
/// A trailing word that is neither a weight nor a width means this reading of
/// the name is wrong, so the search keeps shortening rather than quietly
/// ignoring it.
pub fn split_request(request: &str, families: &[String]) -> (r: Option<Choice>)
    ensures
        face_of(r) == resolved(words::texts(families@), request@),
{
    let parts = split_words(request);
    let ghost all = words::texts(parts@);
    let ghost names = words::texts(families@);
    let mut n = parts.len();
    while n > 0
        invariant
            n <= parts@.len(),
            all == words::texts(parts@),
            all == words::words_in(request@),
            names == words::texts(families@),
            resolved(names, request@) == meant(names, all, n as int),
        decreases n,
    {
        let (head, tail) = (&parts.as_slice()[0..n], &parts.as_slice()[n..parts.len()]);
        assert(words::texts(head@) =~= all.take(n as int));
        assert(words::texts(tail@) =~= all.skip(n as int));
        let name = join(head, " ");
        if let Some(family) = look_up(families, name.as_str()) {
            let mut choice = Choice::plain(family.as_str());
            if read_style(tail, &mut choice) {
                return Some(choice);
            }
        }
        n = n - 1;
    }
    None
}

// --- the font database -----------------------------------------------------
/// A set of fonts, as fontdb holds it.
#[verifier::external_type_specification]
#[verifier::external_body]
pub struct ExDatabase(cosmic_text::fontdb::Database);

/// The names of the families that each face of a font database belongs to, face
/// by face, in the database's own order.
pub uninterp spec fn faces_in(db: cosmic_text::fontdb::Database) -> Seq<Seq<Seq<char>>>;

pub open spec fn rows(s: Seq<Vec<String>>) -> Seq<Seq<Seq<char>>> {
    s.map_values(|v: Vec<String>| words::texts(v@))
}

/// `Database::faces` walks the faces of the database, each of which carries the
/// names of its families with their languages; this hands out the names alone.
/// The walk reads the database and nothing else, so the same database gives the
/// same names in the same order.
#[verifier::external_body]
pub(crate) fn face_families(db: &cosmic_text::fontdb::Database) -> (r: Vec<Vec<String>>)
    ensures
        rows(r@) == faces_in(*db),
{
    db.faces().map(|face| face.families.iter().map(|name| name.0.clone()).collect()).collect()
}

/// Every family name in a database, face after face.
pub open spec fn families_in(db: cosmic_text::fontdb::Database) -> Seq<Seq<char>> {
    words::flat(faces_in(db))
}

pub fn families(db: &cosmic_text::fontdb::Database) -> (r: Vec<String>)
    ensures
        words::texts(r@) == families_in(*db),
{
    let faces = face_families(db);
    let ghost all = rows(faces@);
    let mut out: Vec<String> = Vec::new();
    for i in 0..faces.len()
        invariant
            all == rows(faces@),
            words::texts(out@) == words::flat(all.take(i as int)),
    {
        let ghost before = words::texts(out@);
        let ghost face = words::texts(faces@[i as int]@);
        assert(all.take(i + 1).drop_last() =~= all.take(i as int));
        assert(all.take(i + 1).last() == face);
        let names = &faces[i];
        for k in 0..names.len()
            invariant
                face == words::texts(names@),
                words::texts(out@) == before + face.take(k as int),
        {
            let ghost sofar = words::texts(out@);
            let name = names[k].clone();
            out.push(name);
            assert(words::texts(out@) =~= sofar.push(name@));
            assert(words::texts(out@) =~= before + face.take(k + 1));
        }
        assert(face.take(face.len() as int) =~= face);
    }
    assert(all.take(all.len() as int) =~= all);
    out
}

/// Whether a request is the generic default.
pub open spec fn generic(request: Seq<char>) -> bool {
    words::same_letters(request, SYSTEM_MONO@)
}

pub fn is_generic(family: &str) -> (r: bool)
    ensures
        r == generic(family@),
{
    same_ignoring_case(family, SYSTEM_MONO)
}

/// The database's own spelling of `want`, matched the way fontconfig matches:
/// without caring about case.
pub fn family_named(db: &cosmic_text::fontdb::Database, want: &str) -> (r: Option<String>)
    ensures
        match (r, spelled(families_in(*db), want@)) {
            (Some(a), Some(b)) => a@ == b,
            (None, None) => true,
            _ => false,
        },
{
    look_up(families(db).as_slice(), want)
}

/// What `request` names, as a family the database has plus a style.
pub fn interpret(db: &cosmic_text::fontdb::Database, request: &str) -> (r: Option<Choice>)
    ensures
        face_of(r) == resolved(families_in(*db), request@),
{
    split_request(request, families(db).as_slice())
}

/// Whether rendering `family` takes the system's fonts, beyond those that `db`
/// holds already. A user's own font directories are tiny by comparison, so those
/// are loaded first; the generic default lives among the system's, so it always
/// does, and so does a family that really is not there, which is what makes an
/// unknown one fall back gracefully.
pub fn needs_system_fonts(db: &cosmic_text::fontdb::Database, family: &str) -> (r: bool)
    ensures
        r == (generic(family@) || resolved(families_in(*db), family@) is None),
{
    is_generic(family) || interpret(db, family).is_none()
}

/// Families to try when fontconfig cannot be asked, roughly in order of how
/// likely a distribution is to ship one as its default monospace.
pub open spec fn mono_candidates() -> Seq<Seq<char>> {
    seq![
        "Noto Sans Mono"@,
        "DejaVu Sans Mono"@,
        "Liberation Mono"@,
        "Adwaita Mono"@,
        "Source Code Pro"@,
        "Hack"@,
        "Fira Mono"@,
        "Courier New"@,
    ]
}

fn candidates() -> (r: Vec<String>)
    ensures
        words::texts(r@) == mono_candidates(),
{
    let mut out: Vec<String> = Vec::new();
    out.push("Noto Sans Mono".to_owned());
    out.push("DejaVu Sans Mono".to_owned());
    out.push("Liberation Mono".to_owned());
    out.push("Adwaita Mono".to_owned());
    out.push("Source Code Pro".to_owned());
    out.push("Hack".to_owned());
    out.push("Fira Mono".to_owned());
    out.push("Courier New".to_owned());
    assert(words::texts(out@) =~= mono_candidates());
    out
}

/// The first of these names that is a family, if any is.
pub open spec fn first_installed(families: Seq<Seq<char>>, names: Seq<Seq<char>>) -> Option<
    Seq<char>,
>
    decreases names.len(),
{
    if names.len() == 0 {
        None
    } else if spelled(families, names[0]) is Some {
        Some(names[0])
    } else {
        first_installed(families, names.drop_first())
    }
}

/// What the generic default comes to, among these families, when fontconfig
/// answers that: its answer where that is installed, else the first common
/// family that is, else the generic name itself.
pub open spec fn default_face(families: Seq<Seq<char>>, answer: Option<Seq<char>>) -> Face {
    if answer is Some && spelled(families, answer->Some_0) is Some {
        Face::plain(answer->Some_0)
    } else {
        match first_installed(families, mono_candidates()) {
            Some(name) => Face::plain(name),
            None => Face::plain(SYSTEM_MONO@),
        }
    }
}

/// The generic default, resolved to a real family. A font database's own generic
/// goes through a built-in preference, which is usually absent and then lands on
/// an arbitrary face, so fontconfig is asked instead, since that is what the
/// rest of the desktop uses; `answer` is what it says.
pub fn system_mono(db: &cosmic_text::fontdb::Database, answer: Option<String>) -> (r: Choice)
    ensures
        r@ == default_face(families_in(*db), target::text_of(answer)),
{
    let families = families(db);
    let ghost all = families_in(*db);
    if let Some(name) = &answer {
        if look_up(families.as_slice(), name.as_str()).is_some() {
            return Choice::plain(name.as_str());
        }
    }
    let names = candidates();
    let ghost wanted = words::texts(names@);
    assert(wanted.skip(0) =~= wanted);
    for i in 0..names.len()
        invariant
            all == words::texts(families@),
            wanted == words::texts(names@),
            first_installed(all, wanted) == first_installed(all, wanted.skip(i as int)),
            default_face(all, target::text_of(answer)) == match first_installed(all, wanted) {
                Some(name) => Face::plain(name),
                None => Face::plain(SYSTEM_MONO@),
            },
            all == families_in(*db),
    {
        assert(wanted.skip(i as int)[0] == names@[i as int]@);
        if look_up(families.as_slice(), names[i].as_str()).is_some() {
            return Choice::plain(names[i].as_str());
        }
        assert(wanted.skip(i as int).drop_first() =~= wanted.skip(i + 1));
    }
    Choice::plain(SYSTEM_MONO)
}

/// What fontconfig says "monospace" means, out of what it printed: it can answer
/// with several comma-separated aliases for one face.
pub open spec fn first_alias(printed: Seq<char>) -> Option<Seq<char>> {
    let first = words::trimmed(printed.take(words::find(printed, ',')));
    if first.len() == 0 {
        None
    } else {
        Some(first)
    }
}

pub fn first_family(printed: &str) -> (r: Option<String>)
    ensures
        target::text_of(r) == first_alias(printed@),
{
    let all = chars_of(printed);
    let end = find_char(all.as_slice(), ',');
    let head = &all.as_slice()[0..end];
    assert(head@ =~= printed@.take(end as int));
    let first = trim(head);
    if first.len() == 0 {
        None
    } else {
        Some(string_of(first))
    }
}

/// What to complain about when a request names nothing.
pub open spec fn complaint(request: Seq<char>, family: Seq<char>) -> Seq<char> {
    "wl-pick: no font matching "@ + words::quoted(request) + ", using "@ + words::quoted(family)
        + "; `fc-match -f '%{family}\\n' "@ + words::quoted(request) + "` names the family"@
}

/// What to shape the labels with, given what was asked for, and what to complain
/// about. `fontconfig` asks fontconfig what "monospace" means, where that
/// matters.
///
/// A request that names nothing at all is worth complaining about: silently
/// drawing in some other font looks like the setting was ignored, which is
/// exactly how it reads from the outside.
pub fn choose_font<F: FnOnce() -> Option<String>>(
    db: &cosmic_text::fontdb::Database,
    request: &str,
    fontconfig: F,
) -> (r: (Choice, Option<String>))
    requires
        fontconfig.requires(()),
    ensures
        ({
            let known = resolved(families_in(*db), request@);
            if !generic(request@) && known is Some {
                r.0@ == known->Some_0 && r.1 is None
            } else {
                &&& exists|answer: Option<String>|
                    fontconfig.ensures((), answer) && r.0@ == default_face(
                        families_in(*db),
                        target::text_of(answer),
                    )
                &&& target::text_of(r.1) == if generic(request@) {
                    None
                } else {
                    Some(complaint(request@, r.0@.family))
                }
            }
        }),
{
    let generic = is_generic(request);
    if !generic {
        if let Some(choice) = interpret(db, request) {
            return (choice, None);
        }
    }
    let answer = fontconfig();
    let choice = system_mono(db, answer);
    if generic {
        return (choice, None);
    }
    let asked = quote(request);
    let mut message = "wl-pick: no font matching ".to_owned();
    message.append(asked.as_str());
    message.append(", using ");
    message.append(quote(choice.family.as_str()).as_str());
    message.append("; `fc-match -f '%{family}\\n' ");
    message.append(asked.as_str());
    message.append("` names the family");
    (choice, Some(message))
}

// --- shortening ------------------------------------------------------------
/// How many shorter texts are measured. Bounded, because a pathological title
/// should not cost hundreds of reshapes.
pub const TRIES: u32 = 12;

/// How many characters are kept at the `t`th try, of a text of `len` of them, on
/// that first guess: each keeps a tenth less than the one before, and at least
/// one less. When the tries run out, nothing is kept.
pub open spec fn kept(len: int, guess: int, t: int) -> int
    decreases t,
{
    let most = if len == 0 {
        0
    } else {
        len - 1
    };
    if t <= 0 {
        if guess < most {
            guess
        } else {
            most
        }
    } else if t >= TRIES {
        0
    } else {
        let before = kept(len, guess, t - 1);
        if before == 0 {
            0
        } else if before * 9 / 10 < before - 1 {
            before * 9 / 10
        } else {
            before - 1
        }
    }
}

/// The `t`th try: the beginning of the text, and an ellipsis.
pub open spec fn cut(text: Seq<char>, guess: int, t: int) -> Seq<char> {
    text.take(kept(text.len() as int, guess, t)).push('\u{2026}')
}

proof fn lemma_kept(len: int, guess: int, t: int)
    requires
        len >= 0,
        guess >= 0,
    ensures
        0 <= kept(len, guess, t) <= len,
        len > 0 ==> kept(len, guess, t) < len,
    decreases t,
{
    if t > 0 {
        lemma_kept(len, guess, t - 1);
    }
}

/// That `fits` may say that of a text.
pub open spec fn says_fit<F: Fn(&str) -> bool>(fits: F, text: Seq<char>, answer: bool) -> bool {
    exists|s: &str| #[trigger] fits.ensures((s,), answer) && s@ == text
}

/// That the `t`th try was too long: something was left to drop, and `fits` said
/// that it does not.
pub open spec fn too_long<F: Fn(&str) -> bool>(
    fits: F,
    text: Seq<char>,
    guess: int,
    t: int,
) -> bool {
    kept(text.len() as int, guess, t) > 0 && says_fit(fits, cut(text, guess, t), false)
}

/// That the search ends at the `t`th try: it fits, or nothing is left to drop;
/// and every one before was too long.
pub open spec fn ends_at<F: Fn(&str) -> bool>(
    fits: F,
    text: Seq<char>,
    guess: int,
    t: int,
) -> bool {
    &&& 0 <= t <= TRIES
    &&& kept(text.len() as int, guess, t) == 0 || says_fit(fits, cut(text, guess, t), true)
    &&& forall|u: int| 0 <= u < t ==> #[trigger] too_long(fits, text, guess, u)
}

/// Shorten `text` until it fits, ending with an ellipsis: window titles are
/// arbitrarily long. `whole` says whether all of it does, `guess` how many of
/// its characters might, and `fits` whether a shorter one does. Whatever comes
/// of it fits, unless it is the ellipsis alone.
///
/// Proportional first guess, then shrink geometrically.
pub fn ellipsize<F: Fn(&str) -> bool>(text: &str, whole: bool, guess: usize, fits: F) -> (r: String)
    requires
        forall|s: &str| #[trigger] fits.requires((s,)),
    ensures
        whole ==> r@ == text@,
        !whole ==> exists|t: int| #[trigger]
            ends_at(fits, text@, guess as int, t) && r@ == cut(text@, guess as int, t),
        !whole ==> r@ == seq!['\u{2026}'] || says_fit(fits, r@, true),
{
    if whole {
        return text.to_owned();
    }
    let chars = chars_of(text);
    let ghost len = text@.len() as int;
    let most: usize = if chars.len() == 0 {
        0
    } else {
        chars.len() - 1
    };
    let mut keep: usize = if guess < most {
        guess
    } else {
        most
    };
    let mut t: u32 = 0;
    while t < TRIES
        invariant
            !whole,
            chars@ == text@,
            len == text@.len(),
            t <= TRIES,
            t < TRIES ==> keep == kept(len, guess as int, t as int),
            forall|s: &str| #[trigger] fits.requires((s,)),
            forall|u: int| 0 <= u < t ==> #[trigger] too_long(fits, text@, guess as int, u),
        decreases TRIES - t,
    {
        proof {
            lemma_kept(len, guess as int, t as int);
        }
        let out = shortened(chars.as_slice(), keep);
        assert(out@ == cut(text@, guess as int, t as int));
        if keep == 0 {
            assert(ends_at(fits, text@, guess as int, t as int));
            assert(out@ =~= seq!['\u{2026}']);
            return out;
        }
        let shown = out.as_str();
        let answer = fits(shown);
        assert(fits.ensures((shown,), answer));
        assert(says_fit(fits, out@, answer));
        if answer {
            assert(ends_at(fits, text@, guess as int, t as int));
            return out;
        }
        assert(too_long(fits, text@, guess as int, t as int));
        let tenth: usize = (keep as u128 * 9 / 10) as usize;
        keep = if tenth < keep - 1 {
            tenth
        } else {
            keep - 1
        };
        t = t + 1;
    }
    let out = shortened(chars.as_slice(), 0);
    assert(out@ =~= seq!['\u{2026}']);
    assert(ends_at(fits, text@, guess as int, t as int));
    out
}

/// The first `keep` characters, and an ellipsis.
fn shortened(chars: &[char], keep: usize) -> (r: String)
    requires
        keep <= chars@.len(),
    ensures
        r@ == chars@.take(keep as int).push('\u{2026}'),
{
    let head = &chars[0..keep];
    assert(head@ =~= chars@.take(keep as int));
    let mut out = string_of(head);
    out.push('\u{2026}');
    out
}

// --- what holds of every request -------------------------------------------
/// The longest reading that makes sense wins: whatever a request comes to is one
/// of its readings, and none that takes more words for the family makes sense.
pub proof fn law_the_longest_reading_wins(
    families: Seq<Seq<char>>,
    request: Seq<Seq<char>>,
    n: int,
    k: int,
)
    requires
        0 < k <= n <= request.len(),
        reading(families, request, k) is Some,
    ensures
        exists|j: int|
            k <= j <= n && meant(families, request, n) == #[trigger] reading(families, request, j)
                && reading(families, request, j) is Some && forall|i: int|
                j < i <= n ==> #[trigger] reading(families, request, i) is None,
    decreases n,
{
    if reading(families, request, n) is None {
        law_the_longest_reading_wins(families, request, n - 1, k);
    }
}

/// A family that is named in full is taken as it is, whatever style words its
/// name ends in.
pub proof fn law_a_family_in_full_wins(families: Seq<Seq<char>>, request: Seq<char>)
    requires
        words::words_in(request).len() > 0,
        spelled(families, words::joined(words::words_in(request), " "@)) is Some,
    ensures
        resolved(families, request) == Some(
            Face::plain(spelled(families, words::joined(words::words_in(request), " "@))->Some_0),
        ),
{
    let all = words::words_in(request);
    assert(all.take(all.len() as int) =~= all);
    assert(all.skip(all.len() as int).len() == 0);
}

/// The case of a family's name does not matter, and the face keeps the spelling
/// that the database has.
pub proof fn law_case_does_not_matter(families: Seq<Seq<char>>, a: Seq<char>, b: Seq<char>)
    requires
        words::same_letters(a, b),
    ensures
        spelled(families, a) == spelled(families, b),
        spelled(families, a) matches Some(name) ==> families.contains(name) && words::same_letters(
            name,
            a,
        ),
{
    lemma_same_place(families, a, b);
    lemma_named(families, a);
}

/// Names that differ in case alone are found in the same place.
proof fn lemma_same_place(families: Seq<Seq<char>>, a: Seq<char>, b: Seq<char>)
    requires
        words::same_letters(a, b),
    ensures
        named(families, a) == named(families, b),
    decreases families.len(),
{
    if families.len() > 0 {
        let f = families[0];
        if words::same_letters(f, a) {
            assert forall|i: int| 0 <= i < f.len() implies words::lowered(#[trigger] f[i])
                == words::lowered(b[i]) by {
                assert(words::lowered(a[i]) == words::lowered(b[i]));
            }
        }
        if words::same_letters(f, b) {
            assert forall|i: int| 0 <= i < f.len() implies words::lowered(#[trigger] f[i])
                == words::lowered(a[i]) by {
                assert(words::lowered(a[i]) == words::lowered(b[i]));
            }
        }
        lemma_same_place(families.drop_first(), a, b);
    }
}

proof fn lemma_named(families: Seq<Seq<char>>, want: Seq<char>)
    ensures
        0 <= named(families, want) <= families.len(),
        named(families, want) < families.len() ==> words::same_letters(
            families[named(families, want)],
            want,
        ),
    decreases families.len(),
{
    if families.len() > 0 && !words::same_letters(families[0], want) {
        lemma_named(families.drop_first(), want);
    }
}

/// The generic default comes to a family that is installed, whenever fontconfig
/// names one or one of the common families is.
pub proof fn law_the_default_is_a_real_family(
    families: Seq<Seq<char>>,
    answer: Option<Seq<char>>,
)
    requires
        answer is Some && spelled(families, answer->Some_0) is Some || first_installed(
            families,
            mono_candidates(),
        ) is Some,
    ensures
        spelled(families, default_face(families, answer).family) is Some,
{
    lemma_first_installed(families, mono_candidates());
}

proof fn lemma_first_installed(families: Seq<Seq<char>>, names: Seq<Seq<char>>)
    ensures
        first_installed(families, names) matches Some(name) ==> spelled(families, name) is Some,
    decreases names.len(),
{
    if names.len() > 0 {
        lemma_first_installed(families, names.drop_first());
    }
}

/// A shortened text is no longer than the text, starts as it does, and ends with
/// an ellipsis; and each try is shorter than the one before, until nothing is
/// left.
pub proof fn law_shortening_shortens(text: Seq<char>, guess: int, t: int)
    requires
        text.len() > 0,
        guess >= 0,
        t >= 0,
    ensures
        ({
            let r = cut(text, guess, t);
            &&& 1 <= r.len() <= text.len()
            &&& r.drop_last() == text.take(r.len() - 1)
            &&& r.last() == '\u{2026}'
            &&& r.len() > 1 ==> cut(text, guess, t + 1).len() < r.len()
        }),
{
    lemma_kept(text.len() as int, guess, t);
    lemma_kept(text.len() as int, guess, t + 1);
    assert(cut(text, guess, t).drop_last() =~= text.take(kept(text.len() as int, guess, t)));
}

/// Of a style word only letters and digits count, in lower case, and in their
/// order: a space, a hyphen or a capital changes nothing.
pub proof fn law_only_letters_and_digits_count(s: Seq<char>, c: char)
    ensures
        normalised(Seq::empty()).len() == 0,
        '0' <= c <= '9' || 'a' <= c <= 'z' ==> normalised(s.push(c)) == normalised(s).push(c),
        'A' <= c <= 'Z' ==> normalised(s.push(c)) == normalised(s).push((c as u32 + 32) as char),
        !('0' <= c <= '9' || 'a' <= c <= 'z' || 'A' <= c <= 'Z') ==> normalised(s.push(c))
            == normalised(s),
{
    assert(s.push(c).drop_last() =~= s);
}

/// Which weight each word means, and that no other word means one.
pub proof fn law_weights_have_their_words(word: Seq<char>)
    ensures
        weight_of(word) is Some ==> word == "thin"@ || word == "hairline"@ || word == "extralight"@
            || word == "ultralight"@ || word == "light"@ || word == "regular"@ || word == "normal"@
            || word == "book"@ || word == "medium"@ || word == "semibold"@ || word == "demibold"@
            || word == "bold"@ || word == "extrabold"@ || word == "ultrabold"@ || word == "black"@
            || word == "heavy"@,
        weight_of("thin"@) == Some(Weight::Thin) && weight_of("hairline"@) == Some(Weight::Thin),
        weight_of("extralight"@) == Some(Weight::ExtraLight) && weight_of("ultralight"@) == Some(
            Weight::ExtraLight,
        ),
        weight_of("light"@) == Some(Weight::Light),
        weight_of("regular"@) == Some(Weight::Normal) && weight_of("normal"@) == Some(
            Weight::Normal,
        ) && weight_of("book"@) == Some(Weight::Normal),
        weight_of("medium"@) == Some(Weight::Medium),
        weight_of("semibold"@) == Some(Weight::SemiBold) && weight_of("demibold"@) == Some(
            Weight::SemiBold,
        ),
        weight_of("bold"@) == Some(Weight::Bold),
        weight_of("extrabold"@) == Some(Weight::ExtraBold) && weight_of("ultrabold"@) == Some(
            Weight::ExtraBold,
        ),
        weight_of("black"@) == Some(Weight::Black) && weight_of("heavy"@) == Some(Weight::Black),
{
    reveal_strlit("thin");
    reveal_strlit("hairline");
    reveal_strlit("extralight");
    reveal_strlit("ultralight");
    reveal_strlit("light");
    reveal_strlit("regular");
    reveal_strlit("normal");
    reveal_strlit("book");
    reveal_strlit("medium");
    reveal_strlit("semibold");
    reveal_strlit("demibold");
    reveal_strlit("bold");
    reveal_strlit("extrabold");
    reveal_strlit("ultrabold");
    reveal_strlit("black");
    reveal_strlit("heavy");
    // By length, and by the first letter or the fifth among those of one length.
    assert("thin"@.len() == 4 && "book"@.len() == 4 && "bold"@.len() == 4);
    assert("thin"@[0] == 't' && "book"@[2] == 'o' && "bold"@[2] == 'l' && "book"@[0] == 'b'
        && "bold"@[0] == 'b');
    assert("light"@.len() == 5 && "black"@.len() == 5 && "heavy"@.len() == 5);
    assert("light"@[0] == 'l' && "black"@[0] == 'b' && "heavy"@[0] == 'h');
    assert("normal"@.len() == 6 && "medium"@.len() == 6);
    assert("normal"@[0] == 'n' && "medium"@[0] == 'm');
    assert("regular"@.len() == 7);
    assert("hairline"@.len() == 8 && "semibold"@.len() == 8 && "demibold"@.len() == 8);
    assert("hairline"@[0] == 'h' && "semibold"@[0] == 's' && "demibold"@[0] == 'd');
    assert("extrabold"@.len() == 9 && "ultrabold"@.len() == 9);
    assert("extralight"@.len() == 10 && "ultralight"@.len() == 10);
}

/// Which width each word means, and that no other word means one.
pub proof fn law_widths_have_their_words(word: Seq<char>)
    ensures
        stretch_of(word) is Some ==> word == "ultracondensed"@ || word == "extracondensed"@ || word
            == "condensed"@ || word == "semicondensed"@ || word == "semiexpanded"@ || word
            == "expanded"@ || word == "extraexpanded"@ || word == "ultraexpanded"@,
        stretch_of("ultracondensed"@) == Some(Stretch::UltraCondensed),
        stretch_of("extracondensed"@) == Some(Stretch::ExtraCondensed),
        stretch_of("condensed"@) == Some(Stretch::Condensed),
        stretch_of("semicondensed"@) == Some(Stretch::SemiCondensed),
        stretch_of("semiexpanded"@) == Some(Stretch::SemiExpanded),
        stretch_of("expanded"@) == Some(Stretch::Expanded),
        stretch_of("extraexpanded"@) == Some(Stretch::ExtraExpanded),
        stretch_of("ultraexpanded"@) == Some(Stretch::UltraExpanded),
{
    reveal_strlit("ultracondensed");
    reveal_strlit("extracondensed");
    reveal_strlit("condensed");
    reveal_strlit("semicondensed");
    reveal_strlit("semiexpanded");
    reveal_strlit("expanded");
    reveal_strlit("extraexpanded");
    reveal_strlit("ultraexpanded");
    assert("ultracondensed"@.len() == 14 && "extracondensed"@.len() == 14);
    assert("ultracondensed"@[0] == 'u' && "extracondensed"@[0] == 'e');
    assert("condensed"@.len() == 9 && "expanded"@.len() == 8 && "semiexpanded"@.len() == 12);
    assert("semicondensed"@.len() == 13 && "extraexpanded"@.len() == 13 && "ultraexpanded"@.len()
        == 13);
    assert("semicondensed"@[0] == 's' && "extraexpanded"@[0] == 'e' && "ultraexpanded"@[0] == 'u');
}

/// What each weight and each width is called.
pub proof fn law_styles_are_called_by_their_names(weight: Weight, stretch: Stretch)
    ensures
        weight is Thin ==> weight_word(weight) == "Thin"@,
        weight is ExtraLight ==> weight_word(weight) == "ExtraLight"@,
        weight is Light ==> weight_word(weight) == "Light"@,
        weight is Normal ==> weight_word(weight) == "Regular"@,
        weight is Medium ==> weight_word(weight) == "Medium"@,
        weight is SemiBold ==> weight_word(weight) == "SemiBold"@,
        weight is Bold ==> weight_word(weight) == "Bold"@,
        weight is ExtraBold ==> weight_word(weight) == "ExtraBold"@,
        weight is Black ==> weight_word(weight) == "Black"@,
        stretch is UltraCondensed ==> stretch_word(stretch) == "UltraCondensed"@,
        stretch is ExtraCondensed ==> stretch_word(stretch) == "ExtraCondensed"@,
        stretch is Condensed ==> stretch_word(stretch) == "Condensed"@,
        stretch is SemiCondensed ==> stretch_word(stretch) == "SemiCondensed"@,
        stretch is Normal ==> stretch_word(stretch) == "Normal"@,
        stretch is SemiExpanded ==> stretch_word(stretch) == "SemiExpanded"@,
        stretch is Expanded ==> stretch_word(stretch) == "Expanded"@,
        stretch is ExtraExpanded ==> stretch_word(stretch) == "ExtraExpanded"@,
        stretch is UltraExpanded ==> stretch_word(stretch) == "UltraExpanded"@,
{
}

/// A style word sets the weight or the width it names and leaves the family and
/// the other as they were; a word that is neither is no style.
pub proof fn law_a_style_word_sets_one_thing(face: Face, word: Seq<char>)
    ensures
        weight_of(normalised(word)) matches Some(w) ==> face.styled(word) == Some(
            Face { weight: w, ..face },
        ),
        weight_of(normalised(word)) is None ==> (stretch_of(normalised(word)) matches Some(s)
            ==> face.styled(word) == Some(Face { stretch: s, ..face })),
        weight_of(normalised(word)) is None && stretch_of(normalised(word)) is None
            ==> face.styled(word) is None,
{
}

/// Style words are read from left to right, two at a time where two make one
/// style, and a word that is no style spoils them all.
pub proof fn law_a_style_is_read_in_order(
    face: Face,
    a: Seq<char>,
    b: Seq<char>,
    rest: Seq<Seq<char>>,
)
    ensures
        face.dressed(Seq::empty()) == Some(face),
        face.styled(a + b) matches Some(f) ==> face.dressed(seq![a, b] + rest) == f.dressed(rest),
        face.styled(a + b) is None ==> (face.styled(a) matches Some(f) ==> face.dressed(
            seq![a, b] + rest,
        ) == f.dressed(seq![b] + rest)),
        face.styled(a + b) is None && face.styled(a) is None ==> face.dressed(seq![a, b] + rest)
            is None,
        face.dressed(seq![a]) == face.styled(a),
{
    let s = seq![a, b] + rest;
    assert(s[0] == a && s[1] == b);
    assert(s.skip(2) =~= rest);
    assert(s.skip(1) =~= seq![b] + rest);
    assert(seq![a].skip(1) =~= Seq::empty());
    reveal_with_fuel(Face::dressed, 2);
}

/// A plain face is its family's, neither heavy nor light, wide nor narrow; and is
/// described by its family alone.
pub proof fn law_a_plain_face_is_its_family(family: Seq<char>)
    ensures
        Face::plain(family).family == family,
        Face::plain(family).weight is Normal,
        Face::plain(family).stretch is Normal,
        Face::plain(family).description() == family,
{
    assert(Face::plain(family).description() =~= family);
}

/// A face is described by its family, then its weight, then its width, each
/// after a space and left out where it is the normal one.
pub proof fn law_a_description_names_the_style(face: Face)
    ensures
        face.weight is Normal && !(face.stretch is Normal) ==> face.description() == face.family
            + seq![' '] + stretch_word(face.stretch),
        !(face.weight is Normal) && face.stretch is Normal ==> face.description() == face.family
            + seq![' '] + weight_word(face.weight),
        !(face.weight is Normal) && !(face.stretch is Normal) ==> face.description() == face.family
            + seq![' '] + weight_word(face.weight) + seq![' '] + stretch_word(face.stretch),
{
    let (w, s) = (weight_word(face.weight), stretch_word(face.stretch));
    if !(face.weight is Normal) && face.stretch is Normal {
        assert(face.description() =~= face.family + seq![' '] + w);
    } else if face.weight is Normal && !(face.stretch is Normal) {
        assert(face.description() =~= face.family + seq![' '] + s);
    } else if !(face.weight is Normal) {
        assert(face.description() =~= face.family + seq![' '] + w + seq![' '] + s);
    }
}

/// A family is found whatever the case of its name, the first of the list that
/// has it, in the list's own spelling; and no other is.
pub proof fn law_the_first_family_of_a_name_is_found(
    families: Seq<Seq<char>>,
    want: Seq<char>,
    i: int,
)
    requires
        0 <= i < families.len(),
        words::same_letters(families[i], want),
        forall|j: int| 0 <= j < i ==> !words::same_letters(#[trigger] families[j], want),
    ensures
        spelled(families, want) == Some(families[i]),
    decreases families.len(),
{
    if i > 0 {
        assert(!words::same_letters(families[0], want));
        let t = families.drop_first();
        assert forall|j: int| 0 <= j < i - 1 implies !words::same_letters(#[trigger] t[j], want) by {
            assert(t[j] == families[j + 1]);
        }
        law_the_first_family_of_a_name_is_found(t, want, i - 1);
        lemma_named(t, want);
    }
}

/// A family that is not in the list is not found.
pub proof fn law_no_other_family_is_found(families: Seq<Seq<char>>, want: Seq<char>)
    requires
        forall|j: int|
            0 <= j < families.len() ==> !words::same_letters(#[trigger] families[j], want),
    ensures
        spelled(families, want) is None,
{
    lemma_named(families, want);
    let i = named(families, want);
    if i < families.len() {
        assert(words::same_letters(families[i], want));
    }
}

/// A reading of a request is a family by its first words, styled by the rest.
pub proof fn law_a_reading_is_a_family_and_a_style(
    families: Seq<Seq<char>>,
    request: Seq<Seq<char>>,
    n: int,
)
    ensures
        spelled(families, words::joined(request.take(n), " "@)) matches Some(f) ==> reading(
            families,
            request,
            n,
        ) == Face::plain(f).dressed(request.skip(n)),
        spelled(families, words::joined(request.take(n), " "@)) is None ==> reading(
            families,
            request,
            n,
        ) is None,
{
}

/// A request means the reading with the most words for the family that makes
/// sense, and nothing where none does.
pub proof fn law_a_request_means_its_longest_reading(
    families: Seq<Seq<char>>,
    request: Seq<char>,
    n: int,
)
    requires
        0 < n <= words::words_in(request).len(),
        reading(families, words::words_in(request), n) is Some,
        forall|i: int|
            n < i <= words::words_in(request).len() ==> #[trigger] reading(
                families,
                words::words_in(request),
                i,
            ) is None,
    ensures
        resolved(families, request) == reading(families, words::words_in(request), n),
{
    let all = words::words_in(request);
    lemma_meant(families, all, all.len() as int, n);
}

proof fn lemma_meant(families: Seq<Seq<char>>, request: Seq<Seq<char>>, n: int, k: int)
    requires
        0 < k <= n <= request.len(),
        reading(families, request, k) is Some,
        forall|i: int| k < i <= n ==> #[trigger] reading(families, request, i) is None,
    ensures
        meant(families, request, n) == reading(families, request, k),
    decreases n,
{
    if n > k {
        assert(reading(families, request, n) is None);
        lemma_meant(families, request, n - 1, k);
    }
}

/// A request none of whose readings makes sense means nothing.
pub proof fn law_a_request_may_mean_nothing(
    families: Seq<Seq<char>>,
    request: Seq<Seq<char>>,
    n: int,
)
    requires
        forall|i: int| 0 < i <= n ==> #[trigger] reading(families, request, i) is None,
    ensures
        meant(families, request, n) is None,
    decreases n,
{
    if n > 0 {
        assert(reading(families, request, n) is None);
        law_a_request_may_mean_nothing(families, request, n - 1);
    }
}

/// The generic name is the generic name in any case, and no other name is.
pub proof fn law_monospace_is_generic(request: Seq<char>)
    ensures
        generic(request) <==> words::same_letters(request, "monospace"@),
{
}

/// The default is what fontconfig answers, where that is installed; else the
/// first common family that is; else the generic name; and always a plain face.
pub proof fn law_the_default_follows_fontconfig(
    families: Seq<Seq<char>>,
    answer: Option<Seq<char>>,
    i: int,
)
    ensures
        answer is Some && spelled(families, answer->Some_0) is Some ==> default_face(
            families,
            answer,
        ) == Face::plain(answer->Some_0),
        (answer is None || spelled(families, answer->Some_0) is None) && 0 <= i
            < mono_candidates().len() && spelled(families, mono_candidates()[i]) is Some && (
        forall|j: int| 0 <= j < i ==> spelled(families, #[trigger] mono_candidates()[j]) is None)
            ==> default_face(families, answer) == Face::plain(mono_candidates()[i]),
        (answer is None || spelled(families, answer->Some_0) is None) && (forall|j: int|
            0 <= j < mono_candidates().len() ==> spelled(families, #[trigger] mono_candidates()[j])
                is None) ==> default_face(families, answer) == Face::plain("monospace"@),
{
    let names = mono_candidates();
    if 0 <= i < names.len() && spelled(families, names[i]) is Some && (forall|j: int|
        0 <= j < i ==> spelled(families, #[trigger] names[j]) is None) {
        lemma_the_first_installed(families, names, i);
    }
    if forall|j: int| 0 <= j < names.len() ==> spelled(families, #[trigger] names[j]) is None {
        lemma_none_installed(families, names);
    }
}

proof fn lemma_the_first_installed(families: Seq<Seq<char>>, names: Seq<Seq<char>>, i: int)
    requires
        0 <= i < names.len(),
        spelled(families, names[i]) is Some,
        forall|j: int| 0 <= j < i ==> spelled(families, #[trigger] names[j]) is None,
    ensures
        first_installed(families, names) == Some(names[i]),
    decreases names.len(),
{
    if i > 0 {
        assert(spelled(families, names[0]) is None);
        let t = names.drop_first();
        assert forall|j: int| 0 <= j < i - 1 implies spelled(families, #[trigger] t[j]) is None by {
            assert(t[j] == names[j + 1]);
        }
        lemma_the_first_installed(families, t, i - 1);
    }
}

proof fn lemma_none_installed(families: Seq<Seq<char>>, names: Seq<Seq<char>>)
    requires
        forall|j: int| 0 <= j < names.len() ==> spelled(families, #[trigger] names[j]) is None,
    ensures
        first_installed(families, names) is None,
    decreases names.len(),
{
    if names.len() > 0 {
        assert(spelled(families, names[0]) is None);
        let t = names.drop_first();
        assert forall|j: int| 0 <= j < t.len() implies spelled(families, #[trigger] t[j]) is None by {
            assert(t[j] == names[j + 1]);
        }
        lemma_none_installed(families, t);
    }
}

/// The families that are tried in turn, the likeliest first.
pub proof fn law_common_families_are_tried_in_turn(families: Seq<Seq<char>>)
    ensures
        mono_candidates().len() == 8,
        mono_candidates()[0] == "Noto Sans Mono"@,
        mono_candidates()[1] == "DejaVu Sans Mono"@,
        mono_candidates()[2] == "Liberation Mono"@,
        mono_candidates()[3] == "Adwaita Mono"@,
        mono_candidates()[4] == "Source Code Pro"@,
        mono_candidates()[5] == "Hack"@,
        mono_candidates()[6] == "Fira Mono"@,
        mono_candidates()[7] == "Courier New"@,
{
}

/// Of the aliases that fontconfig prints the first is taken, without the
/// whitespace round it; where nothing stands there, none is.
pub proof fn law_the_first_alias_is_taken(first: Seq<char>, rest: Seq<char>)
    requires
        !first.contains(','),
    ensures
        words::trimmed(first).len() > 0 ==> first_alias(first) == Some(words::trimmed(first))
            && first_alias(first + seq![','] + rest) == Some(words::trimmed(first)),
        words::trimmed(first).len() == 0 ==> first_alias(first) is None && first_alias(
            first + seq![','] + rest,
        ) is None,
{
    let all = first + seq![','] + rest;
    words::law_the_first_character_is_found(first, ',');
    words::law_the_first_character_is_found(all, ',');
    assert(all[first.len() as int] == ',');
    assert(all.contains(','));
    let i = words::find(all, ',');
    if i < first.len() {
        assert(first[i] == ',');
        assert(first.contains(','));
    }
    assert(all.take(i) =~= first);
    assert(first.take(first.len() as int) =~= first);
}

/// The first try keeps as much as was guessed, and never all; each later one at
/// most nine tenths of the one before; and after the last nothing is kept.
pub proof fn law_each_try_keeps_a_tenth_less(len: int, guess: int, t: int)
    requires
        len >= 0,
        guess >= 0,
        t >= 0,
    ensures
        guess < len ==> kept(len, guess, 0) == guess,
        guess >= len && len > 0 ==> kept(len, guess, 0) == len - 1,
        len == 0 ==> kept(len, guess, 0) == 0,
        t < 11 ==> ({
            let (now, next) = (kept(len, guess, t), kept(len, guess, t + 1));
            &&& 10 * next <= 9 * now
            &&& next > 0 ==> 10 * next > 9 * now - 10 || next == now - 1
        }),
        t >= 12 ==> kept(len, guess, t) == 0,
        TRIES == 12,
{
    lemma_kept(len, guess, t);
}

/// What is said of a request that names nothing: what was asked for, what is
/// used, and how to find the right name.
pub proof fn law_a_complaint_says_what_is_used(request: Seq<char>, family: Seq<char>)
    ensures
        complaint(request, family) == "wl-pick: no font matching "@ + words::quoted(request)
            + ", using "@ + words::quoted(family) + "; `fc-match -f '%{family}\\n' "@
            + words::quoted(request) + "` names the family"@,
{
}

/// What a choice shows is what it holds.
pub proof fn law_a_choice_shows_what_it_holds(c: Choice)
    ensures
        c@.family == c.family@,
        c@.weight == c.weight,
        c@.stretch == c.stretch,
{
}

} // verus!
