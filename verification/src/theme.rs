//! Theme configuration: colors written as names or `#rrggbb`, styles that name them,
//! and a palette of named colors that may refer to one another.

use vstd::prelude::*;
use vstd::utf8::{encode_utf8, is_char_boundary};
use crate::ranking::{lowercase, to_lower};
use crate::text::{append_str, chars_of, owned, str_chars_eq};
use crate::keyed::{has_key, keyed_get, keyed_insert, keyed_map, sorted_keys};

verus! {

/// A terminal color.
#[derive(Clone, Copy, Debug, PartialEq, Eq, Structural)]
pub enum Color {
    Black,
    DarkGrey,
    Red,
    DarkRed,
    Green,
    DarkGreen,
    Yellow,
    DarkYellow,
    Blue,
    DarkBlue,
    Magenta,
    DarkMagenta,
    Cyan,
    DarkCyan,
    White,
    Grey,
    Rgb { r: u8, g: u8, b: u8 },
}

/// Why a theme could not be read.
#[derive(Debug)]
pub enum ThemeError {
    InvalidColor(String),
    UnknownAttribute(String),
    UnresolvedPaletteReference(String),
    CyclicPaletteReference(String),
}

impl ThemeError {
    /// The error as it is shown to the user.
    pub fn message(&self) -> (m: String)
        ensures
            m@ == match self {
                ThemeError::InvalidColor(c) => "invalid color value: '"@ + c@ + "'"@,
                ThemeError::UnknownAttribute(a) => "unknown attribute: '"@ + a@ + "'"@,
                ThemeError::UnresolvedPaletteReference(r) => "unresolved palette reference: '"@ + r@ + "'"@,
                ThemeError::CyclicPaletteReference(r) => "cyclic palette reference involving: '"@ + r@
                    + "'"@,
            },
    {
        let (mut m, x) = match self {
            ThemeError::InvalidColor(c) => (owned("invalid color value: '"), c),
            ThemeError::UnknownAttribute(a) => (owned("unknown attribute: '"), a),
            ThemeError::UnresolvedPaletteReference(r) => (owned("unresolved palette reference: '"), r),
            ThemeError::CyclicPaletteReference(r) => (owned("cyclic palette reference involving: '"), r),
        };
        append_str(&mut m, x.as_str());
        append_str(&mut m, "'");
        m
    }
}

/// The color a (lowercase) color name stands for.
pub open spec fn named_color(v: Seq<char>) -> Option<Color> {
    if v == "black"@ {
        Some(Color::Black)
    } else if v == "darkgrey"@ {
        Some(Color::DarkGrey)
    } else if v == "red"@ {
        Some(Color::Red)
    } else if v == "darkred"@ {
        Some(Color::DarkRed)
    } else if v == "green"@ {
        Some(Color::Green)
    } else if v == "darkgreen"@ {
        Some(Color::DarkGreen)
    } else if v == "yellow"@ {
        Some(Color::Yellow)
    } else if v == "darkyellow"@ {
        Some(Color::DarkYellow)
    } else if v == "blue"@ {
        Some(Color::Blue)
    } else if v == "darkblue"@ {
        Some(Color::DarkBlue)
    } else if v == "magenta"@ {
        Some(Color::Magenta)
    } else if v == "darkmagenta"@ {
        Some(Color::DarkMagenta)
    } else if v == "cyan"@ {
        Some(Color::Cyan)
    } else if v == "darkcyan"@ {
        Some(Color::DarkCyan)
    } else if v == "white"@ {
        Some(Color::White)
    } else if v == "grey"@ {
        Some(Color::Grey)
    } else {
        None
    }
}

/// The value of a hexadecimal digit byte.
pub open spec fn hex_digit(b: u8) -> Option<u8> {
    if 0x30 <= b <= 0x39 {
        Some((b - 0x30) as u8)
    } else if 0x61 <= b <= 0x66 {
        Some((b - 0x61 + 10) as u8)
    } else if 0x41 <= b <= 0x46 {
        Some((b - 0x41 + 10) as u8)
    } else {
        None
    }
}

/// What `u8::from_str_radix(_, 16)` makes of the two bytes `a b`: two hex digits, or
/// a `+` sign and one.
pub open spec fn hex_pair(a: u8, b: u8) -> Option<u8> {
    if a == 0x2B {
        hex_digit(b)
    } else {
        match (hex_digit(a), hex_digit(b)) {
            (Some(x), Some(y)) => Some((16 * x + y) as u8),
            _ => None,
        }
    }
}

/// `v` has the shape of a `#rrggbb` color: a `#` and seven bytes in all.
pub open spec fn hex_shaped(v: Seq<char>) -> bool {
    named_color(v) is None && v.len() > 0 && v[0] == '#' && encode_utf8(v).len() == 7
}

/// Reading `v` as `#rrggbb` would cut a char in two.
pub open spec fn color_panics(v: Seq<char>) -> bool {
    hex_shaped(v) && !(is_char_boundary(encode_utf8(v), 3) && is_char_boundary(encode_utf8(v), 5))
}

/// The color that lowercase `v` names: a color name, or `#` and three hex pairs.
pub open spec fn parse_color(v: Seq<char>) -> Option<Color> {
    match named_color(v) {
        Some(c) => Some(c),
        None => if hex_shaped(v) {
            let b = encode_utf8(v);
            match (hex_pair(b[1], b[2]), hex_pair(b[3], b[4]), hex_pair(b[5], b[6])) {
                (Some(r), Some(g), Some(bl)) => Some(Color::Rgb { r, g, b: bl }),
                _ => None,
            }
        } else {
            None
        },
    }
}

fn hex_digit_exec(b: u8) -> (r: Option<u8>)
    ensures
        r == hex_digit(b),
{
    if 0x30 <= b && b <= 0x39 {
        Some(b - 0x30)
    } else if 0x61 <= b && b <= 0x66 {
        Some(b - 0x61 + 10)
    } else if 0x41 <= b && b <= 0x46 {
        Some(b - 0x41 + 10)
    } else {
        None
    }
}

fn hex_pair_exec(a: u8, b: u8) -> (r: Option<u8>)
    ensures
        r == hex_pair(a, b),
{
    if a == 0x2B {
        hex_digit_exec(b)
    } else {
        match (hex_digit_exec(a), hex_digit_exec(b)) {
            (Some(x), Some(y)) => Some(16 * x + y),
            _ => None,
        }
    }
}

/// The color a lowercase name stands for.
fn named_color_exec(cs: &[char]) -> (r: Option<Color>)
    ensures
        r == named_color(cs@),
{
    if str_chars_eq(cs, "black") {
        Some(Color::Black)
    } else if str_chars_eq(cs, "darkgrey") {
        Some(Color::DarkGrey)
    } else if str_chars_eq(cs, "red") {
        Some(Color::Red)
    } else if str_chars_eq(cs, "darkred") {
        Some(Color::DarkRed)
    } else if str_chars_eq(cs, "green") {
        Some(Color::Green)
    } else if str_chars_eq(cs, "darkgreen") {
        Some(Color::DarkGreen)
    } else if str_chars_eq(cs, "yellow") {
        Some(Color::Yellow)
    } else if str_chars_eq(cs, "darkyellow") {
        Some(Color::DarkYellow)
    } else if str_chars_eq(cs, "blue") {
        Some(Color::Blue)
    } else if str_chars_eq(cs, "darkblue") {
        Some(Color::DarkBlue)
    } else if str_chars_eq(cs, "magenta") {
        Some(Color::Magenta)
    } else if str_chars_eq(cs, "darkmagenta") {
        Some(Color::DarkMagenta)
    } else if str_chars_eq(cs, "cyan") {
        Some(Color::Cyan)
    } else if str_chars_eq(cs, "darkcyan") {
        Some(Color::DarkCyan)
    } else if str_chars_eq(cs, "white") {
        Some(Color::White)
    } else if str_chars_eq(cs, "grey") {
        Some(Color::Grey)
    } else {
        None
    }
}

/// Reads a lowercase color value; `None` only where reading it as `#rrggbb` would cut
/// a char in two.
fn parse_lower(v: &str) -> (r: Option<Result<Color, ThemeError>>)
    ensures
        r is None <==> color_panics(v@),
        !color_panics(v@) ==> match parse_color(v@) {
            Some(c) => r == Some(Ok::<Color, ThemeError>(c)),
            None => r matches Some(Err(ThemeError::InvalidColor(s))) && s@ == v@,
        },
{
    let cs = chars_of(v);
    match named_color_exec(cs.as_slice()) {
        Some(c) => return Some(Ok(c)),
        None => {},
    }
    let b = v.as_bytes();
    if cs.len() > 0 && cs[0] == '#' && b.len() == 7 {
        if !(v.is_char_boundary(3) && v.is_char_boundary(5)) {
            return None;
        }
        let pr = hex_pair_exec(b[1], b[2]);
        let pg = hex_pair_exec(b[3], b[4]);
        let pb = hex_pair_exec(b[5], b[6]);
        match (pr, pg, pb) {
            (Some(r), Some(g), Some(bl)) => Some(Ok(Color::Rgb { r, g, b: bl })),
            _ => Some(Err(ThemeError::InvalidColor(owned(v)))),
        }
    } else {
        Some(Err(ThemeError::InvalidColor(owned(v))))
    }
}

/// Reads a color: a color name (`black`, `darkgrey`, `red`, ... `grey`) or `#rrggbb`,
/// in any case. Anything else is an invalid color, reported lowercased.
pub fn color_from_str(value: &str) -> (r: Result<Color, ThemeError>)
    requires
        !color_panics(lowercase(value@)),
    ensures
        match parse_color(lowercase(value@)) {
            Some(c) => r == Ok::<Color, ThemeError>(c),
            None => r matches Err(ThemeError::InvalidColor(s)) && s@ == lowercase(value@),
        },
{
    let v = to_lower(value);
    match parse_lower(v.as_str()) {
        Some(r) => r,
        None => Err(ThemeError::InvalidColor(v)),
    }
}

/// Reads a color as `color_from_str` does; `None` for a value whose `#rrggbb` reading
/// would cut a char in two.
pub fn try_color_from_str(value: &str) -> (r: Option<Result<Color, ThemeError>>)
    ensures
        r is None <==> color_panics(lowercase(value@)),
        !color_panics(lowercase(value@)) ==> match parse_color(lowercase(value@)) {
            Some(c) => r == Some(Ok::<Color, ThemeError>(c)),
            None => r matches Some(Err(ThemeError::InvalidColor(s))) && s@ == lowercase(value@),
        },
{
    let v = to_lower(value);
    if color_would_panic(v.as_str()) {
        None
    } else {
        Some(color_from_str(value))
    }
}

/// Whether reading lowercase `v` as a color would cut a char in two.
fn color_would_panic(v: &str) -> (r: bool)
    ensures
        r == color_panics(v@),
{
    let cs = chars_of(v);
    let named = named_color_exec(cs.as_slice());
    let b = v.as_bytes();
    named.is_none() && cs.len() > 0 && cs[0] == '#' && b.len() == 7 && !(v.is_char_boundary(3)
        && v.is_char_boundary(5))
}

/// A theme error as contracts see it.
pub enum ThemeErrorV {
    InvalidColor(Seq<char>),
    UnknownAttribute(Seq<char>),
    UnresolvedPaletteReference(Seq<char>),
    CyclicPaletteReference(Seq<char>),
}

impl ThemeError {
    pub open spec fn v(&self) -> ThemeErrorV {
        match self {
            ThemeError::InvalidColor(s) => ThemeErrorV::InvalidColor(s@),
            ThemeError::UnknownAttribute(s) => ThemeErrorV::UnknownAttribute(s@),
            ThemeError::UnresolvedPaletteReference(s) => ThemeErrorV::UnresolvedPaletteReference(s@),
            ThemeError::CyclicPaletteReference(s) => ThemeErrorV::CyclicPaletteReference(s@),
        }
    }
}

/// A text attribute.
#[derive(Clone, Copy, Debug, PartialEq, Eq, Structural)]
pub enum Attribute {
    Bold,
    Dim,
    Italic,
    Underlined,
    SlowBlink,
    RapidBlink,
    Reverse,
    Hidden,
    CrossedOut,
}

/// A set of text attributes.
#[derive(Clone, Copy, Debug, PartialEq, Eq, Structural)]
pub struct Attributes {
    pub bold: bool,
    pub dim: bool,
    pub italic: bool,
    pub underlined: bool,
    pub slow_blink: bool,
    pub rapid_blink: bool,
    pub reverse: bool,
    pub hidden: bool,
    pub crossed_out: bool,
}

/// No attribute.
pub open spec fn no_attributes() -> Attributes {
    Attributes {
        bold: false,
        dim: false,
        italic: false,
        underlined: false,
        slow_blink: false,
        rapid_blink: false,
        reverse: false,
        hidden: false,
        crossed_out: false,
    }
}

/// `a` with attribute `x` added.
pub open spec fn with_attr(a: Attributes, x: Attribute) -> Attributes {
    match x {
        Attribute::Bold => Attributes { bold: true, ..a },
        Attribute::Dim => Attributes { dim: true, ..a },
        Attribute::Italic => Attributes { italic: true, ..a },
        Attribute::Underlined => Attributes { underlined: true, ..a },
        Attribute::SlowBlink => Attributes { slow_blink: true, ..a },
        Attribute::RapidBlink => Attributes { rapid_blink: true, ..a },
        Attribute::Reverse => Attributes { reverse: true, ..a },
        Attribute::Hidden => Attributes { hidden: true, ..a },
        Attribute::CrossedOut => Attributes { crossed_out: true, ..a },
    }
}

impl Attributes {
    /// No attribute.
    pub fn none() -> (a: Attributes)
        ensures
            a == no_attributes(),
    {
        Attributes {
            bold: false,
            dim: false,
            italic: false,
            underlined: false,
            slow_blink: false,
            rapid_blink: false,
            reverse: false,
            hidden: false,
            crossed_out: false,
        }
    }

    /// These attributes and `x`.
    pub fn with(self, x: Attribute) -> (a: Attributes)
        ensures
            a == with_attr(self, x),
    {
        match x {
            Attribute::Bold => Attributes { bold: true, ..self },
            Attribute::Dim => Attributes { dim: true, ..self },
            Attribute::Italic => Attributes { italic: true, ..self },
            Attribute::Underlined => Attributes { underlined: true, ..self },
            Attribute::SlowBlink => Attributes { slow_blink: true, ..self },
            Attribute::RapidBlink => Attributes { rapid_blink: true, ..self },
            Attribute::Reverse => Attributes { reverse: true, ..self },
            Attribute::Hidden => Attributes { hidden: true, ..self },
            Attribute::CrossedOut => Attributes { crossed_out: true, ..self },
        }
    }
}

/// The attribute a (lowercase) attribute name stands for.
pub open spec fn attribute_named(v: Seq<char>) -> Option<Attribute> {
    if v == "bold"@ {
        Some(Attribute::Bold)
    } else if v == "dim"@ {
        Some(Attribute::Dim)
    } else if v == "italic"@ {
        Some(Attribute::Italic)
    } else if v == "underlined"@ {
        Some(Attribute::Underlined)
    } else if v == "slowblink"@ {
        Some(Attribute::SlowBlink)
    } else if v == "rapidblink"@ {
        Some(Attribute::RapidBlink)
    } else if v == "reversed"@ {
        Some(Attribute::Reverse)
    } else if v == "hidden"@ {
        Some(Attribute::Hidden)
    } else if v == "crossedout"@ {
        Some(Attribute::CrossedOut)
    } else {
        None
    }
}

fn attribute_named_exec(v: &str) -> (r: Option<Attribute>)
    ensures
        r == attribute_named(v@),
{
    let cs = chars_of(v);
    let c = cs.as_slice();
    if str_chars_eq(c, "bold") {
        Some(Attribute::Bold)
    } else if str_chars_eq(c, "dim") {
        Some(Attribute::Dim)
    } else if str_chars_eq(c, "italic") {
        Some(Attribute::Italic)
    } else if str_chars_eq(c, "underlined") {
        Some(Attribute::Underlined)
    } else if str_chars_eq(c, "slowblink") {
        Some(Attribute::SlowBlink)
    } else if str_chars_eq(c, "rapidblink") {
        Some(Attribute::RapidBlink)
    } else if str_chars_eq(c, "reversed") {
        Some(Attribute::Reverse)
    } else if str_chars_eq(c, "hidden") {
        Some(Attribute::Hidden)
    } else if str_chars_eq(c, "crossedout") {
        Some(Attribute::CrossedOut)
    } else {
        None
    }
}

/// A style: colors for the text, its background and its underline, and attributes.
#[derive(Clone, Copy, Debug, PartialEq, Eq, Structural)]
pub struct ContentStyle {
    pub foreground_color: Option<Color>,
    pub background_color: Option<Color>,
    pub underline_color: Option<Color>,
    pub attributes: Attributes,
}

/// A style as a theme writes it: colors by name (of the palette, or of a color) and
/// attribute names.
pub struct UnresolvedStyle {
    pub fg: Option<String>,
    pub bg: Option<String>,
    pub underline: Option<String>,
    pub attrs: Vec<String>,
}

/// The color `name` stands for: the palette's entry, else the color it names.
pub open spec fn resolve_color(pal: Map<Seq<char>, Color>, name: Seq<char>) -> Option<Color> {
    if pal.dom().contains(name) {
        Some(pal[name])
    } else {
        parse_color(lowercase(name))
    }
}

/// Resolving `name` needs no reading that cuts a char in two.
pub open spec fn color_ok(pal: Map<Seq<char>, Color>, name: Seq<char>) -> bool {
    pal.dom().contains(name) || !color_panics(lowercase(name))
}

/// An optional color name, resolved.
pub open spec fn color_step(pal: Map<Seq<char>, Color>, n: Option<Seq<char>>) -> Result<Option<Color>, ThemeErrorV> {
    match n {
        None => Ok(None),
        Some(x) => match resolve_color(pal, x) {
            Some(c) => Ok(Some(c)),
            None => Err(ThemeErrorV::InvalidColor(lowercase(x))),
        },
    }
}

/// The attributes `acc` with those named by `names` added, or the first unknown name.
pub open spec fn attrs_result(names: Seq<Seq<char>>, acc: Attributes) -> Result<Attributes, ThemeErrorV>
    decreases names.len(),
{
    if names.len() == 0 {
        Ok(acc)
    } else {
        match attribute_named(lowercase(names[0])) {
            None => Err(ThemeErrorV::UnknownAttribute(names[0])),
            Some(a) => attrs_result(names.drop_first(), with_attr(acc, a)),
        }
    }
}

/// The style a theme entry resolves to: its colors in the order foreground,
/// background, underline, then its attributes; the first that fails is the error.
pub open spec fn style_result(
    pal: Map<Seq<char>, Color>,
    fg: Option<Seq<char>>,
    bg: Option<Seq<char>>,
    ul: Option<Seq<char>>,
    attrs: Seq<Seq<char>>,
) -> Result<ContentStyle, ThemeErrorV> {
    match color_step(pal, fg) {
        Err(e) => Err(e),
        Ok(f) => match color_step(pal, bg) {
            Err(e) => Err(e),
            Ok(b) => match color_step(pal, ul) {
                Err(e) => Err(e),
                Ok(u) => match attrs_result(attrs, no_attributes()) {
                    Err(e) => Err(e),
                    Ok(a) => Ok(ContentStyle { foreground_color: f, background_color: b, underline_color: u, attributes: a }),
                },
            },
        },
    }
}

/// An optional string's view.
pub open spec fn opt_view(s: Option<String>) -> Option<Seq<char>> {
    match s {
        Some(x) => Some(x@),
        None => None,
    }
}

/// The result as contracts see it.
pub open spec fn style_result_v(r: Result<ContentStyle, ThemeError>) -> Result<ContentStyle, ThemeErrorV> {
    match r {
        Ok(s) => Ok(s),
        Err(e) => Err(e.v()),
    }
}

/// Resolves an optional color name against the palette.
fn resolve_opt(pal: &Vec<(String, Color)>, n: &Option<String>) -> (r: Result<Option<Color>, ThemeError>)
    requires
        sorted_keys(pal@),
        n matches Some(x) ==> color_ok(keyed_map(pal@), x@),
    ensures
        match r {
            Ok(c) => color_step(keyed_map(pal@), opt_view(*n)) == Ok::<Option<Color>, ThemeErrorV>(c),
            Err(e) => color_step(keyed_map(pal@), opt_view(*n)) == Err::<Option<Color>, ThemeErrorV>(e.v()),
        },
{
    match n {
        None => Ok(None),
        Some(x) => match keyed_get(pal, x.as_str()) {
            Some(c) => Ok(Some(c)),
            None => match color_from_str(x.as_str()) {
                Ok(c) => Ok(Some(c)),
                Err(e) => Err(e),
            },
        },
    }
}

impl UnresolvedStyle {
    /// The names as contracts see them: colors, then attributes.
    pub open spec fn names(&self) -> (Option<Seq<char>>, Option<Seq<char>>, Option<Seq<char>>, Seq<Seq<char>>) {
        (opt_view(self.fg), opt_view(self.bg), opt_view(self.underline), self.attrs@.map_values(|a: String| a@))
    }

    /// Resolves the style against `palette` (a map from names to colors, sorted by
    /// name): each color is the palette's entry of that name or the color the name
    /// gives; the first color that resolves to nothing, or attribute name that is not
    /// known, is the error.
    pub fn resolve(self, palette: &Vec<(String, Color)>) -> (r: Result<ContentStyle, ThemeError>)
        requires
            sorted_keys(palette@),
            self.fg matches Some(x) ==> color_ok(keyed_map(palette@), x@),
            self.bg matches Some(x) ==> color_ok(keyed_map(palette@), x@),
            self.underline matches Some(x) ==> color_ok(keyed_map(palette@), x@),
        ensures
            style_result_v(r) == style_result(
                keyed_map(palette@),
                self.names().0,
                self.names().1,
                self.names().2,
                self.names().3,
            ),
    {
        let ghost p = keyed_map(palette@);
        let ghost names = self.names();
        let f = match resolve_opt(palette, &self.fg) {
            Ok(c) => c,
            Err(e) => return Err(e),
        };
        let b = match resolve_opt(palette, &self.bg) {
            Ok(c) => c,
            Err(e) => return Err(e),
        };
        let u = match resolve_opt(palette, &self.underline) {
            Ok(c) => c,
            Err(e) => return Err(e),
        };
        let ghost an = names.3;
        let mut acc = Attributes::none();
        let mut i: usize = 0;
        assert(an.skip(0) =~= an);
        while i < self.attrs.len()
            invariant
                i <= self.attrs@.len(),
                an == self.attrs@.map_values(|a: String| a@),
                attrs_result(an, no_attributes()) == attrs_result(an.skip(i as int), acc),
                p == keyed_map(palette@),
                names == self.names(),
                color_step(p, names.0) == Ok::<Option<Color>, ThemeErrorV>(f),
                color_step(p, names.1) == Ok::<Option<Color>, ThemeErrorV>(b),
                color_step(p, names.2) == Ok::<Option<Color>, ThemeErrorV>(u),
            decreases self.attrs@.len() - i,
        {
            let l = to_lower(self.attrs[i].as_str());
            proof {
                assert(an.skip(i as int)[0] == an[i as int]);
                assert(an[i as int] == self.attrs@[i as int]@);
                assert(an.skip(i as int).drop_first() =~= an.skip(i + 1));
            }
            match attribute_named_exec(l.as_str()) {
                Some(x) => {
                    acc = acc.with(x);
                },
                None => {
                    let name = self.attrs[i].clone();
                    assert(name@ == an[i as int]);
                    assert(attrs_result(an.skip(i as int), acc) == Err::<Attributes, ThemeErrorV>(ThemeErrorV::UnknownAttribute(name@)));
                    return Err(ThemeError::UnknownAttribute(name));
                },
            }
            i += 1;
        }
        proof {
            assert(an.skip(i as int) =~= Seq::<Seq<char>>::empty());
        }
        Ok(ContentStyle { foreground_color: f, background_color: b, underline_color: u, attributes: acc })
    }
}

impl UnresolvedStyle {
    /// Resolves the style as `resolve` does; `None` when a color that is not in the
    /// palette would be read as `#rrggbb` across a char.
    pub fn try_resolve(self, palette: &Vec<(String, Color)>) -> (r: Option<Result<ContentStyle, ThemeError>>)
        requires
            sorted_keys(palette@),
        ensures
            r is None <==> !(self.fg matches Some(x) ==> color_ok(keyed_map(palette@), x@)) || !(
            self.bg matches Some(x) ==> color_ok(keyed_map(palette@), x@)) || !(self.underline matches Some(
                x,
            ) ==> color_ok(keyed_map(palette@), x@)),
            r matches Some(res) ==> style_result_v(res) == style_result(
                keyed_map(palette@),
                self.names().0,
                self.names().1,
                self.names().2,
                self.names().3,
            ),
    {
        if !name_ok(palette, &self.fg) || !name_ok(palette, &self.bg) || !name_ok(palette, &self.underline) {
            return None;
        }
        Some(self.resolve(palette))
    }
}

/// Whether an optional color name resolves without reading across a char.
fn name_ok(pal: &Vec<(String, Color)>, n: &Option<String>) -> (r: bool)
    requires
        sorted_keys(pal@),
    ensures
        r == (n matches Some(x) ==> color_ok(keyed_map(pal@), x@)),
{
    match n {
        None => true,
        Some(x) => {
            if keyed_get(pal, x.as_str()).is_some() {
                true
            } else {
                let l = to_lower(x.as_str());
                !color_would_panic(l.as_str())
            }
        },
    }
}

/// The color palette entry `name` resolves to, following at most `k` references: its
/// value read as a color, else the entry its value names.
pub open spec fn chain_color(pal: Map<Seq<char>, Seq<char>>, name: Seq<char>, k: nat) -> Option<Color>
    decreases k,
{
    let v = pal[name];
    match parse_color(lowercase(v)) {
        Some(c) => Some(c),
        None => if k > 0 && pal.dom().contains(v) {
            chain_color(pal, v, (k - 1) as nat)
        } else {
            None
        },
    }
}

/// Palette entry `name` resolves to `c`.
pub open spec fn resolves_to(pal: Map<Seq<char>, Seq<char>>, name: Seq<char>, c: Color) -> bool {
    exists|k: nat| chain_color(pal, name, k) == Some(c)
}

/// Palette entry `name` resolves to some color.
pub open spec fn resolvable(pal: Map<Seq<char>, Seq<char>>, name: Seq<char>) -> bool {
    exists|k: nat| #[trigger] chain_color(pal, name, k) is Some
}

/// No palette value is read as `#rrggbb` across a char.
pub open spec fn palette_ok(pal: Map<Seq<char>, Seq<char>>) -> bool {
    forall|n: Seq<char>| pal.dom().contains(n) ==> !color_panics(lowercase(#[trigger] pal[n]))
}

/// The entry `(name, value)` is the palette's.
pub open spec fn entry_of(pal: Map<Seq<char>, Seq<char>>, e: (String, String)) -> bool {
    pal.dom().contains(e.0@) && pal[e.0@] == e.1@
}

/// Every name of the palette is resolved or among `us`.
pub open spec fn covered(pal: Map<Seq<char>, Seq<char>>, res: Set<Seq<char>>, us: Seq<(String, String)>) -> bool {
    forall|n: Seq<char>| #[trigger] pal.dom().contains(n) ==> res.contains(n) || exists|j: int|
        0 <= j < us.len() && (#[trigger] us[j]).0@ == n
}

/// What was resolved is right.
pub open spec fn sound(pal: Map<Seq<char>, Seq<char>>, res: Map<Seq<char>, Color>) -> bool {
    forall|n: Seq<char>| #[trigger] res.dom().contains(n) ==> pal.dom().contains(n) && resolves_to(pal, n, res[n])
}

/// Entries none of which reads as a color nor names a resolved entry never resolve.
proof fn lemma_stuck(pal: Map<Seq<char>, Seq<char>>, res: Set<Seq<char>>, us: Seq<(String, String)>, k: nat)
    requires
        forall|j: int| 0 <= j < us.len() ==> entry_of(pal, #[trigger] us[j]),
        forall|j: int| 0 <= j < us.len() ==> parse_color(lowercase((#[trigger] us[j]).1@)) is None && !res.contains(us[j].1@),
        covered(pal, res, us),
    ensures
        forall|j: int| 0 <= j < us.len() ==> chain_color(pal, (#[trigger] us[j]).0@, k) is None,
    decreases k,
{
    if k > 0 {
        lemma_stuck(pal, res, us, (k - 1) as nat);
    }
    assert forall|j: int| 0 <= j < us.len() implies chain_color(pal, (#[trigger] us[j]).0@, k) is None by {
        let v = us[j].1@;
        assert(pal[us[j].0@] == v);
        if k > 0 && pal.dom().contains(v) {
            let j2 = choose|j2: int| 0 <= j2 < us.len() && (#[trigger] us[j2]).0@ == v;
            assert(chain_color(pal, us[j2].0@, (k - 1) as nat) is None);
        }
    }
}

/// A palette, as a map from names to values.
pub open spec fn palette_map(v: Seq<(String, String)>) -> Map<Seq<char>, Seq<char>> {
    keyed_map(v).map_values(|s: String| s@)
}

/// Whether the palette has an entry named `name`.
fn palette_has(palette: &Vec<(String, String)>, name: &String) -> (r: bool)
    ensures
        r == keyed_map(palette@).dom().contains(name@),
{
    let mut i: usize = 0;
    while i < palette.len()
        invariant
            i <= palette@.len(),
            forall|j: int| 0 <= j < i ==> palette@[j].0@ != name@,
        decreases palette@.len() - i,
    {
        if palette[i].0.eq(name) {
            assert(has_key(palette@, name@));
            return true;
        }
        i += 1;
    }
    assert(!has_key(palette@, name@));
    false
}

/// Resolves the palette (a map from names to color values, sorted by name): each
/// value is a color, or the name of another entry whose color it takes. It fails when
/// some entry resolves to no color: with the entry's name when its value names an
/// entry (a cycle), else with the value it could not read.
pub fn resolve_palette(palette: &Vec<(String, String)>) -> (r: Result<Vec<(String, Color)>, ThemeError>)
    requires
        sorted_keys(palette@),
        palette_ok(palette_map(palette@)),
    ensures
        ({
            let pal = palette_map(palette@);
            &&& r is Ok <==> forall|n: Seq<char>| pal.dom().contains(n) ==> resolvable(pal, n)
            &&& r matches Ok(res) ==> {
                &&& sorted_keys(res@)
                &&& keyed_map(res@).dom() == pal.dom()
                &&& forall|n: Seq<char>| #[trigger] pal.dom().contains(n) ==> resolves_to(pal, n, keyed_map(res@)[n])
            }
            &&& r matches Err(e) ==> exists|n: Seq<char>| {
                &&& #[trigger] pal.dom().contains(n)
                &&& !resolvable(pal, n)
                &&& match e.v() {
                    ThemeErrorV::CyclicPaletteReference(x) => x == n && pal.dom().contains(pal[n]),
                    ThemeErrorV::UnresolvedPaletteReference(x) => x == pal[n] && !pal.dom().contains(pal[n]),
                    _ => false,
                }
            }
        }),
{
    let ghost pal = palette_map(palette@);
    let mut resolved: Vec<(String, Color)> = Vec::new();
    let mut unresolved: Vec<(String, String)> = Vec::new();
    let mut i: usize = 0;
    while i < palette.len()
        invariant
            i <= palette@.len(),
            pal == palette_map(palette@),
            sorted_keys(palette@),
            unresolved@.len() == i,
            forall|j: int| 0 <= j < i ==> #[trigger] unresolved@[j] == palette@[j],
        decreases palette@.len() - i,
    {
        let e = (palette[i].0.clone(), palette[i].1.clone());
        unresolved.push(e);
        i += 1;
    }
    proof {
        assert forall|j: int| 0 <= j < unresolved@.len() implies entry_of(pal, #[trigger] unresolved@[j]) by {
            crate::keyed::lemma_value_at_index(palette@, j);
        }
        assert forall|n: Seq<char>| #[trigger] pal.dom().contains(n) implies keyed_map(resolved@).dom().contains(n)
            || exists|j: int| 0 <= j < unresolved@.len() && (#[trigger] unresolved@[j]).0@ == n by {
            let j = choose|j: int| 0 <= j < palette@.len() && #[trigger] palette@[j].0@ == n;
            assert(unresolved@[j].0@ == n);
        }
        assert(keyed_map(resolved@).dom() =~= Set::<Seq<char>>::empty());
    }
    let mut progress = true;
    while progress && unresolved.len() > 0
        invariant
            pal == palette_map(palette@),
            palette_ok(pal),
            sorted_keys(resolved@),
            forall|j: int| 0 <= j < unresolved@.len() ==> entry_of(pal, #[trigger] unresolved@[j]),
            covered(pal, keyed_map(resolved@).dom(), unresolved@),
            sound(pal, keyed_map(resolved@)),
            !progress ==> forall|j: int| 0 <= j < unresolved@.len() ==> parse_color(
                lowercase((#[trigger] unresolved@[j]).1@),
            ) is None && !keyed_map(resolved@).dom().contains(unresolved@[j].1@),
        decreases unresolved@.len() + if progress {
            1int
        } else {
            0
        },
    {
        let ghost r0 = keyed_map(resolved@);
        let mut keep: Vec<(String, String)> = Vec::new();
        let mut k: usize = 0;
        while k < unresolved.len()
            invariant
                pal == palette_map(palette@),
                palette_ok(pal),
                k <= unresolved@.len(),
                keep@.len() <= k,
                sorted_keys(resolved@),
                forall|j: int| 0 <= j < unresolved@.len() ==> entry_of(pal, #[trigger] unresolved@[j]),
                forall|j: int| 0 <= j < keep@.len() ==> entry_of(pal, #[trigger] keep@[j]),
                forall|n: Seq<char>| #[trigger] pal.dom().contains(n) ==> keyed_map(resolved@).dom().contains(n)
                    || (exists|j: int| 0 <= j < keep@.len() && (#[trigger] keep@[j]).0@ == n) || (exists|j: int|
                    k <= j < unresolved@.len() && (#[trigger] unresolved@[j]).0@ == n),
                sound(pal, keyed_map(resolved@)),
                keep@.len() == k ==> keyed_map(resolved@) == r0 && forall|j: int| 0 <= j < keep@.len() ==> parse_color(
                    lowercase((#[trigger] keep@[j]).1@),
                ) is None && !r0.dom().contains(keep@[j].1@),
            decreases unresolved@.len() - k,
        {
            let name = &unresolved[k].0;
            let value = &unresolved[k].1;
            let ghost e = unresolved@[k as int];
            proof {
                assert(entry_of(pal, e));
                assert(!color_panics(lowercase(pal[e.0@])));
            }
            let ghost before = keyed_map(resolved@);
            let ghost ok = keep@;
            match color_from_str(value.as_str()) {
                Ok(c) => {
                    proof {
                        assert(chain_color(pal, e.0@, 0) == Some(c));
                    }
                    keyed_insert(&mut resolved, name.clone(), c);
                    proof {
                        assert forall|n: Seq<char>| #[trigger] keyed_map(resolved@).dom().contains(n) implies pal.dom().contains(n)
                            && resolves_to(pal, n, keyed_map(resolved@)[n]) by {
                            if n != e.0@ {
                                assert(before.dom().contains(n));
                            } else {
                                assert(chain_color(pal, n, 0) == Some(c));
                            }
                        }
                    }
                },
                Err(_) => {
                    match keyed_get(&resolved, value.as_str()) {
                        Some(c) => {
                            proof {
                                let v = e.1@;
                                assert(before.dom().contains(v));
                                assert(resolves_to(pal, v, c));
                                let kk = choose|kk: nat| chain_color(pal, v, kk) == Some(c);
                                assert(chain_color(pal, e.0@, kk + 1) == Some(c));
                            }
                            keyed_insert(&mut resolved, name.clone(), c);
                            proof {
                                let v = e.1@;
                                let kk = choose|kk: nat| chain_color(pal, v, kk) == Some(c);
                                assert(chain_color(pal, e.0@, kk + 1) == Some(c));
                                assert forall|n: Seq<char>| #[trigger] keyed_map(resolved@).dom().contains(n) implies pal.dom().contains(n)
                                    && resolves_to(pal, n, keyed_map(resolved@)[n]) by {
                                    if n != e.0@ {
                                        assert(before.dom().contains(n));
                                    } else {
                                        assert(chain_color(pal, n, kk + 1) == Some(c));
                                    }
                                }
                            }
                        },
                        None => {
                            let kept = (name.clone(), value.clone());
                            keep.push(kept);
                            proof {
                                assert(keep@[keep@.len() - 1] == e);
                            }
                        },
                    }
                },
            }
            proof {
                assert(keep@ == ok || keep@ == ok.push(e));
                assert(before.dom().subset_of(keyed_map(resolved@).dom()));
                assert forall|n: Seq<char>| #[trigger] pal.dom().contains(n) implies keyed_map(resolved@).dom().contains(n)
                    || (exists|j: int| 0 <= j < keep@.len() && (#[trigger] keep@[j]).0@ == n) || (exists|j: int|
                    k + 1 <= j < unresolved@.len() && (#[trigger] unresolved@[j]).0@ == n) by {
                    assert(before.dom().contains(n) || (exists|j: int| 0 <= j < ok.len() && (#[trigger] ok[j]).0@ == n)
                        || (exists|j: int| k <= j < unresolved@.len() && (#[trigger] unresolved@[j]).0@ == n));
                    if keyed_map(resolved@).dom().contains(n) {
                    } else if exists|j: int| 0 <= j < ok.len() && (#[trigger] ok[j]).0@ == n {
                        let j = choose|j: int| 0 <= j < ok.len() && (#[trigger] ok[j]).0@ == n;
                        assert(keep@[j] == ok[j]);
                    } else if n == e.0@ {
                        assert(keep@ == ok.push(e));
                        assert(keep@[ok.len() as int].0@ == n);
                    } else {
                        let j = choose|j: int| k <= j < unresolved@.len() && (#[trigger] unresolved@[j]).0@ == n;
                        assert(j != k);
                        assert(unresolved@[j].0@ == n);
                    }
                }
            }
            k += 1;
        }
        progress = keep.len() < unresolved.len();
        unresolved = keep;
    }
    let ghost us = unresolved@;
    if unresolved.len() == 0 {
        proof {
            assert forall|n: Seq<char>| #[trigger] pal.dom().contains(n) implies keyed_map(resolved@).dom().contains(n) by {}
            assert(keyed_map(resolved@).dom() =~= pal.dom());
            assert forall|n: Seq<char>| pal.dom().contains(n) implies resolvable(pal, n) by {
                let c = keyed_map(resolved@)[n];
                let kk = choose|kk: nat| chain_color(pal, n, kk) == Some(c);
                assert(chain_color(pal, n, kk) is Some);
            }
        }
        Ok(resolved)
    } else {
        let key = unresolved[0].0.clone();
        let value = unresolved[0].1.clone();
        proof {
            let rd = keyed_map(resolved@).dom();
            assert forall|kk: nat| chain_color(pal, us[0].0@, kk) is None by {
                lemma_stuck(pal, rd, us, kk);
            }
            assert(entry_of(pal, us[0]));
            assert(!resolvable(pal, us[0].0@));
            assert(!(forall|n: Seq<char>| pal.dom().contains(n) ==> resolvable(pal, n)));
        }
        if palette_has(palette, &value) {
            Err(ThemeError::CyclicPaletteReference(key))
        } else {
            Err(ThemeError::UnresolvedPaletteReference(value))
        }
    }
}

/// Resolves the palette as `resolve_palette` does; `None` when some value would be
/// read as `#rrggbb` across a char.
pub fn try_resolve_palette(palette: &Vec<(String, String)>) -> (r: Option<Result<Vec<(String, Color)>, ThemeError>>)
    requires
        sorted_keys(palette@),
    ensures
        r is None <==> !palette_ok(palette_map(palette@)),
        r matches Some(x) ==> {
            let pal = palette_map(palette@);
            &&& x is Ok <==> forall|n: Seq<char>| pal.dom().contains(n) ==> resolvable(pal, n)
            &&& x matches Ok(res) ==> {
                &&& sorted_keys(res@)
                &&& keyed_map(res@).dom() == pal.dom()
                &&& forall|n: Seq<char>| #[trigger] pal.dom().contains(n) ==> resolves_to(pal, n, keyed_map(res@)[n])
            }
            &&& x matches Err(e) ==> exists|n: Seq<char>| {
                &&& #[trigger] pal.dom().contains(n)
                &&& !resolvable(pal, n)
                &&& match e.v() {
                    ThemeErrorV::CyclicPaletteReference(y) => y == n && pal.dom().contains(pal[n]),
                    ThemeErrorV::UnresolvedPaletteReference(y) => y == pal[n] && !pal.dom().contains(pal[n]),
                    _ => false,
                }
            }
        },
{
    let ghost pal = palette_map(palette@);
    let mut i: usize = 0;
    while i < palette.len()
        invariant
            i <= palette@.len(),
            sorted_keys(palette@),
            pal == palette_map(palette@),
            forall|j: int| 0 <= j < i ==> !color_panics(lowercase(#[trigger] palette@[j].1@)),
        decreases palette@.len() - i,
    {
        let l = to_lower(palette[i].1.as_str());
        if color_would_panic(l.as_str()) {
            proof {
                crate::keyed::lemma_value_at_index(palette@, i as int);
                assert(pal.dom().contains(palette@[i as int].0@));
                assert(pal[palette@[i as int].0@] == palette@[i as int].1@);
            }
            return None;
        }
        i += 1;
    }
    proof {
        assert forall|n: Seq<char>| pal.dom().contains(n) implies !color_panics(lowercase(#[trigger] pal[n])) by {
            let j = choose|j: int| 0 <= j < palette@.len() && #[trigger] palette@[j].0@ == n;
            crate::keyed::lemma_value_at_index(palette@, j);
        }
    }
    Some(resolve_palette(palette))
}

} // verus!
