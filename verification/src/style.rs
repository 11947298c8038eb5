//! Style accumulator for WK3 imports.
//!
//! WK3 splits styling across several record types whose effects compose:
//!
//! - **Font table** (records 174 / 176 / 177): eight fonts, each a name, a
//!   size and type flags, referenced by index from per-row attributes.
//! - **Pattern pool** (record 0x1B with sub-code 0x0FD2): named patterns
//!   carrying bold / italic / underline and horizontal / vertical alignment.
//! - **Row records** (opcode 0xC5): per-cell-run attributes (font index,
//!   border lines, font colour, background colour) for one row.

use std::collections::HashMap;
use vstd::prelude::*;

use crate::text::{cp437_char, cp437_text, push_char};
use crate::workbook::{cells_with_style, in_range, Model, ModelView, SheetView};

verus! {

/// Number of fonts in a WK3 font table.
pub const FONT_TABLE_SIZE: usize = 8;

/// One slot of the font table.
#[derive(Debug)]
pub struct FontEntry {
    pub name: Option<String>,
    pub size_twentieths: Option<u16>,
    pub type_flags: u16,
}

/// The content of a [`FontEntry`].
pub struct FontEntryView {
    pub name: Option<Seq<char>>,
    pub size_twentieths: Option<u16>,
    pub type_flags: u16,
}

impl View for FontEntry {
    type V = FontEntryView;

    open spec fn view(&self) -> FontEntryView {
        FontEntryView {
            name: match self.name {
                Some(s) => Some(s@),
                None => None,
            },
            size_twentieths: self.size_twentieths,
            type_flags: self.type_flags,
        }
    }
}

impl FontEntry {
    /// An empty slot: no name, no size, no flags.
    pub fn empty() -> (f: FontEntry)
        ensures
            f@ == (FontEntryView { name: None, size_twentieths: None, type_flags: 0 }),
    {
        FontEntry { name: None, size_twentieths: None, type_flags: 0 }
    }

    /// Bit 0 of the type word.
    pub fn bold(&self) -> (r: bool)
        ensures
            r == (self.type_flags & 0x0001 != 0),
    {
        self.type_flags & 0x0001 != 0
    }

    /// Bit 1 of the type word.
    pub fn italic(&self) -> (r: bool)
        ensures
            r == (self.type_flags & 0x0002 != 0),
    {
        self.type_flags & 0x0002 != 0
    }

    /// Bit 2 of the type word.
    pub fn underline(&self) -> (r: bool)
        ensures
            r == (self.type_flags & 0x0004 != 0),
    {
        self.type_flags & 0x0004 != 0
    }
}

/// A named pattern from the pattern pool.
#[derive(Debug, Clone, Copy, PartialEq, Eq, Structural)]
pub struct PatternEntry {
    pub bold: bool,
    pub italic: bool,
    pub underline: bool,
    /// Lotus horizontal alignment: 1 left, 2 right, 3 center, 4 standard,
    /// 6 justify, other values default.
    pub h_align: u8,
    /// Lotus vertical alignment (low 3 bits): 1 top, 2 middle, 4 bottom,
    /// other values default.
    pub v_align: u8,
}

/// Font table and pattern pool accumulated while reading a file.
#[derive(Debug)]
pub struct StyleCache {
    pub fonts: [FontEntry; FONT_TABLE_SIZE],
    pub patterns: HashMap<u16, PatternEntry>,
}

/// The content of a [`StyleCache`].
pub struct StyleCacheView {
    pub fonts: Seq<FontEntryView>,
    pub patterns: Map<u16, PatternEntry>,
}

impl View for StyleCache {
    type V = StyleCacheView;

    open spec fn view(&self) -> StyleCacheView {
        StyleCacheView { fonts: self.fonts@.map_values(|f: FontEntry| f@), patterns: self.patterns@ }
    }
}

/// `s` with slot `i` replaced by `f` when `i` is a slot; unchanged otherwise.
pub open spec fn update_slot(s: Seq<FontEntryView>, i: int, f: FontEntryView) -> Seq<
    FontEntryView,
> {
    if 0 <= i < s.len() {
        s.update(i, f)
    } else {
        s
    }
}

/// A copy of a font name.
fn copy_name(n: &Option<String>) -> (r: Option<String>)
    ensures
        match n {
            Some(s) => r matches Some(x) && x@ == s@,
            None => r is None,
        },
{
    match n {
        Some(s) => Some(s.clone()),
        None => None,
    }
}

impl StyleCache {
    /// An empty font table of [`FONT_TABLE_SIZE`] slots and no patterns.
    pub fn new() -> (c: StyleCache)
        ensures
            c@.fonts.len() == FONT_TABLE_SIZE,
            forall|i: int|
                0 <= i < FONT_TABLE_SIZE ==> #[trigger] c@.fonts[i] == (FontEntryView {
                    name: None,
                    size_twentieths: None,
                    type_flags: 0,
                }),
            c@.patterns == Map::<u16, PatternEntry>::empty(),
    {
        let fonts: [FontEntry; FONT_TABLE_SIZE] = [
            FontEntry::empty(),
            FontEntry::empty(),
            FontEntry::empty(),
            FontEntry::empty(),
            FontEntry::empty(),
            FontEntry::empty(),
            FontEntry::empty(),
            FontEntry::empty(),
        ];
        let c = StyleCache { fonts, patterns: HashMap::new() };
        assert(c@.fonts.len() == FONT_TABLE_SIZE);
        c
    }

    /// Sets the name of font slot `idx` (no effect past the table).
    pub fn set_font_name(&mut self, idx: u8, name: String)
        ensures
            final(self)@.fonts == update_slot(
                old(self)@.fonts,
                idx as int,
                FontEntryView { name: Some(name@), ..old(self)@.fonts[idx as int] },
            ),
            final(self)@.patterns == old(self)@.patterns,
    {
        let i = idx as usize;
        if i < FONT_TABLE_SIZE {
            let ghost before = self@.fonts;
            let size = self.fonts[i].size_twentieths;
            let flags = self.fonts[i].type_flags;
            self.fonts[i] = FontEntry { name: Some(name), size_twentieths: size, type_flags: flags };
            assert(self@.fonts =~= update_slot(
                before,
                idx as int,
                FontEntryView { name: Some(name@), ..before[idx as int] },
            ));
        }
    }

    /// Sets the type flags of font slot `idx` (no effect past the table).
    pub fn set_font_type(&mut self, idx: usize, t: u16)
        ensures
            final(self)@.fonts == update_slot(
                old(self)@.fonts,
                idx as int,
                FontEntryView { type_flags: t, ..old(self)@.fonts[idx as int] },
            ),
            final(self)@.patterns == old(self)@.patterns,
    {
        if idx < FONT_TABLE_SIZE {
            let ghost before = self@.fonts;
            let size = self.fonts[idx].size_twentieths;
            let name = copy_name(&self.fonts[idx].name);
            self.fonts[idx] = FontEntry { name, size_twentieths: size, type_flags: t };
            assert(self@.fonts =~= update_slot(
                before,
                idx as int,
                FontEntryView { type_flags: t, ..before[idx as int] },
            ));
        }
    }

    /// Sets the size (in 1/20 point) of font slot `idx` (no effect past the
    /// table).
    pub fn set_font_size(&mut self, idx: usize, size_twentieths: u16)
        ensures
            final(self)@.fonts == update_slot(
                old(self)@.fonts,
                idx as int,
                FontEntryView {
                    size_twentieths: Some(size_twentieths),
                    ..old(self)@.fonts[idx as int]
                },
            ),
            final(self)@.patterns == old(self)@.patterns,
    {
        if idx < FONT_TABLE_SIZE {
            let ghost before = self@.fonts;
            let flags = self.fonts[idx].type_flags;
            let name = copy_name(&self.fonts[idx].name);
            self.fonts[idx] = FontEntry { name, size_twentieths: Some(size_twentieths), type_flags: flags };
            assert(self@.fonts =~= update_slot(
                before,
                idx as int,
                FontEntryView { size_twentieths: Some(size_twentieths), ..before[idx as int] },
            ));
        }
    }

    /// Font slot `idx`, if the table has it.
    pub fn font(&self, idx: u8) -> (r: Option<&FontEntry>)
        ensures
            (idx as int) < self@.fonts.len() ==> (r matches Some(f) && f@ == self@.fonts[idx as int]),
            (idx as int) >= self@.fonts.len() ==> r is None,
    {
        let i = idx as usize;
        if i < FONT_TABLE_SIZE {
            Some(&self.fonts[i])
        } else {
            None
        }
    }

    /// Records pattern `id`, replacing an earlier pattern of that id.
    pub fn insert_pattern(&mut self, id: u16, entry: PatternEntry)
        ensures
            final(self)@.fonts == old(self)@.fonts,
            final(self)@.patterns == old(self)@.patterns.insert(id, entry),
    {
        let _ = self.patterns.insert(id, entry);
    }
}

/// LotAttrWK3: the 4-byte per-column attribute carried by row records.
#[derive(Debug, Clone, Copy, PartialEq, Eq, Structural)]
pub struct LotAttr {
    pub font_index: u8,
    pub line_style: u8,
    pub font_color: u8,
    pub back_byte: u8,
}

impl LotAttr {
    pub fn from_bytes(b: [u8; 4]) -> (a: LotAttr)
        ensures
            a == (LotAttr { font_index: b[0], line_style: b[1], font_color: b[2], back_byte: b[3] }),
    {
        LotAttr { font_index: b[0], line_style: b[1], font_color: b[2], back_byte: b[3] }
    }

    /// True when any of the four attribute slots carries non-default data:
    /// a font, border lines, a font colour (low 3 bits) or a background
    /// (all bits but bit 6).
    pub fn has_styles(&self) -> (r: bool)
        ensures
            r == (self.font_index != 0 || self.line_style != 0 || self.font_color & 0x07 != 0
                || self.back_byte & 0xBF != 0),
    {
        self.font_index != 0 || self.line_style != 0 || (self.font_color & 0x07) != 0 || (
        self.back_byte & 0xBF) != 0
    }

    /// Bit 7 of the background byte.
    pub fn centered(&self) -> (r: bool)
        ensures
            r == (self.back_byte & 0x80 != 0),
    {
        self.back_byte & 0x80 != 0
    }
}

/// Little-endian `u16` of bytes `at` and `at + 1`.
pub open spec fn le16(b: Seq<u8>, at: int) -> u16 {
    (b[at] + 256 * b[at + 1]) as u16
}

/// Pattern described by a CreatePattern body (sub-code 0x0FD2, at least 22
/// bytes): id in bytes 2-3, bold/italic/underline in bits 0-2 of byte 16,
/// alignments in bytes 20 and 21.
pub open spec fn pattern_of(body: Seq<u8>) -> Option<(u16, PatternEntry)> {
    if body.len() < 22 || le16(body, 0) != 0x0FD2 {
        None
    } else {
        Some(
            (
                le16(body, 2),
                PatternEntry {
                    bold: body[16] & 0x01 != 0,
                    italic: body[16] & 0x02 != 0,
                    underline: body[16] & 0x04 != 0,
                    h_align: body[20],
                    v_align: body[21],
                },
            ),
        )
    }
}

/// Decodes a CreatePattern record body; `None` when the body is shorter
/// than 22 bytes or its sub-code is not 0x0FD2.
pub fn decode_pattern(body: &[u8]) -> (r: Option<(u16, PatternEntry)>)
    ensures
        r == pattern_of(body@),
{
    if body.len() < 22 {
        return None;
    }
    let sub_code = body[0] as u16 + 256 * (body[1] as u16);
    if sub_code != 0x0FD2 {
        return None;
    }
    let pattern_id = body[2] as u16 + 256 * (body[3] as u16);
    let style_mask = body[16];
    let h_align = body[20];
    let v_align = body[21];
    Some(
        (
            pattern_id,
            PatternEntry {
                bold: style_mask & 0x01 != 0,
                italic: style_mask & 0x02 != 0,
                underline: style_mask & 0x04 != 0,
                h_align,
                v_align,
            },
        ),
    )
}

/// Index of the first NUL in `b` at or after `i`, or the length of `b`.
pub open spec fn nul_at_or_after(b: Seq<u8>, i: nat) -> nat
    decreases b.len() - i,
{
    if i >= b.len() || b[i as int] == 0 {
        i
    } else {
        nul_at_or_after(b, i + 1)
    }
}

/// CP437 text of `b` up to its first NUL.
pub open spec fn nul_terminated_text(b: Seq<u8>) -> Seq<char> {
    cp437_text(b.take(nul_at_or_after(b, 0) as int))
}

/// Decodes `bytes` as CP437 text up to the first NUL (or the end).
pub fn nul_terminated_string(bytes: &[u8]) -> (s: String)
    ensures
        s@ == nul_terminated_text(bytes@),
{
    let mut s = String::new();
    let mut i: usize = 0;
    while i < bytes.len() && bytes[i] != 0
        invariant
            i <= bytes@.len(),
            nul_at_or_after(bytes@, 0) == nul_at_or_after(bytes@, i as nat),
            s@ == cp437_text(bytes@.take(i as int)),
        decreases bytes@.len() - i,
    {
        push_char(&mut s, cp437_char(bytes[i]));
        i += 1;
        assert(bytes@.take(i as int) == bytes@.take((i - 1) as int).push(bytes@[i - 1]));
    }
    s
}

/// Font Face record (opcode 174): font index, then the NUL-terminated name.
pub fn decode_font_face(payload: &[u8], cache: &mut StyleCache)
    ensures
        payload@.len() == 0 ==> final(cache)@ == old(cache)@,
        payload@.len() > 0 ==> final(cache)@.fonts == update_slot(
            old(cache)@.fonts,
            payload@[0] as int,
            FontEntryView {
                name: Some(nul_terminated_text(payload@.skip(1))),
                ..old(cache)@.fonts[payload@[0] as int]
            },
        ),
        final(cache)@.patterns == old(cache)@.patterns,
{
    if payload.len() == 0 {
        return;
    }
    let idx = payload[0];
    let raw = &payload[1..payload.len()];
    assert(raw@ == payload@.skip(1));
    cache.set_font_name(idx, nul_terminated_string(raw));
}

/// Font slots after a Font Type record: slot `i < 8` takes the `i`-th
/// little-endian `u16` of the payload when the payload has it.
pub open spec fn with_font_types(fonts: Seq<FontEntryView>, payload: Seq<u8>) -> Seq<
    FontEntryView,
> {
    Seq::new(
        fonts.len(),
        |i: int|
            if i < FONT_TABLE_SIZE && 2 * i + 2 <= payload.len() {
                FontEntryView { type_flags: le16(payload, 2 * i), ..fonts[i] }
            } else {
                fonts[i]
            },
    )
}

/// Font slots after a Font Size record (1/20 point units), laid out as a
/// Font Type record.
pub open spec fn with_font_sizes(fonts: Seq<FontEntryView>, payload: Seq<u8>) -> Seq<
    FontEntryView,
> {
    Seq::new(
        fonts.len(),
        |i: int|
            if i < FONT_TABLE_SIZE && 2 * i + 2 <= payload.len() {
                FontEntryView { size_twentieths: Some(le16(payload, 2 * i)), ..fonts[i] }
            } else {
                fonts[i]
            },
    )
}

/// Font Type record (opcode 176): eight `u16` type words, one per slot.
pub fn decode_font_type(payload: &[u8], cache: &mut StyleCache)
    ensures
        final(cache)@.fonts == with_font_types(old(cache)@.fonts, payload@),
        final(cache)@.patterns == old(cache)@.patterns,
{
    let ghost start = cache@.fonts;
    let mut i: usize = 0;
    while i < FONT_TABLE_SIZE && i * 2 + 2 <= payload.len()
        invariant
            i <= FONT_TABLE_SIZE,
            cache@.patterns == old(cache)@.patterns,
            start == old(cache)@.fonts,
            cache@.fonts.len() == start.len(),
            forall|j: int|
                0 <= j < start.len() ==> #[trigger] cache@.fonts[j] == (if j < i && 2 * j + 2
                    <= payload@.len() {
                    FontEntryView { type_flags: le16(payload@, 2 * j), ..start[j] }
                } else {
                    start[j]
                }),
        decreases FONT_TABLE_SIZE - i,
    {
        let off = i * 2;
        let t = payload[off] as u16 + 256 * (payload[off + 1] as u16);
        cache.set_font_type(i, t);
        i += 1;
    }
    assert(cache@.fonts =~= with_font_types(start, payload@));
}

/// Font Size record (opcode 177): eight `u16` sizes, one per slot.
pub fn decode_font_size(payload: &[u8], cache: &mut StyleCache)
    ensures
        final(cache)@.fonts == with_font_sizes(old(cache)@.fonts, payload@),
        final(cache)@.patterns == old(cache)@.patterns,
{
    let ghost start = cache@.fonts;
    let mut i: usize = 0;
    while i < FONT_TABLE_SIZE && i * 2 + 2 <= payload.len()
        invariant
            i <= FONT_TABLE_SIZE,
            cache@.patterns == old(cache)@.patterns,
            start == old(cache)@.fonts,
            cache@.fonts.len() == start.len(),
            forall|j: int|
                0 <= j < start.len() ==> #[trigger] cache@.fonts[j] == (if j < i && 2 * j + 2
                    <= payload@.len() {
                    FontEntryView { size_twentieths: Some(le16(payload@, 2 * j)), ..start[j] }
                } else {
                    start[j]
                }),
        decreases FONT_TABLE_SIZE - i,
    {
        let off = i * 2;
        let sz = payload[off] as u16 + 256 * (payload[off + 1] as u16);
        cache.set_font_size(i, sz);
        i += 1;
    }
    assert(cache@.fonts =~= with_font_sizes(start, payload@));
}


/// Border line style.
#[derive(Debug, Clone, Copy, PartialEq, Eq, Structural)]
pub enum BorderStyle {
    Thin,
    Medium,
    Double,
}

/// One side of a cell border.
#[derive(Debug)]
pub struct BorderItem {
    pub style: BorderStyle,
    pub color: Option<String>,
}

/// Cell borders.
#[derive(Debug)]
pub struct Border {
    pub left: Option<BorderItem>,
    pub right: Option<BorderItem>,
    pub top: Option<BorderItem>,
    pub bottom: Option<BorderItem>,
}

/// Horizontal alignment of a cell.
#[derive(Debug, Clone, Copy, PartialEq, Eq, Structural)]
pub enum HorizontalAlignment {
    General,
    Left,
    Center,
    Right,
    Fill,
    Justify,
    CenterContinuous,
    Distributed,
}

/// Vertical alignment of a cell.
#[derive(Debug, Clone, Copy, PartialEq, Eq, Structural)]
pub enum VerticalAlignment {
    Bottom,
    Center,
    Distributed,
    Justify,
    Top,
}

/// Cell alignment.
#[derive(Debug, Clone, Copy, PartialEq, Eq, Structural)]
pub struct Alignment {
    pub horizontal: HorizontalAlignment,
    pub vertical: VerticalAlignment,
    pub wrap_text: bool,
}

/// Font of a cell; `sz` in points, colours as `#RRGGBB`.
#[derive(Debug)]
pub struct Font {
    pub name: String,
    pub sz: i32,
    pub b: bool,
    pub i: bool,
    pub u: bool,
    pub color: Option<String>,
}

/// Background fill of a cell.
#[derive(Debug)]
pub struct Fill {
    pub pattern_type: String,
    pub fg_color: Option<String>,
    pub bg_color: Option<String>,
}

/// Style of a cell.
#[derive(Debug)]
pub struct Style {
    pub font: Font,
    pub fill: Fill,
    pub border: Border,
    pub alignment: Option<Alignment>,
}

pub struct BorderItemView {
    pub style: BorderStyle,
    pub color: Option<Seq<char>>,
}

pub struct BorderView {
    pub left: Option<BorderItemView>,
    pub right: Option<BorderItemView>,
    pub top: Option<BorderItemView>,
    pub bottom: Option<BorderItemView>,
}

pub struct FontView {
    pub name: Seq<char>,
    pub sz: i32,
    pub b: bool,
    pub i: bool,
    pub u: bool,
    pub color: Option<Seq<char>>,
}

pub struct FillView {
    pub pattern_type: Seq<char>,
    pub fg_color: Option<Seq<char>>,
    pub bg_color: Option<Seq<char>>,
}

/// The content of a [`Style`].
pub struct StyleView {
    pub font: FontView,
    pub fill: FillView,
    pub border: BorderView,
    pub alignment: Option<Alignment>,
}

pub open spec fn opt_string_view(o: Option<String>) -> Option<Seq<char>> {
    match o {
        Some(s) => Some(s@),
        None => None,
    }
}

pub open spec fn opt_item_view(o: Option<BorderItem>) -> Option<BorderItemView> {
    match o {
        Some(b) => Some(BorderItemView { style: b.style, color: opt_string_view(b.color) }),
        None => None,
    }
}

impl View for Style {
    type V = StyleView;

    open spec fn view(&self) -> StyleView {
        StyleView {
            font: FontView {
                name: self.font.name@,
                sz: self.font.sz,
                b: self.font.b,
                i: self.font.i,
                u: self.font.u,
                color: opt_string_view(self.font.color),
            },
            fill: FillView {
                pattern_type: self.fill.pattern_type@,
                fg_color: opt_string_view(self.fill.fg_color),
                bg_color: opt_string_view(self.fill.bg_color),
            },
            border: BorderView {
                left: opt_item_view(self.border.left),
                right: opt_item_view(self.border.right),
                top: opt_item_view(self.border.top),
                bottom: opt_item_view(self.border.bottom),
            },
            alignment: self.alignment,
        }
    }
}

/// Alignment of a cell that sets none: general, bottom, no wrapping.
pub open spec fn default_alignment() -> Alignment {
    Alignment {
        horizontal: HorizontalAlignment::General,
        vertical: VerticalAlignment::Bottom,
        wrap_text: false,
    }
}

/// Style of a cell that sets none: Calibri 13 in black, no fill, no
/// borders, default alignment.
pub open spec fn default_style() -> StyleView {
    StyleView {
        font: FontView {
            name: "Calibri"@,
            sz: 13,
            b: false,
            i: false,
            u: false,
            color: Some("#000000"@),
        },
        fill: FillView { pattern_type: "none"@, fg_color: None, bg_color: None },
        border: BorderView { left: None, right: None, top: None, bottom: None },
        alignment: None,
    }
}

impl Style {
    /// The style of a cell that sets none (see [`default_style`]).
    pub fn default_style() -> (s: Style)
        ensures
            s@ == default_style(),
    {
        Style {
            font: Font {
                name: String::from_str("Calibri"),
                sz: 13,
                b: false,
                i: false,
                u: false,
                color: Some(String::from_str("#000000")),
            },
            fill: Fill { pattern_type: String::from_str("none"), fg_color: None, bg_color: None },
            border: Border { left: None, right: None, top: None, bottom: None },
            alignment: None,
        }
    }
}

fn clone_opt_string(o: &Option<String>) -> (r: Option<String>)
    ensures
        opt_string_view(r) == opt_string_view(*o),
{
    match o {
        Some(s) => Some(s.clone()),
        None => None,
    }
}

fn clone_item(o: &Option<BorderItem>) -> (r: Option<BorderItem>)
    ensures
        opt_item_view(r) == opt_item_view(*o),
{
    match o {
        Some(b) => Some(BorderItem { style: b.style, color: clone_opt_string(&b.color) }),
        None => None,
    }
}

/// A copy of `s`.
pub fn clone_style(s: &Style) -> (r: Style)
    ensures
        r@ == s@,
{
    Style {
        font: Font {
            name: s.font.name.clone(),
            sz: s.font.sz,
            b: s.font.b,
            i: s.font.i,
            u: s.font.u,
            color: clone_opt_string(&s.font.color),
        },
        fill: Fill {
            pattern_type: s.fill.pattern_type.clone(),
            fg_color: clone_opt_string(&s.fill.fg_color),
            bg_color: clone_opt_string(&s.fill.bg_color),
        },
        border: Border {
            left: clone_item(&s.border.left),
            right: clone_item(&s.border.right),
            top: clone_item(&s.border.top),
            bottom: clone_item(&s.border.bottom),
        },
        alignment: s.alignment,
    }
}

/// Lotus 8-colour CGA palette, indexed by the low 3 bits of `idx`
/// (white at 0 to black at 7).
pub open spec fn palette_color(idx: u8) -> &'static str {
    let i = idx & 0x07;
    if i == 0 {
        "#FFFFFF"
    } else if i == 1 {
        "#0000FF"
    } else if i == 2 {
        "#00FF00"
    } else if i == 3 {
        "#00FFFF"
    } else if i == 4 {
        "#FF0000"
    } else if i == 5 {
        "#FF00FF"
    } else if i == 6 {
        "#FFFF00"
    } else {
        "#000000"
    }
}

/// Palette colour of `idx` (see [`palette_color`]).
pub fn palette(idx: u8) -> (c: &'static str)
    ensures
        c == palette_color(idx),
{
    let i = idx & 0x07;
    if i == 0 {
        "#FFFFFF"
    } else if i == 1 {
        "#0000FF"
    } else if i == 2 {
        "#00FF00"
    } else if i == 3 {
        "#00FFFF"
    } else if i == 4 {
        "#FF0000"
    } else if i == 5 {
        "#FF00FF"
    } else if i == 6 {
        "#FFFF00"
    } else {
        "#000000"
    }
}

/// Line style of the low 2 bits of a border slot: 0 none, 1 thin,
/// 2 medium, 3 double.
pub open spec fn border_style_of(bits: u8) -> Option<BorderStyle> {
    let b = bits & 0x03;
    if b == 0 {
        None
    } else if b == 1 {
        Some(BorderStyle::Thin)
    } else if b == 2 {
        Some(BorderStyle::Medium)
    } else {
        Some(BorderStyle::Double)
    }
}

fn border_style(bits: u8) -> (r: Option<BorderStyle>)
    ensures
        r == border_style_of(bits),
{
    let b = bits & 0x03;
    if b == 0 {
        None
    } else if b == 1 {
        Some(BorderStyle::Thin)
    } else if b == 2 {
        Some(BorderStyle::Medium)
    } else {
        Some(BorderStyle::Double)
    }
}

/// Border side of the low 2 bits of `bits`, drawn in black.
pub open spec fn border_item_of(bits: u8) -> Option<BorderItemView> {
    match border_style_of(bits) {
        Some(style) => Some(BorderItemView { style, color: Some("#000000"@) }),
        None => None,
    }
}

fn border_item(bits: u8) -> (r: Option<BorderItem>)
    ensures
        opt_item_view(r) == border_item_of(bits),
{
    match border_style(bits) {
        Some(style) => Some(BorderItem { style, color: Some(String::from_str("#000000")) }),
        None => None,
    }
}

/// `a`, or the default alignment when there is none.
pub open spec fn alignment_or_default(a: Option<Alignment>) -> Alignment {
    match a {
        Some(x) => x,
        None => default_alignment(),
    }
}

/// Font of a cell with attribute `attr` on top of `base`: when the font
/// table has slot `attr.font_index`, its non-empty name, its size (1/20
/// point, rounded to whole points) and its bold/italic/underline flags
/// replace the base's; a pattern can then turn bold, italic and underline
/// on; the palette entry of the low 3 bits of `font_color`, unless 0, is
/// the colour.
pub open spec fn built_font(
    cache: StyleCacheView,
    attr: LotAttr,
    pattern: Option<PatternEntry>,
    base: FontView,
) -> FontView {
    let font1 = if (attr.font_index as int) < cache.fonts.len() {
        let f = cache.fonts[attr.font_index as int];
        FontView {
            name: match f.name {
                Some(n) => if n.len() > 0 {
                    n
                } else {
                    base.name
                },
                None => base.name,
            },
            sz: match f.size_twentieths {
                Some(s) => ((s + 10) / 20) as i32,
                None => base.sz,
            },
            b: f.type_flags & 0x0001 != 0,
            i: f.type_flags & 0x0002 != 0,
            u: f.type_flags & 0x0004 != 0,
            color: base.color,
        }
    } else {
        base
    };
    let font2 = match pattern {
        Some(p) => FontView {
            b: font1.b || p.bold,
            i: font1.i || p.italic,
            u: font1.u || p.underline,
            ..font1
        },
        None => font1,
    };
    let fc = attr.font_color & 0x07;
    if fc != 0 {
        FontView { color: Some(palette_color(fc)@), ..font2 }
    } else {
        font2
    }
}

/// Fill of a cell with attribute `attr`: solid palette colour of the low 3
/// bits of `back_byte` when its low 5 bits are not 0, else `base`.
pub open spec fn built_fill(attr: LotAttr, base: FillView) -> FillView {
    let back = attr.back_byte & 0x1F;
    if back != 0 {
        FillView {
            pattern_type: "solid"@,
            fg_color: Some(palette_color(back & 0x07)@),
            bg_color: Some(palette_color(back & 0x07)@),
        }
    } else {
        base
    }
}

/// Borders of a cell with attribute `attr`: when `line_style` is not 0, its
/// bit pairs from the low end are left, right, top and bottom; else `base`.
pub open spec fn built_border(attr: LotAttr, base: BorderView) -> BorderView {
    let ls = attr.line_style;
    if ls != 0 {
        BorderView {
            left: border_item_of(ls),
            right: border_item_of(ls >> 2),
            top: border_item_of(ls >> 4),
            bottom: border_item_of(ls >> 6),
        }
    } else {
        base
    }
}

/// Alignment of a cell with attribute `attr`: centered when bit 7 of
/// `back_byte` is set or the pattern's horizontal alignment is 3; the
/// pattern's vertical alignment 1 / 2 / 4 sets top / center / bottom.
pub open spec fn built_alignment(
    attr: LotAttr,
    pattern: Option<PatternEntry>,
    base: Option<Alignment>,
) -> Option<Alignment> {
    let centered = attr.back_byte & 0x80 != 0 || match pattern {
        Some(p) => p.h_align == 3,
        None => false,
    };
    let al1 = if centered {
        Some(Alignment { horizontal: HorizontalAlignment::Center, ..alignment_or_default(base) })
    } else {
        base
    };
    match pattern {
        Some(p) => {
            let v = p.v_align & 0x07;
            if v == 1 {
                Some(Alignment { vertical: VerticalAlignment::Top, ..alignment_or_default(al1) })
            } else if v == 2 {
                Some(
                    Alignment { vertical: VerticalAlignment::Center, ..alignment_or_default(al1) },
                )
            } else if v == 4 {
                Some(
                    Alignment { vertical: VerticalAlignment::Bottom, ..alignment_or_default(al1) },
                )
            } else {
                al1
            }
        },
        None => al1,
    }
}

/// Style of a cell with attribute `attr`, on top of `base`.
pub open spec fn built_style(
    cache: StyleCacheView,
    attr: LotAttr,
    pattern: Option<PatternEntry>,
    base: StyleView,
) -> StyleView {
    StyleView {
        font: built_font(cache, attr, pattern, base.font),
        fill: built_fill(attr, base.fill),
        border: built_border(attr, base.border),
        alignment: built_alignment(attr, pattern, base.alignment),
    }
}

fn alignment_or_default_exec(a: Option<Alignment>) -> (r: Alignment)
    ensures
        r == alignment_or_default(a),
{
    match a {
        Some(x) => x,
        None => Alignment {
            horizontal: HorizontalAlignment::General,
            vertical: VerticalAlignment::Bottom,
            wrap_text: false,
        },
    }
}

pub open spec fn font_view(f: Font) -> FontView {
    FontView { name: f.name@, sz: f.sz, b: f.b, i: f.i, u: f.u, color: opt_string_view(f.color) }
}

pub open spec fn fill_view(f: Fill) -> FillView {
    FillView {
        pattern_type: f.pattern_type@,
        fg_color: opt_string_view(f.fg_color),
        bg_color: opt_string_view(f.bg_color),
    }
}

pub open spec fn border_view(b: Border) -> BorderView {
    BorderView {
        left: opt_item_view(b.left),
        right: opt_item_view(b.right),
        top: opt_item_view(b.top),
        bottom: opt_item_view(b.bottom),
    }
}

fn build_font(cache: &StyleCache, attr: &LotAttr, pattern: Option<PatternEntry>, base: Font) -> (f:
    Font)
    ensures
        font_view(f) == built_font(cache@, *attr, pattern, font_view(base)),
{
    let mut font = base;
    match cache.font(attr.font_index) {
        Some(font_entry) => {
            match &font_entry.name {
                Some(name) => {
                    if name.as_str().unicode_len() > 0 {
                        font.name = name.clone();
                    }
                },
                None => {},
            }
            match font_entry.size_twentieths {
                Some(size) => {
                    font.sz = ((size as i32) + 10) / 20;
                },
                None => {},
            }
            font.b = font_entry.bold();
            font.i = font_entry.italic();
            font.u = font_entry.underline();
        },
        None => {},
    }
    match pattern {
        Some(p) => {
            if p.bold {
                font.b = true;
            }
            if p.italic {
                font.i = true;
            }
            if p.underline {
                font.u = true;
            }
        },
        None => {},
    }
    let font_col = attr.font_color & 0x07;
    if font_col != 0 {
        font.color = Some(String::from_str(palette(font_col)));
    }
    font
}

fn build_fill(attr: &LotAttr, base: Fill) -> (f: Fill)
    ensures
        fill_view(f) == built_fill(*attr, fill_view(base)),
{
    let back = attr.back_byte & 0x1F;
    if back != 0 {
        Fill {
            pattern_type: String::from_str("solid"),
            fg_color: Some(String::from_str(palette(back & 0x07))),
            bg_color: Some(String::from_str(palette(back & 0x07))),
        }
    } else {
        base
    }
}

fn build_border(attr: &LotAttr, base: Border) -> (b: Border)
    ensures
        border_view(b) == built_border(*attr, border_view(base)),
{
    if attr.line_style != 0 {
        let left = attr.line_style;
        let right = left >> 2;
        let top = right >> 2;
        let bottom = top >> 2;
        assert(top == left >> 4) by (bit_vector)
            requires
                right == left >> 2,
                top == right >> 2,
        ;
        assert(bottom == left >> 6) by (bit_vector)
            requires
                right == left >> 2,
                top == right >> 2,
                bottom == top >> 2,
        ;
        Border {
            left: border_item(left),
            right: border_item(right),
            top: border_item(top),
            bottom: border_item(bottom),
        }
    } else {
        base
    }
}

fn build_alignment(attr: &LotAttr, pattern: Option<PatternEntry>, base: Option<Alignment>) -> (a:
    Option<Alignment>)
    ensures
        a == built_alignment(*attr, pattern, base),
{
    let mut result = base;
    let h_center = match pattern {
        Some(p) => p.h_align == 3,
        None => false,
    };
    if attr.centered() || h_center {
        let mut alignment = alignment_or_default_exec(result);
        alignment.horizontal = HorizontalAlignment::Center;
        result = Some(alignment);
    }
    match pattern {
        Some(p) => {
            let v = p.v_align & 0x07;
            if v == 1 {
                let mut alignment = alignment_or_default_exec(result);
                alignment.vertical = VerticalAlignment::Top;
                result = Some(alignment);
            } else if v == 2 {
                let mut alignment = alignment_or_default_exec(result);
                alignment.vertical = VerticalAlignment::Center;
                result = Some(alignment);
            } else if v == 4 {
                let mut alignment = alignment_or_default_exec(result);
                alignment.vertical = VerticalAlignment::Bottom;
                result = Some(alignment);
            }
        },
        None => {},
    }
    result
}

/// Builds the style of a cell with attribute `attr` on top of `base`,
/// resolved against the font table and an optional pattern (see
/// [`built_style`]).
pub fn build_style(
    cache: &StyleCache,
    attr: &LotAttr,
    pattern: Option<&PatternEntry>,
    base: &Style,
) -> (style: Style)
    ensures
        style@ == built_style(
            cache@,
            *attr,
            match pattern {
                Some(p) => Some(*p),
                None => None,
            },
            base@,
        ),
{
    let p: Option<PatternEntry> = match pattern {
        Some(p) => Some(*p),
        None => None,
    };
    let copy = clone_style(base);
    let Style { font, fill, border, alignment } = copy;
    Style {
        font: build_font(cache, attr, p, font),
        fill: build_fill(attr, fill),
        border: build_border(attr, border),
        alignment: build_alignment(attr, p, alignment),
    }
}

/// The borders of a built style, when `line_style` is not 0, come from its
/// bit pairs counted from the low end: bits 0-1 give the left side, bits
/// 2-3 the right, bits 4-5 the top and bits 6-7 the bottom (see
/// [`law_border_side_styles`] for what a pair means).
pub proof fn law_border_bit_pairs(
    cache: StyleCacheView,
    attr: LotAttr,
    pattern: Option<PatternEntry>,
    base: StyleView,
)
    requires
        attr.line_style != 0,
    ensures
        built_style(cache, attr, pattern, base).border == (BorderView {
            left: border_item_of(attr.line_style % 4),
            right: border_item_of((attr.line_style / 4) % 4),
            top: border_item_of((attr.line_style / 16) % 4),
            bottom: border_item_of(attr.line_style / 64),
        }),
{
    let ls = attr.line_style;
    assert((ls & 3) == (ls % 4) & 3) by (bit_vector);
    assert(((ls >> 2) & 3) == ((ls / 4) % 4) & 3) by (bit_vector);
    assert(((ls >> 4) & 3) == ((ls / 16) % 4) & 3) by (bit_vector);
    assert(((ls >> 6) & 3) == (ls / 64) & 3) by (bit_vector);
}

/// A two-bit border slot: 0 draws no line, 1 a thin, 2 a medium and 3 a
/// double line, always in black; only the low two bits count.
pub proof fn law_border_side_styles(bits: u8)
    ensures
        bits % 4 == 0 ==> border_item_of(bits) is None,
        bits % 4 == 1 ==> border_item_of(bits) == Some(
            BorderItemView { style: BorderStyle::Thin, color: Some("#000000"@) },
        ),
        bits % 4 == 2 ==> border_item_of(bits) == Some(
            BorderItemView { style: BorderStyle::Medium, color: Some("#000000"@) },
        ),
        bits % 4 == 3 ==> border_item_of(bits) == Some(
            BorderItemView { style: BorderStyle::Double, color: Some("#000000"@) },
        ),
{
    assert((bits & 3) == bits % 4) by (bit_vector);
}

/// Gives cell `(row, column)` (1-based) of sheet `sheet` a copy of `style`.
/// Fails (changing nothing) when there is no such sheet, row or column.
pub fn apply_style_to_cell(model: &mut Model, sheet: u32, row: u32, column: u32, style: &Style) -> (r: Result<
    (),
    String,
>)
    ensures
        in_range(old(model)@, sheet, row as i32, column as i32) ==> r is Ok && final(model)@ == (ModelView {
            sheets: old(model)@.sheets.update(
                sheet as int,
                SheetView {
                    cells: cells_with_style(
                        old(model)@.sheets[sheet as int].cells,
                        row as i32,
                        column as i32,
                        style@,
                    ),
                    ..old(model)@.sheets[sheet as int]
                },
            ),
            ..old(model)@
        }),
        !in_range(old(model)@, sheet, row as i32, column as i32) ==> r is Err && final(model)@ == old(model)@,
{
    model.set_cell_style(sheet, row as i32, column as i32, clone_style(style))
}

} // verus!
