//! Display settings: the font tier, kept in a small JSON file between runs.
use vstd::prelude::*;

verus! {

/// Font tiers; each fixes the tile size in pixels and so the window size.
#[derive(Clone, Copy, PartialEq, Eq, Structural, Debug)]
pub enum FontSize {
    /// 8 by 8 tiles, a 1280 by 720 window.
    Small,
    /// 10 by 10 tiles, a 1600 by 900 window.
    Medium,
    /// 12 by 12 tiles, a 1920 by 1080 window.
    Large,
    /// 16 by 16 tiles, a 2560 by 1440 window.
    XLarge,
}

pub open spec fn spec_tile_px(f: FontSize) -> u32 {
    match f {
        FontSize::Small => 8,
        FontSize::Medium => 10,
        FontSize::Large => 12,
        FontSize::XLarge => 16,
    }
}

pub open spec fn spec_label(f: FontSize) -> Seq<char> {
    match f {
        FontSize::Small => "Small  (1280×720)"@,
        FontSize::Medium => "Medium (1600×900)"@,
        FontSize::Large => "Large  (1920×1080)"@,
        FontSize::XLarge => "XLarge (2560×1440)"@,
    }
}

pub open spec fn spec_font_file(f: FontSize) -> Seq<char> {
    match f {
        FontSize::Small => "CGA8x8thick.png"@,
        FontSize::XLarge => "CGA8x8thick.png"@,
        FontSize::Medium => "rexpaint_cp437_10x10.png"@,
        FontSize::Large => "Alloy_curses_12x12.png"@,
    }
}

pub open spec fn spec_font_native_px(f: FontSize) -> u32 {
    match f {
        FontSize::Small => 8,
        FontSize::XLarge => 8,
        FontSize::Medium => 10,
        FontSize::Large => 12,
    }
}

pub open spec fn spec_next(f: FontSize) -> FontSize {
    match f {
        FontSize::Small => FontSize::Medium,
        FontSize::Medium => FontSize::Large,
        FontSize::Large => FontSize::XLarge,
        FontSize::XLarge => FontSize::Small,
    }
}

/// The tier of a tile size; unknown sizes give Medium.
pub open spec fn spec_from_px(px: u32) -> FontSize {
    if px == 8 {
        FontSize::Small
    } else if px == 12 {
        FontSize::Large
    } else if px == 16 {
        FontSize::XLarge
    } else {
        FontSize::Medium
    }
}

impl FontSize {
    /// Tile size in pixels.
    pub fn tile_px(self) -> (r: u32)
        ensures
            r == spec_tile_px(self),
    {
        match self {
            FontSize::Small => 8,
            FontSize::Medium => 10,
            FontSize::Large => 12,
            FontSize::XLarge => 16,
        }
    }

    /// Menu label: the tier's name and its window size.
    pub fn label(self) -> (r: &'static str)
        ensures
            r@ == spec_label(self),
    {
        match self {
            FontSize::Small => "Small  (1280×720)",
            FontSize::Medium => "Medium (1600×900)",
            FontSize::Large => "Large  (1920×1080)",
            FontSize::XLarge => "XLarge (2560×1440)",
        }
    }

    /// The font bitmap file to load for this tier.
    pub fn font_file(self) -> (r: &'static str)
        ensures
            r@ == spec_font_file(self),
    {
        match self {
            FontSize::Small | FontSize::XLarge => "CGA8x8thick.png",
            FontSize::Medium => "rexpaint_cp437_10x10.png",
            FontSize::Large => "Alloy_curses_12x12.png",
        }
    }

    /// The native glyph size declared in the font bitmap.
    pub fn font_native_px(self) -> (r: u32)
        ensures
            r == spec_font_native_px(self),
    {
        match self {
            FontSize::Small | FontSize::XLarge => 8,
            FontSize::Medium => 10,
            FontSize::Large => 12,
        }
    }

    /// The next tier, wrapping from the largest back to the smallest.
    pub fn next(self) -> (r: FontSize)
        ensures
            r == spec_next(self),
    {
        match self {
            FontSize::Small => FontSize::Medium,
            FontSize::Medium => FontSize::Large,
            FontSize::Large => FontSize::XLarge,
            FontSize::XLarge => FontSize::Small,
        }
    }

    /// The tier whose tile size is `px`; Medium when no tier has that size.
    pub fn from_px(px: u32) -> (r: FontSize)
        ensures
            r == spec_from_px(px),
    {
        match px {
            8 => FontSize::Small,
            12 => FontSize::Large,
            16 => FontSize::XLarge,
            _ => FontSize::Medium,
        }
    }
}

/// Cycling through the tiers visits all four and comes back after four steps.
pub proof fn law_next_cycles(f: FontSize)
    ensures
        spec_next(spec_next(spec_next(spec_next(f)))) == f,
        spec_next(f) != f,
{
}

/// Saving a tier (as its tile size) and loading it back gives the same tier.
pub proof fn law_tile_px_round_trip(f: FontSize)
    ensures
        spec_from_px(spec_tile_px(f)) == f,
{
}

/// The font bitmap never has larger glyphs than the tiles drawn with it.
pub proof fn law_native_px_fits_tile(f: FontSize)
    ensures
        spec_font_native_px(f) <= spec_tile_px(f),
{
}

/// The decimal digits of `n`.
pub open spec fn decimal(n: nat) -> Seq<char>
    decreases n,
{
    if n < 10 {
        seq![((48 + n) as u8) as char]
    } else {
        decimal(n / 10).push(((48 + n % 10) as u8) as char)
    }
}

/// `pat` occurs in `s` as a contiguous run.
pub open spec fn occurs_in(pat: Seq<char>, s: Seq<char>) -> bool {
    exists|i: int| 0 <= i && i + pat.len() <= s.len() && #[trigger] s.subrange(i, i + pat.len()) == pat
}

/// The window size of a tier as the label writes it: width, a times sign,
/// height, in pixels.
pub open spec fn window_text(f: FontSize) -> Seq<char> {
    decimal((160 * spec_tile_px(f)) as nat) + seq!['×'] + decimal((90 * spec_tile_px(f)) as nat)
}

/// Every tier's label shows the size of a 160 by 90 tile screen at that
/// tier's tile size.
pub proof fn law_label_shows_window(f: FontSize)
    ensures
        occurs_in(window_text(f), spec_label(f)),
{
    reveal_with_fuel(decimal, 5);
    let w = window_text(f);
    let l = spec_label(f);
    match f {
        FontSize::Small => {
            reveal_strlit("Small  (1280×720)");
            assert(w =~= seq!['1', '2', '8', '0', '×', '7', '2', '0']);
            assert(l.subrange(8, 8 + w.len() as int) =~= w);
        },
        FontSize::Medium => {
            reveal_strlit("Medium (1600×900)");
            assert(w =~= seq!['1', '6', '0', '0', '×', '9', '0', '0']);
            assert(l.subrange(8, 8 + w.len() as int) =~= w);
        },
        FontSize::Large => {
            reveal_strlit("Large  (1920×1080)");
            assert(w =~= seq!['1', '9', '2', '0', '×', '1', '0', '8', '0']);
            assert(l.subrange(8, 8 + w.len() as int) =~= w);
        },
        FontSize::XLarge => {
            reveal_strlit("XLarge (2560×1440)");
            assert(w =~= seq!['2', '5', '6', '0', '×', '1', '4', '4', '0']);
            assert(l.subrange(8, 8 + w.len() as int) =~= w);
        },
    }
}

/// The glyph size of a font file as its name writes it: `n` by `n`.
pub open spec fn glyph_size_text(n: nat) -> Seq<char> {
    decimal(n) + seq!['x'] + decimal(n)
}

/// Every tier's font file is a PNG whose name gives the glyph size the
/// tier declares for it.
pub proof fn law_font_file_names_glyph_size(f: FontSize)
    ensures
        spec_font_file(f).len() >= 4,
        spec_font_file(f).subrange(spec_font_file(f).len() - 4, spec_font_file(f).len() as int) == seq!['.', 'p', 'n', 'g'],
        occurs_in(glyph_size_text(spec_font_native_px(f) as nat), spec_font_file(f)),
{
    reveal_with_fuel(decimal, 3);
    let t = glyph_size_text(spec_font_native_px(f) as nat);
    let n = spec_font_file(f);
    match f {
        FontSize::Small | FontSize::XLarge => {
            reveal_strlit("CGA8x8thick.png");
            assert(t =~= seq!['8', 'x', '8']);
            assert(n.subrange(3, 3 + t.len() as int) =~= t);
            assert(n.subrange(n.len() - 4, n.len() as int) =~= seq!['.', 'p', 'n', 'g']);
        },
        FontSize::Medium => {
            reveal_strlit("rexpaint_cp437_10x10.png");
            assert(t =~= seq!['1', '0', 'x', '1', '0']);
            assert(n.subrange(15, 15 + t.len() as int) =~= t);
            assert(n.subrange(n.len() - 4, n.len() as int) =~= seq!['.', 'p', 'n', 'g']);
        },
        FontSize::Large => {
            reveal_strlit("Alloy_curses_12x12.png");
            assert(t =~= seq!['1', '2', 'x', '1', '2']);
            assert(n.subrange(13, 13 + t.len() as int) =~= t);
            assert(n.subrange(n.len() - 4, n.len() as int) =~= seq!['.', 'p', 'n', 'g']);
        },
    }
}

/// The value of field `key` of a JSON document, when the text parses as
/// JSON, the document is an object holding that field and the field is a
/// non-negative integer that fits in `u64`; None otherwise.
pub uninterp spec fn json_field_u64(text: Seq<char>, key: Seq<char>) -> Option<u64>;

/// Parses `text` with `serde_json::from_str` into a `serde_json::Value`, then
/// reads `value[key]` with `Value::as_u64`. Claimed: the result is
/// [`json_field_u64`] of the text and the key, a function of those two
/// alone; what that is for a given text is left to serde_json (the name's
/// doc comment says it in words).
#[verifier::external_body]
fn json_field(text: &str, key: &str) -> (r: Option<u64>)
    ensures
        r == json_field_u64(text@, key@),
{
    match serde_json::from_str::<serde_json::Value>(text) {
        Ok(value) => value[key].as_u64(),
        Err(_) => None,
    }
}

/// The field of the settings file that holds the tile size.
pub open spec fn font_px_key() -> Seq<char> {
    "font_px"@
}

/// The settings kept between runs.
pub struct Settings {
    pub font_size: FontSize,
}

/// The tier a stored `font_px` value selects: the tier of that tile size
/// (the value cut to 32 bits), Medium when there is no value.
pub open spec fn spec_font_of_px(px: Option<u64>) -> FontSize {
    match px {
        Some(p) => spec_from_px(p as u32),
        None => FontSize::Medium,
    }
}

impl Settings {
    /// Settings for a stored `font_px` value (None when the file or the field
    /// is missing or unreadable).
    pub fn from_font_px(px: Option<u64>) -> (r: Settings)
        ensures
            r.font_size == spec_font_of_px(px),
    {
        let font_size = match px {
            Some(p) => FontSize::from_px(p as u32),
            None => FontSize::Medium,
        };
        Settings { font_size }
    }

    /// Settings from the text of the settings file, None when it could not be
    /// read: the file's `font_px` field picks the tier; Medium by default.
    pub fn from_file_text(text: Option<&str>) -> (r: Settings)
        ensures
            text is None ==> r.font_size == FontSize::Medium,
            text is Some ==> r.font_size == spec_font_of_px(json_field_u64(text->0@, font_px_key())),
    {
        match text {
            Some(t) => {
                let px = json_field(t, "font_px");
                Settings::from_font_px(px)
            },
            None => Settings::from_font_px(None),
        }
    }

    /// The value stored as `font_px` in the settings file.
    pub fn font_px(&self) -> (r: u32)
        ensures
            r == spec_tile_px(self.font_size),
    {
        self.font_size.tile_px()
    }
}

} // verus!
