//! The palette: 64 distinct colours, one for each pixel code.

use vstd::prelude::*;
use crate::encoding::{hex_triple, parse_hex_triple};

verus! {

/// Colours in a palette.
pub const PALETTE_SIZE: usize = 64;

/// Entries that a colour table can have: each index must fit in a byte.
pub const MAX_ENTRIES: usize = 256;

/// A colour.
#[derive(Debug, Clone, Copy, PartialEq, Eq, Structural)]
pub struct Rgb {
    pub r: u8,
    pub g: u8,
    pub b: u8,
}

/// Why colours do not make a table or a palette.
#[derive(Debug, Clone, Copy, PartialEq, Eq)]
pub enum PaletteError {
    /// An entry is not six hexadecimal digits.
    InvalidColor,
    /// There are more entries than a byte can index.
    TooManyColors,
    /// There are not exactly 64 colours.
    WrongSize,
    /// A colour occurs twice.
    Duplicate,
}

/// No colour occurs twice in `colors`.
pub open spec fn distinct(colors: Seq<Rgb>) -> bool {
    forall|a: int, b: int| 0 <= a < b < colors.len() ==> colors[a] != colors[b]
}

/// `colors` are a palette: 64 colours, none twice.
pub open spec fn is_palette(colors: Seq<Rgb>) -> bool {
    colors.len() == PALETTE_SIZE && distinct(colors)
}

/// `color` is one of `colors`.
pub open spec fn has_color(colors: Seq<Rgb>, color: Rgb) -> bool {
    exists|c: int| 0 <= c < colors.len() && colors[c] == color
}

/// The code of `color`: its position in `colors`, if it is one of them.
pub open spec fn code_of(colors: Seq<Rgb>, color: Rgb) -> Option<u8> {
    if has_color(colors, color) {
        Some((choose|c: int| 0 <= c < colors.len() && colors[c] == color) as u8)
    } else {
        None
    }
}

/// The colour that an entry of a colour table spells.
pub open spec fn entry_color(entry: Seq<char>) -> Option<Rgb> {
    match hex_triple(entry) {
        Some((r, g, b)) => Some(Rgb { r, g, b }),
        None => None,
    }
}

/// Every entry spells a colour.
pub open spec fn entries_valid(entries: Seq<String>) -> bool {
    forall|i: int| 0 <= i < entries.len() ==> entry_color((#[trigger] entries[i])@).is_some()
}

/// The colours that the entries spell.
pub open spec fn entries_colors(entries: Seq<String>) -> Seq<Rgb> {
    Seq::new(entries.len(), |i: int| entry_color(entries[i]@).unwrap())
}

/// In a palette each code has its own colour, and the code of a code's
/// colour is that code: codes and colours correspond one to one.
pub proof fn law_palette_bijection(colors: Seq<Rgb>)
    requires
        is_palette(colors),
    ensures
        forall|a: int, b: int|
            0 <= a < PALETTE_SIZE && 0 <= b < PALETTE_SIZE && a != b ==> colors[a] != colors[b],
        forall|c: int|
            0 <= c < PALETTE_SIZE ==> code_of(colors, #[trigger] colors[c]) == Some(c as u8),
        forall|color: Rgb|
            #![trigger code_of(colors, color)]
            code_of(colors, color) matches Some(c) ==> c < PALETTE_SIZE && colors[c as int]
                == color,
{
    assert forall|a: int, b: int|
        0 <= a < PALETTE_SIZE && 0 <= b < PALETTE_SIZE && a != b implies colors[a]
        != colors[b] by {
        if a < b {
            assert(colors[a] != colors[b]);
        } else {
            assert(colors[b] != colors[a]);
        }
    }
    assert forall|c: int| 0 <= c < PALETTE_SIZE implies code_of(colors, #[trigger] colors[c])
        == Some(c as u8) by {
        lemma_code_of(colors, c);
    }
}

/// The code of the colour at position `c` of distinct colours is `c`.
pub proof fn lemma_code_of(colors: Seq<Rgb>, c: int)
    requires
        distinct(colors),
        0 <= c < colors.len() <= MAX_ENTRIES,
    ensures
        code_of(colors, colors[c]) == Some(c as u8),
{
    let color = colors[c];
    assert(has_color(colors, color));
    let found = choose|k: int| 0 <= k < colors.len() && colors[k] == color;
    if found < c {
        assert(colors[found] != colors[c]);
    } else if c < found {
        assert(colors[c] != colors[found]);
    }
}

/// Reads a colour table: the colour of each entry, indexed by the entry's
/// position.
///
/// Fails with `InvalidColor` when some entry is not six hexadecimal digits,
/// else with `TooManyColors` when there are more than 256 entries.
pub fn colors_map(entries: &Vec<String>) -> (table: Result<Vec<Rgb>, PaletteError>)
    ensures
        match table {
            Ok(colors) => {
                &&& entries_valid(entries@)
                &&& entries@.len() <= MAX_ENTRIES
                &&& colors@ == entries_colors(entries@)
            },
            Err(PaletteError::InvalidColor) => !entries_valid(entries@),
            Err(PaletteError::TooManyColors) => entries_valid(entries@) && entries@.len()
                > MAX_ENTRIES,
            Err(_) => false,
        },
{
    let mut colors: Vec<Rgb> = Vec::new();
    let mut i: usize = 0;
    while i < entries.len()
        invariant
            i <= entries.len(),
            colors@.len() == i,
            forall|k: int| 0 <= k < i ==> entry_color((#[trigger] entries@[k])@) == Some(colors@[k]),
        decreases entries.len() - i,
    {
        match parse_hex_triple(entries[i].as_str()) {
            Some((r, g, b)) => {
                colors.push(Rgb { r, g, b });
            },
            None => {
                return Err(PaletteError::InvalidColor);
            },
        }
        i += 1;
    }
    if entries.len() > MAX_ENTRIES {
        return Err(PaletteError::TooManyColors);
    }
    assert(colors@ =~= entries_colors(entries@));
    Ok(colors)
}

/// The table from codes to colours: each code with its colour, in order of
/// code.
pub fn colors(table: &Vec<Rgb>) -> (pairs: Vec<(u8, Rgb)>)
    requires
        table@.len() <= MAX_ENTRIES,
    ensures
        pairs@.len() == table@.len(),
        forall|i: int| 0 <= i < table@.len() ==> #[trigger] pairs@[i] == (i as u8, table@[i]),
{
    let mut pairs: Vec<(u8, Rgb)> = Vec::new();
    let mut i: usize = 0;
    while i < table.len()
        invariant
            i <= table@.len() <= MAX_ENTRIES,
            pairs@.len() == i,
            forall|k: int| 0 <= k < i ==> #[trigger] pairs@[k] == (k as u8, table@[k]),
        decreases table.len() - i,
    {
        pairs.push((i as u8, table[i]));
        i += 1;
    }
    pairs
}

/// The table from colours to codes: each colour with its code, in order of
/// code.
pub fn codes(table: &Vec<Rgb>) -> (pairs: Vec<(Rgb, u8)>)
    requires
        table@.len() <= MAX_ENTRIES,
    ensures
        pairs@.len() == table@.len(),
        forall|i: int| 0 <= i < table@.len() ==> #[trigger] pairs@[i] == (table@[i], i as u8),
{
    let mut pairs: Vec<(Rgb, u8)> = Vec::new();
    let mut i: usize = 0;
    while i < table.len()
        invariant
            i <= table@.len() <= MAX_ENTRIES,
            pairs@.len() == i,
            forall|k: int| 0 <= k < i ==> #[trigger] pairs@[k] == (table@[k], k as u8),
        decreases table.len() - i,
    {
        pairs.push((table[i], i as u8));
        i += 1;
    }
    pairs
}

/// Finds the first position of `color` in `colors`.
fn find_color(colors: &Vec<Rgb>, color: Rgb) -> (at: Option<usize>)
    ensures
        match at {
            Some(i) => i < colors@.len() && colors@[i as int] == color && forall|k: int|
                0 <= k < i ==> colors@[k] != color,
            None => !has_color(colors@, color),
        },
{
    let mut i: usize = 0;
    while i < colors.len()
        invariant
            i <= colors.len(),
            forall|k: int| 0 <= k < i ==> colors@[k] != color,
        decreases colors.len() - i,
    {
        if colors[i] == color {
            return Some(i);
        }
        i += 1;
    }
    None
}

/// A palette.
#[derive(Debug)]
pub struct Palette {
    colors: Vec<Rgb>,
}

impl View for Palette {
    type V = Seq<Rgb>;

    closed spec fn view(&self) -> Seq<Rgb> {
        self.colors@
    }
}

impl Palette {
    #[verifier::type_invariant]
    spec fn well_formed(&self) -> bool {
        is_palette(self.colors@)
    }

    /// Takes `colors` as a palette.
    ///
    /// Fails with `WrongSize` when there are not exactly 64 colours, else
    /// with `Duplicate` when a colour occurs twice.
    pub fn new(colors: Vec<Rgb>) -> (palette: Result<Palette, PaletteError>)
        ensures
            match palette {
                Ok(p) => p@ == colors@ && is_palette(colors@),
                Err(PaletteError::WrongSize) => colors@.len() != PALETTE_SIZE,
                Err(PaletteError::Duplicate) => colors@.len() == PALETTE_SIZE && !distinct(
                    colors@,
                ),
                Err(_) => false,
            },
    {
        if colors.len() != PALETTE_SIZE {
            return Err(PaletteError::WrongSize);
        }
        let mut i: usize = 0;
        while i < colors.len()
            invariant
                i <= colors.len(),
                colors@.len() == PALETTE_SIZE,
                forall|a: int, b: int| 0 <= a < b < i ==> colors@[a] != colors@[b],
            decreases colors.len() - i,
        {
            match find_color(&colors, colors[i]) {
                Some(first) => {
                    if first < i {
                        proof {
                            assert(colors@[first as int] == colors@[i as int]);
                        }
                        return Err(PaletteError::Duplicate);
                    }
                },
                None => {},
            }
            i += 1;
        }
        Ok(Palette { colors })
    }

    /// Reads a palette from the entries of a colour table: 64 entries of
    /// six hexadecimal digits each, none twice.
    pub fn from_hex(entries: &Vec<String>) -> (palette: Result<Palette, PaletteError>)
        ensures
            match palette {
                Ok(p) => entries_valid(entries@) && p@ == entries_colors(entries@) && is_palette(
                    p@,
                ),
                Err(PaletteError::InvalidColor) => !entries_valid(entries@),
                Err(PaletteError::TooManyColors) => entries_valid(entries@) && entries@.len()
                    > MAX_ENTRIES,
                Err(PaletteError::WrongSize) => entries_valid(entries@) && entries@.len()
                    <= MAX_ENTRIES && entries@.len() != PALETTE_SIZE,
                Err(PaletteError::Duplicate) => entries_valid(entries@) && entries@.len()
                    == PALETTE_SIZE && !distinct(entries_colors(entries@)),
            },
    {
        match colors_map(entries) {
            Ok(colors) => Palette::new(colors),
            Err(error) => Err(error),
        }
    }

    /// The colours in order of code.
    pub fn table(&self) -> (colors: &Vec<Rgb>)
        ensures
            colors@ == self@,
            is_palette(self@),
    {
        proof {
            use_type_invariant(self);
        }
        &self.colors
    }

    /// The colour of the pixel code `code`.
    pub fn color(&self, code: u8) -> (color: Rgb)
        requires
            code < PALETTE_SIZE,
        ensures
            is_palette(self@),
            color == self@[code as int],
    {
        proof {
            use_type_invariant(self);
        }
        self.colors[code as usize]
    }

    /// The pixel code of `color`, if the palette has that colour.
    pub fn code(&self, color: Rgb) -> (code: Option<u8>)
        ensures
            is_palette(self@),
            code == code_of(self@, color),
            code matches Some(c) ==> c < PALETTE_SIZE && self@[c as int] == color,
    {
        proof {
            use_type_invariant(self);
        }
        match find_color(&self.colors, color) {
            Some(at) => {
                proof {
                    lemma_code_of(self.colors@, at as int);
                }
                Some(at as u8)
            },
            None => None,
        }
    }
}

} // verus!
