//! Palette and palette entries.
use vstd::prelude::*;

use super::color::Rgba;

verus! {

/// A single palette entry: a color plus an optional name (Aseprite supports
/// named palette entries).
#[derive(Debug, PartialEq, Eq)]
pub struct PaletteEntry {
    pub rgba: Rgba,
    pub name: Option<String>,
}

/// Model of a palette entry: the color and the name's characters.
pub struct PaletteEntryModel {
    pub rgba: Rgba,
    pub name: Option<Seq<char>>,
}

impl View for PaletteEntry {
    type V = PaletteEntryModel;

    open spec fn view(&self) -> PaletteEntryModel {
        PaletteEntryModel {
            rgba: self.rgba,
            name: match self.name {
                Some(n) => Some(n@),
                None => None,
            },
        }
    }
}

impl Clone for PaletteEntry {
    fn clone(&self) -> (e: Self)
        ensures
            e@ == self@,
    {
        let name = match &self.name {
            Some(n) => Some(n.clone()),
            None => None,
        };
        PaletteEntry { rgba: self.rgba, name }
    }
}

impl PaletteEntry {
    pub fn new(rgba: Rgba) -> (e: Self)
        ensures
            e@ == (PaletteEntryModel { rgba, name: None }),
    {
        PaletteEntry { rgba, name: None }
    }

    pub fn with_name(rgba: Rgba, name: &str) -> (e: Self)
        ensures
            e@ == (PaletteEntryModel { rgba, name: Some(name@) }),
    {
        PaletteEntry { rgba, name: Some(name.to_owned()) }
    }
}

/// A color palette. Up to 256 entries are addressable in indexed color mode.
#[derive(Debug, PartialEq, Eq)]
pub struct Palette {
    pub colors: Vec<PaletteEntry>,
}

impl Clone for Palette {
    fn clone(&self) -> (p: Self)
        ensures
            p@ == self@,
    {
        let mut colors: Vec<PaletteEntry> = Vec::new();
        let n = self.colors.len();
        for i in 0..n
            invariant
                n == self.colors@.len(),
                colors@.len() == i,
                forall|k: int| 0 <= k < i ==> #[trigger] colors@[k]@ == self.colors@[k]@,
        {
            colors.push(self.colors[i].clone());
        }
        proof {
            assert(colors@.map_values(|e: PaletteEntry| e@) =~= self.colors@.map_values(|e: PaletteEntry| e@));
        }
        Palette { colors }
    }
}

impl View for Palette {
    type V = Seq<PaletteEntryModel>;

    open spec fn view(&self) -> Seq<PaletteEntryModel> {
        self.colors@.map_values(|e: PaletteEntry| e@)
    }
}

impl Default for Palette {
    fn default() -> (p: Self)
        ensures
            p@ == Seq::<PaletteEntryModel>::empty(),
    {
        Palette { colors: Vec::new() }
    }
}

impl Palette {
    pub fn new() -> (p: Self)
        ensures
            p@ == Seq::<PaletteEntryModel>::empty(),
    {
        Palette { colors: Vec::new() }
    }

    pub fn from_entries(colors: Vec<PaletteEntry>) -> (p: Self)
        ensures
            p.colors == colors,
    {
        Palette { colors }
    }

    pub fn len(&self) -> (n: usize)
        ensures
            n == self@.len(),
    {
        self.colors.len()
    }

    pub fn is_empty(&self) -> (b: bool)
        ensures
            b == (self@.len() == 0),
    {
        self.colors.len() == 0
    }
}

} // verus!
