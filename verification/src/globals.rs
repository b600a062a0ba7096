//! The global lookup table of named colors used by the styling stages.

use vstd::prelude::*;
use crate::dom::AttrMap;

verus! {

/// Read-only, once-initialized globals: the CSS named-color table.
pub struct Globals {
    css_named_colors: AttrMap,
}

impl View for Globals {
    type V = Map<Seq<char>, Seq<char>>;

    closed spec fn view(&self) -> Map<Seq<char>, Seq<char>> {
        self.css_named_colors@
    }
}

impl Globals {
    /// The hex value of a named color, if the name is known.
    pub fn named_color(&self, name: &str) -> (r: Option<&String>)
        ensures
            (match r {
                Some(v) => self@.contains_key(name@) && v@ == self@[name@],
                None => !self@.contains_key(name@),
            }),
    {
        self.css_named_colors.get(name)
    }
}

/// Builds the color table.
pub fn make_globals() -> (g: Globals)
    ensures
        g@ == Map::<Seq<char>, Seq<char>>::empty().insert("aqua"@, "#00ffff"@),
{
    let mut map = AttrMap::new();
    map.insert("aqua".to_owned(), "#00ffff".to_owned());
    let globals = Globals { css_named_colors: map };
    globals
}

} // verus!
