//! Visual themes of the player window.

use vstd::prelude::*;

verus! {

/// A visual style for the player window. The styling itself (colors, fonts)
/// is applied by the window layer; this crate only records the choice.
#[derive(Clone, Copy, Debug, PartialEq, Eq, Structural)]
pub enum Theme {
    EguiLight,
    EguiDark,
    Red,
    Grey,
}

impl Default for Theme {
    /// The player starts with the red theme.
    fn default() -> (t: Self)
        ensures
            t == Theme::Red,
    {
        Theme::Red
    }
}

impl Theme {
    /// The themes offered by the settings panel, in the order they are listed.
    pub fn selectable() -> (v: Vec<Theme>)
        ensures
            v@ == seq![Theme::EguiDark, Theme::EguiLight, Theme::Red],
    {
        let mut v: Vec<Theme> = Vec::new();
        v.push(Theme::EguiDark);
        v.push(Theme::EguiLight);
        v.push(Theme::Red);
        proof {
            assert(v@ =~= seq![Theme::EguiDark, Theme::EguiLight, Theme::Red]);
        }
        v
    }

    /// The label under which a theme is shown in the settings panel.
    pub fn label(&self) -> (s: &'static str)
        ensures
            *self == Theme::EguiLight ==> s@ == "EguiLight"@,
            *self == Theme::EguiDark ==> s@ == "EguiDark"@,
            *self == Theme::Red ==> s@ == "Red"@,
            *self == Theme::Grey ==> s@ == "Grey"@,
    {
        match *self {
            Theme::EguiLight => "EguiLight",
            Theme::EguiDark => "EguiDark",
            Theme::Red => "Red",
            Theme::Grey => "Grey",
        }
    }
}

} // verus!
