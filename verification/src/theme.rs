//! How the installer looks.
use vstd::prelude::*;

verus! {

/// Colours by their number in the palette of the terminal, and the two cells
/// that the progress bar is drawn with.
#[derive(Debug, Clone)]
pub struct Theme {
    pub focus_border: u8,
    pub header: u8,
    pub error: u8,
    pub success: u8,
    pub progress_bar_filled: &'static str,
    pub progress_bar_empty: &'static str,
}

#[verifier::ext_equal]
pub struct ThemeView {
    pub focus_border: u8,
    pub header: u8,
    pub error: u8,
    pub success: u8,
    pub progress_bar_filled: Seq<char>,
    pub progress_bar_empty: Seq<char>,
}

impl View for Theme {
    type V = ThemeView;

    open spec fn view(&self) -> ThemeView {
        ThemeView {
            focus_border: self.focus_border,
            header: self.header,
            error: self.error,
            success: self.success,
            progress_bar_filled: self.progress_bar_filled@,
            progress_bar_empty: self.progress_bar_empty@,
        }
    }
}

/// How the installer looks unless it is told otherwise.
pub open spec fn default_theme() -> ThemeView {
    ThemeView {
        focus_border: 2,
        header: 3,
        error: 1,
        success: 2,
        progress_bar_filled: "█"@,
        progress_bar_empty: "░"@,
    }
}

impl Default for Theme {
    fn default() -> (r: Self)
        ensures
            r@ == default_theme(),
    {
        Theme {
            focus_border: 2,
            header: 3,
            error: 1,
            success: 2,
            progress_bar_filled: "█",
            progress_bar_empty: "░",
        }
    }
}

} // verus!
