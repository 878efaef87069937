//! Which style sheets the documentation is written with.

use vstd::prelude::*;
use vstd::string::*;

verus! {

/// A style sheet of the user's own, and what becomes of the default one.
pub enum CustomCss {
    /// No style sheet was named: the default one is used alone.
    Unset,
    /// The named file is used after the default style sheet.
    Add(String),
    /// The named file is used in place of the default style sheet.
    Overwrite(String),
}

impl CustomCss {
    /// Whether a style sheet was named.
    pub fn is_not_none(&self) -> (b: bool)
        ensures
            b == !(self is Unset),
    {
        match self {
            CustomCss::Unset => false,
            _ => true,
        }
    }

    /// What [`CustomCss::describe`] gives.
    pub open spec fn description(&self) -> Seq<char> {
        match self {
            CustomCss::Unset => "none"@,
            CustomCss::Add(file) => "appending "@ + file@,
            CustomCss::Overwrite(file) => "overwriting by "@ + file@,
        }
    }

    /// The setting in words.
    pub fn describe(&self) -> (text: String)
        ensures
            text@ == self.description(),
    {
        match self {
            CustomCss::Unset => String::from_str("none"),
            CustomCss::Add(file) => String::from_str("appending ").concat(file.as_str()),
            CustomCss::Overwrite(file) => String::from_str("overwriting by ").concat(
                file.as_str(),
            ),
        }
    }
}

/// The style sheets that a document or the command line asks for.
pub struct CssSettings {
    pub custom_css: CustomCss,
    pub custom_colorscheme: Option<String>,
}

impl CssSettings {
    /// Whether nothing is asked for.
    pub open spec fn asks_nothing(&self) -> bool {
        self.custom_css is Unset && self.custom_colorscheme is None
    }

    /// Whether nothing was asked for.
    pub fn is_default(&self) -> (b: bool)
        ensures
            b == self.asks_nothing(),
    {
        !self.custom_css.is_not_none() && self.custom_colorscheme.is_none()
    }

    /// The settings that ask for nothing.
    pub fn default() -> (settings: CssSettings)
        ensures
            settings.custom_css is Unset,
            settings.custom_colorscheme is None,
    {
        CssSettings { custom_css: CustomCss::Unset, custom_colorscheme: None }
    }

    /// What [`CssSettings::describe`] gives.
    pub open spec fn description(&self) -> Seq<char> {
        "css file: "@ + self.custom_css.description() + ", colorscheme file: "@ + (
        match self.custom_colorscheme {
            Some(file) => file@,
            None => "none"@,
        })
    }

    /// The settings in words.
    pub fn describe(&self) -> (text: String)
        ensures
            text@ == self.description(),
    {
        let css = self.custom_css.describe();
        let mut text = String::from_str("css file: ");
        text.append(css.as_str());
        text.append(", colorscheme file: ");
        match &self.custom_colorscheme {
            Some(file) => {
                text.append(file.as_str());
            },
            None => {
                text.append("none");
            },
        }
        text
    }
}

} // verus!
