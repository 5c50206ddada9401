//! User-facing configuration: layer placement and web search providers.
use vstd::prelude::*;

verus! {

/// A web search provider offered by the launcher.
#[derive(Clone, Debug)]
pub struct SearchProvider {
    /// Display name, such as `DuckDuckGo` or `GitHub`.
    pub name: String,
    /// URL containing one `{searchTerms}` placeholder.
    pub url: String,
    /// URL of the provider icon displayed by the launcher.
    pub icon: String,
    /// Prefix which selects this provider, such as `!gh`.
    pub alias: String,
}

/// The compositor layer the bar is placed on.
#[derive(Clone, Copy, PartialEq, Eq, Structural, Debug)]
pub enum Layer {
    Background,
    Bottom,
    Top,
    Overlay,
}

/// The screen edge the bar is anchored to.
#[derive(Clone, Copy, PartialEq, Eq, Structural, Debug)]
pub enum LayerAnchor {
    Top,
    Bottom,
}

/// Which surfaces of the application are shown.
#[derive(Clone, Copy, PartialEq, Eq, Structural, Debug)]
pub struct View {
    pub bar: bool,
    pub launcher: bool,
}

} // verus!
