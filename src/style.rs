//! Terminal styles and the styled markers that prefix messages.

use console::Style;
use vstd::prelude::*;
use vstd::string::StringExecFns;

verus! {

#[verifier::external_type_specification]
#[verifier::external_body]
pub struct ExStyle(Style);

/// Relies on console's `Style::new`, which returns a style; nothing is claimed of it.
pub assume_specification[ Style::new ]() -> Style;

/// Relies on console's `Style::red`, which returns a style; nothing is claimed of it.
pub assume_specification[ Style::red ](s: Style) -> Style;

/// Relies on console's `Style::green`, which returns a style; nothing is claimed of it.
pub assume_specification[ Style::green ](s: Style) -> Style;

/// Relies on console's `Style::yellow`, which returns a style; nothing is claimed of it.
pub assume_specification[ Style::yellow ](s: Style) -> Style;

/// Relies on console's `Style::magenta`, which returns a style; nothing is claimed of it.
pub assume_specification[ Style::magenta ](s: Style) -> Style;

/// Relies on console's `Style::cyan`, which returns a style; nothing is claimed of it.
pub assume_specification[ Style::cyan ](s: Style) -> Style;

/// Relies on console's `Style::color256`, which returns a style; nothing is claimed of it.
pub assume_specification[ Style::color256 ](s: Style, color: u8) -> Style;

/// Relies on console's `Style::bright`, which returns a style; nothing is claimed of it.
pub assume_specification[ Style::bright ](s: Style) -> Style;

/// Relies on console's `Style::bold`, which returns a style; nothing is claimed of it.
pub assume_specification[ Style::bold ](s: Style) -> Style;

/// Relies on console's `Style::dim`, which returns a style; nothing is claimed of it.
pub assume_specification[ Style::dim ](s: Style) -> Style;

/// Relies on console's `Style::italic`, which returns a style; nothing is claimed of it.
pub assume_specification[ Style::italic ](s: Style) -> Style;

/// `r` is `text` with, at most, escape sequences around it.
pub open spec fn wraps(r: Seq<char>, text: Seq<char>) -> bool {
    exists|p: Seq<char>, q: Seq<char>| r == p + text + q
}

/// Relies on console's `Style::apply_to` and the `Display` of the styled
/// object: it writes the style's escape codes (when colors are enabled), the
/// text, and a reset code.
#[verifier::external_body]
fn paint(style: &Style, text: &str) -> (r: String)
    ensures
        wraps(r@, text@),
{
    format!("{}", style.apply_to(text))
}

pub fn success() -> Style {
    Style::new().green().bright().bold()
}

pub fn error() -> Style {
    Style::new().red().bright().bold()
}

pub fn warning() -> Style {
    Style::new().yellow().bold()
}

pub fn info() -> Style {
    Style::new().cyan().bright()
}

/// The success marker.
pub fn success_icon() -> (r: String)
    ensures
        wraps(r@, "✔"@),
{
    paint(&success(), "✔")
}

/// The error marker.
pub fn error_icon() -> (r: String)
    ensures
        wraps(r@, "✘"@),
{
    paint(&error(), "✘")
}

/// The warning marker.
pub fn warn_icon() -> (r: String)
    ensures
        wraps(r@, "⚠"@),
{
    paint(&warning(), "⚠")
}

/// The information marker.
pub fn info_icon() -> (r: String)
    ensures
        wraps(r@, "ℹ"@),
{
    paint(&info(), "ℹ")
}

/// The list bullet.
pub fn bullet() -> (r: String)
    ensures
        wraps(r@, "•"@),
{
    paint(&dim(), "•")
}

pub fn section_title() -> Style {
    Style::new().bold().color256(44)
}

pub fn prompt() -> Style {
    Style::new().bold().color256(208)
}

pub fn highlight() -> Style {
    Style::new().bold().color256(214)
}

pub fn highlight_value() -> Style {
    Style::new().bold().color256(208)
}

pub fn dim() -> Style {
    Style::new().dim()
}

pub fn aur_accent() -> Style {
    Style::new().bold().magenta()
}

pub fn github_accent() -> Style {
    Style::new().bold().color256(177)
}

pub fn pacman_accent() -> Style {
    Style::new().bold().color256(81)
}

/// `label` in square brackets, styled.
pub fn badge(label: &str, style: Style) -> (r: String)
    ensures
        wraps(r@, "["@ + label@ + "]"@),
{
    let mut text = String::from_str("[");
    text.append(label);
    text.append("]");
    paint(&style, text.as_str())
}

/// The badge of the official metadata source.
pub fn aur_badge() -> (r: String)
    ensures
        wraps(r@, "["@ + "AUR"@ + "]"@),
{
    badge("AUR", aur_accent())
}

/// The badge of GitHub.
pub fn github_badge() -> (r: String)
    ensures
        wraps(r@, "["@ + "GITHUB"@ + "]"@),
{
    badge("GITHUB", github_accent())
}

/// The badge of the mirror metadata source.
pub fn github_aur_mirror_badge() -> (r: String)
    ensures
        wraps(r@, "["@ + "GITHUB-AUR"@ + "]"@),
{
    badge("GITHUB-AUR", github_accent())
}

/// The badge of the system package manager.
pub fn pacman_badge() -> (r: String)
    ensures
        wraps(r@, "["@ + "PACMAN"@ + "]"@),
{
    badge("PACMAN", pacman_accent())
}

pub fn current_version() -> Style {
    Style::new().color256(196).bold()
}

pub fn new_version() -> Style {
    Style::new().color256(82).bold()
}

pub fn package_name() -> Style {
    Style::new().bold().color256(45)
}

pub fn command() -> Style {
    Style::new().bold().color256(33)
}

pub fn path() -> Style {
    Style::new().italic().color256(213)
}

pub fn number() -> Style {
    Style::new().bold().color256(39)
}

} // verus!
