//! Colours on the terminal.

use vstd::prelude::*;

verus! {

/// A way to show text: what is written before it and after it.
pub struct Style {
    pub prefix: String,
    pub suffix: String,
}

#[verifier::ext_equal]
pub struct StyleView {
    pub prefix: Seq<char>,
    pub suffix: Seq<char>,
}

impl View for Style {
    type V = StyleView;

    open spec fn view(&self) -> StyleView {
        StyleView { prefix: self.prefix@, suffix: self.suffix@ }
    }
}

impl StyleView {
    /// The text as shown in this style.
    pub open spec fn painted(self, text: Seq<char>) -> Seq<char> {
        self.prefix + text + self.suffix
    }

    /// Whether the style shows text as it is.
    pub open spec fn plain(self) -> bool {
        self.prefix.len() == 0 && self.suffix.len() == 0
    }
}

impl Style {
    /// Shows `text` in this style.
    pub fn paint(&self, text: &str) -> (s: String)
        ensures
            s@ == self@.painted(text@),
    {
        let mut s = self.prefix.clone();
        s.append(text);
        s.append(&self.suffix);
        s
    }
}

/// The styles of the upgrade menu.
pub struct Colors {
    /// The part of the installed version that changes.
    pub old_version: Style,
    /// The part of the new version that changed.
    pub new_version: Style,
    /// The number of a line.
    pub number_menu: Style,
    /// Package names.
    pub bold: Style,
}

#[verifier::ext_equal]
pub struct ColorsView {
    pub old_version: StyleView,
    pub new_version: StyleView,
    pub number_menu: StyleView,
    pub bold: StyleView,
}

impl View for Colors {
    type V = ColorsView;

    open spec fn view(&self) -> ColorsView {
        ColorsView {
            old_version: self.old_version@,
            new_version: self.new_version@,
            number_menu: self.number_menu@,
            bold: self.bold@,
        }
    }
}

/// A plain style leaves text as it is.
pub proof fn law_plain_style(style: StyleView, text: Seq<char>)
    requires
        style.plain(),
    ensures
        style.painted(text) == text,
{
    assert(style.painted(text) =~= text);
}

/// A painted text is the prefix, the text itself and the suffix.
pub proof fn law_painted(style: StyleView, text: Seq<char>)
    ensures
        ({
            let p = style.painted(text);
            let from = style.prefix.len() as int;
            let to = from + text.len();
            &&& p.len() == to + style.suffix.len()
            &&& p.take(from) == style.prefix
            &&& p.subrange(from, to) == text
            &&& p.skip(to) == style.suffix
        }),
{
    let p = style.painted(text);
    let from = style.prefix.len() as int;
    let to = from + text.len();
    assert(p.take(from) =~= style.prefix);
    assert(p.subrange(from, to) =~= text);
    assert(p.skip(to) =~= style.suffix);
}

/// The styles are seen as they are.
pub proof fn law_colors_seen(style: Style, color: Colors)
    ensures
        style@.prefix == style.prefix@,
        style@.suffix == style.suffix@,
        color@.old_version == color.old_version@,
        color@.new_version == color.new_version@,
        color@.number_menu == color.number_menu@,
        color@.bold == color.bold@,
{
}

} // verus!
