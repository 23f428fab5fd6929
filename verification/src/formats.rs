//! How a colour format's configuration key selects its templates.

use vstd::prelude::*;
use crate::config::{copy_template, key_of_text, key_text, selected_template, TemplateKey, TemplatesConfig};

verus! {

/// Reading a format's configuration key gives back that same format, for
/// every format.
pub proof fn lemma_key_of_text_inverts(k: TemplateKey)
    ensures
        key_of_text(key_text(k)) == Some(k),
{
    reveal_strlit("cmyk");
    reveal_strlit("delphi");
    reveal_strlit("float");
    reveal_strlit("hex");
    reveal_strlit("hsl");
    reveal_strlit("hsv");
    reveal_strlit("html");
    reveal_strlit("long");
    reveal_strlit("rgb");
    reveal_strlit("vb");
    match k {
        TemplateKey::Cmyk => {
            assert(key_text(TemplateKey::Cmyk)[0] != key_text(TemplateKey::Html)[0]);
            assert(key_text(TemplateKey::Cmyk).len() != key_text(TemplateKey::Hex).len());
            assert(key_text(TemplateKey::Cmyk).len() != key_text(TemplateKey::Rgb).len());
            assert(key_text(TemplateKey::Cmyk).len() != key_text(TemplateKey::Float).len());
            assert(key_text(TemplateKey::Cmyk).len() != key_text(TemplateKey::Hsl).len());
            assert(key_text(TemplateKey::Cmyk).len() != key_text(TemplateKey::Hsv).len());
        },
        TemplateKey::Delphi => {
            assert(key_text(TemplateKey::Delphi).len() != key_text(TemplateKey::Html).len());
            assert(key_text(TemplateKey::Delphi).len() != key_text(TemplateKey::Hex).len());
            assert(key_text(TemplateKey::Delphi).len() != key_text(TemplateKey::Rgb).len());
            assert(key_text(TemplateKey::Delphi).len() != key_text(TemplateKey::Float).len());
            assert(key_text(TemplateKey::Delphi).len() != key_text(TemplateKey::Hsl).len());
            assert(key_text(TemplateKey::Delphi).len() != key_text(TemplateKey::Hsv).len());
            assert(key_text(TemplateKey::Delphi).len() != key_text(TemplateKey::Cmyk).len());
        },
        TemplateKey::Float => {
            assert(key_text(TemplateKey::Float).len() != key_text(TemplateKey::Html).len());
            assert(key_text(TemplateKey::Float).len() != key_text(TemplateKey::Hex).len());
            assert(key_text(TemplateKey::Float).len() != key_text(TemplateKey::Rgb).len());
        },
        TemplateKey::Hex => {
            assert(key_text(TemplateKey::Hex).len() != key_text(TemplateKey::Html).len());
        },
        TemplateKey::Hsl => {
            assert(key_text(TemplateKey::Hsl).len() != key_text(TemplateKey::Html).len());
            assert(key_text(TemplateKey::Hsl)[1] != key_text(TemplateKey::Hex)[1]);
            assert(key_text(TemplateKey::Hsl)[0] != key_text(TemplateKey::Rgb)[0]);
            assert(key_text(TemplateKey::Hsl).len() != key_text(TemplateKey::Float).len());
        },
        TemplateKey::Hsv => {
            assert(key_text(TemplateKey::Hsv).len() != key_text(TemplateKey::Html).len());
            assert(key_text(TemplateKey::Hsv)[1] != key_text(TemplateKey::Hex)[1]);
            assert(key_text(TemplateKey::Hsv)[0] != key_text(TemplateKey::Rgb)[0]);
            assert(key_text(TemplateKey::Hsv).len() != key_text(TemplateKey::Float).len());
            assert(key_text(TemplateKey::Hsv)[2] != key_text(TemplateKey::Hsl)[2]);
        },
        TemplateKey::Html => {},
        TemplateKey::Long => {
            assert(key_text(TemplateKey::Long)[0] != key_text(TemplateKey::Html)[0]);
            assert(key_text(TemplateKey::Long).len() != key_text(TemplateKey::Hex).len());
            assert(key_text(TemplateKey::Long).len() != key_text(TemplateKey::Rgb).len());
            assert(key_text(TemplateKey::Long).len() != key_text(TemplateKey::Float).len());
            assert(key_text(TemplateKey::Long).len() != key_text(TemplateKey::Hsl).len());
            assert(key_text(TemplateKey::Long).len() != key_text(TemplateKey::Hsv).len());
            assert(key_text(TemplateKey::Long)[0] != key_text(TemplateKey::Cmyk)[0]);
            assert(key_text(TemplateKey::Long).len() != key_text(TemplateKey::Delphi).len());
            assert(key_text(TemplateKey::Long).len() != key_text(TemplateKey::Vb).len());
        },
        TemplateKey::Rgb => {
            assert(key_text(TemplateKey::Rgb).len() != key_text(TemplateKey::Html).len());
            assert(key_text(TemplateKey::Rgb)[0] != key_text(TemplateKey::Hex)[0]);
        },
        TemplateKey::Vb => {
            assert(key_text(TemplateKey::Vb).len() != key_text(TemplateKey::Html).len());
            assert(key_text(TemplateKey::Vb).len() != key_text(TemplateKey::Hex).len());
            assert(key_text(TemplateKey::Vb).len() != key_text(TemplateKey::Rgb).len());
            assert(key_text(TemplateKey::Vb).len() != key_text(TemplateKey::Float).len());
            assert(key_text(TemplateKey::Vb).len() != key_text(TemplateKey::Hsl).len());
            assert(key_text(TemplateKey::Vb).len() != key_text(TemplateKey::Hsv).len());
            assert(key_text(TemplateKey::Vb).len() != key_text(TemplateKey::Cmyk).len());
            assert(key_text(TemplateKey::Vb).len() != key_text(TemplateKey::Delphi).len());
        },
    }
}

/// Selecting a format by its configuration key selects that format's
/// clipboard template.
pub proof fn lemma_selected_template_of_key(t: TemplatesConfig, k: TemplateKey)
    requires
        t.selected@ == key_text(k),
    ensures
        selected_template(t) == copy_template(t.copy, k),
{
    lemma_key_of_text_inverts(k);
}

} // verus!
