//! The configuration's data and its rules: templates, colour history and
//! where the file lives. Floating-point settings are kept as their IEEE-754
//! bit patterns (`f32::to_bits` / `f64::to_bits`); nothing here reads them.

use vstd::prelude::*;
use crate::text::{chars_of, free_of, is_replacement, is_token, lemma_replace_absent,
    lemma_replace_keeps_free, lemma_token_not_at_replacement, lemma_untouched_prefix, push_chars, push_str_chars, replace_all, replace_spec, str_eq,
    string_from_chars};

verus! {

broadcast use vstd::string::group_string_axioms;

#[verifier::external_type_specification]
#[verifier::external_body]
#[verifier::reject_recursive_types(K)]
#[verifier::reject_recursive_types(V)]
#[verifier::reject_recursive_types(S)]
pub struct ExIndexMap<K, V, S>(indexmap::IndexMap<K, V, S>);

/// The key-to-template entries that an overlay template map holds.
pub uninterp spec fn template_formats(m: indexmap::IndexMap<String, String>) -> Map<Seq<char>, Seq<char>>;

/// `IndexMap::get`, its value cloned: the template stored under `key`.
#[verifier::external_body]
fn formats_get(m: &indexmap::IndexMap<String, String>, key: &str) -> (r: Option<String>)
    ensures
        match r {
            Some(v) => template_formats(*m).contains_key(key@) && v@ == template_formats(*m)[key@],
            None => !template_formats(*m).contains_key(key@),
        },
{
    m.get(key).cloned()
}

pub struct MagnifierConfig {
    pub aperture: u32,
    pub aim_size: u32,
    pub size: u32,
    pub offset_x: i32,
    pub offset_y: i32,
    pub jump_threshold: i32,
}

/// Colours as 0xRRGGBB.
pub struct ColorsConfig {
    pub frame: u32,
    pub aim: u32,
    pub background: u32,
    pub foreground: u32,
    pub grid: u32,
}

pub struct HudConfig {
    pub show: bool,
    pub heavy_glitch_chance: u32,
    pub light_glitch_chance: u32,
    pub chromatic_chance: u32,
    /// `f32` bit pattern.
    pub scanlines_intensity_bits: u32,
}

pub struct FontConfig {
    pub family: String,
    /// `f32` bit pattern.
    pub size_bits: u32,
    /// `f32` bit pattern.
    pub dim_zeros_bits: u32,
    pub padding_left: String,
    pub padding_right: String,
}

pub struct PhysicsConfig {
    pub blur_radius: i32,
    /// `f32` bit pattern.
    pub glass_opacity_bits: u32,
    /// `f64` bit pattern.
    pub stiffness_bits: u64,
    /// `f64` bit pattern.
    pub damping_bits: u64,
    /// `f64` bit pattern.
    pub pop_effect_bits: u64,
    pub blink_effect: String,
}

pub struct TemplatesConfig {
    pub selected: String,
    pub float_precision: usize,
    pub deck_separator: String,
    pub copy: CopyTemplatesConfig,
    pub show: ShowTemplatesConfig,
}

/// The clipboard template of each colour format.
pub struct CopyTemplatesConfig {
    pub html: String,
    pub hex: String,
    pub rgb: String,
    pub float: String,
    pub hsl: String,
    pub hsv: String,
    pub cmyk: String,
    pub delphi: String,
    pub vb: String,
    pub long: String,
}

/// Overlay templates that differ from the clipboard ones, by format key.
pub struct ShowTemplatesConfig {
    /// `f32` bit pattern.
    pub line_spacing_bits: u32,
    pub formats: indexmap::IndexMap<String, String>,
}

pub struct HistoryConfig {
    /// Most colours kept.
    pub size: usize,
    pub reverse_order: bool,
    /// Most recent first.
    pub colors: Vec<String>,
}

/// What the tray shows.
#[derive(Clone, Copy, Debug, PartialEq, Eq, Structural)]
pub enum TrayIcon {
    /// Full-colour pixmap.
    Color,
    /// Themed symbolic icon name.
    Mono,
    /// White pixmap for dark panels.
    MonoWhite,
    /// Black pixmap for light panels.
    MonoBlack,
    /// No tray icon at all (`none` in the configuration file).
    Hidden,
}

impl Default for TrayIcon {
    fn default() -> (r: Self)
        ensures
            r == TrayIcon::Color,
    {
        TrayIcon::Color
    }
}

pub struct SystemConfig {
    pub hotkey: String,
    pub poll_interval_ms: u64,
    pub auto_cancel: u64,
    pub tray_icon: TrayIcon,
}

pub struct Config {
    pub magnifier: MagnifierConfig,
    pub colors: ColorsConfig,
    pub hud: HudConfig,
    pub font: FontConfig,
    pub physics: PhysicsConfig,
    pub templates: TemplatesConfig,
    pub history: HistoryConfig,
    pub system: SystemConfig,
}

// ---------------------------------------------------------------------------
// Template formats
// ---------------------------------------------------------------------------

/// The colour formats, in menu order.
#[derive(Clone, Copy, Debug, PartialEq, Eq, Structural)]
pub enum TemplateKey {
    Html,
    Hex,
    Rgb,
    Float,
    Hsl,
    Hsv,
    Cmyk,
    Delphi,
    Vb,
    Long,
}

/// The configuration key of a format.
pub open spec fn key_text(k: TemplateKey) -> Seq<char> {
    match k {
        TemplateKey::Html => "html"@,
        TemplateKey::Hex => "hex"@,
        TemplateKey::Rgb => "rgb"@,
        TemplateKey::Float => "float"@,
        TemplateKey::Hsl => "hsl"@,
        TemplateKey::Hsv => "hsv"@,
        TemplateKey::Cmyk => "cmyk"@,
        TemplateKey::Delphi => "delphi"@,
        TemplateKey::Vb => "vb"@,
        TemplateKey::Long => "long"@,
    }
}

/// The label of a format in the tray menu and the HUD.
pub open spec fn label_text(k: TemplateKey) -> Seq<char> {
    match k {
        TemplateKey::Html => "HTML"@,
        TemplateKey::Hex => "Hex"@,
        TemplateKey::Rgb => "RGB"@,
        TemplateKey::Float => "RGB Float"@,
        TemplateKey::Hsl => "HSL"@,
        TemplateKey::Hsv => "HSV"@,
        TemplateKey::Cmyk => "CMYK"@,
        TemplateKey::Delphi => "Delphi"@,
        TemplateKey::Vb => "VB Hex"@,
        TemplateKey::Long => "Long"@,
    }
}

/// The formats in menu order.
pub open spec fn menu_order() -> Seq<TemplateKey> {
    seq![
        TemplateKey::Html,
        TemplateKey::Hex,
        TemplateKey::Rgb,
        TemplateKey::Float,
        TemplateKey::Hsl,
        TemplateKey::Hsv,
        TemplateKey::Cmyk,
        TemplateKey::Delphi,
        TemplateKey::Vb,
        TemplateKey::Long,
    ]
}

/// The format whose key is `s`, checked in menu order.
pub open spec fn key_of_text(s: Seq<char>) -> Option<TemplateKey> {
    if s == "html"@ {
        Some(TemplateKey::Html)
    } else if s == "hex"@ {
        Some(TemplateKey::Hex)
    } else if s == "rgb"@ {
        Some(TemplateKey::Rgb)
    } else if s == "float"@ {
        Some(TemplateKey::Float)
    } else if s == "hsl"@ {
        Some(TemplateKey::Hsl)
    } else if s == "hsv"@ {
        Some(TemplateKey::Hsv)
    } else if s == "cmyk"@ {
        Some(TemplateKey::Cmyk)
    } else if s == "delphi"@ {
        Some(TemplateKey::Delphi)
    } else if s == "vb"@ {
        Some(TemplateKey::Vb)
    } else if s == "long"@ {
        Some(TemplateKey::Long)
    } else {
        None
    }
}

impl TemplateKey {
    /// The configuration key of this format.
    pub fn key(&self) -> (r: &'static str)
        ensures
            r@ == key_text(*self),
    {
        match self {
            TemplateKey::Html => "html",
            TemplateKey::Hex => "hex",
            TemplateKey::Rgb => "rgb",
            TemplateKey::Float => "float",
            TemplateKey::Hsl => "hsl",
            TemplateKey::Hsv => "hsv",
            TemplateKey::Cmyk => "cmyk",
            TemplateKey::Delphi => "delphi",
            TemplateKey::Vb => "vb",
            TemplateKey::Long => "long",
        }
    }

    /// The display label of this format.
    pub fn label(&self) -> (r: &'static str)
        ensures
            r@ == label_text(*self),
    {
        match self {
            TemplateKey::Html => "HTML",
            TemplateKey::Hex => "Hex",
            TemplateKey::Rgb => "RGB",
            TemplateKey::Float => "RGB Float",
            TemplateKey::Hsl => "HSL",
            TemplateKey::Hsv => "HSV",
            TemplateKey::Cmyk => "CMYK",
            TemplateKey::Delphi => "Delphi",
            TemplateKey::Vb => "VB Hex",
            TemplateKey::Long => "Long",
        }
    }
}

/// The formats in menu order.
pub fn template_keys() -> (r: Vec<TemplateKey>)
    ensures
        r@ == menu_order(),
{
    let r = vec![
        TemplateKey::Html,
        TemplateKey::Hex,
        TemplateKey::Rgb,
        TemplateKey::Float,
        TemplateKey::Hsl,
        TemplateKey::Hsv,
        TemplateKey::Cmyk,
        TemplateKey::Delphi,
        TemplateKey::Vb,
        TemplateKey::Long,
    ];
    assert(r@ =~= menu_order());
    r
}

/// The format whose configuration key is `key`, if any.
pub fn template_key(key: &str) -> (r: Option<TemplateKey>)
    ensures
        r == key_of_text(key@),
{
    if str_eq(key, "html") {
        Some(TemplateKey::Html)
    } else if str_eq(key, "hex") {
        Some(TemplateKey::Hex)
    } else if str_eq(key, "rgb") {
        Some(TemplateKey::Rgb)
    } else if str_eq(key, "float") {
        Some(TemplateKey::Float)
    } else if str_eq(key, "hsl") {
        Some(TemplateKey::Hsl)
    } else if str_eq(key, "hsv") {
        Some(TemplateKey::Hsv)
    } else if str_eq(key, "cmyk") {
        Some(TemplateKey::Cmyk)
    } else if str_eq(key, "delphi") {
        Some(TemplateKey::Delphi)
    } else if str_eq(key, "vb") {
        Some(TemplateKey::Vb)
    } else if str_eq(key, "long") {
        Some(TemplateKey::Long)
    } else {
        None
    }
}

/// The clipboard template of format `k`.
pub open spec fn copy_template(c: CopyTemplatesConfig, k: TemplateKey) -> Seq<char> {
    match k {
        TemplateKey::Html => c.html@,
        TemplateKey::Hex => c.hex@,
        TemplateKey::Rgb => c.rgb@,
        TemplateKey::Float => c.float@,
        TemplateKey::Hsl => c.hsl@,
        TemplateKey::Hsv => c.hsv@,
        TemplateKey::Cmyk => c.cmyk@,
        TemplateKey::Delphi => c.delphi@,
        TemplateKey::Vb => c.vb@,
        TemplateKey::Long => c.long@,
    }
}

/// The clipboard template of the selected format, HTML's when the selected
/// key names no format.
pub open spec fn selected_template(t: TemplatesConfig) -> Seq<char> {
    match key_of_text(t.selected@) {
        Some(k) => copy_template(t.copy, k),
        None => t.copy.html@,
    }
}

/// The overlay template of the selected format: its entry among the overlay
/// templates, else its clipboard template.
pub open spec fn visual_template(t: TemplatesConfig) -> Seq<char> {
    if template_formats(t.show.formats).contains_key(t.selected@) {
        template_formats(t.show.formats)[t.selected@]
    } else {
        selected_template(t)
    }
}

impl TemplatesConfig {
    /// Returns the template for the current `selected` key, HTML's when the
    /// key names no format.
    pub fn get_selected_template(&self) -> (r: &str)
        ensures
            r@ == selected_template(*self),
    {
        match template_key(self.selected.as_str()) {
            Some(TemplateKey::Html) => self.copy.html.as_str(),
            Some(TemplateKey::Hex) => self.copy.hex.as_str(),
            Some(TemplateKey::Rgb) => self.copy.rgb.as_str(),
            Some(TemplateKey::Float) => self.copy.float.as_str(),
            Some(TemplateKey::Hsl) => self.copy.hsl.as_str(),
            Some(TemplateKey::Hsv) => self.copy.hsv.as_str(),
            Some(TemplateKey::Cmyk) => self.copy.cmyk.as_str(),
            Some(TemplateKey::Delphi) => self.copy.delphi.as_str(),
            Some(TemplateKey::Vb) => self.copy.vb.as_str(),
            Some(TemplateKey::Long) => self.copy.long.as_str(),
            None => self.copy.html.as_str(),
        }
    }

    /// Returns the visual display template for the overlay.
    pub fn get_visual_template(&self) -> (r: String)
        ensures
            r@ == visual_template(*self),
    {
        match formats_get(&self.show.formats, self.selected.as_str()) {
            Some(v) => v,
            None => {
                let t = self.get_selected_template();
                let cs = chars_of(t);
                string_from_chars(&cs)
            },
        }
    }
}

// ---------------------------------------------------------------------------
// Display form of a template
// ---------------------------------------------------------------------------

/// A template as the overlay shows it: `{nl}` becomes a line break, and each
/// numeric placeholder its zero-padded form, in this order.
pub open spec fn display_template(t: Seq<char>) -> Seq<char> {
    let t = replace_spec(t, "{nl}"@, "\n"@);
    let t = replace_spec(t, "{rd}"@, "{rd_pad}"@);
    let t = replace_spec(t, "{gd}"@, "{gd_pad}"@);
    let t = replace_spec(t, "{bd}"@, "{bd_pad}"@);
    let t = replace_spec(t, "{h}"@, "{h_pad}"@);
    let t = replace_spec(t, "{s}"@, "{s_pad}"@);
    let t = replace_spec(t, "{l}"@, "{l_pad}"@);
    let t = replace_spec(t, "{v}"@, "{v_pad}"@);
    let t = replace_spec(t, "{c}"@, "{c_pad}"@);
    let t = replace_spec(t, "{m}"@, "{m_pad}"@);
    let t = replace_spec(t, "{y}"@, "{y_pad}"@);
    let t = replace_spec(t, "{k}"@, "{k_pad}"@);
    replace_spec(t, "{long}"@, "{long_pad}"@)
}

/// The display rewriting as a list of (placeholder, replacement) rules,
/// applied in order.
pub open spec fn display_rules() -> Seq<(Seq<char>, Seq<char>)> {
    seq![
        ("{nl}"@, "\n"@),
        ("{rd}"@, "{rd_pad}"@),
        ("{gd}"@, "{gd_pad}"@),
        ("{bd}"@, "{bd_pad}"@),
        ("{h}"@, "{h_pad}"@),
        ("{s}"@, "{s_pad}"@),
        ("{l}"@, "{l_pad}"@),
        ("{v}"@, "{v_pad}"@),
        ("{c}"@, "{c_pad}"@),
        ("{m}"@, "{m_pad}"@),
        ("{y}"@, "{y_pad}"@),
        ("{k}"@, "{k_pad}"@),
        ("{long}"@, "{long_pad}"@),
    ]
}

/// `t` rewritten by each rule in turn.
pub open spec fn apply_rules(t: Seq<char>, rules: Seq<(Seq<char>, Seq<char>)>) -> Seq<char>
    decreases rules.len(),
{
    if rules.len() == 0 {
        t
    } else {
        apply_rules(replace_spec(t, rules[0].0, rules[0].1), rules.drop_first())
    }
}

/// Every rule rewrites a placeholder token to a replacement.
pub open spec fn rules_well_formed(rules: Seq<(Seq<char>, Seq<char>)>) -> bool {
    forall|k: int| 0 <= k < rules.len() ==> is_token(#[trigger] rules[k].0) && is_replacement(rules[k].1)
}

proof fn lemma_apply_rules_frees(t: Seq<char>, done: Seq<Seq<char>>, rules: Seq<(Seq<char>, Seq<char>)>)
    requires
        rules_well_formed(rules),
        forall|k: int| 0 <= k < done.len() ==> is_token(#[trigger] done[k]) && free_of(t, done[k]),
    ensures
        forall|k: int| 0 <= k < done.len() ==> free_of(apply_rules(t, rules), #[trigger] done[k]),
        forall|k: int| 0 <= k < rules.len() ==> free_of(apply_rules(t, rules), #[trigger] rules[k].0),
    decreases rules.len(),
{
    if rules.len() > 0 {
        let (q, r) = rules[0];
        assert(is_token(rules[0].0) && is_replacement(rules[0].1));
        let t1 = replace_spec(t, q, r);
        let done1 = done.push(q);
        assert forall|k: int| 0 <= k < done1.len() implies is_token(#[trigger] done1[k]) && free_of(t1, done1[k]) by {
            if k < done.len() {
                assert(done1[k] == done[k]);
                lemma_replace_keeps_free(t, q, r, done[k]);
            } else {
                lemma_replace_keeps_free(t, q, r, q);
            }
        }
        let rest = rules.drop_first();
        assert forall|k: int| 0 <= k < rest.len() implies is_token(#[trigger] rest[k].0) && is_replacement(rest[k].1) by {
            assert(rest[k] == rules[k + 1]);
        }
        lemma_apply_rules_frees(t1, done1, rest);
        assert forall|k: int| 0 <= k < done.len() implies free_of(apply_rules(t, rules), #[trigger] done[k]) by {
            assert(done1[k] == done[k]);
        }
        assert forall|k: int| 0 <= k < rules.len() implies free_of(apply_rules(t, rules), #[trigger] rules[k].0) by {
            if k == 0 {
                assert(done1[done.len() as int] == q);
            } else {
                assert(rest[k - 1] == rules[k]);
            }
        }
    }
}

proof fn lemma_rule_at(rules: Seq<(Seq<char>, Seq<char>)>, k: int)
    requires
        rules_well_formed(rules),
        0 <= k < rules.len(),
    ensures
        is_token(rules[k].0),
        is_replacement(rules[k].1),
{
    assert(is_token(rules[k].0) && is_replacement(rules[k].1));
}

proof fn lemma_apply_rules_identity(t: Seq<char>, rules: Seq<(Seq<char>, Seq<char>)>)
    requires
        rules_well_formed(rules),
        forall|k: int| 0 <= k < rules.len() ==> free_of(t, #[trigger] rules[k].0),
    ensures
        apply_rules(t, rules) == t,
    decreases rules.len(),
{
    if rules.len() > 0 {
        assert(is_token(rules[0].0));
        assert(free_of(t, rules[0].0));
        lemma_replace_absent(t, rules[0].0, rules[0].1);
        let rest = rules.drop_first();
        assert forall|k: int| 0 <= k < rest.len() implies is_token(#[trigger] rest[k].0) && is_replacement(rest[k].1) && free_of(t, rest[k].0) by {
            assert(rest[k] == rules[k + 1]);
            lemma_rule_at(rules, k + 1);
            assert(free_of(t, rules[k + 1].0));
        }
        lemma_apply_rules_identity(t, rest);
    }
}

proof fn lemma_display_rules_well_formed()
    ensures
        rules_well_formed(display_rules()),
{
    reveal_strlit("{nl}");
    reveal_strlit("\n");
    reveal_strlit("{rd}");
    reveal_strlit("{rd_pad}");
    reveal_strlit("{gd}");
    reveal_strlit("{gd_pad}");
    reveal_strlit("{bd}");
    reveal_strlit("{bd_pad}");
    reveal_strlit("{h}");
    reveal_strlit("{h_pad}");
    reveal_strlit("{s}");
    reveal_strlit("{s_pad}");
    reveal_strlit("{l}");
    reveal_strlit("{l_pad}");
    reveal_strlit("{v}");
    reveal_strlit("{v_pad}");
    reveal_strlit("{c}");
    reveal_strlit("{c_pad}");
    reveal_strlit("{m}");
    reveal_strlit("{m_pad}");
    reveal_strlit("{y}");
    reveal_strlit("{y_pad}");
    reveal_strlit("{k}");
    reveal_strlit("{k_pad}");
    reveal_strlit("{long}");
    reveal_strlit("{long_pad}");
    let rules = display_rules();
    assert forall|k: int| 0 <= k < rules.len() implies is_token(#[trigger] rules[k].0) && is_replacement(rules[k].1) by {
        let (p, r) = rules[k];
        if k == 0 {
            assert(r =~= seq!['\n']);
        } else {
            assert(r[r.len() - 5] == '_');
        }
    }
}

proof fn lemma_display_is_rules(t: Seq<char>)
    ensures
        display_template(t) == apply_rules(t, display_rules()),
{
    let rules = display_rules();
    reveal_with_fuel(apply_rules, 14);
    assert(rules.drop_first().drop_first().drop_first().drop_first().drop_first().drop_first().drop_first().drop_first().drop_first().drop_first().drop_first().drop_first().drop_first().len() == 0);
}

/// The display form of a template is already in display form: applying
/// the transformation again changes nothing.
pub proof fn lemma_display_template_idempotent(t: Seq<char>)
    ensures
        display_template(display_template(t)) == display_template(t),
{
    let rules = display_rules();
    lemma_display_rules_well_formed();
    lemma_display_is_rules(t);
    let u = display_template(t);
    lemma_display_is_rules(u);
    lemma_apply_rules_frees(t, Seq::empty(), rules);
    lemma_apply_rules_identity(u, rules);
}

/// `p` is a non-empty prefix of `s`.
pub open spec fn starts_with(s: Seq<char>, p: Seq<char>) -> bool {
    0 < p.len() <= s.len() && s.take(p.len() as int) == p
}

/// Index of the first rule, from the `j`-th on, whose placeholder starts `s`;
/// the number of rules when none does.
pub open spec fn first_match(s: Seq<char>, rules: Seq<(Seq<char>, Seq<char>)>, j: int) -> int
    decreases rules.len() - j,
{
    if j < 0 || j >= rules.len() {
        rules.len() as int
    } else if starts_with(s, rules[j].0) {
        j
    } else {
        first_match(s, rules, j + 1)
    }
}

/// `s` rewritten in one left-to-right pass: where a rule's placeholder starts
/// the rest of `s` (the first such rule), its replacement is written out and
/// the scan goes on after the placeholder; elsewhere one character is copied.
/// What a replacement writes is never scanned again.
pub open spec fn one_pass(s: Seq<char>, rules: Seq<(Seq<char>, Seq<char>)>) -> Seq<char>
    decreases s.len(),
{
    if s.len() == 0 {
        s
    } else {
        let i = first_match(s, rules, 0);
        if 0 <= i < rules.len() && starts_with(s, rules[i].0) {
            rules[i].1 + one_pass(s.skip(rules[i].0.len() as int), rules)
        } else {
            seq![s[0]] + one_pass(s.drop_first(), rules)
        }
    }
}

/// No rule's placeholder starts `s`.
pub open spec fn no_match(s: Seq<char>, rules: Seq<(Seq<char>, Seq<char>)>) -> bool {
    forall|k: int| 0 <= k < rules.len() ==> !starts_with(s, #[trigger] rules[k].0)
}

proof fn lemma_first_match(s: Seq<char>, rules: Seq<(Seq<char>, Seq<char>)>, j: int)
    requires
        0 <= j <= rules.len(),
    ensures
        j <= first_match(s, rules, j) <= rules.len(),
        first_match(s, rules, j) < rules.len() ==> starts_with(s, rules[first_match(s, rules, j)].0),
        forall|k: int| j <= k < first_match(s, rules, j) ==> !starts_with(s, #[trigger] rules[k].0),
    decreases rules.len() - j,
{
    if j < rules.len() && !starts_with(s, rules[j].0) {
        lemma_first_match(s, rules, j + 1);
    }
}

proof fn lemma_one_pass_copy(s: Seq<char>, rules: Seq<(Seq<char>, Seq<char>)>)
    requires
        s.len() > 0,
        no_match(s, rules),
    ensures
        one_pass(s, rules) == seq![s[0]] + one_pass(s.drop_first(), rules),
{
    lemma_first_match(s, rules, 0);
}

proof fn lemma_one_pass_rule(s: Seq<char>, rules: Seq<(Seq<char>, Seq<char>)>, i: int)
    requires
        0 <= i < rules.len(),
        starts_with(s, rules[i].0),
        forall|k: int| 0 <= k < i ==> !starts_with(s, #[trigger] rules[k].0),
    ensures
        one_pass(s, rules) == rules[i].1 + one_pass(s.skip(rules[i].0.len() as int), rules),
{
    lemma_first_match(s, rules, 0);
    let f = first_match(s, rules, 0);
    if f > i {
        assert(!starts_with(s, rules[i].0));
    }
}

/// Two tokens that both start `w` are the same token.
proof fn lemma_token_start_unique(w: Seq<char>, p1: Seq<char>, p2: Seq<char>)
    requires
        is_token(p1),
        is_token(p2),
        starts_with(w, p1),
        starts_with(w, p2),
    ensures
        p1 == p2,
{
    if p1.len() < p2.len() {
        let e = p1.len() - 1;
        assert(w.take(p1.len() as int)[e] == w[e]);
        assert(w.take(p2.len() as int)[e] == w[e]);
        assert(p2[e] != '}');
    } else if p2.len() < p1.len() {
        let e = p2.len() - 1;
        assert(w.take(p1.len() as int)[e] == w[e]);
        assert(w.take(p2.len() as int)[e] == w[e]);
        assert(p1[e] != '}');
    }
}

/// A prefix at none of whose positions a rule matches passes through a
/// pass unchanged.
proof fn lemma_one_pass_inert(u: Seq<char>, x: Seq<char>, rules: Seq<(Seq<char>, Seq<char>)>)
    requires
        forall|i: int| 0 <= i < u.len() ==> no_match(#[trigger] (u + x).skip(i), rules),
    ensures
        one_pass(u + x, rules) == u + one_pass(x, rules),
    decreases u.len(),
{
    let w = u + x;
    if u.len() == 0 {
        assert(w =~= x);
    } else {
        assert(w.skip(0) =~= w);
        assert(no_match(w.skip(0), rules));
        lemma_one_pass_copy(w, rules);
        let u1 = u.drop_first();
        assert(w.drop_first() =~= u1 + x);
        assert forall|i: int| 0 <= i < u1.len() implies no_match(#[trigger] (u1 + x).skip(i), rules) by {
            assert((u1 + x).skip(i) =~= w.skip(i + 1));
            assert(no_match(w.skip(i + 1), rules));
        }
        lemma_one_pass_inert(u1, x, rules);
        assert(seq![w[0]] + (u1 + one_pass(x, rules)) =~= u + one_pass(x, rules));
    }
}

/// A prefix at none of whose positions `q` starts passes through a
/// replacement of `q` unchanged.
proof fn lemma_replace_inert(u: Seq<char>, x: Seq<char>, q: Seq<char>, r: Seq<char>)
    requires
        q.len() > 0,
        forall|i: int| 0 <= i < u.len() ==> !starts_with(#[trigger] (u + x).skip(i), q),
    ensures
        replace_spec(u + x, q, r) == u + replace_spec(x, q, r),
    decreases u.len(),
{
    let w = u + x;
    if u.len() == 0 {
        assert(w =~= x);
    } else {
        assert(w.skip(0) =~= w);
        assert(!starts_with(w.skip(0), q));
        if w.len() < q.len() {
            assert(replace_spec(x, q, r) == x);
        } else {
            let u1 = u.drop_first();
            assert(w.drop_first() =~= u1 + x);
            assert forall|i: int| 0 <= i < u1.len() implies !starts_with(#[trigger] (u1 + x).skip(i), q) by {
                assert((u1 + x).skip(i) =~= w.skip(i + 1));
                assert(!starts_with(w.skip(i + 1), q));
            }
            lemma_replace_inert(u1, x, q, r);
            assert(seq![w[0]] + (u1 + replace_spec(x, q, r)) =~= u + replace_spec(x, q, r));
        }
    }
}

/// No placeholder token starts anywhere inside a replacement.
proof fn lemma_replacement_inert(r: Seq<char>, y: Seq<char>, rules: Seq<(Seq<char>, Seq<char>)>)
    requires
        is_replacement(r),
        rules_well_formed(rules),
    ensures
        forall|i: int| 0 <= i < r.len() ==> no_match(#[trigger] (r + y).skip(i), rules),
{
    assert forall|i: int| 0 <= i < r.len() implies no_match(#[trigger] (r + y).skip(i), rules) by {
        let w = (r + y).skip(i);
        assert forall|k: int| 0 <= k < rules.len() implies !starts_with(w, #[trigger] rules[k].0) by {
            let p = rules[k].0;
            assert(is_token(p));
            if starts_with(w, p) {
                assert(w.take(p.len() as int)[0] == w[0]);
                assert(w[0] == r[i]);
                if r =~= seq!['\n'] {
                } else if i == 0 {
                    lemma_token_not_at_replacement(p, r, y);
                    assert((r + y).subrange(0, p.len() as int) =~= w.take(p.len() as int));
                } else if i < r.len() - 1 {
                    assert(r[i] != '{');
                } else {
                    assert(r[i] == '}');
                }
            }
        }
    }
}

proof fn lemma_rest_well_formed(rules: Seq<(Seq<char>, Seq<char>)>)
    requires
        rules.len() > 0,
        rules_well_formed(rules),
    ensures
        rules_well_formed(rules.drop_first()),
{
    let rest = rules.drop_first();
    assert forall|k: int| 0 <= k < rest.len() implies is_token(#[trigger] rest[k].0) && is_replacement(rest[k].1) by {
        assert(rest[k] == rules[k + 1]);
        lemma_rule_at(rules, k + 1);
    }
}

/// Replacing the first rule's placeholder, then making one pass with the
/// other rules, is one pass with all the rules.
proof fn lemma_pass_after_replace(s: Seq<char>, rules: Seq<(Seq<char>, Seq<char>)>)
    requires
        rules.len() > 0,
        rules_well_formed(rules),
    ensures
        one_pass(s, rules) == one_pass(replace_spec(s, rules[0].0, rules[0].1), rules.drop_first()),
    decreases s.len(),
{
    let q = rules[0].0;
    let r = rules[0].1;
    let rest = rules.drop_first();
    assert(is_token(q) && is_replacement(r));
    lemma_rest_well_formed(rules);
    if s.len() == 0 {
    } else if starts_with(s, q) {
        lemma_one_pass_rule(s, rules, 0);
        let x = s.skip(q.len() as int);
        let y = replace_spec(x, q, r);
        assert(replace_spec(s, q, r) == r + y);
        lemma_replacement_inert(r, y, rest);
        lemma_one_pass_inert(r, y, rest);
        lemma_pass_after_replace(x, rules);
    } else {
        let s1 = s.drop_first();
        let y1 = replace_spec(s1, q, r);
        assert(replace_spec(s, q, r) == seq![s[0]] + y1) by {
            if s.len() < q.len() {
                assert(y1 == s1);
                assert(s =~= seq![s[0]] + s1);
            }
        }
        if no_match(s, rest) {
            assert forall|k: int| 0 <= k < rules.len() implies !starts_with(s, #[trigger] rules[k].0) by {
                if k > 0 {
                    assert(rules[k] == rest[k - 1]);
                }
            }
            lemma_one_pass_copy(s, rules);
            lemma_pass_after_replace(s1, rules);
            let w = seq![s[0]] + y1;
            assert forall|k: int| 0 <= k < rest.len() implies !starts_with(w, #[trigger] rest[k].0) by {
                let p = rest[k].0;
                assert(is_token(p));
                if starts_with(w, p) {
                    let kk = p.len() - 1;
                    assert forall|j: int| 0 <= j < kk implies #[trigger] y1[j] != '{' && y1[j] != '\n' by {
                        assert(y1[j] == w[j + 1]);
                        assert(w.take(p.len() as int)[j + 1] == w[j + 1]);
                    }
                    if r =~= seq!['\n'] {
                        assert(r[0] == '\n');
                    }
                    lemma_untouched_prefix(s1, q, r, kk);
                    assert(s.take(p.len() as int) =~= seq![s[0]] + s1.take(kk));
                    assert(w.take(p.len() as int) =~= seq![s[0]] + y1.take(kk));
                    assert(starts_with(s, p));
                }
            }
            lemma_one_pass_copy(w, rest);
            assert(w.drop_first() =~= y1);
        } else {
            lemma_first_match(s, rest, 0);
            let i = first_match(s, rest, 0);
            assert(i < rest.len());
            let p = rest[i].0;
            assert(is_token(p));
            assert forall|k: int| 0 <= k < i + 1 implies !starts_with(s, #[trigger] rules[k].0) by {
                if k > 0 {
                    assert(rules[k] == rest[k - 1]);
                }
            }
            assert(rules[i + 1] == rest[i]);
            lemma_one_pass_rule(s, rules, i + 1);
            let x = s.skip(p.len() as int);
            assert(s =~= p + x);
            assert forall|j: int| 0 <= j < p.len() implies !starts_with(#[trigger] (p + x).skip(j), q) by {
                if j > 0 {
                    let v = (p + x).skip(j);
                    if starts_with(v, q) {
                        assert(v.take(q.len() as int)[0] == v[0]);
                        assert(v[0] == p[j]);
                    }
                } else {
                    assert((p + x).skip(0) =~= s);
                }
            }
            lemma_replace_inert(p, x, q, r);
            let z = replace_spec(x, q, r);
            let w = p + z;
            assert(w.take(p.len() as int) =~= p);
            assert forall|k: int| 0 <= k < i implies !starts_with(w, #[trigger] rest[k].0) by {
                assert(is_token(rest[k].0));
                if starts_with(w, rest[k].0) {
                    lemma_token_start_unique(w, rest[k].0, p);
                }
            }
            lemma_one_pass_rule(w, rest, i);
            assert(w.skip(p.len() as int) =~= z);
            lemma_pass_after_replace(x, rules);
        }
    }
}

proof fn lemma_one_pass_no_rules(s: Seq<char>, rules: Seq<(Seq<char>, Seq<char>)>)
    requires
        rules.len() == 0,
    ensures
        one_pass(s, rules) == s,
    decreases s.len(),
{
    if s.len() > 0 {
        lemma_one_pass_copy(s, rules);
        lemma_one_pass_no_rules(s.drop_first(), rules);
        assert(seq![s[0]] + s.drop_first() =~= s);
    }
}

/// Replacing each rule's placeholder in turn is one left-to-right pass with
/// all the rules.
proof fn lemma_apply_rules_one_pass(t: Seq<char>, rules: Seq<(Seq<char>, Seq<char>)>)
    requires
        rules_well_formed(rules),
    ensures
        apply_rules(t, rules) == one_pass(t, rules),
    decreases rules.len(),
{
    if rules.len() == 0 {
        lemma_one_pass_no_rules(t, rules);
    } else {
        lemma_rest_well_formed(rules);
        lemma_apply_rules_one_pass(replace_spec(t, rules[0].0, rules[0].1), rules.drop_first());
        lemma_pass_after_replace(t, rules);
    }
}

/// The display form is a single left-to-right pass over the template: each
/// `{nl}` becomes a line break and each numeric placeholder its padded form,
/// a replacement never making a new match; all other text is kept, so a
/// template without `{` is shown as it is.
pub proof fn lemma_display_is_one_pass(t: Seq<char>)
    ensures
        display_template(t) == one_pass(t, display_rules()),
        (forall|i: int| 0 <= i < t.len() ==> t[i] != '{') ==> display_template(t) == t,
{
    let rules = display_rules();
    lemma_display_rules_well_formed();
    lemma_display_is_rules(t);
    lemma_apply_rules_one_pass(t, rules);
    if forall|i: int| 0 <= i < t.len() ==> t[i] != '{' {
        assert forall|k: int| 0 <= k < rules.len() implies free_of(t, #[trigger] rules[k].0) by {
            let p = rules[k].0;
            assert(is_token(p));
            assert forall|i: int| 0 <= i <= t.len() - p.len() implies #[trigger] t.subrange(i, i + p.len()) != p by {
                assert(t.subrange(i, i + p.len())[0] == t[i]);
            }
        }
        lemma_apply_rules_identity(t, rules);
    }
}

/// Replaces every `p` in `t` by `r`.
fn replace_in(t: &Vec<char>, p: &str, r: &str) -> (out: Vec<char>)
    requires
        p@.len() > 0,
    ensures
        out@ == replace_spec(t@, p@, r@),
{
    let pv = chars_of(p);
    let rv = chars_of(r);
    replace_all(t, &pv, &rv)
}

/// Transforms a template for visual display in the overlay: line breaks and
/// zero-padded placeholders.
pub fn transform_template_for_display(template: &str) -> (r: String)
    ensures
        r@ == display_template(template@),
{
    proof {
        reveal_strlit("{nl}");
        reveal_strlit("{rd}");
        reveal_strlit("{gd}");
        reveal_strlit("{bd}");
        reveal_strlit("{h}");
        reveal_strlit("{s}");
        reveal_strlit("{l}");
        reveal_strlit("{v}");
        reveal_strlit("{c}");
        reveal_strlit("{m}");
        reveal_strlit("{y}");
        reveal_strlit("{k}");
        reveal_strlit("{long}");
    }
    let t = chars_of(template);
    let t = replace_in(&t, "{nl}", "\n");
    let t = replace_in(&t, "{rd}", "{rd_pad}");
    let t = replace_in(&t, "{gd}", "{gd_pad}");
    let t = replace_in(&t, "{bd}", "{bd_pad}");
    let t = replace_in(&t, "{h}", "{h_pad}");
    let t = replace_in(&t, "{s}", "{s_pad}");
    let t = replace_in(&t, "{l}", "{l_pad}");
    let t = replace_in(&t, "{v}", "{v_pad}");
    let t = replace_in(&t, "{c}", "{c_pad}");
    let t = replace_in(&t, "{m}", "{m_pad}");
    let t = replace_in(&t, "{y}", "{y_pad}");
    let t = replace_in(&t, "{k}", "{k_pad}");
    let t = replace_in(&t, "{long}", "{long_pad}");
    string_from_chars(&t)
}

// ---------------------------------------------------------------------------
// Colour history
// ---------------------------------------------------------------------------

/// The texts of a list of strings.
pub open spec fn texts(v: Seq<String>) -> Seq<Seq<char>> {
    v.map_values(|s: String| s@)
}

/// `s` with every entry equal to `x` left out, the others in order.
pub open spec fn without(s: Seq<Seq<char>>, x: Seq<char>) -> Seq<Seq<char>>
    decreases s.len(),
{
    if s.len() == 0 {
        s
    } else if s.last() == x {
        without(s.drop_last(), x)
    } else {
        without(s.drop_last(), x).push(s.last())
    }
}

/// The history after `hex` is pushed: `hex` first, the earlier colours
/// other than `hex` after it in their order, at most `size` kept.
pub open spec fn pushed_history(colors: Seq<Seq<char>>, hex: Seq<char>, size: nat) -> Seq<Seq<char>> {
    let l = seq![hex] + without(colors, hex);
    if l.len() > size {
        l.take(size as int)
    } else {
        l
    }
}

impl Config {
    /// Records `hex` as the most recent colour: any earlier copy of it is
    /// removed, it goes first, and the list is cut to `history.size`.
    pub fn push_history(&mut self, hex: String)
        ensures
            texts(final(self).history.colors@) == pushed_history(
                texts(old(self).history.colors@),
                hex@,
                old(self).history.size as nat,
            ),
            final(self).history.size == old(self).history.size,
            final(self).history.reverse_order == old(self).history.reverse_order,
            final(self).magnifier == old(self).magnifier,
            final(self).colors == old(self).colors,
            final(self).hud == old(self).hud,
            final(self).font == old(self).font,
            final(self).physics == old(self).physics,
            final(self).templates == old(self).templates,
            final(self).system == old(self).system,
    {
        let mut old_colors: Vec<String> = Vec::new();
        std::mem::swap(&mut old_colors, &mut self.history.colors);
        let ghost old_t = texts(old_colors@);
        let mut kept: Vec<String> = Vec::new();
        let mut i: usize = 0;
        while i < old_colors.len()
            invariant
                i <= old_colors@.len(),
                old_t == texts(old_colors@),
                texts(kept@) == without(old_t.take(i as int), hex@),
            decreases old_colors.len() - i,
        {
            assert(old_t.take(i + 1).drop_last() =~= old_t.take(i as int));
            assert(old_t.take(i + 1).last() == old_colors@[i as int]@);
            if !(old_colors[i] == hex) {
                let c = old_colors[i].clone();
                let ghost before = texts(kept@);
                kept.push(c);
                assert(texts(kept@) =~= before.push(c@));
            }
            i = i + 1;
        }
        assert(old_t.take(old_colors.len() as int) =~= old_t);
        let ghost kt = texts(kept@);
        let ghost h = hex@;
        kept.insert(0, hex);
        assert(texts(kept@) =~= seq![h] + kt);
        if kept.len() > self.history.size {
            let ghost full = texts(kept@);
            kept.truncate(self.history.size);
            assert(texts(kept@) =~= full.take(self.history.size as int));
        }
        self.history.colors = kept;
    }
}

proof fn lemma_without_excludes(s: Seq<Seq<char>>, x: Seq<char>)
    ensures
        forall|i: int| 0 <= i < without(s, x).len() ==> without(s, x)[i] != x,
        forall|i: int| 0 <= i < without(s, x).len() ==> s.contains(#[trigger] without(s, x)[i]),
        without(s, x).len() <= s.len(),
    decreases s.len(),
{
    if s.len() > 0 {
        lemma_without_excludes(s.drop_last(), x);
        let w = without(s.drop_last(), x);
        assert forall|i: int| 0 <= i < without(s, x).len() implies s.contains(
            #[trigger] without(s, x)[i],
        ) by {
            if i < w.len() {
                let e = w[i];
                assert(s.drop_last().contains(e));
                let j = choose|j: int| 0 <= j < s.drop_last().len() && s.drop_last()[j] == e;
                assert(s[j] == e);
            } else {
                assert(s[s.len() - 1] == s.last());
            }
        }
    }
}

proof fn lemma_without_absent(s: Seq<Seq<char>>, x: Seq<char>)
    requires
        forall|i: int| 0 <= i < s.len() ==> s[i] != x,
    ensures
        without(s, x) == s,
    decreases s.len(),
{
    if s.len() > 0 {
        lemma_without_absent(s.drop_last(), x);
        assert(s.drop_last().push(s.last()) =~= s);
    }
}

proof fn lemma_without_distinct(s: Seq<Seq<char>>, x: Seq<char>)
    requires
        s.no_duplicates(),
    ensures
        without(s, x).no_duplicates(),
    decreases s.len(),
{
    if s.len() > 0 {
        let d = s.drop_last();
        assert(d.no_duplicates());
        lemma_without_distinct(d, x);
        lemma_without_excludes(d, x);
        let w = without(d, x);
        if s.last() != x {
            assert forall|i: int| 0 <= i < w.len() implies w[i] != s.last() by {
                assert(d.contains(w[i]));
                let j = choose|j: int| 0 <= j < d.len() && d[j] == w[i];
                assert(s[j] == w[i]);
                assert(s[s.len() - 1] == s.last());
            }
            assert forall|i: int, j: int| 0 <= i < j < w.push(s.last()).len() implies w.push(
                s.last(),
            )[i] != w.push(s.last())[j] by {
                if j == w.len() {
                    assert(w.push(s.last())[j] == s.last());
                    assert(w.push(s.last())[i] == w[i]);
                }
            }
        }
    }
}

/// After a push the history holds at most `size` colours, the pushed colour
/// first (when anything is kept) and nowhere else.
pub proof fn lemma_history_push_front(colors: Seq<Seq<char>>, hex: Seq<char>, size: nat)
    ensures
        pushed_history(colors, hex, size).len() <= size,
        size > 0 ==> pushed_history(colors, hex, size)[0] == hex,
        forall|i: int|
            1 <= i < pushed_history(colors, hex, size).len() ==> pushed_history(colors, hex, size)[i]
                != hex,
{
    lemma_without_excludes(colors, hex);
}

/// A history without repeated colours stays without them after a push.
pub proof fn lemma_history_push_distinct(colors: Seq<Seq<char>>, hex: Seq<char>, size: nat)
    requires
        colors.no_duplicates(),
    ensures
        pushed_history(colors, hex, size).no_duplicates(),
{
    lemma_without_distinct(colors, hex);
    lemma_without_excludes(colors, hex);
    let w = without(colors, hex);
    let l = seq![hex] + w;
    assert forall|i: int, j: int| 0 <= i < j < l.len() implies l[i] != l[j] by {
        if i == 0 {
            assert(l[j] == w[j - 1]);
        } else {
            assert(l[i] == w[i - 1] && l[j] == w[j - 1]);
        }
    }
    assert(l.no_duplicates());
}

/// Pushing the same colour twice is the same as pushing it once.
pub proof fn lemma_history_push_idempotent(colors: Seq<Seq<char>>, hex: Seq<char>, size: nat)
    ensures
        pushed_history(pushed_history(colors, hex, size), hex, size) == pushed_history(colors, hex, size),
{
    let p = pushed_history(colors, hex, size);
    lemma_history_push_front(colors, hex, size);
    if p.len() == 0 {
        assert(without(p, hex) =~= p);
        assert(size == 0);
        assert(pushed_history(p, hex, size) =~= p);
    } else {
        let rest = p.drop_first();
        assert forall|i: int| 0 <= i < rest.len() implies rest[i] != hex by {
            assert(rest[i] == p[i + 1]);
        }
        lemma_without_absent(rest, hex);
        assert(p =~= seq![hex] + rest);
        lemma_without_of_leading(rest, hex);
        assert(without(p, hex) == rest);
        assert(seq![hex] + without(p, hex) =~= p);
    }
}

proof fn lemma_without_of_leading(s: Seq<Seq<char>>, x: Seq<char>)
    ensures
        without(seq![x] + s, x) == without(s, x),
    decreases s.len(),
{
    if s.len() == 0 {
        assert(seq![x] + s =~= seq![x]);
        assert(seq![x].drop_last() =~= Seq::<Seq<char>>::empty());
        assert(seq![x].last() == x);
        assert(without(Seq::<Seq<char>>::empty(), x) == Seq::<Seq<char>>::empty());
        assert(without(seq![x], x) == without(seq![x].drop_last(), x));
        assert(s =~= Seq::<Seq<char>>::empty());
    } else {
        lemma_without_of_leading(s.drop_last(), x);
        assert((seq![x] + s).drop_last() =~= seq![x] + s.drop_last());
        assert((seq![x] + s).last() == s.last());
    }
}

// ---------------------------------------------------------------------------
// Where the configuration lives
// ---------------------------------------------------------------------------

/// `base` joined with `p` (`PathBuf::join`): an absolute `p` (one that
/// starts with `/`) replaces `base`; otherwise a `/` goes between them unless
/// `base` is empty or already ends with one.
pub open spec fn path_join(base: Seq<char>, p: Seq<char>) -> Seq<char> {
    if p.len() > 0 && p[0] == '/' {
        p
    } else if base.len() > 0 && base.last() != '/' {
        base + seq!['/'] + p
    } else {
        base + p
    }
}

/// The configuration file: `$XDG_CONFIG_HOME/ie-r/config.toml`, else
/// `$HOME/.config/ie-r/config.toml`, else under `/tmp/.config`.
pub open spec fn config_path_spec(xdg_config_home: Option<Seq<char>>, home: Option<Seq<char>>) -> Seq<char> {
    let base = match xdg_config_home {
        Some(x) => x,
        None => path_join(
            match home {
                Some(h) => h,
                None => "/tmp"@,
            },
            ".config"@,
        ),
    };
    path_join(path_join(base, "ie-r"@), "config.toml"@)
}

/// Joins `p` onto `base`; an absolute `p` replaces `base`.
pub(crate) fn join_path(base: &Vec<char>, p: &str) -> (r: Vec<char>)
    ensures
        r@ == path_join(base@, p@),
{
    let pc = chars_of(p);
    if pc.len() > 0 && pc[0] == '/' {
        return pc;
    }
    let mut r: Vec<char> = Vec::new();
    push_chars(&mut r, base);
    if base.len() > 0 && base[base.len() - 1] != '/' {
        r.push('/');
    }
    push_chars(&mut r, &pc);
    r
}

/// The configuration file's path, from the values of `XDG_CONFIG_HOME` and
/// `HOME` (`None` where a variable is unset or not Unicode).
pub fn config_path_from_env(xdg_config_home: Option<&str>, home: Option<&str>) -> (r: String)
    ensures
        r@ == config_path_spec(
            match xdg_config_home {
                Some(x) => Some(x@),
                None => None,
            },
            match home {
                Some(h) => Some(h@),
                None => None,
            },
        ),
{
    let base: Vec<char> = match xdg_config_home {
        Some(x) => chars_of(x),
        None => {
            let h = match home {
                Some(h) => chars_of(h),
                None => chars_of("/tmp"),
            };
            join_path(&h, ".config")
        },
    };
    let dir = join_path(&base, "ie-r");
    let file = join_path(&dir, "config.toml");
    string_from_chars(&file)
}

/// Name of the `idx`-th backup of a broken configuration:
/// `config_broken_NN.toml`, `NN` the two-digit index.
pub open spec fn broken_config_name(idx: int) -> Seq<char> {
    "config_broken_"@ + seq![(48 + idx / 10) as char, (48 + idx % 10) as char] + ".toml"@
}

/// The `idx`-th backup name, `idx` below 100 (`format!("config_broken_{:02}.toml", idx)`).
pub fn broken_config_file_name(idx: u32) -> (r: String)
    requires
        idx < 100,
    ensures
        r@ == broken_config_name(idx as int),
{
    let mut v = chars_of("config_broken_");
    v.push(((48 + idx / 10) as u8) as char);
    v.push(((48 + idx % 10) as u8) as char);
    push_str_chars(&mut v, ".toml");
    assert(v@ =~= broken_config_name(idx as int));
    string_from_chars(&v)
}

/// Distinct backup indices give distinct names, so no backup overwrites another.
pub proof fn lemma_broken_config_names_distinct(a: int, b: int)
    requires
        0 <= a < 100,
        0 <= b < 100,
        a != b,
    ensures
        broken_config_name(a) != broken_config_name(b),
{
    let n = "config_broken_"@.len() as int;
    reveal_strlit("config_broken_");
    assert(broken_config_name(a)[n] == (48 + a / 10) as char);
    assert(broken_config_name(b)[n] == (48 + b / 10) as char);
    assert(broken_config_name(a)[n + 1] == (48 + a % 10) as char);
    assert(broken_config_name(b)[n + 1] == (48 + b % 10) as char);
}

} // verus!
