use ie_r::config::{
    broken_config_file_name, config_path_from_env, template_key, template_keys,
    transform_template_for_display, ColorsConfig, Config, CopyTemplatesConfig, FontConfig,
    HistoryConfig, HudConfig, MagnifierConfig, PhysicsConfig, ShowTemplatesConfig, SystemConfig,
    TemplateKey, TemplatesConfig, TrayIcon,
};

fn s(x: &str) -> String {
    x.to_string()
}

fn copy_templates() -> CopyTemplatesConfig {
    CopyTemplatesConfig {
        html: s("#{RR}{GG}{BB}"),
        hex: s("{RR}{GG}{BB}"),
        rgb: s("rgb({rd}, {gd}, {bd})"),
        float: s("{rf}, {gf}, {bf}"),
        hsl: s("hsl({h}, {s}%, {l}%)"),
        hsv: s("hsv({h}, {s}%, {v}%)"),
        cmyk: s("cmyk({c}, {m}, {y}, {k})"),
        delphi: s("$00{BB}{GG}{RR}"),
        vb: s("&H00{BB}{GG}{RR}&"),
        long: s("{long}"),
    }
}

fn templates(selected: &str) -> TemplatesConfig {
    TemplatesConfig {
        selected: s(selected),
        float_precision: 3,
        deck_separator: s(", "),
        copy: copy_templates(),
        show: ShowTemplatesConfig { line_spacing_bits: 1.0f32.to_bits(), formats: indexmap::IndexMap::new() },
    }
}

fn config(history: &[&str], size: usize) -> Config {
    Config {
        magnifier: MagnifierConfig { aperture: 9, aim_size: 1, size: 200, offset_x: 20, offset_y: 20, jump_threshold: 50 },
        colors: ColorsConfig { frame: 0xFFFFFF, aim: 0xFF0000, background: 0, foreground: 0xFFFFFF, grid: 0x404040 },
        hud: HudConfig { show: true, heavy_glitch_chance: 1, light_glitch_chance: 2, chromatic_chance: 3, scanlines_intensity_bits: 0.5f32.to_bits() },
        font: FontConfig { family: s("Mono"), size_bits: 14.0f32.to_bits(), dim_zeros_bits: 0.4f32.to_bits(), padding_left: s(""), padding_right: s("") },
        physics: PhysicsConfig { blur_radius: 8, glass_opacity_bits: 0.8f32.to_bits(), stiffness_bits: 300.0f64.to_bits(), damping_bits: 20.0f64.to_bits(), pop_effect_bits: 1.2f64.to_bits(), blink_effect: s("fade") },
        templates: templates("html"),
        history: HistoryConfig { size, reverse_order: false, colors: history.iter().map(|c| s(c)).collect() },
        system: SystemConfig { hotkey: s("F12"), poll_interval_ms: 50, auto_cancel: 60, tray_icon: TrayIcon::Color },
    }
}

#[test]
fn tray_icon_default_is_color() {
    assert_eq!(TrayIcon::default(), TrayIcon::Color);
}

#[test]
fn push_history_moves_colour_to_front() {
    let mut c = config(&["#111111", "#222222", "#333333"], 5);
    c.push_history(s("#222222"));
    assert_eq!(c.history.colors, vec!["#222222", "#111111", "#333333"]);
}

#[test]
fn push_history_truncates_to_size() {
    let mut c = config(&["#111111", "#222222", "#333333"], 3);
    c.push_history(s("#444444"));
    assert_eq!(c.history.colors, vec!["#444444", "#111111", "#222222"]);
}

#[test]
fn push_history_size_zero_keeps_nothing() {
    let mut c = config(&["#111111"], 0);
    c.push_history(s("#444444"));
    assert!(c.history.colors.is_empty());
}

#[test]
fn push_history_twice_same_as_once() {
    let mut a = config(&["#111111", "#222222", "#333333", "#222222"], 3);
    a.push_history(s("#333333"));
    let once = a.history.colors.clone();
    a.push_history(s("#333333"));
    assert_eq!(a.history.colors, once);
    assert_eq!(once, vec!["#333333", "#111111", "#222222"]);
}

#[test]
fn push_history_removes_every_copy_and_keeps_rest() {
    let mut c = config(&["#AAAAAA", "#BBBBBB", "#AAAAAA", "#CCCCCC"], 10);
    c.push_history(s("#AAAAAA"));
    assert_eq!(c.history.colors, vec!["#AAAAAA", "#BBBBBB", "#CCCCCC"]);
    assert_eq!(c.system.hotkey, "F12");
    assert_eq!(c.history.size, 10);
}

#[test]
fn template_key_lookup() {
    assert_eq!(template_key("hsv"), Some(TemplateKey::Hsv));
    assert_eq!(template_key("HSV"), None);
    assert_eq!(template_key("long"), Some(TemplateKey::Long));
    let keys: Vec<&str> = template_keys().iter().map(|k| k.key()).collect();
    assert_eq!(keys, vec!["html", "hex", "rgb", "float", "hsl", "hsv", "cmyk", "delphi", "vb", "long"]);
    assert_eq!(TemplateKey::Float.label(), "RGB Float");
    assert_eq!(TemplateKey::Vb.label(), "VB Hex");
}

#[test]
fn selected_template_and_fallback() {
    assert_eq!(templates("cmyk").get_selected_template(), "cmyk({c}, {m}, {y}, {k})");
    assert_eq!(templates("delphi").get_selected_template(), "$00{BB}{GG}{RR}");
    assert_eq!(templates("unknown").get_selected_template(), "#{RR}{GG}{BB}");
}

#[test]
fn visual_template_prefers_overlay_entry() {
    let mut t = templates("rgb");
    assert_eq!(t.get_visual_template(), "rgb({rd}, {gd}, {bd})");
    t.show.formats.insert(s("rgb"), s("R {rd}{nl}G {gd}"));
    assert_eq!(t.get_visual_template(), "R {rd}{nl}G {gd}");
    t.selected = s("hex");
    assert_eq!(t.get_visual_template(), "{RR}{GG}{BB}");
}

#[test]
fn display_template_pads_and_breaks_lines() {
    assert_eq!(
        transform_template_for_display("rgb({rd},{gd},{bd}){nl}{h} {s} {l} {v}"),
        "rgb({rd_pad},{gd_pad},{bd_pad})\n{h_pad} {s_pad} {l_pad} {v_pad}"
    );
    assert_eq!(transform_template_for_display("{c}{m}{y}{k}{long}"), "{c_pad}{m_pad}{y_pad}{k_pad}{long_pad}");
    assert_eq!(transform_template_for_display("{RR}{lo}{x}"), "{RR}{lo}{x}");
}

#[test]
fn display_template_matches_std_replace_chain() {
    let t = "{nl}{long}{l}{rd_pad}{{h}}";
    let expected = t
        .replace("{nl}", "\n")
        .replace("{rd}", "{rd_pad}")
        .replace("{gd}", "{gd_pad}")
        .replace("{bd}", "{bd_pad}")
        .replace("{h}", "{h_pad}")
        .replace("{s}", "{s_pad}")
        .replace("{l}", "{l_pad}")
        .replace("{v}", "{v_pad}")
        .replace("{c}", "{c_pad}")
        .replace("{m}", "{m_pad}")
        .replace("{y}", "{y_pad}")
        .replace("{k}", "{k_pad}")
        .replace("{long}", "{long_pad}");
    assert_eq!(transform_template_for_display(t), expected);
}

#[test]
fn config_path_rules() {
    assert_eq!(config_path_from_env(Some("/x/cfg"), Some("/home/u")), "/x/cfg/ie-r/config.toml");
    assert_eq!(config_path_from_env(Some("/x/cfg/"), None), "/x/cfg/ie-r/config.toml");
    assert_eq!(config_path_from_env(None, Some("/home/u")), "/home/u/.config/ie-r/config.toml");
    assert_eq!(config_path_from_env(None, None), "/tmp/.config/ie-r/config.toml");
    assert_eq!(config_path_from_env(Some(""), None), "ie-r/config.toml");
}

#[test]
fn broken_config_names() {
    assert_eq!(broken_config_file_name(1), "config_broken_01.toml");
    assert_eq!(broken_config_file_name(42), "config_broken_42.toml");
    assert_eq!(broken_config_file_name(99), format!("config_broken_{:02}.toml", 99));
}

#[test]
fn display_template_is_idempotent() {
    for t in ["{rd}{nl}{long}{l}", "{{h}}", "plain", "{l}ong}", "{nl}{nl}{x_pad}"] {
        let once = transform_template_for_display(t);
        assert_eq!(transform_template_for_display(&once), once);
    }
}

#[test]
fn broken_config_names_never_collide() {
    let names: std::collections::HashSet<String> = (1..=99).map(broken_config_file_name).collect();
    assert_eq!(names.len(), 99);
}

#[test]
fn display_form_is_one_pass() {
    assert_eq!(transform_template_for_display("{l}{long}{l}"), "{l_pad}{long_pad}{l_pad}");
    assert_eq!(transform_template_for_display("{{h}}"), "{{h_pad}}");
    assert_eq!(transform_template_for_display("{h_pad}{nl}"), "{h_pad}\n");
    assert_eq!(transform_template_for_display("{nl}{nl}"), "\n\n");
}

#[test]
fn display_form_keeps_text_without_braces() {
    assert_eq!(transform_template_for_display("plain text #RRGGBB"), "plain text #RRGGBB");
    assert_eq!(transform_template_for_display(""), "");
}
