use crusty::prompt::{parse_prompt_colors, tokenize, BgColor, EscapeSequence, EsBuilder, FgColor, FontEffects};

#[test]
fn plain_text_unchanged() {
    assert_eq!(parse_prompt_colors("hello world"), "hello world");
}

#[test]
fn empty_template() {
    assert_eq!(parse_prompt_colors(""), "");
}

#[test]
fn foreground_red() {
    assert_eq!(parse_prompt_colors("F<RED>text"), "\x1b[31mtext");
}

#[test]
fn merged_run_two_colors() {
    assert_eq!(parse_prompt_colors("B<BLUE>F<WHITE>text"), "\x1b[44;37mtext");
}

#[test]
fn italics_effect() {
    assert_eq!(parse_prompt_colors("%{i}Hi"), "\x1b[3mHi");
}

#[test]
fn underline_effect() {
    assert_eq!(parse_prompt_colors("%{u}x"), "\x1b[4mx");
}

#[test]
fn unknown_color_defaults_to_white() {
    assert_eq!(parse_prompt_colors("F<PURPLE>x"), "\x1b[37mx");
}

#[test]
fn unknown_effect_defaults_to_zero() {
    assert_eq!(parse_prompt_colors("%{x}A"), "\x1b[0mA");
}

#[test]
fn empty_fg_payload_defaults_to_white() {
    assert_eq!(parse_prompt_colors("F<>x"), "\x1b[37mx");
}

#[test]
fn empty_bg_payload_defaults_to_white() {
    assert_eq!(parse_prompt_colors("B<>x"), "\x1b[47mx");
}

#[test]
fn unterminated_directive_contributes_nothing() {
    assert_eq!(parse_prompt_colors("F<RED"), "");
}

#[test]
fn abandoned_marker_keeps_following_literals() {
    assert_eq!(parse_prompt_colors("F!abc"), "!abc");
}

#[test]
fn abandoned_marker_flushes_pending_run() {
    assert_eq!(parse_prompt_colors("F<RED>B!"), "\x1b[31m!");
}

#[test]
fn marker_after_abandoned_marker_starts_directive() {
    assert_eq!(parse_prompt_colors("%B<RED>x"), "\x1b[41mx");
}

#[test]
fn literal_marker_is_consumed() {
    assert_eq!(parse_prompt_colors("aBc"), "ac");
}

#[test]
fn recompiling_output_is_identity() {
    let once = parse_prompt_colors("B<RED>%{i}hi there");
    assert_eq!(parse_prompt_colors(&once), once);
}

#[test]
fn four_directives_one_sequence() {
    assert_eq!(parse_prompt_colors("%{i}%{u}B<GREEN>F<CYAN>"), "\x1b[3;4;42;36m");
}

#[test]
fn literal_splits_runs() {
    assert_eq!(parse_prompt_colors("F<RED>x%{i}y"), "\x1b[31mx\x1b[3my");
}

#[test]
fn markers_inside_payload_are_payload() {
    assert_eq!(parse_prompt_colors("F<B%F>x"), "\x1b[37mx");
}

#[test]
fn end_of_input_flushes_pending_run() {
    assert_eq!(parse_prompt_colors("F<GREEN>"), "\x1b[32m");
}

#[test]
fn all_foreground_colors() {
    let names = ["BLACK", "RED", "GREEN", "YELLOW", "BLUE", "MAGENTA", "CYAN", "WHITE"];
    for (i, name) in names.iter().enumerate() {
        let template = format!("F<{}>", name);
        let expected = format!("\x1b[{}m", 30 + i);
        assert_eq!(parse_prompt_colors(&template), expected);
    }
}

#[test]
fn all_background_colors() {
    let names = ["BLACK", "RED", "GREEN", "YELLOW", "BLUE", "MAGENTA", "CYAN", "WHITE"];
    for (i, name) in names.iter().enumerate() {
        let template = format!("B<{}>", name);
        let expected = format!("\x1b[{}m", 40 + i);
        assert_eq!(parse_prompt_colors(&template), expected);
    }
}

#[test]
fn bg_color_codes() {
    assert_eq!(BgColor::Black.to_u8(), 40);
    assert_eq!(BgColor::Red.to_u8(), 41);
    assert_eq!(BgColor::Green.to_u8(), 42);
    assert_eq!(BgColor::Yellow.to_u8(), 43);
    assert_eq!(BgColor::Blue.to_u8(), 44);
    assert_eq!(BgColor::Magenta.to_u8(), 45);
    assert_eq!(BgColor::Cyan.to_u8(), 46);
    assert_eq!(BgColor::White.to_u8(), 47);
}

#[test]
fn fg_color_codes() {
    assert_eq!(FgColor::Black.to_u8(), 30);
    assert_eq!(FgColor::Red.to_u8(), 31);
    assert_eq!(FgColor::Green.to_u8(), 32);
    assert_eq!(FgColor::Yellow.to_u8(), 33);
    assert_eq!(FgColor::Blue.to_u8(), 34);
    assert_eq!(FgColor::Magenta.to_u8(), 35);
    assert_eq!(FgColor::Cyan.to_u8(), 36);
    assert_eq!(FgColor::White.to_u8(), 37);
}

#[test]
fn font_effect_codes() {
    assert_eq!(FontEffects::Italics.to_u8(), 3);
    assert_eq!(FontEffects::Underline.to_u8(), 4);
}

#[test]
fn single_attribute_escapes() {
    assert_eq!(BgColor::Blue.to_escape(), "\x1b[44m");
    assert_eq!(FgColor::Red.to_escape(), "\x1b[31m");
    assert_eq!(FontEffects::Italics.to_escape(), "\x1b[3m");
    assert_eq!(FontEffects::Underline.to_escape(), "\x1b[4m");
}

#[test]
fn builder_joins_codes() {
    let mut b = EscapeSequence::builder();
    b.append(31);
    b.append(42);
    let es = b.build();
    assert_eq!(es.text().as_str(), "\x1b[31;42m");
}

#[test]
fn builder_single_code() {
    let mut b = EsBuilder::new();
    b.append(3);
    let es = b.build();
    assert_eq!(es.text().as_str(), "\x1b[3m");
}

#[test]
fn builder_three_digit_code() {
    let mut b = EsBuilder::new();
    b.append(255);
    b.append(0);
    let es = b.build();
    assert_eq!(es.text().as_str(), "\x1b[255;0m");
}

#[test]
fn tokenize_preserves_characters() {
    assert_eq!(tokenize("a%b"), vec!['a', '%', 'b']);
    assert_eq!(tokenize(""), Vec::<char>::new());
}
