use rui::style::draw::{parse_hex_color, Color};
use rui::live_style::{blocks_from_groups, find_live_s_blocks, rust_source_extension, is_blank, parse_styles_from_file_content, styles_from_blocks};
use rui::style::alignment::{
    parse_horizontal_alignment, parse_text_alignment, parse_vertical_alignment, HorizontalAlignment,
    TextAlignment, VerticalAlignment,
};
use rui::style::text::{
    parse_font_family, parse_font_style, parse_font_weight, parse_line_breaking, FontFamily,
    FontStyle, FontWeight, LineBreaking,
};

#[test]
fn test_compile() {}

#[test]
fn test_parse_font_family() {
    let fixtures = [
        ("serif", FontFamily::Serif),
        ("Serif", FontFamily::Serif),
        ("Sans_Serif", FontFamily::SansSerif),
        ("sans_Serif", FontFamily::SansSerif),
        ("Monospace", FontFamily::Monospace),
        ("monospace", FontFamily::Monospace),
        ("system_ui", FontFamily::SystemUi),
        ("System_ui", FontFamily::SystemUi),
        ("apple", FontFamily::Named(b"apple".to_vec())),
        ("SanFrancisco", FontFamily::Named(b"SanFrancisco".to_vec())),
        (
            "\"San Francisco\"",
            FontFamily::Named(b"San Francisco".to_vec()),
        ),
    ];
    for (input, expected) in fixtures {
        assert!(
            matches!(parse_font_family(input.as_bytes()), Some((_, v)) if v == expected),
            "input: {}",
            input
        );
    }
}

#[test]
fn test_parse_font_weight() {
    let fixtures = [
        ("THIN", FontWeight(100)),
        ("HAIRLINE", FontWeight(100)),
        ("EXTRA_LIGHT", FontWeight(200)),
        ("LIGHT", FontWeight(300)),
        ("REGULAR", FontWeight(400)),
        ("NORMAL", FontWeight(400)),
        ("MEDIUM", FontWeight(500)),
        ("SEMI_BOLD", FontWeight(600)),
        ("BOLD", FontWeight(700)),
        ("EXTRA_BOLD", FontWeight(800)),
        ("BLACK", FontWeight(900)),
        ("HEAVY", FontWeight(900)),
        ("EXTRA_BLACK", FontWeight(950)),
        ("130", FontWeight::new(130)),
        ("431", FontWeight::new(431)),
    ];
    for (input, expected) in fixtures {
        assert!(
            matches!(parse_font_weight(input.as_bytes()), Some((_, v)) if v == expected),
            "input: {}",
            input
        );
    }
}

const CONTENT: &str = r##"
    use rui::{
        app::{AppLauncher, WindowDesc},
        live_s,
        menu::mac::menu_bar,
        prelude::*,
        ui::Ui,
    };

    fn win(ui: &mut Ui) {
        let count = ui.state_node(|| 0usize);
        flex(ui, live_s!(ui, r#".b {font-size: 32.0;}"#), |ui| {
            text(
                ui,
                &format!("{}", *count),
                live_s!(
                    ui,
                    ".a { }"
                ),
            );
            button(ui, "Increment", move || {
                count.update(|c| *c += 1);
            });
        });
    }

    fn main() {
        let desc = WindowDesc::new("app".to_string(), move |ui| win(ui)).menu(|_| menu_bar());
        let app = AppLauncher::with_windows(vec![desc]).log_to_console();
        app.launch().unwrap();
    }

    "##;

#[test]
fn test_find_live_blocks() {
    let blocks = find_live_s_blocks(CONTENT);
    assert!(blocks.len() == 2);
    assert_eq!(blocks[0], ".b {font-size: 32.0;}");
    assert_eq!(blocks[1], ".a { }");
}

#[test]
fn live_blocks_of_text_without_calls_are_empty() {
    assert!(find_live_s_blocks("fn main() { println!(\"hi\"); }").is_empty());
}

#[test]
fn blank_blocks() {
    assert!(is_blank(""));
    assert!(is_blank("  \t\n\r "));
    assert!(is_blank("\u{a0}\u{3000}"));
    assert!(!is_blank(" .a { } "));
    assert!(!is_blank("x"));
}

#[test]
fn font_weight_numbers_are_clamped() {
    assert_eq!(parse_font_weight(b"0"), Some((1, FontWeight(1))));
    assert_eq!(parse_font_weight(b"1000"), Some((4, FontWeight(1000))));
    assert_eq!(parse_font_weight(b"65535"), Some((5, FontWeight(1000))));
    assert_eq!(parse_font_weight(b"65536"), None);
    assert_eq!(parse_font_weight(b"99999999999999999999"), None);
    assert_eq!(parse_font_weight(b"250px"), Some((3, FontWeight(250))));
    assert_eq!(parse_font_weight(b"bold;"), Some((4, FontWeight(700))));
    assert_eq!(parse_font_weight(b""), None);
    assert_eq!(parse_font_weight(b"heavyweight"), Some((5, FontWeight(900))));
    assert_eq!(FontWeight::new(0).to_raw(), 1);
    assert_eq!(FontWeight::new(2000).to_raw(), 1000);
}

#[test]
fn font_family_edge_cases() {
    assert_eq!(parse_font_family(b""), None);
    assert_eq!(parse_font_family(b"\"\""), None);
    assert_eq!(parse_font_family(b"\"open"), None);
    assert_eq!(parse_font_family(b"\"a\nb\""), None);
    assert_eq!(
        parse_font_family(b"Serif, x"),
        Some((5, FontFamily::Serif))
    );
    assert_eq!(
        parse_font_family(b"Arial; color"),
        Some((5, FontFamily::Named(b"Arial".to_vec())))
    );
    assert_eq!(
        parse_font_family(b"\"Fira Code\" rest"),
        Some((11, FontFamily::Named(b"Fira Code".to_vec())))
    );
    assert_eq!(parse_font_family(b"-x"), None);
}

#[test]
fn keyword_parsers() {
    assert_eq!(parse_line_breaking(b"clip"), Some((4, LineBreaking::Clip)));
    assert_eq!(parse_line_breaking(b"WORDWRAP"), Some((8, LineBreaking::WordWrap)));
    assert_eq!(parse_line_breaking(b"overflow;"), Some((8, LineBreaking::Overflow)));
    assert_eq!(parse_line_breaking(b"wrap"), None);
    assert_eq!(parse_font_style(b"italic"), Some((6, FontStyle::Italic)));
    assert_eq!(parse_font_style(b"Regular"), Some((7, FontStyle::Regular)));
    assert_eq!(parse_font_style(b"oblique"), None);
    assert_eq!(parse_text_alignment(b"justified"), Some((9, TextAlignment::Justified)));
    assert_eq!(parse_text_alignment(b"center"), Some((6, TextAlignment::Center)));
    assert_eq!(parse_horizontal_alignment(b"end"), Some((3, HorizontalAlignment::End)));
    assert_eq!(parse_horizontal_alignment(b"top"), None);
    assert_eq!(parse_vertical_alignment(b"BOTTOM"), Some((6, VerticalAlignment::Bottom)));
    assert_eq!(parse_vertical_alignment(b"Top"), Some((3, VerticalAlignment::Top)));
}

#[test]
fn style_defaults() {
    assert_eq!(LineBreaking::default(), LineBreaking::WordWrap);
    assert_eq!(VerticalAlignment::default(), VerticalAlignment::Top);
    assert_eq!(HorizontalAlignment::default(), HorizontalAlignment::Start);
    assert_eq!(TextAlignment::default(), TextAlignment::Start);
}

#[test]
fn test_parse_styles() {
    let blank = || String::from("default");
    let parse = |block: &String| Some(block.clone());
    println!(
        "{:?}",
        parse_styles_from_file_content(".counter { font-size: 10.0; }", &blank, &parse)
    );
}

#[test]
fn styles_of_live_blocks() {
    let blank = || String::from("default");
    let parse = |block: &String| {
        if block.starts_with('.') {
            Some(block.clone())
        } else {
            None
        }
    };
    let content = r#"live_s!(ui, ".a { }") live_s!(ui, "  ") live_s!(ui, "bad")"#;
    let styles = parse_styles_from_file_content(content, &blank, &parse);
    assert_eq!(styles, vec![".a { }".to_string(), "default".to_string()]);
    let none = parse_styles_from_file_content(CONTENT, &blank, &parse);
    assert_eq!(none, vec![".b {font-size: 32.0;}".to_string(), ".a { }".to_string()]);
}

#[test]
fn styles_from_given_blocks() {
    let blank = || 0usize;
    let parse = |block: &String| block.trim().parse::<usize>().ok();
    let blocks = vec![" 12 ".to_string(), "\t".to_string(), "x".to_string(), "7".to_string()];
    assert_eq!(styles_from_blocks(&blocks, &blank, &parse), vec![12, 0, 7]);
    assert!(styles_from_blocks(&Vec::new(), &blank, &parse).is_empty());
}

#[test]
fn blocks_from_search_results() {
    assert!(blocks_from_groups(None).is_empty());
    let groups = Some(vec![Some(".a {}".to_string()), None, Some(".b {}".to_string())]);
    assert_eq!(blocks_from_groups(groups), vec![".a {}".to_string(), ".b {}".to_string()]);
}

#[test]
fn rust_sources_by_extension() {
    assert_eq!(rust_source_extension(b"main.rs"), Some(true));
    assert_eq!(rust_source_extension(b"lib.tar.rs"), Some(true));
    assert_eq!(rust_source_extension(b".hidden.rs"), Some(true));
    assert_eq!(rust_source_extension(b"notes.txt"), Some(false));
    assert_eq!(rust_source_extension(b"main.rsx"), Some(false));
    assert_eq!(rust_source_extension(b"trailing."), Some(false));
    assert_eq!(rust_source_extension(b"Makefile"), None);
    assert_eq!(rust_source_extension(b".rs"), None);
    assert_eq!(rust_source_extension(b""), None);
}

#[test]
fn hex_colors_parse() {
    let fixtures: [(&str, &str); 3] = [("#fff", "fff"), ("#af1", "af1"), ("#223123", "223123")];
    for (input, hex) in fixtures {
        let expected = piet::Color::from_hex_str(hex).unwrap().as_rgba_u32();
        assert_eq!(parse_hex_color(input.as_bytes()), Some((input.len(), Color(expected))), "input: {}", input);
    }
    assert_eq!(parse_hex_color(b"#BAD;"), Some((4, Color(0xBBAADDFF))));
    assert_eq!(parse_hex_color(b"#11223344 x"), Some((9, Color(0x11223344))));
    assert_eq!(parse_hex_color(b"#12345"), None);
    assert_eq!(parse_hex_color(b"#"), None);
    assert_eq!(parse_hex_color(b"#xyz"), None);
    assert_eq!(parse_hex_color(b"rgb(10, 20, 15)"), None);
}

#[test]
fn test_parse_color() {
    let fixtures = [
        ("#fff", piet::Color::from_hex_str("fff").unwrap()),
        ("#af1", piet::Color::from_hex_str("af1").unwrap()),
        ("#223123", piet::Color::from_hex_str("223123").unwrap()),
    ];
    for (input, expected) in fixtures {
        let ret = parse_hex_color(input.as_bytes());
        assert!(
            matches!(ret, Some((_, v)) if v == Color(expected.as_rgba_u32())),
            "input: {}, result: {:?}",
            input,
            ret
        );
    }
}
