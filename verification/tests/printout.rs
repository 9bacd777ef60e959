use goosy::lyrics::{BackgroundVocal, LyricLine};
use goosy::printout::{line_block_texts, pdf_title, text_colors, BlockText, PdfOptions, Rgb};

fn line(text: &str) -> LyricLine {
    LyricLine {
        start_ms: 0,
        end_ms: 1_000,
        text: text.to_owned(),
        translation: None,
        agent_id: None,
        is_duet: false,
        is_background: false,
        background_vocal: None,
        words: Vec::new(),
    }
}

#[test]
fn default_options_print_everything_in_colour() {
    let options = PdfOptions::default();
    assert_eq!(options.title, None);
    assert!(options.render_translation);
    assert!(options.render_background_vocal);
    assert!(options.excluded_lines.is_empty());
    assert!(!options.speed_printer);
}

#[test]
fn sheet_title_falls_back_for_missing_or_blank_titles() {
    let mut options = PdfOptions::default();
    assert_eq!(pdf_title(&options), "歌词");
    options.title = Some("   ".to_owned());
    assert_eq!(pdf_title(&options), "歌词");
    options.title = Some("  测试歌曲 ".to_owned());
    assert_eq!(pdf_title(&options), "测试歌曲");
}

#[test]
fn speed_printer_prints_in_black() {
    let black = Rgb { red: 0, green: 0, blue: 0 };
    assert_eq!(text_colors(true), (black, black, black));
    assert_eq!(text_colors(false).1, Rgb { red: 105, green: 105, blue: 112 });
}

#[test]
fn blocks_skip_excluded_and_blank_lines() {
    let mut lines = vec![line(" first "), line("   "), line("third"), line("fourth")];
    lines[2].is_duet = true;
    lines[2].translation = Some(" 第三 ".to_owned());
    lines[3].background_vocal = Some(BackgroundVocal {
        start_ms: 0,
        end_ms: 1_000,
        text: " ooh ".to_owned(),
        translation: Some("  ".to_owned()),
        words: Vec::new(),
    });
    let options = PdfOptions {
        excluded_lines: vec![0],
        ..PdfOptions::default()
    };
    let blocks = line_block_texts(&lines, &options);
    assert_eq!(
        blocks,
        vec![
            BlockText {
                main: "third".to_owned(),
                translation: Some("第三".to_owned()),
                background: None,
                background_translation: None,
                right_aligned: true,
            },
            BlockText {
                main: "fourth".to_owned(),
                translation: None,
                background: Some("伴唱 · ooh".to_owned()),
                background_translation: None,
                right_aligned: false,
            },
        ]
    );
    let plain = PdfOptions {
        render_translation: false,
        render_background_vocal: false,
        ..PdfOptions::default()
    };
    let blocks = line_block_texts(&lines, &plain);
    assert_eq!(blocks.len(), 3);
    assert_eq!(blocks[0].main, "first");
    assert_eq!(blocks[1].translation, None);
    assert_eq!(blocks[2].background, None);
}
