use print::style::{background_color, resolve_color, Color, LineCache, Style, StyleSpan, StyledLine, TextRun, Theme};
use std::collections::HashMap;

const RED: Color = Color { r: 255, g: 0, b: 0, a: 255 };
const BLUE: Color = Color { r: 0, g: 0, b: 255, a: 255 };
const GREY: Color = Color { r: 128, g: 128, b: 128, a: 255 };
const BLACK: Color = Color { r: 0, g: 0, b: 0, a: 255 };

fn span(offset: i64, length: u64, style_id: u64) -> StyleSpan {
    StyleSpan { offset, length, style_id }
}

#[test]
fn two_spans_cover_eight_units_in_order() {
    let line = StyledLine { text: "abcdefghij".to_string(), styles: vec![span(0, 5, 1), span(0, 3, 2)] };
    let mut reg = HashMap::new();
    reg.insert(1, Style { fg_color: Some(RED), bg_color: None });
    reg.insert(2, Style { fg_color: Some(BLUE), bg_color: None });
    let theme = Theme { background: None, foreground: None };
    let mut runs = line.decode(&reg, &theme);
    assert_eq!(runs.len(), 2);
    runs.reverse();
    assert_eq!(runs[0], TextRun { start: 0, end: 5, color: RED });
    assert_eq!(runs[1], TextRun { start: 5, end: 8, color: BLUE });
    let total: i64 = runs.iter().map(|r| r.end - r.start).sum();
    assert_eq!(total, 8);
}

#[test]
fn empty_styles_give_one_run_over_the_line() {
    let line = StyledLine { text: "héllo".to_string(), styles: vec![] };
    let theme = Theme { background: None, foreground: Some(GREY) };
    let runs = line.decode(&HashMap::new(), &theme);
    assert_eq!(runs, vec![TextRun { start: 0, end: 5, color: GREY }]);
    let runs = line.decode(&HashMap::new(), &Theme { background: None, foreground: None });
    assert_eq!(runs, vec![TextRun { start: 0, end: 5, color: BLACK }]);
}

#[test]
fn unregistered_and_background_only_styles_fall_back() {
    let mut reg = HashMap::new();
    reg.insert(7, Style { fg_color: None, bg_color: Some(RED) });
    let theme = Theme { background: Some(BLUE), foreground: Some(GREY) };
    assert_eq!(resolve_color(&reg, &theme, 7), GREY);
    assert_eq!(resolve_color(&reg, &theme, 9), GREY);
    reg.insert(9, Style { fg_color: Some(RED), bg_color: None });
    assert_eq!(resolve_color(&reg, &theme, 9), RED);
    assert_eq!(resolve_color(&reg, &Theme { background: None, foreground: None }, 7), BLACK);
}

#[test]
fn gaps_and_negative_offsets() {
    // a gap of 2 before the second run, then a run that starts 4 units back
    let line = StyledLine {
        text: "0123456789abcdef".to_string(),
        styles: vec![span(1, 3, 0), span(2, 4, 0), span(-4, 2, 0)],
    };
    let runs = line.decode(&HashMap::new(), &Theme { background: None, foreground: Some(GREY) });
    // total end = (1+3) + (2+4) + (-4+2) = 8
    assert_eq!(
        runs,
        vec![
            TextRun { start: 6, end: 8, color: GREY },
            TextRun { start: 2, end: 6, color: GREY },
            TextRun { start: -1, end: 2, color: GREY },
        ]
    );
}

#[test]
fn line_cache_height_counts_slots() {
    let cache = LineCache {
        lines: vec![None, Some(StyledLine { text: "x".to_string(), styles: vec![] }), None],
    };
    assert_eq!(cache.height(), 3);
    assert_eq!(LineCache { lines: vec![] }.height(), 0);
}

#[test]
fn decode_lines_keeps_empty_slots() {
    let cache = LineCache {
        lines: vec![
            Some(StyledLine { text: "abc".to_string(), styles: vec![span(0, 2, 1)] }),
            None,
            Some(StyledLine { text: "xy".to_string(), styles: vec![] }),
        ],
    };
    let mut reg = HashMap::new();
    reg.insert(1, Style { fg_color: Some(RED), bg_color: None });
    let theme = Theme { background: None, foreground: Some(GREY) };
    let out = cache.decode_lines(&reg, &theme);
    assert_eq!(out.len(), 3);
    assert_eq!(out[0], Some(vec![TextRun { start: 0, end: 2, color: RED }]));
    assert_eq!(out[1], None);
    assert_eq!(out[2], Some(vec![TextRun { start: 0, end: 2, color: GREY }]));
}

#[test]
fn background_falls_back_to_white() {
    let white = Color { r: 255, g: 255, b: 255, a: 255 };
    assert_eq!(background_color(&Theme { background: None, foreground: Some(RED) }), white);
    assert_eq!(background_color(&Theme { background: Some(BLUE), foreground: None }), BLUE);
}
