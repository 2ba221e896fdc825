use radium::dom::build_tree;
use radium::images::{ImageData, ImageStore};
use radium::layout::{layout, LayoutBox, PaintCmd};
use radium::parser::tokenize;

// 800 logical units, in tenths.
const VW: i64 = 8000;
// Content width: the viewport minus 16 units of padding on each side.
const CW: i64 = 7680;

fn boxes_of(doc: &str) -> Vec<LayoutBox> {
    let forest = build_tree(tokenize(doc));
    layout(&forest, VW, &ImageStore::new())
}

fn text_cmds(boxes: &[LayoutBox]) -> Vec<(String, i64, bool, bool, u32, bool)> {
    let mut out = Vec::new();
    for b in boxes {
        if let PaintCmd::Text { content, font_size, bold, italic, color, underline } = &b.cmd {
            out.push((content.clone(), *font_size, *bold, *italic, *color, *underline));
        }
    }
    out
}

#[test]
fn bare_text_box_geometry() {
    let boxes = boxes_of("Hello");
    assert_eq!(boxes.len(), 1);
    let b = &boxes[0];
    assert_eq!((b.x, b.y, b.width, b.height), (160, 160, CW, 224));
    match &b.cmd {
        PaintCmd::Text { content, font_size, bold, italic, color, underline } => {
            assert_eq!(content, "Hello");
            assert_eq!(*font_size, 160);
            assert!(!*bold && !*italic && !*underline);
            assert_eq!(*color, 0x000000);
        }
        other => panic!("expected text, got {:?}", other),
    }
}

#[test]
fn heading_sizes_and_margins() {
    let boxes = boxes_of("<h1>T</h1>");
    assert_eq!(boxes.len(), 1);
    let b = &boxes[0];
    // Top margin of 24 units below the page padding.
    assert_eq!(b.y, 160 + 240);
    assert_eq!(b.height, 448);
    match &b.cmd {
        PaintCmd::Text { font_size, bold, .. } => {
            assert_eq!(*font_size, 320);
            assert!(*bold);
        }
        other => panic!("expected text, got {:?}", other),
    }

    let boxes2 = boxes_of("<h2>T</h2>");
    assert_eq!(boxes2[0].y, 160 + 200);
    let boxes3 = boxes_of("<h3>T</h3>");
    assert_eq!(boxes3[0].y, 160 + 160);
}

#[test]
fn paragraph_bottom_margin() {
    let boxes = boxes_of("<p>a</p><p>b</p>");
    assert_eq!(boxes.len(), 2);
    assert_eq!(boxes[0].y, 160);
    // One line (224) plus the 16-unit bottom margin.
    assert_eq!(boxes[1].y, 160 + 224 + 160);
}

#[test]
fn ordered_list_numbering() {
    let boxes = boxes_of("<ol><li>x</li><li>y</li></ol>");
    let texts = text_cmds(&boxes);
    assert_eq!(texts.len(), 4);
    assert_eq!(texts[0].0, "1.");
    assert_eq!(texts[1].0, "x");
    assert_eq!(texts[2].0, "2.");
    assert_eq!(texts[3].0, "y");
    // Markers are muted and sit in the gutter left of the content.
    assert_eq!(texts[0].4, 0x555555);
    assert_eq!(boxes[0].x, 160);
    assert_eq!(boxes[1].x, 160 + 240);
    assert_eq!(boxes[0].y, 240);
    assert_eq!(boxes[2].y, 504);
}

#[test]
fn nested_unordered_lists_use_tiered_bullets() {
    let boxes = boxes_of("<ul><li>a<ul><li>b</li></ul></li></ul>");
    let texts = text_cmds(&boxes);
    let markers: Vec<&String> = texts
        .iter()
        .filter(|t| t.4 == 0x555555)
        .map(|t| &t.0)
        .collect();
    assert_eq!(markers.len(), 2);
    assert_eq!(markers[0], "\u{2022}");
    assert_eq!(markers[1], "\u{25e6}");
    assert_ne!(markers[0], markers[1]);
}

#[test]
fn triple_nesting_reaches_third_bullet_tier() {
    let boxes = boxes_of("<ul><li><ul><li><ul><li>deep</li></ul></li></ul></li></ul>");
    let texts = text_cmds(&boxes);
    let markers: Vec<&String> = texts
        .iter()
        .filter(|t| t.4 == 0x555555)
        .map(|t| &t.0)
        .collect();
    assert_eq!(markers, vec!["\u{2022}", "\u{25e6}", "\u{25aa}"]);
}

#[test]
fn non_li_list_children_are_ignored() {
    let boxes = boxes_of("<ul>stray<li>x</li><p>also stray</p></ul>");
    let texts = text_cmds(&boxes);
    assert_eq!(texts.len(), 2);
    assert_eq!(texts[0].0, "\u{2022}");
    assert_eq!(texts[1].0, "x");
}

#[test]
fn horizontal_rule_geometry() {
    let boxes = boxes_of("<hr>");
    assert_eq!(boxes.len(), 1);
    let b = &boxes[0];
    assert_eq!((b.x, b.y, b.width, b.height), (160, 240, CW, 10));
    assert!(matches!(b.cmd, PaintCmd::HLine { color: 0xAAAAAA }));
}

#[test]
fn line_break_advances_one_line() {
    let boxes = boxes_of("a<br>b");
    assert_eq!(boxes[0].y, 160);
    assert_eq!(boxes[1].y, 160 + 224 + 224);
}

#[test]
fn inline_style_overrides() {
    let texts = text_cmds(&boxes_of("<strong>x</strong><em>y</em><a>z</a>"));
    assert!(texts[0].2 && !texts[0].3);
    assert!(!texts[1].2 && texts[1].3);
    assert_eq!(texts[2].4, 0x0000EE);
    assert!(texts[2].5);
}

#[test]
fn head_title_script_contribute_nothing() {
    let boxes = boxes_of("<head><title>t</title><script>s</script></head>x");
    assert_eq!(boxes.len(), 1);
    assert_eq!(boxes[0].y, 160);
    let texts = text_cmds(&boxes);
    assert_eq!(texts[0].0, "x");
}

#[test]
fn unknown_tags_are_transparent() {
    let plain = boxes_of("x");
    let wrapped = boxes_of("<widget>x</widget>");
    assert_eq!(plain, wrapped);
}

#[test]
fn empty_text_after_trim_is_a_no_op() {
    let forest = build_tree(vec![radium::parser::Token::Text("   ".to_string())]);
    let boxes = layout(&forest, VW, &ImageStore::new());
    assert!(boxes.is_empty());
}

#[test]
fn image_is_never_upscaled() {
    let mut store = ImageStore::new();
    store.insert("pic".to_string(), ImageData::new(10, 5, vec![7u8; 200]));
    let forest = build_tree(tokenize("<img src=pic>"));
    let boxes = layout(&forest, VW, &store);
    assert_eq!(boxes.len(), 1);
    let b = &boxes[0];
    // Intrinsic 10x5 pixels, displayed at intrinsic size (tenths).
    assert_eq!((b.x, b.y, b.width, b.height), (160, 160, 100, 50));
    match &b.cmd {
        PaintCmd::Image { data, img_width, img_height } => {
            assert_eq!((*img_width, *img_height), (10, 5));
            assert_eq!(data.len(), 200);
        }
        other => panic!("expected an image, got {:?}", other),
    }
}

#[test]
fn wide_image_is_scaled_down_proportionally() {
    let mut store = ImageStore::new();
    store.insert(
        "wide".to_string(),
        ImageData::new(1000, 500, vec![0u8; 4 * 1000 * 500]),
    );
    let forest = build_tree(tokenize("<img src=wide>x"));
    let boxes = layout(&forest, VW, &store);
    let b = &boxes[0];
    assert_eq!(b.width, CW);
    assert_eq!(b.height, 500 * CW / 1000);
    // The cursor advances by the displayed height plus the 8-unit gap.
    assert_eq!(boxes[1].y, 160 + b.height + 80);
}

#[test]
fn image_without_src_or_data_is_skipped() {
    let no_src = boxes_of("<img>x");
    assert_eq!(no_src.len(), 1);
    assert_eq!(no_src[0].y, 160);
    let missing = boxes_of("<img src=nowhere>x");
    assert_eq!(missing.len(), 1);
    assert_eq!(missing[0].y, 160);
}

#[test]
fn layout_is_a_pure_function_of_its_inputs() {
    let mut store = ImageStore::new();
    store.insert("pic".to_string(), ImageData::new(4, 4, vec![1u8; 64]));
    let forest = build_tree(tokenize(
        "<h1>T</h1><p>a</p><ul><li>x</li><li>y</li></ul><img src=pic><hr>",
    ));
    let first = layout(&forest, VW, &store);
    let second = layout(&forest, VW, &store);
    assert_eq!(first, second);
}

#[test]
fn cursor_is_monotone_over_a_mixed_document() {
    let mut store = ImageStore::new();
    store.insert("pic".to_string(), ImageData::new(40, 30, vec![2u8; 4800]));
    let forest = build_tree(tokenize(
        "<h1>Title</h1><p>one</p><ul><li>a<ul><li>b</li></ul></li><li>c</li></ul>\
         <img src=pic><hr><p>two<br>three</p>",
    ));
    let boxes = layout(&forest, VW, &store);
    assert!(boxes.len() >= 8);
    for pair in boxes.windows(2) {
        assert!(pair[0].y <= pair[1].y);
    }
    for b in &boxes {
        assert!(b.y >= 160);
    }
}
