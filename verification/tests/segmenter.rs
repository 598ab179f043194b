use terminal_dialog::markup::{
    apply_property, attribute_markup, low_byte, name_is, resolve_properties, Attribute, Line,
    Markup, MarkupValue, Property,
};
use terminal_dialog::order::position_order;
use terminal_dialog::style::{StyleSpec, StyledSegment};
use terminal_dialog::util::{attribute_range, line_spans, style_line, substring, StyledSpan};

fn property(name: &str, value: MarkupValue) -> Property {
    Property { name: name.to_string(), value }
}

fn attribute(name: &str, position: usize, length: usize, properties: Vec<Property>) -> Attribute {
    Attribute { name: name.to_string(), position, length, properties }
}

fn line(text: &str, attributes: Vec<Attribute>) -> Line {
    Line { text: text.to_string(), attributes }
}

fn plain(text: &str) -> StyledSegment {
    StyledSegment { text: text.to_string(), style: StyleSpec::new() }
}

fn joined(segments: &[StyledSegment]) -> String {
    let mut text = String::new();
    for segment in segments {
        text.push_str(&segment.text);
    }
    text
}

#[test]
fn plain_style_has_nothing_set() {
    let style = StyleSpec::new();
    assert!(!style.bold);
    assert!(!style.italic);
    assert!(!style.underline);
    assert_eq!(style.fg, None);
    assert_eq!(style.bg, None);
    assert_eq!(StyleSpec::default(), style);
}

#[test]
fn line_without_attributes_is_one_plain_segment() {
    let segments = style_line(&line("Great, thanks", vec![]));
    assert_eq!(segments, vec![plain("Great, thanks")]);
}

#[test]
fn empty_line_without_attributes_is_one_empty_segment() {
    let segments = style_line(&line("", vec![]));
    assert_eq!(segments, vec![plain("")]);
}

#[test]
fn style_attribute_is_applied_to_its_text() {
    let marked = line(
        "This is urgent now",
        vec![attribute(
            "style",
            8,
            6,
            vec![
                property("bold", MarkupValue::Bool(true)),
                property("color", MarkupValue::Integer(2)),
            ],
        )],
    );
    let segments = style_line(&marked);
    assert_eq!(segments.len(), 3);
    assert_eq!(segments[0], plain("This is "));
    assert_eq!(segments[1].text, "urgent");
    assert!(segments[1].style.bold);
    assert!(!segments[1].style.italic);
    assert!(!segments[1].style.underline);
    assert_eq!(segments[1].style.fg, Some(2));
    assert_eq!(segments[1].style.bg, None);
    assert_eq!(segments[2], plain(" now"));
}

#[test]
fn character_name_is_left_out() {
    let marked = line(
        "Alice: Hi",
        vec![attribute(
            "character",
            0,
            7,
            vec![property("name", MarkupValue::Text("Alice".to_string()))],
        )],
    );
    let segments = style_line(&marked);
    assert_eq!(segments, vec![plain("Hi")]);
}

#[test]
fn character_name_in_the_middle_is_left_out() {
    let marked = line("Hi Alice: there", vec![attribute("character", 3, 7, vec![])]);
    let segments = style_line(&marked);
    assert_eq!(segments, vec![plain("Hi "), plain("there")]);
    assert_eq!(joined(&segments), "Hi there");
}

#[test]
fn line_that_is_all_character_name_has_no_segment() {
    let marked = line("Alice: ", vec![attribute("character", 0, 7, vec![])]);
    assert_eq!(style_line(&marked), vec![]);
}

#[test]
fn segments_join_to_the_text() {
    let marked = line(
        "one two three four",
        vec![
            attribute("style", 4, 3, vec![property("italic", MarkupValue::Bool(true))]),
            attribute("wave", 8, 5, vec![]),
        ],
    );
    let segments = style_line(&marked);
    assert_eq!(segments.len(), 5);
    assert_eq!(joined(&segments), "one two three four");
    assert_eq!(segments[0], plain("one "));
    assert_eq!(segments[1].text, "two");
    assert!(segments[1].style.italic);
    assert_eq!(segments[2], plain(" "));
    assert_eq!(segments[3], plain("three"));
    assert_eq!(segments[4], plain(" four"));
}

#[test]
fn attributes_are_read_by_position() {
    let first = attribute("style", 0, 2, vec![property("bold", MarkupValue::Bool(true))]);
    let second = attribute("style", 3, 2, vec![property("italic", MarkupValue::Bool(true))]);
    let in_order = style_line(&line("ab cd ef", vec![first.clone(), second.clone()]));
    let reversed = style_line(&line("ab cd ef", vec![second, first]));
    assert_eq!(in_order, reversed);
    assert_eq!(in_order.len(), 4);
    assert_eq!(in_order[0].text, "ab");
    assert!(in_order[0].style.bold);
    assert_eq!(in_order[1], plain(" "));
    assert_eq!(in_order[2].text, "cd");
    assert!(in_order[2].style.italic);
    assert_eq!(in_order[3], plain(" ef"));
}

#[test]
fn sorting_does_not_change_the_line() {
    let marked = line(
        "ab cd",
        vec![attribute("style", 3, 2, vec![]), attribute("style", 0, 2, vec![])],
    );
    let copy = marked.clone();
    let _ = style_line(&marked);
    assert_eq!(marked, copy);
}

#[test]
fn order_is_by_position_and_stable() {
    let attributes = vec![
        attribute("c", 5, 1, vec![]),
        attribute("a", 2, 1, vec![]),
        attribute("d", 5, 2, vec![]),
        attribute("b", 2, 2, vec![]),
        attribute("e", 0, 1, vec![]),
    ];
    assert_eq!(position_order(&attributes), vec![4, 1, 3, 0, 2]);
    assert_eq!(position_order(&vec![]), Vec::<usize>::new());
}

#[test]
fn unknown_attribute_keeps_its_slot_unstyled() {
    let marked = line(
        "a shaky word",
        vec![attribute("shake", 2, 5, vec![property("bold", MarkupValue::Bool(true))])],
    );
    let segments = style_line(&marked);
    assert_eq!(segments, vec![plain("a "), plain("shaky"), plain(" word")]);
}

#[test]
fn attribute_without_text_keeps_its_slot() {
    let marked = line("ab", vec![attribute("style", 1, 0, vec![])]);
    assert_eq!(style_line(&marked), vec![plain("a"), plain(""), plain("b")]);
}

#[test]
fn unknown_properties_and_wrong_kinds_are_ignored() {
    let marked = line(
        "text",
        vec![attribute(
            "style",
            0,
            4,
            vec![
                property("blink", MarkupValue::Bool(true)),
                property("bold", MarkupValue::Integer(1)),
                property("italic", MarkupValue::Bool(false)),
                property("color", MarkupValue::Text("red".to_string())),
                property("bg", MarkupValue::Bool(true)),
                property("zalgo", MarkupValue::Bool(false)),
            ],
        )],
    );
    assert_eq!(style_line(&marked), vec![plain("text")]);
}

#[test]
fn all_style_properties_are_applied() {
    let marked = line(
        "text",
        vec![attribute(
            "style",
            0,
            4,
            vec![
                property("bold", MarkupValue::Bool(true)),
                property("italic", MarkupValue::Bool(true)),
                property("color", MarkupValue::Integer(9)),
                property("bg", MarkupValue::Integer(255)),
            ],
        )],
    );
    let segments = style_line(&marked);
    assert_eq!(segments.len(), 1);
    assert_eq!(
        segments[0].style,
        StyleSpec { bold: true, italic: true, underline: false, fg: Some(9), bg: Some(255) }
    );
}

#[test]
fn palette_index_is_the_low_byte() {
    assert_eq!(low_byte(0), 0);
    assert_eq!(low_byte(255), 255);
    assert_eq!(low_byte(256), 0);
    assert_eq!(low_byte(258), 2);
    assert_eq!(low_byte(u32::MAX), 255);
    let marked = line(
        "x",
        vec![attribute("style", 0, 1, vec![property("color", MarkupValue::Integer(258))])],
    );
    assert_eq!(style_line(&marked)[0].style.fg, Some(2));
}

#[test]
fn later_property_wins() {
    let properties = vec![
        property("color", MarkupValue::Integer(1)),
        property("color", MarkupValue::Integer(7)),
    ];
    let markup = resolve_properties(&properties);
    assert_eq!(markup.style.fg, Some(7));
    assert!(!markup.glitch);
}

#[test]
fn properties_resolve_one_by_one() {
    let start = Markup { style: StyleSpec::new(), glitch: false };
    let bold = apply_property(&property("bold", MarkupValue::Bool(true)), start);
    assert!(bold.style.bold);
    let glitch = apply_property(&property("zalgo", MarkupValue::Bool(true)), bold);
    assert!(glitch.style.bold);
    assert!(glitch.glitch);
    assert_eq!(resolve_properties(&vec![]), start);
}

#[test]
fn only_style_attributes_have_markup() {
    let properties = vec![property("bold", MarkupValue::Bool(true))];
    let styled = attribute_markup(&attribute("style", 0, 1, properties.clone()));
    assert!(styled.style.bold);
    let other = attribute_markup(&attribute("Style", 0, 1, properties));
    assert_eq!(other, Markup { style: StyleSpec::new(), glitch: false });
}

#[test]
fn names_are_compared_exactly() {
    assert!(name_is(&"style".to_string(), "style"));
    assert!(!name_is(&"styles".to_string(), "style"));
    assert!(!name_is(&"".to_string(), "style"));
}

#[test]
fn overlapping_attributes_share_no_text() {
    let marked = line(
        "0123456789",
        vec![
            attribute("style", 0, 6, vec![property("bold", MarkupValue::Bool(true))]),
            attribute("style", 4, 4, vec![property("italic", MarkupValue::Bool(true))]),
        ],
    );
    let segments = style_line(&marked);
    assert_eq!(segments.len(), 3);
    assert_eq!(segments[0].text, "012345");
    assert!(segments[0].style.bold);
    assert_eq!(segments[1].text, "67");
    assert!(segments[1].style.italic);
    assert_eq!(segments[2], plain("89"));
    assert_eq!(joined(&segments), "0123456789");
}

#[test]
fn attribute_past_the_end_is_cut_off() {
    let marked = line(
        "abc",
        vec![
            attribute("style", 2, 10, vec![property("bold", MarkupValue::Bool(true))]),
            attribute("style", 7, usize::MAX, vec![]),
        ],
    );
    let segments = style_line(&marked);
    assert_eq!(segments.len(), 3);
    assert_eq!(segments[0], plain("ab"));
    assert_eq!(segments[1].text, "c");
    assert!(segments[1].style.bold);
    assert_eq!(segments[2], plain(""));
}

#[test]
fn ranges_are_held_within_the_text() {
    let inside = attribute("style", 2, 3, vec![]);
    assert_eq!(attribute_range(&inside, 0, 10), (2, 5));
    assert_eq!(attribute_range(&inside, 4, 10), (4, 5));
    assert_eq!(attribute_range(&inside, 7, 10), (7, 7));
    assert_eq!(attribute_range(&inside, 0, 4), (2, 4));
    assert_eq!(attribute_range(&inside, 0, 1), (1, 1));
    let huge = attribute("style", 3, usize::MAX, vec![]);
    assert_eq!(attribute_range(&huge, 0, 10), (3, 10));
}

#[test]
fn positions_count_characters() {
    let marked = line(
        "héllo wörld",
        vec![attribute("style", 6, 5, vec![property("bold", MarkupValue::Bool(true))])],
    );
    let segments = style_line(&marked);
    assert_eq!(segments.len(), 2);
    assert_eq!(segments[0], plain("héllo "));
    assert_eq!(segments[1].text, "wörld");
    assert_eq!(substring(&"héllo".to_string(), 1, 3), "él");
    assert_eq!(substring(&"héllo".to_string(), 5, 5), "");
}

#[test]
fn spans_keep_the_text_of_a_glitched_attribute() {
    let marked = line(
        "say it",
        vec![attribute(
            "style",
            4,
            2,
            vec![
                property("zalgo", MarkupValue::Bool(true)),
                property("bg", MarkupValue::Integer(3)),
            ],
        )],
    );
    let spans = line_spans(&marked);
    assert_eq!(
        spans,
        vec![
            StyledSpan { text: "say ".to_string(), style: StyleSpec::new(), glitch: false },
            StyledSpan {
                text: "it".to_string(),
                style: StyleSpec { bg: Some(3), ..StyleSpec::new() },
                glitch: true,
            },
        ]
    );
}

#[test]
fn glitched_text_keeps_its_characters_and_style() {
    let text = "the quick brown fox jumps over the lazy dog";
    let marked = line(
        text,
        vec![attribute(
            "style",
            0,
            text.chars().count(),
            vec![
                property("zalgo", MarkupValue::Bool(true)),
                property("color", MarkupValue::Integer(5)),
            ],
        )],
    );
    let segments = style_line(&marked);
    assert_eq!(segments.len(), 1);
    assert_eq!(segments[0].style.fg, Some(5));
    assert_ne!(segments[0].text, text);
    let letters: String =
        segments[0].text.chars().filter(|c| c.is_ascii_alphabetic() || *c == ' ').collect();
    assert_eq!(letters, text);
}

#[test]
fn glitch_leaves_other_segments_alone() {
    let marked = line(
        "calm wild calm",
        vec![attribute("style", 5, 4, vec![property("zalgo", MarkupValue::Bool(true))])],
    );
    let segments = style_line(&marked);
    assert_eq!(segments.len(), 3);
    assert_eq!(segments[0], plain("calm "));
    assert_eq!(segments[1].style, StyleSpec::new());
    assert_eq!(segments[2], plain(" calm"));
}
