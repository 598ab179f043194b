use terminal_dialog::style::{StyleSpec, StyledGrapheme, StyledSegment};
use terminal_dialog::widgets::DialogBoxWidget;

fn segment(text: &str) -> StyledSegment {
    StyledSegment::new(text.to_string(), StyleSpec::new())
}

fn shown(widget: &DialogBoxWidget) -> String {
    widget.visible_prefix().iter().map(|g| g.symbol.as_str()).collect()
}

#[test]
fn new_line_has_nothing_revealed() {
    let widget = DialogBoxWidget::new(Some("Alice".to_string()), vec![segment("Hello")], 25);
    assert_eq!(widget.revealed_count(), 0);
    assert_eq!(widget.character_count(), 5);
    assert!(!widget.typewriter_complete());
    assert_eq!(widget.visible_prefix(), vec![]);
    assert_eq!(widget.character(), &Some("Alice".to_string()));
    assert_eq!(widget.text(), &vec![segment("Hello")]);
}

#[test]
fn empty_line_is_complete() {
    let mut widget = DialogBoxWidget::new(None, vec![], 25);
    assert!(widget.typewriter_complete());
    assert_eq!(widget.character_count(), 0);
    widget.advance(1000);
    assert!(widget.typewriter_complete());
    assert_eq!(widget.revealed_count(), 0);
    let widget = DialogBoxWidget::new(None, vec![segment("")], 25);
    assert!(widget.typewriter_complete());
}

#[test]
fn zero_speed_reveals_at_once() {
    let mut widget = DialogBoxWidget::new(None, vec![segment("Hello")], 0);
    assert!(widget.typewriter_complete());
    assert_eq!(shown(&widget), "Hello");
    widget.advance(0);
    widget.advance(7);
    assert_eq!(shown(&widget), "Hello");
    widget.set_text(vec![segment("Bye")]);
    assert!(widget.typewriter_complete());
    assert_eq!(shown(&widget), "Bye");
}

#[test]
fn one_cluster_per_interval() {
    let mut widget = DialogBoxWidget::new(None, vec![segment("Hello")], 10);
    widget.advance(9);
    assert_eq!(widget.revealed_count(), 0);
    widget.advance(1);
    assert_eq!(widget.revealed_count(), 1);
    assert_eq!(shown(&widget), "H");
    widget.advance(0);
    assert_eq!(widget.revealed_count(), 1);
    widget.advance(10);
    assert_eq!(shown(&widget), "He");
}

#[test]
fn long_step_catches_up() {
    let mut widget = DialogBoxWidget::new(None, vec![segment("Hello, world")], 10);
    widget.advance(35);
    assert_eq!(widget.revealed_count(), 3);
    widget.advance(4);
    assert_eq!(widget.revealed_count(), 3);
    widget.advance(1);
    assert_eq!(widget.revealed_count(), 4);
    assert_eq!(shown(&widget), "Hell");
}

#[test]
fn reveal_never_shrinks_and_stops_at_the_end() {
    let mut widget = DialogBoxWidget::new(None, vec![segment("abcdef")], 7);
    let mut last = 0;
    for delta in [0u64, 3, 20, 1, 0, 6, 100, 5, u64::MAX, 2] {
        widget.advance(delta);
        assert!(widget.revealed_count() >= last);
        assert!(widget.revealed_count() <= widget.character_count());
        last = widget.revealed_count();
    }
    assert!(widget.typewriter_complete());
    assert_eq!(shown(&widget), "abcdef");
}

#[test]
fn reveal_completes_when_the_time_is_up() {
    for steps in [vec![60u64], vec![10, 10, 10, 10, 10, 10], vec![1; 60], vec![59, 1], vec![7; 9]] {
        let mut widget = DialogBoxWidget::new(None, vec![segment("abcdef")], 10);
        let mut sum = 0;
        for delta in steps {
            assert_eq!(widget.typewriter_complete(), sum >= 60);
            widget.advance(delta);
            sum += delta;
        }
        assert!(sum >= 60);
        assert!(widget.typewriter_complete());
    }
}

#[test]
fn reveal_is_not_complete_before_the_time_is_up() {
    let mut widget = DialogBoxWidget::new(None, vec![segment("abcdef")], 10);
    widget.advance(59);
    assert!(!widget.typewriter_complete());
    assert_eq!(widget.revealed_count(), 5);
}

#[test]
fn huge_steps_do_not_overflow() {
    let mut widget = DialogBoxWidget::new(None, vec![segment("abc")], u64::MAX);
    widget.advance(u64::MAX - 1);
    assert_eq!(widget.revealed_count(), 0);
    widget.advance(u64::MAX);
    assert_eq!(widget.revealed_count(), 1);
    widget.advance(2);
    assert_eq!(widget.revealed_count(), 2);
    widget.advance(u64::MAX);
    assert_eq!(widget.revealed_count(), 3);
    widget.advance(u64::MAX);
    assert_eq!(widget.revealed_count(), 3);
}

#[test]
fn skip_reveals_everything() {
    let mut widget = DialogBoxWidget::new(None, vec![segment("Hello")], 10);
    widget.advance(10);
    widget.skip_typewriter();
    assert!(widget.typewriter_complete());
    assert_eq!(widget.revealed_count(), 5);
    assert_eq!(shown(&widget), "Hello");
}

#[test]
fn skip_then_advance_changes_nothing() {
    let mut widget = DialogBoxWidget::new(None, vec![segment("Hello")], 10);
    widget.skip_typewriter();
    let visible = widget.visible_prefix();
    for delta in [0u64, 1, 10, 1000, u64::MAX] {
        widget.advance(delta);
        assert!(widget.typewriter_complete());
        assert_eq!(widget.visible_prefix(), visible);
    }
    widget.skip_typewriter();
    assert_eq!(widget.visible_prefix(), visible);
}

#[test]
fn set_text_restarts_the_reveal() {
    let mut widget = DialogBoxWidget::new(Some("Bob".to_string()), vec![segment("Hello")], 10);
    widget.advance(27);
    assert_eq!(widget.revealed_count(), 2);
    widget.set_text(vec![segment("Good"), segment("bye")]);
    assert_eq!(widget.revealed_count(), 0);
    assert_eq!(widget.character_count(), 7);
    assert!(!widget.typewriter_complete());
    assert_eq!(widget.character(), &Some("Bob".to_string()));
    widget.advance(9);
    assert_eq!(widget.revealed_count(), 0);
    widget.advance(1);
    assert_eq!(shown(&widget), "G");
}

#[test]
fn set_text_after_completion_restarts_too() {
    let mut widget = DialogBoxWidget::new(None, vec![segment("Hi")], 10);
    widget.advance(1000);
    assert!(widget.typewriter_complete());
    widget.set_text(vec![segment("Again")]);
    assert_eq!(widget.revealed_count(), 0);
    widget.advance(10);
    assert_eq!(shown(&widget), "A");
}

#[test]
fn set_character_leaves_the_reveal_alone() {
    let mut widget = DialogBoxWidget::new(None, vec![segment("Hello")], 10);
    widget.advance(20);
    widget.set_character(Some("Carol".to_string()));
    assert_eq!(widget.character(), &Some("Carol".to_string()));
    assert_eq!(widget.revealed_count(), 2);
    assert_eq!(widget.text(), &vec![segment("Hello")]);
    widget.set_character(None);
    assert_eq!(widget.character(), &None);
}

#[test]
fn prefix_is_made_of_whole_clusters_in_their_styles() {
    let bold = StyleSpec { bold: true, ..StyleSpec::new() };
    let text = vec![
        StyledSegment::new("e\u{301}".to_string(), bold),
        StyledSegment::new("\r\nz".to_string(), StyleSpec::new()),
    ];
    let mut widget = DialogBoxWidget::new(None, text, 1);
    assert_eq!(widget.character_count(), 3);
    widget.advance(2);
    assert_eq!(
        widget.visible_prefix(),
        vec![
            StyledGrapheme::new("e\u{301}".to_string(), bold),
            StyledGrapheme::new("\r\n".to_string(), StyleSpec::new()),
        ]
    );
}
