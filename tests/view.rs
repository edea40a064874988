use xi_modal_input::events::{
    BufferEvent, EditNotification, EventDomain, GestureType, Movement, Rect, SelectionGranularity, SpecialEvent,
    ViewEvent,
};
use xi_modal_input::lines::{Measure, Size};
use xi_modal_input::update::{HostCall, Update};
use xi_modal_input::view::{OneView, WHOLE_DOCUMENT_LINE};

struct Mono;

impl Measure for Mono {
    fn measure(&self, text: &[u8]) -> Size {
        Size { width: text.len(), height: 10 }
    }
}

fn buf(e: BufferEvent) -> EventDomain {
    EventDomain::Buffer(e)
}

fn insert(v: &mut OneView<Mono>, s: &str) -> Update {
    v.handle_event(buf(BufferEvent::Insert(s.as_bytes().to_vec())))
}

fn mv(v: &mut OneView<Mono>, m: Movement) -> Update {
    v.handle_event(EventDomain::View(ViewEvent::Move(m)))
}

fn text(v: &OneView<Mono>) -> String {
    String::from_utf8(v.text.clone()).unwrap()
}

fn caret(v: &OneView<Mono>) -> usize {
    assert_eq!(v.selection.regions.len(), 1);
    assert_eq!(v.selection.regions[0].start, v.selection.regions[0].end);
    v.selection.regions[0].end
}

fn with_text(s: &str) -> OneView<Mono> {
    let mut v = OneView::new(Mono);
    v.handle_event(EventDomain::Special(SpecialEvent::ViewportChange(Rect { x: 0, y: 0, width: 1000, height: 100 })));
    insert(&mut v, s);
    v
}

#[test]
fn zero_width_frame_wraps_every_word() {
    let mut v = OneView::new(Mono);
    insert(&mut v, "hello world");
    assert_eq!(v.count_lines(), 2);
    assert_eq!(v.get_line(0).unwrap().line, b"hello ".to_vec());
}

#[test]
fn insert_into_empty_document() {
    let mut v = OneView::new(Mono);
    assert_eq!(v.line_height, 10);
    let u = insert(&mut v, "hello");
    assert_eq!(text(&v), "hello");
    assert_eq!(caret(&v), 5);
    assert!(u.styles.is_some());
    assert_eq!(u.size.unwrap().height, v.line_height);
    assert_eq!(v.undo_stack.stack.len(), 2);
    assert_eq!(u.lines.unwrap().start, 0);
}

#[test]
fn typing_coalesces_into_one_group() {
    let mut v = with_text("hello");
    insert(&mut v, " ");
    insert(&mut v, "world");
    assert_eq!(text(&v), "hello world");
    assert_eq!(caret(&v), 11);
    assert_eq!(v.undo_stack.stack.len(), 2);
    v.handle_event(buf(BufferEvent::Undo));
    assert_eq!(text(&v), "");
}

#[test]
fn insert_delete_insert_make_three_groups() {
    let mut v = with_text("abcdef");
    for _ in 0..3 {
        mv(&mut v, Movement::Left);
    }
    assert_eq!(caret(&v), 3);
    insert(&mut v, "X");
    v.handle_event(buf(BufferEvent::Backspace));
    insert(&mut v, "Y");
    assert_eq!(text(&v), "abcYdef");
    v.handle_event(buf(BufferEvent::Undo));
    assert_eq!(text(&v), "abcdef");
    v.handle_event(buf(BufferEvent::Undo));
    assert_eq!(text(&v), "abcXdef");
    v.handle_event(buf(BufferEvent::Undo));
    assert_eq!(text(&v), "abcdef");
    v.handle_event(buf(BufferEvent::Redo));
    assert_eq!(text(&v), "abcXdef");
}

#[test]
fn newline_after_brace_indents() {
    let mut v = with_text("if (x) {");
    v.handle_event(buf(BufferEvent::InsertNewline));
    assert_eq!(text(&v), "if (x) {\n    ");
    assert_eq!(caret(&v), 13);
}

#[test]
fn closing_brace_outdents() {
    let mut v = with_text("if (x) {");
    v.handle_event(buf(BufferEvent::InsertNewline));
    insert(&mut v, "}");
    assert_eq!(text(&v), "if (x) {\n}");
}

#[test]
fn toggle_comment_twice_is_identity() {
    let mut v = with_text("    foo\n    bar");
    v.handle_event(EventDomain::View(ViewEvent::SelectAll));
    v.handle_event(buf(BufferEvent::ToggleComment));
    assert_eq!(text(&v), "    // foo\n    // bar");
    v.handle_event(buf(BufferEvent::ToggleComment));
    assert_eq!(text(&v), "    foo\n    bar");
}

#[test]
fn viewport_change_rewraps() {
    let mut v = with_text("one two three four");
    v.handle_event(EventDomain::View(ViewEvent::Move(Movement::StartOfDocument)));
    let u = v.handle_event(EventDomain::Special(SpecialEvent::ViewportChange(Rect { x: 0, y: 0, width: 8, height: 100 })));
    assert_eq!(v.count_lines(), 3);
    assert_eq!(v.breaks.max_width(), 8);
    assert_eq!(u.size.unwrap().height, 30);
    assert_eq!(u.lines.unwrap().end, 3);
}

#[test]
fn backspaces_undo_an_insert() {
    let mut v = with_text("xy");
    let s = "héllo";
    insert(&mut v, s);
    for _ in 0..s.chars().count() {
        v.handle_event(buf(BufferEvent::Backspace));
    }
    assert_eq!(text(&v), "xy");
    assert_eq!(caret(&v), 2);
}

#[test]
fn backspace_goes_to_tab_stop() {
    let mut v = with_text("        a");
    mv(&mut v, Movement::Left);
    v.handle_event(buf(BufferEvent::Backspace));
    assert_eq!(text(&v), "    a");
}

#[test]
fn undo_right_after_an_edit_restores() {
    let mut v = with_text("abc");
    mv(&mut v, Movement::Left);
    let before_text = text(&v);
    let before_caret = caret(&v);
    v.handle_event(buf(BufferEvent::Backspace));
    assert_eq!(text(&v), "ac");
    v.handle_event(buf(BufferEvent::Undo));
    assert_eq!(text(&v), before_text);
    assert_eq!(caret(&v), before_caret);
}

#[test]
fn empty_trailing_line() {
    let mut v = with_text("ab\n");
    let n = v.count_lines();
    assert_eq!(n, 2);
    let line = v.get_line(n).unwrap();
    assert!(line.line.is_empty());
    // the caret sits at the end of the document
    assert_eq!(line.caret, Some(0));
    assert!(v.get_line(n + 1).is_none());
    mv(&mut v, Movement::StartOfDocument);
    let line = v.get_line(n).unwrap();
    assert!(line.line.is_empty());
    assert_eq!(line.caret, None);
    let first = v.get_line(0).unwrap();
    assert_eq!(first.line, b"ab\n".to_vec());
    assert_eq!(first.caret, Some(0));
}

#[test]
fn caret_at_document_end_shows_on_its_line() {
    let v = with_text("ab");
    let line = v.get_line(0).unwrap();
    assert_eq!(line.caret, Some(2));
    let whole = v.get_line(WHOLE_DOCUMENT_LINE).unwrap();
    assert_eq!(whole.line, b"ab\n".to_vec());
    assert_eq!(whole.caret, None);
}

#[test]
fn line_snapshot_has_styles() {
    let v = with_text("fn main() {}");
    let line = v.get_line(0).unwrap();
    assert!(!line.styles.is_empty());
    assert_eq!(line.styles.len() % 3, 0);
    let ids = v.highlighter.table.styles.len();
    for t in line.styles.chunks(3) {
        assert!(t[2] < ids);
    }
}

#[test]
fn selection_on_line() {
    let mut v = with_text("hello world");
    v.handle_event(EventDomain::View(ViewEvent::SelectAll));
    let line = v.get_line(0).unwrap();
    assert_eq!(line.selection, (0, 11));
}

#[test]
fn copy_and_cut() {
    let mut v = with_text("hello");
    let u = v.handle_event(EventDomain::View(ViewEvent::Copy));
    assert!(u.pasteboard.is_none());
    v.handle_event(EventDomain::View(ViewEvent::SelectAll));
    let u = v.handle_event(EventDomain::View(ViewEvent::Copy));
    assert_eq!(u.pasteboard.unwrap(), b"hello".to_vec());
    let u = v.handle_event(buf(BufferEvent::Cut));
    assert_eq!(u.pasteboard.unwrap(), b"hello".to_vec());
    assert_eq!(text(&v), "");
    let u = v.handle_event(buf(BufferEvent::Cut));
    assert!(u.pasteboard.is_none());
    assert!(u.lines.is_none());
}

#[test]
fn word_movement_and_gesture() {
    let mut v = with_text("alpha beta gamma");
    mv(&mut v, Movement::LeftWord);
    assert_eq!(caret(&v), 11);
    mv(&mut v, Movement::LeftWord);
    assert_eq!(caret(&v), 6);
    mv(&mut v, Movement::RightWord);
    assert_eq!(caret(&v), 10);
    v.handle_event(EventDomain::View(ViewEvent::Gesture {
        line: 0,
        col: 2,
        ty: GestureType::Select { granularity: SelectionGranularity::Word, multi: false },
    }));
    assert_eq!(v.selection.regions[0].start, 0);
    assert_eq!(v.selection.regions[0].end, 5);
}

#[test]
fn grapheme_movement() {
    let mut v = with_text("aé");
    mv(&mut v, Movement::Left);
    assert_eq!(caret(&v), 1);
    mv(&mut v, Movement::Right);
    assert_eq!(caret(&v), 3);
}

#[test]
fn line_movements() {
    let mut v = with_text("abc\ndefgh\nij");
    mv(&mut v, Movement::Up);
    assert_eq!(caret(&v), 6);
    mv(&mut v, Movement::LeftOfLine);
    assert_eq!(caret(&v), 4);
    mv(&mut v, Movement::RightOfLine);
    assert_eq!(caret(&v), 9);
    mv(&mut v, Movement::StartOfDocument);
    assert_eq!(caret(&v), 0);
    mv(&mut v, Movement::EndOfParagraph);
    assert_eq!(caret(&v), 3);
    mv(&mut v, Movement::EndOfDocument);
    assert_eq!(caret(&v), 12);
}

#[test]
fn multi_select_and_toggle_off() {
    let mut v = with_text("abcdef");
    let click = |v: &mut OneView<Mono>, col: u64| {
        v.handle_event(EventDomain::View(ViewEvent::Gesture {
            line: 0,
            col,
            ty: GestureType::Select { granularity: SelectionGranularity::Point, multi: true },
        }));
    };
    click(&mut v, 1);
    assert_eq!(v.selection.regions.len(), 2);
    click(&mut v, 1);
    assert_eq!(v.selection.regions.len(), 1);
    insert(&mut v, "Z");
    assert_eq!(text(&v), "abcdefZ");
}

#[test]
fn indent_and_outdent() {
    let mut v = with_text("a\nb");
    v.handle_event(EventDomain::View(ViewEvent::SelectAll));
    v.handle_event(buf(BufferEvent::Indent));
    assert_eq!(text(&v), "    a\n    b");
    v.handle_event(buf(BufferEvent::Outdent));
    assert_eq!(text(&v), "a\nb");
}

#[test]
fn tab_inserts_spaces_to_the_stop() {
    let mut v = with_text("ab");
    v.handle_event(buf(BufferEvent::InsertTab));
    assert_eq!(text(&v), "ab  ");
}

#[test]
fn delete_forward_by_movement() {
    let mut v = with_text("abc");
    mv(&mut v, Movement::StartOfDocument);
    v.handle_event(buf(BufferEvent::Delete { movement: Movement::Right }));
    assert_eq!(text(&v), "bc");
}

#[test]
fn styles_reach_the_host_before_lines() {
    let mut v = OneView::new(Mono);
    let u = insert(&mut v, "fn main() {}");
    let calls = u.host_calls();
    let styles_at = calls.iter().position(|c| matches!(c, HostCall::NewStyles(_))).unwrap();
    let inval_at = calls.iter().position(|c| matches!(c, HostCall::Invalidate(_))).unwrap();
    assert!(styles_at < inval_at);
    assert_eq!(v.highlighter.table.sent, v.highlighter.table.styles.len());
}

#[test]
fn requests_run_on_the_view() {
    let mut v = OneView::new(Mono);
    let n = EditNotification::Insert { chars: b"hi".to_vec() };
    v.handle_event(n.into_domain());
    v.handle_event(EditNotification::MoveToBeginningOfDocument.into_domain());
    assert_eq!(caret(&v), 0);
    let u = v.do_core_event(&EditNotification::MoveRight.into_domain(), 2);
    assert!(u.is_some());
    assert_eq!(caret(&v), 2);
}

#[test]
fn fresh_view_has_one_line_of_size() {
    let v = OneView::new(Mono);
    assert_eq!(v.content_size, Size { width: 0, height: 10 });
    assert_eq!(v.undo_stack.max_undo_count, 40);
    assert_eq!(v.undo_stack.stack.len(), 1);
}

#[test]
fn repeated_moves_merge_their_updates() {
    let mut v = with_text("abcdef");
    let u = v.do_core_event(&EventDomain::View(ViewEvent::Move(Movement::Left)), 3).unwrap();
    assert_eq!(caret(&v), 3);
    assert!(u.lines.is_some());
    assert!(u.scroll.is_some());
}

#[test]
fn older_gesture_forms_select() {
    let mut v = with_text("alpha beta");
    v.handle_event(EventDomain::View(ViewEvent::Gesture { line: 0, col: 7, ty: GestureType::Word }));
    assert_eq!((v.selection.regions[0].start, v.selection.regions[0].end), (6, 10));
    v.handle_event(EventDomain::View(ViewEvent::Gesture { line: 0, col: 2, ty: GestureType::Point }));
    assert_eq!(caret(&v), 2);
    v.handle_event(EventDomain::View(ViewEvent::Gesture { line: 0, col: 2, ty: GestureType::Line }));
    assert_eq!((v.selection.regions[0].start, v.selection.regions[0].end), (0, 10));
}

#[test]
fn toggle_comment_looks_at_every_line() {
    let mut v = with_text("// a\nb");
    v.handle_event(EventDomain::View(ViewEvent::SelectAll));
    v.handle_event(buf(BufferEvent::ToggleComment));
    assert_eq!(text(&v), "// a\n// b");
    v.handle_event(buf(BufferEvent::ToggleComment));
    assert_eq!(text(&v), "a\nb");
}

#[test]
fn empty_insert_changes_nothing() {
    let mut v = with_text("abc");
    insert(&mut v, "");
    assert_eq!(text(&v), "abc");
    assert_eq!(caret(&v), 3);
}

#[test]
fn undo_after_auto_indent_restores() {
    let mut v = with_text("if (x) {");
    v.handle_event(buf(BufferEvent::InsertNewline));
    assert_eq!(text(&v), "if (x) {\n    ");
    v.handle_event(buf(BufferEvent::Undo));
    assert_eq!(text(&v), "if (x) {");
    assert_eq!(caret(&v), 8);
    v.handle_event(buf(BufferEvent::Redo));
    assert_eq!(text(&v), "if (x) {\n    ");
}
