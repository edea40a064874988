use xi_modal_input::lines::{build_breaks, rewrap, wrap_breaks, BreakRec, Breaks, Measure, Size};

struct ByteWidth;

impl Measure for ByteWidth {
    fn measure(&self, text: &[u8]) -> Size {
        Size { width: text.len(), height: 0 }
    }
}

fn text(s: &str) -> Vec<u8> {
    s.as_bytes().to_vec()
}

fn line_of(breaks: &Breaks, text: &[u8], n: usize) -> String {
    let off = breaks.offset_of_line(n);
    let offn = breaks.offset_of_line(n + 1);
    String::from_utf8(text[off..offn].to_vec()).unwrap()
}

#[test]
fn my_understanding() {
    let t = text("hell");
    let breaks = rewrap(&t, &ByteWidth, None);
    assert_eq!(breaks.line_of_offset(4), 0);

    let t = text("hell\n");
    let breaks = Breaks { recs: vec![BreakRec { len: 5, width: 0, is_break: true }] };
    assert_eq!(breaks.line_of_offset(4), 0);
    assert_eq!(breaks.line_of_offset(5), 1);
    let wrapped = rewrap(&t, &ByteWidth, None);
    assert_eq!(wrapped.line_of_offset(4), 0);
    assert_eq!(wrapped.line_of_offset(5), 1);
}

#[test]
fn offset_stuff() {
    let t = text("hello\nworld");
    let breaks = rewrap(&t, &ByteWidth, None);
    assert_eq!(breaks.line_of_offset(0), 0);
    assert_eq!(breaks.line_of_offset(5), 0);
    assert_eq!(breaks.line_of_offset(6), 1);
    assert_eq!(breaks.line_of_offset(t.len()), 1);
    assert_eq!(breaks.offset_of_line(1), 6);
}

#[test]
fn soft_breaks_simple() {
    let t = text("#eight# one two thirteenth three and");
    let breaks = rewrap(&t, &ByteWidth, Some(8));
    assert_eq!(line_of(&breaks, &t, 0), "#eight# ");
    assert_eq!(line_of(&breaks, &t, 1), "one two ");
    assert_eq!(line_of(&breaks, &t, 2), "thirteenth ");
    assert_eq!(line_of(&breaks, &t, 3), "three ");
    assert_eq!(line_of(&breaks, &t, 4), "and");
}

#[test]
fn hard_after_soft() {
    let t = text("eight is \n");
    let breaks = rewrap(&t, &ByteWidth, Some(8));
    assert_eq!(line_of(&breaks, &t, 0), "eight ");
    assert_eq!(line_of(&breaks, &t, 1), "is \n");
    assert_eq!(line_of(&breaks, &t, 2), "");
    assert_eq!(breaks.offset_of_line(0), 0);
    assert_eq!(breaks.offset_of_line(1), 6);
    assert_eq!(breaks.offset_of_line(2), 10);
    assert_eq!(breaks.count_breaks(), 2);
}

#[test]
fn weird_length_issue() {
    let t = text("aaaaaaaabbbbbbbbcccccccdddddddd");
    let breaks = rewrap(&t, &ByteWidth, Some(20));
    assert_eq!(breaks.max_width(), t.len());
}

#[test]
fn breaks_cover_the_text() {
    for s in ["", "a", "one two three four", "x\n\ny\n", "a very long line that wraps a lot"] {
        let t = text(s);
        for w in [None, Some(1), Some(5), Some(8)] {
            let breaks = rewrap(&t, &ByteWidth, w);
            let total: usize = breaks.recs.iter().map(|r| r.len).sum();
            assert_eq!(total, t.len());
        }
    }
}

#[test]
fn long_word_gets_its_own_line() {
    // one word wider than the view: it ends its own line
    let cands = vec![(3usize, false), (15, false), (18, false)];
    let widths = vec![3usize, 12, 3];
    let events = wrap_breaks(&cands, &widths, Some(8));
    let breaks = build_breaks(&events, 18);
    assert_eq!(breaks.offset_of_line(1), 3);
    assert_eq!(breaks.offset_of_line(2), 15);
    assert_eq!(breaks.count_breaks(), 2);
    assert_eq!(breaks.max_width(), 12);
}

#[test]
fn hard_break_after_overflow_splits_first() {
    let cands = vec![(6usize, false), (10, true)];
    let widths = vec![6usize, 4];
    let events = wrap_breaks(&cands, &widths, Some(8));
    assert_eq!(events.len(), 3);
    assert_eq!((events[0].offset, events[0].width, events[0].hard), (6, 6, false));
    assert_eq!((events[1].offset, events[1].width, events[1].hard), (10, 4, true));
    assert_eq!((events[2].offset, events[2].width, events[2].hard), (10, 0, false));
}

#[test]
fn soft_wrap_scenario_one_two_three_four() {
    let t = text("one two three four");
    let breaks = rewrap(&t, &ByteWidth, Some(8));
    assert_eq!(line_of(&breaks, &t, 0), "one two ");
    assert_eq!(line_of(&breaks, &t, 1), "three ");
    assert_eq!(line_of(&breaks, &t, 2), "four");
    assert_eq!(breaks.count_breaks() + 1, 3);
    assert_eq!(breaks.max_width(), 8);
}
