use xi_modal_input::highlight::{rgba, style_of, RawStyle, StyleTable};
use xi_modal_input::update::Style;

#[test]
fn colours_pack_as_argb() {
    assert_eq!(rgba((0x12, 0x34, 0x56, 0x78)), 0x7812_3456);
    let s = style_of(&RawStyle { fg: (1, 2, 3, 4), bg: (5, 6, 7, 8), font_bits: 5 });
    assert_eq!(s.foreground, 0x0401_0203);
    assert_eq!(s.background, 0x0805_0607);
    assert!(s.bold && s.italic && !s.underline);
}

#[test]
fn style_ids_are_stable() {
    let mut t = StyleTable::new();
    let a = Style { foreground: 1, background: 2, italic: false, bold: false, underline: false };
    let b = Style { foreground: 3, background: 2, italic: false, bold: true, underline: false };
    assert_eq!(t.id_for_style(a), Some(0));
    assert_eq!(t.id_for_style(b), Some(1));
    assert_eq!(t.id_for_style(a), Some(0));
    let fresh = t.take_new_styles().unwrap();
    assert_eq!(fresh.len(), 2);
    assert_eq!(fresh[1].0, 1);
    assert!(t.take_new_styles().is_none());
}
