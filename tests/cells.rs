use table_cells::body::DefaultTableBodyRenderer;
use table_cells::cell::{CellEvent, DefaultTableCellRenderer, TableCell};
use table_cells::decimal::Decimal;
use table_cells::markup::BodyRef;
use table_cells::options::RenderOptions;
use table_cells::value::CellValue;

fn shown<T: CellValue>(v: &T, options: RenderOptions) -> String {
    v.render_value(&options)
}

#[test]
fn integer_round_trips_through_default_text() {
    for v in [0i64, 7, -42, 1234567890, i64::MAX, i64::MIN] {
        let text = shown(&v, RenderOptions::new());
        assert_eq!(i64::parse_value(&text), Ok(v));
    }
}

#[test]
fn decimal_round_trips_through_default_text() {
    for (m, s) in [(314159i64, 5u32), (-5, 2), (0, 3), (12, 0), (i64::MIN, 4), (7, 30)] {
        let d = Decimal::new(m, s);
        let text = shown(&d, RenderOptions::new());
        assert_eq!(Decimal::parse_value(&text), Ok(d));
    }
}

#[test]
fn string_round_trips_through_default_text() {
    let v = String::from("short text");
    let text = shown(&v, RenderOptions::new());
    assert_eq!(String::parse_value(&text), Ok(v));
}

#[test]
fn integer_text() {
    assert_eq!(shown(&0i64, RenderOptions::new()), "0");
    assert_eq!(shown(&-42i64, RenderOptions::new()), "-42");
    assert_eq!(shown(&i64::MIN, RenderOptions::new()), "-9223372036854775808");
    assert_eq!(shown(&5i64, RenderOptions::with_precision(2)), "5");
}

#[test]
fn integer_parse_accepts_signs_and_leading_zeros() {
    assert_eq!(i64::parse_value("+5"), Ok(5));
    assert_eq!(i64::parse_value("007"), Ok(7));
    assert_eq!(i64::parse_value("-9223372036854775808"), Ok(i64::MIN));
    assert_eq!(i64::parse_value("9223372036854775807"), Ok(i64::MAX));
}

#[test]
fn integer_parse_rejects_malformed_text() {
    for raw in ["", "-", "+", "1.5", "abc", "12a", " 1", "9223372036854775808", "-9223372036854775809"] {
        let e = i64::parse_value(raw).unwrap_err();
        assert_eq!(e.text, raw);
    }
}

#[test]
fn precision_formatting() {
    let pi = Decimal::new(314159, 5);
    assert_eq!(shown(&pi, RenderOptions::with_precision(2)), "3.14");
    assert_eq!(shown(&pi, RenderOptions::new()), "3.14159");
}

#[test]
fn decimal_precision_rounds_half_away_from_zero() {
    assert_eq!(shown(&Decimal::new(125, 2), RenderOptions::with_precision(1)), "1.3");
    assert_eq!(shown(&Decimal::new(-125, 2), RenderOptions::with_precision(1)), "-1.3");
    assert_eq!(shown(&Decimal::new(124, 2), RenderOptions::with_precision(1)), "1.2");
    assert_eq!(shown(&Decimal::new(995, 3), RenderOptions::with_precision(2)), "1.00");
    assert_eq!(shown(&Decimal::new(-4, 3), RenderOptions::with_precision(2)), "0.00");
    assert_eq!(shown(&Decimal::new(15, 1), RenderOptions::with_precision(0)), "2");
    assert_eq!(shown(&Decimal::new(i64::MAX, 40), RenderOptions::with_precision(0)), "0");
}

#[test]
fn decimal_precision_pads_with_zeros() {
    assert_eq!(shown(&Decimal::new(5, 0), RenderOptions::with_precision(2)), "5.00");
    assert_eq!(shown(&Decimal::new(15, 1), RenderOptions::with_precision(3)), "1.500");
    assert_eq!(shown(&Decimal::new(-15, 1), RenderOptions::with_precision(1)), "-1.5");
}

#[test]
fn decimal_default_text() {
    assert_eq!(shown(&Decimal::new(1, 3), RenderOptions::new()), "0.001");
    assert_eq!(shown(&Decimal::new(-5, 2), RenderOptions::new()), "-0.05");
    assert_eq!(shown(&Decimal::new(0, 2), RenderOptions::new()), "0.00");
    assert_eq!(shown(&Decimal::new(-12, 0), RenderOptions::new()), "-12");
}

#[test]
fn decimal_parse() {
    assert_eq!(Decimal::parse_value("3.14159"), Ok(Decimal::new(314159, 5)));
    assert_eq!(Decimal::parse_value("-0.05"), Ok(Decimal::new(-5, 2)));
    assert_eq!(Decimal::parse_value("+12"), Ok(Decimal::new(12, 0)));
    assert_eq!(Decimal::parse_value("1.50"), Ok(Decimal::new(150, 2)));
    for raw in ["", "3.", ".5", "1.2.3", "1,5", "-", "abc", "99999999999999999999"] {
        let e = Decimal::parse_value(raw).unwrap_err();
        assert_eq!(e.text, raw);
    }
}

#[test]
fn edit_commit_flow() {
    let mut cell = DefaultTableCellRenderer(String::from("cell"), 5i64, 0, true, RenderOptions::new());
    assert_eq!(cell.display_text(), "5");
    assert!(cell.handle(CellEvent::Focus).is_none());
    assert!(cell.is_editing());
    let mut calls = Vec::new();
    if let Some(v) = cell.handle(CellEvent::Input(String::from("7"))) {
        calls.push(v);
    }
    assert_eq!(calls, vec![7]);
    assert_eq!(*cell.value(), 5);
    assert!(cell.handle(CellEvent::Replace(7)).is_none());
    assert_eq!(*cell.value(), 7);
    assert_eq!(cell.display_text(), "7");
}

#[test]
fn bad_input_changes_nothing() {
    let mut cell = DefaultTableCellRenderer(String::from("cell"), 5i64, 1, true, RenderOptions::new());
    cell.handle(CellEvent::Focus);
    for raw in ["", "x", "7a", "1.5"] {
        assert!(cell.handle(CellEvent::Input(String::from(raw))).is_none());
        assert_eq!(*cell.value(), 5);
        assert_eq!(cell.display_text(), "5");
    }
}

#[test]
fn read_only_cell_never_commits() {
    let mut cell = DefaultTableCellRenderer(String::from("cell"), 5i64, 2, false, RenderOptions::new());
    let events = vec![
        CellEvent::Input(String::from("7")),
        CellEvent::Focus,
        CellEvent::Input(String::from("8")),
        CellEvent::Replace(9),
        CellEvent::Input(String::from("10")),
        CellEvent::Blur,
        CellEvent::Focus,
        CellEvent::Input(String::from("11")),
    ];
    for e in events {
        assert!(cell.handle(e).is_none());
        assert!(!cell.is_editing());
    }
    assert_eq!(cell.display_text(), "9");
}

#[test]
fn input_outside_edit_is_ignored() {
    let mut cell = DefaultTableCellRenderer(String::from("cell"), 5i64, 0, true, RenderOptions::new());
    assert!(cell.handle(CellEvent::Input(String::from("7"))).is_none());
    cell.handle(CellEvent::Focus);
    cell.handle(CellEvent::Blur);
    assert!(!cell.is_editing());
    assert!(cell.handle(CellEvent::Input(String::from("7"))).is_none());
}

#[test]
fn numeric_cell_shows_precision_and_accepts_full_precision() {
    let mut cell: TableCell<Decimal> = TableCell::new(
        String::from("num"),
        Decimal::new(314159, 5),
        3,
        true,
        RenderOptions::with_precision(2),
    );
    assert_eq!(cell.display_text(), "3.14");
    cell.handle(CellEvent::Focus);
    let committed = cell.handle(CellEvent::Input(String::from("2.71828")));
    assert_eq!(committed, Some(Decimal::new(271828, 5)));
    cell.handle(CellEvent::Replace(Decimal::new(271828, 5)));
    assert_eq!(cell.display_text(), "2.72");
    cell.handle(CellEvent::Reformat(RenderOptions::new()));
    assert_eq!(cell.display_text(), "2.71828");
}

#[test]
fn shown_text_recomputed_only_on_change() {
    let mut cell = TableCell::new(String::from("c"), 5i64, 0, false, RenderOptions::new());
    assert!(!cell.set_value(5));
    assert!(cell.set_value(6));
    assert_eq!(cell.display_text(), "6");
    assert!(!cell.set_options(RenderOptions::new()));
    assert!(cell.set_options(RenderOptions::with_precision(3)));
    assert!(!cell.set_options(RenderOptions::with_precision(3)));
    assert_eq!(cell.display_text(), "6");
}

#[test]
fn cell_element() {
    let mut cell = DefaultTableCellRenderer(String::from("cls"), String::from("hi"), 0, true, RenderOptions::new());
    let e = cell.element();
    assert_eq!(e.tag, "td");
    assert_eq!(e.class, "cls");
    assert_eq!(e.children, "hi");
    assert!(!e.content_editable);
    assert!(e.node_ref.is_none());
    cell.handle(CellEvent::Focus);
    assert!(cell.element().content_editable);
}

#[test]
fn body_has_one_root_with_class_and_ref() {
    let rows = vec![String::from("row 1"), String::from("row 2")];
    let roots = DefaultTableBodyRenderer(rows.clone(), String::from("body"), BodyRef { id: 9 });
    assert_eq!(roots.len(), 1);
    assert_eq!(roots[0].tag, "tbody");
    assert_eq!(roots[0].class, "body");
    assert_eq!(roots[0].node_ref, Some(BodyRef { id: 9 }));
    assert_eq!(roots[0].children, rows);
}

#[test]
fn body_with_empty_content_has_one_root() {
    let roots = DefaultTableBodyRenderer(Vec::<String>::new(), String::new(), BodyRef { id: 0 });
    assert_eq!(roots.len(), 1);
    assert_eq!(roots[0].tag, "tbody");
    assert_eq!(roots[0].class, "");
    assert_eq!(roots[0].node_ref, Some(BodyRef { id: 0 }));
    assert!(roots[0].children.is_empty());
}
