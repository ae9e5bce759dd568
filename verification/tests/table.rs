use zk_tui::doc::{plain, Align, Table};
use zk_tui::look::Look;
use zk_tui::table::rows;
use zk_tui::text::width;

fn render(table: &Table, max: usize) -> Vec<String> {
    rows(table, max, &Look::default())
        .iter()
        .map(|row| row.iter().map(|(text, _)| text.as_str()).collect())
        .collect()
}

fn sample(wrap: bool) -> Table {
    Table {
        header: vec![vec![plain("System")], vec![plain("Prove")]],
        align: vec![Align::Left, Align::Right],
        rows: vec![
            vec![vec![plain("groth16")], vec![plain("88.1 ms")]],
            vec![vec![plain("halo2")], vec![plain("1.24 s")]],
        ],
        wrap,
        optional: vec![0],
    }
}

#[test]
fn columns_are_two_spaces_apart_and_numbers_align_right() {
    assert_eq!(render(&sample(false), 80), ["System     Prove", "groth16  88.1 ms", "halo2     1.24 s"]);
}

#[test]
fn the_header_is_bold() {
    let laid = rows(&sample(false), 80, &Look::default());
    assert!(laid[0][0].1.bold);
    assert!(!laid[1][0].1.bold);
}

#[test]
fn optional_columns_go_first_when_the_table_is_too_wide() {
    assert_eq!(render(&sample(false), 7), ["  Prove", "88.1 ms", " 1.24 s"]);
}

#[test]
fn a_narrow_data_table_cuts_the_widest_column() {
    let table = Table { optional: Vec::new(), ..sample(false) };
    let laid = render(&table, 14);
    assert!(laid.iter().all(|row| width(row) <= 14), "{laid:?}");
    assert!(laid[1].contains('…'));
}

#[test]
fn an_empty_table_has_no_rows_and_prose_wraps() {
    assert!(render(&Table::default(), 40).is_empty());
    let table = Table {
        header: Vec::new(),
        align: Vec::new(),
        rows: vec![vec![vec![plain("a b c d e f g h i j k")], vec![plain("x")]]],
        wrap: true,
        optional: Vec::new(),
    };
    assert_eq!(render(&table, 13), ["a b c d e   x", "f g h i j", "k"]);
}

#[test]
fn a_data_table_takes_one_row_per_row_and_fits_when_it_can() {
    let table = Table { optional: Vec::new(), ..sample(false) };
    for max in [10, 12, 16, 40] {
        let laid = render(&table, max);
        assert_eq!(laid.len(), 3);
        assert!(laid.iter().all(|row| width(row) <= max), "{max}: {laid:?}");
    }
}
