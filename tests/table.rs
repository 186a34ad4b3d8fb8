use rowstore::codec::Row;
use rowstore::constants::{PAGE_SIZE, ROWS_PER_PAGE, ROW_SIZE, TABLE_MAX_PAGES, TABLE_MAX_ROWS};
use rowstore::execute::{execute_insert, execute_select, execute_statement, ExecuteError};
use rowstore::pager::{Cursor, PageError, Pager, Table};
use rowstore::tokenizer::Statement;

fn insert(table: &mut Table, id: u32, name: &str, mail: &str) -> Result<(), ExecuteError> {
    let line = format!("insert {id} {name} {mail}");
    let statement = Statement::prepare_statement(&line).unwrap();
    execute_insert(&statement, table)
}

fn text(bytes: &[u8]) -> String {
    let end = bytes.iter().position(|b| *b == 0).unwrap_or(bytes.len());
    String::from_utf8_lossy(&bytes[..end]).into_owned()
}

fn show(row: &Row) -> String {
    format!("({} {} {})", row.id, text(&row.username), text(&row.email))
}

#[test]
fn layout_constants() {
    assert_eq!(ROW_SIZE, 291);
    assert_eq!(ROWS_PER_PAGE, 14);
    assert_eq!(ROWS_PER_PAGE, PAGE_SIZE / ROW_SIZE);
    assert_eq!(TABLE_MAX_ROWS, ROWS_PER_PAGE * TABLE_MAX_PAGES);
}

#[test]
fn row_count_ignores_trailing_partial_row() {
    assert_eq!(Table::new(Vec::new()).num_rows, 0);
    assert_eq!(Table::new(vec![7u8; 290]).num_rows, 0);
    assert_eq!(Table::new(vec![7u8; 300]).num_rows, 1);
    assert_eq!(Table::new(vec![7u8; 4096]).num_rows, 14);
}

#[test]
fn row_slot_addresses_page_and_offset() {
    let image: Vec<u8> = (0..3 * PAGE_SIZE).map(|k| (k % 251) as u8).collect();
    let mut table = Table::new(image.clone());
    for i in [0usize, 1, 13, 14, 15, 27, 30] {
        let slot = table.row_slot(i).unwrap();
        let start = (i / 14) * 4096 + (i % 14) * 291;
        assert_eq!(slot.len(), 291);
        assert_eq!(slot.to_vec(), image[start..start + 291].to_vec(), "row {i}");
    }
}

#[test]
fn row_slot_past_file_reads_zeros() {
    let mut table = Table::new(vec![5u8; 100]);
    let slot = table.row_slot(0).unwrap();
    assert!(slot[..100].iter().all(|b| *b == 5));
    assert!(slot[100..].iter().all(|b| *b == 0));
    let slot = table.row_slot(40).unwrap();
    assert!(slot.iter().all(|b| *b == 0));
}

#[test]
fn row_slot_beyond_last_page_fails() {
    let mut table = Table::new(Vec::new());
    assert!(table.row_slot(TABLE_MAX_ROWS - 1).is_ok());
    assert_eq!(table.row_slot(TABLE_MAX_ROWS).unwrap_err(), PageError::FetchOutOfBounds(TABLE_MAX_PAGES));
    assert_eq!(
        table.row_slot(TABLE_MAX_ROWS + 14).unwrap_err(),
        PageError::FetchOutOfBounds(TABLE_MAX_PAGES + 1)
    );
}

#[test]
fn row_slot_writes_stay_in_the_page() {
    let mut table = Table::new(Vec::new());
    let bytes = vec![9u8; ROW_SIZE];
    table.row_slot(15).unwrap().copy_from_slice(&bytes);
    assert_eq!(table.row_slot(15).unwrap().to_vec(), bytes);
    assert!(table.row_slot(14).unwrap().iter().all(|b| *b == 0));
    assert!(table.row_slot(16).unwrap().iter().all(|b| *b == 0));
}

#[test]
fn cursor_walks_rows_in_order() {
    let mut image = vec![0u8; 3 * ROW_SIZE];
    image[2 * ROW_SIZE] = 42;
    let mut table = Table::new(image);
    let mut c = Cursor::from_start(&mut table);
    assert_eq!(c.row_num, 0);
    assert!(!c.end_of_table);
    c.advance();
    assert!(!c.end_of_table);
    c.advance();
    assert!(!c.end_of_table);
    let third = c.value().unwrap();
    assert_eq!(third.len(), ROW_SIZE);
    assert_eq!(third[0], 42);
    c.advance();
    assert!(c.end_of_table);
    assert_eq!(c.row_num, 3);

    let end = Cursor::from_end(&mut table);
    assert_eq!(end.row_num, 3);
    assert!(end.end_of_table);

    let mut empty = Table::new(Vec::new());
    assert!(Cursor::from_start(&mut empty).end_of_table);
}

#[test]
fn cursor_from_end_addresses_next_row() {
    let mut table = Table::new(vec![1u8; 14 * ROW_SIZE]);
    let mut c = Cursor::from_end(&mut table);
    assert_eq!(c.row_num, 14);
    let next = c.value().unwrap();
    assert!(next.iter().all(|b| *b == 0));
}

#[test]
fn insert_then_select() {
    let mut table = Table::new(Vec::new());
    insert(&mut table, 1, "alice", "alice@x.com").unwrap();
    insert(&mut table, 2, "bob", "bob@x.com").unwrap();
    assert_eq!(table.row_count(), 2);
    let rows = execute_select(&mut table).unwrap();
    let shown: Vec<String> = rows.iter().map(show).collect();
    assert_eq!(shown, vec!["(1 alice alice@x.com)", "(2 bob bob@x.com)"]);
}

#[test]
fn table_fills_to_capacity_then_reports_full() {
    let mut table = Table::new(Vec::new());
    for i in 0..TABLE_MAX_ROWS {
        insert(&mut table, i as u32, "u", "e").unwrap();
    }
    assert_eq!(table.num_rows, TABLE_MAX_ROWS);
    assert_eq!(insert(&mut table, 9999, "u", "e"), Err(ExecuteError::TableFull));
    assert_eq!(table.num_rows, TABLE_MAX_ROWS);
    let rows = execute_select(&mut table).unwrap();
    assert_eq!(rows.len(), TABLE_MAX_ROWS);
    assert_eq!(rows[TABLE_MAX_ROWS - 1].id, (TABLE_MAX_ROWS - 1) as u32);
}

#[test]
fn select_on_oversized_file_fails() {
    let mut table = Table::new(vec![0u8; (TABLE_MAX_ROWS + 1) * ROW_SIZE + 22 * TABLE_MAX_PAGES]);
    assert!(table.num_rows > TABLE_MAX_ROWS);
    assert_eq!(execute_select(&mut table).unwrap_err(), PageError::FetchOutOfBounds(TABLE_MAX_PAGES));
}

#[test]
fn teardown_of_empty_table_writes_nothing() {
    let table = Table::new(Vec::new());
    assert!(table.close().is_empty());
}

#[test]
fn partial_page_flush_writes_only_real_rows() {
    for n in [1usize, 13, 14, 20, 29, 195] {
        let mut table = Table::new(Vec::new());
        for i in 0..n {
            insert(&mut table, i as u32, "name", "mail@x").unwrap();
        }
        let image = table.close();
        assert_eq!(image.len(), (n / 14) * 4096 + (n % 14) * 291, "{n} rows");
    }
}

#[test]
fn rows_survive_teardown_and_reopen() {
    let mut table = Table::new(Vec::new());
    for i in 0..30u32 {
        insert(&mut table, i * 3, &format!("user{i}"), &format!("u{i}@x.com")).unwrap();
    }
    let before: Vec<String> = execute_select(&mut table).unwrap().iter().map(show).collect();
    let image = table.close();
    let mut reopened = Table::new(image);
    assert_eq!(reopened.num_rows, 30);
    let after: Vec<String> = execute_select(&mut reopened).unwrap().iter().map(show).collect();
    assert_eq!(before, after);
    assert_eq!(after[29], "(87 user29 u29@x.com)");
}

#[test]
fn reopen_and_append_keeps_old_rows() {
    let mut table = Table::new(Vec::new());
    for i in 0..10u32 {
        insert(&mut table, i, "a", "b").unwrap();
    }
    let mut table = Table::new(table.close());
    for i in 10..20u32 {
        insert(&mut table, i, "c", "d").unwrap();
    }
    let mut table = Table::new(table.close());
    let ids: Vec<u32> = execute_select(&mut table).unwrap().iter().map(|r| r.id).collect();
    assert_eq!(ids, (0..20).collect::<Vec<u32>>());
}

#[test]
fn reopen_after_196_rows_counts_page_slack_as_a_row() {
    let mut table = Table::new(Vec::new());
    for i in 0..196u32 {
        insert(&mut table, i, "a", "b").unwrap();
    }
    let image = table.close();
    assert_eq!(image.len(), 14 * 4096);
    assert_eq!(Table::new(image).num_rows, 197);
}

#[test]
fn untouched_pages_are_not_rewritten() {
    let mut image = vec![0u8; 2 * PAGE_SIZE];
    let first = Row::deserialize(&image[..ROW_SIZE]);
    assert_eq!(first.id, 0);
    image[PAGE_SIZE] = 0xAA;
    let mut table = Table::new(image.clone());
    assert_eq!(table.num_rows, 28);
    table.row_slot(0).unwrap().copy_from_slice(&[1u8; ROW_SIZE]);
    let out = table.close();
    assert_eq!(out.len(), 2 * PAGE_SIZE);
    assert!(out[..ROW_SIZE].iter().all(|b| *b == 1));
    assert_eq!(out[PAGE_SIZE], 0xAA);
}

#[test]
fn end_to_end_scenario() {
    let mut table = Table::new(Vec::new());
    let mut shown = Vec::new();
    for line in ["insert 1 alice alice@x.com", "insert 2 bob bob@x.com", "select"] {
        let statement = Statement::prepare_statement(line).unwrap();
        let rows = execute_statement(&statement, &mut table).unwrap();
        shown.extend(rows.iter().map(show));
    }
    assert_eq!(shown, vec!["(1 alice alice@x.com)", "(2 bob bob@x.com)"]);
    let image = table.close();
    let mut reopened = Table::new(image);
    let statement = Statement::prepare_statement("select").unwrap();
    let again: Vec<String> = execute_statement(&statement, &mut reopened).unwrap().iter().map(show).collect();
    assert_eq!(again, shown);
}

#[test]
fn get_page_hands_out_the_same_buffer() {
    let mut pager = Pager::new(vec![3u8; 10]);
    {
        let page = pager.get_page(0).unwrap();
        assert_eq!(page.len(), PAGE_SIZE);
        assert_eq!(&page[..10], &[3u8; 10]);
        assert_eq!(page[10], 0);
        page[10] = 77;
    }
    assert_eq!(pager.get_page(0).unwrap()[10], 77);
    assert_eq!(pager.get_page(TABLE_MAX_PAGES).unwrap_err(), PageError::FetchOutOfBounds(TABLE_MAX_PAGES));
}

#[test]
fn flush_writes_requested_bytes_only() {
    let mut pager = Pager::new(vec![5u8; 10]);
    pager.get_page(1).unwrap()[0] = 9;
    pager.flush(1, 0);
    pager.flush(2, 10);
    let unchanged = pager.into_file();
    assert_eq!(unchanged, vec![5u8; 10]);

    let mut pager = Pager::new(vec![5u8; 10]);
    pager.get_page(1).unwrap()[0] = 9;
    pager.flush(1, 3);
    let file = pager.into_file();
    assert_eq!(file.len(), PAGE_SIZE + 3);
    assert_eq!(&file[..10], &[5u8; 10]);
    assert!(file[10..PAGE_SIZE].iter().all(|b| *b == 0));
    assert_eq!(&file[PAGE_SIZE..], &[9, 0, 0]);
}

#[test]
fn prepared_statements_carry_a_row_only_for_insert() {
    let s = Statement::prepare_statement("select 1 2 3").unwrap();
    assert!(s.row.is_none());
    let s = Statement::prepare_statement("insert 1 a b").unwrap();
    assert!(s.row.is_some());
}
