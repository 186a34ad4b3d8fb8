use vstd::prelude::*;

use crate::codec::Row;
use crate::constants::{ROW_SIZE, TABLE_MAX_PAGES, TABLE_MAX_ROWS};
use crate::pager::{lemma_with_row, page_of, rows_extent, Cursor, PageError, Table, TableView};
use crate::tokenizer::{Statement, StatementType};

verus! {

/// Why a statement could not be carried out.
#[derive(Debug, PartialEq, Eq, Structural)]
pub enum ExecuteError {
    /// The table already holds `TABLE_MAX_ROWS` rows.
    TableFull,
    /// A row lies past the last page the table may use.
    Page(PageError),
}

/// From `old` to `new` the row count went up by one, the row at the old count now holds
/// `bytes`, every other row reads as before, and the file is untouched.
pub open spec fn appended(old: TableView, new: TableView, bytes: Seq<u8>) -> bool {
    let n = old.num_rows as int;
    &&& new.num_rows == old.num_rows + 1
    &&& new.file == old.file
    &&& new.row_view(n) == bytes
    &&& forall|j: int| 0 <= j && j != n && page_of(j) < TABLE_MAX_PAGES
        ==> #[trigger] new.row_view(j) == old.row_view(j)
    &&& old.keeps_resident(new)
    &&& new.pages[page_of(n)] is Some
}

/// `rows` are the first `rows.len()` rows of `t`, decoded.
pub open spec fn decodes_rows(t: TableView, rows: Seq<Row>) -> bool {
    forall|i: int| 0 <= i < rows.len() ==> Row::decodes_to(t.row_view(i), #[trigger] rows[i])
}

/// One more row never makes the rows take fewer bytes.
proof fn lemma_extent_grows(n: nat)
    ensures
        rows_extent(n) <= rows_extent(n + 1),
{
    let q = n / 14;
    let r = n % 14;
    assert(rows_extent(n) == q * 4096 + r * 291);
    if r == 13 {
        assert((n + 1) / 14 == q + 1 && (n + 1) % 14 == 0);
        assert(q * 4096 + 13 * 291 <= (q + 1) * 4096) by (nonlinear_arith);
    } else {
        assert((n + 1) / 14 == q && (n + 1) % 14 == r + 1);
        assert(r * 291 <= (r + 1) * 291) by (nonlinear_arith);
    }
}

/// Appends the statement's record at the end of the table, unless the table is full.
pub fn execute_insert(statement: &Statement, table: &mut Table) -> (r: Result<(), ExecuteError>)
    requires
        old(table).inv(),
    ensures
        final(table).inv(),
        old(table)@.num_rows >= TABLE_MAX_ROWS ==> r == Err::<(), ExecuteError>(ExecuteError::TableFull)
            && final(table)@ == old(table)@,
        old(table)@.num_rows < TABLE_MAX_ROWS ==> r is Ok && match statement.row {
            Some(row) => appended(old(table)@, final(table)@, row.bytes()),
            None => final(table)@ == old(table)@,
        },
        old(table)@.appended_only() ==> final(table)@.appended_only(),
{
    let ghost v0 = table@;
    proof {
        table.lemma_wf();
    }
    if table.row_count() >= TABLE_MAX_ROWS {
        return Err(ExecuteError::TableFull);
    }
    match &statement.row {
        Some(row) => {
            let bytes = row.serialize();
            let row_num = table.row_count();
            assert(page_of(row_num as int) < TABLE_MAX_PAGES);
            match table.row_slot(row_num) {
                Ok(slot) => {
                    let mut k: usize = 0;
                    while k < ROW_SIZE
                        invariant
                            k <= ROW_SIZE,
                            slot@.len() == ROW_SIZE,
                            bytes@.len() == ROW_SIZE,
                            forall|j: int| 0 <= j < k ==> #[trigger] slot@[j] == bytes@[j],
                        decreases ROW_SIZE - k,
                    {
                        slot[k] = bytes[k];
                        k = k + 1;
                    }
                    assert(slot@ =~= bytes@);
                },
                Err(_) => {},
            }
            let ghost v_written = table@;
            proof {
                lemma_with_row(v0, v0.num_rows as int, row.bytes());
            }
            table.count_row();
            proof {
                let v1 = table@;
                assert forall|j: int| 0 <= j && j != v0.num_rows && page_of(j) < TABLE_MAX_PAGES
                    implies #[trigger] v1.row_view(j) == v0.row_view(j) by {
                    assert(v1.row_view(j) == v_written.row_view(j));
                }
                assert(v1.row_view(v0.num_rows as int) == row.bytes());
                if v0.appended_only() {
                    lemma_extent_grows(v0.num_rows);
                    assert forall|i: int| 0 <= i < v1.num_rows implies 0 <= page_of(i) < TABLE_MAX_PAGES
                        && #[trigger] v1.pages[page_of(i)] is Some by {
                        if i < v0.num_rows {
                            assert(v0.pages[page_of(i)] is Some);
                        }
                    }
                }
            }
            Ok(())
        },
        None => Ok(()),
    }
}

/// Every row of the table, decoded, in row order.
pub fn execute_select(table: &mut Table) -> (r: Result<Vec<Row>, PageError>)
    requires
        old(table).inv(),
    ensures
        final(table).inv(),
        final(table)@.same_content(old(table)@),
        old(table)@.keeps_resident(final(table)@),
        old(table)@.num_rows <= TABLE_MAX_ROWS ==> r is Ok && r->Ok_0@.len() == old(table)@.num_rows
            && decodes_rows(old(table)@, r->Ok_0@),
        old(table)@.num_rows > TABLE_MAX_ROWS ==> r == Err::<Vec<Row>, PageError>(
            PageError::FetchOutOfBounds(TABLE_MAX_PAGES),
        ),
{
    let ghost v0 = table@;
    let mut rows: Vec<Row> = Vec::new();
    let mut cursor = Cursor::from_start(table);
    while !cursor.end_of_table
        invariant
            cursor.table.inv(),
            cursor.table@.same_content(v0),
            v0.keeps_resident(cursor.table@),
            *final(cursor.table) == after_borrow(*table),
            cursor.row_num == rows@.len(),
            cursor.row_num <= TABLE_MAX_ROWS,
            cursor.row_num <= v0.num_rows,
            cursor.end_of_table == (cursor.row_num >= v0.num_rows),
            v0 == old(table)@,
            decodes_rows(v0, rows@),
        decreases v0.num_rows - cursor.row_num,
    {
        let ghost before = cursor.table@;
        proof {
            cursor.table.lemma_wf();
        }
        let row = match cursor.value() {
            Ok(slot) => Row::deserialize(&*slot),
            Err(e) => {
                assert(cursor.row_num == TABLE_MAX_ROWS);
                return Err(e);
            },
        };
        proof {
            lemma_with_row(before, cursor.row_num as int, before.row_view(cursor.row_num as int));
        }
        assert(before.row_view(cursor.row_num as int) == v0.row_view(cursor.row_num as int));
        rows.push(row);
        cursor.advance();
    }
    Ok(rows)
}

/// Carries out a statement: an insert returns no rows, a select every row.
pub fn execute_statement(statement: &Statement, table: &mut Table) -> (r: Result<Vec<Row>, ExecuteError>)
    requires
        old(table).inv(),
    ensures
        final(table).inv(),
        statement.stype == StatementType::Insert ==> {
            &&& old(table)@.num_rows >= TABLE_MAX_ROWS ==> r == Err::<Vec<Row>, ExecuteError>(ExecuteError::TableFull)
                && final(table)@ == old(table)@
            &&& old(table)@.num_rows < TABLE_MAX_ROWS ==> r is Ok && r->Ok_0@.len() == 0 && match statement.row {
                Some(row) => appended(old(table)@, final(table)@, row.bytes()),
                None => final(table)@ == old(table)@,
            }
        },
        statement.stype == StatementType::Select ==> {
            &&& final(table)@.same_content(old(table)@)
            &&& old(table)@.num_rows <= TABLE_MAX_ROWS ==> r is Ok && r->Ok_0@.len() == old(table)@.num_rows
                && decodes_rows(old(table)@, r->Ok_0@)
            &&& old(table)@.num_rows > TABLE_MAX_ROWS ==> r == Err::<Vec<Row>, ExecuteError>(
                ExecuteError::Page(PageError::FetchOutOfBounds(TABLE_MAX_PAGES)),
            )
        },
{
    match statement.stype {
        StatementType::Insert => match execute_insert(statement, table) {
            Ok(()) => Ok(Vec::new()),
            Err(e) => Err(e),
        },
        StatementType::Select => match execute_select(table) {
            Ok(rows) => Ok(rows),
            Err(e) => Err(ExecuteError::Page(e)),
        },
    }
}

} // verus!
