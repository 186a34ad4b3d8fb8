use vstd::prelude::*;

verus! {

/// Width of the serialized id.
pub const ID_SIZE: usize = 4;

/// Widest username, in bytes.
pub const COLUMN_USERNAME_SIZE: usize = 32;

/// Widest email, in bytes.
pub const COLUMN_EMAIL_SIZE: usize = 255;

/// Width of the username field of a row.
pub const USERNAME_SIZE: usize = COLUMN_USERNAME_SIZE;

/// Width of the email field of a row.
pub const EMAIL_SIZE: usize = COLUMN_EMAIL_SIZE;

pub const ID_OFFSET: usize = 0;

pub const USERNAME_OFFSET: usize = ID_OFFSET + ID_SIZE;

pub const EMAIL_OFFSET: usize = USERNAME_OFFSET + USERNAME_SIZE;

/// Serialized size of one row.
pub const ROW_SIZE: usize = ID_SIZE + USERNAME_SIZE + EMAIL_SIZE;

/// Size of one page, the unit of file I/O.
pub const PAGE_SIZE: usize = 4096;

/// Hard ceiling on the number of pages a table may use.
pub const TABLE_MAX_PAGES: usize = 100;

/// Whole rows that fit in one page (`PAGE_SIZE / ROW_SIZE`); a row never spans two pages.
pub const ROWS_PER_PAGE: usize = 14;

/// Hard ceiling on the number of rows of a table (`ROWS_PER_PAGE * TABLE_MAX_PAGES`).
pub const TABLE_MAX_ROWS: usize = 1400;

/// The layout constants agree with the sizes they are derived from.
pub proof fn lemma_layout()
    ensures
        ROW_SIZE == 291,
        ROWS_PER_PAGE == PAGE_SIZE / ROW_SIZE,
        ROWS_PER_PAGE * ROW_SIZE <= PAGE_SIZE,
        TABLE_MAX_ROWS == ROWS_PER_PAGE * TABLE_MAX_PAGES,
{
}

} // verus!
