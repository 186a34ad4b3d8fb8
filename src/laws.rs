use vstd::prelude::*;

use crate::codec::{le_bytes, le_value, Row};
use crate::constants::{PAGE_SIZE, ROWS_PER_PAGE, ROW_SIZE, TABLE_MAX_PAGES};
use crate::pager::{
    closed_image, file_page, flush_full_pages, flushed, full_pages, opened, page_of, rows_extent,
    slot_offset, TableView,
};

verus! {

broadcast use vstd::array::group_array_axioms;

/// Four little-endian bytes give back the number they were made from.
proof fn lemma_le_value(v: u32)
    ensures
        le_value(le_bytes(v)) == v,
{
    let q1 = v / 256;
    let q2 = v / 65536;
    assert(q1 == 256 * (q1 / 256) + q1 % 256);
    assert(q1 / 256 == q2);
    assert(q2 == 256 * (q2 / 256) + q2 % 256);
    assert(q2 / 256 == v / 16777216);
    assert(v == 256 * q1 + v % 256);
}

/// Decoding the bytes that a row serializes to gives back that very row.
pub proof fn lemma_round_trip(r: Row, s: Row)
    requires
        Row::decodes_to(r.bytes(), s),
    ensures
        s == r,
{
    let b = r.bytes();
    assert(b.subrange(0, 4) =~= le_bytes(r.id));
    lemma_le_value(r.id);
    assert(b.subrange(4, 36) =~= r.username@);
    assert(b.subrange(36, 291) =~= r.email@);
    assert(s.username =~= r.username);
    assert(s.email =~= r.email);
}

/// Writing a page leaves every other page of the file as it read.
proof fn lemma_flush_other_page(f: Seq<u8>, page: Seq<u8>, p: int, size: int, q: int)
    requires
        0 <= p,
        0 <= q,
        p != q,
        0 < size <= PAGE_SIZE,
        page.len() == PAGE_SIZE,
    ensures
        file_page(flushed(f, page, p, size), q) == file_page(f, q),
{
    let g = flushed(f, page, p, size);
    assert forall|k: int| 0 <= k < PAGE_SIZE implies #[trigger] file_page(g, q)[k] == file_page(f, q)[k] by {
        let x = q * 4096 + k;
        assert(x < p * 4096 || x >= p * 4096 + 4096) by (nonlinear_arith)
            requires
                x == q * 4096 + k,
                0 <= k < 4096,
                p != q,
        {
            if q < p {
                assert(q * 4096 + 4096 <= p * 4096);
            } else {
                assert(p * 4096 + 4096 <= q * 4096);
            }
        }
    }
    assert(file_page(g, q) =~= file_page(f, q));
}

/// Writing the first `size` bytes of a page makes them what the file reads there.
proof fn lemma_flush_same_page(f: Seq<u8>, page: Seq<u8>, p: int, size: int, k: int)
    requires
        0 <= p,
        0 < size <= PAGE_SIZE,
        page.len() == PAGE_SIZE,
        0 <= k < size,
    ensures
        file_page(flushed(f, page, p, size), p)[k] == page[k],
{
}

/// After the full-page pass up to `n`, each resident page below `n` reads as its buffer,
/// and every page at or above `n` reads as it did.
proof fn lemma_full_pages_content(v: TableView, n: nat, q: int)
    requires
        v.wf(),
        n <= TABLE_MAX_PAGES,
        0 <= q < TABLE_MAX_PAGES,
    ensures
        q < n && v.pages[q] is Some ==> file_page(flush_full_pages(v, n), q) == v.pages[q]->0,
        q >= n ==> file_page(flush_full_pages(v, n), q) == file_page(v.file, q),
    decreases n,
{
    if n > 0 {
        let m = (n - 1) as nat;
        lemma_full_pages_content(v, m, q);
        let f = flush_full_pages(v, m);
        match v.pages[m as int] {
            Some(b) => {
                if q != m {
                    lemma_flush_other_page(f, b, m as int, PAGE_SIZE as int, q);
                } else {
                    assert forall|k: int| 0 <= k < PAGE_SIZE implies #[trigger] file_page(
                        flushed(f, b, m as int, PAGE_SIZE as int),
                        q,
                    )[k] == b[k] by {
                        lemma_flush_same_page(f, b, m as int, PAGE_SIZE as int, k);
                    }
                    assert(file_page(flushed(f, b, m as int, PAGE_SIZE as int), q) =~= b);
                }
            },
            None => {},
        }
    }
}

/// With every page below `n` resident, the full-page pass leaves the file as long as the
/// longer of the old file and `n` pages.
proof fn lemma_full_pages_length(v: TableView, n: nat)
    requires
        v.wf(),
        n <= TABLE_MAX_PAGES,
        forall|p: int| 0 <= p < n ==> #[trigger] v.pages[p] is Some,
    ensures
        flush_full_pages(v, n).len() == if v.file.len() < n * PAGE_SIZE {
            n * PAGE_SIZE
        } else {
            v.file.len() as int
        },
    decreases n,
{
    if n > 0 {
        let m = (n - 1) as nat;
        lemma_full_pages_length(v, m);
        assert(v.pages[m as int] is Some);
    }
}

/// A table built by appending never holds more rows than its pages can.
proof fn lemma_appended_bounds(v: TableView)
    requires
        v.wf(),
        v.appended_only(),
    ensures
        v.num_rows <= ROWS_PER_PAGE * TABLE_MAX_PAGES,
        full_pages(v) == v.num_rows / ROWS_PER_PAGE as nat,
        forall|p: int| 0 <= p < full_pages(v) ==> #[trigger] v.pages[p] is Some,
        v.num_rows % ROWS_PER_PAGE as nat > 0 ==> full_pages(v) < TABLE_MAX_PAGES
            && v.pages[full_pages(v) as int] is Some,
{
    if v.num_rows > 0 {
        let last = v.num_rows - 1;
        assert(v.pages[page_of(last)] is Some);
        assert(page_of(last) < TABLE_MAX_PAGES);
    }
    assert forall|p: int| 0 <= p < full_pages(v) implies #[trigger] v.pages[p] is Some by {
        let i = p * 14;
        assert(page_of(i) == p);
        assert(i < v.num_rows);
        assert(v.pages[page_of(i)] is Some);
    }
    if v.num_rows % 14 > 0 {
        assert(page_of(v.num_rows - 1) == v.num_rows / 14);
        assert(v.pages[page_of(v.num_rows - 1)] is Some);
    }
}

/// Teardown of a table built by appending rows to an empty file leaves the file exactly
/// as long as its rows: whole pages, then the rows of a partial last page, and no
/// padding after the last row.
pub proof fn lemma_teardown_length(v: TableView)
    requires
        v.wf(),
        v.appended_only(),
    ensures
        closed_image(v).len() == rows_extent(v.num_rows),
{
    lemma_appended_bounds(v);
    let n = full_pages(v);
    lemma_full_pages_length(v, n);
    let rem = v.num_rows % 14;
    assert(rows_extent(v.num_rows) == n * 4096 + rem * 291);
    assert(0 <= rem * 291 <= 13 * 291) by (nonlinear_arith)
        requires
            0 <= rem < 14,
    ;
    let f = flush_full_pages(v, n);
    assert(v.file.len() <= n * 4096 + rem * 291);
    assert(f.len() == if v.file.len() < n * 4096 { (n * 4096) as int } else { v.file.len() as int });
    if rem > 0 {
        let g = flushed(f, v.pages[n as int]->0, n as int, (rem * 291) as int);
        assert(closed_image(v) == g);
        assert(g.len() == n * 4096 + rem * 291);
        assert(closed_image(v).len() == rows_extent(v.num_rows));
    } else {
        assert(rem * 291 == 0) by (nonlinear_arith)
            requires
                rem == 0,
        ;
        assert(v.file.len() <= n * 4096);
        assert(closed_image(v) == f);
        assert(closed_image(v).len() == rows_extent(v.num_rows));
    }
}

/// `rows_extent(n)` bytes hold `n` whole rows and less than one more, while the slack
/// that full pages leave stays under one row.
proof fn lemma_extent_rows(n: nat)
    requires
        n < 196,
    ensures
        rows_extent(n) / ROW_SIZE as int == n,
{
    let q = n / 14;
    let r = n % 14;
    assert(n == 14 * q + r);
    assert(rows_extent(n) == 291 * n + 22 * q) by (nonlinear_arith)
        requires
            rows_extent(n) == q * 4096 + r * 291,
            n == 14 * q + r,
    ;
    assert(q <= 13);
    assert((291 * n + 22 * q) / 291 == n) by (nonlinear_arith)
        requires
            0 <= q <= 13,
            n >= 0,
    ;
}

/// A table built by appending up to 195 rows to an empty file, torn down and opened again
/// on the resulting file, has the same row count and every row reads as it did.
/// (From 196 rows on, the slack that full pages leave adds up to a whole row, and the
/// count taken from the file's length is one too high.)
pub proof fn lemma_reopen_keeps_rows(v: TableView)
    requires
        v.wf(),
        v.appended_only(),
        v.num_rows <= 195,
    ensures
        opened(closed_image(v)).num_rows == v.num_rows,
        forall|i: int| 0 <= i < v.num_rows ==> #[trigger] opened(closed_image(v)).row_view(i) == v.row_view(i),
{
    lemma_teardown_length(v);
    lemma_extent_rows(v.num_rows);
    lemma_appended_bounds(v);
    let img = closed_image(v);
    let w = opened(img);
    let n = full_pages(v);
    let rem = v.num_rows % 14;
    let f = flush_full_pages(v, n);
    assert forall|i: int| 0 <= i < v.num_rows implies #[trigger] w.row_view(i) == v.row_view(i) by {
        let q = page_of(i);
        let off = slot_offset(i);
        assert(v.pages[q] is Some);
        assert(0 <= q < TABLE_MAX_PAGES);
        let b = v.pages[q]->0;
        assert(w.pages[q] is None);
        assert(0 <= off && off + 291 <= 14 * 291) by (nonlinear_arith)
            requires
                off == (i % 14) * 291,
                0 <= i % 14 < 14,
        ;
        if q < n {
            lemma_full_pages_content(v, n, q);
            if rem > 0 && n < TABLE_MAX_PAGES {
                assert(0 < rem * 291 <= 13 * 291) by (nonlinear_arith)
                    requires
                        0 < rem < 14,
                ;
                lemma_flush_other_page(f, v.pages[n as int]->0, n as int, (rem * 291) as int, q);
            }
            assert(file_page(img, q) == b);
        } else {
            assert(q == n);
            assert(i % 14 < rem);
            let p = v.pages[n as int]->0;
            assert(0 < rem * 291 <= 13 * 291) by (nonlinear_arith)
                requires
                    0 < rem < 14,
            ;
            assert(img == flushed(f, p, n as int, (rem * 291) as int));
            assert(off + 291 <= rem * 291) by (nonlinear_arith)
                requires
                    off == (i % 14) * 291,
                    i % 14 < rem,
            ;
            assert forall|k: int| 0 <= k < 291 implies #[trigger] file_page(img, q)[off + k] == b[off
                + k] by {
                lemma_flush_same_page(f, p, n as int, (rem * 291) as int, off + k);
            }
        }
        assert(w.row_view(i) =~= v.row_view(i));
    }
}

} // verus!
