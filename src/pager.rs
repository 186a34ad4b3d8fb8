use vstd::prelude::*;

use crate::constants::{PAGE_SIZE, ROWS_PER_PAGE, ROW_SIZE, TABLE_MAX_PAGES, TABLE_MAX_ROWS};

verus! {

/// Failures of the page cache.
#[derive(Debug, PartialEq, Eq, Structural)]
pub enum PageError {
    /// The backing file could not be opened, read or sized.
    Io,
    /// The backing file's length does not fit the platform's addressable size.
    TryFromIntError,
    /// A page beyond the configured maximum was asked for.
    FetchOutOfBounds(usize),
}

/// The `PAGE_SIZE` bytes that page `p` of `file` holds, zero past the end of the file.
pub open spec fn file_page(file: Seq<u8>, p: int) -> Seq<u8> {
    Seq::new(
        PAGE_SIZE as nat,
        |k: int| if p * PAGE_SIZE + k < file.len() { file[p * PAGE_SIZE + k] } else { 0u8 },
    )
}

/// The current content of page `p`: its resident buffer if there is one, else what the file holds.
pub open spec fn page_content(file: Seq<u8>, pages: Seq<Option<Seq<u8>>>, p: int) -> Seq<u8> {
    match pages[p] {
        Some(b) => b,
        None => file_page(file, p),
    }
}

/// Page slots are `TABLE_MAX_PAGES` in number, and each resident page is `PAGE_SIZE` bytes long.
pub open spec fn pages_wf(pages: Seq<Option<Seq<u8>>>) -> bool {
    &&& pages.len() == TABLE_MAX_PAGES
    &&& forall|p: int| 0 <= p < pages.len() && (#[trigger] pages[p]) is Some
        ==> pages[p]->0.len() == PAGE_SIZE
}

/// `file` after writing the first `size` bytes of `page` at the start of page `p`;
/// a gap between the old end of the file and the write reads as zeros.
pub open spec fn flushed(file: Seq<u8>, page: Seq<u8>, p: int, size: int) -> Seq<u8> {
    let start = p * PAGE_SIZE;
    let len = if file.len() < start + size { start + size } else { file.len() as int };
    Seq::new(
        len as nat,
        |k: int|
            if start <= k < start + size {
                page[k - start]
            } else if k < file.len() {
                file[k]
            } else {
                0u8
            },
    )
}

spec fn view_page(b: Option<Vec<u8>>) -> Option<Seq<u8>> {
    match b {
        Some(v) => Some(v@),
        None => None,
    }
}

/// Replacing one buffer changes only that page slot's view.
proof fn lemma_view_update(pages: Seq<Option<Vec<u8>>>, i: int, v: Vec<u8>)
    requires
        0 <= i < pages.len(),
    ensures
        pages.update(i, Some(v)).map_values(|b: Option<Vec<u8>>| view_page(b)) == pages.map_values(
            |b: Option<Vec<u8>>| view_page(b),
        ).update(i, Some(v@)),
{
    assert(pages.update(i, Some(v)).map_values(|b: Option<Vec<u8>>| view_page(b)) =~= pages.map_values(
        |b: Option<Vec<u8>>| view_page(b),
    ).update(i, Some(v@)));
}

/// The page cache: a backing file image and one optional buffer per page number.
pub struct Pager {
    file: Vec<u8>,
    file_length: usize,
    pages: Vec<Option<Vec<u8>>>,
}

impl Pager {
    /// The bytes of the backing file.
    pub closed spec fn file_view(&self) -> Seq<u8> {
        self.file@
    }

    /// The page slots, `None` until a page is first touched.
    pub closed spec fn pages_view(&self) -> Seq<Option<Seq<u8>>> {
        self.pages@.map_values(|b: Option<Vec<u8>>| view_page(b))
    }

    /// The page slots are well formed.
    pub closed spec fn pages_ok(&self) -> bool {
        pages_wf(self.pages_view())
    }

    /// The page slots are well formed and the recorded length is that of the file.
    pub closed spec fn inv(&self) -> bool {
        &&& self.pages_ok()
        &&& self.file_length == self.file@.len()
    }

    /// Takes the backing file's bytes; every page slot starts empty.
    pub fn new(file: Vec<u8>) -> (r: Pager)
        ensures
            r.inv(),
            r.file_view() == file@,
            r.pages_view() == Seq::new(TABLE_MAX_PAGES as nat, |p: int| None::<Seq<u8>>),
    {
        let file_length = file.len();
        let mut pages: Vec<Option<Vec<u8>>> = Vec::new();
        let mut i: usize = 0;
        while i < TABLE_MAX_PAGES
            invariant
                i <= TABLE_MAX_PAGES,
                pages@.len() == i,
                forall|p: int| 0 <= p < i ==> pages@[p] is None,
            decreases TABLE_MAX_PAGES - i,
        {
            pages.push(None);
            i = i + 1;
        }
        let r = Pager { file, file_length, pages };
        assert(r.pages_view() =~= Seq::new(TABLE_MAX_PAGES as nat, |p: int| None::<Seq<u8>>));
        r
    }

    /// Makes page `page_num` resident, reading it from the file on first touch.
    fn load_page(&mut self, page_num: usize) -> (r: Result<(), PageError>)
        requires
            old(self).inv(),
        ensures
            final(self).inv(),
            final(self).file_view() == old(self).file_view(),
            page_num >= TABLE_MAX_PAGES ==> r == Err::<(), PageError>(PageError::FetchOutOfBounds(page_num))
                && final(self).pages_view() == old(self).pages_view(),
            page_num < TABLE_MAX_PAGES ==> r is Ok
                && final(self).pages_view()[page_num as int] is Some
                && page_content(final(self).file_view(), final(self).pages_view(), page_num as int)
                    == page_content(old(self).file_view(), old(self).pages_view(), page_num as int)
                && forall|q: int| 0 <= q < TABLE_MAX_PAGES && q != page_num ==> final(self).pages_view()[q] == old(self).pages_view()[q],
    {
        if page_num >= TABLE_MAX_PAGES {
            return Err(PageError::FetchOutOfBounds(page_num));
        }
        if self.pages[page_num].is_none() {
            let mut page: Vec<u8> = vec![0u8; PAGE_SIZE];
            let num_pages = if self.file_length % PAGE_SIZE > 0 {
                self.file_length / PAGE_SIZE + 1
            } else {
                self.file_length / PAGE_SIZE
            };
            let start = page_num * PAGE_SIZE;
            assert(num_pages * PAGE_SIZE >= self.file_length);
            if page_num <= num_pages {
                let mut k: usize = 0;
                while k < PAGE_SIZE && start + k < self.file_length
                    invariant
                        self.inv(),
                        start == page_num * PAGE_SIZE,
                        page_num < TABLE_MAX_PAGES,
                        k <= PAGE_SIZE,
                        k == 0 || start + k <= self.file@.len(),
                        page@.len() == PAGE_SIZE,
                        forall|j: int| 0 <= j < k ==> page@[j] == self.file@[start + j],
                        forall|j: int| k <= j < PAGE_SIZE ==> page@[j] == 0u8,
                    decreases PAGE_SIZE - k,
                {
                    page.set(k, self.file[start + k]);
                    k = k + 1;
                }
                assert(page@ =~= file_page(self.file@, page_num as int));
            } else {
                assert(start >= self.file_length) by (nonlinear_arith)
                    requires
                        start == page_num * 4096,
                        page_num > num_pages,
                        num_pages * 4096 >= self.file_length,
                ;
                assert(page@ =~= file_page(self.file@, page_num as int));
            }
            let ghost old_pages = self.pages_view();
            self.pages.set(page_num, Some(page));
            assert(self.pages_view() =~= old_pages.update(page_num as int, Some(page@)));
        }
        Ok(())
    }

    /// The buffer of page `page_num`, read from the file on first touch; later calls hand
    /// out the same buffer, so changes made through it stay visible until teardown.
    pub fn get_page(&mut self, page_num: usize) -> (r: Result<&mut [u8], PageError>)
        requires
            old(self).inv(),
        ensures
            page_num >= TABLE_MAX_PAGES ==> r is Err && r->Err_0 == PageError::FetchOutOfBounds(page_num)
                && final(self).inv()
                && final(self).file_view() == old(self).file_view()
                && final(self).pages_view() == old(self).pages_view(),
            page_num < TABLE_MAX_PAGES ==> r is Ok
                && (*r->Ok_0)@ == page_content(old(self).file_view(), old(self).pages_view(), page_num as int)
                && final(self).file_view() == old(self).file_view()
                && final(self).pages_view() == old(self).pages_view().update(
                    page_num as int,
                    Some((*final(r->Ok_0))@),
                )
                && ((*final(r->Ok_0))@.len() == PAGE_SIZE ==> final(self).inv()),
    {
        match self.load_page(page_num) {
            Err(e) => Err(e),
            Ok(()) => {
                let ghost pages1 = self.pages@;
                let slot = &mut self.pages[page_num];
                match slot {
                    Some(page) => {
                        proof {
                            lemma_view_update(pages1, page_num as int, *final(page));
                        }
                        Ok(page.as_mut_slice())
                    },
                    None => Err(PageError::FetchOutOfBounds(page_num)),
                }
            },
        }
    }

    /// Gives up the page cache and hands back the bytes of the backing file.
    pub fn into_file(self) -> (r: Vec<u8>)
        ensures
            r@ == self.file_view(),
    {
        self.file
    }

    /// Writes the first `size` bytes of page `page_num`, if it is resident, to the
    /// file at the start of that page; writing no bytes leaves the file as it was.
    pub fn flush(&mut self, page_num: usize, size: usize)
        requires
            old(self).pages_ok(),
            page_num < TABLE_MAX_PAGES,
            size <= PAGE_SIZE,
        ensures
            final(self).pages_ok(),
            final(self).pages_view() == old(self).pages_view(),
            final(self).file_view() == match old(self).pages_view()[page_num as int] {
                Some(page) => if size == 0 {
                    old(self).file_view()
                } else {
                    flushed(old(self).file_view(), page, page_num as int, size as int)
                },
                None => old(self).file_view(),
            },
    {
        if size == 0 {
            return;
        }
        match &self.pages[page_num] {
            Some(page) => {
                assert(page@.len() == PAGE_SIZE) by {
                    assert(self.pages_view()[page_num as int] == Some(page@));
                }
                let ghost f0 = self.file@;
                let start = page_num * PAGE_SIZE;
                while self.file.len() < start
                    invariant
                        f0.len() <= self.file@.len(),
                        self.file@.len() == f0.len() || self.file@.len() <= start,
                        self.pages_ok(),
                        self.pages_view() == old(self).pages_view(),
                        forall|j: int| 0 <= j < self.file@.len() ==> #[trigger] self.file@[j] == if j < f0.len() {
                            f0[j]
                        } else {
                            0u8
                        },
                    decreases start - self.file@.len(),
                {
                    self.file.push(0u8);
                }
                assert(self.file@ =~= flushed(f0, page@, page_num as int, 0));
                let mut k: usize = 0;
                while k < size
                    invariant
                        k <= size <= PAGE_SIZE,
                        page@.len() == PAGE_SIZE,
                        start == page_num * PAGE_SIZE,
                        start <= TABLE_MAX_PAGES * PAGE_SIZE,
                        self.file@ == flushed(f0, page@, page_num as int, k as int),
                        self.pages_ok(),
                        self.pages_view() == old(self).pages_view(),
                    decreases size - k,
                {
                    if start + k < self.file.len() {
                        self.file.set(start + k, page[k]);
                    } else {
                        self.file.push(page[k]);
                    }
                    k = k + 1;
                    assert(self.file@ =~= flushed(f0, page@, page_num as int, k as int));
                }
            },
            None => {},
        }
    }
}

/// The page that row `i` lives in.
pub open spec fn page_of(i: int) -> int {
    i / ROWS_PER_PAGE as int
}

/// Where row `i` starts within its page.
pub open spec fn slot_offset(i: int) -> int {
    (i % ROWS_PER_PAGE as int) * ROW_SIZE as int
}

/// A table as data: the backing file, the page slots and the row count.
pub ghost struct TableView {
    pub file: Seq<u8>,
    pub pages: Seq<Option<Seq<u8>>>,
    pub num_rows: nat,
}

impl TableView {
    /// The page slots are well formed.
    pub open spec fn wf(self) -> bool {
        pages_wf(self.pages)
    }

    /// The current content of page `p`.
    pub open spec fn page_view(self, p: int) -> Seq<u8> {
        page_content(self.file, self.pages, p)
    }

    /// The current bytes of row slot `i`.
    pub open spec fn row_view(self, i: int) -> Seq<u8> {
        self.page_view(page_of(i)).subrange(slot_offset(i), slot_offset(i) + ROW_SIZE)
    }

    /// `self` with the bytes of row slot `i` replaced by `b`, the slot's page made resident.
    pub open spec fn with_row(self, i: int, b: Seq<u8>) -> TableView {
        let p = page_of(i);
        let page = self.page_view(p);
        TableView {
            pages: self.pages.update(
                p,
                Some(page.subrange(0, slot_offset(i)) + b + page.subrange(slot_offset(i) + ROW_SIZE, PAGE_SIZE as int)),
            ),
            ..self
        }
    }

    /// Same file, same row count, and every page reads the same.
    pub open spec fn same_content(self, other: TableView) -> bool {
        &&& self.file == other.file
        &&& self.num_rows == other.num_rows
        &&& forall|p: int| 0 <= p < TABLE_MAX_PAGES ==> #[trigger] self.page_view(p) == other.page_view(p)
    }

    /// Every page resident in `self` is still resident in `later`.
    pub open spec fn keeps_resident(self, later: TableView) -> bool {
        forall|p: int| 0 <= p < TABLE_MAX_PAGES && (#[trigger] self.pages[p]) is Some ==> later.pages[p] is Some
    }

    /// The state of a table built by appending rows to an empty file: the page of every
    /// row is resident, and the file ends no later than the rows do.
    pub open spec fn appended_only(self) -> bool {
        &&& forall|i: int| 0 <= i < self.num_rows ==> 0 <= page_of(i) < TABLE_MAX_PAGES
            && #[trigger] self.pages[page_of(i)] is Some
        &&& self.file.len() <= rows_extent(self.num_rows)
    }
}

/// Bytes that `n` rows take in the file: whole pages, then the rows of the last page.
pub open spec fn rows_extent(n: nat) -> int {
    (n / ROWS_PER_PAGE as nat) * PAGE_SIZE + (n % ROWS_PER_PAGE as nat) * ROW_SIZE
}

/// A table just opened on the bytes `img`: nothing resident, one row per `ROW_SIZE` bytes.
pub open spec fn opened(img: Seq<u8>) -> TableView {
    TableView {
        file: img,
        pages: Seq::new(TABLE_MAX_PAGES as nat, |p: int| None::<Seq<u8>>),
        num_rows: img.len() / ROW_SIZE as nat,
    }
}

/// Number of pages that teardown writes in full.
pub open spec fn full_pages(v: TableView) -> nat {
    let n = v.num_rows / ROWS_PER_PAGE as nat;
    if n < TABLE_MAX_PAGES { n } else { TABLE_MAX_PAGES as nat }
}

/// The file after writing in full each resident page below `n`, in order.
pub open spec fn flush_full_pages(v: TableView, n: nat) -> Seq<u8>
    decreases n,
{
    if n == 0 {
        v.file
    } else {
        let f = flush_full_pages(v, (n - 1) as nat);
        match v.pages[n - 1] {
            Some(b) => flushed(f, b, n - 1, PAGE_SIZE as int),
            None => f,
        }
    }
}

/// The file after teardown: the full pages, then the rows of the partial last page,
/// each only where resident.
pub open spec fn closed_image(v: TableView) -> Seq<u8> {
    let n = full_pages(v);
    let f = flush_full_pages(v, n);
    let rem = v.num_rows % ROWS_PER_PAGE as nat;
    if rem > 0 && n < TABLE_MAX_PAGES {
        match v.pages[n as int] {
            Some(b) => flushed(f, b, n as int, rem * ROW_SIZE),
            None => f,
        }
    } else {
        f
    }
}

/// A table: the page cache and the logical row count.
pub struct Table {
    pub num_rows: usize,
    pub pager: Pager,
}

impl View for Table {
    type V = TableView;

    open spec fn view(&self) -> TableView {
        TableView {
            file: self.pager.file_view(),
            pages: self.pager.pages_view(),
            num_rows: self.num_rows as nat,
        }
    }
}

impl Table {
    pub closed spec fn inv(&self) -> bool {
        self.pager.inv()
    }

    /// A table that holds its invariant is well formed as data.
    pub proof fn lemma_wf(&self)
        requires
            self.inv(),
        ensures
            self@.wf(),
    {
    }

    /// The number of rows.
    pub fn row_count(&self) -> (n: usize)
        ensures
            n == self@.num_rows,
    {
        self.num_rows
    }

    /// Counts one more row.
    pub(crate) fn count_row(&mut self)
        requires
            old(self).inv(),
            old(self)@.num_rows < usize::MAX,
        ensures
            final(self).inv(),
            final(self)@ == (TableView { num_rows: old(self)@.num_rows + 1, ..old(self)@ }),
    {
        self.num_rows = self.num_rows + 1;
    }

    /// Opens a table on the bytes of its backing file; the row count is the file's
    /// length divided by `ROW_SIZE`, a trailing partial row not counted.
    pub fn new(file: Vec<u8>) -> (t: Table)
        ensures
            t.inv(),
            t@ == opened(file@),
            file@.len() == 0 ==> t@.appended_only(),
    {
        let pager = Pager::new(file);
        let num_rows = pager.file_length / ROW_SIZE;
        let t = Table { num_rows, pager };
        assert(t@ =~= opened(t.pager.file_view()));
        t
    }

    /// The `ROW_SIZE` bytes of row slot `row_num`, at offset
    /// `(row_num % ROWS_PER_PAGE) * ROW_SIZE` of page `row_num / ROWS_PER_PAGE`, as a
    /// mutable range of that page's buffer.
    pub fn row_slot(&mut self, row_num: usize) -> (r: Result<&mut [u8], PageError>)
        requires
            old(self).inv(),
        ensures
            page_of(row_num as int) >= TABLE_MAX_PAGES ==> r is Err && r->Err_0 == PageError::FetchOutOfBounds(
                (row_num / ROWS_PER_PAGE) as usize,
            ) && final(self).inv() && final(self)@ == old(self)@,
            page_of(row_num as int) < TABLE_MAX_PAGES ==> r is Ok
                && (*r->Ok_0)@ == old(self)@.row_view(row_num as int)
                && (*r->Ok_0)@.len() == ROW_SIZE
                && final(self)@ == old(self)@.with_row(row_num as int, (*final(r->Ok_0))@)
                && ((*final(r->Ok_0))@.len() == ROW_SIZE ==> final(self).inv()),
    {
        let page_num = row_num / ROWS_PER_PAGE;
        let ghost v0 = self@;
        match self.pager.get_page(page_num) {
            Err(e) => Err(e),
            Ok(page) => {
                proof {
                    lemma_slot_bounds(row_num as int);
                }
                let byte_offset = (row_num % ROWS_PER_PAGE) * ROW_SIZE;
                let ghost content = page@;
                assert(content.len() == PAGE_SIZE);
                let ghost page_final = (*final(page))@;
                let (head, rest) = page.split_at_mut(byte_offset);
                let (slot, tail) = rest.split_at_mut(ROW_SIZE);
                assert(slot@ =~= v0.row_view(row_num as int));
                proof {
                    assert(page_final =~= content.subrange(0, byte_offset as int) + (*final(slot))@
                        + content.subrange(byte_offset + ROW_SIZE, PAGE_SIZE as int));
                }
                Ok(slot)
            },
        }
    }

    /// Tears the table down and hands back the backing file's bytes: each page that
    /// holds only whole rows is written in full, then the rows of a partial last page;
    /// a page that is not resident is not written.
    pub fn close(self) -> (image: Vec<u8>)
        requires
            self.inv(),
        ensures
            image@ == closed_image(self@),
    {
        let ghost v = self@;
        let mut pager = self.pager;
        let num_full_pages = self.num_rows / ROWS_PER_PAGE;
        let mut i: usize = 0;
        while i < num_full_pages && i < TABLE_MAX_PAGES
            invariant
                i <= TABLE_MAX_PAGES,
                i <= num_full_pages,
                num_full_pages == v.num_rows / ROWS_PER_PAGE as nat,
                pager.pages_ok(),
                pager.pages_view() == v.pages,
                pager.file_view() == flush_full_pages(v, i as nat),
            decreases TABLE_MAX_PAGES - i,
        {
            pager.flush(i, PAGE_SIZE);
            i = i + 1;
        }
        assert(i as nat == full_pages(v));
        let num_additional_rows = self.num_rows % ROWS_PER_PAGE;
        if num_additional_rows > 0 && num_full_pages < TABLE_MAX_PAGES {
            assert(num_additional_rows * 291 <= 14 * 291) by (nonlinear_arith)
                requires
                    num_additional_rows < 14,
            ;
            pager.flush(num_full_pages, num_additional_rows * ROW_SIZE);
        }
        pager.into_file()
    }
}

/// Replacing the bytes of row slot `i` by `b`: row `i` reads `b`, every other row reads
/// as before, the slot's page is resident, and putting back a row's own bytes changes
/// what no page reads.
pub proof fn lemma_with_row(v: TableView, i: int, b: Seq<u8>)
    requires
        v.wf(),
        0 <= i,
        page_of(i) < TABLE_MAX_PAGES,
        b.len() == ROW_SIZE,
    ensures
        v.with_row(i, b).wf(),
        v.with_row(i, b).row_view(i) == b,
        forall|j: int| 0 <= j && j != i && page_of(j) < TABLE_MAX_PAGES
            ==> #[trigger] v.with_row(i, b).row_view(j) == v.row_view(j),
        v.keeps_resident(v.with_row(i, b)),
        v.with_row(i, b).pages[page_of(i)] is Some,
        b == v.row_view(i) ==> v.with_row(i, b).same_content(v),
{
    lemma_slot_bounds(i);
    let p = page_of(i);
    let w = v.with_row(i, b);
    let page = v.page_view(p);
    assert(page.len() == PAGE_SIZE);
    assert(w.row_view(i) =~= b);
    assert forall|j: int| 0 <= j && j != i && page_of(j) < TABLE_MAX_PAGES
        implies #[trigger] w.row_view(j) == v.row_view(j) by {
        if page_of(j) == p {
            lemma_slots_disjoint(j, i);
            lemma_slot_bounds(j);
            assert(w.row_view(j) =~= v.row_view(j));
        } else {
            assert(w.pages[page_of(j)] == v.pages[page_of(j)]);
        }
    }
    if b == v.row_view(i) {
        assert(w.page_view(p) =~= page);
        assert forall|q: int| 0 <= q < TABLE_MAX_PAGES implies #[trigger] w.page_view(q) == v.page_view(q) by {
            if q != p {
                assert(w.pages[q] == v.pages[q]);
            }
        }
    }
}

/// A row slot lies within its page.
proof fn lemma_slot_bounds(i: int)
    requires
        0 <= i,
    ensures
        0 <= slot_offset(i),
        slot_offset(i) + ROW_SIZE <= ROWS_PER_PAGE * ROW_SIZE,
        ROWS_PER_PAGE * ROW_SIZE <= PAGE_SIZE,
{
    let m = i % 14;
    assert(0 <= m * 291 && m * 291 + 291 <= 14 * 291) by (nonlinear_arith)
        requires
            0 <= m < 14,
    ;
}

/// Two distinct rows of one page occupy disjoint byte ranges of it.
proof fn lemma_slots_disjoint(i: int, j: int)
    requires
        0 <= i,
        0 <= j,
        i != j,
        page_of(i) == page_of(j),
    ensures
        slot_offset(i) + ROW_SIZE <= slot_offset(j) || slot_offset(j) + ROW_SIZE <= slot_offset(i),
        slot_offset(i) + ROW_SIZE <= PAGE_SIZE,
{
    lemma_slot_bounds(i);
    lemma_slot_bounds(j);
    let a = i % 14;
    let b = j % 14;
    assert(a != b) by (nonlinear_arith)
        requires
            0 <= i,
            0 <= j,
            i != j,
            i / 14 == j / 14,
        a == i % 14,
        b == j % 14,
    {
        assert(i == 14 * (i / 14) + i % 14);
        assert(j == 14 * (j / 14) + j % 14);
    }
    assert(a * 291 + 291 <= b * 291 || b * 291 + 291 <= a * 291) by (nonlinear_arith)
        requires
            0 <= a < 14,
            0 <= b < 14,
            a != b,
    ;
}

/// A traversal handle over a table's rows, in order; it borrows the table.
pub struct Cursor<'a> {
    pub table: &'a mut Table,
    pub row_num: usize,
    pub end_of_table: bool,
}

impl<'a> Cursor<'a> {
    /// A cursor at the first row; at the end already if the table is empty.
    pub fn from_start(table: &'a mut Table) -> (c: Cursor<'a>)
        ensures
            c.row_num == 0,
            c.end_of_table == (old(table)@.num_rows == 0),
            *c.table == *old(table),
            *final(c.table) == *final(table),
    {
        let row_num = table.num_rows;
        Cursor { table, row_num: 0, end_of_table: row_num == 0 }
    }

    /// A cursor one past the last row, where the next row goes.
    pub fn from_end(table: &'a mut Table) -> (c: Cursor<'a>)
        ensures
            c.row_num == old(table)@.num_rows,
            c.end_of_table,
            *c.table == *old(table),
            *final(c.table) == *final(table),
    {
        let row_num = table.num_rows;
        Cursor { table, row_num, end_of_table: true }
    }

    /// The row slot the cursor stands on, as a mutable range of its page's buffer.
    pub fn value(&mut self) -> (r: Result<&mut [u8], PageError>)
        requires
            old(self).table.inv(),
        ensures
            final(self).row_num == old(self).row_num,
            final(self).end_of_table == old(self).end_of_table,
            *final(final(self).table) == *final(old(self).table),
            page_of(old(self).row_num as int) >= TABLE_MAX_PAGES ==> r is Err && r->Err_0
                == PageError::FetchOutOfBounds((old(self).row_num / ROWS_PER_PAGE) as usize)
                && final(self).table.inv() && final(self).table@ == old(self).table@,
            page_of(old(self).row_num as int) < TABLE_MAX_PAGES ==> r is Ok
                && (*r->Ok_0)@ == old(self).table@.row_view(old(self).row_num as int)
                && (*r->Ok_0)@.len() == ROW_SIZE
                && final(self).table@ == old(self).table@.with_row(
                    old(self).row_num as int,
                    (*final(r->Ok_0))@,
                )
                && ((*final(r->Ok_0))@.len() == ROW_SIZE ==> final(self).table.inv()),
    {
        let row_num = self.row_num;
        self.table.row_slot(row_num)
    }

    /// Moves to the next row; at the end once the row number reaches the row count.
    pub fn advance(&mut self)
        requires
            old(self).row_num < usize::MAX,
        ensures
            final(self).row_num == old(self).row_num + 1,
            final(self).end_of_table == (old(self).end_of_table || old(self).row_num + 1
                >= old(self).table@.num_rows),
            *final(self).table == *old(self).table,
            *final(final(self).table) == *final(old(self).table),
    {
        self.row_num = self.row_num + 1;
        if self.row_num >= self.table.num_rows {
            self.end_of_table = true;
        }
    }
}

} // verus!
