//! The frame of a serialized bag of cells, read far enough to tell whether
//! its cells can be handed to the cell library.
//!
//! A bag of cells begins with four magic bytes, a byte of flags that also
//! gives the width of an index, a byte that gives the width of an offset,
//! then the number of cells, of roots and of absent cells and the size of
//! the cell data. The indices of the roots follow, then, where the flags say
//! so, an offset for each cell, then the cells. A cell is two descriptor
//! bytes, stored hashes where the first descriptor says so, the data, and
//! the indices of the cells that it refers to.
//!
//! A bag is sound where every index of a root is the index of a cell, where
//! no cell is marked as exotic, where every cell refers to cells behind it
//! only, and where no cell is `DEPTH_LIMIT` levels or more above a cell
//! that refers to none.

use vstd::prelude::*;

verus! {

/// The depth that no cell of a sound bag reaches: the greatest that the
/// cell library can count.
pub const DEPTH_LIMIT: usize = 65_535;

/// The widest index.
pub const MAX_INDEX_WIDTH: usize = 4;

/// The number that the `count` bytes of `bytes` from `start` on spell,
/// highest byte first.
pub open spec fn be_number(bytes: Seq<u8>, start: int, count: nat) -> nat
    decreases count,
{
    if count == 0 {
        0
    } else {
        be_number(bytes, start, (count - 1) as nat) * 256 + bytes[start + count - 1] as nat
    }
}

/// The number of bits set among the three lowest of `mask`.
pub open spec fn low_ones(mask: nat) -> nat {
    (mask % 2) + ((mask / 2) % 2) + ((mask / 4) % 2)
}

/// The bytes that a cell with the descriptors `d1` and `d2` takes after its
/// descriptors, with indices of `width` bytes: stored hashes and depths,
/// data, and indices.
pub open spec fn cell_span(d1: u8, d2: u8, width: nat) -> nat {
    let hashes = if (d1 as nat / 16) % 2 == 1 {
        (low_ones(d1 as nat / 32) + 1) * 34
    } else {
        0
    };
    let data = d2 as nat / 2 + d2 as nat % 2;
    hashes + data + (d1 as nat % 8) * width
}

/// Where the indices of a cell with the descriptors `d1` and `d2` at `pos`
/// begin.
pub open spec fn refs_start(pos: int, d1: u8, d2: u8, width: nat) -> int {
    pos + 2 + cell_span(d1, d2, width) - (d1 as nat % 8) * width
}

/// Each of the `count` indices of `width` bytes from `pos` on is below
/// `cells`.
pub open spec fn indices_below(bytes: Seq<u8>, pos: int, count: nat, width: nat, cells: nat) -> bool
    decreases count,
{
    if count == 0 {
        true
    } else {
        be_number(bytes, pos, width) < cells && indices_below(
            bytes,
            pos + width,
            (count - 1) as nat,
            width,
            cells,
        )
    }
}

/// The `count` indices of `width` bytes from `pos` on.
pub open spec fn indices_at(bytes: Seq<u8>, pos: int, count: nat, width: nat) -> Seq<u64> {
    Seq::new(count, |j: int| be_number(bytes, pos + j * width, width) as u64)
}

/// For each of the `remaining` cells from `pos` on, the indices of the
/// cells that it refers to, if each cell lies within the bytes and is not
/// exotic.
pub open spec fn cell_table(bytes: Seq<u8>, pos: int, remaining: nat, width: nat) -> Option<
    Seq<Seq<u64>>,
>
    decreases remaining,
{
    if remaining == 0 {
        Some(Seq::empty())
    } else if pos + 2 > bytes.len() {
        None
    } else {
        let d1 = bytes[pos];
        let d2 = bytes[pos + 1];
        let end = pos + 2 + cell_span(d1, d2, width);
        if (d1 as nat / 8) % 2 == 1 || end > bytes.len() {
            None
        } else {
            match cell_table(bytes, end, (remaining - 1) as nat, width) {
                Some(rest) => Some(
                    seq![indices_at(bytes, refs_start(pos, d1, d2, width), d1 as nat % 8, width)]
                        + rest,
                ),
                None => None,
            }
        }
    }
}

/// The cell `index` of `table` refers to cells behind it only.
pub open spec fn row_forward(table: Seq<Seq<u64>>, index: int) -> bool {
    forall|j: int|
        0 <= j < table[index].len() ==> index < #[trigger] table[index][j] < table.len()
}

/// The depth of the cell `index` of `table`: 0 where it refers to no cell,
/// else one more than the depth of the deepest cell behind it that it
/// refers to.
pub open spec fn depth_in(table: Seq<Seq<u64>>, index: int) -> nat
    decreases table.len() - index, 1nat, 0nat,
{
    if 0 <= index < table.len() && table[index].len() > 0 {
        1 + deepest_ref(table, index, table[index].len())
    } else {
        0
    }
}

/// The depth of the deepest cell behind the cell `index` among the first
/// `count` that it refers to.
pub open spec fn deepest_ref(table: Seq<Seq<u64>>, index: int, count: nat) -> nat
    decreases table.len() - index, 0nat, count,
{
    if count == 0 || !(0 <= index < table.len()) {
        0
    } else {
        let before = deepest_ref(table, index, (count - 1) as nat);
        let target = table[index][count - 1] as int;
        let depth = if index < target < table.len() {
            depth_in(table, target)
        } else {
            0
        };
        if depth > before {
            depth
        } else {
            before
        }
    }
}

/// Every cell of `table` refers to cells behind it only and is less than
/// `DEPTH_LIMIT` deep.
pub open spec fn is_shallow(table: Seq<Seq<u64>>) -> bool {
    &&& forall|i: int| 0 <= i < table.len() ==> #[trigger] row_forward(table, i)
    &&& forall|i: int| 0 <= i < table.len() ==> #[trigger] depth_in(table, i) < DEPTH_LIMIT
}

/// The rows of a table as sequences.
pub open spec fn table_of(rows: Seq<Vec<u64>>) -> Seq<Seq<u64>> {
    Seq::new(rows.len(), |i: int| rows[i]@)
}

/// The rows `head` before the rows `rest`, where they are there.
pub open spec fn joined(head: Seq<Seq<u64>>, rest: Option<Seq<Seq<u64>>>) -> Option<
    Seq<Seq<u64>>,
> {
    match rest {
        Some(rest) => Some(head + rest),
        None => None,
    }
}

/// Where `remaining` entries of `width` bytes from `pos` on end, if they
/// lie within `len` bytes.
pub open spec fn skip_entries(pos: int, remaining: nat, width: nat, len: nat) -> Option<int>
    decreases remaining,
{
    if remaining == 0 {
        Some(pos)
    } else if pos + width > len {
        None
    } else {
        skip_entries(pos + width, (remaining - 1) as nat, width, len)
    }
}

/// The frame of a bag of cells.
pub struct Frame {
    /// The width of an index in bytes.
    pub width: nat,
    /// The width of an offset in bytes.
    pub offset_width: nat,
    /// The flags say that an offset is stored for each cell.
    pub indexed: bool,
    /// The number of cells.
    pub cells: nat,
    /// The number of roots.
    pub roots: nat,
    /// Where the indices of the roots begin.
    pub roots_at: int,
}

/// The frame that the first bytes of `bytes` give, if they are the head of
/// a bag of cells.
pub open spec fn frame_of(bytes: Seq<u8>) -> Option<Frame> {
    if bytes.len() < 6 || bytes[0] != 0xb5 || bytes[1] != 0xee || bytes[2] != 0x9c || bytes[3]
        != 0x72 {
        None
    } else {
        let width = bytes[4] as nat % 8;
        let offset_width = bytes[5] as nat;
        let roots_at = 6 + 3 * width + offset_width;
        if width > MAX_INDEX_WIDTH || roots_at > bytes.len() {
            None
        } else {
            Some(
                Frame {
                    width,
                    offset_width,
                    indexed: bytes[4] >= 128,
                    cells: be_number(bytes, 6, width),
                    roots: be_number(bytes, (6 + width) as int, width),
                    roots_at: roots_at as int,
                },
            )
        }
    }
}

/// `bytes` are a bag of cells that the cell library can take: the frame is
/// there, every index of a root is the index of a cell, no cell is exotic,
/// every cell refers to cells behind it only, and no cell is `DEPTH_LIMIT`
/// deep.
pub open spec fn is_sound_boc(bytes: Seq<u8>) -> bool {
    match frame_of(bytes) {
        None => false,
        Some(frame) => {
            &&& frame.roots <= frame.cells
            &&& skip_entries(frame.roots_at, frame.roots, frame.width, bytes.len()).is_some()
            &&& indices_below(bytes, frame.roots_at, frame.roots, frame.width, frame.cells)
            &&& match skip_entries(
                skip_entries(frame.roots_at, frame.roots, frame.width, bytes.len()).unwrap(),
                if frame.indexed {
                    frame.cells
                } else {
                    0
                },
                frame.offset_width,
                bytes.len(),
            ) {
                None => false,
                Some(cells_at) => match cell_table(bytes, cells_at, frame.cells, frame.width) {
                    None => false,
                    Some(table) => is_shallow(table),
                },
            }
        },
    }
}

/// A number of at most four bytes is below two to the 32.
pub proof fn lemma_be_number_bound(bytes: Seq<u8>, start: int, count: nat)
    requires
        count <= MAX_INDEX_WIDTH,
    ensures
        be_number(bytes, start, count) < 0x1_0000_0000,
{
    reveal_with_fuel(be_number, 5);
}

/// Reads the number that `count` bytes from `start` on spell.
fn read_number(bytes: &Vec<u8>, start: usize, count: usize) -> (number: u64)
    requires
        count <= MAX_INDEX_WIDTH,
        start + count <= bytes@.len(),
    ensures
        number == be_number(bytes@, start as int, count as nat),
        number < 0x1_0000_0000,
{
    let len = bytes.len();
    let mut number: u64 = 0;
    let mut done: usize = 0;
    while done < count
        invariant
            done <= count <= MAX_INDEX_WIDTH,
            len == bytes@.len(),
            start + count <= len,
            number == be_number(bytes@, start as int, done as nat),
            number < 0x1_0000_0000,
        decreases count - done,
    {
        proof {
            lemma_be_number_bound(bytes@, start as int, (done + 1) as nat);
        }
        number = number * 256 + bytes[start + done] as u64;
        done += 1;
    }
    number
}

/// Tests whether each of `count` indices from `pos` on is below `cells`.
fn check_indices(bytes: &Vec<u8>, pos: usize, count: usize, width: usize, cells: u64) -> (ok: bool)
    requires
        width <= MAX_INDEX_WIDTH,
        count <= 0x1_0000_0000,
        skip_entries(pos as int, count as nat, width as nat, bytes@.len()).is_some(),
    ensures
        ok == indices_below(bytes@, pos as int, count as nat, width as nat, cells as nat),
{
    let len = bytes.len();
    let mut at: usize = pos;
    let mut left: usize = count;
    while left > 0
        invariant
            width <= MAX_INDEX_WIDTH,
            len == bytes@.len(),
            skip_entries(at as int, left as nat, width as nat, bytes@.len()).is_some(),
            indices_below(bytes@, pos as int, count as nat, width as nat, cells as nat)
                == indices_below(bytes@, at as int, left as nat, width as nat, cells as nat),
        decreases left,
    {
        assert(at + width <= len);
        if read_number(bytes, at, width) >= cells {
            return false;
        }
        at = at + width;
        left -= 1;
    }
    true
}

/// Finds where `count` entries of `width` bytes from `pos` on end, if they
/// lie within `len` bytes.
fn skip(pos: usize, count: usize, width: usize, len: usize) -> (end: Option<usize>)
    requires
        pos <= len,
    ensures
        match end {
            Some(end) => skip_entries(pos as int, count as nat, width as nat, len as nat) == Some(
                end as int,
            ) && end <= len,
            None => skip_entries(pos as int, count as nat, width as nat, len as nat).is_none(),
        },
{
    if width == 0 {
        proof {
            assert(count as nat * 0 == 0) by (nonlinear_arith);
            lemma_entries_fit(pos as int, count as nat, 0, len as nat);
        }
        return Some(pos);
    }
    let mut at: usize = pos;
    let mut left: usize = count;
    while left > 0
        invariant
            at <= len,
            skip_entries(pos as int, count as nat, width as nat, len as nat) == skip_entries(
                at as int,
                left as nat,
                width as nat,
                len as nat,
            ),
        decreases left,
    {
        if width > len - at {
            return None;
        }
        at = at + width;
        left -= 1;
    }
    Some(at)
}

/// Reads `count` indices of `width` bytes from `pos` on.
fn read_indices(bytes: &Vec<u8>, pos: usize, count: usize, width: usize) -> (row: Vec<u64>)
    requires
        width <= MAX_INDEX_WIDTH,
        count <= 7,
        pos + count * width <= bytes@.len(),
    ensures
        row@ == indices_at(bytes@, pos as int, count as nat, width as nat),
{
    let len = bytes.len();
    let mut row: Vec<u64> = Vec::new();
    let mut at: usize = pos;
    let mut done: usize = 0;
    while done < count
        invariant
            width <= MAX_INDEX_WIDTH,
            done <= count <= 7,
            len == bytes@.len(),
            pos + count * width <= len,
            at == pos + done * width,
            row@ == indices_at(bytes@, pos as int, done as nat, width as nat),
        decreases count - done,
    {
        assert((done + 1) * width == done * width + width) by (nonlinear_arith);
        assert((done + 1) * width <= count * width) by (nonlinear_arith)
            requires
                done + 1 <= count,
        ;
        let index = read_number(bytes, at, width);
        row.push(index);
        at = at + width;
        done += 1;
        assert(row@ =~= indices_at(bytes@, pos as int, done as nat, width as nat));
    }
    row
}

/// Reads, for each of the `count` cells from `pos` on, the indices of the
/// cells that it refers to, if each cell lies within the bytes and is not
/// exotic.
fn read_table(bytes: &Vec<u8>, pos: usize, count: usize, width: usize) -> (table: Option<
    Vec<Vec<u64>>,
>)
    requires
        width <= MAX_INDEX_WIDTH,
        pos <= bytes@.len(),
    ensures
        match table {
            Some(rows) => cell_table(bytes@, pos as int, count as nat, width as nat) == Some(
                table_of(rows@),
            ),
            None => cell_table(bytes@, pos as int, count as nat, width as nat).is_none(),
        },
{
    let len = bytes.len();
    let mut table: Vec<Vec<u64>> = Vec::new();
    let mut at: usize = pos;
    let mut left: usize = count;
    proof {
        assert(table_of(table@) =~= Seq::<Seq<u64>>::empty());
        lemma_joined_empty(cell_table(bytes@, pos as int, count as nat, width as nat));
    }
    while left > 0
        invariant
            width <= MAX_INDEX_WIDTH,
            len == bytes@.len(),
            at <= len,
            cell_table(bytes@, pos as int, count as nat, width as nat) == joined(
                table_of(table@),
                cell_table(bytes@, at as int, left as nat, width as nat),
            ),
        decreases left,
    {
        if len - at < 2 {
            return None;
        }
        let d1 = bytes[at];
        let d2 = bytes[at + 1];
        if (d1 / 8) % 2 == 1 {
            return None;
        }
        let mask = d1 / 32;
        let hashes: usize = if (d1 / 16) % 2 == 1 {
            (((mask % 2) + ((mask / 2) % 2) + ((mask / 4) % 2) + 1) as usize) * 34
        } else {
            0
        };
        let data: usize = (d2 / 2 + d2 % 2) as usize;
        let refs: usize = (d1 % 8) as usize;
        assert(refs * width <= 28) by (nonlinear_arith)
            requires
                refs <= 7,
                width <= 4,
        ;
        let span: usize = hashes + data + refs * width;
        assert(span == cell_span(d1, d2, width as nat));
        if span > len - at - 2 {
            return None;
        }
        let refs_at: usize = at + 2 + hashes + data;
        let row = read_indices(bytes, refs_at, refs, width);
        let ghost before = table_of(table@);
        let ghost rest = cell_table(
            bytes@,
            at + 2 + span,
            (left - 1) as nat,
            width as nat,
        );
        table.push(row);
        proof {
            assert(table_of(table@) =~= before + seq![row@]);
            if let Some(tail) = rest {
                assert((before + seq![row@]) + tail =~= before + (seq![row@] + tail));
            }
        }
        at = at + 2 + span;
        left -= 1;
    }
    proof {
        assert(table_of(table@) + Seq::<Seq<u64>>::empty() =~= table_of(table@));
    }
    Some(table)
}

/// Rows before no rows are the rows.
pub proof fn lemma_joined_empty(rest: Option<Seq<Seq<u64>>>)
    ensures
        joined(Seq::empty(), rest) == rest,
{
    if let Some(rows) = rest {
        assert(Seq::<Seq<u64>>::empty() + rows =~= rows);
    }
}

/// Tests whether every cell of `table` refers to cells behind it only and
/// is less than `DEPTH_LIMIT` deep.
fn check_depths(table: &Vec<Vec<u64>>) -> (ok: bool)
    ensures
        ok == is_shallow(table_of(table@)),
{
    let count = table.len();
    let ghost rows = table_of(table@);
    let mut depths: Vec<u32> = Vec::new();
    let mut filled: usize = 0;
    while filled < count
        invariant
            filled <= count,
            depths@.len() == filled,
        decreases count - filled,
    {
        depths.push(0);
        filled += 1;
    }
    let mut index: usize = count;
    while index > 0
        invariant
            index <= count,
            count == table@.len(),
            rows == table_of(table@),
            rows.len() == count,
            depths@.len() == count,
            forall|k: int| index <= k < count ==> #[trigger] row_forward(rows, k),
            forall|k: int|
                index <= k < count ==> depths@[k] == #[trigger] depth_in(rows, k) && depths@[k]
                    < DEPTH_LIMIT,
        decreases index,
    {
        index -= 1;
        let row = &table[index];
        let mut deepest: u32 = 0;
        let mut seen: usize = 0;
        while seen < row.len()
            invariant
                index < count,
                count == table@.len(),
                rows == table_of(table@),
                rows.len() == count,
                row@ == rows[index as int],
                depths@.len() == count,
                seen <= row@.len(),
                deepest == deepest_ref(rows, index as int, seen as nat),
                deepest < DEPTH_LIMIT,
                forall|j: int| 0 <= j < seen ==> index < #[trigger] row@[j] < count,
                forall|k: int|
                    index < k < count ==> depths@[k] == #[trigger] depth_in(rows, k) && depths@[k]
                        < DEPTH_LIMIT,
            decreases row.len() - seen,
        {
            let target = row[seen];
            if target <= index as u64 || target >= count as u64 {
                proof {
                    assert(!(index < rows[index as int][seen as int] < rows.len()));
                    assert(!row_forward(rows, index as int));
                }
                return false;
            }
            let depth = depths[target as usize];
            proof {
                assert(rows[index as int][seen as int] == target);
                assert(depth == depth_in(rows, target as int));
                assert(deepest_ref(rows, index as int, (seen + 1) as nat) == if depth > deepest {
                    depth as nat
                } else {
                    deepest as nat
                });
            }
            if depth > deepest {
                deepest = depth;
            }
            seen += 1;
        }
        proof {
            assert(row_forward(rows, index as int)) by {
                assert forall|j: int| 0 <= j < rows[index as int].len() implies index
                    < #[trigger] rows[index as int][j] < rows.len() by {
                    assert(index < row@[j] < count);
                }
            }
        }
        let depth: u32 = if row.len() == 0 {
            0
        } else {
            deepest + 1
        };
        assert(depth == depth_in(rows, index as int));
        if depth >= DEPTH_LIMIT as u32 {
            return false;
        }
        depths.set(index, depth);
    }
    true
}

/// Entries that end within `len` bytes can be skipped.
pub proof fn lemma_entries_fit(pos: int, count: nat, width: nat, len: nat)
    requires
        pos + count * width <= len,
    ensures
        skip_entries(pos, count, width, len) == Some(pos + count * width),
    decreases count,
{
    if count > 0 {
        assert(count * width == width + (count - 1) * width) by (nonlinear_arith)
            requires
                count > 0,
        ;
        assert((count - 1) * width >= 0) by (nonlinear_arith)
            requires
                count > 0,
        ;
        lemma_entries_fit(pos + width, (count - 1) as nat, width, len);
    } else {
        assert(count * width == 0) by (nonlinear_arith)
            requires
                count == 0,
        ;
    }
}

/// Tests whether `bytes` are a bag of cells that the cell library can take.
pub fn is_sound(bytes: &Vec<u8>) -> (ok: bool)
    ensures
        ok == is_sound_boc(bytes@),
{
    let len = bytes.len();
    if len < 6 || bytes[0] != 0xb5 || bytes[1] != 0xee || bytes[2] != 0x9c || bytes[3] != 0x72 {
        return false;
    }
    let width: usize = (bytes[4] % 8) as usize;
    let offset_width: usize = bytes[5] as usize;
    let roots_at: usize = 6 + 3 * width + offset_width;
    if width > MAX_INDEX_WIDTH || roots_at > len {
        return false;
    }
    let indexed = bytes[4] >= 128;
    let cells = read_number(bytes, 6, width);
    let roots = read_number(bytes, 6 + width, width);
    if roots > cells {
        return false;
    }
    let index_at = match skip(roots_at, roots as usize, width, len) {
        Some(index_at) => index_at,
        None => {
            return false;
        },
    };
    if !check_indices(bytes, roots_at, roots as usize, width, cells) {
        return false;
    }
    let offsets: usize = if indexed { cells as usize } else { 0 };
    let cells_at = match skip(index_at, offsets, offset_width, len) {
        Some(cells_at) => cells_at,
        None => {
            return false;
        },
    };
    match read_table(bytes, cells_at, cells as usize, width) {
        Some(table) => check_depths(&table),
        None => false,
    }
}

} // verus!
