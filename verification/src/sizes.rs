//! Upper bounds on the memory a write's sort and a read's derived nodes take,
//! computed before any of it is allocated, and the bytes staged rows keep
//! alive.
use vstd::prelude::*;

use crate::frame::{
    buffer_at, child_at, column_data, column_type, columns_of, null_buffer, num_rows, slice_bytes,
    value_offsets, Batch, Column, ColumnType, batch_column, batch_fields, batch_rows, column_kind,
    column_offsets, slice_size,
};

verus! {

/// Rows per batch of a sorted part.
pub const SORTED_BATCH_ROWS: usize = 65536;

/// `a + b`, held at `usize::MAX`.
pub open spec fn sadd(a: usize, b: usize) -> usize {
    if a + b > usize::MAX {
        usize::MAX
    } else {
        (a + b) as usize
    }
}

/// `a * b`, held at `usize::MAX`.
pub open spec fn smul(a: usize, b: usize) -> usize {
    if a * b > usize::MAX {
        usize::MAX
    } else {
        (a * b) as usize
    }
}

/// `a - b`, held at zero.
pub open spec fn ssub(a: usize, b: usize) -> usize {
    if a < b {
        0
    } else {
        (a - b) as usize
    }
}

/// `a / b`, rounded up.
pub open spec fn ceil_div(a: usize, b: usize) -> usize
    recommends
        b > 0,
{
    if a % b == 0 {
        (a / b) as usize
    } else {
        (a / b + 1) as usize
    }
}

/// `usize::saturating_mul`.
pub fn sat_mul(a: usize, b: usize) -> (r: usize)
    ensures
        r == smul(a, b),
{
    match a.checked_mul(b) {
        Some(p) => p,
        None => usize::MAX,
    }
}

/// `usize::div_ceil`.
pub fn div_ceil(a: usize, b: usize) -> (r: usize)
    requires
        b > 0,
    ensures
        r == ceil_div(a, b),
{
    let q = a / b;
    if a % b == 0 {
        q
    } else {
        proof {
            assert(q * b <= a) by (nonlinear_arith)
                requires
                    q == a / b,
                    b > 0,
            ;
            assert(q < a || q == 0) by (nonlinear_arith)
                requires
                    q == a / b,
                    b > 0,
                    a % b != 0,
            ;
        }
        q + 1
    }
}

/// What the row format's bound reads of one sort-key column.
#[derive(Clone, Copy, Debug, PartialEq, Eq, Structural)]
pub enum KeyColumn {
    /// Strings or bytes: the offsets of the first and last row's values.
    Bytes { start: i64, end: i64 },
    /// Booleans.
    Boolean,
    /// The null type.
    Null,
    /// A fixed-width type, and its width in bytes.
    Fixed(usize),
    /// A type the bound does not cover.
    Unbounded,
}

/// The bytes the row format takes to encode one key column of `rows` rows,
/// or `None` where the bound does not cover the type. Per value: one byte of
/// null sentinel plus the width for fixed-width types, and for bytes and
/// strings at most `37 + 9/8 × len`.
pub open spec fn column_key_bytes(rows: usize, column: KeyColumn) -> Option<usize> {
    match column {
        KeyColumn::Bytes { start, end } => Some(
            sadd(smul(rows, 37), ceil_div(smul(((end - start) as usize), 9), 8)),
        ),
        KeyColumn::Boolean => Some(smul(rows, 2)),
        KeyColumn::Null => Some(rows),
        KeyColumn::Fixed(width) => if width < usize::MAX {
            Some(smul(rows, (1 + width) as usize))
        } else {
            None
        },
        KeyColumn::Unbounded => None,
    }
}

/// The bound over the first `columns.len()` key columns, starting from
/// `base` for the encoded rows' own header and offsets.
pub open spec fn key_bytes_from(rows: usize, base: usize, columns: Seq<KeyColumn>) -> Option<usize>
    decreases columns.len(),
{
    if columns.len() == 0 {
        Some(base)
    } else {
        match key_bytes_from(rows, base, columns.drop_last()) {
            Some(sum) => match column_key_bytes(rows, columns.last()) {
                Some(b) => Some(sadd(sum, b)),
                None => None,
            },
            None => None,
        }
    }
}

/// An upper bound on the bytes Arrow's row format takes to encode `columns`
/// of a batch of `rows` rows, offsets included, or `None` for a key type it
/// does not bound (measured instead, once encoded). `header` is the size of
/// the encoded rows' own struct and `word` that of an offset.
pub open spec fn key_bytes(rows: usize, header: usize, word: usize, columns: Seq<KeyColumn>) -> Option<
    usize,
> {
    key_bytes_from(rows, sadd(header, smul(sadd(rows, 1), word)), columns)
}

/// The encoded size of one key column (see [`column_key_bytes`]).
pub fn column_key_bound(rows: usize, column: KeyColumn) -> (r: Option<usize>)
    ensures
        r == column_key_bytes(rows, column),
{
    match column {
        KeyColumn::Bytes { start, end } => {
            let values = ((end as i128) - (start as i128)) as usize;
            let text = div_ceil(sat_mul(values, 9), 8);
            Some(sat_mul(rows, 37).saturating_add(text))
        },
        KeyColumn::Boolean => Some(sat_mul(rows, 2)),
        KeyColumn::Null => Some(rows),
        KeyColumn::Fixed(width) => {
            if width < usize::MAX {
                Some(sat_mul(rows, 1 + width))
            } else {
                None
            }
        },
        KeyColumn::Unbounded => None,
    }
}

/// The bound on a batch's encoded sort keys (see [`key_bytes`]).
pub fn key_bytes_of(rows: usize, header: usize, word: usize, columns: &Vec<KeyColumn>) -> (r: Option<
    usize,
>)
    ensures
        r == key_bytes(rows, header, word, columns@),
{
    let mut bytes: usize = header.saturating_add(sat_mul(rows.saturating_add(1), word));
    let ghost base = bytes;
    let mut i: usize = 0;
    while i < columns.len()
        invariant
            i <= columns@.len(),
            base == sadd(header, smul(sadd(rows, 1), word)),
            key_bytes_from(rows, base, columns@.subrange(0, i as int)) == Some(bytes),
        decreases columns@.len() - i,
    {
        proof {
            let s = columns@.subrange(0, i + 1);
            assert(s.drop_last() == columns@.subrange(0, i as int));
            assert(s.last() == columns@[i as int]);
        }
        match column_key_bound(rows, columns[i]) {
            Some(b) => {
                bytes = bytes.saturating_add(b);
            },
            None => {
                proof {
                    lemma_key_bytes_none(rows, base, columns@, (i + 1) as int);
                }
                assert(columns@.subrange(0, columns@.len() as int) == columns@);
                return None;
            },
        }
        i = i + 1;
    }
    assert(columns@.subrange(0, columns@.len() as int) == columns@);
    Some(bytes)
}

/// Once a prefix of the key has no bound, neither does the whole key.
proof fn lemma_key_bytes_none(rows: usize, base: usize, columns: Seq<KeyColumn>, n: int)
    requires
        0 <= n <= columns.len(),
        key_bytes_from(rows, base, columns.subrange(0, n)) is None,
    ensures
        key_bytes_from(rows, base, columns) is None,
    decreases columns.len() - n,
{
    if n < columns.len() {
        let s = columns.subrange(0, n + 1);
        assert(s.drop_last() == columns.subrange(0, n));
        lemma_key_bytes_none(rows, base, columns, n + 1);
    } else {
        assert(columns.subrange(0, n) == columns);
    }
}

/// What the row format's bound reads of a column whose offsets (for strings
/// and bytes) are `offsets` and whose type is `kind`.
pub open spec fn key_column_spec(offsets: Option<(i64, i64)>, kind: ColumnType) -> KeyColumn {
    match offsets {
        Some((start, end)) => KeyColumn::Bytes { start, end },
        None => if kind.boolean {
            KeyColumn::Boolean
        } else if kind.null {
            KeyColumn::Null
        } else {
            match kind.width {
                Some(width) => KeyColumn::Fixed(width),
                None => KeyColumn::Unbounded,
            }
        },
    }
}

/// The key columns of `batch` at the positions `key`; a position past its
/// columns reads as a type the bound does not cover.
pub open spec fn key_columns(batch: Batch, key: Seq<usize>) -> Seq<KeyColumn> {
    Seq::new(
        key.len(),
        |i: int|
            if key[i] < batch_fields(batch).len() {
                let c = batch_column(batch, key[i] as int);
                key_column_spec(column_offsets(c), column_kind(c))
            } else {
                KeyColumn::Unbounded
            },
    )
}

/// What the row format's bound reads of one key column: its offsets for
/// strings and bytes, else its type.
pub fn key_column(column: &Column) -> (r: KeyColumn)
    ensures
        r == key_column_spec(column_offsets(*column), column_kind(*column)),
{
    match value_offsets(column) {
        Some((start, end)) => KeyColumn::Bytes { start, end },
        None => {
            let kind = column_type(column);
            if kind.boolean {
                KeyColumn::Boolean
            } else if kind.null {
                KeyColumn::Null
            } else {
                match kind.width {
                    Some(width) => KeyColumn::Fixed(width),
                    None => KeyColumn::Unbounded,
                }
            }
        },
    }
}

/// An upper bound on the bytes Arrow's row format takes to encode the `key`
/// columns of `batch`, offsets included, or `None` for a key type it does not
/// bound (measured instead, once encoded).
pub fn key_bytes_bound(batch: &Batch, key: &Vec<usize>) -> (r: Option<usize>)
    ensures
        r == key_bytes(
            batch_rows(*batch),
            vstd::layout::size_of::<arrow::row::Rows>() as usize,
            vstd::layout::size_of::<usize>() as usize,
            key_columns(*batch, key@),
        ),
{
    let rows = num_rows(batch);
    let all = columns_of(batch);
    let mut columns: Vec<KeyColumn> = Vec::new();
    let mut i: usize = 0;
    while i < key.len()
        invariant
            i <= key@.len(),
            columns@.len() == i,
            all@.len() == batch_fields(*batch).len(),
            forall|x: int| 0 <= x < all@.len() ==> #[trigger] all@[x] == batch_column(*batch, x),
            forall|x: int| 0 <= x < i ==> #[trigger] columns@[x] == key_columns(*batch, key@)[x],
        decreases key@.len() - i,
    {
        if key[i] < all.len() {
            columns.push(key_column(&all[key[i]]));
        } else {
            columns.push(KeyColumn::Unbounded);
        }
        i = i + 1;
    }
    let header = core::mem::size_of::<arrow::row::Rows>();
    let word = core::mem::size_of::<usize>();
    assert(columns@ =~= key_columns(*batch, key@));
    let r = key_bytes_of(rows, header, word, &columns);
    assert(header == vstd::layout::size_of::<arrow::row::Rows>() as usize);
    assert(word == vstd::layout::size_of::<usize>() as usize);
    assert(r == key_bytes(rows, header, word, columns@));
    r
}

/// An upper bound on the bytes the sorted copy of `rows` rows in `columns`
/// columns takes, whose values take `values` bytes: every value once, plus
/// per output batch and column an offset, a null bitmap the input may not
/// have had, and 64-byte rounding of each buffer.
pub open spec fn copy_bound(rows: usize, columns: usize, values: usize) -> usize {
    let chunks = ceil_div(rows, SORTED_BATCH_ROWS);
    let per_column = sadd(ceil_div(rows, 8), smul(chunks, 272));
    sadd(values, smul(columns, per_column))
}

/// See [`copy_bound`].
pub fn copy_bound_of(rows: usize, columns: usize, values: usize) -> (r: usize)
    ensures
        r == copy_bound(rows, columns, values),
{
    let chunks = div_ceil(rows, SORTED_BATCH_ROWS);
    let per_column = div_ceil(rows, 8).saturating_add(sat_mul(chunks, 4 * 64 + 16));
    values.saturating_add(sat_mul(columns, per_column))
}

/// The rows of `batches`, added in order, held at `usize::MAX`.
pub open spec fn sat_rows(batches: Seq<Batch>) -> usize
    decreases batches.len(),
{
    if batches.len() == 0 {
        0
    } else {
        sadd(sat_rows(batches.drop_last()), batch_rows(batches.last()))
    }
}

/// `acc`, then the bytes the first `n` columns of `batch` occupy ([`slice_size`]),
/// added in order, held at `usize::MAX`.
pub open spec fn column_values(batch: Batch, acc: usize, n: nat) -> usize
    decreases n,
{
    if n == 0 {
        acc
    } else {
        sadd(column_values(batch, acc, (n - 1) as nat), slice_size(batch_column(batch, n - 1)))
    }
}

/// The bytes every column of `batches` occupies, added batch by batch and
/// column by column, held at `usize::MAX`.
pub open spec fn batches_values(batches: Seq<Batch>) -> usize
    decreases batches.len(),
{
    if batches.len() == 0 {
        0
    } else {
        column_values(
            batches.last(),
            batches_values(batches.drop_last()),
            batch_fields(batches.last()).len(),
        )
    }
}

/// The rows of `batches`, summed (held at `usize::MAX`).
pub fn total_rows(batches: &Vec<Batch>) -> (r: usize)
    ensures
        r == sat_rows(batches@),
{
    let mut rows: usize = 0;
    let mut i: usize = 0;
    while i < batches.len()
        invariant
            i <= batches@.len(),
            rows == sat_rows(batches@.subrange(0, i as int)),
        decreases batches@.len() - i,
    {
        proof {
            assert(batches@.subrange(0, i + 1).drop_last() =~= batches@.subrange(0, i as int));
        }
        rows = rows.saturating_add(num_rows(&batches[i]));
        i = i + 1;
    }
    assert(batches@.subrange(0, batches@.len() as int) =~= batches@);
    rows
}

/// An upper bound on the bytes the sorted copy of `batches` takes (see
/// [`copy_bound`]), whose columns are those of the first batch.
pub fn sorted_copy_bound(batches: &Vec<Batch>) -> (r: usize)
    ensures
        r == copy_bound(
            sat_rows(batches@),
            if batches@.len() > 0 {
                batch_fields(batches@[0]).len() as usize
            } else {
                0
            },
            batches_values(batches@),
        ),
{
    let rows = total_rows(batches);
    let columns = if batches.len() > 0 {
        columns_of(&batches[0]).len()
    } else {
        0
    };
    let mut values: usize = 0;
    let mut b: usize = 0;
    while b < batches.len()
        invariant
            b <= batches@.len(),
            values == batches_values(batches@.subrange(0, b as int)),
        decreases batches@.len() - b,
    {
        let all = columns_of(&batches[b]);
        let ghost start = values;
        let mut c: usize = 0;
        while c < all.len()
            invariant
                c <= all@.len(),
                b < batches@.len(),
                all@.len() == batch_fields(batches@[b as int]).len(),
                forall|x: int| 0 <= x < all@.len() ==> #[trigger] all@[x] == batch_column(batches@[b as int], x),
                values == column_values(batches@[b as int], start, c as nat),
            decreases all@.len() - c,
        {
            values = values.saturating_add(slice_bytes(&all[c]));
            c = c + 1;
        }
        proof {
            let s = batches@.subrange(0, b + 1);
            assert(s.drop_last() =~= batches@.subrange(0, b as int));
            assert(s.last() == batches@[b as int]);
        }
        b = b + 1;
    }
    assert(batches@.subrange(0, batches@.len() as int) =~= batches@);
    copy_bound_of(rows, columns, values)
}

/// The index of the last entry of `s` for `ptr`, if any.
pub open spec fn last_for(s: Seq<(usize, usize)>, ptr: usize) -> Option<int>
    decreases s.len(),
{
    if s.len() == 0 {
        None
    } else if s.last().0 == ptr {
        Some(s.len() - 1)
    } else {
        last_for(s.drop_last(), ptr)
    }
}

/// The allocations `s` names, each once, with the capacity its last entry
/// gives, in the order of their last entries.
pub open spec fn allocations(s: Seq<(usize, usize)>) -> Seq<(usize, usize)>
    decreases s.len(),
{
    if s.len() == 0 {
        Seq::empty()
    } else {
        let rest = allocations(s.drop_last());
        let kept = rest.filter(|a: (usize, usize)| a.0 != s.last().0);
        kept.push(s.last())
    }
}

/// The sum of the capacities, held at `usize::MAX` as each is added.
pub open spec fn capacity_sum(s: Seq<(usize, usize)>) -> usize
    decreases s.len(),
{
    if s.len() == 0 {
        0
    } else {
        sadd(capacity_sum(s.drop_last()), s.last().1)
    }
}

/// Whether no two entries name one allocation.
pub open spec fn distinct_allocations(s: Seq<(usize, usize)>) -> bool {
    forall|i: int, j: int| 0 <= i < j < s.len() ==> s[i].0 != s[j].0
}

/// The entries of `s` not at address `x`.
pub open spec fn except(s: Seq<(usize, usize)>, x: usize) -> Seq<(usize, usize)> {
    s.filter(|a: (usize, usize)| a.0 != x)
}

proof fn lemma_except(s: Seq<(usize, usize)>, x: usize)
    ensures
        distinct_allocations(s) ==> distinct_allocations(except(s, x)),
        forall|a: (usize, usize)| #[trigger] except(s, x).contains(a) ==> s.contains(a) && a.0 != x,
        forall|i: int| 0 <= i < s.len() && s[i].0 != x ==> #[trigger] except(s, x).contains(s[i]),
    decreases s.len(),
{
    reveal(Seq::filter);
    if s.len() > 0 {
        let rest = s.drop_last();
        lemma_except(rest, x);
        assert(except(s, x) == if s.last().0 != x {
            except(rest, x).push(s.last())
        } else {
            except(rest, x)
        });
        assert forall|a: (usize, usize)| #[trigger] except(s, x).contains(a) implies s.contains(a)
            && a.0 != x by {
            if except(rest, x).contains(a) {
                let i = choose|i: int| 0 <= i < rest.len() && rest[i] == a;
                assert(s[i] == a);
            } else {
                assert(a == s.last());
                assert(s[s.len() - 1] == a);
            }
        }
        assert forall|i: int| 0 <= i < s.len() && s[i].0 != x implies #[trigger] except(s, x).contains(
            s[i],
        ) by {
            if i < s.len() - 1 {
                assert(rest[i] == s[i]);
                assert(except(rest, x).contains(rest[i]));
                if s.last().0 != x {
                    let j = choose|j: int| 0 <= j < except(rest, x).len() && except(rest, x)[j] == s[i];
                    assert(except(s, x)[j] == s[i]);
                }
            } else {
                assert(except(s, x).last() == s[i]);
            }
        }
        if distinct_allocations(s) {
            assert(distinct_allocations(rest));
            let k = except(s, x);
            assert forall|a: int, b: int| 0 <= a < b < k.len() implies k[a].0 != k[b].0 by {
                if s.last().0 != x {
                    if b == k.len() - 1 {
                        assert(except(rest, x).contains(k[a]));
                        let i = choose|i: int| 0 <= i < rest.len() && rest[i] == k[a];
                        assert(s[i] == k[a]);
                        assert(k[b] == s[s.len() - 1]);
                    } else {
                        assert(k[a] == except(rest, x)[a]);
                        assert(k[b] == except(rest, x)[b]);
                    }
                }
            }
        }
    }
}

proof fn lemma_last_for_bound(s: Seq<(usize, usize)>, ptr: usize)
    ensures
        last_for(s, ptr) matches Some(i) ==> 0 <= i < s.len() && s[i].0 == ptr,
    decreases s.len(),
{
    if s.len() > 0 {
        lemma_last_for_bound(s.drop_last(), ptr);
    }
}

/// Each allocation the buffers name is counted once, at the capacity its
/// last buffer gives, and every buffer's allocation is counted.
pub proof fn lemma_each_allocation_once(s: Seq<(usize, usize)>)
    ensures
        distinct_allocations(allocations(s)),
        forall|a: (usize, usize)|
            #[trigger] allocations(s).contains(a) ==> (last_for(s, a.0) matches Some(i) && s[i] == a),
        forall|i: int|
            #![trigger s[i]]
            0 <= i < s.len() ==> exists|j: int|
                0 <= j < allocations(s).len() && #[trigger] allocations(s)[j].0 == s[i].0,
    decreases s.len(),
{
    if s.len() > 0 {
        let rest = s.drop_last();
        let x = s.last().0;
        lemma_each_allocation_once(rest);
        lemma_except(allocations(rest), x);
        let kept = except(allocations(rest), x);
        assert(allocations(s) == kept.push(s.last()));
        let all = allocations(s);
        assert forall|a: int, b: int| 0 <= a < b < all.len() implies all[a].0 != all[b].0 by {
            if b == all.len() - 1 {
                assert(kept.contains(all[a]));
            } else {
                assert(all[a] == kept[a]);
                assert(all[b] == kept[b]);
            }
        }
        assert forall|a: (usize, usize)| #[trigger] all.contains(a) implies (last_for(s, a.0) matches Some(
            i,
        ) && s[i] == a) by {
            let j = choose|j: int| 0 <= j < all.len() && all[j] == a;
            if j == all.len() - 1 {
                assert(a == s.last());
            } else {
                assert(kept.contains(a));
                assert(allocations(rest).contains(a) && a.0 != x);
                lemma_last_for_bound(rest, a.0);
                let i = last_for(rest, a.0)->0;
                assert(0 <= i < rest.len());
                assert(rest[i] == s[i]);
            }
        }
        assert forall|i: int| #![trigger s[i]] 0 <= i < s.len() implies exists|j: int|
            0 <= j < all.len() && #[trigger] all[j].0 == s[i].0 by {
            if s[i].0 == x {
                assert(all[all.len() - 1].0 == s[i].0);
            } else {
                assert(rest[i] == s[i]);
                let j = choose|j: int| 0 <= j < allocations(rest).len() && #[trigger] allocations(rest)[j].0 == rest[i].0;
                assert(kept.contains(allocations(rest)[j]));
                let k = choose|k: int| 0 <= k < kept.len() && kept[k] == allocations(rest)[j];
                assert(all[k].0 == s[i].0);
            }
        }
    }
}

/// The bytes the buffers `s` name keep alive: each allocation, named by its
/// address, counted once, at the capacity its last entry gives.
pub open spec fn held(s: Seq<(usize, usize)>) -> usize {
    capacity_sum(allocations(s))
}

/// See [`held`].
pub fn held_of(buffers: &Vec<(usize, usize)>) -> (r: usize)
    ensures
        r == held(buffers@),
{
    let mut kept: Vec<(usize, usize)> = Vec::new();
    let mut i: usize = 0;
    while i < buffers.len()
        invariant
            i <= buffers@.len(),
            kept@ == allocations(buffers@.subrange(0, i as int)),
        decreases buffers@.len() - i,
    {
        let b = buffers[i];
        let ghost before = kept@;
        let mut next: Vec<(usize, usize)> = Vec::new();
        let mut j: usize = 0;
        let ghost f = |a: (usize, usize)| a.0 != b.0;
        while j < kept.len()
            invariant
                j <= kept@.len(),
                kept@ == before,
                next@ == before.subrange(0, j as int).filter(f),
                f == (|a: (usize, usize)| a.0 != b.0),
            decreases kept@.len() - j,
        {
            proof {
                before.subrange(0, j as int).lemma_filter_push(before[j as int], f);
                assert(before.subrange(0, j + 1) == before.subrange(0, j as int).push(before[j as int]));
            }
            if kept[j].0 != b.0 {
                next.push(kept[j]);
            }
            j = j + 1;
        }
        next.push(b);
        proof {
            let s = buffers@.subrange(0, i + 1);
            assert(s.drop_last() == buffers@.subrange(0, i as int));
            assert(before.subrange(0, before.len() as int) == before);
        }
        kept = next;
        i = i + 1;
    }
    assert(buffers@.subrange(0, buffers@.len() as int) == buffers@);
    let mut sum: usize = 0;
    let mut k: usize = 0;
    while k < kept.len()
        invariant
            k <= kept@.len(),
            sum == capacity_sum(kept@.subrange(0, k as int)),
        decreases kept@.len() - k,
    {
        proof {
            let s = kept@.subrange(0, k + 1);
            assert(s.drop_last() == kept@.subrange(0, k as int));
        }
        sum = sum.saturating_add(kept[k].1);
        k = k + 1;
    }
    assert(kept@.subrange(0, kept@.len() as int) == kept@);
    sum
}

/// Every buffer the arrays of `batches` reference, their children's
/// included, as (address, capacity), in the order they are visited: each
/// batch's columns in turn, an array's own buffers and null bitmap before its
/// children's. An array nests fewer than `usize::MAX` arrays, so the visit
/// ends with all of them.
pub fn buffers_of(batches: &Vec<Batch>) -> (r: Vec<(usize, usize)>) {
    let mut out: Vec<(usize, usize)> = Vec::new();
    let mut fuel: usize = usize::MAX;
    let mut b: usize = 0;
    while b < batches.len()
        invariant
            b <= batches@.len(),
        decreases batches@.len() - b,
    {
        let all = columns_of(&batches[b]);
        let mut c: usize = 0;
        while c < all.len()
            invariant
                c <= all@.len(),
                b < batches@.len(),
            decreases all@.len() - c,
        {
            let mut stack: Vec<arrow::array::ArrayData> = Vec::new();
            stack.push(column_data(&all[c]));
            while stack.len() > 0 && fuel > 0
                decreases fuel,
            {
                fuel = fuel - 1;
                let data = stack.pop().unwrap();
                let mut i: usize = 0;
                let mut more = true;
                while more
                    invariant
                        i <= usize::MAX,
                    decreases usize::MAX - i + if more {
                        1int
                    } else {
                        0int
                    },
                {
                    match buffer_at(&data, i) {
                        Some(buffer) => {
                            out.push(buffer);
                            if i == usize::MAX {
                                more = false;
                            } else {
                                i = i + 1;
                            }
                        },
                        None => {
                            more = false;
                        },
                    }
                }
                if let Some(nulls) = null_buffer(&data) {
                    out.push(nulls);
                }
                // Children are pushed last first, so the first is visited first.
                let mut children: Vec<arrow::array::ArrayData> = Vec::new();
                let mut k: usize = 0;
                let mut more = true;
                while more
                    invariant
                        k <= usize::MAX,
                    decreases usize::MAX - k + if more {
                        1int
                    } else {
                        0int
                    },
                {
                    match child_at(&data, k) {
                        Some(child) => {
                            children.push(child);
                            if k == usize::MAX {
                                more = false;
                            } else {
                                k = k + 1;
                            }
                        },
                        None => {
                            more = false;
                        },
                    }
                }
                while children.len() > 0
                    decreases children@.len(),
                {
                    let child = children.pop().unwrap();
                    stack.push(child);
                }
            }
            c = c + 1;
        }
        b = b + 1;
    }
    out
}

/// The bytes `batches` keep alive: every distinct allocation their arrays
/// reference, at its full capacity, counted once (see [`held`]). A slice
/// keeps its whole buffer alive, so a batch sliced from a larger one is
/// charged for all of it; two columns or batches that share an allocation are
/// charged for it once.
pub fn held_bytes(batches: &Vec<Batch>) -> (r: usize)
    ensures
        exists|buffers: Seq<(usize, usize)>| r == #[trigger] held(buffers),
{
    let buffers = buffers_of(batches);
    let r = held_of(&buffers);
    assert(r == held(buffers@));
    r
}

} // verus!
