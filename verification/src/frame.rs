//! The Arrow side of the library: batches, columns and fields as Verus holds
//! them, and the calls into Arrow that read or build them. Each function here
//! is one Arrow call, with what converts its arguments and result.
use vstd::prelude::*;

use arrow::array::{Array, AsArray};

use crate::text::{present_texts, texts_len, utf8_len, TEXT_COLUMN_BYTES};

verus! {

/// A batch of rows in Arrow's columnar layout. Verus does not read inside
/// one: it is handed to Arrow whole, and what the logic reads of it comes back
/// through the functions below. Callers wrap and unwrap the Arrow batch
/// through its field.
#[verifier::external_body]
pub struct Batch {
    pub inner: arrow::record_batch::RecordBatch,
}

/// One column of a batch, in Arrow's columnar layout, opaque as a batch is.
#[verifier::external_body]
pub struct Column {
    pub(crate) inner: arrow::array::ArrayRef,
}

/// One field of a schema: a column's name, type and nullability, opaque; the
/// logic reads its name and nullability through [`field_info`].
#[verifier::external_body]
pub struct FieldDef {
    pub inner: arrow::datatypes::Field,
}

/// Arrow's row format for a batch's sort keys, opaque.
#[verifier::external_body]
pub struct Encoded {
    inner: arrow::row::Rows,
}

/// Arrow's converter of sort-key columns into its row format, opaque.
#[verifier::external_body]
pub struct Converter {
    inner: arrow::row::RowConverter,
}

#[verifier::external_type_specification]
#[verifier::external_body]
pub struct ExRows(arrow::row::Rows);

#[verifier::external_type_specification]
#[verifier::external_body]
pub struct ExArrayData(arrow::array::ArrayData);

/// What the logic reads of a field: its name and whether it may hold nulls.
#[derive(Clone, Debug)]
pub struct FieldInfo {
    pub name: String,
    pub nullable: bool,
}

/// What the logic reads of a column's type.
#[derive(Clone, Copy, Debug, PartialEq, Eq, Structural)]
pub struct ColumnType {
    /// `DataType::is_integer`.
    pub integer: bool,
    /// `DataType::is_numeric`.
    pub numeric: bool,
    /// `Utf8` or `LargeUtf8`.
    pub text: bool,
    /// `FixedSizeList`.
    pub fixed_list: bool,
    /// `Boolean`.
    pub boolean: bool,
    /// `Null`.
    pub null: bool,
    /// `DataType::primitive_width`.
    pub width: Option<usize>,
}

/// The rows of a batch (`RecordBatch::num_rows`).
pub uninterp spec fn batch_rows(batch: Batch) -> usize;

/// The names of a batch's schema's fields, in order.
pub uninterp spec fn batch_fields(batch: Batch) -> Seq<Seq<char>>;

/// The length of a column (`Array::len`).
pub uninterp spec fn column_len(column: Column) -> usize;

/// The column of a batch under a name: that of the first field so named
/// (`RecordBatch::column_by_name`).
pub uninterp spec fn named_column(batch: Batch, name: Seq<char>) -> Option<Column>;

/// The values of a Utf8 column, a null as `None`; `None` for a column of any
/// other type (`StringArray`'s values, through `as_any().downcast_ref`).
pub uninterp spec fn column_texts(column: Column) -> Option<Seq<Option<Seq<char>>>>;

/// The values of an Int64 column, a null as `None`; `None` for a column of
/// any other type (`Int64Array`'s values, through `as_any().downcast_ref`).
pub uninterp spec fn column_ints(column: Column) -> Option<Seq<Option<i64>>>;

/// The values of a Boolean column, a null as `None`; `None` for a column of
/// any other type.
pub uninterp spec fn column_bools(column: Column) -> Option<Seq<Option<bool>>>;

/// The nulls a column holds (`Array::logical_null_count`).
pub uninterp spec fn column_nulls(column: Column) -> usize;

/// Whether two batches' schemas have equal fields (`Fields`'s `==`).
pub uninterp spec fn schemas_equal(a: Batch, b: Batch) -> bool;

/// Whether a field's data type is Utf8 and it admits nulls.
pub uninterp spec fn utf8_field(field: FieldDef) -> bool;

/// Whether a column's data type is Utf8.
pub uninterp spec fn utf8_column(column: Column) -> bool;

/// The rows of an encoding (`Rows::num_rows`).
pub uninterp spec fn encoded_rows(rows: Encoded) -> usize;

/// The columns an encoding was made from, in order.
pub uninterp spec fn encoded_columns(rows: Encoded) -> Seq<Column>;

/// The converter an encoding was made by.
pub uninterp spec fn converter_of(rows: Encoded) -> Converter;

/// Whether, among the encodings `rows` made by `converter`, the row at the
/// (batch, row) position `a` sorts no later than the row at `b` (`Row`'s
/// `Ord`: the encoded key columns in turn, ascending, nulls last, as the
/// converter's sort fields say).
pub uninterp spec fn rows_le(converter: Converter, rows: Seq<Encoded>, a: (usize, usize), b: (usize, usize)) -> bool;

/// The column `arrow::compute::interleave` makes of column `column` of each
/// of `batches`, at the (batch, row) positions `chunk`.
pub uninterp spec fn gathered(batches: Seq<Batch>, column: int, chunk: Seq<(usize, usize)>) -> Column;

/// Whether the (batch, row) position `p` names a row of `rows`.
pub open spec fn names_row(rows: Seq<Encoded>, p: (usize, usize)) -> bool {
    p.0 < rows.len() && p.1 < encoded_rows(rows[p.0 as int])
}

/// The column at position `i` of a batch (`RecordBatch::column`).
pub uninterp spec fn batch_column(batch: Batch, i: int) -> Column;

/// What the logic reads of a column's data type (see [`ColumnType`]).
pub uninterp spec fn column_kind(column: Column) -> ColumnType;

/// For a column of strings or bytes, the offsets of its first value and of
/// the end of its last (see [`value_offsets`]); `None` for any other type.
pub uninterp spec fn column_offsets(column: Column) -> Option<(i64, i64)>;

/// The bytes a column's own rows occupy (see [`slice_bytes`]).
pub uninterp spec fn slice_size(column: Column) -> usize;

/// The bytes of the buffers a column references
/// (`Array::get_buffer_memory_size`).
pub uninterp spec fn buffer_size(column: Column) -> usize;

/// Whether two fields have one data type.
pub uninterp spec fn types_match(a: FieldDef, b: FieldDef) -> bool;

/// A field's data type as `DataType`'s `Display` writes it.
pub uninterp spec fn data_type_text(field: FieldDef) -> Seq<char>;

/// The fields of a batch's schema, in order.
pub uninterp spec fn batch_defs(batch: Batch) -> Seq<FieldDef>;

/// Whether a field admits nulls (`Field::is_nullable`).
pub uninterp spec fn field_nullable(field: FieldDef) -> bool;

/// A field's metadata (`Field::metadata`).
pub uninterp spec fn field_metadata(field: FieldDef) -> Map<Seq<char>, Seq<char>>;

/// Whether Arrow's row format sorts a field's type.
pub uninterp spec fn field_sortable(field: FieldDef) -> bool;

/// Whether a batch's schema holds exactly `fields`.
pub uninterp spec fn fields_held(batch: Batch, fields: Seq<FieldDef>) -> bool;

/// `Debug` of a list of fields.
pub uninterp spec fn fields_shown(fields: Seq<FieldDef>) -> Seq<char>;

/// `Debug` of a text: quoted, its quotes and control characters escaped.
pub uninterp spec fn quoted(text: Seq<char>) -> Seq<char>;

/// A text as its characters, a missing one as `None`.
pub open spec fn opt_chars(o: Option<String>) -> Option<Seq<char>> {
    match o {
        Some(s) => Some(s@),
        None => None,
    }
}

/// Each count is the rows of the batch at its position.
pub open spec fn rows_match(batches: Seq<Batch>, counts: Seq<usize>) -> bool {
    forall|i: int| 0 <= i < counts.len() && i < batches.len() ==> #[trigger] batch_rows(batches[i]) == counts[i]
}

/// The names of `fields`, in order.
pub open spec fn field_names(fields: Seq<FieldDef>) -> Seq<Seq<char>> {
    fields.map_values(|f: FieldDef| field_name(f))
}

/// `RecordBatch::num_rows`.
#[verifier::external_body]
pub(crate) fn num_rows(batch: &Batch) -> (r: usize)
    ensures
        r == batch_rows(*batch),
{
    batch.inner.num_rows()
}

/// `RecordBatch::num_columns`: one per field of its schema.
#[verifier::external_body]
pub(crate) fn num_columns(batch: &Batch) -> (r: usize)
    ensures
        r == batch_fields(*batch).len(),
{
    batch.inner.num_columns()
}

/// The fields of `batch`'s schema, in order.
#[verifier::external_body]
pub(crate) fn field_defs(batch: &Batch) -> (r: Vec<FieldDef>)
    ensures
        field_names(r@) == batch_fields(*batch),
        r@ == batch_defs(*batch),
{
    batch.inner.schema().fields().iter().map(|f| FieldDef { inner: f.as_ref().clone() }).collect()
}

/// The columns of `batch`, in order (`RecordBatch::columns`; each shares
/// its buffers): one per field, each of the batch's length, as
/// `RecordBatch::try_new` checks.
#[verifier::external_body]
pub(crate) fn columns_of(batch: &Batch) -> (r: Vec<Column>)
    ensures
        r@.len() == batch_fields(*batch).len(),
        forall|i: int| 0 <= i < r@.len() ==> #[trigger] r@[i] == batch_column(*batch, i),
        forall|i: int| 0 <= i < r@.len() ==> #[trigger] column_len(r@[i]) == batch_rows(*batch),
{
    batch.inner.columns().iter().map(|c| Column { inner: c.clone() }).collect()
}

/// `RecordBatch::column_by_name`: the column of the field named `name`,
/// if the schema has one.
#[verifier::external_body]
pub(crate) fn column_by_name(batch: &Batch, name: &str) -> (r: Option<Column>)
    ensures
        r == named_column(*batch, name@),
        r matches Some(c) ==> column_len(c) == batch_rows(*batch) && batch_fields(
            *batch,
        ).contains(name@),
        r is None <==> !batch_fields(*batch).contains(name@),
{
    batch.inner.column_by_name(name).map(|c| Column { inner: c.clone() })
}

/// The name of a field (`Field::name`).
pub uninterp spec fn field_name(field: FieldDef) -> Seq<char>;

/// A field's name and nullability.
#[verifier::external_body]
pub(crate) fn field_info(field: &FieldDef) -> (r: FieldInfo)
    ensures
        r.name@ == field_name(*field),
        r.nullable == field_nullable(*field),
{
    FieldInfo { name: field.inner.name().clone(), nullable: field.inner.is_nullable() }
}

/// A copy of a field (`Field`'s `Clone`).
#[verifier::external_body]
pub(crate) fn copy_field(field: &FieldDef) -> (r: FieldDef)
    ensures
        r == *field,
        field_name(r) == field_name(*field),
        field_nullable(r) == field_nullable(*field),
{
    FieldDef { inner: field.inner.clone() }
}

/// `Field::with_nullable`, which keeps the name, the data type and the
/// metadata.
#[verifier::external_body]
pub(crate) fn with_nullable(field: &FieldDef, nullable: bool) -> (r: FieldDef)
    ensures
        field_name(r) == field_name(*field),
        field_nullable(r) == nullable,
        data_type_text(r) == data_type_text(*field),
        field_metadata(r) == field_metadata(*field),
{
    FieldDef { inner: field.inner.clone().with_nullable(nullable) }
}

/// `Field::with_name`, which keeps the data type, the nullability and the
/// metadata.
#[verifier::external_body]
pub(crate) fn with_name(field: &FieldDef, name: &str) -> (r: FieldDef)
    ensures
        field_name(r) == name@,
        field_nullable(r) == field_nullable(*field),
        data_type_text(r) == data_type_text(*field),
        field_metadata(r) == field_metadata(*field),
{
    FieldDef { inner: field.inner.clone().with_name(name) }
}

/// Whether two fields have one data type (`DataType`'s `==`).
#[verifier::external_body]
pub(crate) fn same_type(a: &FieldDef, b: &FieldDef) -> (r: bool)
    ensures
        r == types_match(*a, *b),
{
    a.inner.data_type() == b.inner.data_type()
}

/// A field's data type as `DataType`'s `Display` writes it.
#[verifier::external_body]
pub(crate) fn type_text(field: &FieldDef) -> (r: String)
    ensures
        r@ == data_type_text(*field),
{
    field.inner.data_type().to_string()
}

/// Whether two batches' schemas have equal fields (`Fields`'s `==`, which
/// compares each field's name among the rest).
#[verifier::external_body]
pub(crate) fn same_fields(a: &Batch, b: &Batch) -> (r: bool)
    ensures
        r == schemas_equal(*a, *b),
        r ==> batch_fields(*a) == batch_fields(*b),
{
    a.inner.schema().fields() == b.inner.schema().fields()
}

/// A nullable or non-null field named `name` of the type `column` has.
#[verifier::external_body]
pub(crate) fn field_for(name: &str, column: &Column, nullable: bool) -> (r: FieldDef)
    ensures
        field_name(r) == name@,
{
    FieldDef { inner: arrow::datatypes::Field::new(name, column.inner.data_type().clone(), nullable) }
}

/// A Utf8 field named `name`.
#[verifier::external_body]
pub(crate) fn text_field(name: &str, nullable: bool) -> (r: FieldDef)
    ensures
        field_name(r) == name@,
        utf8_field(r) == nullable,
{
    FieldDef { inner: arrow::datatypes::Field::new(name, arrow::datatypes::DataType::Utf8, nullable) }
}

/// A Boolean field named `name`.
#[verifier::external_body]
pub(crate) fn boolean_field(name: &str, nullable: bool) -> (r: FieldDef)
    ensures
        field_name(r) == name@,
{
    FieldDef {
        inner: arrow::datatypes::Field::new(name, arrow::datatypes::DataType::Boolean, nullable),
    }
}

/// `RecordBatch::try_new` on a schema of `fields`; Arrow's message when
/// the columns do not match the fields. A batch made has one column per
/// field, at least one, all of its length. Nullable Utf8 fields over Utf8
/// columns of one length, one column per field and at least one, pass every
/// check `try_new` makes.
#[verifier::external_body]
pub(crate) fn make_batch(fields: Vec<FieldDef>, columns: Vec<Column>) -> (r: Result<Batch, String>)
    ensures
        columns@.len() == fields@.len() && columns@.len() > 0 && (forall|i: int|
            0 <= i < columns@.len() ==> #[trigger] utf8_field(fields@[i]) && utf8_column(columns@[i])
                && column_len(columns@[i]) == column_len(columns@[0])) ==> r is Ok,
        r matches Ok(b) ==> {
            &&& batch_fields(b) == field_names(fields@)
            &&& batch_defs(b) == fields@
            &&& columns@.len() == fields@.len()
            &&& columns@.len() > 0
            &&& forall|i: int| 0 <= i < columns@.len() ==> #[trigger] column_len(columns@[i]) == batch_rows(b)
            &&& forall|i: int| 0 <= i < columns@.len() ==> #[trigger] batch_column(b, i) == columns@[i]
            &&& forall|i: int|
                0 <= i < columns@.len() && (forall|j: int| 0 <= j < i ==> field_name(fields@[j]) != field_name(
                    fields@[i],
                )) ==> #[trigger] named_column(b, field_name(fields@[i])) == Some(columns@[i])
        },
{
    let schema = arrow::datatypes::Schema::new(fields.into_iter().map(|f| f.inner).collect::<Vec<_>>());
    let columns = columns.into_iter().map(|c| c.inner).collect();
    arrow::record_batch::RecordBatch::try_new(std::sync::Arc::new(schema), columns)
        .map(|inner| Batch { inner })
        .map_err(|e| e.to_string())
}

/// A second handle on a batch (`RecordBatch`'s `Clone` shares its columns).
#[verifier::external_body]
pub(crate) fn share_batch(batch: &Batch) -> (r: Batch)
    ensures
        r == *batch,
        batch_rows(r) == batch_rows(*batch),
        batch_fields(r) == batch_fields(*batch),
{
    Batch { inner: batch.inner.clone() }
}

/// What the logic reads of a column's type.
#[verifier::external_body]
pub(crate) fn column_type(column: &Column) -> (r: ColumnType)
    ensures
        r == column_kind(*column),
        utf8_column(*column) ==> r.text,
{
    let kind = column.inner.data_type();
    ColumnType {
        integer: kind.is_integer(),
        numeric: kind.is_numeric(),
        text: matches!(kind, arrow::datatypes::DataType::Utf8 | arrow::datatypes::DataType::LargeUtf8),
        fixed_list: matches!(kind, arrow::datatypes::DataType::FixedSizeList(..)),
        boolean: matches!(kind, arrow::datatypes::DataType::Boolean),
        null: matches!(kind, arrow::datatypes::DataType::Null),
        width: kind.primitive_width(),
    }
}

/// For a column of strings or bytes, the offsets of its first row's values
/// and of the end of its last row's; `None` for any other type.
#[verifier::external_body]
pub(crate) fn value_offsets(column: &Column) -> (r: Option<(i64, i64)>)
    ensures
        r == column_offsets(*column),
{
    let c = &column.inner;
    let n = c.len();
    c.as_string_opt::<i32>().map(|a| (a.value_offsets()[0] as i64, a.value_offsets()[n] as i64))
        .or_else(|| c.as_string_opt::<i64>().map(|a| (a.value_offsets()[0], a.value_offsets()[n])))
        .or_else(|| c.as_binary_opt::<i32>().map(|a| (a.value_offsets()[0] as i64, a.value_offsets()[n] as i64)))
        .or_else(|| c.as_binary_opt::<i64>().map(|a| (a.value_offsets()[0], a.value_offsets()[n])))
}

/// The bytes a column's own rows occupy, not counting whatever else the
/// buffers it slices hold (`ArrayData::get_slice_memory_size`, or
/// `get_buffer_memory_size` where Arrow cannot slice-count the type).
#[verifier::external_body]
pub(crate) fn slice_bytes(column: &Column) -> (r: usize)
    ensures
        r == slice_size(*column),
{
    let data = column.inner.to_data();
    data.get_slice_memory_size().unwrap_or_else(|_| data.get_buffer_memory_size())
}

/// `Array::get_buffer_memory_size`.
#[verifier::external_body]
pub(crate) fn buffer_bytes(column: &Column) -> (r: usize)
    ensures
        r == buffer_size(*column),
{
    column.inner.get_buffer_memory_size()
}

/// `arrow::compute::cast` to Int64.
#[verifier::external_body]
pub(crate) fn cast_int64(column: &Column) -> (r: Result<Column, String>)
    ensures
        r matches Ok(c) ==> column_len(c) == column_len(*column),
{
    arrow::compute::cast(&column.inner, &arrow::datatypes::DataType::Int64).map(|inner| Column { inner }).map_err(|e| e.to_string())
}

/// `arrow::compute::cast` to Float64.
#[verifier::external_body]
pub(crate) fn cast_float64(column: &Column) -> (r: Result<Column, String>)
    ensures
        r matches Ok(c) ==> column_len(c) == column_len(*column),
{
    arrow::compute::cast(&column.inner, &arrow::datatypes::DataType::Float64).map(|inner| Column { inner }).map_err(|e| e.to_string())
}

/// `arrow::compute::cast` to Utf8 of a Utf8 or LargeUtf8 column: the column
/// itself, or its offsets narrowed, refused where they do not fit `i32`.
#[verifier::external_body]
pub(crate) fn cast_utf8(column: &Column) -> (r: Result<Column, String>)
    requires
        column_kind(*column).text,
    ensures
        utf8_column(*column) ==> r is Ok,
        r matches Ok(c) ==> (utf8_column(*column) ==> column_texts(c) == column_texts(*column)),
        r matches Ok(c) ==> utf8_column(c),
        r matches Ok(c) ==> column_len(c) == column_len(*column),
        r matches Ok(c) ==> column_kind(c).text,
{
    arrow::compute::cast(&column.inner, &arrow::datatypes::DataType::Utf8).map(|inner| Column { inner }).map_err(|e| e.to_string())
}

/// `arrow::compute::cast` to LargeUtf8: each value as Arrow displays it.
/// Its offsets are `i64`, so its text cannot overflow them.
#[verifier::external_body]
pub(crate) fn cast_large_utf8(column: &Column) -> (r: Result<Column, String>)
    ensures
        r matches Ok(c) ==> column_len(c) == column_len(*column),
        r matches Ok(c) ==> column_kind(c).text,
{
    arrow::compute::cast(&column.inner, &arrow::datatypes::DataType::LargeUtf8).map(|inner| Column { inner }).map_err(|e| e.to_string())
}

/// `arrow::compute::is_not_null`.
#[verifier::external_body]
pub(crate) fn present(column: &Column) -> (r: Result<Column, String>)
    ensures
        r matches Ok(c) ==> column_len(c) == column_len(*column),
{
    arrow::compute::is_not_null(&column.inner)
        .map(|a| Column { inner: std::sync::Arc::new(a) })
        .map_err(|e| e.to_string())
}

/// A second handle on a column.
#[verifier::external_body]
pub(crate) fn share_column(column: &Column) -> (r: Column)
    ensures
        r == *column,
        column_len(r) == column_len(*column),
        column_kind(r) == column_kind(*column),
        column_texts(r) == column_texts(*column),
        column_ints(r) == column_ints(*column),
        utf8_column(r) == utf8_column(*column),
{
    Column { inner: column.inner.clone() }
}

/// A Utf8 column holding `value` in each of `rows` rows. Its `i32` offsets
/// hold at most `TEXT_COLUMN_BYTES` of text; Arrow panics beyond.
#[verifier::external_body]
pub(crate) fn repeated_text(value: &str, rows: usize) -> (r: Column)
    requires
        utf8_len(value@) * rows <= TEXT_COLUMN_BYTES,
    ensures
        utf8_column(r),
        column_len(r) == rows,
        column_texts(r) == Some(Seq::new(rows as nat, |i: int| Some(value@))),
{
    Column { inner: std::sync::Arc::new(arrow::array::StringArray::from(vec![value; rows])) }
}

/// A Utf8 column of `rows` nulls (`new_null_array`).
#[verifier::external_body]
pub(crate) fn null_text(rows: usize) -> (r: Column)
    ensures
        utf8_column(r),
        column_len(r) == rows,
        column_texts(r) == Some(Seq::new(rows as nat, |i: int| None::<Seq<char>>)),
{
    Column { inner: arrow::array::new_null_array(&arrow::datatypes::DataType::Utf8, rows) }
}

/// A column of `rows` nulls of `field`'s type (`new_null_array`).
#[verifier::external_body]
pub(crate) fn nulls_like(field: &FieldDef, rows: usize) -> (r: Column)
    ensures
        column_len(r) == rows,
        column_nulls(r) == rows,
{
    Column { inner: arrow::array::new_null_array(field.inner.data_type(), rows) }
}

/// A Boolean column of `rows` falses.
#[verifier::external_body]
pub(crate) fn all_false(rows: usize) -> (r: Column)
    ensures
        column_len(r) == rows,
        column_bools(r) == Some(Seq::new(rows as nat, |i: int| Some(false))),
{
    Column { inner: std::sync::Arc::new(arrow::array::BooleanArray::from(vec![false; rows])) }
}

/// The values of a Utf8 column, a null as `None`; `None` for a column of any
/// other type.
#[verifier::external_body]
pub(crate) fn text_values(column: &Column) -> (r: Option<Vec<Option<String>>>)
    ensures
        match r {
            Some(v) => column_texts(*column) == Some(v@.map_values(|o: Option<String>| opt_chars(o))),
            None => column_texts(*column) is None,
        },
{
    column.inner.as_any().downcast_ref::<arrow::array::StringArray>().map(|a| {
        a.iter().map(|v| v.map(String::from)).collect()
    })
}

/// A Utf8 column of `values`, its text buffer sized to them exactly
/// (`StringBuilder::with_capacity`). Its `i32` offsets hold at most
/// `TEXT_COLUMN_BYTES` of text; the builder panics beyond.
#[verifier::external_body]
pub(crate) fn text_column(values: &Vec<String>, text: usize) -> (r: Column)
    requires
        texts_len(values@.map_values(|t: String| t@)) <= TEXT_COLUMN_BYTES,
    ensures
        utf8_column(r),
        column_len(r) == values@.len(),
        column_texts(r) == Some(values@.map_values(|s: String| Some(s@))),
{
    let mut ids = arrow::array::StringBuilder::with_capacity(values.len(), text);
    values.iter().for_each(|v| ids.append_value(v));
    Column { inner: std::sync::Arc::new(ids.finish()) }
}

/// A Utf8 column of `rows` empty strings holding no text buffer.
#[verifier::external_body]
pub(crate) fn empty_text(rows: usize) -> (r: Column)
    ensures
        utf8_column(r),
        column_len(r) == rows,
{
    Column {
        inner: std::sync::Arc::new(arrow::array::StringArray::new(
            arrow::buffer::OffsetBuffer::new_zeroed(rows),
            arrow::buffer::Buffer::from(Vec::<u8>::new()),
            None,
        )),
    }
}

/// Whether Arrow's row format can sort a column of `field`'s type
/// (`RowConverter::supports_fields`).
#[verifier::external_body]
pub(crate) fn sortable(field: &FieldDef) -> (r: bool)
    ensures
        r == field_sortable(*field),
{
    arrow::row::RowConverter::supports_fields(&[arrow::row::SortField::new(field.inner.data_type().clone())])
}

/// `RowConverter::new` over `fields`' types, each ascending, nulls last.
#[verifier::external_body]
pub(crate) fn row_converter(fields: &Vec<FieldDef>) -> Result<Converter, String> {
    let options = arrow::compute::SortOptions { descending: false, nulls_first: false };
    arrow::row::RowConverter::new(
        fields.iter().map(|f| arrow::row::SortField::new_with_options(f.inner.data_type().clone(), options)).collect(),
    ).map(|inner| Converter { inner }).map_err(|e| e.to_string())
}

/// `RowConverter::convert_columns`: one encoded row per row of the columns
/// (as many as the first has; none for no columns), or Arrow's refusal of
/// columns that do not match the converter's fields.
#[verifier::external_body]
pub(crate) fn encode(converter: &Converter, columns: &Vec<Column>) -> (r: Result<Encoded, String>)
    ensures
        r matches Ok(e) ==> encoded_columns(e) == columns@ && converter_of(e) == *converter,
        r matches Ok(e) ==> encoded_rows(e) == if columns@.len() > 0 {
            column_len(columns@[0])
        } else {
            0
        },
{
    let columns: Vec<arrow::array::ArrayRef> = columns.iter().map(|c| c.inner.clone()).collect();
    converter.inner.convert_columns(&columns).map(|inner| Encoded { inner }).map_err(|e| e.to_string())
}

/// `Rows::size`: the bytes the encoded rows take.
#[verifier::external_body]
pub(crate) fn encoded_size(rows: &Encoded) -> usize {
    rows.inner.size()
}

/// `slice::sort_unstable_by` on (batch, row) positions, comparing the
/// encoded keys of the rows they name (`Row`'s `Ord`). std documents the sort
/// as reordering the elements, keeping each one, and leaving them ordered
/// by the comparison (a total order here); `Rows::row` panics on a row it
/// does not hold, so every position names one, and rows of different
/// converters do not compare, so one converter made them all.
#[verifier::external_body]
pub(crate) fn sort_positions(order: &mut Vec<(usize, usize)>, rows: &Vec<Encoded>, converter: &Converter)
    requires
        forall|i: int| 0 <= i < old(order)@.len() ==> #[trigger] names_row(rows@, old(order)@[i]),
        forall|b: int| 0 <= b < rows@.len() ==> #[trigger] converter_of(rows@[b]) == *converter,
    ensures
        final(order)@.to_multiset() == old(order)@.to_multiset(),
        forall|p: int, q: int|
            0 <= p < q < final(order)@.len() ==> rows_le(*converter, rows@, final(order)@[p], final(order)@[q]),
{
    order.sort_unstable_by(|x, y| rows[x.0].inner.row(x.1).cmp(&rows[y.0].inner.row(y.1)));
}

/// `arrow::compute::interleave` of column `column` of each of `batches`, at
/// the (batch, row) positions `chunk`. `RecordBatch::column` panics on a
/// column a batch lacks, and interleave on a position outside its arrays, so
/// every batch has the column and every position names a row.
#[verifier::external_body]
pub(crate) fn gather(batches: &Vec<Batch>, column: usize, chunk: &Vec<(usize, usize)>) -> (r: Result<
    Column,
    String,
>)
    requires
        forall|b: int| 0 <= b < batches@.len() ==> column < #[trigger] batch_fields(batches@[b]).len(),
        forall|i: int|
            0 <= i < chunk@.len() ==> #[trigger] chunk@[i].0 < batches@.len() && chunk@[i].1 < batch_rows(
                batches@[chunk@[i].0 as int],
            ),
    ensures
        r matches Ok(c) ==> column_len(c) == chunk@.len(),
        r matches Ok(c) ==> c == gathered(batches@, column as int, chunk@),
{
    let arrays: Vec<&dyn Array> = batches.iter().map(|b| b.inner.column(column).as_ref()).collect();
    arrow::compute::interleave(&arrays, chunk).map(|inner| Column { inner }).map_err(|e| e.to_string())
}

/// `Array::to_data` of a column.
#[verifier::external_body]
pub(crate) fn column_data(column: &Column) -> arrow::array::ArrayData {
    column.inner.to_data()
}

/// Buffer `i` of `data` (`ArrayData::buffers`), as the address of its
/// allocation and its capacity in bytes (`Buffer::data_ptr`,
/// `Buffer::capacity`); `None` past the last.
#[verifier::external_body]
pub(crate) fn buffer_at(data: &arrow::array::ArrayData, i: usize) -> Option<(usize, usize)> {
    data.buffers().get(i).map(|b| (b.data_ptr().addr().get(), b.capacity()))
}

/// The null bitmap's buffer of `data` (`ArrayData::nulls`), as its
/// allocation's address and capacity, if `data` has one.
#[verifier::external_body]
pub(crate) fn null_buffer(data: &arrow::array::ArrayData) -> Option<(usize, usize)> {
    data.nulls().map(|n| (n.buffer().data_ptr().addr().get(), n.buffer().capacity()))
}

/// Child `i` of `data` (`ArrayData::child_data`); `None` past the last.
#[verifier::external_body]
pub(crate) fn child_at(data: &arrow::array::ArrayData, i: usize) -> Option<arrow::array::ArrayData> {
    data.child_data().get(i).cloned()
}

/// A batch whose schema is `fields` with `batch`'s metadata, over `batch`'s
/// columns (`Schema::new_with_metadata`, `RecordBatch::try_new`); Arrow's
/// message when a column breaks its field.
#[verifier::external_body]
pub(crate) fn reschema(batch: &Batch, fields: Vec<FieldDef>) -> (r: Result<Batch, String>)
    ensures
        r matches Ok(b) ==> batch_rows(b) == batch_rows(*batch) && batch_fields(b) == field_names(
            fields@,
        ) && batch_defs(b) == fields@,
{
    let schema = arrow::datatypes::Schema::new_with_metadata(
        fields.into_iter().map(|f| f.inner).collect::<Vec<_>>(),
        batch.inner.schema().metadata().clone(),
    );
    arrow::record_batch::RecordBatch::try_new(std::sync::Arc::new(schema), batch.inner.columns().to_vec())
        .map(|inner| Batch { inner })
        .map_err(|e| e.to_string())
}

/// A non-null Int64 field named `name`.
#[verifier::external_body]
pub(crate) fn int_field(name: &str) -> (r: FieldDef)
    ensures
        field_name(r) == name@,
{
    FieldDef { inner: arrow::datatypes::Field::new(name, arrow::datatypes::DataType::Int64, false) }
}

/// An Int64 column of one row holding `value`.
#[verifier::external_body]
pub(crate) fn int_value(value: i64) -> (r: Column)
    ensures
        column_len(r) == 1,
        column_ints(r) == Some(seq![Some(value)]),
{
    Column { inner: std::sync::Arc::new(arrow::array::Int64Array::from(vec![value])) }
}

/// An Int64 column of `values`.
#[verifier::external_body]
pub(crate) fn int_column(values: &Vec<i64>) -> (r: Column)
    ensures
        column_len(r) == values@.len(),
        column_ints(r) == Some(values@.map_values(|v: i64| Some(v))),
{
    Column { inner: std::sync::Arc::new(arrow::array::Int64Array::from(values.clone())) }
}

/// A Utf8 column of `values` (`StringArray::from`). Its `i32` offsets hold
/// at most `TEXT_COLUMN_BYTES` of text; Arrow panics beyond.
#[verifier::external_body]
pub(crate) fn texts_column(values: &Vec<String>) -> (r: Column)
    requires
        texts_len(values@.map_values(|t: String| t@)) <= TEXT_COLUMN_BYTES,
    ensures
        utf8_column(r),
        column_len(r) == values@.len(),
        column_texts(r) == Some(values@.map_values(|s: String| Some(s@))),
{
    Column { inner: std::sync::Arc::new(arrow::array::StringArray::from(values.clone())) }
}

/// A Utf8 column of `values`, `None` as a null (`StringArray::from`). Its
/// `i32` offsets hold at most `TEXT_COLUMN_BYTES` of text; Arrow panics
/// beyond.
#[verifier::external_body]
pub(crate) fn optional_text_column(values: &Vec<Option<String>>) -> (r: Column)
    requires
        texts_len(present_texts(values@)) <= TEXT_COLUMN_BYTES,
    ensures
        utf8_column(r),
        column_len(r) == values@.len(),
        column_texts(r) == Some(
            values@.map_values(
                |o: Option<String>|
                    match o {
                        Some(s) => Some(s@),
                        None => None,
                    },
            ),
        ),
{
    Column { inner: std::sync::Arc::new(arrow::array::StringArray::from(values.clone())) }
}

/// Whether a batch's schema has exactly `fields` (`Fields`'s `==`, which
/// compares each field's name among the rest).
#[verifier::external_body]
pub(crate) fn has_fields(batch: &Batch, fields: &Vec<FieldDef>) -> (r: bool)
    ensures
        r == fields_held(*batch, fields@),
        r ==> batch_fields(*batch) == field_names(fields@),
{
    let want: arrow::datatypes::Fields = fields.iter().map(|f| f.inner.clone()).collect();
    *batch.inner.schema().fields() == want
}

/// `Debug` of a list of fields, as `Fields`'s `Debug` writes it.
#[verifier::external_body]
pub(crate) fn fields_debug(fields: &Vec<FieldDef>) -> (r: String)
    ensures
        r@ == fields_shown(fields@),
{
    let fields: arrow::datatypes::Fields = fields.iter().map(|f| f.inner.clone()).collect();
    format!("{fields:?}")
}

/// `Debug` of a text, as `str`'s `Debug` quotes and escapes it.
#[verifier::external_body]
pub(crate) fn debug_text(text: &str) -> (r: String)
    ensures
        r@ == quoted(text@),
{
    format!("{text:?}")
}

} // verus!
