use vstd::prelude::*;
use vstd::string::StringExecFns;
use crate::records::ListingRecord;
use crate::geometry::GeometryRow;

verus! {

/// The type of a column: fixed-point integers or text. Every cell of a
/// column is of its type or null.
#[derive(Clone, Copy, PartialEq, Eq, Structural, Debug)]
pub enum ColType {
    IntCol,
    TextCol,
}

/// One cell: null ("unknown"), a fixed-point integer, or text.
pub enum CellValue {
    Null,
    Int(i64),
    Text(String),
}

/// One named, typed column.
pub struct Column {
    pub name: String,
    pub ctype: ColType,
}

/// An ordered tabular record set: a schema and one cell per column per row.
pub struct Table {
    pub cols: Vec<Column>,
    pub rows: Vec<Vec<CellValue>>,
}

/// A cell fits a column type when it is null or of that type.
pub open spec fn cell_ok(c: CellValue, t: ColType) -> bool {
    match c {
        CellValue::Null => true,
        CellValue::Int(_) => t is IntCol,
        CellValue::Text(_) => t is TextCol,
    }
}

/// A row fits a schema: one cell per column, each of its column's type.
pub open spec fn row_ok(row: Seq<CellValue>, cols: Seq<Column>) -> bool {
    row.len() == cols.len() && forall|j: int| 0 <= j < cols.len() ==> cell_ok(
        #[trigger] row[j],
        cols[j].ctype,
    )
}

/// No two columns share a name.
pub open spec fn distinct_names(cols: Seq<Column>) -> bool {
    forall|a: int, b: int| 0 <= a < b < cols.len() ==> (#[trigger] cols[a].name@) != (
    #[trigger] cols[b].name@)
}

/// The schema has a column of the given name.
pub open spec fn has_col(cols: Seq<Column>, name: Seq<char>) -> bool {
    exists|j: int| 0 <= j < cols.len() && (#[trigger] cols[j].name@) == name
}

/// The position of the column of the given name.
pub open spec fn col_at(cols: Seq<Column>, name: Seq<char>) -> int {
    choose|j: int| 0 <= j < cols.len() && (#[trigger] cols[j].name@) == name
}

/// With distinct names, the position of a named column is the only one.
pub proof fn lemma_col_at(cols: Seq<Column>, name: Seq<char>, j: int)
    requires
        distinct_names(cols),
        0 <= j < cols.len(),
        cols[j].name@ == name,
    ensures
        col_at(cols, name) == j,
        has_col(cols, name),
{
    assert(has_col(cols, name));
    let j2 = col_at(cols, name);
    if j2 != j {
        if j2 < j {
            assert(cols[j2].name@ != cols[j].name@);
        } else {
            assert(cols[j].name@ != cols[j2].name@);
        }
    }
}

impl Table {
    /// Well-formed: distinct column names and every row fitting the schema.
    pub open spec fn wf(self) -> bool {
        &&& distinct_names(self.cols@)
        &&& forall|i: int| 0 <= i < self.rows@.len() ==> row_ok(
            (#[trigger] self.rows@[i])@,
            self.cols@,
        )
    }
}

/// Two cells hold the same value (text compared by contents).
pub open spec fn cell_equiv(a: CellValue, b: CellValue) -> bool {
    match (a, b) {
        (CellValue::Null, CellValue::Null) => true,
        (CellValue::Int(x), CellValue::Int(y)) => x == y,
        (CellValue::Text(x), CellValue::Text(y)) => x@ == y@,
        _ => false,
    }
}

/// Two rows hold the same values.
pub open spec fn row_equiv(a: Seq<CellValue>, b: Seq<CellValue>) -> bool {
    a.len() == b.len() && forall|j: int| 0 <= j < a.len() ==> cell_equiv(
        #[trigger] a[j],
        #[trigger] b[j],
    )
}

/// Copies one cell, contents preserved.
pub fn clone_cell(c: &CellValue) -> (r: CellValue)
    ensures
        cell_equiv(r, *c),
{
    match c {
        CellValue::Null => CellValue::Null,
        CellValue::Int(v) => CellValue::Int(*v),
        CellValue::Text(s) => CellValue::Text(s.clone()),
    }
}

/// Finds the position of the column of the given name, if any.
pub fn find_col(cols: &Vec<Column>, name: &String) -> (r: Option<usize>)
    ensures
        match r {
            Option::Some(j) => j < cols@.len() && cols@[j as int].name@ == name@,
            Option::None => !has_col(cols@, name@),
        },
{
    let n = cols.len();
    let mut j: usize = 0;
    while j < n
        invariant
            n == cols@.len(),
            j <= n,
            forall|k: int| 0 <= k < j ==> (#[trigger] cols@[k].name@) != name@,
        decreases n - j,
    {
        if cols[j].name == *name {
            return Option::Some(j);
        }
        j = j + 1;
    }
    Option::None
}

/// A cell holding exactly the given text.
pub open spec fn cell_is_text(c: CellValue, s: Seq<char>) -> bool {
    c matches CellValue::Text(t) && t@ == s
}

/// A cell holding the given optional integer, null for absence.
pub open spec fn cell_opt_int(c: CellValue, o: Option<i64>) -> bool {
    match o {
        Option::Some(v) => c == CellValue::Int(v),
        Option::None => c is Null,
    }
}

/// A cell holding the given optional text, null for absence.
pub open spec fn cell_opt_text(c: CellValue, o: Option<String>) -> bool {
    match o {
        Option::Some(s) => c matches CellValue::Text(t) && t@ == s@,
        Option::None => c is Null,
    }
}

/// The columnar schema a listing record set is laid out in, as
/// `(name, type)` pairs in column order.
pub open spec fn listing_schema() -> Seq<(Seq<char>, ColType)> {
    seq![
        ("id"@, ColType::TextCol),
        ("address"@, ColType::TextCol),
        ("latitude"@, ColType::IntCol),
        ("longitude"@, ColType::IntCol),
        ("price"@, ColType::IntCol),
        ("bedrooms"@, ColType::IntCol),
        ("bathrooms"@, ColType::IntCol),
        ("square_footage"@, ColType::IntCol),
        ("property_type"@, ColType::TextCol),
        ("status"@, ColType::TextCol),
        ("zip_code"@, ColType::TextCol),
    ]
}

/// The `(name, type)` pairs of a schema, in order.
pub open spec fn schema_of(cols: Seq<Column>) -> Seq<(Seq<char>, ColType)> {
    cols.map_values(|c: Column| (c.name@, c.ctype))
}

/// One listing record laid out as a row of the listing schema.
pub open spec fn listing_row_matches(rec: ListingRecord, row: Seq<CellValue>) -> bool {
    &&& row.len() == 11
    &&& cell_is_text(row[0], rec.id@)
    &&& cell_is_text(row[1], rec.address@)
    &&& row[2] == CellValue::Int(rec.latitude)
    &&& row[3] == CellValue::Int(rec.longitude)
    &&& cell_opt_int(row[4], rec.price)
    &&& cell_opt_int(row[5], rec.bedrooms)
    &&& cell_opt_int(row[6], rec.bathrooms)
    &&& cell_opt_int(row[7], rec.square_footage)
    &&& cell_opt_text(row[8], rec.property_type)
    &&& cell_opt_text(row[9], rec.status)
    &&& cell_opt_text(row[10], rec.zip_code)
}

/// The names of the listing schema are pairwise distinct.
pub proof fn lemma_listing_schema_distinct()
    ensures
        forall|a: int, b: int| 0 <= a < b < listing_schema().len() ==> (#[trigger] listing_schema(
        )[a]).0 != (#[trigger] listing_schema()[b]).0,
{
    reveal_strlit("id");
    reveal_strlit("address");
    reveal_strlit("latitude");
    reveal_strlit("longitude");
    reveal_strlit("price");
    reveal_strlit("bedrooms");
    reveal_strlit("bathrooms");
    reveal_strlit("square_footage");
    reveal_strlit("property_type");
    reveal_strlit("status");
    reveal_strlit("zip_code");
    assert forall|a: int, b: int| 0 <= a < b < listing_schema().len() implies (
    #[trigger] listing_schema()[a]).0 != (#[trigger] listing_schema()[b]).0 by {
        let sa = listing_schema()[a].0;
        let sb = listing_schema()[b].0;
        if sa.len() == sb.len() {
            assert(sa[0] != sb[0] || sa[1] != sb[1] || sa[2] != sb[2]);
        }
    }
}

/// One typed column with a fresh copy of the given name.
fn mk_col(name: &str, ctype: ColType) -> (c: Column)
    ensures
        c.name@ == name@,
        c.ctype == ctype,
{
    Column { name: String::from_str(name), ctype }
}

/// Lays a normalized listing record set out as a table in the listing
/// schema: one row per record, in record order, with null cells for the
/// unknown optional fields.
pub fn records_to_table(records: &Vec<ListingRecord>) -> (t: Table)
    ensures
        t.wf(),
        schema_of(t.cols@) == listing_schema(),
        t.rows@.len() == records@.len(),
        forall|i: int| 0 <= i < records@.len() ==> listing_row_matches(
            records@[i],
            (#[trigger] t.rows@[i])@,
        ),
{
    let mut cols: Vec<Column> = Vec::new();
    cols.push(mk_col("id", ColType::TextCol));
    cols.push(mk_col("address", ColType::TextCol));
    cols.push(mk_col("latitude", ColType::IntCol));
    cols.push(mk_col("longitude", ColType::IntCol));
    cols.push(mk_col("price", ColType::IntCol));
    cols.push(mk_col("bedrooms", ColType::IntCol));
    cols.push(mk_col("bathrooms", ColType::IntCol));
    cols.push(mk_col("square_footage", ColType::IntCol));
    cols.push(mk_col("property_type", ColType::TextCol));
    cols.push(mk_col("status", ColType::TextCol));
    cols.push(mk_col("zip_code", ColType::TextCol));
    proof {
        assert(schema_of(cols@) =~= listing_schema());
        lemma_listing_schema_distinct();
        assert forall|a: int, b: int| 0 <= a < b < cols@.len() implies (#[trigger] cols@[a].name@)
            != (#[trigger] cols@[b].name@) by {
            assert(listing_schema()[a].0 == cols@[a].name@);
            assert(listing_schema()[b].0 == cols@[b].name@);
        }
    }
    let n = records.len();
    let mut rows: Vec<Vec<CellValue>> = Vec::new();
    let mut i: usize = 0;
    while i < n
        invariant
            n == records@.len(),
            i <= n,
            rows@.len() == i,
            forall|k: int| 0 <= k < i ==> listing_row_matches(records@[k], (#[trigger] rows@[k])@),
            forall|k: int| 0 <= k < i ==> row_ok((#[trigger] rows@[k])@, cols@),
            cols@.len() == 11,
            schema_of(cols@) == listing_schema(),
        decreases n - i,
    {
        let rec = &records[i];
        let mut row: Vec<CellValue> = Vec::new();
        row.push(CellValue::Text(rec.id.clone()));
        row.push(CellValue::Text(rec.address.clone()));
        row.push(CellValue::Int(rec.latitude));
        row.push(CellValue::Int(rec.longitude));
        row.push(opt_int_cell(&rec.price));
        row.push(opt_int_cell(&rec.bedrooms));
        row.push(opt_int_cell(&rec.bathrooms));
        row.push(opt_int_cell(&rec.square_footage));
        row.push(opt_text_cell(&rec.property_type));
        row.push(opt_text_cell(&rec.status));
        row.push(opt_text_cell(&rec.zip_code));
        proof {
            assert(listing_row_matches(records@[i as int], row@));
            assert(cols@.len() == 11 && row@.len() == 11);
            assert(cell_ok(row@[0], cols@[0].ctype));
            assert(cell_ok(row@[1], cols@[1].ctype));
            assert(cell_ok(row@[2], cols@[2].ctype));
            assert(cell_ok(row@[3], cols@[3].ctype));
            assert(cell_ok(row@[4], cols@[4].ctype));
            assert(cell_ok(row@[5], cols@[5].ctype));
            assert(cell_ok(row@[6], cols@[6].ctype));
            assert(cell_ok(row@[7], cols@[7].ctype));
            assert(cell_ok(row@[8], cols@[8].ctype));
            assert(cell_ok(row@[9], cols@[9].ctype));
            assert(cell_ok(row@[10], cols@[10].ctype));
            assert(row_ok(row@, cols@));
        }
        rows.push(row);
        i = i + 1;
    }
    Table { cols, rows }
}

/// The cell for an optional fixed-point number: null for absence.
fn opt_int_cell(o: &Option<i64>) -> (c: CellValue)
    ensures
        cell_opt_int(c, *o),
{
    match o {
        Option::Some(v) => CellValue::Int(*v),
        Option::None => CellValue::Null,
    }
}

/// The cell for an optional text field: null for absence.
fn opt_text_cell(o: &Option<String>) -> (c: CellValue)
    ensures
        cell_opt_text(c, *o),
{
    match o {
        Option::Some(s) => CellValue::Text(s.clone()),
        Option::None => CellValue::Null,
    }
}

/// The schema a normalized geometry set is laid out in.
pub open spec fn geometry_schema() -> Seq<(Seq<char>, ColType)> {
    seq![
        ("geometry_type"@, ColType::TextCol),
        ("latitude"@, ColType::IntCol),
        ("longitude"@, ColType::IntCol),
    ]
}

/// One geometry row laid out as a row of the geometry schema.
pub open spec fn geometry_row_matches(g: GeometryRow, row: Seq<CellValue>) -> bool {
    &&& row.len() == 3
    &&& cell_opt_text(row[0], g.geometry_type)
    &&& cell_opt_int(row[1], g.latitude)
    &&& cell_opt_int(row[2], g.longitude)
}

/// The names of the geometry schema are pairwise distinct.
pub proof fn lemma_geometry_schema_distinct()
    ensures
        forall|a: int, b: int| 0 <= a < b < geometry_schema().len() ==> (
        #[trigger] geometry_schema()[a]).0 != (#[trigger] geometry_schema()[b]).0,
{
    reveal_strlit("geometry_type");
    reveal_strlit("latitude");
    reveal_strlit("longitude");
    assert forall|a: int, b: int| 0 <= a < b < geometry_schema().len() implies (
    #[trigger] geometry_schema()[a]).0 != (#[trigger] geometry_schema()[b]).0 by {
        let sa = geometry_schema()[a].0;
        let sb = geometry_schema()[b].0;
        assert(sa.len() != sb.len());
    }
}

/// Lays a normalized geometry set out as a table in the geometry schema,
/// one row per feature, in feature order.
pub fn geometry_to_table(geo: &Vec<GeometryRow>) -> (t: Table)
    ensures
        t.wf(),
        schema_of(t.cols@) == geometry_schema(),
        t.rows@.len() == geo@.len(),
        forall|i: int| 0 <= i < geo@.len() ==> geometry_row_matches(
            geo@[i],
            (#[trigger] t.rows@[i])@,
        ),
{
    let mut cols: Vec<Column> = Vec::new();
    cols.push(mk_col("geometry_type", ColType::TextCol));
    cols.push(mk_col("latitude", ColType::IntCol));
    cols.push(mk_col("longitude", ColType::IntCol));
    proof {
        assert(schema_of(cols@) =~= geometry_schema());
        lemma_geometry_schema_distinct();
        assert forall|a: int, b: int| 0 <= a < b < cols@.len() implies (#[trigger] cols@[a].name@)
            != (#[trigger] cols@[b].name@) by {
            assert(geometry_schema()[a].0 == cols@[a].name@);
            assert(geometry_schema()[b].0 == cols@[b].name@);
        }
    }
    let n = geo.len();
    let mut rows: Vec<Vec<CellValue>> = Vec::new();
    let mut i: usize = 0;
    while i < n
        invariant
            n == geo@.len(),
            i <= n,
            rows@.len() == i,
            forall|k: int| 0 <= k < i ==> geometry_row_matches(geo@[k], (#[trigger] rows@[k])@),
            forall|k: int| 0 <= k < i ==> row_ok((#[trigger] rows@[k])@, cols@),
            cols@.len() == 3,
            schema_of(cols@) == geometry_schema(),
        decreases n - i,
    {
        let g = &geo[i];
        let mut row: Vec<CellValue> = Vec::new();
        row.push(opt_text_cell(&g.geometry_type));
        row.push(opt_int_cell(&g.latitude));
        row.push(opt_int_cell(&g.longitude));
        proof {
            assert(geometry_row_matches(geo@[i as int], row@));
            assert(cols@.len() == 3 && row@.len() == 3);
            assert(cell_ok(row@[0], cols@[0].ctype));
            assert(cell_ok(row@[1], cols@[1].ctype));
            assert(cell_ok(row@[2], cols@[2].ctype));
            assert(row_ok(row@, cols@));
        }
        rows.push(row);
        i = i + 1;
    }
    Table { cols, rows }
}

} // verus!
