use vstd::prelude::*;
use vstd::string::StringExecFns;
use vstd::pervasive::unreached;
use crate::records::ListingRecord;
use crate::geometry::GeometryRow;
use crate::table::{
    cell_equiv, cell_is_text, cell_opt_int, cell_opt_text, col_at, row_ok, geometry_row_matches, geometry_schema,
    geometry_to_table, has_col, lemma_col_at, lemma_listing_schema_distinct, listing_row_matches,
    listing_schema, records_to_table, schema_of, CellValue, ColType, Column, Table,
};
use crate::combine::{
    filter_nonnull_coords, kept_rows, merge_schema, row_offset, sch_has, schema_union,
    schemas_conflict, select_columns, total_rows, union_schema, unioned_cell_ok, CombineError,
};

verus! {

/// The combined schema when no geometry source is supplied.
pub open spec fn base_schema() -> Seq<(Seq<char>, ColType)> {
    seq![
        ("id"@, ColType::TextCol),
        ("address"@, ColType::TextCol),
        ("latitude"@, ColType::IntCol),
        ("longitude"@, ColType::IntCol),
        ("price"@, ColType::IntCol),
        ("bedrooms"@, ColType::IntCol),
        ("bathrooms"@, ColType::IntCol),
        ("property_type"@, ColType::TextCol),
        ("status"@, ColType::TextCol),
        ("zip_code"@, ColType::TextCol),
    ]
}

/// The combined schema when at least one geometry source is supplied: the
/// geometry-type column is appended after the listing columns.
pub open spec fn geo_out_schema() -> Seq<(Seq<char>, ColType)> {
    base_schema().push(("geometry_type"@, ColType::TextCol))
}

/// One listing record's cells in a combined row: its identity and
/// coordinate fields in the first ten columns, and a null geometry type
/// when that column is present.
pub open spec fn combined_listing_row(rec: ListingRecord, row: Seq<CellValue>, with_geo: bool) -> bool {
    &&& row.len() == if with_geo { 11int } else { 10int }
    &&& cell_is_text(row[0], rec.id@)
    &&& cell_is_text(row[1], rec.address@)
    &&& row[2] == CellValue::Int(rec.latitude)
    &&& row[3] == CellValue::Int(rec.longitude)
    &&& cell_opt_int(row[4], rec.price)
    &&& cell_opt_int(row[5], rec.bedrooms)
    &&& cell_opt_int(row[6], rec.bathrooms)
    &&& cell_opt_text(row[7], rec.property_type)
    &&& cell_opt_text(row[8], rec.status)
    &&& cell_opt_text(row[9], rec.zip_code)
    &&& with_geo ==> row[10] is Null
}

/// One geometry row's cells in a combined row: its representative point in
/// the coordinate columns, its tag in the geometry-type column, and null
/// everywhere else.
pub open spec fn combined_geo_row(g: GeometryRow, row: Seq<CellValue>) -> bool {
    &&& row.len() == 11
    &&& row[0] is Null
    &&& row[1] is Null
    &&& cell_opt_int(row[2], g.latitude)
    &&& cell_opt_int(row[3], g.longitude)
    &&& row[4] is Null
    &&& row[5] is Null
    &&& row[6] is Null
    &&& row[7] is Null
    &&& row[8] is Null
    &&& row[9] is Null
    &&& cell_opt_text(row[10], g.geometry_type)
}

/// The total number of rows in a sequence of geometry sets.
pub open spec fn geo_rows_total(gs: Seq<Vec<GeometryRow>>) -> int
    decreases gs.len(),
{
    if gs.len() == 0 {
        0
    } else {
        geo_rows_total(gs.drop_last()) + gs.last()@.len()
    }
}

/// Where geometry set `k`'s rows start among the geometry rows.
pub open spec fn geo_row_offset(gs: Seq<Vec<GeometryRow>>, k: int) -> int {
    geo_rows_total(gs.take(k))
}

/// A geometry row total is never negative.
proof fn lemma_geo_rows_total_nonneg(gs: Seq<Vec<GeometryRow>>)
    ensures
        geo_rows_total(gs) >= 0,
    decreases gs.len(),
{
    if gs.len() > 0 {
        lemma_geo_rows_total_nonneg(gs.drop_last());
    }
}

/// Keeping only non-null-coordinate rows keeps everything when no row has
/// a null coordinate cell.
proof fn lemma_kept_all(rows: Seq<Vec<CellValue>>, la: int, lo: int)
    requires
        forall|i: int| 0 <= i < rows.len() ==> !((#[trigger] rows[i])@[la] is Null) && !(
        rows[i]@[lo] is Null),
    ensures
        kept_rows(rows, la, lo) == rows,
    decreases rows.len(),
{
    if rows.len() == 0 {
        assert(kept_rows(rows, la, lo) =~= rows);
    } else {
        lemma_kept_all(rows.drop_last(), la, lo);
        assert(kept_rows(rows, la, lo) =~= rows);
    }
}

/// The listing schema's column positions, by name.
proof fn lemma_listing_resolution(cols: Seq<Column>)
    requires
        schema_of(cols) == listing_schema(),
        crate::table::distinct_names(cols),
    ensures
        cols.len() == 11,
        has_col(cols, "id"@) && col_at(cols, "id"@) == 0,
        has_col(cols, "address"@) && col_at(cols, "address"@) == 1,
        has_col(cols, "latitude"@) && col_at(cols, "latitude"@) == 2,
        has_col(cols, "longitude"@) && col_at(cols, "longitude"@) == 3,
        has_col(cols, "price"@) && col_at(cols, "price"@) == 4,
        has_col(cols, "bedrooms"@) && col_at(cols, "bedrooms"@) == 5,
        has_col(cols, "bathrooms"@) && col_at(cols, "bathrooms"@) == 6,
        has_col(cols, "square_footage"@) && col_at(cols, "square_footage"@) == 7,
        has_col(cols, "property_type"@) && col_at(cols, "property_type"@) == 8,
        has_col(cols, "status"@) && col_at(cols, "status"@) == 9,
        has_col(cols, "zip_code"@) && col_at(cols, "zip_code"@) == 10,
{
    assert(cols.len() == schema_of(cols).len());
    assert(cols[0].name@ == listing_schema()[0].0);
    assert(cols[1].name@ == listing_schema()[1].0);
    assert(cols[2].name@ == listing_schema()[2].0);
    assert(cols[3].name@ == listing_schema()[3].0);
    assert(cols[4].name@ == listing_schema()[4].0);
    assert(cols[5].name@ == listing_schema()[5].0);
    assert(cols[6].name@ == listing_schema()[6].0);
    assert(cols[7].name@ == listing_schema()[7].0);
    assert(cols[8].name@ == listing_schema()[8].0);
    assert(cols[9].name@ == listing_schema()[9].0);
    assert(cols[10].name@ == listing_schema()[10].0);
    lemma_col_at(cols, "id"@, 0);
    lemma_col_at(cols, "address"@, 1);
    lemma_col_at(cols, "latitude"@, 2);
    lemma_col_at(cols, "longitude"@, 3);
    lemma_col_at(cols, "price"@, 4);
    lemma_col_at(cols, "bedrooms"@, 5);
    lemma_col_at(cols, "bathrooms"@, 6);
    lemma_col_at(cols, "square_footage"@, 7);
    lemma_col_at(cols, "property_type"@, 8);
    lemma_col_at(cols, "status"@, 9);
    lemma_col_at(cols, "zip_code"@, 10);
}

/// The base output schema's names are pairwise distinct.
proof fn lemma_base_schema_distinct()
    ensures
        forall|a: int, b: int| 0 <= a < b < base_schema().len() ==> (#[trigger] base_schema()[
            a
        ]).0 != (#[trigger] base_schema()[b]).0,
{
    reveal_strlit("id");
    reveal_strlit("address");
    reveal_strlit("latitude");
    reveal_strlit("longitude");
    reveal_strlit("price");
    reveal_strlit("bedrooms");
    reveal_strlit("bathrooms");
    reveal_strlit("property_type");
    reveal_strlit("status");
    reveal_strlit("zip_code");
    assert forall|a: int, b: int| 0 <= a < b < base_schema().len() implies (
    #[trigger] base_schema()[a]).0 != (#[trigger] base_schema()[b]).0 by {
        let sa = base_schema()[a].0;
        let sb = base_schema()[b].0;
        if sa.len() == sb.len() {
            assert(sa[0] != sb[0]);
        }
    }
}

/// The geometry-type column name is not a base output column name.
proof fn lemma_gt_not_in_base()
    ensures
        !sch_has(base_schema(), "geometry_type"@),
        forall|j: int| 0 <= j < base_schema().len() ==> (#[trigger] base_schema()[j]).0
            != "geometry_type"@,
{
    reveal_strlit("id");
    reveal_strlit("address");
    reveal_strlit("latitude");
    reveal_strlit("longitude");
    reveal_strlit("price");
    reveal_strlit("bedrooms");
    reveal_strlit("bathrooms");
    reveal_strlit("property_type");
    reveal_strlit("status");
    reveal_strlit("zip_code");
    reveal_strlit("geometry_type");
    assert forall|j: int| 0 <= j < base_schema().len() implies (#[trigger] base_schema()[j]).0
        != "geometry_type"@ by {
        let s = base_schema()[j].0;
        if s.len() == "geometry_type"@.len() {
            assert(s[0] != "geometry_type"@[0]);
        }
    }
    if sch_has(base_schema(), "geometry_type"@) {
        let j = choose|j: int| 0 <= j < base_schema().len() && (#[trigger] base_schema()[j]).0
            == "geometry_type"@;
    }
}

/// Merging a schema with distinct names into the empty schema keeps it.
proof fn lemma_merge_empty(cs: Seq<(Seq<char>, ColType)>)
    requires
        forall|a: int, b: int| 0 <= a < b < cs.len() ==> (#[trigger] cs[a]).0 != (
        #[trigger] cs[b]).0,
    ensures
        merge_schema(Seq::empty(), cs) == cs,
    decreases cs.len(),
{
    if cs.len() == 0 {
        assert(merge_schema(Seq::empty(), cs) =~= cs);
    } else {
        lemma_merge_empty(cs.drop_last());
        if sch_has(cs.drop_last(), cs.last().0) {
            let j = choose|j: int| 0 <= j < cs.drop_last().len() && (#[trigger] cs.drop_last()[
                j
            ]).0 == cs.last().0;
            assert(cs[j].0 == cs[cs.len() - 1].0);
            assert(false);
        }
        assert(merge_schema(Seq::empty(), cs) =~= cs);
    }
}

/// Merging the geometry schema into a schema that already has latitude and
/// longitude columns: only the geometry-type column is new, appended last.
proof fn lemma_merge_geometry(acc: Seq<(Seq<char>, ColType)>)
    requires
        sch_has(acc, "latitude"@),
        sch_has(acc, "longitude"@),
    ensures
        !sch_has(acc, "geometry_type"@) ==> merge_schema(acc, geometry_schema()) == acc.push(
            ("geometry_type"@, ColType::TextCol),
        ),
        sch_has(acc, "geometry_type"@) ==> merge_schema(acc, geometry_schema()) == acc,
{
    crate::table::lemma_geometry_schema_distinct();
    let cs = geometry_schema();
    let cs1 = cs.drop_last();
    let cs0 = cs1.drop_last();
    let cse = cs0.drop_last();
    assert(cse.len() == 0);
    assert(merge_schema(acc, cse) == acc);
    assert(cs0.last() == ("geometry_type"@, ColType::TextCol));
    assert(cs1.last() == ("latitude"@, ColType::IntCol));
    assert(cs.last() == ("longitude"@, ColType::IntCol));
    let m0 = merge_schema(acc, cs0);
    if sch_has(acc, "geometry_type"@) {
        assert(m0 == acc);
    } else {
        assert(m0 == acc.push(("geometry_type"@, ColType::TextCol)));
    }
    // latitude and longitude are already present in acc, hence in m0.
    let jla = choose|j: int| 0 <= j < acc.len() && (#[trigger] acc[j]).0 == "latitude"@;
    assert(m0[jla] == acc[jla]);
    assert(sch_has(m0, "latitude"@));
    let m1 = merge_schema(acc, cs1);
    assert(m1 == m0);
    let jlo = choose|j: int| 0 <= j < acc.len() && (#[trigger] acc[j]).0 == "longitude"@;
    assert(m1[jlo] == acc[jlo]);
    assert(sch_has(m1, "longitude"@));
    assert(merge_schema(acc, cs) == m1);
}

/// The geometry output schema has latitude, longitude and geometry-type
/// columns.
proof fn lemma_geo_out_has()
    ensures
        sch_has(base_schema(), "latitude"@),
        sch_has(base_schema(), "longitude"@),
        sch_has(geo_out_schema(), "latitude"@),
        sch_has(geo_out_schema(), "longitude"@),
        sch_has(geo_out_schema(), "geometry_type"@),
{
    assert(base_schema()[2].0 == "latitude"@);
    assert(base_schema()[3].0 == "longitude"@);
    assert(geo_out_schema()[2].0 == "latitude"@);
    assert(geo_out_schema()[3].0 == "longitude"@);
    assert(geo_out_schema()[10].0 == "geometry_type"@);
}

/// The unioned schema of a listing projection followed by geometry tables.
proof fn lemma_union_schema_shape(ts: Seq<Table>)
    requires
        ts.len() >= 2,
        schema_of(ts[0].cols@) == base_schema(),
        forall|k: int| 1 <= k < ts.len() ==> schema_of((#[trigger] ts[k]).cols@)
            == geometry_schema(),
    ensures
        union_schema(ts) == geo_out_schema(),
    decreases ts.len(),
{
    lemma_geo_out_has();
    lemma_gt_not_in_base();
    if ts.len() == 2 {
        let one = ts.drop_last();
        assert(one.drop_last() =~= Seq::<Table>::empty());
        assert(union_schema(one.drop_last()) == Seq::<(Seq<char>, ColType)>::empty());
        lemma_base_schema_distinct();
        lemma_merge_empty(base_schema());
        assert(one.last() == ts[0]);
        assert(union_schema(one) == base_schema());
        lemma_merge_geometry(base_schema());
        assert(ts.last() == ts[1]);
        assert(union_schema(ts) == base_schema().push(("geometry_type"@, ColType::TextCol)));
    } else {
        lemma_union_schema_shape(ts.drop_last());
        assert(forall|k: int| 1 <= k < ts.drop_last().len() ==> schema_of(
            (#[trigger] ts.drop_last()[k]).cols@,
        ) == geometry_schema());
        lemma_merge_geometry(geo_out_schema());
        assert(ts.last() == ts[ts.len() - 1]);
        assert(union_schema(ts) == geo_out_schema());
    }
}

/// Geometry tables answer only to the three geometry column names.
proof fn lemma_geometry_resolution(cols: Seq<Column>)
    requires
        schema_of(cols) == geometry_schema(),
        crate::table::distinct_names(cols),
    ensures
        cols.len() == 3,
        has_col(cols, "geometry_type"@) && col_at(cols, "geometry_type"@) == 0,
        has_col(cols, "latitude"@) && col_at(cols, "latitude"@) == 1,
        has_col(cols, "longitude"@) && col_at(cols, "longitude"@) == 2,
        forall|nm: Seq<char>| #[trigger] has_col(cols, nm) ==> nm == "geometry_type"@ || nm
            == "latitude"@ || nm == "longitude"@,
{
    assert(cols.len() == schema_of(cols).len());
    assert(cols[0].name@ == geometry_schema()[0].0);
    assert(cols[1].name@ == geometry_schema()[1].0);
    assert(cols[2].name@ == geometry_schema()[2].0);
    lemma_col_at(cols, "geometry_type"@, 0);
    lemma_col_at(cols, "latitude"@, 1);
    lemma_col_at(cols, "longitude"@, 2);
    assert forall|nm: Seq<char>| #[trigger] has_col(cols, nm) implies nm == "geometry_type"@ || nm
        == "latitude"@ || nm == "longitude"@ by {
        let j = choose|j: int| 0 <= j < cols.len() && (#[trigger] cols[j].name@) == nm;
    }
}

/// The row offsets of a listing table followed by one table per geometry
/// set: the listing rows come first, then each set's rows in order.
proof fn lemma_offsets(ts: Seq<Table>, gs: Seq<Vec<GeometryRow>>, k: int)
    requires
        ts.len() == gs.len() + 1,
        0 <= k <= gs.len(),
        forall|g: int| 0 <= g < gs.len() ==> (#[trigger] ts[g + 1]).rows@.len() == gs[g]@.len(),
    ensures
        total_rows(ts.take(k + 1)) == ts[0].rows@.len() + geo_rows_total(gs.take(k)),
    decreases k,
{
    if k == 0 {
        assert(ts.take(1).drop_last() =~= Seq::<Table>::empty());
        assert(ts.take(1).last() == ts[0]);
        assert(total_rows(Seq::<Table>::empty()) == 0);
        assert(total_rows(ts.take(1)) == ts[0].rows@.len());
        assert(gs.take(0) =~= Seq::<Vec<GeometryRow>>::empty());
        assert(geo_rows_total(gs.take(0)) == 0);
    } else {
        lemma_offsets(ts, gs, k - 1);
        crate::combine::lemma_total_rows_step(ts, k);
        assert(ts[(k - 1) + 1].rows@.len() == gs[k - 1]@.len());
        assert(gs.take(k).drop_last() =~= gs.take(k - 1));
        assert(gs.take(k).last() == gs[k - 1]);
        assert(geo_rows_total(gs.take(k)) == geo_rows_total(gs.take(k - 1)) + gs[k - 1]@.len());
    }
}

/// Filters, projects and schema-unions the normalized listing records with
/// zero or more normalized geometry sets, as one output record set: the
/// listing rows first (all of them: listing coordinates are never null, a 0
/// sentinel included), then each geometry set's rows in the order supplied,
/// with null cells for the columns a source does not have. The geometry
/// type column is present exactly when at least one geometry set is
/// supplied. The fixed schemas make the union's type-conflict failure
/// provably impossible here.
#[verifier::rlimit(100)]
pub fn combine(records: &Vec<ListingRecord>, geo_sets: &Vec<Vec<GeometryRow>>) -> (out: Table)
    ensures
        out.wf(),
        geo_sets@.len() == 0 ==> schema_of(out.cols@) == base_schema(),
        geo_sets@.len() > 0 ==> schema_of(out.cols@) == geo_out_schema(),
        out.rows@.len() == records@.len() + geo_rows_total(geo_sets@),
        forall|i: int| 0 <= i < records@.len() ==> combined_listing_row(
            records@[i],
            (#[trigger] out.rows@[i])@,
            geo_sets@.len() > 0,
        ),
        forall|g: int, i: int|
            #![trigger geo_sets@[g]@[i]]
            0 <= g < geo_sets@.len() && 0 <= i < geo_sets@[g]@.len() ==> combined_geo_row(
                geo_sets@[g]@[i],
                out.rows@[records@.len() + geo_row_offset(geo_sets@, g) + i]@,
            ),
{
    let lt = records_to_table(records);
    let ghost ltc = lt.cols@;
    let ghost ltr = lt.rows@;
    proof {
        lemma_listing_resolution(ltc);
        assert forall|i: int| 0 <= i < ltr.len() implies !((#[trigger] ltr[i])@[2] is Null) && !(
        ltr[i]@[3] is Null) by {
            assert(listing_row_matches(records@[i], ltr[i]@));
        }
    }
    let ft = match filter_nonnull_coords(lt) {
        Result::Ok(t) => t,
        Result::Err(_) => unreached(),
    };
    proof {
        lemma_kept_all(ltr, 2, 3);
        assert(ft.cols@ == ltc);
        assert(ft.rows@ == ltr);
    }
    let mut names: Vec<String> = Vec::new();
    names.push(String::from_str("id"));
    names.push(String::from_str("address"));
    names.push(String::from_str("latitude"));
    names.push(String::from_str("longitude"));
    names.push(String::from_str("price"));
    names.push(String::from_str("bedrooms"));
    names.push(String::from_str("bathrooms"));
    names.push(String::from_str("property_type"));
    names.push(String::from_str("status"));
    names.push(String::from_str("zip_code"));
    proof {
        lemma_base_schema_distinct();
        assert forall|a: int, b: int| 0 <= a < b < names@.len() implies (#[trigger] names@[a])@
            != (#[trigger] names@[b])@ by {
            assert(names@[a]@ == base_schema()[a].0);
            assert(names@[b]@ == base_schema()[b].0);
        }
        assert forall|j: int| 0 <= j < names@.len() implies has_col(
            ltc,
            (#[trigger] names@[j])@,
        ) by {
            assert(names@[j]@ == base_schema()[j].0);
        }
    }
    let st = match select_columns(&ft, &names) {
        Result::Ok(t) => t,
        Result::Err(_) => unreached(),
    };
    proof {
        // The projection's schema is the base output schema, and each of
        // its cells is the corresponding listing cell.
        assert(col_at(ltc, names@[0]@) == 0);
        assert(col_at(ltc, names@[1]@) == 1);
        assert(col_at(ltc, names@[2]@) == 2);
        assert(col_at(ltc, names@[3]@) == 3);
        assert(col_at(ltc, names@[4]@) == 4);
        assert(col_at(ltc, names@[5]@) == 5);
        assert(col_at(ltc, names@[6]@) == 6);
        assert(col_at(ltc, names@[7]@) == 8);
        assert(col_at(ltc, names@[8]@) == 9);
        assert(col_at(ltc, names@[9]@) == 10);
        assert forall|j: int| 0 <= j < 10 implies #[trigger] schema_of(st.cols@)[j]
            == base_schema()[j] by {
            assert(st.cols@[j].name@ == names@[j]@);
            assert(schema_of(ltc)[col_at(ltc, names@[j]@)].1 == ltc[col_at(
                ltc,
                names@[j]@,
            )].ctype);
        }
        assert(schema_of(st.cols@) =~= base_schema());
    }
    let ghost stv = st;
    proof {
        assert forall|i: int| 0 <= i < records@.len() implies combined_listing_row(
            records@[i],
            (#[trigger] stv.rows@[i])@,
            false,
        ) by {
            assert(listing_row_matches(records@[i], ltr[i]@));
            assert(cell_equiv(stv.rows@[i]@[0], ltr[i]@[0]));
            assert(cell_equiv(stv.rows@[i]@[1], ltr[i]@[1]));
            assert(cell_equiv(stv.rows@[i]@[2], ltr[i]@[2]));
            assert(cell_equiv(stv.rows@[i]@[3], ltr[i]@[3]));
            assert(cell_equiv(stv.rows@[i]@[4], ltr[i]@[4]));
            assert(cell_equiv(stv.rows@[i]@[5], ltr[i]@[5]));
            assert(cell_equiv(stv.rows@[i]@[6], ltr[i]@[6]));
            assert(cell_equiv(stv.rows@[i]@[7], ltr[i]@[8]));
            assert(cell_equiv(stv.rows@[i]@[8], ltr[i]@[9]));
            assert(cell_equiv(stv.rows@[i]@[9], ltr[i]@[10]));
        }
    }
    if geo_sets.len() == 0 {
        proof {
            assert(geo_rows_total(geo_sets@) == 0);
        }
        return st;
    }
    let mut tables: Vec<Table> = Vec::new();
    tables.push(st);
    let gn = geo_sets.len();
    let mut g: usize = 0;
    while g < gn
        invariant
            gn == geo_sets@.len(),
            g <= gn,
            tables@.len() == g + 1,
            tables@[0] == stv,
            stv.wf(),
            schema_of(stv.cols@) == base_schema(),
            forall|k: int| 1 <= k < tables@.len() ==> (#[trigger] tables@[k]).wf() && schema_of(
                tables@[k].cols@,
            ) == geometry_schema() && tables@[k].rows@.len() == geo_sets@[k - 1]@.len(),
            forall|k: int, i: int|
                #![trigger tables@[k].rows@[i]]
                1 <= k < tables@.len() && 0 <= i < tables@[k].rows@.len() ==> geometry_row_matches(
                    geo_sets@[k - 1]@[i],
                    tables@[k].rows@[i]@,
                ),
        decreases gn - g,
    {
        let gt = geometry_to_table(&geo_sets[g]);
        tables.push(gt);
        g = g + 1;
    }
    let ghost ts = tables@;
    proof {
        // No two columns anywhere conflict: the coordinate columns are
        // integer-typed in every source, and the geometry-type column
        // appears only in geometry sources.
        lemma_geometry_schema_distinct_pairs();
        lemma_gt_not_in_base();
        assert forall|k1: int, i1: int, k2: int, i2: int|
            #![trigger ts[k1].cols@[i1], ts[k2].cols@[i2]]
            0 <= k1 < ts.len() && 0 <= i1 < ts[k1].cols@.len() && 0 <= k2 < ts.len() && 0 <= i2
                < ts[k2].cols@.len() && ts[k1].cols@[i1].name@ == ts[k2].cols@[i2].name@ implies
        ts[k1].cols@[i1].ctype == ts[k2].cols@[i2].ctype by {
            lemma_base_schema_distinct();
            if k1 == 0 {
                assert(ts[k1].cols@[i1].name@ == base_schema()[i1].0);
                assert(ts[k1].cols@[i1].ctype == base_schema()[i1].1);
            } else {
                assert(ts[k1].cols@[i1].name@ == geometry_schema()[i1].0);
                assert(ts[k1].cols@[i1].ctype == geometry_schema()[i1].1);
            }
            if k2 == 0 {
                assert(ts[k2].cols@[i2].name@ == base_schema()[i2].0);
                assert(ts[k2].cols@[i2].ctype == base_schema()[i2].1);
            } else {
                assert(ts[k2].cols@[i2].name@ == geometry_schema()[i2].0);
                assert(ts[k2].cols@[i2].ctype == geometry_schema()[i2].1);
            }
            if k1 == 0 && k2 == 0 {
                if i1 != i2 {
                    assert(base_schema()[i1].0 != base_schema()[i2].0);
                }
            } else if k1 == 0 && k2 >= 1 {
                lemma_conflict_base_geo(i1, i2);
            } else if k1 >= 1 && k2 == 0 {
                lemma_conflict_base_geo(i2, i1);
            } else {
                if i1 != i2 {
                    assert(geometry_schema()[i1].0 != geometry_schema()[i2].0);
                }
            }
        }
        assert(!schemas_conflict(ts)) by {
            if schemas_conflict(ts) {
                let (k1, i1, k2, i2) = choose|k1: int, i1: int, k2: int, i2: int|
                    #![trigger ts[k1].cols@[i1], ts[k2].cols@[i2]]
                    0 <= k1 < ts.len() && 0 <= i1 < ts[k1].cols@.len() && 0 <= k2 < ts.len() && 0
                        <= i2 < ts[k2].cols@.len() && ts[k1].cols@[i1].name@
                        == ts[k2].cols@[i2].name@ && ts[k1].cols@[i1].ctype
                        != ts[k2].cols@[i2].ctype;
            }
        }
    }
    let u = match schema_union(tables) {
        Result::Ok(t) => t,
        Result::Err(_) => unreached(),
    };
    proof {
        lemma_union_schema_shape(ts);
        assert(schema_of(u.cols@) == geo_out_schema());
        assert forall|g2: int| 0 <= g2 < gn implies (#[trigger] ts[g2 + 1]).rows@.len()
            == geo_sets@[g2]@.len() by {}
        lemma_offsets(ts, geo_sets@, gn as int);
        assert(ts.take(gn + 1) =~= ts);
        assert(geo_sets@.take(gn as int) =~= geo_sets@);
        assert(u.rows@.len() == records@.len() + geo_rows_total(geo_sets@));
    }
    proof {
        lemma_geo_rows_total_nonneg(geo_sets@);
        lemma_listing_rows_in_union(records@, stv, u, ts);
        lemma_geo_rows_in_union(geo_sets@, stv, u, ts, records@.len() as int);
    }
    u
}

/// The geometry schema's names are pairwise distinct, as pairs.
proof fn lemma_geometry_schema_distinct_pairs()
    ensures
        forall|a: int, b: int| 0 <= a < b < geometry_schema().len() ==> (
        #[trigger] geometry_schema()[a]).0 != (#[trigger] geometry_schema()[b]).0,
        forall|a: int, b: int| 0 <= a < geometry_schema().len() && 0 <= b
            < geometry_schema().len() && a != b ==> (#[trigger] geometry_schema()[a]).0 != (
        #[trigger] geometry_schema()[b]).0,
{
    crate::table::lemma_geometry_schema_distinct();
    assert forall|a: int, b: int|
        0 <= a < geometry_schema().len() && 0 <= b < geometry_schema().len() && a != b implies (
    #[trigger] geometry_schema()[a]).0 != (#[trigger] geometry_schema()[b]).0 by {
        if a < b {
        } else {
            assert(geometry_schema()[b].0 != geometry_schema()[a].0);
        }
    }
}

/// A base column and a geometry column of the same name have the same type.
proof fn lemma_conflict_base_geo(i1: int, i2: int)
    requires
        0 <= i1 < base_schema().len(),
        0 <= i2 < geometry_schema().len(),
        base_schema()[i1].0 == geometry_schema()[i2].0,
    ensures
        base_schema()[i1].1 == geometry_schema()[i2].1,
{
    lemma_base_schema_distinct();
    lemma_gt_not_in_base();
    if i2 == 0 {
        assert(base_schema()[i1].0 != "geometry_type"@);
        assert(geometry_schema()[0].0 == "geometry_type"@);
        assert(false);
    } else if i2 == 1 {
        assert(geometry_schema()[1].0 == "latitude"@);
        assert(base_schema()[2].0 == "latitude"@);
        if i1 != 2 {
            if i1 < 2 {
                assert(base_schema()[i1].0 != base_schema()[2].0);
            } else {
                assert(base_schema()[2].0 != base_schema()[i1].0);
            }
        }
        assert(i1 == 2);
    } else {
        assert(geometry_schema()[2].0 == "longitude"@);
        assert(base_schema()[3].0 == "longitude"@);
        if i1 != 3 {
            if i1 < 3 {
                assert(base_schema()[i1].0 != base_schema()[3].0);
            } else {
                assert(base_schema()[3].0 != base_schema()[i1].0);
            }
        }
        assert(i1 == 3);
    }
}

/// The union's content clauses, as one reusable predicate.
pub open spec fn union_content(u: Table, ts: Seq<Table>) -> bool {
    forall|k: int, i: int, j: int|
        #![trigger ts[k].rows@[i], u.cols@[j]]
        0 <= k < ts.len() && 0 <= i < ts[k].rows@.len() && 0 <= j < u.cols@.len()
            ==> unioned_cell_ok(
            ts[k].rows@[i]@,
            ts[k].cols@,
            u.cols@[j].name@,
            u.rows@[row_offset(ts, k) + i]@[j],
        )
}

/// In the unioned output, the listing table's rows keep every listing cell
/// in place and carry a null geometry type.
proof fn lemma_listing_rows_in_union(recs: Seq<ListingRecord>, st: Table, u: Table, ts: Seq<Table>)
    requires
        ts.len() >= 1,
        ts[0] == st,
        st.wf(),
        schema_of(st.cols@) == base_schema(),
        st.rows@.len() == recs.len(),
        forall|i: int| 0 <= i < recs.len() ==> combined_listing_row(
            recs[i],
            (#[trigger] st.rows@[i])@,
            false,
        ),
        u.wf(),
        schema_of(u.cols@) == geo_out_schema(),
        union_content(u, ts),
        recs.len() <= u.rows@.len(),
    ensures
        forall|i: int| 0 <= i < recs.len() ==> combined_listing_row(
            recs[i],
            (#[trigger] u.rows@[i])@,
            true,
        ),
{
    lemma_gt_not_in_base();
    assert(ts.take(0) =~= Seq::<Table>::empty());
    assert(row_offset(ts, 0) == 0);
    assert(base_schema().len() == 10);
    assert(geo_out_schema().len() == 11);
    assert(schema_of(st.cols@).len() == st.cols@.len());
    assert(schema_of(u.cols@).len() == u.cols@.len());
    assert(st.cols@.len() == 10);
    assert(u.cols@.len() == 11);
    assert forall|j: int| 0 <= j < 11 implies (#[trigger] u.cols@[j]).name@ == geo_out_schema()[
        j
    ].0 by {
        assert(schema_of(u.cols@)[j].0 == u.cols@[j].name@);
    }
    assert forall|j: int| 0 <= j < 10 implies (#[trigger] st.cols@[j]).name@ == base_schema()[
        j
    ].0 by {
        assert(schema_of(st.cols@)[j].0 == st.cols@[j].name@);
    }
    assert forall|j: int| 0 <= j < 10 implies has_col(st.cols@, (#[trigger] u.cols@[j]).name@)
        && col_at(st.cols@, u.cols@[j].name@) == j by {
        assert(geo_out_schema()[j] == base_schema()[j]);
        lemma_col_at(st.cols@, base_schema()[j].0, j);
    }
    assert(u.cols@[10].name@ == "geometry_type"@);
    assert(!has_col(st.cols@, "geometry_type"@)) by {
        if has_col(st.cols@, "geometry_type"@) {
            let j = choose|j: int| 0 <= j < st.cols@.len() && (#[trigger] st.cols@[j].name@)
                == "geometry_type"@;
            assert(base_schema()[j].0 == "geometry_type"@);
        }
    }
    assert forall|i: int| 0 <= i < recs.len() implies combined_listing_row(
        recs[i],
        (#[trigger] u.rows@[i])@,
        true,
    ) by {
        assert(combined_listing_row(recs[i], st.rows@[i]@, false));
        assert(row_ok(u.rows@[i]@, u.cols@));
        assert(u.rows@[i]@.len() == 11);
        assert(unioned_cell_ok(ts[0].rows@[i]@, ts[0].cols@, u.cols@[0].name@, u.rows@[0 + i]@[0]));
        assert(unioned_cell_ok(ts[0].rows@[i]@, ts[0].cols@, u.cols@[1].name@, u.rows@[0 + i]@[1]));
        assert(unioned_cell_ok(ts[0].rows@[i]@, ts[0].cols@, u.cols@[2].name@, u.rows@[0 + i]@[2]));
        assert(unioned_cell_ok(ts[0].rows@[i]@, ts[0].cols@, u.cols@[3].name@, u.rows@[0 + i]@[3]));
        assert(unioned_cell_ok(ts[0].rows@[i]@, ts[0].cols@, u.cols@[4].name@, u.rows@[0 + i]@[4]));
        assert(unioned_cell_ok(ts[0].rows@[i]@, ts[0].cols@, u.cols@[5].name@, u.rows@[0 + i]@[5]));
        assert(unioned_cell_ok(ts[0].rows@[i]@, ts[0].cols@, u.cols@[6].name@, u.rows@[0 + i]@[6]));
        assert(unioned_cell_ok(ts[0].rows@[i]@, ts[0].cols@, u.cols@[7].name@, u.rows@[0 + i]@[7]));
        assert(unioned_cell_ok(ts[0].rows@[i]@, ts[0].cols@, u.cols@[8].name@, u.rows@[0 + i]@[8]));
        assert(unioned_cell_ok(ts[0].rows@[i]@, ts[0].cols@, u.cols@[9].name@, u.rows@[0 + i]@[9]));
        assert(unioned_cell_ok(
            ts[0].rows@[i]@,
            ts[0].cols@,
            u.cols@[10].name@,
            u.rows@[0 + i]@[10],
        ));
        assert(cell_equiv(u.rows@[i]@[0], st.rows@[i]@[0]));
        assert(cell_equiv(u.rows@[i]@[1], st.rows@[i]@[1]));
        assert(cell_equiv(u.rows@[i]@[2], st.rows@[i]@[2]));
        assert(cell_equiv(u.rows@[i]@[3], st.rows@[i]@[3]));
        assert(cell_equiv(u.rows@[i]@[4], st.rows@[i]@[4]));
        assert(cell_equiv(u.rows@[i]@[5], st.rows@[i]@[5]));
        assert(cell_equiv(u.rows@[i]@[6], st.rows@[i]@[6]));
        assert(cell_equiv(u.rows@[i]@[7], st.rows@[i]@[7]));
        assert(cell_equiv(u.rows@[i]@[8], st.rows@[i]@[8]));
        assert(cell_equiv(u.rows@[i]@[9], st.rows@[i]@[9]));
        assert(u.rows@[i]@[10] is Null);
    }
}

/// In the unioned output, each geometry set's rows carry their
/// representative point and tag in the shared columns and null elsewhere.
proof fn lemma_geo_rows_in_union(
    gs: Seq<Vec<GeometryRow>>,
    st: Table,
    u: Table,
    ts: Seq<Table>,
    rlen: int,
)
    requires
        ts.len() == gs.len() + 1,
        ts[0] == st,
        st.rows@.len() == rlen,
        rlen >= 0,
        forall|k: int| 1 <= k < ts.len() ==> (#[trigger] ts[k]).wf() && schema_of(ts[k].cols@)
            == geometry_schema() && ts[k].rows@.len() == gs[k - 1]@.len(),
        forall|k: int, i: int|
            #![trigger ts[k].rows@[i]]
            1 <= k < ts.len() && 0 <= i < ts[k].rows@.len() ==> geometry_row_matches(
                gs[k - 1]@[i],
                ts[k].rows@[i]@,
            ),
        u.wf(),
        schema_of(u.cols@) == geo_out_schema(),
        union_content(u, ts),
        u.rows@.len() == total_rows(ts),
    ensures
        forall|g: int, i: int|
            #![trigger gs[g]@[i]]
            0 <= g < gs.len() && 0 <= i < gs[g]@.len() ==> combined_geo_row(
                gs[g]@[i],
                u.rows@[rlen + geo_row_offset(gs, g) + i]@,
            ),
{
    lemma_gt_not_in_base();
    lemma_base_schema_distinct();
    assert(base_schema().len() == 10);
    assert(geo_out_schema().len() == 11);
    assert(schema_of(u.cols@).len() == u.cols@.len());
    assert(u.cols@.len() == 11);
    assert forall|j: int| 0 <= j < 11 implies (#[trigger] u.cols@[j]).name@ == geo_out_schema()[
        j
    ].0 by {
        assert(schema_of(u.cols@)[j].0 == u.cols@[j].name@);
    }
    assert forall|g: int, i: int|
        #![trigger gs[g]@[i]]
        0 <= g < gs.len() && 0 <= i < gs[g]@.len() implies combined_geo_row(
        gs[g]@[i],
        u.rows@[rlen + geo_row_offset(gs, g) + i]@,
    ) by {
        let k = g + 1;
        let gcols = ts[k].cols@;
        assert(ts[k].wf());
        lemma_geometry_resolution(gcols);
        lemma_offsets(ts, gs, g);
        assert(row_offset(ts, k) == rlen + geo_row_offset(gs, g));
        crate::combine::lemma_row_offset_bound(ts, k, ts.len() as int);
        assert(ts.take(ts.len() as int) =~= ts);
        crate::combine::lemma_total_rows_nonneg(ts.take(k));
        let off = rlen + geo_row_offset(gs, g);
        assert(0 <= off + i < u.rows@.len());
        assert(geometry_row_matches(gs[g]@[i], ts[k].rows@[i]@));
        assert(row_ok(u.rows@[off + i]@, u.cols@));
        assert(u.rows@[off + i]@.len() == 11);
        assert(unioned_cell_ok(ts[k].rows@[i]@, gcols, u.cols@[0].name@, u.rows@[off + i]@[0]));
        assert(unioned_cell_ok(ts[k].rows@[i]@, gcols, u.cols@[1].name@, u.rows@[off + i]@[1]));
        assert(unioned_cell_ok(ts[k].rows@[i]@, gcols, u.cols@[2].name@, u.rows@[off + i]@[2]));
        assert(unioned_cell_ok(ts[k].rows@[i]@, gcols, u.cols@[3].name@, u.rows@[off + i]@[3]));
        assert(unioned_cell_ok(ts[k].rows@[i]@, gcols, u.cols@[4].name@, u.rows@[off + i]@[4]));
        assert(unioned_cell_ok(ts[k].rows@[i]@, gcols, u.cols@[5].name@, u.rows@[off + i]@[5]));
        assert(unioned_cell_ok(ts[k].rows@[i]@, gcols, u.cols@[6].name@, u.rows@[off + i]@[6]));
        assert(unioned_cell_ok(ts[k].rows@[i]@, gcols, u.cols@[7].name@, u.rows@[off + i]@[7]));
        assert(unioned_cell_ok(ts[k].rows@[i]@, gcols, u.cols@[8].name@, u.rows@[off + i]@[8]));
        assert(unioned_cell_ok(ts[k].rows@[i]@, gcols, u.cols@[9].name@, u.rows@[off + i]@[9]));
        assert(unioned_cell_ok(ts[k].rows@[i]@, gcols, u.cols@[10].name@, u.rows@[off + i]@[10]));
        // The two coordinate columns and the geometry-type column map back
        // into the geometry table; every other column name is foreign to it.
        assert(u.cols@[2].name@ == "latitude"@ && col_at(gcols, "latitude"@) == 1);
        assert(u.cols@[3].name@ == "longitude"@ && col_at(gcols, "longitude"@) == 2);
        assert(u.cols@[10].name@ == "geometry_type"@ && col_at(gcols, "geometry_type"@) == 0);
        assert(cell_equiv(u.rows@[off + i]@[2], ts[k].rows@[i]@[1]));
        assert(cell_equiv(u.rows@[off + i]@[3], ts[k].rows@[i]@[2]));
        assert(cell_equiv(u.rows@[off + i]@[10], ts[k].rows@[i]@[0]));
        assert forall|j: int| 0 <= j < 10 && j != 2 && j != 3 implies !has_col(
            gcols,
            (#[trigger] u.cols@[j]).name@,
        ) by {
            let nm = u.cols@[j].name@;
            assert(nm == base_schema()[j].0);
            if has_col(gcols, nm) {
                assert(nm == "geometry_type"@ || nm == "latitude"@ || nm == "longitude"@);
                if nm == "latitude"@ {
                    assert(base_schema()[2].0 == "latitude"@);
                    if j < 2 {
                        assert(base_schema()[j].0 != base_schema()[2].0);
                    } else {
                        assert(base_schema()[2].0 != base_schema()[j].0);
                    }
                } else if nm == "longitude"@ {
                    assert(base_schema()[3].0 == "longitude"@);
                    if j < 3 {
                        assert(base_schema()[j].0 != base_schema()[3].0);
                    } else {
                        assert(base_schema()[3].0 != base_schema()[j].0);
                    }
                }
            }
        }
        assert(u.rows@[off + i]@[0] is Null);
        assert(u.rows@[off + i]@[1] is Null);
        assert(u.rows@[off + i]@[4] is Null);
        assert(u.rows@[off + i]@[5] is Null);
        assert(u.rows@[off + i]@[6] is Null);
        assert(u.rows@[off + i]@[7] is Null);
        assert(u.rows@[off + i]@[8] is Null);
        assert(u.rows@[off + i]@[9] is Null);
    }
}

/// A record whose coordinates are both the 0 sentinel is excluded from the
/// spatial index yet retained by the combiner: no index entry carries its
/// position as payload, while the combined output still holds its row, the
/// sentinel coordinates included (0 is not null, so the null filter keeps
/// it).
pub proof fn lemma_sentinel_asymmetry(
    records: Seq<ListingRecord>,
    out: Table,
    with_geo: bool,
    i: int,
)
    requires
        records.len() <= u32::MAX,
        0 <= i < records.len(),
        records[i].latitude == 0,
        records[i].longitude == 0,
        out.rows@.len() >= records.len(),
        forall|k: int| 0 <= k < records.len() ==> combined_listing_row(
            records[k],
            (#[trigger] out.rows@[k])@,
            with_geo,
        ),
    ensures
        forall|lon: i64, lat: i64| !(#[trigger] crate::spatial::entry_seq(
            records,
        ).to_multiset().contains((lon, lat, i as u32))),
        combined_listing_row(records[i], out.rows@[i]@, with_geo),
        out.rows@[i]@[2] == CellValue::Int(0),
        out.rows@[i]@[3] == CellValue::Int(0),
{
    crate::spatial::lemma_sentinel_excluded(records, i);
}

} // verus!
