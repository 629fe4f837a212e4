use vstd::prelude::*;
use vstd::string::StringExecFns;
use crate::table::{
    cell_equiv, cell_ok, col_at, distinct_names, find_col, has_col, lemma_col_at, clone_cell,
    row_ok, schema_of, CellValue, ColType, Column, Table,
};

verus! {

/// Why a combination step failed: a projected or filtered column is not in
/// the schema, or two sources give one column name different types. Either
/// failure is fatal to a run: it is a data-contract violation.
#[derive(Clone, Copy, PartialEq, Eq, Structural, Debug)]
pub enum CombineError {
    MissingColumn,
    TypeConflict,
}

/// Tests a cell for null.
pub fn is_null_cell(c: &CellValue) -> (b: bool)
    ensures
        b == (*c is Null),
{
    match c {
        CellValue::Null => true,
        _ => false,
    }
}

/// The rows kept by the coordinate filter: those whose cells in the two
/// given column positions are both non-null, in input order.
pub open spec fn kept_rows(rows: Seq<Vec<CellValue>>, la: int, lo: int) -> Seq<Vec<CellValue>>
    decreases rows.len(),
{
    if rows.len() == 0 {
        Seq::empty()
    } else {
        kept_rows(rows.drop_last(), la, lo) + (if !(rows.last()@[la] is Null) && !(
        rows.last()@[lo] is Null) {
            seq![rows.last()]
        } else {
            Seq::empty()
        })
    }
}

/// Drops every row whose latitude or longitude cell is null. A cell holding
/// the fixed-point 0 sentinel is not null and is kept. Fails only when the
/// schema has no latitude or longitude column.
pub fn filter_nonnull_coords(t: Table) -> (r: Result<Table, CombineError>)
    requires
        t.wf(),
    ensures
        match r {
            Result::Ok(ft) => {
                &&& ft.wf()
                &&& ft.cols@ == t.cols@
                &&& has_col(t.cols@, "latitude"@)
                &&& has_col(t.cols@, "longitude"@)
                &&& ft.rows@ == kept_rows(
                    t.rows@,
                    col_at(t.cols@, "latitude"@),
                    col_at(t.cols@, "longitude"@),
                )
            },
            Result::Err(e) => e == CombineError::MissingColumn && !(has_col(t.cols@, "latitude"@)
                && has_col(t.cols@, "longitude"@)),
        },
{
    let la = match find_col(&t.cols, &String::from_str("latitude")) {
        Option::Some(j) => j,
        Option::None => {
            return Result::Err(CombineError::MissingColumn);
        },
    };
    let lo = match find_col(&t.cols, &String::from_str("longitude")) {
        Option::Some(j) => j,
        Option::None => {
            return Result::Err(CombineError::MissingColumn);
        },
    };
    proof {
        lemma_col_at(t.cols@, "latitude"@, la as int);
        lemma_col_at(t.cols@, "longitude"@, lo as int);
    }
    let Table { cols, rows } = t;
    let ghost rows_view = rows@;
    let n = rows.len();
    let mut kept: Vec<Vec<CellValue>> = Vec::new();
    let mut rest = rows;
    let mut taken: usize = 0;
    while taken < n
        invariant
            n == rows_view.len(),
            taken <= n,
            rest@ == rows_view.skip(taken as int),
            la < cols@.len(),
            lo < cols@.len(),
            forall|i: int| 0 <= i < rows_view.len() ==> row_ok((#[trigger] rows_view[i])@, cols@),
            kept@ == kept_rows(rows_view.take(taken as int), la as int, lo as int),
            forall|i: int| 0 <= i < kept@.len() ==> row_ok((#[trigger] kept@[i])@, cols@),
        decreases n - taken,
    {
        let row = rest.remove(0);
        proof {
            assert(row == rows_view[taken as int]);
            assert(rest@ =~= rows_view.skip(taken + 1));
            assert(rows_view.take(taken + 1).drop_last() =~= rows_view.take(taken as int));
            assert(rows_view.take(taken + 1).last() == rows_view[taken as int]);
        }
        if !is_null_cell(&row[la]) && !is_null_cell(&row[lo]) {
            kept.push(row);
        }
        taken = taken + 1;
    }
    proof {
        assert(rows_view.take(n as int) =~= rows_view);
    }
    Result::Ok(Table { cols, rows: kept })
}

/// Projects a table to the named columns, in the given order, copying each
/// row's cells for those columns. Fails exactly when a requested name is
/// not in the schema.
pub fn select_columns(t: &Table, names: &Vec<String>) -> (r: Result<Table, CombineError>)
    requires
        t.wf(),
        forall|a: int, b: int| 0 <= a < b < names@.len() ==> (#[trigger] names@[a])@ != (
        #[trigger] names@[b])@,
    ensures
        match r {
            Result::Ok(st) => {
                &&& st.wf()
                &&& st.cols@.len() == names@.len()
                &&& forall|j: int| 0 <= j < names@.len() ==> has_col(t.cols@, (
                #[trigger] names@[j])@)
                &&& forall|j: int| 0 <= j < names@.len() ==> (#[trigger] st.cols@[j]).name@
                    == names@[j]@ && st.cols@[j].ctype == t.cols@[col_at(
                    t.cols@,
                    names@[j]@,
                )].ctype
                &&& st.rows@.len() == t.rows@.len()
                &&& forall|i: int, j: int| #![trigger st.rows@[i]@[j]]
                    0 <= i < t.rows@.len() && 0 <= j < names@.len() ==> cell_equiv(
                        st.rows@[i]@[j],
                        t.rows@[i]@[col_at(t.cols@, names@[j]@)],
                    )
            },
            Result::Err(e) => e == CombineError::MissingColumn && exists|j: int|
                0 <= j < names@.len() && !has_col(t.cols@, (#[trigger] names@[j])@),
        },
{
    let m = names.len();
    let mut idxs: Vec<usize> = Vec::new();
    let mut cols: Vec<Column> = Vec::new();
    let mut j: usize = 0;
    while j < m
        invariant
            m == names@.len(),
            j <= m,
            t.wf(),
            idxs@.len() == j,
            cols@.len() == j,
            forall|a: int, b: int| 0 <= a < b < names@.len() ==> (#[trigger] names@[a])@ != (
            #[trigger] names@[b])@,
            forall|k: int| 0 <= k < j ==> (#[trigger] idxs@[k]) < t.cols@.len()
                && t.cols@[idxs@[k] as int].name@ == names@[k]@ && col_at(t.cols@, names@[k]@)
                == idxs@[k] as int && has_col(t.cols@, names@[k]@),
            forall|k: int| 0 <= k < j ==> (#[trigger] cols@[k]).name@ == names@[k]@
                && cols@[k].ctype == t.cols@[idxs@[k] as int].ctype,
        decreases m - j,
    {
        match find_col(&t.cols, &names[j]) {
            Option::Some(idx) => {
                proof {
                    lemma_col_at(t.cols@, names@[j as int]@, idx as int);
                }
                let ctype = t.cols[idx].ctype;
                cols.push(Column { name: names[j].clone(), ctype });
                idxs.push(idx);
            },
            Option::None => {
                return Result::Err(CombineError::MissingColumn);
            },
        }
        j = j + 1;
    }
    let n = t.rows.len();
    let mut out_rows: Vec<Vec<CellValue>> = Vec::new();
    let mut i: usize = 0;
    while i < n
        invariant
            n == t.rows@.len(),
            i <= n,
            m == names@.len(),
            t.wf(),
            idxs@.len() == m,
            cols@.len() == m,
            forall|k: int| 0 <= k < m ==> (#[trigger] idxs@[k]) < t.cols@.len()
                && t.cols@[idxs@[k] as int].name@ == names@[k]@ && col_at(t.cols@, names@[k]@)
                == idxs@[k] as int && has_col(t.cols@, names@[k]@),
            forall|k: int| 0 <= k < m ==> (#[trigger] cols@[k]).name@ == names@[k]@
                && cols@[k].ctype == t.cols@[idxs@[k] as int].ctype,
            out_rows@.len() == i,
            forall|a: int, b: int| 0 <= a < b < names@.len() ==> (#[trigger] names@[a])@ != (
            #[trigger] names@[b])@,
            forall|ii: int, k: int| #![trigger out_rows@[ii]@[k]]
                0 <= ii < i && 0 <= k < m ==> cell_equiv(
                    out_rows@[ii]@[k],
                    t.rows@[ii]@[idxs@[k] as int],
                ),
            forall|ii: int| 0 <= ii < i ==> (#[trigger] out_rows@[ii])@.len() == m,
            forall|ii: int| 0 <= ii < i ==> row_ok((#[trigger] out_rows@[ii])@, cols@),
        decreases n - i,
    {
        let src = &t.rows[i];
        let mut out_row: Vec<CellValue> = Vec::new();
        let mut k: usize = 0;
        while k < m
            invariant
                m == names@.len(),
                k <= m,
                t.wf(),
                i < t.rows@.len(),
                idxs@.len() == m,
                cols@.len() == m,
                src == t.rows@[i as int],
                forall|kk: int| 0 <= kk < m ==> (#[trigger] idxs@[kk]) < t.cols@.len()
                    && t.cols@[idxs@[kk] as int].name@ == names@[kk]@,
                forall|kk: int| 0 <= kk < m ==> (#[trigger] cols@[kk]).ctype == t.cols@[idxs@[kk] as int].ctype,
                out_row@.len() == k,
                forall|kk: int| 0 <= kk < k ==> cell_equiv(
                    #[trigger] out_row@[kk],
                    t.rows@[i as int]@[idxs@[kk] as int],
                ),
                forall|kk: int| 0 <= kk < k ==> cell_ok(#[trigger] out_row@[kk], cols@[kk].ctype),
            decreases m - k,
        {
            let idx = idxs[k];
            assert(row_ok(t.rows@[i as int]@, t.cols@));
            let cell = clone_cell(&src[idx]);
            proof {
                assert(cell_ok(t.rows@[i as int]@[idx as int], t.cols@[idx as int].ctype));
            }
            out_row.push(cell);
            k = k + 1;
        }
        out_rows.push(out_row);
        i = i + 1;
    }
    proof {
        assert forall|a: int, b: int| 0 <= a < b < cols@.len() implies (#[trigger] cols@[a].name@)
            != (#[trigger] cols@[b].name@) by {
            assert(names@[a]@ != names@[b]@);
        }
    }
    let st = Table { cols, rows: out_rows };
    proof {
        assert forall|ii: int, jj: int| #![trigger st.rows@[ii]@[jj]]
            0 <= ii < t.rows@.len() && 0 <= jj < names@.len() implies cell_equiv(
            st.rows@[ii]@[jj],
            t.rows@[ii]@[col_at(t.cols@, names@[jj]@)],
        ) by {
            assert(cell_equiv(st.rows@[ii]@[jj], t.rows@[ii]@[idxs@[jj] as int]));
        }
    }
    proof {
        assert forall|jj: int| 0 <= jj < names@.len() implies has_col(
            t.cols@,
            (#[trigger] names@[jj])@,
        ) by {
            assert(idxs@[jj] < t.cols@.len());
        }
    }
    Result::Ok(st)
}

/// The `(name, type)` pair schema has an entry of the given name.
pub open spec fn sch_has(s: Seq<(Seq<char>, ColType)>, name: Seq<char>) -> bool {
    exists|j: int| 0 <= j < s.len() && (#[trigger] s[j]).0 == name
}

/// Merging one source schema into an accumulated one: entries whose name is
/// already present are dropped, new names are appended in source order.
pub open spec fn merge_schema(
    acc: Seq<(Seq<char>, ColType)>,
    cs: Seq<(Seq<char>, ColType)>,
) -> Seq<(Seq<char>, ColType)>
    decreases cs.len(),
{
    if cs.len() == 0 {
        acc
    } else {
        let m = merge_schema(acc, cs.drop_last());
        if sch_has(m, cs.last().0) {
            m
        } else {
            m.push(cs.last())
        }
    }
}

/// The unioned schema of a table sequence: the first table's columns, then
/// each later table's yet-unseen columns, in order.
pub open spec fn union_schema(ts: Seq<Table>) -> Seq<(Seq<char>, ColType)>
    decreases ts.len(),
{
    if ts.len() == 0 {
        Seq::empty()
    } else {
        merge_schema(union_schema(ts.drop_last()), schema_of(ts.last().cols@))
    }
}

/// Two columns anywhere among the tables share a name but differ in type.
pub open spec fn schemas_conflict(ts: Seq<Table>) -> bool {
    exists|k1: int, i1: int, k2: int, i2: int|
        #![trigger ts[k1].cols@[i1], ts[k2].cols@[i2]]
        0 <= k1 < ts.len() && 0 <= i1 < ts[k1].cols@.len() && 0 <= k2 < ts.len() && 0 <= i2
            < ts[k2].cols@.len() && ts[k1].cols@[i1].name@ == ts[k2].cols@[i2].name@
            && ts[k1].cols@[i1].ctype != ts[k2].cols@[i2].ctype
}

/// The total row count of a table sequence.
pub open spec fn total_rows(ts: Seq<Table>) -> int
    decreases ts.len(),
{
    if ts.len() == 0 {
        0
    } else {
        total_rows(ts.drop_last()) + ts.last().rows@.len()
    }
}

/// Where table `k`'s rows start in the unioned row sequence.
pub open spec fn row_offset(ts: Seq<Table>, k: int) -> int {
    total_rows(ts.take(k))
}

/// The cell a unioned row holds for a named output column: the source
/// row's cell when the source has that column, null otherwise.
pub open spec fn unioned_cell_ok(
    src_row: Seq<CellValue>,
    src_cols: Seq<Column>,
    name: Seq<char>,
    out_cell: CellValue,
) -> bool {
    if has_col(src_cols, name) {
        cell_equiv(out_cell, src_row[col_at(src_cols, name)])
    } else {
        out_cell is Null
    }
}

/// Every source column has a matching output column of the same type.
pub open spec fn cols_agree(ucols: Seq<Column>, tcols: Seq<Column>) -> bool {
    forall|ii: int| 0 <= ii < tcols.len() ==> has_col(ucols, (#[trigger] tcols[ii]).name@)
        && ucols[col_at(ucols, tcols[ii].name@)].ctype == tcols[ii].ctype
}

/// A schema of `Column`s has a name exactly when its pair form has it.
proof fn lemma_sch_has_col(cols: Seq<Column>, name: Seq<char>)
    ensures
        sch_has(schema_of(cols), name) == has_col(cols, name),
{
    if has_col(cols, name) {
        let j = choose|j: int| 0 <= j < cols.len() && (#[trigger] cols[j].name@) == name;
        assert(schema_of(cols)[j].0 == name);
    }
    if sch_has(schema_of(cols), name) {
        let j = choose|j: int| 0 <= j < schema_of(cols).len() && (#[trigger] schema_of(cols)[j]).0
            == name;
        assert(cols[j].name@ == name);
    }
}

/// Compares two column types.
fn col_type_eq(a: ColType, b: ColType) -> (r: bool)
    ensures
        r == (a == b),
{
    match (a, b) {
        (ColType::IntCol, ColType::IntCol) => true,
        (ColType::TextCol, ColType::TextCol) => true,
        _ => false,
    }
}

/// Builds the unioned schema of the tables: the first table's columns, then
/// each later table's new columns, each name's first occurrence fixing its
/// position and type. Fails exactly when two sources give one column name
/// different types.
#[verifier::rlimit(60)]
fn build_union_cols(tables: &Vec<Table>) -> (r: Result<Vec<Column>, CombineError>)
    requires
        forall|k: int| 0 <= k < tables@.len() ==> (#[trigger] tables@[k]).wf(),
    ensures
        match r {
            Result::Ok(ucols) => {
                &&& distinct_names(ucols@)
                &&& schema_of(ucols@) == union_schema(tables@)
                &&& forall|k: int| 0 <= k < tables@.len() ==> cols_agree(
                    ucols@,
                    (#[trigger] tables@[k]).cols@,
                )
                &&& !schemas_conflict(tables@)
            },
            Result::Err(e) => e == CombineError::TypeConflict && schemas_conflict(tables@),
        },
{
    let ghost ts = tables@;
    let nt = tables.len();
    let mut ucols: Vec<Column> = Vec::new();
    let mut k: usize = 0;
    while k < nt
        invariant
            nt == ts.len(),
            k <= nt,
            forall|kk: int| 0 <= kk < ts.len() ==> (#[trigger] ts[kk]).wf(),
            tables@ == ts,
            distinct_names(ucols@),
            schema_of(ucols@) == union_schema(ts.take(k as int)),
            forall|kk: int| 0 <= kk < k ==> cols_agree(ucols@, (#[trigger] ts[kk]).cols@),
            forall|j: int| 0 <= j < ucols@.len() ==> exists|kk: int, ii: int|
                #![trigger ts[kk].cols@[ii]]
                0 <= kk < ts.len() && 0 <= ii < ts[kk].cols@.len() && ts[kk].cols@[ii].name@ == (
                #[trigger] ucols@[j]).name@ && ts[kk].cols@[ii].ctype == ucols@[j].ctype,
        decreases nt - k,
    {
        let tcols = &tables[k].cols;
        let m = tcols.len();
        let mut i: usize = 0;
        while i < m
            invariant
                nt == ts.len(),
                k < nt,
                m == ts[k as int].cols@.len(),
                i <= m,
                forall|kk: int| 0 <= kk < ts.len() ==> (#[trigger] ts[kk]).wf(),
                tables@ == ts,
                tcols == ts[k as int].cols,
                distinct_names(ucols@),
                schema_of(ucols@) == merge_schema(
                    union_schema(ts.take(k as int)),
                    schema_of(ts[k as int].cols@).take(i as int),
                ),
                forall|kk: int| 0 <= kk < k ==> cols_agree(ucols@, (#[trigger] ts[kk]).cols@),
                forall|ii: int|
                    0 <= ii < i ==> has_col(ucols@, (#[trigger] ts[k as int].cols@[ii]).name@)
                        && ucols@[col_at(ucols@, ts[k as int].cols@[ii].name@)].ctype
                        == ts[k as int].cols@[ii].ctype,
                forall|j: int| 0 <= j < ucols@.len() ==> exists|kk: int, ii: int|
                    #![trigger ts[kk].cols@[ii]]
                    0 <= kk < ts.len() && 0 <= ii < ts[kk].cols@.len() && ts[kk].cols@[ii].name@
                        == (#[trigger] ucols@[j]).name@ && ts[kk].cols@[ii].ctype
                        == ucols@[j].ctype,
            decreases m - i,
        {
            let col = &tcols[i];
            proof {
                let cs = schema_of(ts[k as int].cols@);
                assert(cs.take(i + 1).drop_last() =~= cs.take(i as int));
                assert(cs.take(i + 1).last() == cs[i as int]);
                lemma_sch_has_col(ucols@, col.name@);
            }
            match find_col(&ucols, &col.name) {
                Option::Some(j) => {
                    if !col_type_eq(ucols[j].ctype, col.ctype) {
                        proof {
                            lemma_col_at(ucols@, col.name@, j as int);
                            let (wk, wi) = choose|kk: int, ii: int|
                                #![trigger ts[kk].cols@[ii]]
                                0 <= kk < ts.len() && 0 <= ii < ts[kk].cols@.len()
                                    && ts[kk].cols@[ii].name@ == ucols@[j as int].name@
                                    && ts[kk].cols@[ii].ctype == ucols@[j as int].ctype;
                            assert(ts[wk].cols@[wi].name@ == ts[k as int].cols@[i as int].name@
                                && ts[wk].cols@[wi].ctype != ts[k as int].cols@[i as int].ctype);
                        }
                        return Result::Err(CombineError::TypeConflict);
                    }
                    proof {
                        lemma_col_at(ucols@, col.name@, j as int);
                        assert(schema_of(ucols@) =~= merge_schema(
                            union_schema(ts.take(k as int)),
                            schema_of(ts[k as int].cols@).take(i + 1),
                        ));
                    }
                },
                Option::None => {
                    let ghost old_ucols = ucols@;
                    ucols.push(Column { name: col.name.clone(), ctype: col.ctype });
                    proof {
                        assert(schema_of(ucols@) =~= merge_schema(
                            union_schema(ts.take(k as int)),
                            schema_of(ts[k as int].cols@).take(i + 1),
                        ));
                        assert forall|a: int, b: int| 0 <= a < b < ucols@.len() implies (
                        #[trigger] ucols@[a].name@) != (#[trigger] ucols@[b].name@) by {
                            if b == ucols@.len() - 1 {
                                assert(!has_col(old_ucols, col.name@));
                                assert(old_ucols[a].name@ != col.name@);
                            }
                        }
                        assert forall|kk: int| 0 <= kk < k implies cols_agree(
                            ucols@,
                            (#[trigger] ts[kk]).cols@,
                        ) by {
                            assert forall|ii: int| 0 <= ii < ts[kk].cols@.len() implies has_col(
                                ucols@,
                                (#[trigger] ts[kk].cols@[ii]).name@,
                            ) && ucols@[col_at(ucols@, ts[kk].cols@[ii].name@)].ctype
                                == ts[kk].cols@[ii].ctype by {
                                assert(cols_agree(old_ucols, ts[kk].cols@));
                                let nm = ts[kk].cols@[ii].name@;
                                let j0 = col_at(old_ucols, nm);
                                assert(has_col(old_ucols, nm));
                                assert(ucols@[j0].name@ == nm);
                                lemma_col_at(ucols@, nm, j0);
                            }
                        }
                        assert forall|ii: int| 0 <= ii < i + 1 implies has_col(
                            ucols@,
                            (#[trigger] ts[k as int].cols@[ii]).name@,
                        ) && ucols@[col_at(ucols@, ts[k as int].cols@[ii].name@)].ctype
                            == ts[k as int].cols@[ii].ctype by {
                            let nm = ts[k as int].cols@[ii].name@;
                            if ii < i {
                                let j0 = col_at(old_ucols, nm);
                                assert(has_col(old_ucols, nm));
                                assert(ucols@[j0].name@ == nm);
                                lemma_col_at(ucols@, nm, j0);
                            } else {
                                lemma_col_at(ucols@, nm, ucols@.len() - 1);
                            }
                        }
                    }
                },
            }
            i = i + 1;
        }
        proof {
            assert(schema_of(ts[k as int].cols@).take(m as int) =~= schema_of(
                ts[k as int].cols@,
            ));
            assert(ts.take(k + 1).drop_last() =~= ts.take(k as int));
            assert(ts.take(k + 1).last() == ts[k as int]);
            assert(cols_agree(ucols@, ts[k as int].cols@));
        }
        k = k + 1;
    }
    proof {
        assert(ts.take(nt as int) =~= ts);
        assert forall|k1: int, i1: int, kq: int, i2: int|
            #![trigger ts[k1].cols@[i1], ts[kq].cols@[i2]]
            0 <= k1 < ts.len() && 0 <= i1 < ts[k1].cols@.len() && 0 <= kq < ts.len() && 0 <= i2
                < ts[kq].cols@.len() && ts[k1].cols@[i1].name@ == ts[kq].cols@[i2].name@ implies
            ts[k1].cols@[i1].ctype == ts[kq].cols@[i2].ctype by {
            let nm = ts[k1].cols@[i1].name@;
            assert(cols_agree(ucols@, ts[k1].cols@));
            assert(cols_agree(ucols@, ts[kq].cols@));
            assert(ucols@[col_at(ucols@, nm)].ctype == ts[k1].cols@[i1].ctype);
            assert(ucols@[col_at(ucols@, nm)].ctype == ts[kq].cols@[i2].ctype);
        }
    }
    Result::Ok(ucols)
}

/// For each output column, the position of the source column of the same
/// name, if the source has one.
fn build_cmap(tcols: &Vec<Column>, ucols: &Vec<Column>) -> (cmap: Vec<Option<usize>>)
    requires
        distinct_names(tcols@),
    ensures
        cmap@.len() == ucols@.len(),
        forall|jj: int| 0 <= jj < ucols@.len() ==> match #[trigger] cmap@[jj] {
            Option::Some(sc) => sc < tcols@.len() && tcols@[sc as int].name@
                == ucols@[jj].name@ && col_at(tcols@, ucols@[jj].name@) == sc as int && has_col(
                tcols@,
                ucols@[jj].name@,
            ),
            Option::None => !has_col(tcols@, ucols@[jj].name@),
        },
{
    let uw = ucols.len();
    let mut cmap: Vec<Option<usize>> = Vec::new();
    let mut j: usize = 0;
    while j < uw
        invariant
            uw == ucols@.len(),
            j <= uw,
            distinct_names(tcols@),
            cmap@.len() == j,
            forall|jj: int| 0 <= jj < j ==> match #[trigger] cmap@[jj] {
                Option::Some(sc) => sc < tcols@.len() && tcols@[sc as int].name@
                    == ucols@[jj].name@ && col_at(tcols@, ucols@[jj].name@) == sc as int
                    && has_col(tcols@, ucols@[jj].name@),
                Option::None => !has_col(tcols@, ucols@[jj].name@),
            },
        decreases uw - j,
    {
        match find_col(tcols, &ucols[j].name) {
            Option::Some(sc) => {
                proof {
                    lemma_col_at(tcols@, ucols@[j as int].name@, sc as int);
                }
                cmap.push(Option::Some(sc));
            },
            Option::None => {
                cmap.push(Option::None);
            },
        }
        j = j + 1;
    }
    cmap
}

/// Lays one source row out on the unioned schema: the source's cell for
/// each output column the source has, null for the rest.
fn conform_row(
    row: &Vec<CellValue>,
    cmap: &Vec<Option<usize>>,
    tcols: &Vec<Column>,
    ucols: &Vec<Column>,
) -> (out: Vec<CellValue>)
    requires
        distinct_names(tcols@),
        distinct_names(ucols@),
        row_ok(row@, tcols@),
        cols_agree(ucols@, tcols@),
        cmap@.len() == ucols@.len(),
        forall|jj: int| 0 <= jj < ucols@.len() ==> match #[trigger] cmap@[jj] {
            Option::Some(sc) => sc < tcols@.len() && tcols@[sc as int].name@
                == ucols@[jj].name@ && col_at(tcols@, ucols@[jj].name@) == sc as int && has_col(
                tcols@,
                ucols@[jj].name@,
            ),
            Option::None => !has_col(tcols@, ucols@[jj].name@),
        },
    ensures
        out@.len() == ucols@.len(),
        row_ok(out@, ucols@),
        forall|jj: int| 0 <= jj < ucols@.len() ==> unioned_cell_ok(
            row@,
            tcols@,
            (#[trigger] ucols@[jj]).name@,
            out@[jj],
        ),
{
    let uw = ucols.len();
    let mut out: Vec<CellValue> = Vec::new();
    let mut j: usize = 0;
    while j < uw
        invariant
            uw == ucols@.len(),
            j <= uw,
            distinct_names(tcols@),
            distinct_names(ucols@),
            row_ok(row@, tcols@),
            cols_agree(ucols@, tcols@),
            cmap@.len() == uw,
            forall|jj: int| 0 <= jj < uw ==> match #[trigger] cmap@[jj] {
                Option::Some(sc) => sc < tcols@.len() && tcols@[sc as int].name@
                    == ucols@[jj].name@ && col_at(tcols@, ucols@[jj].name@) == sc as int
                    && has_col(tcols@, ucols@[jj].name@),
                Option::None => !has_col(tcols@, ucols@[jj].name@),
            },
            out@.len() == j,
            forall|jj: int| 0 <= jj < j ==> unioned_cell_ok(
                row@,
                tcols@,
                (#[trigger] ucols@[jj]).name@,
                out@[jj],
            ),
            forall|jj: int| 0 <= jj < j ==> cell_ok(#[trigger] out@[jj], ucols@[jj].ctype),
        decreases uw - j,
    {
        match cmap[j] {
            Option::Some(sc) => {
                let cell = clone_cell(&row[sc]);
                proof {
                    assert(cell_ok(row@[sc as int], tcols@[sc as int].ctype));
                    assert(has_col(ucols@, tcols@[sc as int].name@));
                    lemma_col_at(ucols@, tcols@[sc as int].name@, j as int);
                }
                out.push(cell);
            },
            Option::None => {
                out.push(CellValue::Null);
            },
        }
        j = j + 1;
    }
    out
}

/// Extending a prefix by one table adds that table's row count.
pub proof fn lemma_total_rows_step(ts: Seq<Table>, a: int)
    requires
        0 <= a < ts.len(),
    ensures
        total_rows(ts.take(a + 1)) == total_rows(ts.take(a)) + ts[a].rows@.len(),
{
    assert(ts.take(a + 1).drop_last() =~= ts.take(a));
    assert(ts.take(a + 1).last() == ts[a]);
}

/// A prefix's total row count is never negative.
pub proof fn lemma_total_rows_nonneg(ts: Seq<Table>)
    ensures
        total_rows(ts) >= 0,
    decreases ts.len(),
{
    if ts.len() > 0 {
        lemma_total_rows_nonneg(ts.drop_last());
    }
}

/// A table's rows end no later than any longer prefix's total.
pub proof fn lemma_row_offset_bound(ts: Seq<Table>, kk: int, k2: int)
    requires
        0 <= kk < k2 <= ts.len(),
    ensures
        row_offset(ts, kk) + ts[kk].rows@.len() <= total_rows(ts.take(k2)),
    decreases k2 - kk,
{
    lemma_total_rows_step(ts, kk);
    if kk + 1 < k2 {
        lemma_row_offset_bound(ts, kk + 1, k2);
        assert(row_offset(ts, kk + 1) == total_rows(ts.take(kk + 1)));
    }
}

/// Schema-unions the given tables into one: output columns are the union of
/// the tables' columns (first occurrence fixes the position and type), rows
/// are all tables' rows in table order, each laid out on the unioned schema
/// with null for the columns its source does not have. Fails exactly when
/// two sources give one column name different types.
#[verifier::rlimit(60)]
pub fn schema_union(tables: Vec<Table>) -> (r: Result<Table, CombineError>)
    requires
        forall|k: int| 0 <= k < tables@.len() ==> (#[trigger] tables@[k]).wf(),
    ensures
        match r {
            Result::Ok(u) => {
                &&& u.wf()
                &&& schema_of(u.cols@) == union_schema(tables@)
                &&& u.rows@.len() == total_rows(tables@)
                &&& forall|k: int, i: int, j: int|
                    #![trigger tables@[k].rows@[i], u.cols@[j]]
                    0 <= k < tables@.len() && 0 <= i < tables@[k].rows@.len() && 0 <= j
                        < u.cols@.len() ==> unioned_cell_ok(
                        tables@[k].rows@[i]@,
                        tables@[k].cols@,
                        u.cols@[j].name@,
                        u.rows@[row_offset(tables@, k) + i]@[j],
                    )
                &&& !schemas_conflict(tables@)
            },
            Result::Err(e) => e == CombineError::TypeConflict && schemas_conflict(tables@),
        },
{
    let ghost ts = tables@;
    let ucols = match build_union_cols(&tables) {
        Result::Ok(u) => u,
        Result::Err(e) => {
            return Result::Err(e);
        },
    };
    let ghost ucols_view = ucols@;
    let nt = tables.len();
    let uw = ucols.len();
    let mut out_rows: Vec<Vec<CellValue>> = Vec::new();
    let mut rest = tables;
    let mut k2: usize = 0;
    while k2 < nt
        invariant
            nt == ts.len(),
            k2 <= nt,
            uw == ucols@.len(),
            ucols@ == ucols_view,
            forall|kk: int| 0 <= kk < ts.len() ==> (#[trigger] ts[kk]).wf(),
            rest@ == ts.skip(k2 as int),
            distinct_names(ucols@),
            forall|kk: int| 0 <= kk < ts.len() ==> cols_agree(ucols@, (#[trigger] ts[kk]).cols@),
            out_rows@.len() == total_rows(ts.take(k2 as int)),
            forall|ii: int| 0 <= ii < out_rows@.len() ==> row_ok(
                (#[trigger] out_rows@[ii])@,
                ucols@,
            ),
            forall|kk: int, i: int, j: int|
                #![trigger ts[kk].rows@[i], ucols@[j]]
                0 <= kk < k2 && 0 <= i < ts[kk].rows@.len() && 0 <= j < ucols@.len()
                    ==> unioned_cell_ok(
                    ts[kk].rows@[i]@,
                    ts[kk].cols@,
                    ucols@[j].name@,
                    out_rows@[row_offset(ts, kk) + i]@[j],
                ),
        decreases nt - k2,
    {
        let tbl = rest.remove(0);
        proof {
            assert(tbl == ts[k2 as int]);
            assert(rest@ =~= ts.skip(k2 + 1));
            assert(ts[k2 as int].wf());
        }
        let Table { cols: tcols, rows: trows } = tbl;
        let cmap = build_cmap(&tcols, &ucols);
        let rn = trows.len();
        let ghost trows_view = trows@;
        let mut rrest = trows;
        let mut i: usize = 0;
        while i < rn
            invariant
                rn == trows_view.len(),
                i <= rn,
                uw == ucols@.len(),
                nt == ts.len(),
                k2 < nt,
                forall|kk: int| 0 <= kk < ts.len() ==> (#[trigger] ts[kk]).wf(),
                trows_view == ts[k2 as int].rows@,
                tcols@ == ts[k2 as int].cols@,
                rrest@ == trows_view.skip(i as int),
                distinct_names(ucols@),
                distinct_names(tcols@),
                ucols@ == ucols_view,
                cols_agree(ucols@, tcols@),
                forall|kk: int| 0 <= kk < ts.len() ==> cols_agree(
                    ucols@,
                    (#[trigger] ts[kk]).cols@,
                ),
                cmap@.len() == uw,
                forall|jj: int| 0 <= jj < uw ==> match #[trigger] cmap@[jj] {
                    Option::Some(sc) => sc < tcols@.len() && tcols@[sc as int].name@
                        == ucols@[jj].name@ && col_at(tcols@, ucols@[jj].name@) == sc as int
                        && has_col(tcols@, ucols@[jj].name@),
                    Option::None => !has_col(tcols@, ucols@[jj].name@),
                },
                out_rows@.len() == total_rows(ts.take(k2 as int)) + i,
                forall|ii: int| 0 <= ii < out_rows@.len() ==> row_ok(
                    (#[trigger] out_rows@[ii])@,
                    ucols@,
                ),
                forall|kk: int, ii: int, j: int|
                    #![trigger ts[kk].rows@[ii], ucols@[j]]
                    0 <= kk < k2 && 0 <= ii < ts[kk].rows@.len() && 0 <= j < ucols@.len()
                        ==> unioned_cell_ok(
                        ts[kk].rows@[ii]@,
                        ts[kk].cols@,
                        ucols@[j].name@,
                        out_rows@[row_offset(ts, kk) + ii]@[j],
                    ),
                forall|ii: int, j: int|
                    #![trigger trows_view[ii], ucols@[j]]
                    0 <= ii < i && 0 <= j < ucols@.len() ==> unioned_cell_ok(
                        trows_view[ii]@,
                        tcols@,
                        ucols@[j].name@,
                        out_rows@[total_rows(ts.take(k2 as int)) + ii]@[j],
                    ),
            decreases rn - i,
        {
            let row = rrest.remove(0);
            proof {
                assert(row == trows_view[i as int]);
                assert(rrest@ =~= trows_view.skip(i + 1));
                assert(row_ok(row@, tcols@));
            }
            let out_row = conform_row(&row, &cmap, &tcols, &ucols);
            let ghost old_out = out_rows@;
            out_rows.push(out_row);
            proof {
                assert forall|kk: int, ii: int, j: int|
                    #![trigger ts[kk].rows@[ii], ucols@[j]]
                    0 <= kk < k2 && 0 <= ii < ts[kk].rows@.len() && 0 <= j < ucols@.len()
                        implies unioned_cell_ok(
                    ts[kk].rows@[ii]@,
                    ts[kk].cols@,
                    ucols@[j].name@,
                    out_rows@[row_offset(ts, kk) + ii]@[j],
                ) by {
                    lemma_row_offset_bound(ts, kk, k2 as int);
                    lemma_total_rows_nonneg(ts.take(kk));
                    assert(out_rows@[row_offset(ts, kk) + ii] == old_out[row_offset(ts, kk)
                        + ii]);
                }
                assert forall|ii: int, j: int|
                    #![trigger trows_view[ii], ucols@[j]]
                    0 <= ii < i + 1 && 0 <= j < ucols@.len() implies unioned_cell_ok(
                    trows_view[ii]@,
                    tcols@,
                    ucols@[j].name@,
                    out_rows@[total_rows(ts.take(k2 as int)) + ii]@[j],
                ) by {
                    lemma_total_rows_nonneg(ts.take(k2 as int));
                    if ii < i {
                        assert(out_rows@[total_rows(ts.take(k2 as int)) + ii] == old_out[
                            total_rows(ts.take(k2 as int)) + ii]);
                    } else {
                        assert(out_rows@[total_rows(ts.take(k2 as int)) + ii] == out_row);
                        assert(unioned_cell_ok(row@, tcols@, ucols@[j].name@, out_row@[j]));
                    }
                }
            }
            i = i + 1;
        }
        proof {
            assert(ts.take(k2 + 1).drop_last() =~= ts.take(k2 as int));
            assert(ts.take(k2 + 1).last() == ts[k2 as int]);
        }
        k2 = k2 + 1;
    }
    proof {
        assert(ts.take(nt as int) =~= ts);
    }
    Result::Ok(Table { cols: ucols, rows: out_rows })
}

} // verus!
