use vstd::prelude::*;
use vstd::string::{StringExecFns, StrSliceExecFns};
use crate::table::{cell_equiv, row_ok, CellValue, Column, Table};

verus! {

/// The decimal digit character for one digit value.
pub open spec fn digit_char(d: int) -> char {
    if d == 0 {
        '0'
    } else if d == 1 {
        '1'
    } else if d == 2 {
        '2'
    } else if d == 3 {
        '3'
    } else if d == 4 {
        '4'
    } else if d == 5 {
        '5'
    } else if d == 6 {
        '6'
    } else if d == 7 {
        '7'
    } else if d == 8 {
        '8'
    } else {
        '9'
    }
}

/// The decimal digits of a natural number, most significant first.
pub open spec fn dec_chars_nat(n: nat) -> Seq<char>
    decreases n,
{
    if n < 10 {
        seq![digit_char(n as int)]
    } else {
        dec_chars_nat(n / 10).push(digit_char((n % 10) as int))
    }
}

/// The decimal rendering of an integer, with a leading minus sign when
/// negative.
pub open spec fn dec_chars(v: int) -> Seq<char> {
    if v < 0 {
        seq!['-'] + dec_chars_nat((-v) as nat)
    } else {
        dec_chars_nat(v as nat)
    }
}

/// One character of text in its escaped wire form: a quote or backslash is
/// preceded by a backslash, everything else stands as itself.
pub open spec fn esc_char(c: char) -> Seq<char> {
    if c == '"' || c == '\\' {
        seq!['\\', c]
    } else {
        seq![c]
    }
}

/// Text in its escaped wire form.
pub open spec fn escape_chars(s: Seq<char>) -> Seq<char>
    decreases s.len(),
{
    if s.len() == 0 {
        Seq::empty()
    } else {
        escape_chars(s.drop_last()) + esc_char(s.last())
    }
}

/// One cell's wire form: the null keyword, a decimal number, or quoted
/// escaped text.
pub open spec fn cell_json(c: CellValue) -> Seq<char> {
    match c {
        CellValue::Null => "null"@,
        CellValue::Int(v) => dec_chars(v as int),
        CellValue::Text(s) => seq!['"'] + escape_chars(s@) + seq!['"'],
    }
}

/// One field of a record object: the quoted column name, a colon, and the
/// cell's wire form.
pub open spec fn field_json(col: Column, c: CellValue) -> Seq<char> {
    seq!['"'] + escape_chars(col.name@) + seq!['"', ':'] + cell_json(c)
}

/// A row's fields, comma-separated, in column order.
pub open spec fn row_fields_json(cols: Seq<Column>, row: Seq<CellValue>) -> Seq<char>
    decreases cols.len(),
{
    if cols.len() == 0 {
        Seq::empty()
    } else if cols.len() == 1 {
        field_json(cols[0], row[0])
    } else {
        row_fields_json(cols.drop_last(), row.drop_last()) + seq![','] + field_json(
            cols.last(),
            row.last(),
        )
    }
}

/// One row as a record object.
pub open spec fn row_json(cols: Seq<Column>, row: Seq<CellValue>) -> Seq<char> {
    seq!['{'] + row_fields_json(cols, row) + seq!['}']
}

/// All rows, comma-separated, in row order.
pub open spec fn rows_json(cols: Seq<Column>, rows: Seq<Vec<CellValue>>) -> Seq<char>
    decreases rows.len(),
{
    if rows.len() == 0 {
        Seq::empty()
    } else if rows.len() == 1 {
        row_json(cols, rows[0]@)
    } else {
        rows_json(cols, rows.drop_last()) + seq![','] + row_json(cols, rows.last()@)
    }
}

/// A whole dataset in its wire form: an array of record objects, one per
/// row, each with one field per column in schema order. This is the
/// artifact format the viewer consumes verbatim.
pub open spec fn table_json(t: Table) -> Seq<char> {
    seq!['['] + rows_json(t.cols@, t.rows@) + seq![']']
}

/// Appends one decimal digit.
fn push_digit(out: &mut String, d: u64)
    requires
        d < 10,
    ensures
        final(out)@ == old(out)@ + seq![digit_char(d as int)],
{
    proof {
        reveal_strlit("0");
        reveal_strlit("1");
        reveal_strlit("2");
        reveal_strlit("3");
        reveal_strlit("4");
        reveal_strlit("5");
        reveal_strlit("6");
        reveal_strlit("7");
        reveal_strlit("8");
        reveal_strlit("9");
        assert("0"@ =~= seq!['0']);
        assert("1"@ =~= seq!['1']);
        assert("2"@ =~= seq!['2']);
        assert("3"@ =~= seq!['3']);
        assert("4"@ =~= seq!['4']);
        assert("5"@ =~= seq!['5']);
        assert("6"@ =~= seq!['6']);
        assert("7"@ =~= seq!['7']);
        assert("8"@ =~= seq!['8']);
        assert("9"@ =~= seq!['9']);
    }
    if d == 0 {
        out.append("0");
    } else if d == 1 {
        out.append("1");
    } else if d == 2 {
        out.append("2");
    } else if d == 3 {
        out.append("3");
    } else if d == 4 {
        out.append("4");
    } else if d == 5 {
        out.append("5");
    } else if d == 6 {
        out.append("6");
    } else if d == 7 {
        out.append("7");
    } else if d == 8 {
        out.append("8");
    } else {
        out.append("9");
    }
}

/// Appends the decimal digits of a natural number.
fn push_dec_u64(out: &mut String, n: u64)
    ensures
        final(out)@ == old(out)@ + dec_chars_nat(n as nat),
    decreases n,
{
    if n < 10 {
        push_digit(out, n);
    } else {
        push_dec_u64(out, n / 10);
        push_digit(out, n % 10);
        proof {
            assert(dec_chars_nat(n as nat) =~= dec_chars_nat((n as nat) / 10) + seq![
                digit_char(((n as nat) % 10) as int),
            ]);
        }
    }
}

/// Appends the decimal rendering of a fixed-point integer.
fn push_dec_i64(out: &mut String, v: i64)
    ensures
        final(out)@ == old(out)@ + dec_chars(v as int),
{
    if v < 0 {
        proof {
            reveal_strlit("-");
            assert("-"@ =~= seq!['-']);
        }
        out.append("-");
        let m: u64 = (-(v as i128)) as u64;
        proof {
            assert(m as nat == (-(v as int)) as nat);
        }
        push_dec_u64(out, m);
    } else {
        push_dec_u64(out, v as u64);
    }
}

/// Appends text in its escaped wire form.
fn push_escaped(out: &mut String, s: &str)
    ensures
        final(out)@ == old(out)@ + escape_chars(s@),
{
    let ghost base = out@;
    let n = s.unicode_len();
    let mut i: usize = 0;
    proof {
        assert(s@.take(0) =~= Seq::<char>::empty());
    }
    while i < n
        invariant
            n == s@.len(),
            i <= n,
            out@ == base + escape_chars(s@.take(i as int)),
        decreases n - i,
    {
        let c = s.get_char(i);
        proof {
            assert(s@.take(i + 1).drop_last() =~= s@.take(i as int));
            assert(s@.take(i + 1).last() == s@[i as int]);
        }
        if c == '"' {
            proof {
                reveal_strlit("\\\"");
                assert("\\\""@ =~= seq!['\\', '"']);
            }
            out.append("\\\"");
        } else if c == '\\' {
            proof {
                reveal_strlit("\\\\");
                assert("\\\\"@ =~= seq!['\\', '\\']);
            }
            out.append("\\\\");
        } else {
            let piece = s.substring_char(i, i + 1);
            proof {
                assert(piece@ =~= seq![s@[i as int]]);
            }
            out.append(piece);
        }
        i = i + 1;
    }
    proof {
        assert(s@.take(n as int) =~= s@);
    }
}

/// Appends one cell's wire form.
fn push_cell(out: &mut String, c: &CellValue)
    ensures
        final(out)@ == old(out)@ + cell_json(*c),
{
    match c {
        CellValue::Null => {
            out.append("null");
        },
        CellValue::Int(v) => {
            push_dec_i64(out, *v);
        },
        CellValue::Text(s) => {
            proof {
                reveal_strlit("\"");
                assert("\""@ =~= seq!['"']);
            }
            out.append("\"");
            push_escaped(out, s.as_str());
            out.append("\"");
        },
    }
}

/// Appends one field: quoted name, colon, cell.
fn push_field(out: &mut String, col: &Column, c: &CellValue)
    ensures
        final(out)@ == old(out)@ + field_json(*col, *c),
{
    proof {
        reveal_strlit("\"");
        reveal_strlit("\":");
        assert("\""@ =~= seq!['"']);
        assert("\":"@ =~= seq!['"', ':']);
    }
    out.append("\"");
    push_escaped(out, col.name.as_str());
    out.append("\":");
    push_cell(out, c);
}

/// Serializes a dataset to its wire form: an array of record objects with
/// exactly the dataset's columns, in order, one object per row. The same
/// dataset values always render to the same text, so a re-run over
/// identical inputs writes an identical artifact.
pub fn render_json(t: &Table) -> (s: String)
    requires
        t.wf(),
    ensures
        s@ == table_json(*t),
{
    proof {
        reveal_strlit("[");
        reveal_strlit("]");
        reveal_strlit(",");
        reveal_strlit("{");
        reveal_strlit("}");
        assert("["@ =~= seq!['[']);
        assert("]"@ =~= seq![']']);
        assert(","@ =~= seq![',']);
        assert("{"@ =~= seq!['{']);
        assert("}"@ =~= seq!['}']);
    }
    let mut out = String::new();
    out.append("[");
    let n = t.rows.len();
    let mut i: usize = 0;
    while i < n
        invariant
            n == t.rows@.len(),
            i <= n,
            t.wf(),
            out@ == seq!['['] + rows_json(t.cols@, t.rows@.take(i as int)),
            "["@ == seq!['['],
            "]"@ == seq![']'],
            ","@ == seq![','],
            "{"@ == seq!['{'],
            "}"@ == seq!['}'],
        decreases n - i,
    {
        if i > 0 {
            out.append(",");
        }
        out.append("{");
        let row = &t.rows[i];
        proof {
            assert(row_ok(row@, t.cols@));
        }
        let m = t.cols.len();
        let mut j: usize = 0;
        let ghost rowbase = out@;
        while j < m
            invariant
                m == t.cols@.len(),
                j <= m,
                t.wf(),
                i < t.rows@.len(),
                row == t.rows@[i as int],
                row@.len() == m,
                out@ == rowbase + row_fields_json(t.cols@.take(j as int), row@.take(j as int)),
                ","@ == seq![','],
            decreases m - j,
        {
            if j > 0 {
                out.append(",");
            }
            push_field(&mut out, &t.cols[j], &row[j]);
            proof {
                assert(t.cols@.take(j + 1).drop_last() =~= t.cols@.take(j as int));
                assert(row@.take(j + 1).drop_last() =~= row@.take(j as int));
                assert(t.cols@.take(j + 1).last() == t.cols@[j as int]);
                assert(row@.take(j + 1).last() == row@[j as int]);
            }
            j = j + 1;
        }
        out.append("}");
        proof {
            assert(t.cols@.take(m as int) =~= t.cols@);
            assert(row@.take(m as int) =~= row@);
            assert(t.rows@.take(i + 1).drop_last() =~= t.rows@.take(i as int));
            assert(t.rows@.take(i + 1).last() == t.rows@[i as int]);
            assert(out@ =~= seq!['['] + rows_json(t.cols@, t.rows@.take(i + 1)));
        }
        i = i + 1;
    }
    out.append("]");
    proof {
        assert(t.rows@.take(n as int) =~= t.rows@);
        assert(out@ =~= table_json(*t));
    }
    out
}

/// Equal cell values render to the same wire form.
proof fn lemma_cell_json_det(a: CellValue, b: CellValue)
    requires
        cell_equiv(a, b),
    ensures
        cell_json(a) == cell_json(b),
{
}

/// Rows of equal values under columns of equal names render to the same
/// fields.
proof fn lemma_fields_det(c1: Seq<Column>, r1: Seq<CellValue>, c2: Seq<Column>, r2: Seq<CellValue>)
    requires
        c1.len() == c2.len(),
        r1.len() == r2.len(),
        c1.len() <= r1.len(),
        forall|j: int| 0 <= j < c1.len() ==> (#[trigger] c1[j]).name@ == c2[j].name@,
        forall|j: int| 0 <= j < r1.len() ==> cell_equiv(#[trigger] r1[j], r2[j]),
    ensures
        row_fields_json(c1, r1) == row_fields_json(c2, r2),
    decreases c1.len(),
{
    if c1.len() == 0 {
    } else if c1.len() == 1 {
        lemma_cell_json_det(r1[0], r2[0]);
    } else {
        lemma_fields_det(c1.drop_last(), r1.drop_last(), c2.drop_last(), r2.drop_last());
        lemma_cell_json_det(r1[r1.len() - 1], r2[r2.len() - 1]);
        assert(c1.last().name@ == c2.last().name@);
        assert(r1.len() - 1 >= c1.len() - 1);
        assert(row_fields_json(c1, r1) =~= row_fields_json(c2, r2));
    }
}

/// Two datasets that hold the same values — same column names in the same
/// order, same row count, and value-equal cells row by row — render to the
/// same text. The pipeline's stages fix their outputs' values as functions
/// of their inputs' values, so a re-run over byte-identical fetched
/// responses and geometry files renders a byte-identical artifact.
pub proof fn lemma_render_idempotent(t1: Table, t2: Table)
    requires
        t1.wf(),
        t2.wf(),
        t1.cols@.len() == t2.cols@.len(),
        forall|j: int| 0 <= j < t1.cols@.len() ==> (#[trigger] t1.cols@[j]).name@
            == t2.cols@[j].name@,
        t1.rows@.len() == t2.rows@.len(),
        forall|i: int| 0 <= i < t1.rows@.len() ==> crate::table::row_equiv(
            (#[trigger] t1.rows@[i])@,
            (#[trigger] t2.rows@[i])@,
        ),
    ensures
        table_json(t1) == table_json(t2),
{
    lemma_rows_det(t1, t2, t1.rows@.len() as int);
    assert(t1.rows@.take(t1.rows@.len() as int) =~= t1.rows@);
    assert(t2.rows@.take(t2.rows@.len() as int) =~= t2.rows@);
    assert(table_json(t1) =~= table_json(t2));
}

/// The row part of `lemma_render_idempotent`, over a row-count prefix.
proof fn lemma_rows_det(t1: Table, t2: Table, n: int)
    requires
        t1.wf(),
        t2.wf(),
        t1.cols@.len() == t2.cols@.len(),
        forall|j: int| 0 <= j < t1.cols@.len() ==> (#[trigger] t1.cols@[j]).name@
            == t2.cols@[j].name@,
        t1.rows@.len() == t2.rows@.len(),
        0 <= n <= t1.rows@.len(),
        forall|i: int| 0 <= i < t1.rows@.len() ==> crate::table::row_equiv(
            (#[trigger] t1.rows@[i])@,
            (#[trigger] t2.rows@[i])@,
        ),
    ensures
        rows_json(t1.cols@, t1.rows@.take(n)) == rows_json(t2.cols@, t2.rows@.take(n)),
    decreases n,
{
    if n == 0 {
        assert(rows_json(t1.cols@, t1.rows@.take(0)) =~= rows_json(t2.cols@, t2.rows@.take(0)));
    } else {
        lemma_rows_det(t1, t2, n - 1);
        assert(t1.rows@.take(n).drop_last() =~= t1.rows@.take(n - 1));
        assert(t2.rows@.take(n).drop_last() =~= t2.rows@.take(n - 1));
        assert(t1.rows@.take(n).last() == t1.rows@[n - 1]);
        assert(t2.rows@.take(n).last() == t2.rows@[n - 1]);
        assert(crate::table::row_equiv(t1.rows@[n - 1]@, t2.rows@[n - 1]@));
        assert(row_ok(t1.rows@[n - 1]@, t1.cols@));
        assert(row_ok(t2.rows@[n - 1]@, t2.cols@));
        lemma_fields_det(t1.cols@, t1.rows@[n - 1]@, t2.cols@, t2.rows@[n - 1]@);
        assert(row_json(t1.cols@, t1.rows@.take(n).last()@) == row_json(
            t2.cols@,
            t2.rows@.take(n).last()@,
        ));
    }
}

} // verus!
