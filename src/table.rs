//! Extraction of typed records from a table whose columns are found by their
//! header text.
//!
//! A [`Header`] describes one export layout: the semantic columns it needs,
//! which header texts denote each of them, and how a data row becomes a
//! record. [`extract`] does the rest for any layout: it reads the header row,
//! finds the first physical column of each semantic one, refuses a header that
//! lacks any, and parses every later row on its own.

use vstd::prelude::*;
use crate::digits::{parse_decimal, parse_decimal_range};

verus! {

/// One cell of a table, its type already resolved by the reader.
#[derive(Clone, Debug, PartialEq)]
pub enum Cell {
    /// No value.
    Empty,
    /// Text.
    Text(String),
    /// An integer.
    Int(i64),
    /// A decimal number, carried by its integral part (truncated toward zero).
    Decimal(i64),
}

/// Why one data row could not be parsed.
#[derive(Clone, Debug, PartialEq, Eq)]
pub enum RowError {
    /// The row ends before a column that the header placed.
    RowTooShort,
    /// The cell of this semantic column does not hold the expected type.
    CellTypeMismatch { column: usize },
    /// The identifier `text` in this semantic column matches no encoding.
    MalformedIdentifier { column: usize, text: String },
    /// The code cell of this semantic column holds an unknown code.
    UnknownCode { column: usize },
}

/// The mathematical value of a [`RowError`].
pub enum RowErrorView {
    RowTooShort,
    CellTypeMismatch { column: usize },
    MalformedIdentifier { column: usize, text: Seq<char> },
    UnknownCode { column: usize },
}

impl View for RowError {
    type V = RowErrorView;

    open spec fn view(&self) -> RowErrorView {
        match self {
            RowError::RowTooShort => RowErrorView::RowTooShort,
            RowError::CellTypeMismatch { column } => RowErrorView::CellTypeMismatch {
                column: *column,
            },
            RowError::MalformedIdentifier { column, text } => RowErrorView::MalformedIdentifier {
                column: *column,
                text: text@,
            },
            RowError::UnknownCode { column } => RowErrorView::UnknownCode { column: *column },
        }
    }
}

/// Why a whole table could not be extracted.
#[derive(Clone, Debug, PartialEq, Eq)]
pub enum ExtractError {
    /// The table has no rows at all, so no header.
    NoHeader,
    /// These semantic columns, by name, have no header cell.
    IncompleteHeader { missing: Vec<String> },
}

/// The mathematical value of an [`ExtractError`].
pub enum ExtractErrorView {
    NoHeader,
    IncompleteHeader { missing: Seq<Seq<char>> },
}

impl View for ExtractError {
    type V = ExtractErrorView;

    open spec fn view(&self) -> ExtractErrorView {
        match self {
            ExtractError::NoHeader => ExtractErrorView::NoHeader,
            ExtractError::IncompleteHeader { missing } => ExtractErrorView::IncompleteHeader {
                missing: missing@.map_values(|s: String| s@),
            },
        }
    }
}

/// The value of a row result.
pub open spec fn row_view<R: View>(r: Result<R, RowError>) -> Result<R::V, RowErrorView> {
    match r {
        Ok(v) => Ok(v@),
        Err(e) => Err(e@),
    }
}

/// One table layout. Semantic columns are numbered `0..spec_column_count()`.
pub trait Header {
    /// What a data row becomes.
    type Record: View;

    /// How many semantic columns the layout needs.
    spec fn spec_column_count(&self) -> nat;

    /// The semantic column that a header text denotes, if any.
    spec fn spec_header_column(&self, text: Seq<char>) -> Option<nat>;

    /// The name of a semantic column.
    spec fn spec_column_name(&self, column: nat) -> Seq<char>;

    /// What a data row gives, where `columns[k]` is the physical index of
    /// semantic column `k`.
    spec fn spec_parse_row(&self, columns: Seq<usize>, row: Seq<Cell>) -> Result<
        <Self::Record as View>::V,
        RowErrorView,
    >;

    /// A row's result depends on the cells that `columns` places and on
    /// nothing else, as long as they all lie inside the row.
    proof fn lemma_parse_row_local(
        &self,
        a: Seq<usize>,
        row_a: Seq<Cell>,
        b: Seq<usize>,
        row_b: Seq<Cell>,
    )
        requires
            a.len() == self.spec_column_count(),
            b.len() == a.len(),
            forall|k: int|
                0 <= k < a.len() ==> #[trigger] a[k] < row_a.len() && b[k] < row_b.len() && row_a[a[k]
                    as int] == row_b[b[k] as int],
        ensures
            self.spec_parse_row(a, row_a) == self.spec_parse_row(b, row_b),
    ;

    fn column_count(&self) -> (n: usize)
        ensures
            n == self.spec_column_count(),
    ;

    fn match_header_column(&self, text: &str) -> (r: Option<usize>)
        ensures
            match r {
                Some(k) => self.spec_header_column(text@) == Some(k as nat) && k
                    < self.spec_column_count(),
                None => self.spec_header_column(text@) is None,
            },
    ;

    fn column_name(&self, column: usize) -> (r: String)
        requires
            column < self.spec_column_count(),
        ensures
            r@ == self.spec_column_name(column as nat),
    ;

    fn parse_row(&self, columns: &Vec<usize>, row: &Vec<Cell>) -> (r: Result<Self::Record, RowError>)
        requires
            columns@.len() == self.spec_column_count(),
        ensures
            row_view(r) == self.spec_parse_row(columns@, row@),
    ;
}

/// Header cell `cell` denotes semantic column `k`.
pub open spec fn cell_denotes<H: Header>(schema: &H, cell: Cell, k: nat) -> bool {
    match cell {
        Cell::Text(t) => schema.spec_header_column(t@) == Some(k),
        _ => false,
    }
}

/// The first index at or after `from` whose cell denotes column `k`.
pub open spec fn first_match<H: Header>(schema: &H, header: Seq<Cell>, k: nat, from: int) -> Option<
    nat,
>
    decreases header.len() - from,
{
    if from < 0 || from >= header.len() {
        None
    } else if cell_denotes(schema, header[from], k) {
        Some(from as nat)
    } else {
        first_match(schema, header, k, from + 1)
    }
}

/// The semantic columns below `n` that no header cell denotes, in order.
pub open spec fn missing_columns<H: Header>(schema: &H, header: Seq<Cell>, n: nat) -> Seq<nat>
    decreases n,
{
    if n == 0 {
        Seq::empty()
    } else {
        let k = (n - 1) as nat;
        let rest = missing_columns(schema, header, k);
        if first_match(schema, header, k, 0) is None {
            rest.push(k)
        } else {
            rest
        }
    }
}

/// The physical index of each semantic column: its first denoting cell.
pub open spec fn column_map<H: Header>(schema: &H, header: Seq<Cell>) -> Seq<usize> {
    Seq::new(
        schema.spec_column_count(),
        |k: int|
            match first_match(schema, header, k as nat, 0) {
                Some(i) => i as usize,
                None => 0usize,
            },
    )
}

/// What extracting `rows` with `schema` gives: the header is the first row;
/// each later row gives one result, in order.
pub open spec fn extract_spec<H: Header>(schema: &H, rows: Seq<Seq<Cell>>) -> Result<
    Seq<Result<<H::Record as View>::V, RowErrorView>>,
    ExtractErrorView,
> {
    if rows.len() == 0 {
        Err(ExtractErrorView::NoHeader)
    } else {
        let missing = missing_columns(schema, rows[0], schema.spec_column_count());
        if missing.len() > 0 {
            Err(
                ExtractErrorView::IncompleteHeader {
                    missing: missing.map_values(|k: nat| schema.spec_column_name(k)),
                },
            )
        } else {
            Ok(
                Seq::new(
                    (rows.len() - 1) as nat,
                    |j: int| schema.spec_parse_row(column_map(schema, rows[0]), rows[j + 1]),
                ),
            )
        }
    }
}

/// The rows of a table as sequences of cells.
pub open spec fn rows_view(rows: Seq<Vec<Cell>>) -> Seq<Seq<Cell>> {
    rows.map_values(|r: Vec<Cell>| r@)
}

proof fn lemma_first_match_at<H: Header>(schema: &H, header: Seq<Cell>, k: nat, from: int, j: int)
    requires
        0 <= from <= j < header.len(),
        cell_denotes(schema, header[j], k),
        forall|i: int| from <= i < j ==> !cell_denotes(schema, #[trigger] header[i], k),
    ensures
        first_match(schema, header, k, from) == Some(j as nat),
    decreases j - from,
{
    if from < j {
        lemma_first_match_at(schema, header, k, from + 1, j);
    }
}

proof fn lemma_first_match_none<H: Header>(schema: &H, header: Seq<Cell>, k: nat, from: int)
    requires
        0 <= from <= header.len(),
        forall|i: int| from <= i < header.len() ==> !cell_denotes(schema, #[trigger] header[i], k),
    ensures
        first_match(schema, header, k, from) is None,
    decreases header.len() - from,
{
    if from < header.len() {
        lemma_first_match_none(schema, header, k, from + 1);
    }
}

/// What `first_match` finds: the first denoting cell, or that there is none.
pub proof fn lemma_first_match_sound<H: Header>(schema: &H, header: Seq<Cell>, k: nat, from: int)
    requires
        0 <= from <= header.len(),
    ensures
        match first_match(schema, header, k, from) {
            Some(j) => from <= j < header.len() && cell_denotes(schema, header[j as int], k)
                && forall|i: int| from <= i < j ==> !cell_denotes(schema, #[trigger] header[i], k),
            None => forall|i: int|
                from <= i < header.len() ==> !cell_denotes(schema, #[trigger] header[i], k),
        },
    decreases header.len() - from,
{
    if from < header.len() {
        lemma_first_match_sound(schema, header, k, from + 1);
    }
}

/// Some cell of `header` denotes semantic column `k`.
pub open spec fn column_present<H: Header>(schema: &H, header: Seq<Cell>, k: nat) -> bool {
    exists|i: int| 0 <= i < header.len() && cell_denotes(schema, #[trigger] header[i], k)
}

/// `s` rearranged: position `i` of the result holds `s[p[i]]`.
pub open spec fn permute<T>(s: Seq<T>, p: Seq<int>) -> Seq<T> {
    Seq::new(p.len(), |i: int| s[p[i]])
}

/// `p` is a permutation of `0..n` and `q` its inverse.
pub open spec fn is_permutation(p: Seq<int>, q: Seq<int>, n: nat) -> bool {
    &&& p.len() == n && q.len() == n
    &&& forall|i: int| 0 <= i < n ==> 0 <= #[trigger] p[i] < n && q[p[i]] == i
    &&& forall|i: int| 0 <= i < n ==> 0 <= #[trigger] q[i] < n && p[q[i]] == i
}

/// No two cells of `header` denote the same semantic column.
pub open spec fn header_unambiguous<H: Header>(schema: &H, header: Seq<Cell>) -> bool {
    forall|i: int, j: int, k: nat|
        0 <= i < header.len() && 0 <= j < header.len() && cell_denotes(schema, header[i], k)
            && cell_denotes(schema, header[j], k) ==> i == j
}

/// Reordering the cells of an unambiguous header moves each semantic column
/// with its cell and leaves the missing columns as they were.
pub proof fn lemma_header_permuted<H: Header>(
    schema: &H,
    header: Seq<Cell>,
    p: Seq<int>,
    q: Seq<int>,
)
    requires
        is_permutation(p, q, header.len()),
        header_unambiguous(schema, header),
    ensures
        forall|k: nat|
            match #[trigger] first_match(schema, header, k, 0) {
                Some(j) => first_match(schema, permute(header, p), k, 0) == Some(q[j as int] as nat),
                None => first_match(schema, permute(header, p), k, 0) is None,
            },
        forall|n: nat|
            #[trigger] missing_columns(schema, permute(header, p), n) == missing_columns(
                schema,
                header,
                n,
            ),
{
    let h2 = permute(header, p);
    assert forall|k: nat|
        match #[trigger] first_match(schema, header, k, 0) {
            Some(j) => first_match(schema, h2, k, 0) == Some(q[j as int] as nat),
            None => first_match(schema, h2, k, 0) is None,
        } by {
        lemma_first_match_sound(schema, header, k, 0);
        match first_match(schema, header, k, 0) {
            Some(j) => {
                let t = q[j as int];
                assert(h2[t] == header[j as int]);
                assert forall|i: int| 0 <= i < t implies !cell_denotes(
                    schema,
                    #[trigger] h2[i],
                    k,
                ) by {
                    assert(h2[i] == header[p[i]]);
                    if cell_denotes(schema, h2[i], k) {
                        assert(p[i] == j);
                    }
                }
                lemma_first_match_at(schema, h2, k, 0, t);
            },
            None => {
                assert forall|i: int| 0 <= i < h2.len() implies !cell_denotes(
                    schema,
                    #[trigger] h2[i],
                    k,
                ) by {
                    assert(h2[i] == header[p[i]]);
                }
                lemma_first_match_none(schema, h2, k, 0);
            },
        }
    }
    assert forall|n: nat|
        #[trigger] missing_columns(schema, h2, n) == missing_columns(schema, header, n) by {
        lemma_missing_same(schema, header, h2, n);
    }
}

proof fn lemma_missing_same<H: Header>(schema: &H, a: Seq<Cell>, b: Seq<Cell>, n: nat)
    requires
        forall|k: nat|
            (#[trigger] first_match(schema, a, k, 0)) is None <==> first_match(schema, b, k, 0) is None,
    ensures
        missing_columns(schema, b, n) == missing_columns(schema, a, n),
    decreases n,
{
    if n > 0 {
        lemma_missing_same(schema, a, b, (n - 1) as nat);
        assert(first_match(schema, a, (n - 1) as nat, 0) is None <==> first_match(
            schema,
            b,
            (n - 1) as nat,
            0,
        ) is None);
    }
}

/// A semantic column that no header cell denotes is among the missing ones.
pub proof fn lemma_missing_contains<H: Header>(schema: &H, header: Seq<Cell>, k: nat, n: nat)
    requires
        k < n,
        forall|i: int| 0 <= i < header.len() ==> !cell_denotes(schema, #[trigger] header[i], k),
    ensures
        missing_columns(schema, header, n).contains(k),
    decreases n,
{
    lemma_first_match_none(schema, header, k, 0);
    if k < n - 1 {
        lemma_missing_contains(schema, header, k, (n - 1) as nat);
        let rest = missing_columns(schema, header, (n - 1) as nat);
        let idx = choose|idx: int| 0 <= idx < rest.len() && rest[idx] == k;
        if first_match(schema, header, (n - 1) as nat, 0) is None {
            assert(rest.push((n - 1) as nat)[idx] == k);
        }
    } else {
        let rest = missing_columns(schema, header, (n - 1) as nat);
        assert(rest.push(k)[rest.len() as int] == k);
    }
}

/// A header that lacks a semantic column fails the whole extraction, and the
/// error names that column: no row is parsed.
pub proof fn lemma_missing_column_named<H: Header>(schema: &H, rows: Seq<Seq<Cell>>, k: nat)
    requires
        rows.len() > 0,
        k < schema.spec_column_count(),
        forall|i: int| 0 <= i < rows[0].len() ==> !cell_denotes(schema, #[trigger] rows[0][i], k),
    ensures
        extract_spec(schema, rows) matches Err(ExtractErrorView::IncompleteHeader { missing })
            && missing.contains(schema.spec_column_name(k)),
{
    let n = schema.spec_column_count();
    lemma_missing_contains(schema, rows[0], k, n);
    let m = missing_columns(schema, rows[0], n);
    let idx = choose|idx: int| 0 <= idx < m.len() && m[idx] == k;
    let names = m.map_values(|c: nat| schema.spec_column_name(c));
    assert(names[idx] == schema.spec_column_name(k));
}

/// With a complete header, every data row gives exactly one result, in the
/// order of the rows, whatever the other rows give.
pub proof fn lemma_rows_isolated<H: Header>(schema: &H, rows: Seq<Seq<Cell>>)
    requires
        rows.len() > 0,
        forall|k: nat|
            k < schema.spec_column_count() ==> #[trigger] column_present(schema, rows[0], k),
    ensures
        extract_spec(schema, rows) matches Ok(rs) && rs.len() == rows.len() - 1 && forall|j: int|
            0 <= j < rs.len() ==> #[trigger] rs[j] == schema.spec_parse_row(
                column_map(schema, rows[0]),
                rows[j + 1],
            ),
{
    let n = schema.spec_column_count();
    lemma_no_missing(schema, rows[0], n, n);
}

/// With no missing column, every semantic column has a denoting cell.
pub proof fn lemma_missing_empty<H: Header>(schema: &H, header: Seq<Cell>, n: nat)
    requires
        missing_columns(schema, header, n).len() == 0,
    ensures
        forall|k: nat| k < n ==> (#[trigger] first_match(schema, header, k, 0)) is Some,
    decreases n,
{
    if n > 0 {
        let k = (n - 1) as nat;
        if first_match(schema, header, k, 0) is None {
            assert(missing_columns(schema, header, n).len() > 0);
        }
        lemma_missing_empty(schema, header, k);
    }
}

proof fn lemma_no_missing<H: Header>(schema: &H, header: Seq<Cell>, n: nat, total: nat)
    requires
        n <= total,
        forall|k: nat| k < total ==> #[trigger] column_present(schema, header, k),
    ensures
        missing_columns(schema, header, n).len() == 0,
    decreases n,
{
    if n > 0 {
        lemma_no_missing(schema, header, (n - 1) as nat, total);
        let k = (n - 1) as nat;
        assert(column_present(schema, header, k));
        let i = choose|i: int| 0 <= i < header.len() && cell_denotes(schema, #[trigger] header[i], k);
        lemma_first_match_sound(schema, header, k, 0);
    }
}

/// Reordering the physical columns of a table whose header names each
/// semantic column at most once, header and data rows alike, moves each
/// semantic column with its cell and gives the same extraction: the same
/// missing columns, or the same result for every data row.
pub proof fn lemma_column_order_irrelevant<H: Header>(
    schema: &H,
    header: Seq<Cell>,
    data: Seq<Seq<Cell>>,
    p: Seq<int>,
    q: Seq<int>,
)
    requires
        is_permutation(p, q, header.len()),
        header.len() <= usize::MAX,
        header_unambiguous(schema, header),
        forall|j: int| 0 <= j < data.len() ==> (#[trigger] data[j]).len() == header.len(),
    ensures
        missing_columns(schema, permute(header, p), schema.spec_column_count())
            == missing_columns(schema, header, schema.spec_column_count()),
        missing_columns(schema, header, schema.spec_column_count()).len() == 0 ==> forall|k: int|
            0 <= k < schema.spec_column_count() ==> #[trigger] column_map(schema, permute(header, p))[k]
                == q[column_map(schema, header)[k] as int],
        extract_spec(
            schema,
            seq![permute(header, p)] + data.map_values(|r: Seq<Cell>| permute(r, p)),
        ) == extract_spec(schema, seq![header] + data),
{
    let h2 = permute(header, p);
    let t1 = seq![header] + data;
    let t2 = seq![h2] + data.map_values(|r: Seq<Cell>| permute(r, p));
    assert(t1[0] == header);
    assert(t2[0] == h2);
    lemma_header_permuted(schema, header, p, q);
    let n = schema.spec_column_count();
    assert(missing_columns(schema, h2, n) == missing_columns(schema, header, n));
    if missing_columns(schema, header, n).len() == 0 {
        lemma_missing_empty(schema, header, n);
        let cols = column_map(schema, header);
        let moved = column_map(schema, h2);
        assert forall|k: int| 0 <= k < n implies #[trigger] cols[k] < header.len() && moved[k]
            == q[cols[k] as int] by {
            lemma_first_match_sound(schema, header, k as nat, 0);
            let fm = first_match(schema, header, k as nat, 0);
            assert(fm is Some);
            let j = fm->Some_0;
            assert(first_match(schema, h2, k as nat, 0) == Some(q[j as int] as nat));
            assert(0 <= q[j as int] < header.len());
        }
        assert forall|j: int| 0 <= j < t1.len() - 1 implies schema.spec_parse_row(
            moved,
            #[trigger] t2[j + 1],
        ) == schema.spec_parse_row(cols, t1[j + 1]) by {
            assert(t1[j + 1] == data[j]);
            assert(t2[j + 1] == permute(data[j], p));
            let r2 = permute(data[j], p);
            assert forall|k: int| 0 <= k < cols.len() implies #[trigger] cols[k] < data[j].len()
                && moved[k] < r2.len() && data[j][cols[k] as int] == r2[moved[k] as int] by {
                assert(q[cols[k] as int] < header.len());
            }
            schema.lemma_parse_row_local(cols, data[j], moved, r2);
        }
        let e1 = extract_spec(schema, t1);
        let e2 = extract_spec(schema, t2);
        assert(e1->Ok_0 =~= e2->Ok_0);
    }
}

/// Every entry of `map` is set.
fn all_found(map: &Vec<Option<usize>>) -> (r: bool)
    ensures
        r == (forall|k: int| 0 <= k < map@.len() ==> #[trigger] map@[k] is Some),
{
    let mut k: usize = 0;
    while k < map.len()
        invariant
            k <= map@.len(),
            forall|j: int| 0 <= j < k ==> #[trigger] map@[j] is Some,
        decreases map@.len() - k,
    {
        if map[k].is_none() {
            return false;
        }
        k = k + 1;
    }
    true
}

/// Finds, for each semantic column, the first header cell that denotes it.
/// Scanning stops once every column is found.
fn match_header<H: Header>(schema: &H, header: &Vec<Cell>) -> (map: Vec<Option<usize>>)
    ensures
        map@.len() == schema.spec_column_count(),
        forall|k: int|
            0 <= k < map@.len() ==> match #[trigger] map@[k] {
                Some(i) => first_match(schema, header@, k as nat, 0) == Some(i as nat),
                None => first_match(schema, header@, k as nat, 0) is None,
            },
{
    let n = schema.column_count();
    let mut map: Vec<Option<usize>> = Vec::new();
    let mut k: usize = 0;
    while k < n
        invariant
            k <= n == schema.spec_column_count(),
            map@.len() == k,
            forall|j: int| 0 <= j < k ==> #[trigger] map@[j] is None,
        decreases n - k,
    {
        map.push(None);
        k = k + 1;
    }
    let ghost h = header@;
    let mut i: usize = 0;
    let mut done = false;
    while i < header.len() && !done
        invariant
            h == header@,
            i <= h.len(),
            done ==> forall|k: int| 0 <= k < map@.len() ==> #[trigger] map@[k] is Some,
            map@.len() == n == schema.spec_column_count(),
            forall|k: int|
                0 <= k < n ==> match #[trigger] map@[k] {
                    Some(j) => j < i && cell_denotes(schema, h[j as int], k as nat) && forall|
                        j2: int,
                    |
                        0 <= j2 < j ==> !cell_denotes(schema, #[trigger] h[j2], k as nat),
                    None => forall|j2: int|
                        0 <= j2 < i ==> !cell_denotes(schema, #[trigger] h[j2], k as nat),
                },
        decreases h.len() - i,
    {
        let ghost before = map@;
        if let Cell::Text(t) = &header[i] {
            if let Some(k) = schema.match_header_column(t.as_str()) {
                if map[k].is_none() {
                    map.set(k, Some(i));
                }
            }
        }
        assert forall|k: int| 0 <= k < n implies match #[trigger] map@[k] {
            Some(j) => j < i + 1 && cell_denotes(schema, h[j as int], k as nat) && forall|j2: int|
                0 <= j2 < j ==> !cell_denotes(schema, #[trigger] h[j2], k as nat),
            None => forall|j2: int|
                0 <= j2 < i + 1 ==> !cell_denotes(schema, #[trigger] h[j2], k as nat),
        } by {
            match before[k] {
                Some(j) => {},
                None => {
                    if map@[k] is None {
                        assert forall|j2: int| 0 <= j2 < i + 1 implies !cell_denotes(
                            schema,
                            #[trigger] h[j2],
                            k as nat,
                        ) by {
                            if j2 == i {
                                assert(h[j2] == header@[i as int]);
                            }
                        }
                    }
                },
            }
        }
        i = i + 1;
        done = all_found(&map);
    }
    proof {
        assert forall|k: int| 0 <= k < map@.len() implies match #[trigger] map@[k] {
            Some(i) => first_match(schema, header@, k as nat, 0) == Some(i as nat),
            None => first_match(schema, header@, k as nat, 0) is None,
        } by {
            match map@[k] {
                Some(j) => {
                    lemma_first_match_at(schema, h, k as nat, 0, j as int);
                },
                None => {
                    lemma_first_match_none(schema, h, k as nat, 0);
                },
            }
        }
    }
    map
}

/// Extracts the records of a table whose first row is its header.
///
/// Fails as a whole when there is no header row, or when a semantic column has
/// no header cell (naming every such column). Otherwise each data row gives
/// its own result, in order: a bad row does not stop the rows after it.
pub fn extract<H: Header>(schema: &H, rows: &Vec<Vec<Cell>>) -> (r: Result<
    Vec<Result<H::Record, RowError>>,
    ExtractError,
>)
    ensures
        match r {
            Ok(v) => extract_spec(schema, rows_view(rows@)) == Ok::<
                Seq<Result<<H::Record as View>::V, RowErrorView>>,
                ExtractErrorView,
            >(v@.map_values(|x: Result<H::Record, RowError>| row_view(x))),
            Err(e) => extract_spec(schema, rows_view(rows@)) == Err::<
                Seq<Result<<H::Record as View>::V, RowErrorView>>,
                ExtractErrorView,
            >(e@),
        },
{
    let ghost rs = rows_view(rows@);
    if rows.len() == 0 {
        return Err(ExtractError::NoHeader);
    }
    let header = &rows[0];
    assert(rs[0] == header@);
    let map = match_header(schema, header);
    let n = map.len();
    let ghost h = header@;

    let mut missing: Vec<String> = Vec::new();
    let mut k: usize = 0;
    while k < n
        invariant
            k <= n == map@.len() == schema.spec_column_count(),
            h == header@,
            forall|c: int|
                0 <= c < map@.len() ==> match #[trigger] map@[c] {
                    Some(i) => first_match(schema, h, c as nat, 0) == Some(i as nat),
                    None => first_match(schema, h, c as nat, 0) is None,
                },
            missing@.map_values(|s: String| s@) == missing_columns(schema, h, k as nat).map_values(
                |c: nat| schema.spec_column_name(c),
            ),
            missing@.len() == missing_columns(schema, h, k as nat).len(),
            missing@.len() == 0 <==> forall|c: int| 0 <= c < k ==> #[trigger] map@[c] is Some,
        decreases n - k,
    {
        let ghost before = missing@;
        if map[k].is_none() {
            let name = schema.column_name(k);
            missing.push(name);
            assert(missing@.map_values(|s: String| s@) =~= before.map_values(|s: String| s@).push(
                name@,
            ));
            assert(missing_columns(schema, h, (k + 1) as nat) == missing_columns(
                schema,
                h,
                k as nat,
            ).push(k as nat));
            assert(missing_columns(schema, h, (k + 1) as nat).map_values(
                |c: nat| schema.spec_column_name(c),
            ) =~= missing_columns(schema, h, k as nat).map_values(
                |c: nat| schema.spec_column_name(c),
            ).push(schema.spec_column_name(k as nat)));
        } else {
            assert(missing_columns(schema, h, (k + 1) as nat) == missing_columns(
                schema,
                h,
                k as nat,
            ));
        }
        k = k + 1;
    }
    if missing.len() > 0 {
        return Err(ExtractError::IncompleteHeader { missing });
    }
    let mut columns: Vec<usize> = Vec::new();
    let mut k: usize = 0;
    while k < n
        invariant
            k <= n == map@.len() == schema.spec_column_count(),
            h == header@,
            forall|c: int| 0 <= c < n ==> #[trigger] map@[c] is Some,
            forall|c: int|
                0 <= c < map@.len() ==> match #[trigger] map@[c] {
                    Some(i) => first_match(schema, h, c as nat, 0) == Some(i as nat),
                    None => first_match(schema, h, c as nat, 0) is None,
                },
            columns@.len() == k,
            forall|c: int| 0 <= c < k ==> columns@[c] == #[trigger] column_map(schema, h)[c],
        decreases n - k,
    {
        assert(map@[k as int] is Some);
        let i = map[k].unwrap();
        columns.push(i);
        k = k + 1;
    }
    assert(columns@ =~= column_map(schema, h));
    let mut results: Vec<Result<H::Record, RowError>> = Vec::new();
    let mut j: usize = 1;
    while j < rows.len()
        invariant
            1 <= j <= rows@.len(),
            rs == rows_view(rows@),
            columns@ == column_map(schema, rs[0]),
            columns@.len() == schema.spec_column_count(),
            results@.len() == j - 1,
            forall|x: int|
                0 <= x < j - 1 ==> row_view(#[trigger] results@[x]) == schema.spec_parse_row(
                    columns@,
                    rs[x + 1],
                ),
        decreases rows@.len() - j,
    {
        let r = schema.parse_row(&columns, &rows[j]);
        results.push(r);
        j = j + 1;
    }
    assert(results@.map_values(|x: Result<H::Record, RowError>| row_view(x)) =~= Seq::new(
        (rs.len() - 1) as nat,
        |x: int| schema.spec_parse_row(column_map(schema, rs[0]), rs[x + 1]),
    ));
    Ok(results)
}


/// A cell read as text: only a text cell has one.
pub open spec fn cell_text_spec(c: Cell) -> Option<Seq<char>> {
    match c {
        Cell::Text(t) => Some(t@),
        _ => None,
    }
}

/// Text read as an unsigned integer: decimal digits after at most one
/// leading `+`.
pub open spec fn text_u32_spec(t: Seq<char>) -> Option<u32> {
    if t.len() > 0 && t[0] == '+' {
        parse_decimal(t.drop_first())
    } else {
        parse_decimal(t)
    }
}

/// A cell read as an unsigned integer: text as `text_u32_spec` reads it, or an
/// integer that fits.
pub open spec fn cell_u32_spec(c: Cell) -> Option<u32> {
    match c {
        Cell::Text(t) => text_u32_spec(t@),
        Cell::Int(i) => if 0 <= i <= u32::MAX {
            Some(i as u32)
        } else {
            None
        },
        _ => None,
    }
}

/// A cell read as a quantity: as an unsigned integer, or a decimal number
/// truncated to its integral part, where that fits.
pub open spec fn cell_quantity_spec(c: Cell) -> Option<u32> {
    match c {
        Cell::Decimal(w) => if 0 <= w <= u32::MAX {
            Some(w as u32)
        } else {
            None
        },
        _ => cell_u32_spec(c),
    }
}

pub fn cell_text(c: &Cell) -> (r: Option<String>)
    ensures
        match r {
            Some(s) => cell_text_spec(*c) == Some(s@),
            None => cell_text_spec(*c) is None,
        },
{
    match c {
        Cell::Text(t) => Some(t.clone()),
        _ => None,
    }
}

pub fn cell_u32(c: &Cell) -> (r: Option<u32>)
    ensures
        r == cell_u32_spec(*c),
{
    match c {
        Cell::Text(t) => {
            let s = t.as_str();
            let n = s.unicode_len();
            if n > 0 && s.get_char(0) == '+' {
                let r = parse_decimal_range(s, 1, n);
                assert(s@.subrange(1, n as int) =~= t@.drop_first());
                r
            } else {
                let r = parse_decimal_range(s, 0, n);
                assert(s@.subrange(0, n as int) =~= t@);
                r
            }
        },
        Cell::Int(i) => if 0 <= *i && *i <= 0xffff_ffffi64 {
            Some(*i as u32)
        } else {
            None
        },
        _ => None,
    }
}

pub fn cell_quantity(c: &Cell) -> (r: Option<u32>)
    ensures
        r == cell_quantity_spec(*c),
{
    match c {
        Cell::Decimal(w) => if 0 <= *w && *w <= 0xffff_ffffi64 {
            Some(*w as u32)
        } else {
            None
        },
        _ => cell_u32(c),
    }
}

} // verus!
