//! The layout of the order list export (transaction COHV; COOIS is similar).

use vstd::prelude::*;
use crate::order::{order_class_of, order_of, Order, OrderData, OrderDataView, OrderView};
use crate::plant::{plant_of_code, Plant};
use crate::table::{
    cell_quantity, cell_quantity_spec, cell_text, cell_text_spec, cell_u32, cell_u32_spec, extract,
    extract_spec, row_view, rows_view, Cell, ExtractError, ExtractErrorView, Header, RowError, RowErrorView,
};
use crate::text::text_eq;
use crate::wbs::{parse_spec, Wbs};

verus! {

/// Semantic column: order number.
pub const ORDER_COLUMN: usize = 0;

/// Semantic column: material (piece mark).
pub const MATERIAL_COLUMN: usize = 1;

/// Semantic column: order quantity.
pub const QTY_COLUMN: usize = 2;

/// Semantic column: identifier.
pub const WBS_COLUMN: usize = 3;

/// Semantic column: order type code.
pub const TYPE_COLUMN: usize = 4;

/// Semantic column: plant code.
pub const PLANT_COLUMN: usize = 5;

/// Number of semantic columns of the layout.
pub const COHV_COLUMNS: usize = 6;

/// The order list layout: each data row is one [`Order`].
#[derive(Clone, Copy, Debug, PartialEq, Eq, Structural)]
pub struct CohvHeader;

/// The semantic column that a header text denotes.
pub open spec fn cohv_header_column(text: Seq<char>) -> Option<nat> {
    if text == "Order"@ {
        Some(ORDER_COLUMN as nat)
    } else if text == "Material Number"@ || text == "Material"@ {
        Some(MATERIAL_COLUMN as nat)
    } else if text == "Order quantity (GMEIN)"@ || text == "Target qty"@ {
        Some(QTY_COLUMN as nat)
    } else if text == "WBS Element"@ {
        Some(WBS_COLUMN as nat)
    } else if text == "Order Type"@ {
        Some(TYPE_COLUMN as nat)
    } else if text == "Plant"@ {
        Some(PLANT_COLUMN as nat)
    } else {
        None
    }
}

/// The name of a semantic column.
pub open spec fn cohv_column_name(column: nat) -> Seq<char> {
    if column == ORDER_COLUMN {
        "Order"@
    } else if column == MATERIAL_COLUMN {
        "Material"@
    } else if column == QTY_COLUMN {
        "Qty"@
    } else if column == WBS_COLUMN {
        "WBS Element"@
    } else if column == TYPE_COLUMN {
        "Order Type"@
    } else {
        "Plant"@
    }
}

/// The cell of semantic column `k`.
pub open spec fn cell_at(columns: Seq<usize>, row: Seq<Cell>, k: usize) -> Cell {
    row[columns[k as int] as int]
}

/// What one data row gives. The first failure, in the order the fields are
/// read (order, material, quantity, identifier, order type, plant, then the
/// plant and order type codes), is the row's error.
pub open spec fn cohv_row(columns: Seq<usize>, row: Seq<Cell>) -> Result<OrderView, RowErrorView> {
    let id = cell_u32_spec(cell_at(columns, row, ORDER_COLUMN));
    let mark = cell_text_spec(cell_at(columns, row, MATERIAL_COLUMN));
    let qty = cell_quantity_spec(cell_at(columns, row, QTY_COLUMN));
    let wbs_text = cell_text_spec(cell_at(columns, row, WBS_COLUMN));
    let type_text = cell_text_spec(cell_at(columns, row, TYPE_COLUMN));
    let plant_text = cell_text_spec(cell_at(columns, row, PLANT_COLUMN));
    if !(forall|k: int| 0 <= k < COHV_COLUMNS ==> #[trigger] columns[k] < row.len()) {
        Err(RowErrorView::RowTooShort)
    } else if id is None {
        Err(RowErrorView::CellTypeMismatch { column: ORDER_COLUMN })
    } else if mark is None {
        Err(RowErrorView::CellTypeMismatch { column: MATERIAL_COLUMN })
    } else if qty is None {
        Err(RowErrorView::CellTypeMismatch { column: QTY_COLUMN })
    } else if wbs_text is None {
        Err(RowErrorView::CellTypeMismatch { column: WBS_COLUMN })
    } else if parse_spec(wbs_text->Some_0) is None {
        Err(RowErrorView::MalformedIdentifier { column: WBS_COLUMN, text: wbs_text->Some_0 })
    } else if type_text is None {
        Err(RowErrorView::CellTypeMismatch { column: TYPE_COLUMN })
    } else if plant_text is None {
        Err(RowErrorView::CellTypeMismatch { column: PLANT_COLUMN })
    } else if plant_of_code(plant_text->Some_0) is None {
        Err(RowErrorView::UnknownCode { column: PLANT_COLUMN })
    } else if order_class_of(type_text->Some_0) is None {
        Err(RowErrorView::UnknownCode { column: TYPE_COLUMN })
    } else {
        Ok(
            order_of(
                order_class_of(type_text->Some_0)->Some_0,
                OrderDataView {
                    id: id->Some_0,
                    mark: mark->Some_0,
                    qty: qty->Some_0,
                    wbs: parse_spec(wbs_text->Some_0)->Some_0,
                    plant: plant_of_code(plant_text->Some_0)->Some_0,
                },
            ),
        )
    }
}

impl Header for CohvHeader {
    type Record = Order;

    open spec fn spec_column_count(&self) -> nat {
        COHV_COLUMNS as nat
    }

    open spec fn spec_header_column(&self, text: Seq<char>) -> Option<nat> {
        cohv_header_column(text)
    }

    open spec fn spec_column_name(&self, column: nat) -> Seq<char> {
        cohv_column_name(column)
    }

    open spec fn spec_parse_row(&self, columns: Seq<usize>, row: Seq<Cell>) -> Result<
        OrderView,
        RowErrorView,
    > {
        cohv_row(columns, row)
    }

    proof fn lemma_parse_row_local(
        &self,
        a: Seq<usize>,
        row_a: Seq<Cell>,
        b: Seq<usize>,
        row_b: Seq<Cell>,
    ) {
        assert(a[ORDER_COLUMN as int] < row_a.len());
        assert(a[MATERIAL_COLUMN as int] < row_a.len());
        assert(a[QTY_COLUMN as int] < row_a.len());
        assert(a[WBS_COLUMN as int] < row_a.len());
        assert(a[TYPE_COLUMN as int] < row_a.len());
        assert(a[PLANT_COLUMN as int] < row_a.len());
        assert(cell_at(a, row_a, ORDER_COLUMN) == cell_at(b, row_b, ORDER_COLUMN));
        assert(cell_at(a, row_a, MATERIAL_COLUMN) == cell_at(b, row_b, MATERIAL_COLUMN));
        assert(cell_at(a, row_a, QTY_COLUMN) == cell_at(b, row_b, QTY_COLUMN));
        assert(cell_at(a, row_a, WBS_COLUMN) == cell_at(b, row_b, WBS_COLUMN));
        assert(cell_at(a, row_a, TYPE_COLUMN) == cell_at(b, row_b, TYPE_COLUMN));
        assert(cell_at(a, row_a, PLANT_COLUMN) == cell_at(b, row_b, PLANT_COLUMN));
    }

    fn column_count(&self) -> (n: usize) {
        COHV_COLUMNS
    }

    fn match_header_column(&self, text: &str) -> (r: Option<usize>) {
        if text_eq(text, "Order") {
            Some(ORDER_COLUMN)
        } else if text_eq(text, "Material Number") || text_eq(text, "Material") {
            Some(MATERIAL_COLUMN)
        } else if text_eq(text, "Order quantity (GMEIN)") || text_eq(text, "Target qty") {
            Some(QTY_COLUMN)
        } else if text_eq(text, "WBS Element") {
            Some(WBS_COLUMN)
        } else if text_eq(text, "Order Type") {
            Some(TYPE_COLUMN)
        } else if text_eq(text, "Plant") {
            Some(PLANT_COLUMN)
        } else {
            None
        }
    }

    fn column_name(&self, column: usize) -> (r: String) {
        let s = if column == ORDER_COLUMN {
            "Order"
        } else if column == MATERIAL_COLUMN {
            "Material"
        } else if column == QTY_COLUMN {
            "Qty"
        } else if column == WBS_COLUMN {
            "WBS Element"
        } else if column == TYPE_COLUMN {
            "Order Type"
        } else {
            "Plant"
        };
        String::from_str(s)
    }

    fn parse_row(&self, columns: &Vec<usize>, row: &Vec<Cell>) -> (r: Result<Order, RowError>) {
        let mut k: usize = 0;
        while k < COHV_COLUMNS
            invariant
                columns@.len() == COHV_COLUMNS,
                k <= COHV_COLUMNS,
                forall|j: int| 0 <= j < k ==> #[trigger] columns@[j] < row@.len(),
            decreases COHV_COLUMNS - k,
        {
            if columns[k] >= row.len() {
                return Err(RowError::RowTooShort);
            }
            k = k + 1;
        }
        let id = match cell_u32(&row[columns[ORDER_COLUMN]]) {
            Some(v) => v,
            None => return Err(RowError::CellTypeMismatch { column: ORDER_COLUMN }),
        };
        let mark = match cell_text(&row[columns[MATERIAL_COLUMN]]) {
            Some(v) => v,
            None => return Err(RowError::CellTypeMismatch { column: MATERIAL_COLUMN }),
        };
        let qty = match cell_quantity(&row[columns[QTY_COLUMN]]) {
            Some(v) => v,
            None => return Err(RowError::CellTypeMismatch { column: QTY_COLUMN }),
        };
        let wbs_text = match cell_text(&row[columns[WBS_COLUMN]]) {
            Some(v) => v,
            None => return Err(RowError::CellTypeMismatch { column: WBS_COLUMN }),
        };
        let wbs = match Wbs::parse(wbs_text.as_str()) {
            Ok(w) => w,
            Err(_) => return Err(RowError::MalformedIdentifier { column: WBS_COLUMN, text: wbs_text }),
        };
        let type_text = match cell_text(&row[columns[TYPE_COLUMN]]) {
            Some(v) => v,
            None => return Err(RowError::CellTypeMismatch { column: TYPE_COLUMN }),
        };
        let plant_text = match cell_text(&row[columns[PLANT_COLUMN]]) {
            Some(v) => v,
            None => return Err(RowError::CellTypeMismatch { column: PLANT_COLUMN }),
        };
        let plant = match Plant::from_code(plant_text.as_str()) {
            Ok(p) => p,
            Err(_) => return Err(RowError::UnknownCode { column: PLANT_COLUMN }),
        };
        let data = OrderData { id, mark, qty, wbs, plant };
        match Order::new(type_text.as_str(), data) {
            Ok(o) => Ok(o),
            Err(_) => Err(RowError::UnknownCode { column: TYPE_COLUMN }),
        }
    }
}

/// The values of the successful results, in order.
pub open spec fn successes<V>(rs: Seq<Result<V, RowErrorView>>) -> Seq<V>
    decreases rs.len(),
{
    if rs.len() == 0 {
        Seq::empty()
    } else {
        let rest = successes(rs.drop_first());
        match rs[0] {
            Ok(v) => seq![v] + rest,
            Err(_) => rest,
        }
    }
}

/// Extracts the orders of an order list export, keeping the rows that parse
/// and leaving out those that do not.
pub fn parse_cohv_xl(rows: &Vec<Vec<Cell>>) -> (r: Result<Vec<Order>, ExtractError>)
    ensures
        match extract_spec(&CohvHeader, rows_view(rows@)) {
            Ok(rs) => r matches Ok(v) && v@.map_values(|o: Order| o@) == successes(rs),
            Err(e) => r matches Err(x) && x@ == e,
        },
{
    let mut results = match extract(&CohvHeader, rows) {
        Ok(v) => v,
        Err(e) => return Err(e),
    };
    let ghost all = results@.map_values(|x: Result<Order, RowError>| row_view(x));
    let mut orders: Vec<Order> = Vec::new();
    while results.len() > 0
        invariant
            successes(all) == orders@.map_values(|o: Order| o@) + successes(
                results@.map_values(|x: Result<Order, RowError>| row_view(x)),
            ),
        decreases results@.len(),
    {
        let ghost before = results@.map_values(|x: Result<Order, RowError>| row_view(x));
        let ghost done = orders@.map_values(|o: Order| o@);
        let x = results.remove(0);
        let ghost after = results@.map_values(|x: Result<Order, RowError>| row_view(x));
        assert(before.drop_first() =~= after);
        assert(before[0] == row_view(x));
        match x {
            Ok(o) => {
                orders.push(o);
                assert(orders@.map_values(|o: Order| o@) =~= done.push(o@));
                assert(successes(before) == seq![o@] + successes(after));
                assert(done + successes(before) =~= done.push(o@) + successes(after));
            },
            Err(_) => {},
        }
    }
    assert(successes(results@.map_values(|x: Result<Order, RowError>| row_view(x))) =~= Seq::<
        OrderView,
    >::empty());
    assert(orders@.map_values(|o: Order| o@) =~= successes(all));
    Ok(orders)
}

} // verus!
