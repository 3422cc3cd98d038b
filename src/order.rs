//! Manufacturing orders.

use vstd::prelude::*;
use crate::plant::{Plant, UnknownCode};
use crate::text::text_eq;
use crate::wbs::{Wbs, WbsView};

verus! {

/// The data of one order.
#[derive(Clone, Debug, PartialEq, Eq)]
pub struct OrderData {
    /// Order number.
    pub id: u32,
    /// Piece mark.
    pub mark: String,
    /// Order quantity.
    pub qty: u32,
    /// Identifier of the order.
    pub wbs: Wbs,
    /// Site of the order.
    pub plant: Plant,
}

/// An order, by its ERP order class.
#[derive(Clone, Debug, PartialEq, Eq)]
pub enum Order {
    /// Planned order (code `PR`).
    PlannedOrder(OrderData),
    /// Production order, released (code `PP01`).
    ProductionOrder(OrderData),
}

/// A reduction larger than the quantity that is left.
#[derive(Clone, Copy, Debug, PartialEq, Eq, Structural)]
pub struct QuantityUnderflow {
    /// The quantity that was to be taken off.
    pub requested: u32,
    /// The quantity that was there.
    pub available: u32,
}

/// The mathematical value of an [`OrderData`].
pub struct OrderDataView {
    pub id: u32,
    pub mark: Seq<char>,
    pub qty: u32,
    pub wbs: WbsView,
    pub plant: Plant,
}

/// The mathematical value of an [`Order`].
pub enum OrderView {
    Planned(OrderDataView),
    Production(OrderDataView),
}

/// The order class that an order-type code selects.
pub enum OrderClass {
    Planned,
    Production,
}

impl View for OrderData {
    type V = OrderDataView;

    open spec fn view(&self) -> OrderDataView {
        OrderDataView {
            id: self.id,
            mark: self.mark@,
            qty: self.qty,
            wbs: self.wbs@,
            plant: self.plant,
        }
    }
}

impl View for Order {
    type V = OrderView;

    open spec fn view(&self) -> OrderView {
        match self {
            Order::PlannedOrder(d) => OrderView::Planned(d@),
            Order::ProductionOrder(d) => OrderView::Production(d@),
        }
    }
}

/// The order class of an order-type code: `PR` is planned, `PP01` production.
pub open spec fn order_class_of(code: Seq<char>) -> Option<OrderClass> {
    if code == seq!['P', 'R'] {
        Some(OrderClass::Planned)
    } else if code == seq!['P', 'P', '0', '1'] {
        Some(OrderClass::Production)
    } else {
        None
    }
}

/// The order of a given class over `d`.
pub open spec fn order_of(class: OrderClass, d: OrderDataView) -> OrderView {
    match class {
        OrderClass::Planned => OrderView::Planned(d),
        OrderClass::Production => OrderView::Production(d),
    }
}

impl Order {
    /// Makes the order that `order_type` selects; unknown codes are refused.
    pub fn new(order_type: &str, data: OrderData) -> (r: Result<Order, UnknownCode>)
        ensures
            match order_class_of(order_type@) {
                Some(c) => r matches Ok(o) && o@ == order_of(c, data@),
                None => r matches Err(e) && e.code@ == order_type@,
            },
    {
        proof {
            reveal_strlit("PP01");
            reveal_strlit("PR");
            assert("PP01"@ =~= seq!['P', 'P', '0', '1']);
            assert("PR"@ =~= seq!['P', 'R']);
        }
        if text_eq(order_type, "PP01") {
            Ok(Order::ProductionOrder(data))
        } else if text_eq(order_type, "PR") {
            Ok(Order::PlannedOrder(data))
        } else {
            Err(UnknownCode { code: order_type.to_owned() })
        }
    }

    /// The data of this order.
    pub fn data(&self) -> (r: &OrderData)
        ensures
            match self@ {
                OrderView::Planned(d) => r@ == d,
                OrderView::Production(d) => r@ == d,
            },
    {
        match self {
            Order::PlannedOrder(d) => d,
            Order::ProductionOrder(d) => d,
        }
    }
}

impl OrderData {
    /// Takes `qty` off the order quantity. A reduction larger than the
    /// quantity is refused and leaves the order as it was.
    pub fn apply_qty(&mut self, qty: u32) -> (r: Result<(), QuantityUnderflow>)
        ensures
            old(self).qty >= qty ==> r is Ok && final(self).qty == old(self).qty - qty,
            old(self).qty < qty ==> r == Err::<(), QuantityUnderflow>(
                QuantityUnderflow { requested: qty, available: old(self).qty },
            ) && final(self).qty == old(self).qty,
            final(self).id == old(self).id,
            final(self).mark == old(self).mark,
            final(self).wbs == old(self).wbs,
            final(self).plant == old(self).plant,
    {
        if self.qty < qty {
            return Err(QuantityUnderflow { requested: qty, available: self.qty });
        }
        self.qty = self.qty - qty;
        Ok(())
    }
}

} // verus!
