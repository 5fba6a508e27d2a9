//! The small enumerations shared by orders, fills and the book.

use vstd::prelude::*;

verus! {

/// The side of an order.
#[derive(Clone, Copy, Debug, PartialEq, Eq, Structural)]
pub enum OrderType {
    Buy,
    Sell,
}

/// Where an order stands in its life. `Open` may become `Filled` or
/// `Canceled`; neither of those ever changes again.
#[derive(Clone, Copy, Debug, PartialEq, Eq, Structural)]
pub enum OrderStatus {
    Open,
    Filled,
    Canceled,
}

/// Why an order was turned away. Nothing is changed when one of these is
/// returned.
#[derive(Clone, Copy, Debug, PartialEq, Eq, Structural)]
pub enum ValidationError {
    /// The price handed to the book's factory was zero or negative.
    NonPositivePrice,
    /// The quantity was zero.
    NonPositiveQuantity,
    /// The price in ticks was zero or negative, as given or after rounding.
    NonPositiveTicks,
    /// The book already knows an order with this identifier.
    DuplicateOrder,
}

impl ValidationError {
    /// What went wrong, in words.
    pub open spec fn spec_message(self) -> Seq<char> {
        match self {
            ValidationError::NonPositivePrice => "price must be positive"@,
            ValidationError::NonPositiveQuantity => "quantity must be positive"@,
            ValidationError::NonPositiveTicks => "price_in_ticks must be positive"@,
            ValidationError::DuplicateOrder => "order is already known to the book"@,
        }
    }

    /// What went wrong, in words.
    pub fn message(self) -> (r: &'static str)
        ensures
            r@ == self.spec_message(),
    {
        match self {
            ValidationError::NonPositivePrice => "price must be positive",
            ValidationError::NonPositiveQuantity => "quantity must be positive",
            ValidationError::NonPositiveTicks => "price_in_ticks must be positive",
            ValidationError::DuplicateOrder => "order is already known to the book",
        }
    }
}

/// The number of price units in one whole unit of price. Prices and tick
/// sizes are whole numbers of price units.
pub const PRICE_SCALE: u64 = 10_000;

/// The tick size of a book that is made without one: a hundredth of a whole
/// unit of price.
pub const DEFAULT_TICK_SIZE: u64 = 100;

impl OrderType {
    /// The other side.
    pub open spec fn spec_opposite(self) -> OrderType {
        match self {
            OrderType::Buy => OrderType::Sell,
            OrderType::Sell => OrderType::Buy,
        }
    }

    /// The other side.
    #[verifier::when_used_as_spec(spec_opposite)]
    pub fn opposite(self) -> (r: OrderType)
        ensures
            r == self.spec_opposite(),
    {
        match self {
            OrderType::Buy => OrderType::Sell,
            OrderType::Sell => OrderType::Buy,
        }
    }
}

} // verus!
