use vstd::prelude::*;

verus! {

/// Which side of the book an order record belongs to.
#[derive(Clone, Copy, PartialEq, Eq, Structural, Debug)]
pub enum Side {
    Buy,
    Sell,
}

/// Mathematical model of an order record.
#[verifier::ext_equal]
pub struct TransactionV {
    pub side: Side,
    pub symbol: Seq<char>,
    pub price: u32,
    pub amount: u32,
}

/// An immutable order record: a side, an instrument symbol, a unit price and
/// a quantity. Records are compared by price alone when they rest in a queue.
#[derive(Clone, Debug)]
pub struct Transaction {
    pub side: Side,
    pub symbol: String,
    pub price: u32,
    pub amount: u32,
}

impl View for Transaction {
    type V = TransactionV;

    open spec fn view(&self) -> TransactionV {
        TransactionV {
            side: self.side,
            symbol: self.symbol@,
            price: self.price,
            amount: self.amount,
        }
    }
}

impl Transaction {
    /// A buy-side order record.
    pub fn buy(symbol: String, price: u32, amount: u32) -> (r: Self)
        ensures
            r@ == (TransactionV { side: Side::Buy, symbol: symbol@, price, amount }),
    {
        Transaction { side: Side::Buy, symbol, price, amount }
    }

    /// A sell-side order record.
    pub fn sell(symbol: String, price: u32, amount: u32) -> (r: Self)
        ensures
            r@ == (TransactionV { side: Side::Sell, symbol: symbol@, price, amount }),
    {
        Transaction { side: Side::Sell, symbol, price, amount }
    }

    pub fn side(&self) -> (r: Side)
        ensures
            r == self@.side,
    {
        self.side
    }

    pub fn price(&self) -> (r: u32)
        ensures
            r == self@.price,
    {
        self.price
    }

    pub fn amount(&self) -> (r: u32)
        ensures
            r == self@.amount,
    {
        self.amount
    }

    pub fn symbol(&self) -> (r: &str)
        ensures
            r@ == self@.symbol,
    {
        self.symbol.as_str()
    }
}

} // verus!
