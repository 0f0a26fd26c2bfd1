//! What an operation asks the chain to do: messages to send, attributes to
//! log and data to return.
use crate::coin::Coin;
use vstd::prelude::*;

verus! {

/// Fixing the amount in makes the amount out vary; this reports it.
#[derive(Debug, Clone, Copy, PartialEq, Eq)]
pub struct SwapExactAmountInResponseData {
    pub token_out_amount: u128,
}

/// Fixing the amount out makes the amount in vary; this reports it.
#[derive(Debug, Clone, Copy, PartialEq, Eq)]
pub struct SwapExactAmountOutResponseData {
    pub token_in_amount: u128,
}

/// The data an operation returns to its caller.
#[derive(Debug, Clone, Copy, PartialEq, Eq)]
pub enum ResponseData {
    SwapExactAmountIn(SwapExactAmountInResponseData),
    SwapExactAmountOut(SwapExactAmountOutResponseData),
}

/// A key and a value logged with a response.
#[derive(Debug, PartialEq, Eq)]
pub struct Attribute {
    pub key: String,
    pub value: String,
}

/// A message that an operation sends on.
#[allow(inconsistent_fields)]
#[derive(Debug, PartialEq, Eq)]
pub enum Message {
    /// Send `amount` from the contract to `to_address`.
    BankSend { to_address: String, amount: Vec<Coin> },
    /// Mint `amount` of the alloyed asset into `mint_to_address`.
    Mint { sender: String, amount: Coin, mint_to_address: String },
    /// Burn `amount` of the alloyed asset from `burn_from_address`.
    Burn { sender: String, amount: Coin, burn_from_address: String },
}

/// The outcome of a successful operation.
#[derive(Debug, PartialEq, Eq)]
pub struct Response {
    pub messages: Vec<Message>,
    pub attributes: Vec<Attribute>,
    pub data: Option<ResponseData>,
}

/// `a` has the key `key` and the value `value`.
pub open spec fn attribute_is(a: Attribute, key: Seq<char>, value: Seq<char>) -> bool {
    a.key@ == key && a.value@ == value
}

impl Response {
    /// A response with no messages, no attributes and no data.
    pub fn new() -> (r: Response)
        ensures
            r.messages@ == Seq::<Message>::empty(),
            r.attributes@ == Seq::<Attribute>::empty(),
            r.data is None,
    {
        Response { messages: Vec::new(), attributes: Vec::new(), data: None }
    }

    /// `self` with one more attribute at the end.
    pub fn add_attribute(self, key: String, value: String) -> (r: Response)
        ensures
            r.messages@ == self.messages@,
            r.attributes@ == self.attributes@.push(Attribute { key, value }),
            r.data == self.data,
    {
        let mut r = self;
        r.attributes.push(Attribute { key, value });
        r
    }

    /// `self` with one more message at the end.
    pub fn add_message(self, message: Message) -> (r: Response)
        ensures
            r.messages@ == self.messages@.push(message),
            r.attributes@ == self.attributes@,
            r.data == self.data,
    {
        let mut r = self;
        r.messages.push(message);
        r
    }

    /// `self` with `data` as its data.
    pub fn set_data(self, data: ResponseData) -> (r: Response)
        ensures
            r.messages@ == self.messages@,
            r.attributes@ == self.attributes@,
            r.data == Some(data),
    {
        let mut r = self;
        r.data = Some(data);
        r
    }
}

} // verus!
