//! What comes in with a call, and what goes back.

use vstd::prelude::*;

verus! {

/// Who sent a call.
#[derive(Debug, PartialEq, Eq)]
pub struct MessageInfo {
    pub sender: String,
}

/// Initialisation takes no argument: the sender becomes the owner.
#[derive(Debug, Clone, Copy, PartialEq, Eq)]
pub struct InstantiateMsg {}

/// The mutating operations.
#[derive(Debug, PartialEq, Eq)]
pub enum ExecuteMsg {
    SetScore { entering_addr: String, entering_token: String, score: i32 },
}

/// The reading operations.
#[derive(Debug, PartialEq, Eq)]
pub enum QueryMsg {
    GetScore { entering_addr: String, entering_token: String },
    GetOwner {},
}

impl ExecuteMsg {
    /// The name of the holder, which the validator has to judge before the
    /// call.
    pub fn entering_addr(&self) -> (r: &String)
        ensures
            self matches ExecuteMsg::SetScore { entering_addr, .. } && *r == entering_addr,
    {
        match self {
            ExecuteMsg::SetScore { entering_addr, .. } => entering_addr,
        }
    }
}

impl QueryMsg {
    /// The name of the holder, which the validator has to judge before the
    /// call, where the message names one.
    pub fn entering_addr(&self) -> (r: Option<&String>)
        ensures
            match self {
                QueryMsg::GetScore { entering_addr, .. } => r == Some(entering_addr),
                QueryMsg::GetOwner {  } => r.is_none(),
            },
    {
        match self {
            QueryMsg::GetScore { entering_addr, .. } => Some(entering_addr),
            QueryMsg::GetOwner {  } => None,
        }
    }
}

/// The answer to `GetScore`.
#[derive(Debug, Clone, Copy, PartialEq, Eq)]
pub struct ScoreResponse {
    pub score: i32,
}

/// The answer to `GetOwner`.
#[derive(Debug, PartialEq, Eq)]
pub struct OwnerResponse {
    pub owner: String,
}

/// The answer to a reading operation, before the host encodes it.
#[derive(Debug, PartialEq, Eq)]
pub enum QueryResponse {
    Owner(OwnerResponse),
    Score(ScoreResponse),
}

/// A message for the host to send on after a call. No operation of the
/// ledger makes one.
#[derive(Debug, PartialEq, Eq)]
pub struct SubMsg {
    pub msg: String,
}

/// A key and a value that a call reports.
#[derive(Debug, PartialEq, Eq)]
pub struct Attribute {
    pub key: String,
    pub value: String,
}

impl View for Attribute {
    type V = (Seq<char>, Seq<char>);

    open spec fn view(&self) -> (Seq<char>, Seq<char>) {
        (self.key@, self.value@)
    }
}

/// What a successful mutating call hands back.
#[derive(Debug, PartialEq, Eq)]
pub struct Response {
    pub messages: Vec<SubMsg>,
    pub attributes: Vec<Attribute>,
}

impl Response {
    /// The reported attributes, in order.
    pub open spec fn reported(&self) -> Seq<(Seq<char>, Seq<char>)> {
        Seq::new(self.attributes@.len(), |i: int| self.attributes@[i]@)
    }

    /// A response without messages or attributes.
    pub fn new() -> (r: Response)
        ensures
            r.messages@.len() == 0,
            r.reported() == Seq::<(Seq<char>, Seq<char>)>::empty(),
    {
        let r = Response { messages: Vec::new(), attributes: Vec::new() };
        assert(r.reported() =~= Seq::<(Seq<char>, Seq<char>)>::empty());
        r
    }

    /// The same response with one more attribute at the end.
    pub fn add_attribute(self, key: String, value: String) -> (r: Response)
        ensures
            r.messages@ == self.messages@,
            r.reported() == self.reported().push((key@, value@)),
    {
        let mut r = self;
        r.attributes.push(Attribute { key, value });
        assert(r.reported() =~= self.reported().push((key@, value@)));
        r
    }
}

} // verus!
