use vstd::prelude::*;

verus! {

/// tokio's monotonic instant, carried through the library as an opaque value.
#[verifier::external_type_specification]
#[verifier::external_body]
pub struct ExInstant(tokio::time::Instant);

/// Reads tokio's clock with `tokio::time::Instant::now`.
/// The reading depends on the time, so nothing is stated of it.
#[verifier::external_body]
pub(crate) fn clock_now() -> (now: tokio::time::Instant) {
    tokio::time::Instant::now()
}

/// Nanoseconds that tokio's clock has advanced since `origin`:
/// `tokio::time::Instant::elapsed` (which saturates at zero), read with `Duration::as_nanos`.
/// The reading depends on the time, so nothing is stated of it.
#[verifier::external_body]
fn nanos_since(origin: &tokio::time::Instant) -> (nanos: u128) {
    origin.elapsed().as_nanos()
}

/// Identity of a transaction: the moment it was created, as nanoseconds on tokio's
/// clock since the clock origin of the service manager.
/// Transactions are equal, and are found again in sets, by this number alone.
#[derive(Clone, Copy, Debug, PartialEq, Eq, Structural, PartialOrd, Ord, Hash)]
pub struct TxnId {
    pub time: u128,
}

impl TxnId {
    /// Stamps a new transaction with the current time, measured from `clock_origin`.
    pub fn new(clock_origin: &tokio::time::Instant) -> (id: TxnId) {
        TxnId { time: nanos_since(clock_origin) }
    }
}

/// The right-hand side of an assignment: an integer literal, a definition or a state variable.
#[derive(Debug)]
pub enum Val {
    Int(i32),
    Def(String),
    Var(String),
}

/// What a `Val` denotes, with names as character sequences.
pub enum ValView {
    Int(i32),
    Def(Seq<char>),
    Var(Seq<char>),
}

impl View for Val {
    type V = ValView;

    open spec fn view(&self) -> ValView {
        match self {
            Val::Int(x) => ValView::Int(*x),
            Val::Def(n) => ValView::Def(n@),
            Val::Var(n) => ValView::Var(n@),
        }
    }
}

impl Clone for Val {
    fn clone(&self) -> (copy: Self)
        ensures
            copy == *self,
    {
        match self {
            Val::Int(x) => Val::Int(*x),
            Val::Def(n) => Val::Def(n.clone()),
            Val::Var(n) => Val::Var(n.clone()),
        }
    }
}

/// A single update of a state variable: `name := expr`.
#[derive(Debug)]
pub struct WriteToName {
    pub name: String,
    pub expr: Val,
}

pub struct WriteView {
    pub name: Seq<char>,
    pub expr: ValView,
}

impl View for WriteToName {
    type V = WriteView;

    open spec fn view(&self) -> WriteView {
        WriteView { name: self.name@, expr: self.expr@ }
    }
}

impl Clone for WriteToName {
    fn clone(&self) -> (copy: Self)
        ensures
            copy == *self,
    {
        WriteToName { name: self.name.clone(), expr: self.expr.clone() }
    }
}

/// A transaction: its identity and the list of updates it performs.
#[derive(Debug)]
pub struct Txn {
    pub id: TxnId,
    pub writes: Vec<WriteToName>,
}

pub struct TxnView {
    pub id: TxnId,
    pub writes: Seq<WriteView>,
}

impl View for Txn {
    type V = TxnView;

    open spec fn view(&self) -> TxnView {
        TxnView { id: self.id, writes: self.writes@.map_values(|w: WriteToName| w@) }
    }
}

impl TxnView {
    /// The number by which sets of transactions hold this transaction.
    pub open spec fn key(self) -> u128 {
        self.id.time
    }
}

impl Txn {
    /// The number by which sets of transactions hold this transaction.
    pub fn key(&self) -> (k: u128)
        ensures
            k == self@.key(),
    {
        self.id.time
    }
}

impl Clone for Txn {
    fn clone(&self) -> (copy: Self)
        ensures
            copy@ == self@,
    {
        let mut writes: Vec<WriteToName> = Vec::new();
        for i in 0..self.writes.len()
            invariant
                writes@.len() == i,
                forall|j: int| 0 <= j < i ==> writes@[j] == self.writes@[j],
        {
            writes.push(self.writes[i].clone());
        }
        let copy = Txn { id: self.id, writes };
        assert(copy@.writes =~= self@.writes);
        copy
    }
}

impl PartialEq for Txn {
    fn eq(&self, other: &Self) -> (same: bool) {
        self.id.time == other.id.time
    }
}

impl vstd::std_specs::cmp::PartialEqSpecImpl for Txn {
    open spec fn obeys_eq_spec() -> bool {
        true
    }

    open spec fn eq_spec(&self, other: &Self) -> bool {
        self.id == other.id
    }
}

impl Eq for Txn {

}

} // verus!
