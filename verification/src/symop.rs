//! Symbolic operations: the terms the engine computes and a specification
//! writes, and the predicates over them.
//!
//! A term is a constant, a typed symbol, a panic, or an operator applied to
//! operand terms. The operator (its `Head`) carries whatever an operation
//! names besides its operands: a data variable, map or token it acts on, a
//! tuple field, a block-info property, a type, or a function.
//!
//! Each type has a view into a mathematical model in which text is a
//! `Seq<char>`; contracts are stated over the views.

use vstd::prelude::*;

verus! {

broadcast use vstd::std_specs::vec::group_vec_axioms;

/// Equality of two values by their models.
pub trait Same: DeepView + Sized {
    fn same(&self, other: &Self) -> (r: bool)
        ensures
            r == (self.deep_view() == other.deep_view()),
    ;
}

/// A copy of a value with the same model.
pub trait Duplicate: DeepView + Sized {
    fn duplicate(&self) -> (r: Self)
        ensures
            r.deep_view() == self.deep_view(),
    ;
}

impl<A: Duplicate, B: Duplicate> Duplicate for (A, B) {
    fn duplicate(&self) -> (r: (A, B)) {
        (self.0.duplicate(), self.1.duplicate())
    }
}

impl<T: Duplicate> Duplicate for Vec<T> {
    fn duplicate(&self) -> (r: Vec<T>) {
        let mut r: Vec<T> = Vec::new();
        let mut i: usize = 0;
        while i < self.len()
            invariant
                0 <= i <= self@.len(),
                r.deep_view() == self.deep_view().take(i as int),
            decreases self@.len() - i,
        {
            let ghost before = r.deep_view();
            r.push(self[i].duplicate());
            assert(r.deep_view() =~= before.push(self@[i as int].deep_view()));
            assert(r.deep_view() =~= self.deep_view().take(i + 1));
            i = i + 1;
        }
        assert(self.deep_view().take(self@.len() as int) =~= self.deep_view());
        r
    }
}

impl Duplicate for String {
    fn duplicate(&self) -> (r: String) {
        self.clone()
    }
}

impl Same for String {
    fn same(&self, other: &String) -> (r: bool) {
        *self == *other
    }
}

/// A fully qualified name: the contract that defines it and its local name.
#[derive(Debug, PartialEq)]
pub struct FullName {
    pub contract: String,
    pub name: String,
}

impl Duplicate for FullName {
    fn duplicate(&self) -> (r: FullName)
    {
        FullName { contract: self.contract.clone(), name: self.name.clone() }
    }
}

impl DeepView for FullName {
    type V = <FullName as View>::V;

    open spec fn deep_view(&self) -> Self::V {
        self@
    }
}

impl View for FullName {
    type V = (Seq<char>, Seq<char>);

    open spec fn view(&self) -> (Seq<char>, Seq<char>) {
        (self.contract@, self.name@)
    }
}

impl Same for FullName {
    fn same(&self, other: &FullName) -> (r: bool) {
        self.contract == other.contract && self.name == other.name
    }
}

impl FullName {
    pub fn new(contract: String, name: String) -> (r: Self)
        ensures
            r@ == (contract@, name@),
    {
        FullName { contract, name }
    }


}

/// A Clarity constant. Integers and booleans are held as numbers; `none` has
/// its own case; every other literal (principals, buffers, strings, lists,
/// tuples) is held as its Clarity source text.
#[derive(Debug, PartialEq)]
pub enum Value {
    Int(i128),
    UInt(u128),
    Bool(bool),
    NoneValue,
    Other(String),
}

pub enum ValueV {
    Int(i128),
    UInt(u128),
    Bool(bool),
    NoneValue,
    Other(Seq<char>),
}

impl Duplicate for Value {
    fn duplicate(&self) -> (r: Value)
    {
        match self {
            Value::Int(a) => Value::Int(*a),
            Value::UInt(a) => Value::UInt(*a),
            Value::Bool(a) => Value::Bool(*a),
            Value::NoneValue => Value::NoneValue,
            Value::Other(a) => Value::Other(a.clone()),
        }
    }
}

impl DeepView for Value {
    type V = <Value as View>::V;

    open spec fn deep_view(&self) -> Self::V {
        self@
    }
}

impl View for Value {
    type V = ValueV;

    open spec fn view(&self) -> ValueV {
        match self {
            Value::Int(i) => ValueV::Int(*i),
            Value::UInt(u) => ValueV::UInt(*u),
            Value::Bool(b) => ValueV::Bool(*b),
            Value::NoneValue => ValueV::NoneValue,
            Value::Other(s) => ValueV::Other(s@),
        }
    }
}

impl Value {
    pub fn same(&self, other: &Value) -> (r: bool)
        ensures
            r == (self@ == other@),
    {
        match (self, other) {
            (Value::Int(a), Value::Int(b)) => *a == *b,
            (Value::UInt(a), Value::UInt(b)) => *a == *b,
            (Value::Bool(a), Value::Bool(b)) => *a == *b,
            (Value::NoneValue, Value::NoneValue) => true,
            (Value::Other(a), Value::Other(b)) => *a == *b,
            _ => false,
        }
    }


}

/// A typed symbol: its name and its Clarity type, written as Clarity source
/// (`uint`, `(optional uint)`, ...).
#[derive(Debug, PartialEq)]
pub struct Sym {
    pub name: String,
    pub type_repr: String,
}

impl Duplicate for Sym {
    fn duplicate(&self) -> (r: Sym)
    {
        Sym { name: self.name.clone(), type_repr: self.type_repr.clone() }
    }
}

impl DeepView for Sym {
    type V = <Sym as View>::V;

    open spec fn deep_view(&self) -> Self::V {
        self@
    }
}

impl View for Sym {
    type V = (Seq<char>, Seq<char>);

    open spec fn view(&self) -> (Seq<char>, Seq<char>) {
        (self.name@, self.type_repr@)
    }
}

impl Sym {
    pub fn new(name: String, type_repr: String) -> (r: Self)
        ensures
            r@ == (name@, type_repr@),
    {
        Sym { name, type_repr }
    }

    pub fn same(&self, other: &Sym) -> (r: bool)
        ensures
            r == (self@ == other@),
    {
        self.name == other.name && self.type_repr == other.type_repr
    }


}

/// The operators of the term language.
#[derive(Clone, Copy, PartialEq, Eq, Structural, Debug)]
pub enum OpKind {
    Add,
    Subtract,
    Multiply,
    Divide,
    Modulo,
    ToInt,
    ToUInt,
    Power,
    Sqrti,
    Log2,
    And,
    Or,
    Not,
    Greater,
    Geq,
    Equals,
    Leq,
    Less,
    Append,
    Concat,
    AsMaxLen,
    Len,
    ElementAt,
    IndexOf,
    BuffToIntLe,
    BuffToIntBe,
    BuffToUIntLe,
    BuffToUIntBe,
    IsStandard,
    PrincipalDestruct,
    PrincipalConstruct,
    StringToInt,
    StringToUInt,
    IntToAscii,
    IntToUtf8,
    ListCons,
    FetchVar,
    SetVar,
    LoadedDataVariable,
    FetchEntry,
    LoadedMapEntry,
    SetEntry,
    InsertEntry,
    DeleteEntry,
    TupleCons,
    TupleGet,
    TupleMerge,
    Hash160,
    Sha256,
    Sha512,
    Sha512Trunc256,
    Keccak256,
    Secp256k1Recover,
    Secp256k1Verify,
    ContractOf,
    PrincipalOf,
    IsOkay,
    IsErr,
    IsSome,
    IsNone,
    UnwrapPanic,
    UnwrapErrPanic,
    ConsError,
    ConsOkay,
    ConsSome,
    GetTokenBalance,
    GetNftOwner,
    TransferToken,
    TransferNft,
    MintToken,
    MintNft,
    GetTokenSupply,
    BurnToken,
    BurnNft,
    GetStxBalance,
    StxTransfer,
    StxTransferMemo,
    StxBurn,
    StxGetAccount,
    BitwiseAnd,
    BitwiseOr,
    BitwiseXor,
    BitwiseNot,
    BitwiseLShift,
    BitwiseRShift,
    Slice,
    ToConsensusBuff,
    FromConsensusBuff,
    ReplaceAt,
    GetStacksBlockInfo,
    GetTenureInfo,
    ContractHash,
    ToAscii,
    Secp256r1Verify,
    VerifyMerkleProof,
    GetBitcoinTxOutput,
    If,
    Named,
    FunctionCall,
}

/// What an operator node applies: a plain operator; an operator on a named
/// data variable, map or token; an operator with a label (a tuple field, a
/// block-info property, a type, a function or formula name); or a tuple
/// constructor with its field names.
#[derive(Debug, PartialEq)]
pub enum Head {
    Op(OpKind),
    Var(OpKind, FullName),
    Labeled(OpKind, String),
    Tuple(Vec<String>),
}

pub enum HeadV {
    Op(OpKind),
    Var(OpKind, (Seq<char>, Seq<char>)),
    Labeled(OpKind, Seq<char>),
    Tuple(Seq<Seq<char>>),
}

impl Duplicate for Head {
    fn duplicate(&self) -> (r: Head)
    {
        match self {
            Head::Op(k) => Head::Op(*k),
            Head::Var(k, n) => Head::Var(*k, n.duplicate()),
            Head::Labeled(k, l) => Head::Labeled(*k, l.clone()),
            Head::Tuple(f) => Head::Tuple(strings_duplicate(f)),
        }
    }
}

impl DeepView for Head {
    type V = <Head as View>::V;

    open spec fn deep_view(&self) -> Self::V {
        self@
    }
}

impl View for Head {
    type V = HeadV;

    open spec fn view(&self) -> HeadV {
        match self {
            Head::Op(k) => HeadV::Op(*k),
            Head::Var(k, n) => HeadV::Var(*k, n@),
            Head::Labeled(k, l) => HeadV::Labeled(*k, l@),
            Head::Tuple(fields) => HeadV::Tuple(fields.deep_view()),
        }
    }
}

pub fn strings_same(a: &Vec<String>, b: &Vec<String>) -> (r: bool)
    ensures
        r == (a.deep_view() == b.deep_view()),
{
    if a.len() != b.len() {
        assert(a.deep_view().len() != b.deep_view().len());
        return false;
    }
    let mut i: usize = 0;
    while i < a.len()
        invariant
            a@.len() == b@.len(),
            0 <= i <= a@.len(),
            forall|j: int| 0 <= j < i ==> a@[j]@ == b@[j]@,
        decreases a@.len() - i,
    {
        if a[i] != b[i] {
            assert(a.deep_view()[i as int] != b.deep_view()[i as int]);
            return false;
        }
        i = i + 1;
    }
    assert(a.deep_view() =~= b.deep_view());
    true
}

pub fn strings_duplicate(a: &Vec<String>) -> (r: Vec<String>)
    ensures
        r.deep_view() == a.deep_view(),
{
    let mut r: Vec<String> = Vec::new();
    let mut i: usize = 0;
    while i < a.len()
        invariant
            0 <= i <= a@.len(),
            r.deep_view() == a.deep_view().take(i as int),
        decreases a@.len() - i,
    {
        let ghost before = r.deep_view();
        r.push(a[i].clone());
        assert(r.deep_view() =~= before.push(a@[i as int]@));
        assert(r.deep_view() =~= a.deep_view().take(i + 1));
        i = i + 1;
    }
    assert(a.deep_view().take(a@.len() as int) =~= a.deep_view());
    r
}

impl Head {
    pub open spec fn kind(&self) -> OpKind {
        match self {
            Head::Op(k) => *k,
            Head::Var(k, _) => *k,
            Head::Labeled(k, _) => *k,
            Head::Tuple(_) => OpKind::TupleCons,
        }
    }

    pub fn same(&self, other: &Head) -> (r: bool)
        ensures
            r == (self@ == other@),
    {
        match (self, other) {
            (Head::Op(a), Head::Op(b)) => *a == *b,
            (Head::Var(a, n), Head::Var(b, m)) => *a == *b && n.same(m),
            (Head::Labeled(a, l), Head::Labeled(b, m)) => *a == *b && *l == *m,
            (Head::Tuple(a), Head::Tuple(b)) => strings_same(a, b),
            _ => false,
        }
    }


}

/// A symbolic operation.
#[derive(Debug, PartialEq)]
pub enum SymOp {
    Constant(Value),
    Variable(Sym),
    Node(Head, Vec<SymOp>),
    Panic,
}

/// The model of a symbolic operation.
pub enum Term {
    Constant(ValueV),
    Variable((Seq<char>, Seq<char>)),
    Node(HeadV, Seq<Term>),
    Panic,
}

/// The model of a term.
pub open spec fn term_of(op: SymOp) -> Term
    decreases op,
{
    match op {
        SymOp::Constant(v) => Term::Constant(v@),
        SymOp::Variable(s) => Term::Variable(s@),
        SymOp::Node(h, args) => {
            proof {
                assert(decreases_to!(args => args@));
            }
            Term::Node(h@, terms_of(args@))
        },
        SymOp::Panic => Term::Panic,
    }
}

/// The models of a sequence of terms.
pub open spec fn terms_of(ops: Seq<SymOp>) -> Seq<Term>
    decreases ops,
{
    if ops.len() == 0 {
        Seq::empty()
    } else {
        proof {
            assert(decreases_to!(ops => ops[ops.len() - 1]));
        }
        terms_of(ops.drop_last()).push(term_of(ops.last()))
    }
}

pub proof fn lemma_terms_of(ops: Seq<SymOp>)
    ensures
        terms_of(ops).len() == ops.len(),
        forall|i: int| 0 <= i < ops.len() ==> #[trigger] terms_of(ops)[i] == term_of(ops[i]),
    decreases ops.len(),
{
    if ops.len() > 0 {
        lemma_terms_of(ops.drop_last());
        assert forall|i: int| 0 <= i < ops.len() implies #[trigger] terms_of(ops)[i] == term_of(ops[i]) by {
            if i < ops.len() - 1 {
                assert(ops.drop_last()[i] == ops[i]);
            }
        }
    }
}

impl Duplicate for SymOp {
    fn duplicate(&self) -> (r: SymOp)
        decreases self,
    {
        match self {
            SymOp::Constant(v) => SymOp::Constant(v.duplicate()),
            SymOp::Variable(s) => SymOp::Variable(s.duplicate()),
            SymOp::Panic => SymOp::Panic,
            SymOp::Node(h, args) => {
                let mut out: Vec<SymOp> = Vec::new();
                let mut i: usize = 0;
                while i < args.len()
                    invariant
                        0 <= i <= args@.len(),
                        *self == SymOp::Node(*h, *args),
                        out@.len() == i,
                        forall|j: int| 0 <= j < i ==> out@[j]@ == args@[j]@,
                    decreases args@.len() - i,
                {
                    proof {
                        assert(self->Node_1 == *args);
                        assert(decreases_to!(*self => self->Node_1));
                        assert(decreases_to!(*args => args[i as int]));
                    }
                    out.push(args[i].duplicate());
                    i = i + 1;
                }
                proof {
                    lemma_terms_of(out@);
                    lemma_terms_of(args@);
                    assert(terms_of(out@) =~= terms_of(args@));
                }
                SymOp::Node(h.duplicate(), out)
            },
        }
    }
}

impl DeepView for SymOp {
    type V = <SymOp as View>::V;

    open spec fn deep_view(&self) -> Self::V {
        self@
    }
}

impl View for SymOp {
    type V = Term;

    open spec fn view(&self) -> Term {
        term_of(*self)
    }
}

impl Same for SymOp {
    /// Structural equality of two terms.
    fn same(&self, other: &SymOp) -> (r: bool)
        decreases self,
    {
        match (self, other) {
            (SymOp::Constant(a), SymOp::Constant(b)) => a.same(b),
            (SymOp::Variable(a), SymOp::Variable(b)) => a.same(b),
            (SymOp::Panic, SymOp::Panic) => true,
            (SymOp::Node(h1, a1), SymOp::Node(h2, a2)) => {
                proof {
                    lemma_terms_of(a1@);
                    lemma_terms_of(a2@);
                }
                if !h1.same(h2) || a1.len() != a2.len() {
                    return false;
                }
                let mut i: usize = 0;
                while i < a1.len()
                    invariant
                        a1@.len() == a2@.len(),
                        0 <= i <= a1@.len(),
                        *self == SymOp::Node(*h1, *a1),
                        *other == SymOp::Node(*h2, *a2),
                        forall|j: int| 0 <= j < i ==> a1@[j]@ == a2@[j]@,
                    decreases a1@.len() - i,
                {
                    proof {
                        lemma_terms_of(a1@);
                        lemma_terms_of(a2@);
                        assert(self->Node_1 == *a1);
                        assert(decreases_to!(*self => self->Node_1));
                        assert(decreases_to!(*a1 => a1[i as int]));
                    }
                    if !a1[i].same(&a2[i]) {
                        assert(terms_of(a1@)[i as int] != terms_of(a2@)[i as int]);
                        return false;
                    }
                    i = i + 1;
                }
                assert(terms_of(a1@) =~= terms_of(a2@));
                true
            },
            _ => false,
        }
    }

}

/// A path predicate or halting condition: trivially true, trivially false,
/// or a boolean-valued term.
#[derive(Debug, PartialEq)]
pub enum Predicate {
    True,
    False,
    Formula(SymOp),
}

pub enum PredicateV {
    True,
    False,
    Formula(Term),
}

impl Duplicate for Predicate {
    fn duplicate(&self) -> (r: Predicate)
    {
        match self {
            Predicate::True => Predicate::True,
            Predicate::False => Predicate::False,
            Predicate::Formula(a) => Predicate::Formula(a.duplicate()),
        }
    }
}

impl DeepView for Predicate {
    type V = <Predicate as View>::V;

    open spec fn deep_view(&self) -> Self::V {
        self@
    }
}

impl View for Predicate {
    type V = PredicateV;

    open spec fn view(&self) -> PredicateV {
        match self {
            Predicate::True => PredicateV::True,
            Predicate::False => PredicateV::False,
            Predicate::Formula(op) => PredicateV::Formula(op@),
        }
    }
}

/// The term a predicate stands for.
pub open spec fn predicate_term(p: PredicateV) -> Term {
    match p {
        PredicateV::True => Term::Constant(ValueV::Bool(true)),
        PredicateV::False => Term::Constant(ValueV::Bool(false)),
        PredicateV::Formula(t) => t,
    }
}

impl Same for Predicate {
    fn same(&self, other: &Predicate) -> (r: bool) {
        match (self, other) {
            (Predicate::True, Predicate::True) => true,
            (Predicate::False, Predicate::False) => true,
            (Predicate::Formula(a), Predicate::Formula(b)) => a.same(b),
            _ => false,
        }
    }
}

impl Predicate {


    /// The predicate as a term: `true`, `false`, or its formula.
    pub fn as_symop(self) -> (r: SymOp)
        ensures
            r@ == predicate_term(self@),
    {
        match self {
            Predicate::True => SymOp::Constant(Value::Bool(true)),
            Predicate::False => SymOp::Constant(Value::Bool(false)),
            Predicate::Formula(op) => op,
        }
    }
}

} // verus!
