//! Rendering terms as Clarity source text.

use vstd::prelude::*;
use crate::symop::{FullName, Value, ValueV, Sym, OpKind, Head, HeadV, SymOp, Term, terms_of, lemma_terms_of, Predicate, PredicateV, predicate_term};
use crate::state::NameV;
use crate::text::{decimal, signed_decimal, decimal_text, signed_decimal_text, concat};

verus! {

broadcast use vstd::std_specs::vec::group_vec_axioms;

/// The Clarity name of an operator.
pub open spec fn op_name(k: OpKind) -> Seq<char> {
    match k {
        OpKind::Add => "+"@,
        OpKind::Subtract => "-"@,
        OpKind::Multiply => "*"@,
        OpKind::Divide => "/"@,
        OpKind::Modulo => "mod"@,
        OpKind::ToInt => "to-int"@,
        OpKind::ToUInt => "to-uint"@,
        OpKind::Power => "power"@,
        OpKind::Sqrti => "sqrti"@,
        OpKind::Log2 => "log2"@,
        OpKind::And => "and"@,
        OpKind::Or => "or"@,
        OpKind::Not => "not"@,
        OpKind::Greater => ">"@,
        OpKind::Geq => ">="@,
        OpKind::Equals => "is-eq"@,
        OpKind::Leq => "<="@,
        OpKind::Less => "<"@,
        OpKind::Append => "append"@,
        OpKind::Concat => "concat"@,
        OpKind::AsMaxLen => "as-max-len?"@,
        OpKind::Len => "len"@,
        OpKind::ElementAt => "element-at"@,
        OpKind::IndexOf => "index-of"@,
        OpKind::BuffToIntLe => "buff-to-int-le"@,
        OpKind::BuffToIntBe => "buff-to-int-be"@,
        OpKind::BuffToUIntLe => "buff-to-uint-le"@,
        OpKind::BuffToUIntBe => "buff-to-uint-be"@,
        OpKind::IsStandard => "is-standard"@,
        OpKind::PrincipalDestruct => "principal-destruct"@,
        OpKind::PrincipalConstruct => "principal-construct"@,
        OpKind::StringToInt => "string-to-int?"@,
        OpKind::StringToUInt => "string-to-uint?"@,
        OpKind::IntToAscii => "int-to-ascii"@,
        OpKind::IntToUtf8 => "int-to-utf8"@,
        OpKind::ListCons => "list"@,
        OpKind::FetchVar => "var-get"@,
        OpKind::SetVar => "var-set"@,
        OpKind::LoadedDataVariable => "loaded-var"@,
        OpKind::FetchEntry => "map-get?"@,
        OpKind::LoadedMapEntry => "map-entry"@,
        OpKind::SetEntry => "map-set"@,
        OpKind::InsertEntry => "map-insert"@,
        OpKind::DeleteEntry => "map-delete"@,
        OpKind::TupleCons => "tuple"@,
        OpKind::TupleGet => "get"@,
        OpKind::TupleMerge => "merge"@,
        OpKind::Hash160 => "hash160"@,
        OpKind::Sha256 => "sha256"@,
        OpKind::Sha512 => "sha512"@,
        OpKind::Sha512Trunc256 => "sha512/256"@,
        OpKind::Keccak256 => "keccak256"@,
        OpKind::Secp256k1Recover => "secp256k1-recover?"@,
        OpKind::Secp256k1Verify => "secp256k1-verify"@,
        OpKind::ContractOf => "contract-of"@,
        OpKind::PrincipalOf => "principal-of"@,
        OpKind::IsOkay => "is-ok"@,
        OpKind::IsErr => "is-err"@,
        OpKind::IsSome => "is-some"@,
        OpKind::IsNone => "is-none"@,
        OpKind::UnwrapPanic => "unwrap-panic"@,
        OpKind::UnwrapErrPanic => "unwrap-err-panic"@,
        OpKind::ConsError => "err"@,
        OpKind::ConsOkay => "ok"@,
        OpKind::ConsSome => "some"@,
        OpKind::GetTokenBalance => "ft-get-balance"@,
        OpKind::GetNftOwner => "nft-get-owner?"@,
        OpKind::TransferToken => "ft-transfer?"@,
        OpKind::TransferNft => "nft-transfer?"@,
        OpKind::MintToken => "ft-mint?"@,
        OpKind::MintNft => "nft-mint"@,
        OpKind::GetTokenSupply => "ft-get-supply"@,
        OpKind::BurnToken => "ft-burn?"@,
        OpKind::BurnNft => "nft-burn?"@,
        OpKind::GetStxBalance => "stx-get-balance"@,
        OpKind::StxTransfer => "stx-transfer?"@,
        OpKind::StxTransferMemo => "stx-transfer-memo?"@,
        OpKind::StxBurn => "stx-burn?"@,
        OpKind::StxGetAccount => "stx-account"@,
        OpKind::BitwiseAnd => "bit-and"@,
        OpKind::BitwiseOr => "bit-or"@,
        OpKind::BitwiseXor => "bit-xor"@,
        OpKind::BitwiseNot => "bit-not"@,
        OpKind::BitwiseLShift => "bit-shift-left"@,
        OpKind::BitwiseRShift => "bit-shift-right"@,
        OpKind::Slice => "slice"@,
        OpKind::ToConsensusBuff => "to-consensus-buff?"@,
        OpKind::FromConsensusBuff => "from-consensus-buff?"@,
        OpKind::ReplaceAt => "replace-at?"@,
        OpKind::GetStacksBlockInfo => "get-stacks-block-info?"@,
        OpKind::GetTenureInfo => "get-tenure-info?"@,
        OpKind::ContractHash => "contract-hash"@,
        OpKind::ToAscii => "to-ascii?"@,
        OpKind::Secp256r1Verify => "secp256r1-verify?"@,
        OpKind::VerifyMerkleProof => "verify-merkle-proof"@,
        OpKind::GetBitcoinTxOutput => "get-bitcoin-tx-output?"@,
        OpKind::If => "if"@,
        OpKind::Named => "named"@,
        OpKind::FunctionCall => "call"@,
    }
}

pub fn op_name_text(k: OpKind) -> (s: &'static str)
    ensures
        s@ == op_name(k),
{
    match k {
        OpKind::Add => "+",
        OpKind::Subtract => "-",
        OpKind::Multiply => "*",
        OpKind::Divide => "/",
        OpKind::Modulo => "mod",
        OpKind::ToInt => "to-int",
        OpKind::ToUInt => "to-uint",
        OpKind::Power => "power",
        OpKind::Sqrti => "sqrti",
        OpKind::Log2 => "log2",
        OpKind::And => "and",
        OpKind::Or => "or",
        OpKind::Not => "not",
        OpKind::Greater => ">",
        OpKind::Geq => ">=",
        OpKind::Equals => "is-eq",
        OpKind::Leq => "<=",
        OpKind::Less => "<",
        OpKind::Append => "append",
        OpKind::Concat => "concat",
        OpKind::AsMaxLen => "as-max-len?",
        OpKind::Len => "len",
        OpKind::ElementAt => "element-at",
        OpKind::IndexOf => "index-of",
        OpKind::BuffToIntLe => "buff-to-int-le",
        OpKind::BuffToIntBe => "buff-to-int-be",
        OpKind::BuffToUIntLe => "buff-to-uint-le",
        OpKind::BuffToUIntBe => "buff-to-uint-be",
        OpKind::IsStandard => "is-standard",
        OpKind::PrincipalDestruct => "principal-destruct",
        OpKind::PrincipalConstruct => "principal-construct",
        OpKind::StringToInt => "string-to-int?",
        OpKind::StringToUInt => "string-to-uint?",
        OpKind::IntToAscii => "int-to-ascii",
        OpKind::IntToUtf8 => "int-to-utf8",
        OpKind::ListCons => "list",
        OpKind::FetchVar => "var-get",
        OpKind::SetVar => "var-set",
        OpKind::LoadedDataVariable => "loaded-var",
        OpKind::FetchEntry => "map-get?",
        OpKind::LoadedMapEntry => "map-entry",
        OpKind::SetEntry => "map-set",
        OpKind::InsertEntry => "map-insert",
        OpKind::DeleteEntry => "map-delete",
        OpKind::TupleCons => "tuple",
        OpKind::TupleGet => "get",
        OpKind::TupleMerge => "merge",
        OpKind::Hash160 => "hash160",
        OpKind::Sha256 => "sha256",
        OpKind::Sha512 => "sha512",
        OpKind::Sha512Trunc256 => "sha512/256",
        OpKind::Keccak256 => "keccak256",
        OpKind::Secp256k1Recover => "secp256k1-recover?",
        OpKind::Secp256k1Verify => "secp256k1-verify",
        OpKind::ContractOf => "contract-of",
        OpKind::PrincipalOf => "principal-of",
        OpKind::IsOkay => "is-ok",
        OpKind::IsErr => "is-err",
        OpKind::IsSome => "is-some",
        OpKind::IsNone => "is-none",
        OpKind::UnwrapPanic => "unwrap-panic",
        OpKind::UnwrapErrPanic => "unwrap-err-panic",
        OpKind::ConsError => "err",
        OpKind::ConsOkay => "ok",
        OpKind::ConsSome => "some",
        OpKind::GetTokenBalance => "ft-get-balance",
        OpKind::GetNftOwner => "nft-get-owner?",
        OpKind::TransferToken => "ft-transfer?",
        OpKind::TransferNft => "nft-transfer?",
        OpKind::MintToken => "ft-mint?",
        OpKind::MintNft => "nft-mint",
        OpKind::GetTokenSupply => "ft-get-supply",
        OpKind::BurnToken => "ft-burn?",
        OpKind::BurnNft => "nft-burn?",
        OpKind::GetStxBalance => "stx-get-balance",
        OpKind::StxTransfer => "stx-transfer?",
        OpKind::StxTransferMemo => "stx-transfer-memo?",
        OpKind::StxBurn => "stx-burn?",
        OpKind::StxGetAccount => "stx-account",
        OpKind::BitwiseAnd => "bit-and",
        OpKind::BitwiseOr => "bit-or",
        OpKind::BitwiseXor => "bit-xor",
        OpKind::BitwiseNot => "bit-not",
        OpKind::BitwiseLShift => "bit-shift-left",
        OpKind::BitwiseRShift => "bit-shift-right",
        OpKind::Slice => "slice",
        OpKind::ToConsensusBuff => "to-consensus-buff?",
        OpKind::FromConsensusBuff => "from-consensus-buff?",
        OpKind::ReplaceAt => "replace-at?",
        OpKind::GetStacksBlockInfo => "get-stacks-block-info?",
        OpKind::GetTenureInfo => "get-tenure-info?",
        OpKind::ContractHash => "contract-hash",
        OpKind::ToAscii => "to-ascii?",
        OpKind::Secp256r1Verify => "secp256r1-verify?",
        OpKind::VerifyMerkleProof => "verify-merkle-proof",
        OpKind::GetBitcoinTxOutput => "get-bitcoin-tx-output?",
        OpKind::If => "if",
        OpKind::Named => "named",
        OpKind::FunctionCall => "call",
    }
}

/// A constant as Clarity writes it.
pub open spec fn value_text(v: ValueV) -> Seq<char> {
    match v {
        ValueV::Int(i) => signed_decimal(i as int),
        ValueV::UInt(u) => "u"@ + decimal(u as nat),
        ValueV::Bool(b) => if b { "true"@ } else { "false"@ },
        ValueV::NoneValue => "none"@,
        ValueV::Other(s) => s,
    }
}

/// A fully qualified name: the contract, a dot, and the local name.
pub open spec fn name_text(n: NameV) -> Seq<char> {
    n.0 + "."@ + n.1
}

pub open spec fn head_text(h: HeadV) -> Seq<char> {
    match h {
        HeadV::Op(k) => op_name(k),
        HeadV::Var(k, n) => op_name(k) + " "@ + name_text(n),
        HeadV::Labeled(k, l) => op_name(k) + " "@ + l,
        HeadV::Tuple(_) => "tuple"@,
    }
}

/// A term as Clarity source: constants as literals, a symbol as
/// `(name type)`, an operation as `(operator operands...)`, and a tuple as
/// `(tuple (field value)...)`.
pub open spec fn render(t: Term) -> Seq<char>
    decreases t, 0int,
{
    match t {
        Term::Constant(v) => value_text(v),
        Term::Variable(s) => "("@ + s.0 + " "@ + s.1 + ")"@,
        Term::Panic => "panic"@,
        Term::Node(h, args) => match h {
            HeadV::Tuple(names) => "(tuple"@ + render_fields(names, args, if names.len() < args.len() { names.len() as int } else { args.len() as int }) + ")"@,
            _ => "("@ + head_text(h) + render_args(args, args.len() as int) + ")"@,
        },
    }
}

/// The first `n` operands, each after a space.
pub open spec fn render_args(args: Seq<Term>, n: int) -> Seq<char>
    decreases args, n,
{
    if n <= 0 || n > args.len() {
        Seq::empty()
    } else {
        render_args(args, n - 1) + " "@ + render(args[n - 1])
    }
}

/// The first `n` tuple fields, each as ` (name value)`.
pub open spec fn render_fields(names: Seq<Seq<char>>, args: Seq<Term>, n: int) -> Seq<char>
    decreases args, n,
{
    if n <= 0 || n > args.len() || n > names.len() {
        Seq::empty()
    } else {
        render_fields(names, args, n - 1) + " ("@ + names[n - 1] + " "@ + render(args[n - 1]) + ")"@
    }
}

pub fn value_to_text(v: &Value) -> (s: String)
    ensures
        s@ == value_text(v@),
{
    match v {
        Value::Int(i) => signed_decimal_text(*i),
        Value::UInt(u) => {
            let d = decimal_text(*u);
            concat("u", d.as_str())
        },
        Value::Bool(b) => if *b { "true".to_owned() } else { "false".to_owned() },
        Value::NoneValue => "none".to_owned(),
        Value::Other(s) => s.clone(),
    }
}

pub fn name_to_text(n: &FullName) -> (s: String)
    ensures
        s@ == name_text(n@),
{
    let a = concat(n.contract.as_str(), ".");
    concat(a.as_str(), n.name.as_str())
}

fn head_to_text(h: &Head) -> (s: String)
    ensures
        s@ == head_text(h@),
{
    match h {
        Head::Op(k) => op_name_text(*k).to_owned(),
        Head::Var(k, n) => {
            let a = concat(op_name_text(*k), " ");
            concat(a.as_str(), name_to_text(n).as_str())
        },
        Head::Labeled(k, l) => {
            let a = concat(op_name_text(*k), " ");
            concat(a.as_str(), l.as_str())
        },
        Head::Tuple(_) => "tuple".to_owned(),
    }
}

impl SymOp {
    /// The term as Clarity source text.
    pub fn to_text(&self) -> (s: String)
        ensures
            s@ == render(self@),
        decreases self,
    {
        match self {
            SymOp::Constant(v) => value_to_text(v),
            SymOp::Variable(sym) => {
                let a = concat("(", sym.name.as_str());
                let a = concat(a.as_str(), " ");
                let a = concat(a.as_str(), sym.type_repr.as_str());
                concat(a.as_str(), ")")
            },
            SymOp::Panic => "panic".to_owned(),
            SymOp::Node(h, args) => {
                let ghost ts = terms_of(args@);
                proof {
                    lemma_terms_of(args@);
                }
                match h {
                    Head::Tuple(names) => {
                        let n: usize = if names.len() < args.len() { names.len() } else { args.len() };
                        let mut out = "(tuple".to_owned();
                        let mut i: usize = 0;
                        while i < n
                            invariant
                                *self == SymOp::Node(*h, *args),
                                *h == Head::Tuple(*names),
                                ts == terms_of(args@),
                                ts.len() == args@.len(),
                                forall|j: int| 0 <= j < args@.len() ==> #[trigger] ts[j] == args@[j]@,
                                n <= names@.len(),
                                n <= args@.len(),
                                0 <= i <= n,
                                out@ == "(tuple"@ + render_fields(names.deep_view(), ts, i as int),
                            decreases n - i,
                        {
                            proof {
                                assert(self->Node_1 == *args);
                                assert(decreases_to!(*self => self->Node_1));
                                assert(decreases_to!(*args => args[i as int]));
                            }
                            let a = concat(out.as_str(), " (");
                            let a = concat(a.as_str(), names[i].as_str());
                            let a = concat(a.as_str(), " ");
                            let a = concat(a.as_str(), args[i].to_text().as_str());
                            out = concat(a.as_str(), ")");
                            proof {
                                assert(out@ =~= "(tuple"@ + render_fields(names.deep_view(), ts, i + 1));
                            }
                            i = i + 1;
                        }
                        concat(out.as_str(), ")")
                    },
                    _ => {
                        let a = concat("(", head_to_text(h).as_str());
                        let mut out = a;
                        let mut i: usize = 0;
                        while i < args.len()
                            invariant
                                *self == SymOp::Node(*h, *args),
                                ts == terms_of(args@),
                                ts.len() == args@.len(),
                                forall|j: int| 0 <= j < args@.len() ==> #[trigger] ts[j] == args@[j]@,
                                0 <= i <= args@.len(),
                                out@ == "("@ + head_text(h@) + render_args(ts, i as int),
                            decreases args@.len() - i,
                        {
                            proof {
                                assert(self->Node_1 == *args);
                                assert(decreases_to!(*self => self->Node_1));
                                assert(decreases_to!(*args => args[i as int]));
                            }
                            let a = concat(out.as_str(), " ");
                            out = concat(a.as_str(), args[i].to_text().as_str());
                            proof {
                                assert(out@ =~= "("@ + head_text(h@) + render_args(ts, i + 1));
                            }
                            i = i + 1;
                        }
                        concat(out.as_str(), ")")
                    },
                }
            },
        }
    }
}

impl Predicate {
    /// The predicate as Clarity source text.
    pub fn to_text(&self) -> (s: String)
        ensures
            s@ == render(predicate_term(self@)),
    {
        match self {
            Predicate::True => "true".to_owned(),
            Predicate::False => "false".to_owned(),
            Predicate::Formula(op) => op.to_text(),
        }
    }
}

} // verus!
