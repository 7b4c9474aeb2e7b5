//! Decoding specification expressions into symbolic operations.
//!
//! An expression is a literal, one of the few atoms that name a value, a
//! typed symbol `(name type)`, or an operator applied to operands. Most
//! operators take their operands directly: `(op a b ...)`. Operators on a
//! data variable, map or token take its fully qualified name first:
//! `(map-set 'ADDR.c.m key value)`. A few take a label first: `(get field
//! tuple)`. Loaded state (`loaded-var...`, `map-entry...`) and tuples have
//! forms of their own.

use vstd::prelude::*;
use crate::symop::{FullName, Value, ValueV, Sym, OpKind, Head, HeadV, SymOp, Term, terms_of, lemma_terms_of, Duplicate};
use crate::state::NameV;
use crate::expr::{SymExpr, ExprV, expr_of, exprs_of, lemma_exprs_of, opt_text};
use crate::error::{Error, cause_of};
use crate::text::{concat, decimal, decimal_text, push_str};
use crate::contract::{expr_to_text, list_to_text, joined, items_text};
use crate::render::{name_to_text, op_name};

verus! {

broadcast use vstd::std_specs::vec::group_vec_axioms;

/// How many operands an operator takes.
#[derive(Clone, Copy, PartialEq, Eq, Structural, Debug)]
pub enum Arity {
    Exactly(usize),
    AtLeast(usize),
    Between(usize, usize),
}

pub open spec fn arity_ok(a: Arity, n: int) -> bool {
    match a {
        Arity::Exactly(m) => n == m,
        Arity::AtLeast(m) => n >= m,
        Arity::Between(lo, hi) => lo <= n <= hi,
    }
}

/// Whether `s` reads `lit`.
pub fn is(s: &String, lit: &str) -> (r: bool)
    ensures
        r == (s@ == lit@),
{
    *s == lit.to_owned()
}

/// Operators applied directly to their operands, with their arity.
pub open spec fn plain_op(name: Seq<char>) -> Option<(OpKind, Arity)> {
    match plain_op_a(name) {
        Some(x) => Some(x),
        None => plain_op_b(name),
    }
}

/// Decoding an operator's name gives back the operator of that name: the
/// name a plain operator is read from is the operator's own Clarity name,
/// or one of the other spellings Clarity accepts, `element-at?`, `xor` and
/// `slice?`. So decoding `(>= a b)` and rendering it again gives `(>= a b)`.
pub proof fn lemma_plain_op_names_itself(name: Seq<char>)
    ensures
        plain_op(name) matches Some((k, _)) ==> {
            ||| op_name(k) == name
            ||| (name == "element-at?"@ && k == OpKind::ElementAt)
            ||| (name == "xor"@ && k == OpKind::BitwiseXor)
            ||| (name == "slice?"@ && k == OpKind::Slice)
        },
{
}

pub open spec fn plain_op_a(name: Seq<char>) -> Option<(OpKind, Arity)> {
    if name == "+"@ {
        Some((OpKind::Add, Arity::AtLeast(2)))
    } else if name == "-"@ {
        Some((OpKind::Subtract, Arity::AtLeast(1)))
    } else if name == "*"@ {
        Some((OpKind::Multiply, Arity::AtLeast(2)))
    } else if name == "/"@ {
        Some((OpKind::Divide, Arity::AtLeast(2)))
    } else if name == "mod"@ {
        Some((OpKind::Modulo, Arity::Exactly(2)))
    } else if name == "to-int"@ {
        Some((OpKind::ToInt, Arity::Exactly(1)))
    } else if name == "to-uint"@ {
        Some((OpKind::ToUInt, Arity::Exactly(1)))
    } else if name == "power"@ {
        Some((OpKind::Power, Arity::Exactly(2)))
    } else if name == "sqrti"@ {
        Some((OpKind::Sqrti, Arity::Exactly(1)))
    } else if name == "log2"@ {
        Some((OpKind::Log2, Arity::Exactly(1)))
    } else if name == "and"@ {
        Some((OpKind::And, Arity::AtLeast(2)))
    } else if name == "or"@ {
        Some((OpKind::Or, Arity::AtLeast(2)))
    } else if name == "not"@ {
        Some((OpKind::Not, Arity::Exactly(1)))
    } else if name == ">"@ {
        Some((OpKind::Greater, Arity::Exactly(2)))
    } else if name == ">="@ {
        Some((OpKind::Geq, Arity::Exactly(2)))
    } else if name == "is-eq"@ {
        Some((OpKind::Equals, Arity::AtLeast(2)))
    } else if name == "<="@ {
        Some((OpKind::Leq, Arity::Exactly(2)))
    } else if name == "<"@ {
        Some((OpKind::Less, Arity::Exactly(2)))
    } else if name == "append"@ {
        Some((OpKind::Append, Arity::Exactly(2)))
    } else if name == "concat"@ {
        Some((OpKind::Concat, Arity::AtLeast(2)))
    } else if name == "as-max-len?"@ {
        Some((OpKind::AsMaxLen, Arity::Exactly(2)))
    } else if name == "len"@ {
        Some((OpKind::Len, Arity::Exactly(1)))
    } else if name == "element-at"@ {
        Some((OpKind::ElementAt, Arity::Exactly(2)))
    } else if name == "element-at?"@ {
        Some((OpKind::ElementAt, Arity::Exactly(2)))
    } else if name == "index-of"@ {
        Some((OpKind::IndexOf, Arity::Exactly(2)))
    } else if name == "buff-to-int-le"@ {
        Some((OpKind::BuffToIntLe, Arity::Exactly(1)))
    } else if name == "buff-to-int-be"@ {
        Some((OpKind::BuffToIntBe, Arity::Exactly(1)))
    } else if name == "buff-to-uint-le"@ {
        Some((OpKind::BuffToUIntLe, Arity::Exactly(1)))
    } else if name == "buff-to-uint-be"@ {
        Some((OpKind::BuffToUIntBe, Arity::Exactly(1)))
    } else if name == "is-standard"@ {
        Some((OpKind::IsStandard, Arity::Exactly(1)))
    } else if name == "principal-destruct"@ {
        Some((OpKind::PrincipalDestruct, Arity::Exactly(1)))
    } else if name == "principal-construct"@ {
        Some((OpKind::PrincipalConstruct, Arity::Between(2, 3)))
    } else if name == "string-to-int?"@ {
        Some((OpKind::StringToInt, Arity::Exactly(1)))
    } else if name == "string-to-uint?"@ {
        Some((OpKind::StringToUInt, Arity::Exactly(1)))
    } else if name == "int-to-ascii"@ {
        Some((OpKind::IntToAscii, Arity::Exactly(1)))
    } else if name == "int-to-utf8"@ {
        Some((OpKind::IntToUtf8, Arity::Exactly(1)))
    } else if name == "list"@ {
        Some((OpKind::ListCons, Arity::AtLeast(0)))
    } else if name == "merge"@ {
        Some((OpKind::TupleMerge, Arity::Exactly(2)))
    } else if name == "hash160"@ {
        Some((OpKind::Hash160, Arity::Exactly(1)))
    } else if name == "sha256"@ {
        Some((OpKind::Sha256, Arity::Exactly(1)))
    } else {
        None
    }
}

pub open spec fn plain_op_b(name: Seq<char>) -> Option<(OpKind, Arity)> {
    if name == "sha512"@ {
        Some((OpKind::Sha512, Arity::Exactly(1)))
    } else if name == "sha512/256"@ {
        Some((OpKind::Sha512Trunc256, Arity::Exactly(1)))
    } else if name == "keccak256"@ {
        Some((OpKind::Keccak256, Arity::Exactly(1)))
    } else if name == "secp256k1-recover?"@ {
        Some((OpKind::Secp256k1Recover, Arity::Exactly(2)))
    } else if name == "secp256k1-verify"@ {
        Some((OpKind::Secp256k1Verify, Arity::Exactly(3)))
    } else if name == "contract-of"@ {
        Some((OpKind::ContractOf, Arity::Exactly(1)))
    } else if name == "principal-of"@ {
        Some((OpKind::PrincipalOf, Arity::Exactly(1)))
    } else if name == "is-ok"@ {
        Some((OpKind::IsOkay, Arity::Exactly(1)))
    } else if name == "is-err"@ {
        Some((OpKind::IsErr, Arity::Exactly(1)))
    } else if name == "is-some"@ {
        Some((OpKind::IsSome, Arity::Exactly(1)))
    } else if name == "is-none"@ {
        Some((OpKind::IsNone, Arity::Exactly(1)))
    } else if name == "unwrap-panic"@ {
        Some((OpKind::UnwrapPanic, Arity::Exactly(1)))
    } else if name == "unwrap-err-panic"@ {
        Some((OpKind::UnwrapErrPanic, Arity::Exactly(1)))
    } else if name == "err"@ {
        Some((OpKind::ConsError, Arity::Exactly(1)))
    } else if name == "ok"@ {
        Some((OpKind::ConsOkay, Arity::Exactly(1)))
    } else if name == "some"@ {
        Some((OpKind::ConsSome, Arity::Exactly(1)))
    } else if name == "stx-get-balance"@ {
        Some((OpKind::GetStxBalance, Arity::Exactly(1)))
    } else if name == "stx-transfer?"@ {
        Some((OpKind::StxTransfer, Arity::Exactly(3)))
    } else if name == "stx-transfer-memo?"@ {
        Some((OpKind::StxTransferMemo, Arity::Exactly(4)))
    } else if name == "stx-burn?"@ {
        Some((OpKind::StxBurn, Arity::Exactly(1)))
    } else if name == "stx-account"@ {
        Some((OpKind::StxGetAccount, Arity::Exactly(1)))
    } else if name == "bit-and"@ {
        Some((OpKind::BitwiseAnd, Arity::AtLeast(2)))
    } else if name == "bit-or"@ {
        Some((OpKind::BitwiseOr, Arity::AtLeast(2)))
    } else if name == "bit-xor"@ {
        Some((OpKind::BitwiseXor, Arity::AtLeast(2)))
    } else if name == "xor"@ {
        Some((OpKind::BitwiseXor, Arity::AtLeast(2)))
    } else if name == "bit-not"@ {
        Some((OpKind::BitwiseNot, Arity::Exactly(1)))
    } else if name == "bit-shift-left"@ {
        Some((OpKind::BitwiseLShift, Arity::Exactly(2)))
    } else if name == "bit-shift-right"@ {
        Some((OpKind::BitwiseRShift, Arity::Exactly(2)))
    } else if name == "slice"@ {
        Some((OpKind::Slice, Arity::Exactly(3)))
    } else if name == "slice?"@ {
        Some((OpKind::Slice, Arity::Exactly(3)))
    } else if name == "to-consensus-buff?"@ {
        Some((OpKind::ToConsensusBuff, Arity::Exactly(1)))
    } else if name == "replace-at?"@ {
        Some((OpKind::ReplaceAt, Arity::Exactly(3)))
    } else if name == "contract-hash"@ {
        Some((OpKind::ContractHash, Arity::Exactly(1)))
    } else if name == "to-ascii?"@ {
        Some((OpKind::ToAscii, Arity::Exactly(1)))
    } else if name == "secp256r1-verify?"@ {
        Some((OpKind::Secp256r1Verify, Arity::Exactly(3)))
    } else if name == "verify-merkle-proof"@ {
        Some((OpKind::VerifyMerkleProof, Arity::Exactly(5)))
    } else if name == "get-bitcoin-tx-output?"@ {
        Some((OpKind::GetBitcoinTxOutput, Arity::Exactly(2)))
    } else {
        None
    }
}

/// Operators on a named data variable, map or token, with the number of
/// operands after the name; `None` where the operator takes none and what
/// follows the name is not read.
pub open spec fn named_op(name: Seq<char>) -> Option<(OpKind, Option<usize>)> {
    if name == "var-get"@ {
        Some((OpKind::FetchVar, None))
    } else if name == "var-set"@ {
        Some((OpKind::SetVar, Some(1)))
    } else if name == "map-get?"@ {
        Some((OpKind::FetchEntry, Some(1)))
    } else if name == "map-set"@ {
        Some((OpKind::SetEntry, Some(2)))
    } else if name == "map-insert"@ {
        Some((OpKind::InsertEntry, Some(2)))
    } else if name == "map-delete"@ {
        Some((OpKind::DeleteEntry, Some(1)))
    } else if name == "ft-get-balance"@ {
        Some((OpKind::GetTokenBalance, Some(1)))
    } else if name == "nft-get-owner?"@ {
        Some((OpKind::GetNftOwner, Some(1)))
    } else if name == "ft-transfer?"@ {
        Some((OpKind::TransferToken, Some(3)))
    } else if name == "nft-transfer?"@ {
        Some((OpKind::TransferNft, Some(3)))
    } else if name == "ft-mint?"@ {
        Some((OpKind::MintToken, Some(2)))
    } else if name == "nft-mint"@ {
        Some((OpKind::MintNft, Some(2)))
    } else if name == "ft-get-supply"@ {
        Some((OpKind::GetTokenSupply, None))
    } else if name == "ft-burn?"@ {
        Some((OpKind::BurnToken, Some(1)))
    } else if name == "nft-burn?"@ {
        Some((OpKind::BurnNft, Some(2)))
    } else {
        None
    }
}

/// Operators with a label before their single operand.
pub open spec fn labeled_op(name: Seq<char>) -> Option<OpKind> {
    if name == "get"@ {
        Some(OpKind::TupleGet)
    } else if name == "get-stacks-block-info?"@ {
        Some(OpKind::GetStacksBlockInfo)
    } else if name == "get-tenure-info?"@ {
        Some(OpKind::GetTenureInfo)
    } else {
        None
    }
}

fn plain_op_a_exec(name: &String) -> (r: Option<(OpKind, Arity)>)
    ensures
        r == plain_op_a(name@),
{
    if is(name, "+") {
        Some((OpKind::Add, Arity::AtLeast(2)))
    } else if is(name, "-") {
        Some((OpKind::Subtract, Arity::AtLeast(1)))
    } else if is(name, "*") {
        Some((OpKind::Multiply, Arity::AtLeast(2)))
    } else if is(name, "/") {
        Some((OpKind::Divide, Arity::AtLeast(2)))
    } else if is(name, "mod") {
        Some((OpKind::Modulo, Arity::Exactly(2)))
    } else if is(name, "to-int") {
        Some((OpKind::ToInt, Arity::Exactly(1)))
    } else if is(name, "to-uint") {
        Some((OpKind::ToUInt, Arity::Exactly(1)))
    } else if is(name, "power") {
        Some((OpKind::Power, Arity::Exactly(2)))
    } else if is(name, "sqrti") {
        Some((OpKind::Sqrti, Arity::Exactly(1)))
    } else if is(name, "log2") {
        Some((OpKind::Log2, Arity::Exactly(1)))
    } else if is(name, "and") {
        Some((OpKind::And, Arity::AtLeast(2)))
    } else if is(name, "or") {
        Some((OpKind::Or, Arity::AtLeast(2)))
    } else if is(name, "not") {
        Some((OpKind::Not, Arity::Exactly(1)))
    } else if is(name, ">") {
        Some((OpKind::Greater, Arity::Exactly(2)))
    } else if is(name, ">=") {
        Some((OpKind::Geq, Arity::Exactly(2)))
    } else if is(name, "is-eq") {
        Some((OpKind::Equals, Arity::AtLeast(2)))
    } else if is(name, "<=") {
        Some((OpKind::Leq, Arity::Exactly(2)))
    } else if is(name, "<") {
        Some((OpKind::Less, Arity::Exactly(2)))
    } else if is(name, "append") {
        Some((OpKind::Append, Arity::Exactly(2)))
    } else if is(name, "concat") {
        Some((OpKind::Concat, Arity::AtLeast(2)))
    } else if is(name, "as-max-len?") {
        Some((OpKind::AsMaxLen, Arity::Exactly(2)))
    } else if is(name, "len") {
        Some((OpKind::Len, Arity::Exactly(1)))
    } else if is(name, "element-at") {
        Some((OpKind::ElementAt, Arity::Exactly(2)))
    } else if is(name, "element-at?") {
        Some((OpKind::ElementAt, Arity::Exactly(2)))
    } else if is(name, "index-of") {
        Some((OpKind::IndexOf, Arity::Exactly(2)))
    } else if is(name, "buff-to-int-le") {
        Some((OpKind::BuffToIntLe, Arity::Exactly(1)))
    } else if is(name, "buff-to-int-be") {
        Some((OpKind::BuffToIntBe, Arity::Exactly(1)))
    } else if is(name, "buff-to-uint-le") {
        Some((OpKind::BuffToUIntLe, Arity::Exactly(1)))
    } else if is(name, "buff-to-uint-be") {
        Some((OpKind::BuffToUIntBe, Arity::Exactly(1)))
    } else if is(name, "is-standard") {
        Some((OpKind::IsStandard, Arity::Exactly(1)))
    } else if is(name, "principal-destruct") {
        Some((OpKind::PrincipalDestruct, Arity::Exactly(1)))
    } else if is(name, "principal-construct") {
        Some((OpKind::PrincipalConstruct, Arity::Between(2, 3)))
    } else if is(name, "string-to-int?") {
        Some((OpKind::StringToInt, Arity::Exactly(1)))
    } else if is(name, "string-to-uint?") {
        Some((OpKind::StringToUInt, Arity::Exactly(1)))
    } else if is(name, "int-to-ascii") {
        Some((OpKind::IntToAscii, Arity::Exactly(1)))
    } else if is(name, "int-to-utf8") {
        Some((OpKind::IntToUtf8, Arity::Exactly(1)))
    } else if is(name, "list") {
        Some((OpKind::ListCons, Arity::AtLeast(0)))
    } else if is(name, "merge") {
        Some((OpKind::TupleMerge, Arity::Exactly(2)))
    } else if is(name, "hash160") {
        Some((OpKind::Hash160, Arity::Exactly(1)))
    } else if is(name, "sha256") {
        Some((OpKind::Sha256, Arity::Exactly(1)))
    } else {
        None
    }
}

fn plain_op_b_exec(name: &String) -> (r: Option<(OpKind, Arity)>)
    ensures
        r == plain_op_b(name@),
{
    if is(name, "sha512") {
        Some((OpKind::Sha512, Arity::Exactly(1)))
    } else if is(name, "sha512/256") {
        Some((OpKind::Sha512Trunc256, Arity::Exactly(1)))
    } else if is(name, "keccak256") {
        Some((OpKind::Keccak256, Arity::Exactly(1)))
    } else if is(name, "secp256k1-recover?") {
        Some((OpKind::Secp256k1Recover, Arity::Exactly(2)))
    } else if is(name, "secp256k1-verify") {
        Some((OpKind::Secp256k1Verify, Arity::Exactly(3)))
    } else if is(name, "contract-of") {
        Some((OpKind::ContractOf, Arity::Exactly(1)))
    } else if is(name, "principal-of") {
        Some((OpKind::PrincipalOf, Arity::Exactly(1)))
    } else if is(name, "is-ok") {
        Some((OpKind::IsOkay, Arity::Exactly(1)))
    } else if is(name, "is-err") {
        Some((OpKind::IsErr, Arity::Exactly(1)))
    } else if is(name, "is-some") {
        Some((OpKind::IsSome, Arity::Exactly(1)))
    } else if is(name, "is-none") {
        Some((OpKind::IsNone, Arity::Exactly(1)))
    } else if is(name, "unwrap-panic") {
        Some((OpKind::UnwrapPanic, Arity::Exactly(1)))
    } else if is(name, "unwrap-err-panic") {
        Some((OpKind::UnwrapErrPanic, Arity::Exactly(1)))
    } else if is(name, "err") {
        Some((OpKind::ConsError, Arity::Exactly(1)))
    } else if is(name, "ok") {
        Some((OpKind::ConsOkay, Arity::Exactly(1)))
    } else if is(name, "some") {
        Some((OpKind::ConsSome, Arity::Exactly(1)))
    } else if is(name, "stx-get-balance") {
        Some((OpKind::GetStxBalance, Arity::Exactly(1)))
    } else if is(name, "stx-transfer?") {
        Some((OpKind::StxTransfer, Arity::Exactly(3)))
    } else if is(name, "stx-transfer-memo?") {
        Some((OpKind::StxTransferMemo, Arity::Exactly(4)))
    } else if is(name, "stx-burn?") {
        Some((OpKind::StxBurn, Arity::Exactly(1)))
    } else if is(name, "stx-account") {
        Some((OpKind::StxGetAccount, Arity::Exactly(1)))
    } else if is(name, "bit-and") {
        Some((OpKind::BitwiseAnd, Arity::AtLeast(2)))
    } else if is(name, "bit-or") {
        Some((OpKind::BitwiseOr, Arity::AtLeast(2)))
    } else if is(name, "bit-xor") {
        Some((OpKind::BitwiseXor, Arity::AtLeast(2)))
    } else if is(name, "xor") {
        Some((OpKind::BitwiseXor, Arity::AtLeast(2)))
    } else if is(name, "bit-not") {
        Some((OpKind::BitwiseNot, Arity::Exactly(1)))
    } else if is(name, "bit-shift-left") {
        Some((OpKind::BitwiseLShift, Arity::Exactly(2)))
    } else if is(name, "bit-shift-right") {
        Some((OpKind::BitwiseRShift, Arity::Exactly(2)))
    } else if is(name, "slice") {
        Some((OpKind::Slice, Arity::Exactly(3)))
    } else if is(name, "slice?") {
        Some((OpKind::Slice, Arity::Exactly(3)))
    } else if is(name, "to-consensus-buff?") {
        Some((OpKind::ToConsensusBuff, Arity::Exactly(1)))
    } else if is(name, "replace-at?") {
        Some((OpKind::ReplaceAt, Arity::Exactly(3)))
    } else if is(name, "contract-hash") {
        Some((OpKind::ContractHash, Arity::Exactly(1)))
    } else if is(name, "to-ascii?") {
        Some((OpKind::ToAscii, Arity::Exactly(1)))
    } else if is(name, "secp256r1-verify?") {
        Some((OpKind::Secp256r1Verify, Arity::Exactly(3)))
    } else if is(name, "verify-merkle-proof") {
        Some((OpKind::VerifyMerkleProof, Arity::Exactly(5)))
    } else if is(name, "get-bitcoin-tx-output?") {
        Some((OpKind::GetBitcoinTxOutput, Arity::Exactly(2)))
    } else {
        None
    }
}

fn plain_op_exec(name: &String) -> (r: Option<(OpKind, Arity)>)
    ensures
        r == plain_op(name@),
{
    match plain_op_a_exec(name) {
        Some(x) => Some(x),
        None => plain_op_b_exec(name),
    }
}

fn named_op_exec(name: &String) -> (r: Option<(OpKind, Option<usize>)>)
    ensures
        r == named_op(name@),
{
    if is(name, "var-get") {
        Some((OpKind::FetchVar, None))
    } else if is(name, "var-set") {
        Some((OpKind::SetVar, Some(1)))
    } else if is(name, "map-get?") {
        Some((OpKind::FetchEntry, Some(1)))
    } else if is(name, "map-set") {
        Some((OpKind::SetEntry, Some(2)))
    } else if is(name, "map-insert") {
        Some((OpKind::InsertEntry, Some(2)))
    } else if is(name, "map-delete") {
        Some((OpKind::DeleteEntry, Some(1)))
    } else if is(name, "ft-get-balance") {
        Some((OpKind::GetTokenBalance, Some(1)))
    } else if is(name, "nft-get-owner?") {
        Some((OpKind::GetNftOwner, Some(1)))
    } else if is(name, "ft-transfer?") {
        Some((OpKind::TransferToken, Some(3)))
    } else if is(name, "nft-transfer?") {
        Some((OpKind::TransferNft, Some(3)))
    } else if is(name, "ft-mint?") {
        Some((OpKind::MintToken, Some(2)))
    } else if is(name, "nft-mint") {
        Some((OpKind::MintNft, Some(2)))
    } else if is(name, "ft-get-supply") {
        Some((OpKind::GetTokenSupply, None))
    } else if is(name, "ft-burn?") {
        Some((OpKind::BurnToken, Some(1)))
    } else if is(name, "nft-burn?") {
        Some((OpKind::BurnNft, Some(2)))
    } else {
        None
    }
}

fn labeled_op_exec(name: &String) -> (r: Option<OpKind>)
    ensures
        r == labeled_op(name@),
{
    if is(name, "get") {
        Some(OpKind::TupleGet)
    } else if is(name, "get-stacks-block-info?") {
        Some(OpKind::GetStacksBlockInfo)
    } else if is(name, "get-tenure-info?") {
        Some(OpKind::GetTenureInfo)
    } else {
        None
    }
}


/// The type an expression denotes, if it is a type signature.
pub open spec fn type_of(e: ExprV) -> Option<Seq<char>> {
    match e {
        ExprV::Atom(_, t) => t,
        ExprV::List(_, t) => t,
        _ => None,
    }
}

/// The atoms that name a value: the booleans, `none`, and the principals of
/// the transaction's context, each a symbol of type `principal`.
pub open spec fn atom_term(name: Seq<char>) -> Option<Term> {
    if name == "true"@ {
        Some(Term::Constant(ValueV::Bool(true)))
    } else if name == "false"@ {
        Some(Term::Constant(ValueV::Bool(false)))
    } else if name == "none"@ {
        Some(Term::Constant(ValueV::NoneValue))
    } else if name == "tx-sender"@ || name == "tx-sponsor?"@ || name == "contract-caller"@ || name == "current-contract"@ {
        Some(Term::Variable((name, "principal"@)))
    } else {
        None
    }
}

/// The term an expression denotes, or `None` where it is not a valid
/// specification expression.
pub open spec fn decode(e: ExprV) -> Option<Term>
    decreases e, 0int,
{
    match e {
        ExprV::Literal(v) => Some(Term::Constant(v)),
        ExprV::Atom(a, _) => atom_term(a),
        ExprV::Field(_) => None,
        ExprV::List(items, _) => {
            if items.len() < 2 {
                None
            } else {
                match items[0] {
                    ExprV::Atom(first, _) => match type_of(items[1]) {
                        Some(ts) => Some(Term::Variable((first, ts))),
                        None => decode_form(first, items),
                    },
                    _ => None,
                }
            }
        },
    }
}

/// The terms that `items[from..to]` denote, if each denotes one.
pub open spec fn decode_range(items: Seq<ExprV>, from: int, to: int) -> Option<Seq<Term>>
    decreases items, to - from,
{
    if to <= from {
        Some(Seq::empty())
    } else if from < 0 || to > items.len() {
        None
    } else {
        match decode_range(items, from, to - 1) {
            None => None,
            Some(ts) => match decode(items[to - 1]) {
                None => None,
                Some(t) => Some(ts.push(t)),
            },
        }
    }
}

/// The field names and values that the bindings `items[from..to]` of a
/// tuple denote: each binding is a list of a name and an expression.
pub open spec fn tuple_range(items: Seq<ExprV>, from: int, to: int) -> Option<(Seq<Seq<char>>, Seq<Term>)>
    decreases items, to - from,
{
    if to <= from {
        Some((Seq::empty(), Seq::empty()))
    } else if from < 0 || to > items.len() {
        None
    } else {
        match tuple_range(items, from, to - 1) {
            None => None,
            Some((names, vals)) => match items[to - 1] {
                ExprV::List(pair, _) => {
                    if pair.len() != 2 {
                        None
                    } else {
                        match pair[0] {
                            ExprV::Atom(name, _) => {
                                proof {
                                    assert(decreases_to!(items => items[to - 1]));
                                    assert(decreases_to!(items[to - 1] => pair));
                                    assert(decreases_to!(pair => pair[1]));
                                }
                                match decode(pair[1]) {
                                    None => None,
                                    Some(t) => Some((names.push(name), vals.push(t))),
                                }
                            },
                            _ => None,
                        }
                    }
                },
                _ => None,
            },
        }
    }
}

pub open spec fn var_node(k: OpKind, n: NameV, args: Seq<Term>) -> Term {
    Term::Node(HeadV::Var(k, n), args)
}

/// The term that a list `(first second ...)` denotes when `second` is not a
/// type signature.
pub open spec fn decode_form(first: Seq<char>, items: Seq<ExprV>) -> Option<Term>
    decreases items, items.len() + 1,
{
    if items.len() < 2 {
        None
    } else if first == "loaded-var"@ || first == "loaded-var-sym"@ || first == "loaded-var-const"@ || first == "loaded-var-type"@ {
        match items[1] {
            ExprV::Field(n) => {
                if items.len() < 3 {
                    None
                } else if first == "loaded-var-type"@ {
                    match type_of(items[2]) {
                        Some(ts) => Some(var_node(OpKind::LoadedDataVariable, n, seq![Term::Variable((n.1, ts))])),
                        None => None,
                    }
                } else {
                    match decode(items[2]) {
                        Some(v) => if first == "loaded-var-const"@ && !(v is Constant) {
                            None
                        } else {
                            Some(var_node(OpKind::LoadedDataVariable, n, seq![v]))
                        },
                        None => None,
                    }
                }
            },
            _ => None,
        }
    } else if first == "map-entry"@ || first == "map-entry-sym"@ || first == "map-entry-const"@ || first == "map-entry-type"@ {
        match items[1] {
            ExprV::Field(n) => {
                if items.len() < 3 {
                    None
                } else {
                    match decode(items[2]) {
                        None => None,
                        Some(key) => {
                            if items.len() < 4 {
                                if first == "map-entry"@ || first == "map-entry-sym"@ {
                                    Some(var_node(OpKind::LoadedMapEntry, n, seq![key]))
                                } else {
                                    None
                                }
                            } else {
                                match decode(items[3]) {
                                    None => None,
                                    Some(v) => {
                                        if first == "map-entry-const"@ {
                                            if v is Constant { Some(var_node(OpKind::LoadedMapEntry, n, seq![key, v])) } else { None }
                                        } else if first == "map-entry-type"@ {
                                            match v {
                                                Term::Variable(sym) => if items.len() >= 5 && type_of(items[4]) == Some(sym.1) {
                                                    Some(var_node(OpKind::LoadedMapEntry, n, seq![key, v]))
                                                } else {
                                                    None
                                                },
                                                _ => None,
                                            }
                                        } else {
                                            Some(var_node(OpKind::LoadedMapEntry, n, seq![key, v]))
                                        }
                                    },
                                }
                            }
                        },
                    }
                }
            },
            _ => None,
        }
    } else if first == "tuple"@ {
        match tuple_range(items, 1, items.len() as int) {
            Some((names, vals)) => Some(Term::Node(HeadV::Tuple(names), vals)),
            None => None,
        }
    } else if first == "from-consensus-buff?"@ {
        // its first operand must be a type signature, which would have made
        // the list a typed symbol
        None
    } else {
        match labeled_op(first) {
            Some(k) => match items[1] {
                ExprV::Atom(label, _) => match decode_range(items, 2, items.len() as int) {
                    Some(ops) => if ops.len() == 1 { Some(Term::Node(HeadV::Labeled(k, label), ops)) } else { None },
                    None => None,
                },
                _ => None,
            },
            None => match named_op(first) {
                Some((k, ar)) => match items[1] {
                    ExprV::Field(n) => match ar {
                        None => Some(var_node(k, n, Seq::empty())),
                        Some(m) => match decode_range(items, 2, items.len() as int) {
                            Some(ops) => if ops.len() == m { Some(var_node(k, n, ops)) } else { None },
                            None => None,
                        },
                    },
                    _ => None,
                },
                None => match plain_op(first) {
                    Some((k, ar)) => match decode_range(items, 1, items.len() as int) {
                        Some(ops) => if arity_ok(ar, ops.len() as int) { Some(Term::Node(HeadV::Op(k), ops)) } else { None },
                        None => None,
                    },
                    None => None,
                },
            },
        }
    }
}


proof fn lemma_terms_of_push(s: Seq<SymOp>, x: SymOp)
    ensures
        terms_of(s.push(x)) == terms_of(s).push(x@),
{
    assert(s.push(x).drop_last() =~= s);
}

proof fn lemma_terms_of_small(s: Seq<SymOp>)
    ensures
        s.len() == 0 ==> terms_of(s) == Seq::<Term>::empty(),
        s.len() == 1 ==> terms_of(s) == seq![s[0]@],
        s.len() == 2 ==> terms_of(s) == seq![s[0]@, s[1]@],
{
    lemma_terms_of(s);
    if s.len() == 0 {
        assert(terms_of(s) =~= Seq::<Term>::empty());
    }
    if s.len() == 1 {
        assert(terms_of(s) =~= seq![s[0]@]);
    }
    if s.len() == 2 {
        assert(terms_of(s) =~= seq![s[0]@, s[1]@]);
    }
}

proof fn lemma_decode_range_none(items: Seq<ExprV>, from: int, mid: int, to: int)
    requires
        0 <= from <= mid <= to <= items.len(),
        decode_range(items, from, mid) is None,
    ensures
        decode_range(items, from, to) is None,
    decreases to - mid,
{
    if to > mid {
        lemma_decode_range_none(items, from, mid, to - 1);
    }
}

proof fn lemma_tuple_range_none(items: Seq<ExprV>, from: int, mid: int, to: int)
    requires
        0 <= from <= mid <= to <= items.len(),
        tuple_range(items, from, mid) is None,
    ensures
        tuple_range(items, from, to) is None,
    decreases to - mid,
{
    if to > mid {
        lemma_tuple_range_none(items, from, mid, to - 1);
    }
}

fn program_error(msg: &str) -> (e: Error)
    ensures
        e is Program,
        cause_of(e) == msg@,
{
    Error::new_program_error(msg.to_owned())
}

/// The error for an expression that should be a fully qualified name.
fn not_a_name(e: &SymExpr) -> (r: Error)
    ensures
        r is Program,
{
    let m = concat("Fullname `", expr_to_text(e).as_str());
    Error::new_program_error(concat(m.as_str(), "` is not a fully-qualified name"))
}

proof fn lemma_decode_range_len(items: Seq<ExprV>, from: int, to: int)
    requires
        0 <= from <= to <= items.len(),
    ensures
        decode_range(items, from, to) matches Some(ts) ==> ts.len() == to - from,
    decreases to - from,
{
    if to > from {
        lemma_decode_range_len(items, from, to - 1);
    }
}

/// The error about binding number `i` of the tuple `items`.
fn binding_error(pre: &str, i: usize, binding: &SymExpr, mid: &str, items: &Vec<SymExpr>) -> (r: Error)
    ensures
        r is Program,
{
    let m = concat(pre, decimal_text(i as u128).as_str());
    let m = concat(m.as_str(), " (");
    let m = concat(m.as_str(), expr_to_text(binding).as_str());
    let m = concat(m.as_str(), mid);
    let m = concat(m.as_str(), list_to_text(items).as_str());
    Error::new_program_error(concat(m.as_str(), ")"))
}

/// A program error whose message is `pre`, the text, and `post`.
fn error_around(pre: &str, text: &String, post: &str) -> (e: Error)
    ensures
        e is Program,
        cause_of(e) == pre@ + text@ + post@,
{
    let m = concat(pre, text.as_str());
    Error::new_program_error(concat(m.as_str(), post))
}

/// A program error about the expression `part` of the list `items`: `pre`,
/// the part, `mid`, the list, and `post`.
fn error_in(pre: &str, part: &SymExpr, mid: &str, items: &Vec<SymExpr>, post: &str) -> (e: Error)
    ensures
        e is Program,
{
    let m = concat(pre, expr_to_text(part).as_str());
    let m = concat(m.as_str(), mid);
    let m = concat(m.as_str(), list_to_text(items).as_str());
    Error::new_program_error(concat(m.as_str(), post))
}

/// What a list is told whose operands `items[from..]` are fewer than `min`
/// or more than `max`.
pub open spec fn count_cause(items: Seq<ExprV>, from: int, min: usize, max: Option<usize>) -> Option<Seq<char>> {
    let n = items.len() - from;
    let pre = "Symbolic expression list `( "@ + joined(items, from, items.len() as int) + " )` has "@;
    if n < min {
        Some(pre + "unexpected length "@ + decimal(n as nat) + " (expected at least "@ + decimal(min as nat) + ")"@)
    } else if max matches Some(m) && n > m {
        Some(pre + "more than "@ + decimal(n as nat) + " items (expected at least "@ + decimal(max->0 as nat) + ")"@)
    } else {
        None
    }
}

/// The fewest and the most operands an arity allows, as counted before
/// the operands are read.
pub open spec fn arity_bounds(a: Arity) -> (usize, Option<usize>) {
    match a {
        Arity::Exactly(m) => (m, Some(m)),
        Arity::AtLeast(m) => (m, None),
        Arity::Between(lo, _) => (lo, None),
    }
}

/// The plain operator that a list headed by `first` applies, if that is
/// what the list is: none of the special forms, and no labeled or named
/// operator.
pub open spec fn plain_form(first: Seq<char>) -> Option<(OpKind, Arity)> {
    if first == "loaded-var"@ || first == "loaded-var-sym"@ || first == "loaded-var-const"@ || first == "loaded-var-type"@ {
        None
    } else if first == "map-entry"@ || first == "map-entry-sym"@ || first == "map-entry-const"@ || first == "map-entry-type"@ {
        None
    } else if first == "tuple"@ || first == "from-consensus-buff?"@ {
        None
    } else if labeled_op(first) is Some || named_op(first) is Some {
        None
    } else {
        plain_op(first)
    }
}

/// The cause of the error that decoding `e` gives, where the list or atom
/// itself is at fault: an empty list, a list of one element, an atom that
/// names nothing, or a wrong number of operands to a plain operator.
pub open spec fn shape_cause(e: ExprV) -> Option<Seq<char>> {
    match e {
        ExprV::Atom(a, _) => if atom_term(a) is None {
            Some("Symbolic expression is an unrecognized atom: "@ + a)
        } else {
            None
        },
        ExprV::List(items, _) => if items.len() == 0 {
            Some("Symbolic expression is empty: ( )"@)
        } else if items.len() == 1 {
            Some("Symbolic expression has only one element: "@ + ("("@ + items_text(items, 1) + " )"@))
        } else {
            match items[0] {
                ExprV::Atom(first, _) => if type_of(items[1]) is None {
                    match plain_form(first) {
                        Some((_, ar)) => count_cause(items, 1, arity_bounds(ar).0, arity_bounds(ar).1),
                        None => None,
                    }
                } else {
                    None
                },
                _ => None,
            }
        },
        _ => None,
    }
}

/// The error for a number of operands `items[from..]` outside `min..=max`.
fn count_error(items: &Vec<SymExpr>, from: usize, min: usize, max: Option<usize>) -> (e: Option<Error>)
    requires
        from <= items@.len(),
    ensures
        match e {
            Some(err) => err is Program && (items@.len() - from < min || (max matches Some(m) && items@.len() - from > m))
                && count_cause(exprs_of(items@), from as int, min, max) == Some(cause_of(err)),
            None => items@.len() - from >= min && (max matches Some(m) ==> items@.len() - from <= m),
        },
{
    proof {
        lemma_exprs_of(items@);
    }
    let n = items.len() - from;
    let too_few = n < min;
    let too_many = match max {
        Some(m) => n > m,
        None => false,
    };
    if !too_few && !too_many {
        return None;
    }
    let m = concat("Symbolic expression list `( ", joined_text_from(items, from).as_str());
    let m = concat(m.as_str(), " )` has ");
    let m = if too_few {
        let m = concat(m.as_str(), "unexpected length ");
        let m = concat(m.as_str(), decimal_text(n as u128).as_str());
        let m = concat(m.as_str(), " (expected at least ");
        concat(m.as_str(), decimal_text(min as u128).as_str())
    } else {
        let m = concat(m.as_str(), "more than ");
        let m = concat(m.as_str(), decimal_text(n as u128).as_str());
        let m = concat(m.as_str(), " items (expected at least ");
        let mx = match max {
            Some(x) => x,
            None => 0,
        };
        concat(m.as_str(), decimal_text(mx as u128).as_str())
    };
    let m = concat(m.as_str(), ")");
    assert(m@ =~= count_cause(exprs_of(items@), from as int, min, max)->0);
    Some(Error::new_program_error(m))
}

/// The texts of `items[from..]` joined by spaces.
fn joined_text_from(items: &Vec<SymExpr>, from: usize) -> (s: String)
    ensures
        s@ == crate::contract::joined(exprs_of(items@), from as int, items@.len() as int),
{
    let ghost iv = exprs_of(items@);
    proof {
        lemma_exprs_of(items@);
    }
    let mut out = String::new();
    if from >= items.len() {
        return out;
    }
    let mut i: usize = from;
    while i < items.len()
        invariant
            from <= i <= items@.len(),
            iv == exprs_of(items@),
            iv.len() == items@.len(),
            forall|j: int| 0 <= j < items@.len() ==> #[trigger] iv[j] == expr_of(items@[j]),
            out@ == crate::contract::joined(iv, from as int, i as int),
        decreases items@.len() - i,
    {
        if i > from {
            push_str(&mut out, " ");
        }
        push_str(&mut out, expr_to_text(&items[i]).as_str());
        proof {
            assert(iv[i as int] == items@[i as int]@);
            assert(out@ =~= crate::contract::joined(iv, from as int, i + 1));
        }
        i = i + 1;
    }
    out
}

/// The type an expression denotes, if it is a type signature.
fn type_text(e: &SymExpr) -> (r: Option<&String>)
    ensures
        match r {
            Some(t) => type_of(e@) == Some(t@),
            None => type_of(e@) is None,
        },
{
    match e {
        SymExpr::Atom(_, Some(t)) => Some(t),
        SymExpr::List(_, Some(t)) => Some(t),
        _ => None,
    }
}

fn atom_symop(name: &String) -> (r: Option<SymOp>)
    ensures
        match r {
            Some(op) => atom_term(name@) == Some(op@),
            None => atom_term(name@) is None,
        },
{
    if is(name, "true") {
        Some(SymOp::Constant(Value::Bool(true)))
    } else if is(name, "false") {
        Some(SymOp::Constant(Value::Bool(false)))
    } else if is(name, "none") {
        Some(SymOp::Constant(Value::NoneValue))
    } else if is(name, "tx-sender") {
        Some(InterpreterGetContractSymOps::new().get_tx_sender_symop())
    } else if is(name, "tx-sponsor?") {
        Some(InterpreterGetContractSymOps::new().get_tx_sponsor_symop())
    } else if is(name, "contract-caller") {
        Some(InterpreterGetContractSymOps::new().get_contract_caller_symop())
    } else if is(name, "current-contract") {
        Some(InterpreterGetContractSymOps::new().get_current_contract_symop())
    } else {
        None
    }
}

/// The symbols a specification uses for the principals of the
/// transaction's context.
pub struct InterpreterGetContractSymOps {}

/// The principal symbol named `name`.
pub open spec fn principal_symbol(name: Seq<char>) -> Term {
    Term::Variable((name, "principal"@))
}

impl InterpreterGetContractSymOps {
    pub fn new() -> (r: Self) {
        InterpreterGetContractSymOps {}
    }

    /// The sender of the transaction.
    pub fn get_tx_sender_symop(&self) -> (r: SymOp)
        ensures
            r@ == principal_symbol("tx-sender"@),
    {
        SymOp::Variable(Sym::new("tx-sender".to_owned(), "principal".to_owned()))
    }

    /// The sponsor of the transaction, if any.
    pub fn get_tx_sponsor_symop(&self) -> (r: SymOp)
        ensures
            r@ == principal_symbol("tx-sponsor?"@),
    {
        SymOp::Variable(Sym::new("tx-sponsor?".to_owned(), "principal".to_owned()))
    }

    /// The caller of the current contract.
    pub fn get_contract_caller_symop(&self) -> (r: SymOp)
        ensures
            r@ == principal_symbol("contract-caller"@),
    {
        SymOp::Variable(Sym::new("contract-caller".to_owned(), "principal".to_owned()))
    }

    /// The contract being run.
    pub fn get_current_contract_symop(&self) -> (r: SymOp)
        ensures
            r@ == principal_symbol("current-contract"@),
    {
        SymOp::Variable(Sym::new("current-contract".to_owned(), "principal".to_owned()))
    }
}

fn one(a: SymOp) -> (v: Vec<SymOp>)
    ensures
        terms_of(v@) == seq![a@],
{
    let mut v: Vec<SymOp> = Vec::new();
    v.push(a);
    proof {
        lemma_terms_of_small(v@);
    }
    v
}

fn two(a: SymOp, b: SymOp) -> (v: Vec<SymOp>)
    ensures
        terms_of(v@) == seq![a@, b@],
{
    let mut v: Vec<SymOp> = Vec::new();
    v.push(a);
    v.push(b);
    proof {
        lemma_terms_of_small(v@);
    }
    v
}

impl SymOp {
    /// Decodes the symbolic operation that a specification expression
    /// denotes.
    pub fn try_from_expr(e: &SymExpr) -> (r: Result<SymOp, Error>)
        ensures
            match r {
                Ok(op) => decode(e@) == Some(op@),
                Err(err) => decode(e@) is None && err is Program,
            },
            shape_cause(e@) matches Some(c) ==> (r matches Err(err) && cause_of(err) == c),
        decreases e, 0int,
    {
        match e {
            SymExpr::Literal(v) => Ok(SymOp::Constant(v.duplicate())),
            SymExpr::Atom(a, _) => match atom_symop(a) {
                Some(op) => Ok(op),
                None => {
                    proof {
                        reveal_strlit("");
                    }
                    let err = error_around("Symbolic expression is an unrecognized atom: ", a, "");
                    assert(cause_of(err) =~= "Symbolic expression is an unrecognized atom: "@ + a@);
                    Err(err)
                },
            },
            SymExpr::Field(n) => Err(error_around("Symbolic expression is not a literal value or a list: <", &name_to_text(n), ">")),
            SymExpr::List(items, _) => {
                proof {
                    lemma_exprs_of(items@);
                }
                if items.len() == 0 {
                    return Err(program_error("Symbolic expression is empty: ( )"));
                }
                if items.len() == 1 {
                    proof {
                        reveal_strlit("");
                    }
                    let text = list_to_text(items);
                    let err = error_around("Symbolic expression has only one element: ", &text, "");
                    assert(cause_of(err) =~= "Symbolic expression has only one element: "@ + text@);
                    return Err(err);
                }
                let first = match &items[0] {
                    SymExpr::Atom(f, _) => f,
                    other => {
                        return Err(error_in("Symbolic expression `", other, "` is not an atom (in ", items, ")"));
                    },
                };
                match type_text(&items[1]) {
                    Some(ts) => {
                        return Ok(SymOp::Variable(Sym::new(first.clone(), ts.clone())));
                    },
                    None => {},
                }
                proof {
                    assert(decreases_to!(*e => *items));
                }
                SymOp::decode_form_exec(first, items)
            },
        }
    }

    fn decode_operands(items: &Vec<SymExpr>, start: usize) -> (r: Result<Vec<SymOp>, Error>)
        requires
            start <= items@.len(),
        ensures
            match r {
                Ok(ops) => decode_range(exprs_of(items@), start as int, items@.len() as int) == Some(terms_of(ops@)),
                Err(err) => decode_range(exprs_of(items@), start as int, items@.len() as int) is None && err is Program,
            },
        decreases items, 1int,
    {
        let ghost iv = exprs_of(items@);
        proof {
            lemma_exprs_of(items@);
        }
        let mut ops: Vec<SymOp> = Vec::new();
        let mut k: usize = start;
        while k < items.len()
            invariant
                iv == exprs_of(items@),
                iv.len() == items@.len(),
                forall|i: int| 0 <= i < items@.len() ==> #[trigger] iv[i] == expr_of(items@[i]),
                start <= k <= items@.len(),
                decode_range(iv, start as int, k as int) == Some(terms_of(ops@)),
            decreases items@.len() - k,
        {
            proof {
                assert(decreases_to!(*items => items@[k as int]));
            }
            match SymOp::try_from_expr(&items[k]) {
                Ok(op) => {
                    proof {
                        lemma_terms_of_push(ops@, op);
                    }
                    ops.push(op);
                },
                Err(err) => {
                    proof {
                        lemma_decode_range_none(iv, start as int, k + 1, iv.len() as int);
                    }
                    return Err(err);
                },
            }
            k = k + 1;
        }
        Ok(ops)
    }

    fn decode_tuple(items: &Vec<SymExpr>) -> (r: Result<(Vec<String>, Vec<SymOp>), Error>)
        requires
            1 <= items@.len(),
        ensures
            match r {
                Ok((names, vals)) => tuple_range(exprs_of(items@), 1, items@.len() as int) == Some((names.deep_view(), terms_of(vals@))),
                Err(err) => tuple_range(exprs_of(items@), 1, items@.len() as int) is None && err is Program,
            },
        decreases items, 1int,
    {
        let ghost iv = exprs_of(items@);
        proof {
            lemma_exprs_of(items@);
        }
        let mut names: Vec<String> = Vec::new();
        let mut vals: Vec<SymOp> = Vec::new();
        let mut k: usize = 1;
        while k < items.len()
            invariant
                iv == exprs_of(items@),
                iv.len() == items@.len(),
                forall|i: int| 0 <= i < items@.len() ==> #[trigger] iv[i] == expr_of(items@[i]),
                1 <= k <= items@.len(),
                tuple_range(iv, 1, k as int) == Some((names.deep_view(), terms_of(vals@))),
            decreases items@.len() - k,
        {
            match &items[k] {
                SymExpr::List(pair, _) => {
                    proof {
                        lemma_exprs_of(pair@);
                    }
                    if pair.len() != 2 {
                        proof {
                            lemma_tuple_range_none(iv, 1, k + 1, iv.len() as int);
                        }
                        return Err(binding_error("tuple binding #", k - 1, &items[k], ") is not a 2-item list (in ", items));
                    }
                    match &pair[0] {
                        SymExpr::Atom(name, _) => {
                            proof {
                                assert(decreases_to!(*items => items@[k as int]));
                                assert(decreases_to!(items@[k as int] => *pair));
                                assert(decreases_to!(*pair => pair@[1]));
                            }
                            match SymOp::try_from_expr(&pair[1]) {
                                Ok(op) => {
                                    proof {
                                        lemma_terms_of_push(vals@, op);
                                    }
                                    let ghost old_names = names.deep_view();
                                    names.push(name.clone());
                                    assert(names.deep_view() =~= old_names.push(name@));
                                    vals.push(op);
                                },
                                Err(err) => {
                                    proof {
                                        lemma_tuple_range_none(iv, 1, k + 1, iv.len() as int);
                                    }
                                    return Err(err);
                                },
                            }
                        },
                        _ => {
                            proof {
                                lemma_tuple_range_none(iv, 1, k + 1, iv.len() as int);
                            }
                            return Err(binding_error("First item in tuple binding #", k - 1, &items[k], ") is not an atom (in ", items));
                        },
                    }
                },
                _ => {
                    proof {
                        lemma_tuple_range_none(iv, 1, k + 1, iv.len() as int);
                    }
                    return Err(binding_error("tuple binding #", k - 1, &items[k], ") is not a list (in ", items));
                },
            }
            k = k + 1;
        }
        Ok((names, vals))
    }

    fn decode_form_exec(first: &String, items: &Vec<SymExpr>) -> (r: Result<SymOp, Error>)
        requires
            items@.len() >= 2,
        ensures
            match r {
                Ok(op) => decode_form(first@, exprs_of(items@)) == Some(op@),
                Err(err) => decode_form(first@, exprs_of(items@)) is None && err is Program,
            },
            plain_form(first@) matches Some((k, ar)) ==> (count_cause(exprs_of(items@), 1, arity_bounds(ar).0, arity_bounds(ar).1) matches Some(c)
                ==> (r matches Err(err) && cause_of(err) == c)),
        decreases items, 2int,
    {
        let ghost iv = exprs_of(items@);
        proof {
            lemma_exprs_of(items@);
        }
        if is(first, "loaded-var") || is(first, "loaded-var-sym") || is(first, "loaded-var-const") || is(first, "loaded-var-type") {
            let n = match &items[1] {
                SymExpr::Field(n) => n,
                other => {
                    return Err(not_a_name(other));
                },
            };
            if items.len() < 3 {
                return Err(error_around("loaded-var variable value not given in ", &list_to_text(items), ""));
            }
            if is(first, "loaded-var-type") {
                return match type_text(&items[2]) {
                    Some(ts) => {
                        let sym = SymOp::Variable(Sym::new(n.name.clone(), ts.clone()));
                        Ok(SymOp::Node(Head::Var(OpKind::LoadedDataVariable, n.duplicate()), one(sym)))
                    },
                    None => {
                        let pre = concat("`(loaded-var-type ", name_to_text(n).as_str());
                        let pre = concat(pre.as_str(), " x)` where `x` is not a type signature (but is `");
                        Err(error_in(pre.as_str(), &items[2], "`) (in ", items, ")"))
                    },
                };
            }
            proof {
                assert(decreases_to!(*items => items@[2]));
            }
            let v = match SymOp::try_from_expr(&items[2]) {
                Ok(v) => v,
                Err(err) => {
                    return Err(err);
                },
            };
            if is(first, "loaded-var-const") && !matches!(v, SymOp::Constant(_)) {
                let pre = concat("`(loaded-var-const ", name_to_text(n).as_str());
                let pre = concat(pre.as_str(), " x)` where `x` is not a constant (but is `");
                return Err(error_in(pre.as_str(), &items[2], "`) (in ", items, ")"));
            }
            return Ok(SymOp::Node(Head::Var(OpKind::LoadedDataVariable, n.duplicate()), one(v)));
        }
        if is(first, "map-entry") || is(first, "map-entry-sym") || is(first, "map-entry-const") || is(first, "map-entry-type") {
            let n = match &items[1] {
                SymExpr::Field(n) => n,
                other => {
                    return Err(not_a_name(other));
                },
            };
            if items.len() < 3 {
                return Err(error_in("map `", &items[1], "` has no key symbolic expression (in ", items, ")"));
            }
            proof {
                assert(decreases_to!(*items => items@[2]));
            }
            let key = match SymOp::try_from_expr(&items[2]) {
                Ok(k) => k,
                Err(err) => {
                    return Err(err);
                },
            };
            if items.len() < 4 {
                if is(first, "map-entry") || is(first, "map-entry-sym") {
                    return Ok(SymOp::Node(Head::Var(OpKind::LoadedMapEntry, n.duplicate()), one(key)));
                }
                if is(first, "map-entry-const") {
                    return Err(error_in("map-entry-const `", &items[1], "` has no constant value (in ", items, ")"));
                }
                return Err(error_in("map-entry-type `", &items[1], "` has no symbol value (in ", items, ")"));
            }
            proof {
                assert(decreases_to!(*items => items@[3]));
            }
            let v = match SymOp::try_from_expr(&items[3]) {
                Ok(v) => v,
                Err(err) => {
                    return Err(err);
                },
            };
            if is(first, "map-entry-const") {
                if !matches!(v, SymOp::Constant(_)) {
                    return Err(error_in("map-entry-const `", &items[1], "` has no constant value (in ", items, ")"));
                }
            } else if is(first, "map-entry-type") {
                let ty = match &v {
                    SymOp::Variable(sym) => &sym.type_repr,
                    _ => {
                        return Err(error_in("map-entry-type `", &items[1], "` has no symbol value (in ", items, ")"));
                    },
                };
                if items.len() < 5 {
                    return Err(error_in("map-entry-type `", &items[1], "` has no type signature (in ", items, ")"));
                }
                match type_text(&items[4]) {
                    Some(ts) => {
                        if !(*ty == *ts) {
                            let m = concat("map-entry-type `", expr_to_text(&items[1]).as_str());
                            let m = concat(m.as_str(), "` has invalid type signature: expected `");
                            let m = concat(m.as_str(), ty.as_str());
                            let m = concat(m.as_str(), "`, got `");
                            let m = concat(m.as_str(), ts.as_str());
                            return Err(Error::new_program_error(concat(m.as_str(), "`")));
                        }
                    },
                    None => {
                        let m = concat("map-entry-type `", expr_to_text(&items[1]).as_str());
                        let m = concat(m.as_str(), "` has invalid type signature `");
                        let m = concat(m.as_str(), expr_to_text(&items[4]).as_str());
                        return Err(Error::new_program_error(concat(m.as_str(), "`")));
                    },
                }
            }
            return Ok(SymOp::Node(Head::Var(OpKind::LoadedMapEntry, n.duplicate()), two(key, v)));
        }
        if is(first, "tuple") {
            return match SymOp::decode_tuple(items) {
                Ok((names, vals)) => Ok(SymOp::Node(Head::Tuple(names), vals)),
                Err(err) => Err(err),
            };
        }
        if is(first, "from-consensus-buff?") {
            if items.len() < 3 {
                return Err(error_around("`from-consensus-buff?` is missing a buffer (in ", &list_to_text(items), ")"));
            }
            return Err(error_in("Failed to parse type signature `", &items[1], "` (in ", items, ")"));
        }
        match labeled_op_exec(first) {
            Some(k) => {
                let label = match &items[1] {
                    SymExpr::Atom(l, _) => l,
                    other => {
                        let pre = if k == OpKind::TupleGet { "tuple field name `" } else { "NFT name `" };
                        return Err(error_in(pre, other, "` is not an atom (in ", items, ")"));
                    },
                };
                match count_error(items, 2, 1, Some(1)) {
                    Some(err) => {
                        proof {
                            lemma_decode_range_len(iv, 2, iv.len() as int);
                        }
                        return Err(err);
                    },
                    None => {},
                }
                let ops = match SymOp::decode_operands(items, 2) {
                    Ok(ops) => ops,
                    Err(err) => {
                        return Err(err);
                    },
                };
                proof {
                    lemma_terms_of(ops@);
                    lemma_decode_range_len(iv, 2, iv.len() as int);
                }
                return Ok(SymOp::Node(Head::Labeled(k, label.clone()), ops));
            },
            None => {},
        }
        match named_op_exec(first) {
            Some((k, ar)) => {
                let n = match &items[1] {
                    SymExpr::Field(n) => n,
                    other => {
                        return Err(not_a_name(other));
                    },
                };
                return match ar {
                    None => {
                        let ops: Vec<SymOp> = Vec::new();
                        proof {
                            lemma_terms_of_small(ops@);
                        }
                        Ok(SymOp::Node(Head::Var(k, n.duplicate()), ops))
                    },
                    Some(m) => {
                        match count_error(items, 2, m, Some(m)) {
                            Some(err) => {
                                proof {
                                    lemma_decode_range_len(iv, 2, iv.len() as int);
                                }
                                return Err(err);
                            },
                            None => {},
                        }
                        let ops = match SymOp::decode_operands(items, 2) {
                            Ok(ops) => ops,
                            Err(err) => {
                                return Err(err);
                            },
                        };
                        proof {
                            lemma_terms_of(ops@);
                            lemma_decode_range_len(iv, 2, iv.len() as int);
                        }
                        Ok(SymOp::Node(Head::Var(k, n.duplicate()), ops))
                    },
                };
            },
            None => {},
        }
        match plain_op_exec(first) {
            Some((k, ar)) => {
                let (min, max) = match ar {
                    Arity::Exactly(m) => (m, Some(m)),
                    Arity::AtLeast(m) => (m, None),
                    Arity::Between(lo, _) => (lo, None),
                };
                match count_error(items, 1, min, max) {
                    Some(err) => {
                        proof {
                            lemma_decode_range_len(iv, 1, iv.len() as int);
                        }
                        return Err(err);
                    },
                    None => {},
                }
                match ar {
                    Arity::Between(lo, hi) => {
                        if items.len() - 1 > hi {
                            proof {
                                lemma_decode_range_len(iv, 1, iv.len() as int);
                            }
                            let m = concat(first.as_str(), " takes ");
                            let m = concat(m.as_str(), decimal_text(lo as u128).as_str());
                            let m = concat(m.as_str(), " or ");
                            let m = concat(m.as_str(), decimal_text(hi as u128).as_str());
                            let m = concat(m.as_str(), " args; got ");
                            let m = concat(m.as_str(), decimal_text((items.len() - 1) as u128).as_str());
                            return Err(Error::new_program_error(m));
                        }
                    },
                    _ => {},
                }
                let ops = match SymOp::decode_operands(items, 1) {
                    Ok(ops) => ops,
                    Err(err) => {
                        return Err(err);
                    },
                };
                proof {
                    lemma_terms_of(ops@);
                    lemma_decode_range_len(iv, 1, iv.len() as int);
                }
                Ok(SymOp::Node(Head::Op(k), ops))
            },
            None => Err(error_around("Bug(\"Unrecognized Clarity function `", first, "`\")")),
        }
    }
}

} // verus!
