//! The data that the table is made from: transactions, what was recovered
//! from their signatures, and the verifier's challenges; with the sums and
//! fingerprints that the rows carry.

use crate::expr::lit;
use crate::expr::Expr;
use crate::field::fadd;
use crate::field::fmul;
use crate::field::Fe;
use vstd::prelude::*;

verus! {

/// A 256-bit integer as 32 big-endian bytes.
pub type Word = [u8; 32];

/// An account address as 20 big-endian bytes.
pub type Address = [u8; 20];

/// What can stop the table from being built.
#[derive(Clone, Copy, Debug, PartialEq, Eq, Structural)]
pub enum Error {
    /// There are more calldata bytes than the circuit has room for.
    TooMuchCalldata,
    /// The signer of a transaction could not be recovered.
    Synthesis,
    /// A message was taken from the queue before its turn, or a count does
    /// not fit the machine's integers.
    QueueIndex,
    /// A constraint has a higher degree than the backend supports.
    DegreeExceeded,
}

/// The type of a transaction.
#[derive(Clone, Copy, Debug, PartialEq, Eq, Structural)]
pub enum TxType {
    /// Bound to a chain id.
    Eip155,
    /// Without a chain id.
    PreEip155,
    /// With a fee market.
    Eip1559,
    /// With an access list.
    Eip2930,
    /// A message that came in through the queue of the first layer.
    L1Msg,
}

impl TxType {
    /// The number of the type.
    pub open spec fn spec_index(self) -> nat {
        match self {
            TxType::Eip155 => 0,
            TxType::PreEip155 => 1,
            TxType::Eip1559 => 2,
            TxType::Eip2930 => 3,
            TxType::L1Msg => 4,
        }
    }

    /// The number of the type.
    pub fn index(&self) -> (r: u64)
        ensures
            r == self.spec_index(),
    {
        match self {
            TxType::Eip155 => 0,
            TxType::PreEip155 => 1,
            TxType::Eip1559 => 2,
            TxType::Eip2930 => 3,
            TxType::L1Msg => 4,
        }
    }

    /// The type as a constant expression.
    pub fn expr(&self) -> (r: Expr)
        ensures
            r == lit(self.spec_index() as int),
    {
        Expr::from_u64(self.index())
    }

    /// Whether the transaction is a message from the queue.
    pub fn is_l1_msg(&self) -> (r: bool)
        ensures
            r == (*self == TxType::L1Msg),
    {
        match self {
            TxType::L1Msg => true,
            _ => false,
        }
    }

    /// Whether the transaction is bound to a chain id.
    pub fn is_eip155_tx(&self) -> (r: bool)
        ensures
            r == (*self == TxType::Eip155),
    {
        match self {
            TxType::Eip155 => true,
            _ => false,
        }
    }

    /// The numbers of all types, in rising order.
    pub fn all_indices() -> (r: Vec<u64>)
        ensures
            r@ == crate::gadgets::first_indices(5),
    {
        let mut v: Vec<u64> = Vec::new();
        v.push(0);
        v.push(1);
        v.push(2);
        v.push(3);
        v.push(4);
        proof {
            assert(v@ =~= crate::gadgets::first_indices(5));
        }
        v
    }
}

impl Default for TxType {
    fn default() -> (r: TxType)
        ensures
            r == TxType::Eip155,
    {
        TxType::Eip155
    }
}

/// A field of an encoded transaction.
#[derive(Clone, Copy, Debug, PartialEq, Eq, Structural)]
pub enum Tag {
    BeginList,
    EndList,
    BeginVector,
    EndVector,
    TxType,
    Nonce,
    GasPrice,
    Gas,
    To,
    Value,
    Data,
    ChainId,
    Zero1,
    Zero2,
    SigV,
    SigR,
    SigS,
    Sender,
}

impl Tag {
    /// The number of the field.
    pub open spec fn spec_index(self) -> nat {
        match self {
            Tag::BeginList => 4,
            Tag::EndList => 5,
            Tag::BeginVector => 6,
            Tag::EndVector => 7,
            Tag::TxType => 8,
            Tag::Nonce => 9,
            Tag::GasPrice => 10,
            Tag::Gas => 11,
            Tag::To => 12,
            Tag::Value => 13,
            Tag::Data => 14,
            Tag::ChainId => 15,
            Tag::Zero1 => 16,
            Tag::Zero2 => 17,
            Tag::SigV => 18,
            Tag::SigR => 19,
            Tag::SigS => 20,
            Tag::Sender => 21,
        }
    }

    /// The number of the field.
    pub fn index(&self) -> (r: u64)
        ensures
            r == self.spec_index(),
    {
        match self {
            Tag::BeginList => 4,
            Tag::EndList => 5,
            Tag::BeginVector => 6,
            Tag::EndVector => 7,
            Tag::TxType => 8,
            Tag::Nonce => 9,
            Tag::GasPrice => 10,
            Tag::Gas => 11,
            Tag::To => 12,
            Tag::Value => 13,
            Tag::Data => 14,
            Tag::ChainId => 15,
            Tag::Zero1 => 16,
            Tag::Zero2 => 17,
            Tag::SigV => 18,
            Tag::SigR => 19,
            Tag::SigS => 20,
            Tag::Sender => 21,
        }
    }
}

/// What a row looks up in the table of decoded fields: the length of the
/// encoding, its fingerprint, its gas cost, nothing, or a field.
#[derive(Clone, Copy, Debug, PartialEq, Eq, Structural)]
pub enum RlpTag {
    Len,
    RLC,
    GasCost,
    Null,
    Tag(Tag),
}

impl RlpTag {
    /// The number of the lookup tag.
    pub open spec fn spec_index(self) -> nat {
        match self {
            RlpTag::Len => 0,
            RlpTag::RLC => 1,
            RlpTag::GasCost => 2,
            RlpTag::Null => 3,
            RlpTag::Tag(t) => t.spec_index(),
        }
    }

    /// The number of the lookup tag.
    pub fn index(&self) -> (r: u64)
        ensures
            r == self.spec_index(),
    {
        match self {
            RlpTag::Len => 0,
            RlpTag::RLC => 1,
            RlpTag::GasCost => 2,
            RlpTag::Null => 3,
            RlpTag::Tag(t) => t.index(),
        }
    }

    /// The lookup tag as a constant expression.
    pub fn expr(&self) -> (r: Expr)
        ensures
            r == lit(self.spec_index() as int),
    {
        Expr::from_u64(self.index())
    }
}

/// The kind of an encoding of a transaction.
#[derive(Clone, Copy, Debug, PartialEq, Eq, Structural)]
pub enum Format {
    TxSignEip155,
    TxHashEip155,
    TxSignPreEip155,
    TxHashPreEip155,
    L1MsgHash,
}

impl Format {
    /// The number of the kind.
    pub open spec fn spec_index(self) -> nat {
        match self {
            Format::TxSignEip155 => 0,
            Format::TxHashEip155 => 1,
            Format::TxSignPreEip155 => 2,
            Format::TxHashPreEip155 => 3,
            Format::L1MsgHash => 4,
        }
    }

    /// The number of the kind.
    pub fn index(&self) -> (r: u64)
        ensures
            r == self.spec_index(),
    {
        match self {
            Format::TxSignEip155 => 0,
            Format::TxHashEip155 => 1,
            Format::TxSignPreEip155 => 2,
            Format::TxHashPreEip155 => 3,
            Format::L1MsgHash => 4,
        }
    }

    /// The kind as a constant expression.
    pub fn expr(&self) -> (r: Expr)
        ensures
            r == lit(self.spec_index() as int),
    {
        Expr::from_u64(self.index())
    }
}

/// A transaction. For a message from the queue, `nonce` is its index in the
/// queue.
pub struct Transaction {
    pub id: usize,
    pub block_number: u64,
    pub tx_type: TxType,
    pub nonce: u64,
    pub gas_price: Word,
    pub gas: u64,
    pub caller_address: Address,
    pub callee_address: Option<Address>,
    pub is_create: bool,
    pub value: Word,
    pub call_data: Vec<u8>,
    pub tx_data_gas_cost: u64,
    pub chain_id: u64,
    pub rlp_unsigned: Vec<u8>,
    pub rlp_signed: Vec<u8>,
    pub v: u64,
    pub r: Word,
    pub s: Word,
    pub hash: Word,
}

/// What the recovery of a signature gave: the message that was signed, the
/// public key in the form that is hashed, and the address of the signer.
pub struct SignData {
    pub msg: Vec<u8>,
    pub pk: Vec<u8>,
    pub address: Address,
}

/// The verifier's challenges: the bases of the fingerprints of words and of
/// byte strings.
#[derive(Clone, Copy, Debug)]
pub struct Challenges {
    pub evm_word: Fe,
    pub keccak_input: Fe,
}

/// The challenges as expressions.
pub struct ChallengeExprs {
    pub evm_word: Expr,
    pub keccak_input: Expr,
}

/// The fingerprint of a byte string: each byte added to the product of the
/// base and what precedes it.
pub open spec fn horner(bytes: Seq<u8>, base: int) -> int
    decreases bytes.len(),
{
    if bytes.len() == 0 {
        0
    } else {
        fadd(fmul(horner(bytes.drop_last(), base), base), bytes.last() as int)
    }
}

/// The gas that a byte of calldata costs.
pub open spec fn byte_gas_cost(b: u8) -> nat {
    if b == 0 {
        4
    } else {
        16
    }
}

/// The gas that a byte string costs as calldata.
pub open spec fn gas_cost(bytes: Seq<u8>) -> nat
    decreases bytes.len(),
{
    if bytes.len() == 0 {
        0
    } else {
        gas_cost(bytes.drop_last()) + byte_gas_cost(bytes.last())
    }
}

/// The bytes of a big-endian integer that follow its leading zeros.
pub open spec fn significant(bytes: Seq<u8>) -> nat
    decreases bytes.len(),
{
    if bytes.len() == 0 {
        0
    } else if bytes[0] != 0 {
        bytes.len()
    } else {
        significant(bytes.drop_first())
    }
}

/// The length of the encoded value of a big-endian integer: the number of
/// its significant bytes, and one for zero, which is encoded as the empty
/// string's one byte.
pub open spec fn spec_tag_length(bytes: Seq<u8>) -> nat {
    if significant(bytes) == 0 {
        1
    } else {
        significant(bytes)
    }
}

/// The eight big-endian bytes of a 64-bit integer.
pub open spec fn be_bytes(x: u64) -> Seq<u8> {
    seq![
        (x / 0x100_0000_0000_0000) as u8,
        ((x / 0x1_0000_0000_0000) % 0x100) as u8,
        ((x / 0x100_0000_0000) % 0x100) as u8,
        ((x / 0x1_0000_0000) % 0x100) as u8,
        ((x / 0x100_0000) % 0x100) as u8,
        ((x / 0x1_0000) % 0x100) as u8,
        ((x / 0x100) % 0x100) as u8,
        (x % 0x100) as u8,
    ]
}

/// The length of the length field at the head of an encoded transaction: one
/// for a short list, and one more than the first byte exceeds `0xf7` for a
/// long one.
pub open spec fn spec_rlp_len_tag_length(bytes: Seq<u8>) -> nat {
    if bytes.len() == 0 {
        0
    } else if bytes[0] < 0xf8 {
        1
    } else {
        (bytes[0] - 0xf7 + 1) as nat
    }
}

/// Calls `num::Zero::is_zero` on a byte, which tells whether it is equal to
/// the additive identity.
#[verifier::external_body]
fn byte_is_zero(b: &u8) -> (r: bool)
    ensures
        r == (*b == 0),
{
    num::Zero::is_zero(b)
}

/// Calls `num::Zero::is_zero` on a 64-bit integer, which tells whether it is
/// equal to the additive identity.
#[verifier::external_body]
fn u64_is_zero(x: &u64) -> (r: bool)
    ensures
        r == (*x == 0),
{
    num::Zero::is_zero(x)
}

/// Whether a 64-bit integer is zero.
pub fn is_zero(x: u64) -> (r: bool)
    ensures
        r == (x == 0),
{
    u64_is_zero(&x)
}

/// The gas that a byte of calldata costs: 4 for a zero byte, 16 for another.
pub fn calldata_byte_gas_cost(b: u8) -> (r: u64)
    ensures
        r == byte_gas_cost(b),
{
    if byte_is_zero(&b) {
        4
    } else {
        16
    }
}

/// The gas cost of a byte string grows by at most 16 with each byte.
pub proof fn lemma_gas_cost_bound(bytes: Seq<u8>)
    ensures
        gas_cost(bytes) <= 16 * bytes.len(),
    decreases bytes.len(),
{
    if bytes.len() > 0 {
        lemma_gas_cost_bound(bytes.drop_last());
    }
}

/// The gas cost of a byte string as calldata, or `None` where it does not
/// fit 64 bits.
pub fn calldata_gas_cost(bytes: &Vec<u8>) -> (r: Option<u64>)
    ensures
        r is Some <==> gas_cost(bytes@) <= u64::MAX,
        r matches Some(c) ==> c == gas_cost(bytes@),
{
    let mut acc: u64 = 0;
    let mut i: usize = 0;
    while i < bytes.len()
        invariant
            i <= bytes.len(),
            acc == gas_cost(bytes@.take(i as int)),
        decreases bytes.len() - i,
    {
        proof {
            assert(bytes@.take(i + 1).drop_last() == bytes@.take(i as int));
        }
        match acc.checked_add(calldata_byte_gas_cost(bytes[i])) {
            Some(next) => {
                acc = next;
            },
            None => {
                proof {
                    lemma_gas_cost_monotone(bytes@, (i + 1) as nat);
                }
                return None;
            },
        }
        i = i + 1;
    }
    proof {
        assert(bytes@.take(i as int) == bytes@);
    }
    Some(acc)
}

/// The gas cost of a prefix is at most that of the whole.
pub proof fn lemma_gas_cost_monotone(bytes: Seq<u8>, n: nat)
    requires
        n <= bytes.len(),
    ensures
        gas_cost(bytes.take(n as int)) <= gas_cost(bytes),
    decreases bytes.len(),
{
    if n == bytes.len() {
        assert(bytes.take(n as int) == bytes);
    } else {
        lemma_gas_cost_monotone(bytes.drop_last(), n);
        assert(bytes.drop_last().take(n as int) == bytes.take(n as int));
    }
}

/// The fingerprint of a byte string with the given base.
pub fn rlc_be_bytes(bytes: &[u8], base: &Fe) -> (r: Fe)
    ensures
        r@ == horner(bytes@, base@),
{
    let mut acc = Fe::zero();
    let mut i: usize = 0;
    while i < bytes.len()
        invariant
            i <= bytes.len(),
            acc@ == horner(bytes@.take(i as int), base@),
        decreases bytes.len() - i,
    {
        proof {
            assert(bytes@.take(i + 1).drop_last() == bytes@.take(i as int));
        }
        acc = acc.mul(base).add(&Fe::from_u64(bytes[i] as u64));
        i = i + 1;
    }
    proof {
        assert(bytes@.take(i as int) == bytes@);
    }
    acc
}

/// The field element that a big-endian integer stands for.
pub fn to_scalar(bytes: &[u8]) -> (r: Fe)
    ensures
        r@ == horner(bytes@, 256),
{
    let base = Fe::from_u64(256);
    rlc_be_bytes(bytes, &base)
}

/// The number of bytes of a big-endian integer that follow its leading
/// zeros.
pub fn significant_bytes(bytes: &[u8]) -> (r: usize)
    ensures
        r == significant(bytes@),
{
    let mut i: usize = 0;
    proof {
        assert(bytes@.skip(0) == bytes@);
    }
    while i < bytes.len() && bytes[i] == 0
        invariant
            i <= bytes.len(),
            significant(bytes@) == significant(bytes@.skip(i as int)),
        decreases bytes.len() - i,
    {
        proof {
            assert(bytes@.skip(i as int).drop_first() == bytes@.skip(i + 1));
        }
        i = i + 1;
    }
    proof {
        if i < bytes.len() {
            assert(bytes@.skip(i as int)[0] == bytes@[i as int]);
        }
    }
    bytes.len() - i
}

/// The length of the encoded value of a big-endian integer.
pub fn tag_length(bytes: &[u8]) -> (r: usize)
    ensures
        r == spec_tag_length(bytes@),
{
    let n = significant_bytes(bytes);
    if n == 0 {
        1
    } else {
        n
    }
}

/// The eight big-endian bytes of a 64-bit integer.
pub fn u64_to_be_bytes(x: u64) -> (r: [u8; 8])
    ensures
        r@ == be_bytes(x),
{
    let r: [u8; 8] = [
        (x / 0x100_0000_0000_0000) as u8,
        ((x / 0x1_0000_0000_0000) % 0x100) as u8,
        ((x / 0x100_0000_0000) % 0x100) as u8,
        ((x / 0x1_0000_0000) % 0x100) as u8,
        ((x / 0x100_0000) % 0x100) as u8,
        ((x / 0x1_0000) % 0x100) as u8,
        ((x / 0x100) % 0x100) as u8,
        (x % 0x100) as u8,
    ];
    proof {
        assert(r@ =~= be_bytes(x));
    }
    r
}

/// The length of the length field at the head of an encoded transaction.
pub fn get_rlp_len_tag_length(bytes: &Vec<u8>) -> (r: u32)
    ensures
        r == spec_rlp_len_tag_length(bytes@),
{
    if bytes.len() == 0 {
        0
    } else if bytes[0] < 0xf8 {
        1
    } else {
        (bytes[0] - 0xf7) as u32 + 1
    }
}

/// Whether every byte of a word is zero.
pub fn word_is_zero(w: &Word) -> (r: bool)
    ensures
        r == (significant(w@) == 0),
{
    significant_bytes(w.as_slice()) == 0
}

/// A copy of a byte string.
pub fn copy_bytes(bytes: &Vec<u8>) -> (r: Vec<u8>)
    ensures
        r@ == bytes@,
{
    let mut out: Vec<u8> = Vec::new();
    let mut i: usize = 0;
    while i < bytes.len()
        invariant
            i <= bytes@.len(),
            out@ == bytes@.take(i as int),
        decreases bytes@.len() - i,
    {
        out.push(bytes[i]);
        i = i + 1;
        proof {
            assert(out@ =~= bytes@.take(i as int));
        }
    }
    proof {
        assert(bytes@.take(i as int) == bytes@);
    }
    out
}

/// The sizes of the circuits.
#[derive(Clone, Copy, Debug, PartialEq, Eq, Structural)]
pub struct CircuitsParams {
    /// The number of transactions that the table has room for.
    pub max_txs: usize,
    /// The number of calldata bytes that the table has room for.
    pub max_calldata: usize,
}

/// A batch of transactions as the circuits around this one hand it over.
pub struct Block {
    pub txs: Vec<Transaction>,
    pub chain_id: u64,
    /// The number of messages that were taken from the queue before the
    /// batch.
    pub start_l1_queue_index: u64,
    pub circuits_params: CircuitsParams,
}

impl Block {
    /// Every transaction of the block is bound to the chain of the block.
    pub open spec fn spec_chain_ids_agree(&self) -> bool {
        forall|i: int| 0 <= i < self.txs@.len() ==> (#[trigger] self.txs@[i]).chain_id == self.chain_id
    }

    /// Whether every transaction of the block is bound to the chain of the
    /// block.
    pub fn chain_ids_agree(&self) -> (r: bool)
        ensures
            r == self.spec_chain_ids_agree(),
    {
        let mut i: usize = 0;
        while i < self.txs.len()
            invariant
                i <= self.txs@.len(),
                forall|k: int| 0 <= k < i ==> (#[trigger] self.txs@[k]).chain_id == self.chain_id,
            decreases self.txs@.len() - i,
        {
            if self.txs[i].chain_id != self.chain_id {
                return false;
            }
            i = i + 1;
        }
        true
    }
}

/// The transactions agree in every field.
pub open spec fn same_transaction(a: Transaction, b: Transaction) -> bool {
    &&& a.id == b.id
    &&& a.block_number == b.block_number
    &&& a.tx_type == b.tx_type
    &&& a.nonce == b.nonce
    &&& a.gas_price@ == b.gas_price@
    &&& a.gas == b.gas
    &&& a.caller_address@ == b.caller_address@
    &&& a.callee_address is Some == b.callee_address is Some
    &&& a.callee_address is Some ==> a.callee_address->0@ == b.callee_address->0@
    &&& a.is_create == b.is_create
    &&& a.value@ == b.value@
    &&& a.call_data@ == b.call_data@
    &&& a.tx_data_gas_cost == b.tx_data_gas_cost
    &&& a.chain_id == b.chain_id
    &&& a.rlp_unsigned@ == b.rlp_unsigned@
    &&& a.rlp_signed@ == b.rlp_signed@
    &&& a.v == b.v
    &&& a.r@ == b.r@
    &&& a.s@ == b.s@
    &&& a.hash@ == b.hash@
}

/// The two results of a recovery agree in every field.
pub open spec fn same_sign_data(a: SignData, b: SignData) -> bool {
    a.msg@ == b.msg@ && a.pk@ == b.pk@ && a.address@ == b.address@
}

/// The padding that fills the slot `id` of a circuit for the chain
/// `chain_id`.
pub open spec fn is_dummy(tx: Transaction, chain_id: u64, id: int) -> bool {
    &&& tx.id == id
    &&& tx.block_number == 0
    &&& tx.tx_type == TxType::Eip155
    &&& tx.nonce == 0
    &&& tx.gas == 0
    &&& tx.caller_address@ == Seq::new(20, |i: int| 0u8)
    &&& tx.callee_address matches Some(a) && a@ == Seq::new(20, |i: int| 0u8)
    &&& !tx.is_create
    &&& tx.call_data@.len() == 0
    &&& tx.tx_data_gas_cost == 0
    &&& tx.chain_id == chain_id
    &&& tx.rlp_unsigned@.len() == 0
    &&& tx.rlp_signed@.len() == 0
    &&& tx.v as int == (2 * chain_id + 35) % 0x1_0000_0000_0000_0000
    &&& tx.gas_price@ == Seq::new(32, |i: int| 0u8)
    &&& tx.value@ == Seq::new(32, |i: int| 0u8)
    &&& tx.r@ == Seq::new(32, |i: int| 0u8)
    &&& tx.s@ == Seq::new(32, |i: int| 0u8)
    &&& tx.hash@ == Seq::new(32, |i: int| 0u8)
}

impl Transaction {
    /// A copy of the transaction.
    pub fn dup(&self) -> (r: Transaction)
        ensures
            same_transaction(r, *self),
    {
        Transaction {
            id: self.id,
            block_number: self.block_number,
            tx_type: self.tx_type,
            nonce: self.nonce,
            gas_price: self.gas_price,
            gas: self.gas,
            caller_address: self.caller_address,
            callee_address: self.callee_address,
            is_create: self.is_create,
            value: self.value,
            call_data: copy_bytes(&self.call_data),
            tx_data_gas_cost: self.tx_data_gas_cost,
            chain_id: self.chain_id,
            rlp_unsigned: copy_bytes(&self.rlp_unsigned),
            rlp_signed: copy_bytes(&self.rlp_signed),
            v: self.v,
            r: self.r,
            s: self.s,
            hash: self.hash,
        }
    }

    /// The transaction that fills an empty slot of the circuit: it has no
    /// sender, no calldata and nothing to pay, is bound to `chain_id`, and
    /// carries the recovery value that the chain id calls for.
    pub fn dummy(chain_id: u64) -> (r: Transaction)
        ensures
            is_dummy(r, chain_id, 0),
            r.id == 0,
            r.block_number == 0,
            r.tx_type == TxType::Eip155,
            r.nonce == 0,
            r.gas == 0,
            r.caller_address@ == Seq::new(20, |i: int| 0u8),
            r.callee_address matches Some(a) && a@ == Seq::new(20, |i: int| 0u8),
            !r.is_create,
            r.call_data@.len() == 0,
            r.tx_data_gas_cost == 0,
            r.chain_id == chain_id,
            r.rlp_unsigned@.len() == 0,
            r.rlp_signed@.len() == 0,
            r.v as int == (2 * chain_id + 35) % 0x1_0000_0000_0000_0000,
            r.gas_price@ == Seq::new(32, |i: int| 0u8),
            r.value@ == Seq::new(32, |i: int| 0u8),
            r.r@ == Seq::new(32, |i: int| 0u8),
            r.s@ == Seq::new(32, |i: int| 0u8),
            r.hash@ == Seq::new(32, |i: int| 0u8),
    {
        let zero_word: Word = [0u8; 32];
        let zero_address: Address = [0u8; 20];
        let v: u64 = chain_id.wrapping_mul(2).wrapping_add(35);
        proof {
            assert(zero_word@ =~= Seq::new(32, |i: int| 0u8));
            assert(zero_address@ =~= Seq::new(20, |i: int| 0u8));
        }
        Transaction {
            id: 0,
            block_number: 0,
            tx_type: TxType::Eip155,
            nonce: 0,
            gas_price: zero_word,
            gas: 0,
            caller_address: zero_address,
            callee_address: Some(zero_address),
            is_create: false,
            value: zero_word,
            call_data: Vec::new(),
            tx_data_gas_cost: 0,
            chain_id,
            rlp_unsigned: Vec::new(),
            rlp_signed: Vec::new(),
            v,
            r: zero_word,
            s: zero_word,
            hash: zero_word,
        }
    }
}

impl Default for SignData {
    /// The data that stands in where there is no signature: an empty message,
    /// an empty key and the zero address.
    fn default() -> (r: SignData)
        ensures
            r.msg@.len() == 0,
            r.pk@.len() == 0,
            r.address@ == Seq::new(20, |i: int| 0u8),
    {
        let zero_address: Address = [0u8; 20];
        proof {
            assert(zero_address@ =~= Seq::new(20, |i: int| 0u8));
        }
        SignData { msg: Vec::new(), pk: Vec::new(), address: zero_address }
    }
}

impl SignData {
    /// A copy of the result of a recovery.
    pub fn dup(&self) -> (r: SignData)
        ensures
            same_sign_data(r, *self),
    {
        SignData { msg: copy_bytes(&self.msg), pk: copy_bytes(&self.pk), address: self.address }
    }

    /// The address of the signer.
    pub fn get_addr(&self) -> (r: Address)
        ensures
            r == self.address,
    {
        self.address
    }
}

impl Challenges {
    /// The base of the fingerprints of words.
    pub fn evm_word(&self) -> (r: Fe)
        ensures
            r == self.evm_word,
    {
        self.evm_word
    }

    /// The base of the fingerprints of byte strings.
    pub fn keccak_input(&self) -> (r: Fe)
        ensures
            r == self.keccak_input,
    {
        self.keccak_input
    }

    /// The challenges in the order that expressions number them.
    pub open spec fn spec_values(self) -> Seq<int> {
        seq![self.evm_word@, self.keccak_input@]
    }

    /// The challenges in the order that expressions number them.
    pub fn values(&self) -> (r: Vec<Fe>)
        ensures
            crate::expr::values_view(r@) == self.spec_values(),
    {
        let mut v: Vec<Fe> = Vec::new();
        v.push(self.evm_word);
        v.push(self.keccak_input);
        proof {
            assert(crate::expr::values_view(v@) =~= self.spec_values());
        }
        v
    }
}

impl ChallengeExprs {
    /// The challenges as the expressions that stand for them.
    pub fn construct() -> (r: ChallengeExprs)
        ensures
            r.evm_word == Expr::Challenge(0),
            r.keccak_input == Expr::Challenge(1),
    {
        ChallengeExprs { evm_word: Expr::Challenge(0), keccak_input: Expr::Challenge(1) }
    }
}

} // verus!
