//! What the rows of a batch of transactions stand for.
//!
//! The header of a transaction has one row for each of its fields, in a fixed
//! order; the calldata of a transaction has one row for each byte. Beside its
//! own value a row carries what is computed once for its transaction: the
//! counts of its block and the accounting of the queue.

use crate::field::Fe;
use crate::table::TxFieldTag;
use crate::tx_circuit::accounting::calldata_before;
use crate::tx_circuit::accounting::count_in_block;
use crate::tx_circuit::accounting::count_up_to_block;
use crate::tx_circuit::accounting::next_with_calldata;
use crate::tx_circuit::accounting::num_all_txs_acc;
use crate::tx_circuit::accounting::popped_before;
use crate::tx_circuit::assign::bool_value;
use crate::tx_circuit::assign::RowData;
use crate::tx_circuit::assign::RowView;
use crate::witness::be_bytes;
use crate::witness::gas_cost;
use crate::witness::get_rlp_len_tag_length;
use crate::witness::horner;
use crate::witness::rlc_be_bytes;
use crate::witness::significant;
use crate::witness::spec_rlp_len_tag_length;
use crate::witness::spec_tag_length;
use crate::witness::tag_length;
use crate::witness::to_scalar;
use crate::witness::u64_to_be_bytes;
use crate::witness::word_is_zero;
use crate::witness::Challenges;
use crate::witness::RlpTag;
use crate::witness::SignData;
use crate::witness::Tag;
use crate::witness::Transaction;
use crate::witness::TxType;
use vstd::prelude::*;

verus! {

/// The kind of the row at the place `j` of a header, the first place being
/// zero.
pub open spec fn header_tag(j: nat) -> TxFieldTag {
    if j == 0 {
        TxFieldTag::Nonce
    } else if j == 1 {
        TxFieldTag::GasPrice
    } else if j == 2 {
        TxFieldTag::Gas
    } else if j == 3 {
        TxFieldTag::CallerAddress
    } else if j == 4 {
        TxFieldTag::CalleeAddress
    } else if j == 5 {
        TxFieldTag::IsCreate
    } else if j == 6 {
        TxFieldTag::Value
    } else if j == 7 {
        TxFieldTag::CallDataRLC
    } else if j == 8 {
        TxFieldTag::CallDataLength
    } else if j == 9 {
        TxFieldTag::CallDataGasCost
    } else if j == 10 {
        TxFieldTag::TxDataGasCost
    } else if j == 11 {
        TxFieldTag::ChainID
    } else if j == 12 {
        TxFieldTag::SigV
    } else if j == 13 {
        TxFieldTag::SigR
    } else if j == 14 {
        TxFieldTag::SigS
    } else if j == 15 {
        TxFieldTag::TxSignLength
    } else if j == 16 {
        TxFieldTag::TxSignRLC
    } else if j == 17 {
        TxFieldTag::TxSignHash
    } else if j == 18 {
        TxFieldTag::TxHashLength
    } else if j == 19 {
        TxFieldTag::TxHashRLC
    } else if j == 20 {
        TxFieldTag::TxHash
    } else if j == 21 {
        TxFieldTag::TxType
    } else {
        TxFieldTag::BlockNumber
    }
}

/// The kind of the row at the place `j` of a header.
pub fn tag_at(j: usize) -> (r: TxFieldTag)
    ensures
        r == header_tag(j as nat),
{
    if j == 0 {
        TxFieldTag::Nonce
    } else if j == 1 {
        TxFieldTag::GasPrice
    } else if j == 2 {
        TxFieldTag::Gas
    } else if j == 3 {
        TxFieldTag::CallerAddress
    } else if j == 4 {
        TxFieldTag::CalleeAddress
    } else if j == 5 {
        TxFieldTag::IsCreate
    } else if j == 6 {
        TxFieldTag::Value
    } else if j == 7 {
        TxFieldTag::CallDataRLC
    } else if j == 8 {
        TxFieldTag::CallDataLength
    } else if j == 9 {
        TxFieldTag::CallDataGasCost
    } else if j == 10 {
        TxFieldTag::TxDataGasCost
    } else if j == 11 {
        TxFieldTag::ChainID
    } else if j == 12 {
        TxFieldTag::SigV
    } else if j == 13 {
        TxFieldTag::SigR
    } else if j == 14 {
        TxFieldTag::SigS
    } else if j == 15 {
        TxFieldTag::TxSignLength
    } else if j == 16 {
        TxFieldTag::TxSignRLC
    } else if j == 17 {
        TxFieldTag::TxSignHash
    } else if j == 18 {
        TxFieldTag::TxHashLength
    } else if j == 19 {
        TxFieldTag::TxHashRLC
    } else if j == 20 {
        TxFieldTag::TxHash
    } else if j == 21 {
        TxFieldTag::TxType
    } else {
        TxFieldTag::BlockNumber
    }
}

/// A field of a transaction as a row holds it, over the integers.
pub struct FieldView {
    pub value: int,
    pub be_bytes_rlc: int,
    pub be_bytes_length: int,
    pub rlp_tag: RlpTag,
    pub is_none: bool,
}

/// A field of a transaction as a row holds it.
#[derive(Clone, Copy, Debug)]
pub struct Field {
    pub value: Fe,
    pub be_bytes_rlc: Fe,
    pub be_bytes_length: u64,
    pub rlp_tag: RlpTag,
    pub is_none: bool,
}

impl View for Field {
    type V = FieldView;

    open spec fn view(&self) -> FieldView {
        FieldView {
            value: self.value@,
            be_bytes_rlc: self.be_bytes_rlc@,
            be_bytes_length: self.be_bytes_length as int,
            rlp_tag: self.rlp_tag,
            is_none: self.is_none,
        }
    }
}

/// A field that is looked up in no encoding.
pub open spec fn plain_field(value: int) -> FieldView {
    FieldView { value, be_bytes_rlc: 0, be_bytes_length: 0, rlp_tag: RlpTag::Null, is_none: false }
}

/// A field that holds a 64-bit integer.
pub open spec fn integer_field(x: u64, tag: Tag, keccak_input: int) -> FieldView {
    FieldView {
        value: x as int,
        be_bytes_rlc: horner(be_bytes(x), keccak_input),
        be_bytes_length: spec_tag_length(be_bytes(x)) as int,
        rlp_tag: RlpTag::Tag(tag),
        is_none: x == 0,
    }
}

/// A field that holds a 256-bit integer: its value is its fingerprint.
pub open spec fn word_field(w: Seq<u8>, tag: Tag, evm_word: int, keccak_input: int) -> FieldView {
    FieldView {
        value: horner(w, evm_word),
        be_bytes_rlc: horner(w, keccak_input),
        be_bytes_length: spec_tag_length(w) as int,
        rlp_tag: RlpTag::Tag(tag),
        is_none: significant(w) == 0,
    }
}

/// The bytes of the callee, of which a transaction that creates a contract
/// has none.
pub open spec fn callee_bytes(tx: Transaction) -> Seq<u8> {
    match tx.callee_address {
        Some(a) => a@,
        None => Seq::empty(),
    }
}

/// The field at the place `j` of the header of a transaction.
#[verifier::opaque]
pub open spec fn field_view(
    tx: Transaction,
    sig: SignData,
    evm_word: int,
    keccak_input: int,
    j: nat,
) -> FieldView {
    if j == 0 {
        integer_field(tx.nonce, Tag::Nonce, keccak_input)
    } else if j == 1 {
        word_field(tx.gas_price@, Tag::GasPrice, evm_word, keccak_input)
    } else if j == 2 {
        integer_field(tx.gas, Tag::Gas, keccak_input)
    } else if j == 3 {
        FieldView {
            value: horner(tx.caller_address@, 256),
            be_bytes_rlc: horner(tx.caller_address@, keccak_input),
            be_bytes_length: 20,
            rlp_tag: RlpTag::Tag(Tag::Sender),
            is_none: false,
        }
    } else if j == 4 {
        FieldView {
            value: horner(callee_bytes(tx), 256),
            be_bytes_rlc: horner(callee_bytes(tx), keccak_input),
            be_bytes_length: if tx.callee_address is Some {
                20
            } else {
                1
            },
            rlp_tag: RlpTag::Tag(Tag::To),
            is_none: tx.callee_address is None,
        }
    } else if j == 5 {
        plain_field(bool_value(tx.is_create))
    } else if j == 6 {
        word_field(tx.value@, Tag::Value, evm_word, keccak_input)
    } else if j == 7 {
        FieldView {
            value: horner(tx.call_data@, keccak_input),
            be_bytes_rlc: horner(tx.call_data@, keccak_input),
            be_bytes_length: if tx.call_data@.len() == 0 {
                1
            } else {
                tx.call_data@.len() as int
            },
            rlp_tag: RlpTag::Tag(Tag::Data),
            is_none: tx.call_data@.len() == 0,
        }
    } else if j == 8 {
        plain_field(tx.call_data@.len() as int)
    } else if j == 9 {
        plain_field(gas_cost(tx.call_data@) as int)
    } else if j == 10 {
        FieldView { rlp_tag: RlpTag::GasCost, ..plain_field(tx.tx_data_gas_cost as int) }
    } else if j == 11 {
        integer_field(tx.chain_id, Tag::ChainId, keccak_input)
    } else if j == 12 {
        integer_field(tx.v, Tag::SigV, keccak_input)
    } else if j == 13 {
        word_field(tx.r@, Tag::SigR, evm_word, keccak_input)
    } else if j == 14 {
        word_field(tx.s@, Tag::SigS, evm_word, keccak_input)
    } else if j == 15 {
        FieldView {
            value: tx.rlp_unsigned@.len() as int,
            be_bytes_rlc: 0,
            be_bytes_length: spec_rlp_len_tag_length(tx.rlp_unsigned@) as int,
            rlp_tag: RlpTag::Len,
            is_none: false,
        }
    } else if j == 16 {
        FieldView { rlp_tag: RlpTag::RLC, ..plain_field(horner(tx.rlp_unsigned@, keccak_input)) }
    } else if j == 17 {
        plain_field(horner(sig.msg@, evm_word))
    } else if j == 18 {
        FieldView {
            value: tx.rlp_signed@.len() as int,
            be_bytes_rlc: 0,
            be_bytes_length: spec_rlp_len_tag_length(tx.rlp_signed@) as int,
            rlp_tag: RlpTag::Len,
            is_none: false,
        }
    } else if j == 19 {
        FieldView { rlp_tag: RlpTag::RLC, ..plain_field(horner(tx.rlp_signed@, keccak_input)) }
    } else if j == 20 {
        plain_field(horner(tx.hash@, evm_word))
    } else if j == 21 {
        plain_field(tx.tx_type.spec_index() as int)
    } else {
        plain_field(tx.block_number as int)
    }
}

fn plain(value: Fe) -> (r: Field)
    ensures
        r@ == plain_field(value@),
{
    Field {
        value,
        be_bytes_rlc: Fe::zero(),
        be_bytes_length: 0,
        rlp_tag: RlpTag::Null,
        is_none: false,
    }
}

fn integer(x: u64, tag: Tag, challenges: &Challenges) -> (r: Field)
    ensures
        r@ == integer_field(x, tag, challenges.keccak_input@),
{
    let bytes = u64_to_be_bytes(x);
    Field {
        value: Fe::from_u64(x),
        be_bytes_rlc: rlc_be_bytes(bytes.as_slice(), &challenges.keccak_input),
        be_bytes_length: tag_length(bytes.as_slice()) as u64,
        rlp_tag: RlpTag::Tag(tag),
        is_none: crate::witness::is_zero(x),
    }
}

fn word(w: &[u8; 32], tag: Tag, challenges: &Challenges) -> (r: Field)
    ensures
        r@ == word_field(w@, tag, challenges.evm_word@, challenges.keccak_input@),
{
    Field {
        value: rlc_be_bytes(w.as_slice(), &challenges.evm_word),
        be_bytes_rlc: rlc_be_bytes(w.as_slice(), &challenges.keccak_input),
        be_bytes_length: tag_length(w.as_slice()) as u64,
        rlp_tag: RlpTag::Tag(tag),
        is_none: word_is_zero(w),
    }
}

/// The field at the place `j` of the header of a transaction. It is `None`
/// where the gas cost of the calldata does not fit 64 bits.
pub fn field_at(tx: &Transaction, sig: &SignData, challenges: &Challenges, j: usize) -> (r: Option<
    Field,
>)
    ensures
        r is Some <==> (j == 9 ==> gas_cost(tx.call_data@) <= u64::MAX),
        r matches Some(f) ==> f@ == field_view(
            *tx,
            *sig,
            challenges.evm_word@,
            challenges.keccak_input@,
            j as nat,
        ),
{
    proof {
        reveal(field_view);
    }
    let f = if j == 0 {
        integer(tx.nonce, Tag::Nonce, challenges)
    } else if j == 1 {
        word(&tx.gas_price, Tag::GasPrice, challenges)
    } else if j == 2 {
        integer(tx.gas, Tag::Gas, challenges)
    } else if j == 3 {
        Field {
            value: to_scalar(tx.caller_address.as_slice()),
            be_bytes_rlc: rlc_be_bytes(tx.caller_address.as_slice(), &challenges.keccak_input),
            be_bytes_length: 20,
            rlp_tag: RlpTag::Tag(Tag::Sender),
            is_none: false,
        }
    } else if j == 4 {
        match &tx.callee_address {
            Some(a) => Field {
                value: to_scalar(a.as_slice()),
                be_bytes_rlc: rlc_be_bytes(a.as_slice(), &challenges.keccak_input),
                be_bytes_length: 20,
                rlp_tag: RlpTag::Tag(Tag::To),
                is_none: false,
            },
            None => {
                let empty: [u8; 0] = [];
                proof {
                    assert(empty@ =~= Seq::<u8>::empty());
                }
                Field {
                    value: to_scalar(empty.as_slice()),
                    be_bytes_rlc: rlc_be_bytes(empty.as_slice(), &challenges.keccak_input),
                    be_bytes_length: 1,
                    rlp_tag: RlpTag::Tag(Tag::To),
                    is_none: true,
                }
            },
        }
    } else if j == 5 {
        plain(Fe::from_bool(tx.is_create))
    } else if j == 6 {
        word(&tx.value, Tag::Value, challenges)
    } else if j == 7 {
        let rlc = rlc_be_bytes(tx.call_data.as_slice(), &challenges.keccak_input);
        Field {
            value: rlc,
            be_bytes_rlc: rlc,
            be_bytes_length: if tx.call_data.len() == 0 {
                1
            } else {
                tx.call_data.len() as u64
            },
            rlp_tag: RlpTag::Tag(Tag::Data),
            is_none: tx.call_data.len() == 0,
        }
    } else if j == 8 {
        plain(Fe::from_u64(tx.call_data.len() as u64))
    } else if j == 9 {
        match crate::witness::calldata_gas_cost(&tx.call_data) {
            Some(cost) => plain(Fe::from_u64(cost)),
            None => {
                return None;
            },
        }
    } else if j == 10 {
        Field { rlp_tag: RlpTag::GasCost, ..plain(Fe::from_u64(tx.tx_data_gas_cost)) }
    } else if j == 11 {
        integer(tx.chain_id, Tag::ChainId, challenges)
    } else if j == 12 {
        integer(tx.v, Tag::SigV, challenges)
    } else if j == 13 {
        word(&tx.r, Tag::SigR, challenges)
    } else if j == 14 {
        word(&tx.s, Tag::SigS, challenges)
    } else if j == 15 {
        Field {
            value: Fe::from_u64(tx.rlp_unsigned.len() as u64),
            be_bytes_rlc: Fe::zero(),
            be_bytes_length: get_rlp_len_tag_length(&tx.rlp_unsigned) as u64,
            rlp_tag: RlpTag::Len,
            is_none: false,
        }
    } else if j == 16 {
        Field {
            rlp_tag: RlpTag::RLC,
            ..plain(rlc_be_bytes(tx.rlp_unsigned.as_slice(), &challenges.keccak_input))
        }
    } else if j == 17 {
        plain(rlc_be_bytes(sig.msg.as_slice(), &challenges.evm_word))
    } else if j == 18 {
        Field {
            value: Fe::from_u64(tx.rlp_signed.len() as u64),
            be_bytes_rlc: Fe::zero(),
            be_bytes_length: get_rlp_len_tag_length(&tx.rlp_signed) as u64,
            rlp_tag: RlpTag::Len,
            is_none: false,
        }
    } else if j == 19 {
        Field {
            rlp_tag: RlpTag::RLC,
            ..plain(rlc_be_bytes(tx.rlp_signed.as_slice(), &challenges.keccak_input))
        }
    } else if j == 20 {
        plain(rlc_be_bytes(tx.hash.as_slice(), &challenges.evm_word))
    } else if j == 21 {
        plain(Fe::from_u64(tx.tx_type.index()))
    } else {
        plain(Fe::from_u64(tx.block_number))
    };
    Some(f)
}

/// What is computed once for a transaction and copied to each row of its
/// header, over the integers.
pub struct SlotView {
    /// The number of the transaction, counted from one.
    pub tx_id: int,
    pub is_padding_tx: bool,
    pub cum_num_txs: int,
    pub num_txs: int,
    pub num_all_txs_acc: int,
    pub total_l1_popped_before: int,
    /// The number of the transaction of the row after the header.
    pub tx_id_after: int,
    /// The block number of the transaction after this one; zero after the
    /// last.
    pub next_block_num: int,
}

/// What is computed once for a transaction and copied to each row of its
/// header.
#[derive(Clone, Copy, Debug)]
pub struct TxSlot {
    pub tx_id: usize,
    pub is_padding_tx: bool,
    pub cum_num_txs: usize,
    pub num_txs: usize,
    pub num_all_txs_acc: u64,
    pub total_l1_popped_before: u64,
    pub tx_id_after: usize,
    pub next_block_num: u64,
}

impl View for TxSlot {
    type V = SlotView;

    open spec fn view(&self) -> SlotView {
        SlotView {
            tx_id: self.tx_id as int,
            is_padding_tx: self.is_padding_tx,
            cum_num_txs: self.cum_num_txs as int,
            num_txs: self.num_txs as int,
            num_all_txs_acc: self.num_all_txs_acc as int,
            total_l1_popped_before: self.total_l1_popped_before as int,
            tx_id_after: self.tx_id_after as int,
            next_block_num: self.next_block_num as int,
        }
    }
}

/// What the row at the place `j` of the header of a transaction stands for.
pub open spec fn slot_row(tx: Transaction, f: FieldView, sv_address: int, s: SlotView, j: nat) -> RowView {
    RowView {
        tx_type: tx.tx_type,
        tx_nonce: tx.nonce as int,
        tx_id: s.tx_id,
        tx_id_next: if j == 22 {
            s.tx_id_after
        } else {
            s.tx_id
        },
        tag: header_tag(j),
        index: 0,
        value: f.value,
        be_bytes_rlc: f.be_bytes_rlc,
        be_bytes_length: f.be_bytes_length,
        rlp_tag: f.rlp_tag,
        is_none: f.is_none,
        is_padding_tx: s.is_padding_tx,
        cum_num_txs: s.cum_num_txs,
        num_txs: s.num_txs,
        is_final: false,
        calldata_gas_cost_acc: 0,
        calldata_rlc: 0,
        cur_block_num: tx.block_number as int,
        next_block_num: if j == 22 {
            s.next_block_num
        } else {
            tx.block_number as int
        },
        num_all_txs_acc: s.num_all_txs_acc,
        total_l1_popped_before: s.total_l1_popped_before,
        sv_address,
    }
}

/// What the row at the place `j` of the header of a transaction stands for.
pub fn make_slot_row(tx: &Transaction, f: &Field, sv_address: Fe, s: &TxSlot, j: usize) -> (r: RowData)
    ensures
        r@ == slot_row(*tx, f@, sv_address@, s@, j as nat),
{
    RowData {
        tx_type: tx.tx_type,
        tx_nonce: tx.nonce,
        tx_id: s.tx_id,
        tx_id_next: if j == 22 {
            s.tx_id_after
        } else {
            s.tx_id
        },
        tag: tag_at(j),
        index: 0,
        value: f.value,
        be_bytes_rlc: f.be_bytes_rlc,
        be_bytes_length: f.be_bytes_length,
        rlp_tag: f.rlp_tag,
        is_none: f.is_none,
        is_padding_tx: s.is_padding_tx,
        cum_num_txs: s.cum_num_txs,
        num_txs: s.num_txs,
        is_final: false,
        calldata_gas_cost_acc: 0,
        calldata_rlc: Fe::zero(),
        cur_block_num: tx.block_number,
        next_block_num: if j == 22 {
            s.next_block_num
        } else {
            tx.block_number
        },
        num_all_txs_acc: s.num_all_txs_acc,
        total_l1_popped_before: s.total_l1_popped_before,
        sv_address,
    }
}

/// What the row of the calldata byte `k` of the transaction `i` stands for:
/// the byte at its position, the gas cost and the fingerprint of the
/// calldata up to and including it, and the final marker on the last byte.
#[verifier::opaque]
pub open spec fn calldata_row_view(txs: Seq<Transaction>, keccak_input: int, i: int, k: int) -> RowView {
    let tx = txs[i];
    let last = k + 1 == tx.call_data@.len();
    RowView {
        tx_type: tx.tx_type,
        tx_nonce: tx.nonce as int,
        tx_id: i + 1,
        tx_id_next: if last {
            next_with_calldata(txs, (i + 1) as nat) as int
        } else {
            i + 1
        },
        tag: TxFieldTag::CallData,
        index: k,
        value: tx.call_data@[k] as int,
        be_bytes_rlc: 0,
        be_bytes_length: 0,
        rlp_tag: RlpTag::Null,
        is_none: false,
        is_padding_tx: false,
        cum_num_txs: 0,
        num_txs: 0,
        is_final: last,
        calldata_gas_cost_acc: gas_cost(tx.call_data@.take(k + 1)) as int,
        calldata_rlc: horner(tx.call_data@.take(k + 1), keccak_input),
        cur_block_num: 0,
        next_block_num: 0,
        num_all_txs_acc: 0,
        total_l1_popped_before: 0,
        sv_address: 0,
    }
}

/// What a row of empty calldata stands for: it is of the kind `CallData`,
/// final, and belongs to no transaction.
pub open spec fn empty_calldata_view() -> RowView {
    RowView {
        tx_type: TxType::Eip155,
        tx_nonce: 0,
        tx_id: 0,
        tx_id_next: 0,
        tag: TxFieldTag::CallData,
        index: 0,
        value: 0,
        be_bytes_rlc: 0,
        be_bytes_length: 0,
        rlp_tag: RlpTag::Null,
        is_none: false,
        is_padding_tx: false,
        cum_num_txs: 0,
        num_txs: 0,
        is_final: true,
        calldata_gas_cost_acc: 0,
        calldata_rlc: 0,
        cur_block_num: 0,
        next_block_num: 0,
        num_all_txs_acc: 0,
        total_l1_popped_before: 0,
        sv_address: 0,
    }
}

/// What a row of empty calldata stands for.
pub fn empty_calldata() -> (r: RowData)
    ensures
        r@ == empty_calldata_view(),
{
    RowData {
        tx_type: TxType::Eip155,
        tx_nonce: 0,
        tx_id: 0,
        tx_id_next: 0,
        tag: TxFieldTag::CallData,
        index: 0,
        value: Fe::zero(),
        be_bytes_rlc: Fe::zero(),
        be_bytes_length: 0,
        rlp_tag: RlpTag::Null,
        is_none: false,
        is_padding_tx: false,
        cum_num_txs: 0,
        num_txs: 0,
        is_final: true,
        calldata_gas_cost_acc: 0,
        calldata_rlc: Fe::zero(),
        cur_block_num: 0,
        next_block_num: 0,
        num_all_txs_acc: 0,
        total_l1_popped_before: 0,
        sv_address: Fe::zero(),
    }
}

/// A batch: the transactions, the padding that fills the table up, what was
/// recovered from the signatures of both, and the challenges.
pub struct Batch {
    pub txs: Seq<Transaction>,
    pub padding: Seq<Transaction>,
    pub sigs: Seq<SignData>,
    pub evm_word: int,
    pub keccak_input: int,
    /// The number of messages taken from the queue before the batch.
    pub start: int,
}

impl Batch {
    /// The transactions followed by the padding.
    pub open spec fn all(self) -> Seq<Transaction> {
        self.txs + self.padding
    }

    /// There is what was recovered from a signature for each transaction and
    /// each padding.
    pub open spec fn wf(self) -> bool {
        self.sigs.len() == self.txs.len() + self.padding.len()
    }

    /// What is computed once for the transaction `i`.
    pub open spec fn slot(self, i: int) -> SlotView {
        let n = self.txs.len() as int;
        let all = self.all();
        let genuine = i < n;
        let last = i + 1 == all.len();
        SlotView {
            tx_id: i + 1,
            is_padding_tx: !genuine,
            cum_num_txs: if genuine {
                count_up_to_block(self.txs, all[i].block_number, n as nat) as int
            } else {
                0
            },
            num_txs: if genuine {
                count_in_block(self.txs, all[i].block_number, n as nat) as int
            } else {
                0
            },
            num_all_txs_acc: if genuine {
                num_all_txs_acc(self.txs, self.start, i as nat)
            } else {
                i - n + 1
            },
            total_l1_popped_before: if genuine {
                popped_before(self.txs, self.start, i as nat)
            } else {
                popped_before(self.txs, self.start, n as nat)
            },
            tx_id_after: if last {
                next_with_calldata(self.txs, 0) as int
            } else {
                i + 2
            },
            next_block_num: if last {
                0
            } else if i + 1 < n {
                self.txs[i + 1].block_number as int
            } else {
                self.padding[0].block_number as int
            },
        }
    }

    /// What the row at the place `j` of the header of the transaction `i`
    /// stands for.
    #[verifier::opaque]
    pub open spec fn header_view(self, i: int, j: int) -> RowView {
        let tx = self.all()[i];
        let sig = self.sigs[i];
        slot_row(
            tx,
            field_view(tx, sig, self.evm_word, self.keccak_input, j as nat),
            horner(sig.address@, 256),
            self.slot(i),
            j as nat,
        )
    }

    /// What the row of the calldata byte `k` of the transaction `i` stands
    /// for.
    pub open spec fn calldata_view(self, i: int, k: int) -> RowView {
        calldata_row_view(self.txs, self.keccak_input, i, k)
    }

    /// What the first row of the table stands for: nothing, but for the
    /// number of the transaction of the next row.
    pub open spec fn sentinel_view(self) -> RowView {
        RowView {
            tx_type: TxType::Eip155,
            tx_nonce: 0,
            tx_id: 0,
            tx_id_next: if self.sigs.len() > 0 {
                1
            } else {
                0
            },
            tag: TxFieldTag::Null,
            index: 0,
            value: 0,
            be_bytes_rlc: 0,
            be_bytes_length: 0,
            rlp_tag: RlpTag::Null,
            is_none: false,
            is_padding_tx: false,
            cum_num_txs: 0,
            num_txs: 0,
            is_final: false,
            calldata_gas_cost_acc: 0,
            calldata_rlc: 0,
            cur_block_num: 0,
            next_block_num: 0,
            num_all_txs_acc: 0,
            total_l1_popped_before: 0,
            sv_address: 0,
        }
    }

    /// The number of calldata bytes of the batch.
    pub open spec fn calldata_len(self) -> nat {
        calldata_before(self.txs, self.txs.len())
    }
}

} // verus!
