//! The table of a batch of admissible transactions satisfies
//! `basic_constraints`.

use crate::constraint_builder::boolean_poly;
use crate::constraint_builder::in_set_poly;
use crate::expr::cell_at;
use crate::expr::eval;
use crate::expr::lit;
use crate::expr::minus;
use crate::expr::times;
use crate::expr::Expr;
use crate::field::modulus;
use crate::gadgets::is_zero_expr;
use crate::plonk::polys_hold;
use crate::semantics::is_bit;
use crate::semantics::lemma_eval_and;
use crate::semantics::lemma_eval_cell;
use crate::semantics::lemma_eval_lit;
use crate::semantics::lemma_eval_minus;
use crate::semantics::lemma_eval_not;
use crate::semantics::lemma_eval_sum;
use crate::semantics::lemma_eval_times;
use crate::semantics::lemma_requirement;
use crate::table::TxFieldTag;
use crate::tx_circuit::assign::bool_value;
use crate::tx_circuit::batch::header_tag;
use crate::tx_circuit::batch::Batch;
use crate::tx_circuit::complete::field_has_inverses;
use crate::tx_circuit::complete::lemma_calldata_cells;
use crate::tx_circuit::complete::lemma_equality;
use crate::tx_circuit::complete::lemma_table_size;
use crate::tx_circuit::complete::lemma_vanishing;
use crate::tx_circuit::complete::used;
use crate::tx_circuit::complete::valid;
use crate::tx_circuit::complete::wrapped_view;
use crate::tx_circuit::found::padding_is_bare;
use crate::tx_circuit::gates::basic_constraints;
use crate::tx_circuit::gates::is_tag;
use crate::tx_circuit::rows::lemma_table_cells;
use crate::tx_circuit::rows::lemma_table_len;
use crate::tx_circuit::rows::lemma_table_tail;
use crate::tx_circuit::rows::view_at;
use crate::tx_circuit::stored::bit;
use crate::tx_circuit::stored::lemma_row_kinds;
use crate::tx_circuit::stored::lemma_stored;
use crate::tx_circuit::stored::messages_cost_nothing;
use crate::tx_circuit::synthesis::table;
use crate::tx_circuit::TxCircuitConfig;
use crate::tx_circuit::TX_LEN;
use crate::util::and_expr;
use crate::util::not_expr;
use crate::util::sum_expr;
use crate::witness::gas_cost;
use crate::witness::horner;
use crate::witness::significant;
use crate::witness::RlpTag;
use crate::witness::Tag;
use crate::witness::Transaction;
use crate::witness::TxType;
use vstd::prelude::*;

verus! {

/// The transaction is of a type that the circuit supports, and it creates a
/// contract exactly if it has no callee.
pub open spec fn admissible_tx(tx: Transaction) -> bool {
    &&& tx.tx_type == TxType::PreEip155 || tx.tx_type == TxType::Eip155 || tx.tx_type
        == TxType::L1Msg
    &&& tx.is_create <==> tx.callee_address is None
}

/// The transactions and the padding are admissible, the padding has no
/// calldata, and the encoding of a message from the queue costs no gas.
pub open spec fn admissible(b: Batch) -> bool {
    &&& forall|i: int| 0 <= i < b.all().len() ==> admissible_tx(#[trigger] b.all()[i])
    &&& padding_is_bare(b)
    &&& messages_cost_nothing(b)
}

/// The lookup tag that belongs to a kind of row.
pub open spec fn rlp_tag_of(tag: TxFieldTag) -> RlpTag {
    match tag {
        TxFieldTag::Nonce => RlpTag::Tag(Tag::Nonce),
        TxFieldTag::GasPrice => RlpTag::Tag(Tag::GasPrice),
        TxFieldTag::Gas => RlpTag::Tag(Tag::Gas),
        TxFieldTag::CalleeAddress => RlpTag::Tag(Tag::To),
        TxFieldTag::Value => RlpTag::Tag(Tag::Value),
        TxFieldTag::CallDataRLC => RlpTag::Tag(Tag::Data),
        TxFieldTag::SigV => RlpTag::Tag(Tag::SigV),
        TxFieldTag::SigR => RlpTag::Tag(Tag::SigR),
        TxFieldTag::SigS => RlpTag::Tag(Tag::SigS),
        TxFieldTag::TxSignLength => RlpTag::Len,
        TxFieldTag::TxSignRLC => RlpTag::RLC,
        TxFieldTag::TxHashLength => RlpTag::Len,
        TxFieldTag::TxHashRLC => RlpTag::RLC,
        TxFieldTag::CallerAddress => RlpTag::Tag(Tag::Sender),
        TxFieldTag::TxDataGasCost => RlpTag::GasCost,
        TxFieldTag::ChainID => RlpTag::Tag(Tag::ChainId),
        _ => RlpTag::Null,
    }
}

/// The fingerprint of a big-endian integer without a significant byte is
/// zero.
pub proof fn lemma_insignificant(bytes: Seq<u8>, base: int)
    requires
        significant(bytes) == 0,
    ensures
        horner(bytes, base) == 0,
    decreases bytes.len(),
{
    if bytes.len() > 0 {
        let rest = bytes.drop_first();
        lemma_insignificant(rest, base);
        assert forall|i: int| 0 <= i < bytes.len() implies bytes[i] == 0 by {
            lemma_all_zero(bytes, i);
        }
        crate::tx_circuit::laws::lemma_horner_zeros(bytes, base);
    }
}

/// A big-endian integer without a significant byte has zero bytes only.
pub proof fn lemma_all_zero(bytes: Seq<u8>, i: int)
    requires
        significant(bytes) == 0,
        0 <= i < bytes.len(),
    ensures
        bytes[i] == 0,
    decreases bytes.len(),
{
    if i > 0 {
        lemma_all_zero(bytes.drop_first(), i - 1);
    }
}

/// What the rows of a header hold: the lookup tag that belongs to the kind
/// of each, zero where the value is flagged as empty, and on the rows that
/// `basic_constraints` reads one or two rows ahead, what it reads there.
pub proof fn lemma_header_holds(b: Batch, i: int, j: int)
    requires
        0 <= i < b.all().len(),
        0 <= j < TX_LEN,
    ensures
        ({
            let v = b.header_view(i, j);
            let tx = b.all()[i];
            &&& v.tag == header_tag(j as nat)
            &&& v.rlp_tag == rlp_tag_of(v.tag)
            &&& v.tx_type == tx.tx_type
            &&& v.is_none ==> v.value == 0
            &&& j == 21 ==> v.value == tx.tx_type.spec_index()
            &&& j == 4 ==> v.is_none == (tx.callee_address is None)
            &&& j == 5 ==> v.value == bool_value(tx.is_create)
            &&& j == 7 ==> v.is_none == (tx.call_data@.len() == 0)
            &&& j == 8 ==> v.value == tx.call_data@.len()
            &&& j == 9 ==> v.value == gas_cost(tx.call_data@)
        }),
{
    reveal(Batch::header_view);
    reveal(crate::tx_circuit::batch::field_view);
    let tx = b.all()[i];
    if j == 1 {
        if significant(tx.gas_price@) == 0 {
            lemma_insignificant(tx.gas_price@, b.evm_word);
        }
    } else if j == 6 {
        if significant(tx.value@) == 0 {
            lemma_insignificant(tx.value@, b.evm_word);
        }
    } else if j == 13 {
        if significant(tx.r@) == 0 {
            lemma_insignificant(tx.r@, b.evm_word);
        }
    } else if j == 14 {
        if significant(tx.s@) == 0 {
            lemma_insignificant(tx.s@, b.evm_word);
        }
    }
}

/// What a row of the table holds: the lookup tag that belongs to its kind,
/// zero where its value is flagged as empty, and the type of an admissible
/// transaction.
pub proof fn lemma_row_holds(b: Batch, max_txs: nat, max_calldata: nat, r: int)
    requires
        b.all().len() == max_txs,
        b.txs.len() <= max_txs,
        admissible(b),
        0 <= r < used(max_txs, max_calldata),
    ensures
        ({
            let v = view_at(b, max_txs, r);
            &&& v.rlp_tag == rlp_tag_of(v.tag)
            &&& v.is_none ==> v.value == 0
            &&& v.tx_type == TxType::PreEip155 || v.tx_type == TxType::Eip155 || v.tx_type
                == TxType::L1Msg
        }),
{
    let hl = max_txs * TX_LEN;
    crate::tx_circuit::rows::lemma_view_first(b, max_txs);
    if r == 0 {
    } else if r <= hl {
        let (i, j) = crate::tx_circuit::rows::lemma_header_place(max_txs, r);
        crate::tx_circuit::rows::lemma_view_header(b, max_txs, i, j);
        lemma_header_holds(b, i, j);
        assert(admissible_tx(b.all()[i]));
    } else {
        let p = r - 1 - hl;
        if p < b.calldata_len() {
            reveal(crate::tx_circuit::batch::calldata_row_view);
            crate::tx_circuit::rows::lemma_owner(b.txs, b.txs.len(), p);
            let o = crate::tx_circuit::rows::owner(b.txs, b.txs.len(), p);
            crate::tx_circuit::rows::lemma_view_calldata(b, max_txs, o.0, o.1);
            assert(b.all()[o.0] == b.txs[o.0]);
            assert(admissible_tx(b.all()[o.0]));
        } else {
            crate::tx_circuit::rows::lemma_view_empty(b, max_txs, r);
        }
    }
}

/// The type, the lookup tag and the flag of an empty value of a row, as
/// queries evaluate to them on the row `r`.
pub proof fn lemma_basic_cells(
    c: &TxCircuitConfig,
    b: Batch,
    max_txs: nat,
    max_calldata: nat,
    end: nat,
    challenges: Seq<int>,
    r: int,
)
    requires
        valid(c, b, max_txs, max_calldata),
    ensures
        ({
            let t = table(c, b, max_txs, max_calldata, end);
            let n = t.len() as int;
            let v = wrapped_view(b, max_txs, max_calldata, n, r);
            let on = crate::tx_circuit::complete::enabled(max_txs, max_calldata, n, r);
            &&& eval(cell_at(c.tx_type, 0), t, challenges, r) == v.tx_type.spec_index()
            &&& on ==> eval(cell_at(c.rlp_tag, 0), t, challenges, r) == v.rlp_tag.spec_index()
            &&& eval(cell_at(c.is_none, 0), t, challenges, r) == bit(v.is_none)
        }),
{
    reveal(valid);
    let t = table(c, b, max_txs, max_calldata, end);
    lemma_table_len(c, b, max_txs, max_calldata, end);
    let n = t.len() as int;
    let at = r % n;
    let v = wrapped_view(b, max_txs, max_calldata, n, r);
    lemma_eval_cell(c.tx_type, 0, t, challenges, r);
    lemma_eval_cell(c.rlp_tag, 0, t, challenges, r);
    lemma_eval_cell(c.is_none, 0, t, challenges, r);
    if at < used(max_txs, max_calldata) {
        lemma_table_cells(c, b, max_txs, max_calldata, end, at);
    } else {
        lemma_table_tail(c, b, max_txs, max_calldata, end, at);
    }
    crate::tx_circuit::rows::lemma_view_first(b, max_txs);
    vstd::arithmetic::div_mod::lemma_small_mod(v.tx_type.spec_index(), modulus());
    vstd::arithmetic::div_mod::lemma_small_mod(v.rlp_tag.spec_index(), modulus());
}

/// The lookup tags, each multiplied by the indicator of the kind of row
/// that it belongs to.
pub open spec fn rlp_tag_terms(c: &TxCircuitConfig) -> Seq<Expr> {
    seq![
        times(lit(RlpTag::Tag(Tag::Nonce).spec_index() as int), is_tag(c, TxFieldTag::Nonce, 0)),
        times(lit(RlpTag::Tag(Tag::GasPrice).spec_index() as int), is_tag(c, TxFieldTag::GasPrice, 0)),
        times(lit(RlpTag::Tag(Tag::Gas).spec_index() as int), is_tag(c, TxFieldTag::Gas, 0)),
        times(lit(RlpTag::Tag(Tag::To).spec_index() as int), is_tag(c, TxFieldTag::CalleeAddress, 0)),
        times(lit(RlpTag::Tag(Tag::Value).spec_index() as int), is_tag(c, TxFieldTag::Value, 0)),
        times(lit(RlpTag::Tag(Tag::Data).spec_index() as int), is_tag(c, TxFieldTag::CallDataRLC, 0)),
        times(lit(RlpTag::Tag(Tag::SigV).spec_index() as int), is_tag(c, TxFieldTag::SigV, 0)),
        times(lit(RlpTag::Tag(Tag::SigR).spec_index() as int), is_tag(c, TxFieldTag::SigR, 0)),
        times(lit(RlpTag::Tag(Tag::SigS).spec_index() as int), is_tag(c, TxFieldTag::SigS, 0)),
        times(lit(RlpTag::Len.spec_index() as int), is_tag(c, TxFieldTag::TxSignLength, 0)),
        times(lit(RlpTag::RLC.spec_index() as int), is_tag(c, TxFieldTag::TxSignRLC, 0)),
        times(lit(RlpTag::Len.spec_index() as int), is_tag(c, TxFieldTag::TxHashLength, 0)),
        times(lit(RlpTag::RLC.spec_index() as int), is_tag(c, TxFieldTag::TxHashRLC, 0)),
        times(lit(RlpTag::Tag(Tag::Sender).spec_index() as int), is_tag(c, TxFieldTag::CallerAddress, 0)),
        times(lit(RlpTag::GasCost.spec_index() as int), is_tag(c, TxFieldTag::TxDataGasCost, 0)),
        times(lit(RlpTag::Null.spec_index() as int), is_tag(c, TxFieldTag::Null, 0)),
        times(lit(RlpTag::Null.spec_index() as int), is_tag(c, TxFieldTag::IsCreate, 0)),
        times(lit(RlpTag::Null.spec_index() as int), is_tag(c, TxFieldTag::CallDataLength, 0)),
        times(lit(RlpTag::Null.spec_index() as int), is_tag(c, TxFieldTag::CallDataGasCost, 0)),
        times(lit(RlpTag::Null.spec_index() as int), is_tag(c, TxFieldTag::TxSignHash, 0)),
        times(lit(RlpTag::Null.spec_index() as int), is_tag(c, TxFieldTag::TxHash, 0)),
        times(lit(RlpTag::Null.spec_index() as int), is_tag(c, TxFieldTag::CallData, 0)),
        times(lit(RlpTag::Null.spec_index() as int), is_tag(c, TxFieldTag::BlockNumber, 0)),
        times(lit(RlpTag::Tag(Tag::ChainId).spec_index() as int), is_tag(c, TxFieldTag::ChainID, 0)),
        times(lit(RlpTag::Null.spec_index() as int), is_tag(c, TxFieldTag::TxType, 0)),
    ]
}

/// The sum of the lookup tags, each multiplied by the indicator of the kind
/// of row that it belongs to, evaluates to the lookup tag that belongs to
/// the kind of the row.
pub proof fn lemma_rlp_tag_sum(
    c: &TxCircuitConfig,
    b: Batch,
    max_txs: nat,
    max_calldata: nat,
    end: nat,
    challenges: Seq<int>,
    r: int,
)
    requires
        valid(c, b, max_txs, max_calldata),
    ensures
        eval(
            sum_expr(rlp_tag_terms(c)),
            table(c, b, max_txs, max_calldata, end),
            challenges,
            r,
        ) == rlp_tag_of(
            wrapped_view(
                b,
                max_txs,
                max_calldata,
                table(c, b, max_txs, max_calldata, end).len() as int,
                r,
            ).tag,
        ).spec_index(),
{
    let t = table(c, b, max_txs, max_calldata, end);
    let v = wrapped_view(b, max_txs, max_calldata, t.len() as int, r);
    lemma_row_kinds(c, b, max_txs, max_calldata, end, challenges, r, 0);
    let terms = rlp_tag_terms(c);
    assert(terms.len() == 25);
    lemma_eval_lit(RlpTag::Tag(Tag::Nonce).spec_index() as int, t, challenges, r);
    lemma_eval_times(
        lit(RlpTag::Tag(Tag::Nonce).spec_index() as int),
        is_tag(c, TxFieldTag::Nonce, 0),
        t,
        challenges,
        r,
    );
    lemma_eval_lit(RlpTag::Tag(Tag::GasPrice).spec_index() as int, t, challenges, r);
    lemma_eval_times(
        lit(RlpTag::Tag(Tag::GasPrice).spec_index() as int),
        is_tag(c, TxFieldTag::GasPrice, 0),
        t,
        challenges,
        r,
    );
    lemma_eval_lit(RlpTag::Tag(Tag::Gas).spec_index() as int, t, challenges, r);
    lemma_eval_times(
        lit(RlpTag::Tag(Tag::Gas).spec_index() as int),
        is_tag(c, TxFieldTag::Gas, 0),
        t,
        challenges,
        r,
    );
    lemma_eval_lit(RlpTag::Tag(Tag::To).spec_index() as int, t, challenges, r);
    lemma_eval_times(
        lit(RlpTag::Tag(Tag::To).spec_index() as int),
        is_tag(c, TxFieldTag::CalleeAddress, 0),
        t,
        challenges,
        r,
    );
    lemma_eval_lit(RlpTag::Tag(Tag::Value).spec_index() as int, t, challenges, r);
    lemma_eval_times(
        lit(RlpTag::Tag(Tag::Value).spec_index() as int),
        is_tag(c, TxFieldTag::Value, 0),
        t,
        challenges,
        r,
    );
    lemma_eval_lit(RlpTag::Tag(Tag::Data).spec_index() as int, t, challenges, r);
    lemma_eval_times(
        lit(RlpTag::Tag(Tag::Data).spec_index() as int),
        is_tag(c, TxFieldTag::CallDataRLC, 0),
        t,
        challenges,
        r,
    );
    lemma_eval_lit(RlpTag::Tag(Tag::SigV).spec_index() as int, t, challenges, r);
    lemma_eval_times(
        lit(RlpTag::Tag(Tag::SigV).spec_index() as int),
        is_tag(c, TxFieldTag::SigV, 0),
        t,
        challenges,
        r,
    );
    lemma_eval_lit(RlpTag::Tag(Tag::SigR).spec_index() as int, t, challenges, r);
    lemma_eval_times(
        lit(RlpTag::Tag(Tag::SigR).spec_index() as int),
        is_tag(c, TxFieldTag::SigR, 0),
        t,
        challenges,
        r,
    );
    lemma_eval_lit(RlpTag::Tag(Tag::SigS).spec_index() as int, t, challenges, r);
    lemma_eval_times(
        lit(RlpTag::Tag(Tag::SigS).spec_index() as int),
        is_tag(c, TxFieldTag::SigS, 0),
        t,
        challenges,
        r,
    );
    lemma_eval_lit(RlpTag::Len.spec_index() as int, t, challenges, r);
    lemma_eval_times(
        lit(RlpTag::Len.spec_index() as int),
        is_tag(c, TxFieldTag::TxSignLength, 0),
        t,
        challenges,
        r,
    );
    lemma_eval_lit(RlpTag::RLC.spec_index() as int, t, challenges, r);
    lemma_eval_times(
        lit(RlpTag::RLC.spec_index() as int),
        is_tag(c, TxFieldTag::TxSignRLC, 0),
        t,
        challenges,
        r,
    );
    lemma_eval_lit(RlpTag::Len.spec_index() as int, t, challenges, r);
    lemma_eval_times(
        lit(RlpTag::Len.spec_index() as int),
        is_tag(c, TxFieldTag::TxHashLength, 0),
        t,
        challenges,
        r,
    );
    lemma_eval_lit(RlpTag::RLC.spec_index() as int, t, challenges, r);
    lemma_eval_times(
        lit(RlpTag::RLC.spec_index() as int),
        is_tag(c, TxFieldTag::TxHashRLC, 0),
        t,
        challenges,
        r,
    );
    lemma_eval_lit(RlpTag::Tag(Tag::Sender).spec_index() as int, t, challenges, r);
    lemma_eval_times(
        lit(RlpTag::Tag(Tag::Sender).spec_index() as int),
        is_tag(c, TxFieldTag::CallerAddress, 0),
        t,
        challenges,
        r,
    );
    lemma_eval_lit(RlpTag::GasCost.spec_index() as int, t, challenges, r);
    lemma_eval_times(
        lit(RlpTag::GasCost.spec_index() as int),
        is_tag(c, TxFieldTag::TxDataGasCost, 0),
        t,
        challenges,
        r,
    );
    lemma_eval_lit(RlpTag::Null.spec_index() as int, t, challenges, r);
    lemma_eval_times(
        lit(RlpTag::Null.spec_index() as int),
        is_tag(c, TxFieldTag::Null, 0),
        t,
        challenges,
        r,
    );
    lemma_eval_lit(RlpTag::Null.spec_index() as int, t, challenges, r);
    lemma_eval_times(
        lit(RlpTag::Null.spec_index() as int),
        is_tag(c, TxFieldTag::IsCreate, 0),
        t,
        challenges,
        r,
    );
    lemma_eval_lit(RlpTag::Null.spec_index() as int, t, challenges, r);
    lemma_eval_times(
        lit(RlpTag::Null.spec_index() as int),
        is_tag(c, TxFieldTag::CallDataLength, 0),
        t,
        challenges,
        r,
    );
    lemma_eval_lit(RlpTag::Null.spec_index() as int, t, challenges, r);
    lemma_eval_times(
        lit(RlpTag::Null.spec_index() as int),
        is_tag(c, TxFieldTag::CallDataGasCost, 0),
        t,
        challenges,
        r,
    );
    lemma_eval_lit(RlpTag::Null.spec_index() as int, t, challenges, r);
    lemma_eval_times(
        lit(RlpTag::Null.spec_index() as int),
        is_tag(c, TxFieldTag::TxSignHash, 0),
        t,
        challenges,
        r,
    );
    lemma_eval_lit(RlpTag::Null.spec_index() as int, t, challenges, r);
    lemma_eval_times(
        lit(RlpTag::Null.spec_index() as int),
        is_tag(c, TxFieldTag::TxHash, 0),
        t,
        challenges,
        r,
    );
    lemma_eval_lit(RlpTag::Null.spec_index() as int, t, challenges, r);
    lemma_eval_times(
        lit(RlpTag::Null.spec_index() as int),
        is_tag(c, TxFieldTag::CallData, 0),
        t,
        challenges,
        r,
    );
    lemma_eval_lit(RlpTag::Null.spec_index() as int, t, challenges, r);
    lemma_eval_times(
        lit(RlpTag::Null.spec_index() as int),
        is_tag(c, TxFieldTag::BlockNumber, 0),
        t,
        challenges,
        r,
    );
    lemma_eval_lit(RlpTag::Tag(Tag::ChainId).spec_index() as int, t, challenges, r);
    lemma_eval_times(
        lit(RlpTag::Tag(Tag::ChainId).spec_index() as int),
        is_tag(c, TxFieldTag::ChainID, 0),
        t,
        challenges,
        r,
    );
    lemma_eval_lit(RlpTag::Null.spec_index() as int, t, challenges, r);
    lemma_eval_times(
        lit(RlpTag::Null.spec_index() as int),
        is_tag(c, TxFieldTag::TxType, 0),
        t,
        challenges,
        r,
    );
    let k: int = match v.tag {
        TxFieldTag::Nonce => 0,
        TxFieldTag::GasPrice => 1,
        TxFieldTag::Gas => 2,
        TxFieldTag::CalleeAddress => 3,
        TxFieldTag::Value => 4,
        TxFieldTag::CallDataRLC => 5,
        TxFieldTag::SigV => 6,
        TxFieldTag::SigR => 7,
        TxFieldTag::SigS => 8,
        TxFieldTag::TxSignLength => 9,
        TxFieldTag::TxSignRLC => 10,
        TxFieldTag::TxHashLength => 11,
        TxFieldTag::TxHashRLC => 12,
        TxFieldTag::CallerAddress => 13,
        TxFieldTag::TxDataGasCost => 14,
        TxFieldTag::Null => 15,
        TxFieldTag::IsCreate => 16,
        TxFieldTag::CallDataLength => 17,
        TxFieldTag::CallDataGasCost => 18,
        TxFieldTag::TxSignHash => 19,
        TxFieldTag::TxHash => 20,
        TxFieldTag::CallData => 21,
        TxFieldTag::BlockNumber => 22,
        TxFieldTag::ChainID => 23,
        TxFieldTag::TxType => 24,
    };
    assert forall|i: int| 0 <= i < terms.len() && i != k implies eval(
        #[trigger] terms[i],
        t,
        challenges,
        r,
    ) == 0 by {
        if i == 0 {
        } else if i == 1 {
        } else if i == 2 {
        } else if i == 3 {
        } else if i == 4 {
        } else if i == 5 {
        } else if i == 6 {
        } else if i == 7 {
        } else if i == 8 {
        } else if i == 9 {
        } else if i == 10 {
        } else if i == 11 {
        } else if i == 12 {
        } else if i == 13 {
        } else if i == 14 {
        } else if i == 15 {
        } else if i == 16 {
        } else if i == 17 {
        } else if i == 18 {
        } else if i == 19 {
        } else if i == 20 {
        } else if i == 21 {
        } else if i == 22 {
        } else if i == 23 {
        } else if i == 24 {
        }
    }
    lemma_eval_sum(terms, k, t, challenges, r);
    if k == 0 {
    } else if k == 1 {
    } else if k == 2 {
    } else if k == 3 {
    } else if k == 4 {
    } else if k == 5 {
    } else if k == 6 {
    } else if k == 7 {
    } else if k == 8 {
    } else if k == 9 {
    } else if k == 10 {
    } else if k == 11 {
    } else if k == 12 {
    } else if k == 13 {
    } else if k == 14 {
    } else if k == 15 {
    } else if k == 16 {
    } else if k == 17 {
    } else if k == 18 {
    } else if k == 19 {
    } else if k == 20 {
    } else if k == 21 {
    } else if k == 22 {
    } else if k == 23 {
    } else if k == 24 {
    }
}


/// The flag of an empty value is a boolean, the type is a supported one, and
/// the row of the type holds it.
pub proof fn lemma_basic_type(
    c: &TxCircuitConfig,
    b: Batch,
    max_txs: nat,
    max_calldata: nat,
    end: nat,
    challenges: Seq<int>,
    r: int,
)
    requires
        valid(c, b, max_txs, max_calldata),
        field_has_inverses(),
        admissible(b),
        0 <= r < table(c, b, max_txs, max_calldata, end).len(),
    ensures
        eval(
            basic_constraints(c)[0].1,
            table(c, b, max_txs, max_calldata, end),
            challenges,
            r,
        ) == 0,
        eval(
            basic_constraints(c)[1].1,
            table(c, b, max_txs, max_calldata, end),
            challenges,
            r,
        ) == 0,
        eval(
            basic_constraints(c)[2].1,
            table(c, b, max_txs, max_calldata, end),
            challenges,
            r,
        ) == 0,
{
    let t = table(c, b, max_txs, max_calldata, end);
    lemma_table_size(c, b, max_txs, max_calldata, end);
    let n = t.len() as int;
    vstd::arithmetic::div_mod::lemma_small_mod(r as nat, n as nat);
    let v = wrapped_view(b, max_txs, max_calldata, n, r);
    lemma_stored(c, b, max_txs, max_calldata, end, challenges, r);
    let selector = cell_at(c.tx_table.q_enable, 0);
    let on = eval(selector, t, challenges, r) != 0;
    if on {
        reveal(valid);
        lemma_row_holds(b, max_txs, max_calldata, r);
    }
    lemma_row_kinds(c, b, max_txs, max_calldata, end, challenges, r, 0);
    lemma_basic_cells(c, b, max_txs, max_calldata, end, challenges, r);
    lemma_calldata_cells(c, b, max_txs, max_calldata, end, challenges, r, 0);
    let is_none = cell_at(c.is_none, 0);
    let tx_type = cell_at(c.tx_type, 0);
    let value = cell_at(c.tx_table.value, 0);
    let types = seq![
        lit(TxType::PreEip155.spec_index() as int),
        lit(TxType::Eip155.spec_index() as int),
        lit(TxType::L1Msg.spec_index() as int),
    ];
    lemma_eval_lit(0, t, challenges, r);
    lemma_eval_lit(1, t, challenges, r);
    lemma_eval_lit(4, t, challenges, r);
    if on {
        let k: int = if v.tx_type == TxType::PreEip155 {
            0
        } else if v.tx_type == TxType::Eip155 {
            1
        } else {
            2
        };
        crate::constraint_builder::lemma_in_set_member(tx_type, types, k, t, challenges, r);
        if v.tag == TxFieldTag::TxType {
            let (i, j) = crate::tx_circuit::stored::lemma_header_row(b, max_txs, max_calldata, r);
            lemma_header_holds(b, i, j);
            vstd::arithmetic::div_mod::lemma_small_mod(v.tx_type.spec_index(), modulus());
        }
    }
    crate::constraint_builder::lemma_boolean(is_none, t, challenges, r);
    lemma_requirement(selector, lit(1), boolean_poly(is_none), t, challenges, r);
    lemma_requirement(selector, lit(1), in_set_poly(tx_type, types), t, challenges, r);
    lemma_equality(selector, is_tag(c, TxFieldTag::TxType, 0), tx_type, value, t, challenges, r);
}

/// The lookup tag of a row is the one that belongs to its kind.
pub proof fn lemma_basic_rlp_tag(
    c: &TxCircuitConfig,
    b: Batch,
    max_txs: nat,
    max_calldata: nat,
    end: nat,
    challenges: Seq<int>,
    r: int,
)
    requires
        valid(c, b, max_txs, max_calldata),
        field_has_inverses(),
        admissible(b),
        0 <= r < table(c, b, max_txs, max_calldata, end).len(),
    ensures
        eval(
            basic_constraints(c)[3].1,
            table(c, b, max_txs, max_calldata, end),
            challenges,
            r,
        ) == 0,
{
    let t = table(c, b, max_txs, max_calldata, end);
    lemma_table_size(c, b, max_txs, max_calldata, end);
    let n = t.len() as int;
    vstd::arithmetic::div_mod::lemma_small_mod(r as nat, n as nat);
    let v = wrapped_view(b, max_txs, max_calldata, n, r);
    lemma_stored(c, b, max_txs, max_calldata, end, challenges, r);
    let selector = cell_at(c.tx_table.q_enable, 0);
    let on = eval(selector, t, challenges, r) != 0;
    if on {
        reveal(valid);
        lemma_row_holds(b, max_txs, max_calldata, r);
    }
    lemma_basic_cells(c, b, max_txs, max_calldata, end, challenges, r);
    lemma_rlp_tag_sum(c, b, max_txs, max_calldata, end, challenges, r);
    let sum = sum_expr(rlp_tag_terms(c));
    lemma_eval_minus(cell_at(c.rlp_tag, 0), sum, t, challenges, r);
    lemma_requirement(selector, lit(1), minus(cell_at(c.rlp_tag, 0), sum), t, challenges, r);
}

/// The row after the row of the callee says whether there is none, and a
/// value that is flagged as empty is zero.
pub proof fn lemma_basic_callee(
    c: &TxCircuitConfig,
    b: Batch,
    max_txs: nat,
    max_calldata: nat,
    end: nat,
    challenges: Seq<int>,
    r: int,
)
    requires
        valid(c, b, max_txs, max_calldata),
        field_has_inverses(),
        admissible(b),
        0 <= r < table(c, b, max_txs, max_calldata, end).len(),
    ensures
        eval(
            basic_constraints(c)[4].1,
            table(c, b, max_txs, max_calldata, end),
            challenges,
            r,
        ) == 0,
        eval(
            basic_constraints(c)[5].1,
            table(c, b, max_txs, max_calldata, end),
            challenges,
            r,
        ) == 0,
{
    let t = table(c, b, max_txs, max_calldata, end);
    lemma_table_size(c, b, max_txs, max_calldata, end);
    let n = t.len() as int;
    vstd::arithmetic::div_mod::lemma_small_mod(r as nat, n as nat);
    let v = wrapped_view(b, max_txs, max_calldata, n, r);
    lemma_stored(c, b, max_txs, max_calldata, end, challenges, r);
    let selector = cell_at(c.tx_table.q_enable, 0);
    let on = eval(selector, t, challenges, r) != 0;
    if on {
        reveal(valid);
        lemma_row_holds(b, max_txs, max_calldata, r);
    }
    lemma_row_kinds(c, b, max_txs, max_calldata, end, challenges, r, 0);
    lemma_basic_cells(c, b, max_txs, max_calldata, end, challenges, r);
    lemma_calldata_cells(c, b, max_txs, max_calldata, end, challenges, r, 0);
    lemma_calldata_cells(c, b, max_txs, max_calldata, end, challenges, r, 1);
    let is_none = cell_at(c.is_none, 0);
    let value = cell_at(c.tx_table.value, 0);
    let value_1 = cell_at(c.tx_table.value, 1);
    lemma_eval_lit(0, t, challenges, r);
    if on {
        vstd::arithmetic::div_mod::lemma_small_mod(0, modulus());
        if v.tag == TxFieldTag::CalleeAddress {
            let (i, j) = crate::tx_circuit::stored::lemma_header_row(b, max_txs, max_calldata, r);
            lemma_header_holds(b, i, j);
            assert(admissible_tx(b.all()[i]));
            crate::tx_circuit::rows::lemma_view_header(b, max_txs, i, 5);
            lemma_header_holds(b, i, 5);
            vstd::arithmetic::div_mod::lemma_small_mod((r + 1) as nat, n as nat);
            vstd::arithmetic::div_mod::lemma_small_mod(1, modulus());
        }
    }
    lemma_equality(
        selector,
        is_tag(c, TxFieldTag::CalleeAddress, 0),
        value_1,
        is_none,
        t,
        challenges,
        r,
    );
    lemma_equality(selector, is_none, value, lit(0), t, challenges, r);
}

/// The calldata is flagged as empty exactly if its length is zero, and then
/// its gas cost is zero too.
pub proof fn lemma_basic_calldata(
    c: &TxCircuitConfig,
    b: Batch,
    max_txs: nat,
    max_calldata: nat,
    end: nat,
    challenges: Seq<int>,
    r: int,
)
    requires
        valid(c, b, max_txs, max_calldata),
        field_has_inverses(),
        admissible(b),
        0 <= r < table(c, b, max_txs, max_calldata, end).len(),
    ensures
        eval(
            basic_constraints(c)[6].1,
            table(c, b, max_txs, max_calldata, end),
            challenges,
            r,
        ) == 0,
        eval(
            basic_constraints(c)[7].1,
            table(c, b, max_txs, max_calldata, end),
            challenges,
            r,
        ) == 0,
        eval(
            basic_constraints(c)[8].1,
            table(c, b, max_txs, max_calldata, end),
            challenges,
            r,
        ) == 0,
{
    let t = table(c, b, max_txs, max_calldata, end);
    lemma_table_size(c, b, max_txs, max_calldata, end);
    let n = t.len() as int;
    vstd::arithmetic::div_mod::lemma_small_mod(r as nat, n as nat);
    let v = wrapped_view(b, max_txs, max_calldata, n, r);
    lemma_stored(c, b, max_txs, max_calldata, end, challenges, r);
    let selector = cell_at(c.tx_table.q_enable, 0);
    let on = eval(selector, t, challenges, r) != 0;
    if on {
        reveal(valid);
        lemma_row_holds(b, max_txs, max_calldata, r);
    }
    lemma_row_kinds(c, b, max_txs, max_calldata, end, challenges, r, 0);
    lemma_basic_cells(c, b, max_txs, max_calldata, end, challenges, r);
    lemma_calldata_cells(c, b, max_txs, max_calldata, end, challenges, r, 1);
    lemma_calldata_cells(c, b, max_txs, max_calldata, end, challenges, r, 2);
    let is_none = cell_at(c.is_none, 0);
    let value_1 = cell_at(c.tx_table.value, 1);
    let value_2 = cell_at(c.tx_table.value, 2);
    let empty_parts = seq![is_tag(c, TxFieldTag::CallDataRLC, 0), is_none];
    let empty = and_expr(empty_parts);
    let full_parts = seq![is_tag(c, TxFieldTag::CallDataRLC, 0), not_expr(is_none)];
    let full = and_expr(full_parts);
    let length_is_zero = is_zero_expr(
        cell_at(c.value_is_zero.value, 1),
        c.value_is_zero.value_inv,
        1,
    );
    lemma_eval_not(is_none, t, challenges, r);
    assert forall|i: int| 0 <= i < empty_parts.len() implies is_bit(
        eval(#[trigger] empty_parts[i], t, challenges, r),
    ) by {}
    lemma_eval_and(empty_parts, t, challenges, r);
    assert forall|i: int| 0 <= i < full_parts.len() implies is_bit(
        eval(#[trigger] full_parts[i], t, challenges, r),
    ) by {}
    lemma_eval_and(full_parts, t, challenges, r);
    lemma_eval_lit(0, t, challenges, r);
    if on && v.tag == TxFieldTag::CallDataRLC {
        let (i, j) = crate::tx_circuit::stored::lemma_header_row(b, max_txs, max_calldata, r);
        lemma_header_holds(b, i, j);
        crate::tx_circuit::rows::lemma_view_header(b, max_txs, i, 8);
        crate::tx_circuit::rows::lemma_view_header(b, max_txs, i, 9);
        lemma_header_holds(b, i, 8);
        lemma_header_holds(b, i, 9);
        vstd::arithmetic::div_mod::lemma_small_mod((r + 1) as nat, n as nat);
        vstd::arithmetic::div_mod::lemma_small_mod((r + 2) as nat, n as nat);
        let len = b.all()[i].call_data@.len();
        if i < b.txs.len() {
            assert(b.all()[i] == b.txs[i]);
            crate::tx_circuit::accounting::lemma_calldata_monotone(
                b.txs,
                (i + 1) as nat,
                b.txs.len(),
            );
            assert(len <= b.calldata_len());
        } else {
            assert(b.all()[i] == b.padding[i - b.txs.len()]);
        }
        vstd::arithmetic::div_mod::lemma_small_mod(len, modulus());
        if len == 0 {
            assert(b.all()[i].call_data@ =~= Seq::<u8>::empty());
            assert(eval(empty, t, challenges, r) == 1 ==> eval(value_1, t, challenges, r) == 0);
        } else {
            assert(eval(empty_parts[1], t, challenges, r) != 1);
        }
    } else if on {
        assert(eval(empty_parts[0], t, challenges, r) != 1);
        assert(eval(full_parts[0], t, challenges, r) != 1);
    }
    lemma_equality(selector, empty, value_1, lit(0), t, challenges, r);
    lemma_equality(selector, empty, value_2, lit(0), t, challenges, r);
    lemma_vanishing(selector, full, length_is_zero, t, challenges, r);
}

/// On every enabled row of the table of a batch of admissible transactions
/// the flag of an empty value is a boolean and the value is zero where the
/// flag is set, the type is a supported one, the lookup tag is the one that
/// belongs to the kind of the row, and what the header says of the callee
/// and of the calldata agrees from row to row: the table satisfies
/// `basic_constraints`.
pub proof fn theorem_basic_constraints(
    c: &TxCircuitConfig,
    b: Batch,
    max_txs: nat,
    max_calldata: nat,
    end: nat,
    challenges: Seq<int>,
    r: int,
)
    requires
        valid(c, b, max_txs, max_calldata),
        field_has_inverses(),
        admissible(b),
        0 <= r < table(c, b, max_txs, max_calldata, end).len(),
    ensures
        polys_hold(basic_constraints(c), table(c, b, max_txs, max_calldata, end), challenges, r),
{
    lemma_basic_type(c, b, max_txs, max_calldata, end, challenges, r);
    lemma_basic_rlp_tag(c, b, max_txs, max_calldata, end, challenges, r);
    lemma_basic_callee(c, b, max_txs, max_calldata, end, challenges, r);
    lemma_basic_calldata(c, b, max_txs, max_calldata, end, challenges, r);
    assert(basic_constraints(c).len() == 9);
}

} // verus!
