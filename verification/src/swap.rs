use vstd::prelude::*;

use crate::abi::addr_word;
use crate::abi::encode_arguments;
use crate::abi::spec_encode_args;
use crate::abi::AbiValue;
use crate::address::Address;
use crate::errors::SwapError;
use crate::selector::derive_selector;
use crate::selector::spec_selector;
use crate::uint256::Uint256;

verus! {

/// The canonical signature of the router's swap entry point.
pub open spec fn swap_signature() -> Seq<char> {
    "exactInputSingle((address,address,uint24,address,uint256,uint256,uint160,uint256))"@
}

/// The parameters of one `exactInputSingle` router invocation: a
/// single fixed-layout tuple of eight static fields.
pub struct SwapParameters {
    pub token_in: Address,
    pub token_out: Address,
    /// The pool fee tier; a uint24-range value.
    pub fee: Uint256,
    pub recipient: Address,
    pub amount_in: Uint256,
    /// Zero by policy: no slippage protection.
    pub amount_out_minimum: Uint256,
    /// Zero by policy: no price limit.
    pub sqrt_price_limit_x96: Uint256,
    /// Unix seconds.
    pub deadline: Uint256,
}

impl SwapParameters {
    pub open spec fn wf(&self) -> bool {
        &&& self.token_in.wf()
        &&& self.token_out.wf()
        &&& self.fee.wf()
        &&& self.fee.value() < 0x1000000
        &&& self.recipient.wf()
        &&& self.amount_in.wf()
        &&& self.amount_out_minimum.wf()
        &&& self.sqrt_price_limit_x96.wf()
        &&& self.deadline.wf()
    }
}

/// The static-tuple encoding of the swap parameters: eight 32-byte
/// words, in field order.
pub open spec fn spec_encode_swap(p: SwapParameters) -> Seq<u8> {
    addr_word(p.token_in@) + addr_word(p.token_out@) + p.fee@ + addr_word(p.recipient@)
        + p.amount_in@ + p.amount_out_minimum@ + p.sqrt_price_limit_x96@ + p.deadline@
}

/// Encodes the swap parameters as a single static ABI tuple (the
/// concatenation of its encoded fields).
pub fn encode_swap_parameters(p: &SwapParameters) -> (r: Vec<u8>)
    requires
        p.wf(),
    ensures
        r@ == spec_encode_swap(*p),
        r@.len() == 256,
{
    let mut args: Vec<AbiValue> = Vec::new();
    args.push(AbiValue::Address(p.token_in.duplicate()));
    args.push(AbiValue::Address(p.token_out.duplicate()));
    args.push(AbiValue::Uint(p.fee.duplicate()));
    args.push(AbiValue::Address(p.recipient.duplicate()));
    args.push(AbiValue::Uint(p.amount_in.duplicate()));
    args.push(AbiValue::Uint(p.amount_out_minimum.duplicate()));
    args.push(AbiValue::Uint(p.sqrt_price_limit_x96.duplicate()));
    args.push(AbiValue::Uint(p.deadline.duplicate()));
    let r = encode_arguments(&args);
    proof {
        let s8 = args@;
        let s7 = s8.drop_last();
        let s6 = s7.drop_last();
        let s5 = s6.drop_last();
        let s4 = s5.drop_last();
        let s3 = s4.drop_last();
        let s2 = s3.drop_last();
        let s1 = s2.drop_last();
        let s0 = s1.drop_last();
        assert(s0.len() == 0);
        assert(spec_encode_args(s8) == spec_encode_args(s7) + s8.last().spec_word());
        assert(spec_encode_args(s7) == spec_encode_args(s6) + s7.last().spec_word());
        assert(spec_encode_args(s6) == spec_encode_args(s5) + s6.last().spec_word());
        assert(spec_encode_args(s5) == spec_encode_args(s4) + s5.last().spec_word());
        assert(spec_encode_args(s4) == spec_encode_args(s3) + s4.last().spec_word());
        assert(spec_encode_args(s3) == spec_encode_args(s2) + s3.last().spec_word());
        assert(spec_encode_args(s2) == spec_encode_args(s1) + s2.last().spec_word());
        assert(spec_encode_args(s1) == spec_encode_args(s0) + s1.last().spec_word());
        assert(spec_encode_args(s0) == Seq::<u8>::empty());
        assert(r@ =~= spec_encode_swap(*p));
    }
    r
}

/// Decodes a 256-byte static swap tuple back into its fields, against
/// the documented layout: eight consecutive 32-byte words, addresses
/// in the low 20 bytes of their words.  Any other length is an
/// `InvalidResponse`.
pub fn decode_swap_parameters(data: &Vec<u8>) -> (r: Result<SwapParameters, SwapError>)
    ensures
        data@.len() == 256 ==> (r matches Ok(q) && q.token_in@ == data@.subrange(12, 32)
            && q.token_out@ == data@.subrange(44, 64) && q.fee@ == data@.subrange(64, 96)
            && q.recipient@ == data@.subrange(108, 128) && q.amount_in@ == data@.subrange(128, 160)
            && q.amount_out_minimum@ == data@.subrange(160, 192) && q.sqrt_price_limit_x96@
            == data@.subrange(192, 224) && q.deadline@ == data@.subrange(224, 256)),
        data@.len() != 256 ==> r == Result::<SwapParameters, SwapError>::Err(
            SwapError::InvalidResponse,
        ),
{
    if data.len() != 256 {
        return Err(SwapError::InvalidResponse);
    }
    let token_in = Address::from_raw(copy_range(data, 12, 32));
    let token_out = Address::from_raw(copy_range(data, 44, 64));
    let fee = Uint256::from_be_word(&copy_range(data, 64, 96));
    let recipient = Address::from_raw(copy_range(data, 108, 128));
    let amount_in = Uint256::from_be_word(&copy_range(data, 128, 160));
    let amount_out_minimum = Uint256::from_be_word(&copy_range(data, 160, 192));
    let sqrt_price_limit_x96 = Uint256::from_be_word(&copy_range(data, 192, 224));
    let deadline = Uint256::from_be_word(&copy_range(data, 224, 256));
    Ok(
        SwapParameters {
            token_in,
            token_out,
            fee,
            recipient,
            amount_in,
            amount_out_minimum,
            sqrt_price_limit_x96,
            deadline,
        },
    )
}

/// Law: decoding the static-tuple encoding of swap parameters against
/// the documented layout reproduces every field value exactly.
pub proof fn lemma_swap_round_trip(p: SwapParameters, data: Seq<u8>)
    requires
        p.wf(),
        data == spec_encode_swap(p),
    ensures
        data.len() == 256,
        data.subrange(12, 32) == p.token_in@,
        data.subrange(44, 64) == p.token_out@,
        data.subrange(64, 96) == p.fee@,
        data.subrange(108, 128) == p.recipient@,
        data.subrange(128, 160) == p.amount_in@,
        data.subrange(160, 192) == p.amount_out_minimum@,
        data.subrange(192, 224) == p.sqrt_price_limit_x96@,
        data.subrange(224, 256) == p.deadline@,
{
    assert(addr_word(p.token_in@).len() == 32);
    assert(addr_word(p.token_out@).len() == 32);
    assert(addr_word(p.recipient@).len() == 32);
    assert(data.subrange(12, 32) =~= p.token_in@);
    assert(data.subrange(44, 64) =~= p.token_out@);
    assert(data.subrange(64, 96) =~= p.fee@);
    assert(data.subrange(108, 128) =~= p.recipient@);
    assert(data.subrange(128, 160) =~= p.amount_in@);
    assert(data.subrange(160, 192) =~= p.amount_out_minimum@);
    assert(data.subrange(192, 224) =~= p.sqrt_price_limit_x96@);
    assert(data.subrange(224, 256) =~= p.deadline@);
}

/// Composes the router invocation: the calldata is the selector of
/// the swap signature followed by the tuple encoding; the transaction
/// value equals `amount_in` (the router is paid in the native asset
/// directly); the recipient of the transaction is the router.
pub fn build_swap(p: &SwapParameters, router: &Address) -> (r: (Vec<u8>, Uint256, Address))
    requires
        p.wf(),
        router.wf(),
    ensures
        r.0@ == spec_selector(swap_signature()) + spec_encode_swap(*p),
        r.0@.len() == 260,
        r.1@ == p.amount_in@,
        r.2@ == router@,
{
    let mut calldata = derive_selector(
        "exactInputSingle((address,address,uint24,address,uint256,uint256,uint160,uint256))",
    );
    let mut body = encode_swap_parameters(p);
    calldata.append(&mut body);
    (calldata, p.amount_in.duplicate(), router.duplicate())
}

/// Assembles the swap parameters from the values the run has
/// collected.  Policy fields: the fee tier is 500; the minimum output
/// and the price limit are zero (no slippage or price protection).
pub fn make_swap_parameters(
    weth: &Address,
    token: &Address,
    sender: &Address,
    amount_wei: u128,
    deadline: u64,
) -> (p: SwapParameters)
    requires
        weth.wf(),
        token.wf(),
        sender.wf(),
    ensures
        p.wf(),
        p.token_in@ == weth@,
        p.token_out@ == token@,
        p.fee.value() == 500,
        p.recipient@ == sender@,
        p.amount_in.value() == amount_wei as nat,
        p.amount_out_minimum.value() == 0,
        p.sqrt_price_limit_x96.value() == 0,
        p.deadline.value() == deadline as nat,
{
    SwapParameters {
        token_in: weth.duplicate(),
        token_out: token.duplicate(),
        fee: Uint256::from_u64(500),
        recipient: sender.duplicate(),
        amount_in: Uint256::from_u128(amount_wei),
        amount_out_minimum: Uint256::zero(),
        sqrt_price_limit_x96: Uint256::zero(),
        deadline: Uint256::from_u64(deadline),
    }
}

/// The deadline policy: the current unix time plus a fixed window of
/// 1,000,000 seconds (which in effect disables deadline enforcement).
pub fn compute_deadline(now: u64) -> (r: u64)
    requires
        now + 1000000 <= u64::MAX,
    ensures
        r == now + 1000000,
{
    now + 1000000
}

/// Copies `data[start..end]`.
fn copy_range(data: &Vec<u8>, start: usize, end: usize) -> (r: Vec<u8>)
    requires
        start <= end <= data@.len(),
    ensures
        r@ == data@.subrange(start as int, end as int),
{
    let mut r: Vec<u8> = Vec::new();
    let mut i: usize = start;
    while i < end
        invariant
            start <= i <= end <= data@.len(),
            r@ =~= data@.subrange(start as int, i as int),
        decreases end - i,
    {
        r.push(data[i]);
        i = i + 1;
    }
    r
}

} // verus!
