use vstd::prelude::*;

use crate::abi::addr_word;
use crate::abi::calldata_for;
use crate::abi::decode_address;
use crate::abi::decode_dynamic_string;
use crate::abi::decode_uint;
use crate::abi::spec_dynamic_string;
use crate::abi::spec_encode_args;
use crate::abi::AbiValue;
use crate::address::Address;
use crate::amount::pow10;
use crate::errors::SwapError;
use crate::selector::derive_selector;
use crate::selector::spec_selector;
use crate::uint256::Uint256;

verus! {

/// The decimals a token reports, with a lenient default: an empty
/// response means 18; otherwise the last byte of the word.
pub open spec fn spec_decimals(data: Seq<u8>) -> u8 {
    if data.len() == 0 {
        18u8
    } else {
        data.last()
    }
}

/// Decodes a `decimals()` response.  An empty response falls back to
/// 18, the common default for tokens that omit the field; otherwise
/// the value is the last byte of the returned word.
pub fn decode_decimals(data: &Vec<u8>) -> (r: u8)
    ensures
        r == spec_decimals(data@),
{
    if data.len() == 0 {
        18
    } else {
        data[data.len() - 1]
    }
}

/// Where the read-only call sequence stands: which response is being
/// awaited, or that the run is finished or aborted.
pub enum Stage {
    FetchWeth,
    FetchName,
    FetchSymbol,
    FetchDecimals,
    FetchBalance,
    Ready,
    Failed,
}

/// The strictly sequential read-only call session that collects the
/// on-chain state a swap needs: the router's wrapped-native-asset
/// address, then the token's name, symbol and decimals, then the
/// sender's token balance.  The session only says which call to make
/// and interprets each response; the transport performs the calls and
/// hands the raw bytes back.
pub struct Session {
    pub sender: Address,
    pub token: Address,
    pub router: Address,
    pub stage: Stage,
    pub weth: Option<Address>,
    pub token_name: Option<String>,
    pub token_symbol: Option<String>,
    pub decimals: Option<u8>,
    pub balance: Option<Uint256>,
}

impl Session {
    pub open spec fn wf(&self) -> bool {
        &&& self.sender.wf()
        &&& self.token.wf()
        &&& self.router.wf()
        &&& (self.weth matches Some(w) ==> w.wf())
        &&& (self.balance matches Some(b) ==> b.wf())
        &&& !(self.stage is FetchWeth) && !(self.stage is Failed) ==> self.weth is Some
        &&& self.stage is FetchBalance || self.stage is Ready ==> self.decimals is Some
        &&& self.stage is Ready ==> self.balance is Some
    }

    /// Opens a session; the first call to make is the WETH9 lookup.
    pub fn new(sender: Address, token: Address, router: Address) -> (s: Session)
        requires
            sender.wf(),
            token.wf(),
            router.wf(),
        ensures
            s.wf(),
            s.stage is FetchWeth,
            s.sender@ == sender@,
            s.token@ == token@,
            s.router@ == router@,
            s.weth is None,
            s.token_name is None,
            s.token_symbol is None,
            s.decimals is None,
            s.balance is None,
    {
        Session {
            sender,
            token,
            router,
            stage: Stage::FetchWeth,
            weth: None,
            token_name: None,
            token_symbol: None,
            decimals: None,
            balance: None,
        }
    }

    /// The next read-only call to issue: its target contract and its
    /// calldata.  A finished or aborted session asks for nothing, so
    /// after a failure no further call is ever issued.  Every request
    /// carries at least the 4-byte selector.
    pub fn next_request(&self) -> (r: Option<(Address, Vec<u8>)>)
        requires
            self.wf(),
        ensures
            self.stage is FetchWeth ==> (r matches Some(t) && t.0@ == self.router@ && t.1@
                == spec_selector("WETH9()"@)),
            self.stage is FetchName ==> (r matches Some(t) && t.0@ == self.token@ && t.1@
                == spec_selector("name()"@)),
            self.stage is FetchSymbol ==> (r matches Some(t) && t.0@ == self.token@ && t.1@
                == spec_selector("symbol()"@)),
            self.stage is FetchDecimals ==> (r matches Some(t) && t.0@ == self.token@ && t.1@
                == spec_selector("decimals()"@)),
            self.stage is FetchBalance ==> (r matches Some(t) && t.0@ == self.token@ && t.1@
                == spec_selector("balanceOf(address)"@) + addr_word(self.sender@)),
            self.stage is Ready || self.stage is Failed ==> r is None,
            r matches Some(t) ==> t.1@.len() >= 4 && t.0.wf(),
    {
        match self.stage {
            Stage::FetchWeth => Some((self.router.duplicate(), derive_selector("WETH9()"))),
            Stage::FetchName => Some((self.token.duplicate(), derive_selector("name()"))),
            Stage::FetchSymbol => Some((self.token.duplicate(), derive_selector("symbol()"))),
            Stage::FetchDecimals => Some((self.token.duplicate(), derive_selector("decimals()"))),
            Stage::FetchBalance => {
                let mut args: Vec<AbiValue> = Vec::new();
                args.push(AbiValue::Address(self.sender.duplicate()));
                let data = calldata_for("balanceOf(address)", &args);
                proof {
                    let vs = args@;
                    assert(vs.drop_last() =~= Seq::<AbiValue>::empty());
                    assert(spec_encode_args(vs) == spec_encode_args(vs.drop_last())
                        + vs.last().spec_word());
                    assert(spec_encode_args(vs.drop_last()) == Seq::<u8>::empty());
                    assert(spec_encode_args(vs) =~= addr_word(self.sender@));
                }
                Some((self.token.duplicate(), data))
            },
            Stage::Ready => None,
            Stage::Failed => None,
        }
    }

    /// Interprets the response to the pending call and advances the
    /// session.  A WETH9 response shorter than one word, or a short
    /// balance word, aborts the run with `InvalidResponse`; name and
    /// symbol decode leniently; a missing `decimals()` field falls
    /// back to 18.
    pub fn absorb_response(&mut self, data: &Vec<u8>) -> (r: Result<(), SwapError>)
        requires
            old(self).wf(),
            !(old(self).stage is Ready),
            !(old(self).stage is Failed),
        ensures
            final(self).wf(),
            final(self).sender@ == old(self).sender@,
            final(self).token@ == old(self).token@,
            final(self).router@ == old(self).router@,
            old(self).stage is FetchWeth && data@.len() < 32 ==> r == Result::<(), SwapError>::Err(
                SwapError::InvalidResponse,
            ) && final(self).stage is Failed,
            old(self).stage is FetchWeth && data@.len() >= 32 ==> r == Result::<(), SwapError>::Ok(
                (),
            ) && final(self).stage is FetchName && (final(self).weth matches Some(w) && w@
                == data@.subrange(data@.len() - 20, data@.len() as int)),
            old(self).stage is FetchName ==> r == Result::<(), SwapError>::Ok(()) && final(self).stage is FetchSymbol && (final(self).token_name matches Some(nm) && nm@
                == spec_dynamic_string(data@)) && final(self).weth == old(self).weth,
            old(self).stage is FetchSymbol ==> r == Result::<(), SwapError>::Ok(()) && final(self).stage is FetchDecimals && (final(self).token_symbol matches Some(sym) && sym@
                == spec_dynamic_string(data@)) && final(self).weth == old(self).weth && final(self).token_name == old(self).token_name,
            old(self).stage is FetchDecimals ==> r == Result::<(), SwapError>::Ok(()) && final(self).stage is FetchBalance && final(self).decimals == Some(spec_decimals(data@)) && final(self).weth == old(self).weth,
            old(self).stage is FetchBalance && data@.len() < 32 ==> r == Result::<
                (),
                SwapError,
            >::Err(SwapError::InvalidResponse) && final(self).stage is Failed,
            old(self).stage is FetchBalance && data@.len() >= 32 ==> r == Result::<
                (),
                SwapError,
            >::Ok(()) && final(self).stage is Ready && (final(self).balance matches Some(b) && b@
                == data@.take(32)) && final(self).weth == old(self).weth && final(self).decimals
                == old(self).decimals,
    {
        match self.stage {
            Stage::FetchWeth => {
                match decode_address(data) {
                    Ok(a) => {
                        self.weth = Some(a);
                        self.stage = Stage::FetchName;
                        Ok(())
                    },
                    Err(e) => {
                        self.stage = Stage::Failed;
                        Err(e)
                    },
                }
            },
            Stage::FetchName => {
                let nm = decode_dynamic_string(data);
                self.token_name = Some(nm);
                self.stage = Stage::FetchSymbol;
                Ok(())
            },
            Stage::FetchSymbol => {
                let sym = decode_dynamic_string(data);
                self.token_symbol = Some(sym);
                self.stage = Stage::FetchDecimals;
                Ok(())
            },
            Stage::FetchDecimals => {
                let d = decode_decimals(data);
                self.decimals = Some(d);
                self.stage = Stage::FetchBalance;
                Ok(())
            },
            Stage::FetchBalance => {
                match decode_uint(data) {
                    Ok(b) => {
                        self.balance = Some(b);
                        self.stage = Stage::Ready;
                        Ok(())
                    },
                    Err(e) => {
                        self.stage = Stage::Failed;
                        Err(e)
                    },
                }
            },
            Stage::Ready => {
                proof {
                    assert(false);
                }
                Err(SwapError::RpcError)
            },
            Stage::Failed => {
                proof {
                    assert(false);
                }
                Err(SwapError::RpcError)
            },
        }
    }

    /// Records that the node could not serve the pending call: the
    /// run aborts at once with `RpcError`; no retry is made and no
    /// further call is issued.
    pub fn fail_rpc(&mut self) -> (e: SwapError)
        ensures
            e == SwapError::RpcError,
            final(self).stage is Failed,
            final(self).sender@ == old(self).sender@,
            final(self).token@ == old(self).token@,
            final(self).router@ == old(self).router@,
    {
        self.stage = Stage::Failed;
        SwapError::RpcError
    }
}

/// Interprets the outcome of the signing-and-broadcast step: a
/// missing transaction hash means signing failed or the broadcast was
/// rejected, a `SubmissionError`; otherwise the hash is the only
/// success signal the run reports.
pub fn interpret_submission(outcome: Option<Vec<u8>>) -> (r: Result<Vec<u8>, SwapError>)
    ensures
        outcome matches Some(h) ==> (r matches Ok(v) && v@ == h@),
        outcome is None ==> r == Result::<Vec<u8>, SwapError>::Err(SwapError::SubmissionError),
{
    match outcome {
        Some(h) => Ok(h),
        None => Err(SwapError::SubmissionError),
    }
}

/// The whole-unit part of a raw balance read in the token's own
/// decimals: the balance divided by `10^decimals`, for display.
/// Tokens reporting more than 38 decimals are not scaled (the weight
/// would exceed the supported range).
pub fn scaled_balance(balance: &Uint256, decimals: u8) -> (r: Option<Uint256>)
    requires
        balance.wf(),
    ensures
        decimals <= 38 ==> (r matches Some(v) && v.wf() && v.value() == balance.value() / pow10(
            decimals as nat,
        )),
        decimals > 38 ==> r is None,
{
    if decimals > 38 {
        return None;
    }
    if decimals <= 19 {
        let d = pow10_u64(decimals as u32);
        proof {
            crate::amount::lemma_pow10_pos(decimals as nat);
        }
        Some(balance.div_u64(d))
    } else {
        let d1 = pow10_u64(19);
        let d2 = pow10_u64((decimals - 19) as u32);
        proof {
            crate::amount::lemma_pow10_pos(19);
            crate::amount::lemma_pow10_pos((decimals - 19) as nat);
        }
        let q1 = balance.div_u64(d1);
        let q2 = q1.div_u64(d2);
        proof {
            vstd::arithmetic::div_mod::lemma_div_denominator(
                balance.value() as int,
                d1 as int,
                d2 as int,
            );
            crate::amount::lemma_pow10_add(19, (decimals - 19) as nat);
        }
        Some(q2)
    }
}

/// The exact power of ten, for exponents that fit 64 bits.
pub fn pow10_u64(n: u32) -> (r: u64)
    requires
        n <= 19,
    ensures
        r as nat == pow10(n as nat),
{
    proof {
        lemma_pow10_19();
    }
    let mut r: u64 = 1;
    let mut i: u32 = 0;
    while i < n
        invariant
            i <= n <= 19,
            r as nat == pow10(i as nat),
        decreases n - i,
    {
        proof {
            crate::amount::lemma_pow10_mono((i + 1) as nat, 19);
            lemma_pow10_19();
            assert(pow10((i + 1) as nat) == 10 * pow10(i as nat));
        }
        r = r * 10;
        i = i + 1;
    }
    r
}

/// The largest power of ten a 64-bit integer holds.
proof fn lemma_pow10_19()
    ensures
        pow10(19) == 10000000000000000000nat,
{
    reveal_with_fuel(pow10, 20);
}

} // verus!
