//! The bridge's automated market maker: constant-product quotes and
//! executions with a retained fee.
//!
//! Outputs are computed against the pool product with the division rounded
//! up, so the product of the reserves never decreases over any sequence of
//! trades.
use vstd::prelude::*;

use crate::du::PPM;
use crate::encoding::{push_i64_le, spec_i64_le};
use crate::hexcode::{hex_encode, hex_of};

verus! {

/// The pool fee in parts per million: 0.1%.
pub const FEE_PPM: i64 = 1000;

/// The input that remains after the fee is taken.
pub open spec fn spec_after_fee(x: int, fee_ppm: int) -> int {
    x * (PPM - fee_ppm) / (PPM as int)
}

/// The fee taken from an input.
pub open spec fn spec_fee_amount(x: int, fee_ppm: int) -> int {
    x * fee_ppm / (PPM as int)
}

/// Division rounded up, for a positive divisor.
pub open spec fn spec_ceil_div(a: int, b: int) -> int {
    (a + b - 1) / b
}

/// Rounding the quotient up keeps the product at or above the dividend:
/// this is why the pool product never decreases across a trade.
pub proof fn lemma_ceil_product(a: int, b: int)
    requires
        a >= 0,
        b > 0,
    ensures
        b * spec_ceil_div(a, b) >= a,
        spec_ceil_div(a, b) >= 0,
{
    assert(b * ((a + b - 1) / b) >= a && (a + b - 1) / b >= 0) by (nonlinear_arith)
        requires
            a >= 0,
            b > 0;
}

/// The output of a constant-product trade: what leaves the outbound reserve
/// when the fee-reduced input joins the inbound one.
pub open spec fn spec_quote_output(in_res: int, out_res: int, k: int, x: int, fee_ppm: int) -> int {
    let new_in = in_res + spec_after_fee(x, fee_ppm);
    if new_in <= 0 {
        0
    } else {
        out_res - spec_ceil_div(k, new_in)
    }
}

/// Whether a trade of `x` can be quoted: a positive input, an inbound
/// reserve that still fits the machine word, and a positive output.
pub open spec fn spec_quote_ok(in_res: int, out_res: int, k: int, x: int, fee_ppm: int) -> bool {
    &&& x > 0
    &&& in_res + spec_after_fee(x, fee_ppm) <= i64::MAX
    &&& in_res + spec_after_fee(x, fee_ppm) > 0
    &&& spec_quote_output(in_res, out_res, k, x, fee_ppm) > 0
}

/// The exchange rate of a quote, output per unit of input, in millionths,
/// saturating at the largest machine value.
pub open spec fn spec_rate(input: int, output: int) -> int {
    let r = output * PPM / input;
    if r > i64::MAX {
        i64::MAX as int
    } else {
        r
    }
}

/// A priced trade.
#[derive(Clone, Copy, Debug, PartialEq, Eq, Structural)]
pub struct Quote {
    /// The amount paid in, in micro-units.
    pub input: i64,
    /// The amount paid out, in micro-units.
    pub output: i64,
    /// The fee taken from the input, in micro-units.
    pub fee: i64,
    /// Output per unit of input, in millionths.
    pub rate: i64,
}

/// The direction of a trade.
#[derive(Clone, Copy, Debug, PartialEq, Eq, Structural)]
pub enum ExchangeDirection {
    /// Mahala paid in, June paid out.
    MahalaToJune,
    /// June paid in, Mahala paid out.
    JuneToMahala,
}

/// A trade request as the bridge receives it.
#[derive(Clone, Debug)]
pub struct ExchangeRequest {
    /// The direction of the trade.
    pub direction: ExchangeDirection,
    /// The amount paid in, in micro-units.
    pub amount: i64,
    /// The wallet that pays and receives.
    pub wallet_address: String,
}

/// The outcome of an executed trade.
#[derive(Clone, Debug)]
pub struct ExchangeResult {
    /// Identifier of the trade.
    pub tx_hash: String,
    /// The amount paid out, in micro-units.
    pub amount_received: i64,
    /// The fee taken, in micro-units.
    pub fee: i64,
}

/// The errors of quoting and executing.
#[derive(Clone, Copy, Debug, PartialEq, Eq, Structural)]
pub enum MarketMakerError {
    /// The pool cannot pay the requested output.
    InsufficientReserves,
    /// The input is too small to trade.
    AmountTooSmall,
    /// The trade would move the price too far.
    SlippageTooHigh,
}

/// The constant-product pool.
pub struct MarketMaker {
    june_reserve: i64,
    mahala_reserve: i64,
    k: u128,
    fee_ppm: i64,
}

impl MarketMaker {
    /// The June reserve.
    pub closed spec fn spec_june(self) -> int {
        self.june_reserve as int
    }

    /// The Mahala reserve.
    pub closed spec fn spec_mahala(self) -> int {
        self.mahala_reserve as int
    }

    /// The pool product.
    pub closed spec fn spec_k(self) -> int {
        self.k as int
    }

    /// The fee in parts per million.
    pub closed spec fn spec_fee_ppm(self) -> int {
        self.fee_ppm as int
    }

    /// The pool is well formed: non-negative reserves whose product is the
    /// recorded constant, and a fee below one whole.
    pub open spec fn wf(self) -> bool {
        &&& self.spec_june() >= 0
        &&& self.spec_mahala() >= 0
        &&& self.spec_k() == self.spec_june() * self.spec_mahala()
        &&& 0 <= self.spec_fee_ppm() < PPM
    }

    /// Creates the pool over the given starting reserves, at the standard
    /// fee.
    pub fn new(june_reserve: i64, mahala_reserve: i64) -> (r: Self)
        requires
            june_reserve >= 0,
            mahala_reserve >= 0,
        ensures
            r.wf(),
            r.spec_june() == june_reserve,
            r.spec_mahala() == mahala_reserve,
            r.spec_k() == june_reserve * mahala_reserve,
            r.spec_fee_ppm() == FEE_PPM,
    {
        proof {
            assert((june_reserve as int) * (mahala_reserve as int) <= (i64::MAX as int) * (
            i64::MAX as int)) by (nonlinear_arith)
                requires
                    0 <= june_reserve <= i64::MAX,
                    0 <= mahala_reserve <= i64::MAX;
            assert((june_reserve as int) * (mahala_reserve as int) >= 0) by (nonlinear_arith)
                requires
                    0 <= june_reserve,
                    0 <= mahala_reserve;
        }
        let k: u128 = (june_reserve as u128) * (mahala_reserve as u128);
        MarketMaker { june_reserve, mahala_reserve, k, fee_ppm: FEE_PPM }
    }

    /// Computes the fee-reduced input, the fee, and the output of a trade
    /// into the given reserves; errors exactly as the quote rules say.
    fn quote_into(&self, in_res: i64, out_res: i64, x: i64) -> (r: Result<Quote, MarketMakerError>)
        requires
            self.wf(),
            in_res >= 0,
            out_res >= 0,
        ensures
            r is Ok <==> spec_quote_ok(in_res as int, out_res as int, self.spec_k(), x as int,
                self.spec_fee_ppm()),
            r == Err::<Quote, MarketMakerError>(MarketMakerError::AmountTooSmall) <==> x <= 0,
            r matches Ok(q) ==> {
                &&& q.input == x
                &&& q.output == spec_quote_output(in_res as int, out_res as int, self.spec_k(),
                    x as int, self.spec_fee_ppm())
                &&& q.fee == spec_fee_amount(x as int, self.spec_fee_ppm())
                &&& q.rate == spec_rate(x as int, q.output as int)
            },
    {
        if x <= 0 {
            return Err(MarketMakerError::AmountTooSmall);
        }
        proof {
            assert((x as int) * (PPM - self.spec_fee_ppm()) >= 0) by (nonlinear_arith)
                requires
                    x > 0,
                    0 <= self.spec_fee_ppm() < PPM;
            assert((x as int) * (PPM - self.spec_fee_ppm()) <= (i64::MAX as int) * (PPM as int))
                by (nonlinear_arith)
                requires
                    0 < x <= i64::MAX,
                    0 <= self.spec_fee_ppm() < PPM;
            assert((x as int) * (PPM - self.spec_fee_ppm()) / (PPM as int) <= x)
                by (nonlinear_arith)
                requires
                    x > 0,
                    0 <= self.spec_fee_ppm() < PPM;
            assert((x as int) * (self.spec_fee_ppm() as int) >= 0) by (nonlinear_arith)
                requires
                    x > 0,
                    0 <= self.spec_fee_ppm();
            assert((x as int) * (self.spec_fee_ppm() as int) <= (i64::MAX as int) * (PPM as int))
                by (nonlinear_arith)
                requires
                    0 < x <= i64::MAX,
                    0 <= self.spec_fee_ppm() < PPM;
            assert((x as int) * (self.spec_fee_ppm() as int) / (PPM as int) <= x)
                by (nonlinear_arith)
                requires
                    x > 0,
                    0 <= self.spec_fee_ppm() < PPM;
        }
        let after_fee: i64 = (((x as i128) * ((PPM - self.fee_ppm) as i128)) / (PPM as i128))
            as i64;
        let fee_amount: i64 = (((x as i128) * (self.fee_ppm as i128)) / (PPM as i128)) as i64;
        let new_in: i128 = (in_res as i128) + (after_fee as i128);
        if new_in > i64::MAX as i128 {
            return Err(MarketMakerError::InsufficientReserves);
        }
        if new_in <= 0 {
            return Err(MarketMakerError::InsufficientReserves);
        }
        proof {
            assert(self.spec_k() <= (i64::MAX as int) * (i64::MAX as int)) by (nonlinear_arith)
                requires
                    self.spec_k() == self.spec_june() * self.spec_mahala(),
                    0 <= self.spec_june() <= i64::MAX,
                    0 <= self.spec_mahala() <= i64::MAX;
        }
        let new_out: u128 = (self.k + (new_in as u128) - 1) / (new_in as u128);
        proof {
            lemma_ceil_product(self.spec_k(), new_in as int);
            assert(new_out == spec_ceil_div(self.spec_k(), new_in as int));
            assert((self.spec_k() + new_in - 1) / (new_in as int) <= self.spec_k())
                by (nonlinear_arith)
                requires
                    new_in >= 1,
                    self.spec_k() >= 0;
        }
        let output: i128 = (out_res as i128) - (new_out as i128);
        if output <= 0 {
            return Err(MarketMakerError::InsufficientReserves);
        }
        let output64: i64 = output as i64;
        proof {
            assert((output64 as int) * (PPM as int) >= 0) by (nonlinear_arith)
                requires
                    output64 > 0;
            assert((output64 as int) * (PPM as int) <= (i64::MAX as int) * (PPM as int))
                by (nonlinear_arith)
                requires
                    0 < output64 <= i64::MAX;
            assert((output64 as int) * (PPM as int) / (x as int) >= 0) by (nonlinear_arith)
                requires
                    output64 > 0,
                    x > 0,
                    (output64 as int) * (PPM as int) >= 0;
        }
        let rate_wide: i128 = ((output64 as i128) * (PPM as i128)) / (x as i128);
        let rate: i64 = if rate_wide > i64::MAX as i128 {
            i64::MAX
        } else {
            rate_wide as i64
        };
        Ok(Quote { input: x, output: output64, fee: fee_amount, rate })
    }

    /// Prices a trade of Mahala for June.
    pub fn quote_mahala_to_june(&self, mahala_input: i64) -> (r: Result<Quote, MarketMakerError>)
        requires
            self.wf(),
        ensures
            r is Ok <==> spec_quote_ok(self.spec_mahala(), self.spec_june(), self.spec_k(),
                mahala_input as int, self.spec_fee_ppm()),
            r == Err::<Quote, MarketMakerError>(MarketMakerError::AmountTooSmall) <==> mahala_input
                <= 0,
            r matches Ok(q) ==> {
                &&& q.input == mahala_input
                &&& q.output == spec_quote_output(self.spec_mahala(), self.spec_june(),
                    self.spec_k(), mahala_input as int, self.spec_fee_ppm())
                &&& q.fee == spec_fee_amount(mahala_input as int, self.spec_fee_ppm())
                &&& q.rate == spec_rate(mahala_input as int, q.output as int)
            },
    {
        self.quote_into(self.mahala_reserve, self.june_reserve, mahala_input)
    }

    /// Prices a trade of June for Mahala.
    pub fn quote_june_to_mahala(&self, june_input: i64) -> (r: Result<Quote, MarketMakerError>)
        requires
            self.wf(),
        ensures
            r is Ok <==> spec_quote_ok(self.spec_june(), self.spec_mahala(), self.spec_k(),
                june_input as int, self.spec_fee_ppm()),
            r == Err::<Quote, MarketMakerError>(MarketMakerError::AmountTooSmall) <==> june_input
                <= 0,
            r matches Ok(q) ==> {
                &&& q.input == june_input
                &&& q.output == spec_quote_output(self.spec_june(), self.spec_mahala(),
                    self.spec_k(), june_input as int, self.spec_fee_ppm())
                &&& q.fee == spec_fee_amount(june_input as int, self.spec_fee_ppm())
                &&& q.rate == spec_rate(june_input as int, q.output as int)
            },
    {
        self.quote_into(self.june_reserve, self.mahala_reserve, june_input)
    }

    /// Executes a trade: quotes it, moves the fee-reduced input into the
    /// inbound reserve, removes the output from the outbound reserve, and
    /// recomputes the pool product, which never decreases.
    pub fn execute_exchange(&mut self, direction: ExchangeDirection, amount: i64) -> (r: Result<
        ExchangeResult,
        MarketMakerError,
    >)
        requires
            old(self).wf(),
        ensures
            final(self).wf(),
            final(self).spec_fee_ppm() == old(self).spec_fee_ppm(),
            r is Err ==> *final(self) == *old(self),
            r is Ok ==> final(self).spec_k() >= old(self).spec_k(),
            r is Ok <==> ({
                let (in_res, out_res) = match direction {
                    ExchangeDirection::MahalaToJune => (old(self).spec_mahala(), old(
                        self,
                    ).spec_june()),
                    ExchangeDirection::JuneToMahala => (old(self).spec_june(), old(
                        self,
                    ).spec_mahala()),
                };
                spec_quote_ok(in_res, out_res, old(self).spec_k(), amount as int, old(
                    self,
                ).spec_fee_ppm())
            }),
            r matches Ok(res) ==> ({
                let (in_res, out_res) = match direction {
                    ExchangeDirection::MahalaToJune => (old(self).spec_mahala(), old(
                        self,
                    ).spec_june()),
                    ExchangeDirection::JuneToMahala => (old(self).spec_june(), old(
                        self,
                    ).spec_mahala()),
                };
                let xp = spec_after_fee(amount as int, old(self).spec_fee_ppm());
                let out = spec_quote_output(in_res, out_res, old(self).spec_k(), amount as int,
                    old(self).spec_fee_ppm());
                &&& res.amount_received == out
                &&& res.fee == spec_fee_amount(amount as int, old(self).spec_fee_ppm())
                &&& (match direction {
                    ExchangeDirection::MahalaToJune => final(self).spec_mahala() == in_res + xp
                        && final(self).spec_june() == out_res - out,
                    ExchangeDirection::JuneToMahala => final(self).spec_june() == in_res + xp
                        && final(self).spec_mahala() == out_res - out,
                })
                &&& final(self).spec_k() == final(self).spec_june() * final(self).spec_mahala()
                &&& res.tx_hash@ == seq!['0', 'x'] + hex_of(
                    seq![spec_direction_byte(direction)] + spec_i64_le(amount),
                )
            }),
    {
        let quote = match direction {
            ExchangeDirection::MahalaToJune => self.quote_mahala_to_june(amount),
            ExchangeDirection::JuneToMahala => self.quote_june_to_mahala(amount),
        };
        let quote = match quote {
            Ok(q) => q,
            Err(e) => {
                return Err(e);
            },
        };
        let after_fee: i64 = (((amount as i128) * ((PPM - self.fee_ppm) as i128)) / (PPM as i128))
            as i64;
        proof {
            assert((amount as int) * (PPM - self.spec_fee_ppm()) >= 0) by (nonlinear_arith)
                requires
                    amount > 0,
                    0 <= self.spec_fee_ppm() < PPM;
            assert((amount as int) * (PPM - self.spec_fee_ppm()) / (PPM as int) <= amount)
                by (nonlinear_arith)
                requires
                    amount > 0,
                    0 <= self.spec_fee_ppm() < PPM;
            assert((amount as int) * (PPM - self.spec_fee_ppm()) <= (i64::MAX as int) * (
            PPM as int)) by (nonlinear_arith)
                requires
                    0 < amount <= i64::MAX,
                    0 <= self.spec_fee_ppm() < PPM;
        }
        match direction {
            ExchangeDirection::MahalaToJune => {
                self.mahala_reserve = self.mahala_reserve + after_fee;
                self.june_reserve = self.june_reserve - quote.output;
            },
            ExchangeDirection::JuneToMahala => {
                self.june_reserve = self.june_reserve + after_fee;
                self.mahala_reserve = self.mahala_reserve - quote.output;
            },
        }
        proof {
            let j = self.june_reserve as int;
            let m = self.mahala_reserve as int;
            assert(j >= 0);
            assert(m >= 0);
            assert(j * m <= (i64::MAX as int) * (i64::MAX as int) && j * m >= 0)
                by (nonlinear_arith)
                requires
                    0 <= j <= i64::MAX,
                    0 <= m <= i64::MAX;
        }
        self.k = (self.june_reserve as u128) * (self.mahala_reserve as u128);
        proof {
            // The outbound reserve was set to the rounded-up quotient, so
            // the new product covers the old one.
            let new_in = match direction {
                ExchangeDirection::MahalaToJune => self.spec_mahala(),
                ExchangeDirection::JuneToMahala => self.spec_june(),
            };
            let new_out = match direction {
                ExchangeDirection::MahalaToJune => self.spec_june(),
                ExchangeDirection::JuneToMahala => self.spec_mahala(),
            };
            assert(new_out == spec_ceil_div(old(self).spec_k(), new_in));
            lemma_ceil_product(old(self).spec_k(), new_in);
            assert(new_in * new_out == new_out * new_in) by (nonlinear_arith);
            assert(self.spec_k() >= old(self).spec_k());
        }
        let mut id_bytes: Vec<u8> = Vec::new();
        let dir_byte: u8 = match direction {
            ExchangeDirection::MahalaToJune => 0,
            ExchangeDirection::JuneToMahala => 1,
        };
        id_bytes.push(dir_byte);
        push_i64_le(&mut id_bytes, amount);
        proof {
            assert(id_bytes@ =~= seq![spec_direction_byte(direction)] + spec_i64_le(amount));
        }
        let hex = hex_encode(id_bytes.as_slice());
        let mut tx_hash = new_strlit_prefix();
        tx_hash.append(hex.as_str());
        proof {
            assert(tx_hash@ =~= seq!['0', 'x'] + hex_of(
                seq![spec_direction_byte(direction)] + spec_i64_le(amount),
            ));
        }
        Ok(ExchangeResult { tx_hash, amount_received: quote.output, fee: quote.fee })
    }

    /// The pool's observable numbers.
    pub fn get_stats(&self) -> (r: MarketMakerStats)
        ensures
            r.june_reserve == self.spec_june(),
            r.mahala_reserve == self.spec_mahala(),
            r.total_liquidity == self.spec_k(),
            r.fee_ppm == self.spec_fee_ppm(),
    {
        MarketMakerStats {
            june_reserve: self.june_reserve,
            mahala_reserve: self.mahala_reserve,
            total_liquidity: self.k,
            fee_ppm: self.fee_ppm,
        }
    }
}

/// The byte that identifies a trade direction in a trade identifier.
pub open spec fn spec_direction_byte(d: ExchangeDirection) -> u8 {
    match d {
        ExchangeDirection::MahalaToJune => 0,
        ExchangeDirection::JuneToMahala => 1,
    }
}

/// The trade-identifier prefix.
fn new_strlit_prefix() -> (r: String)
    ensures
        r@ == seq!['0', 'x'],
{
    let s: String = "0x".to_owned();
    proof {
        reveal_strlit("0x");
        assert(s@ =~= seq!['0', 'x']);
    }
    s
}

/// The pool's observable numbers.
#[derive(Clone, Copy, Debug)]
pub struct MarketMakerStats {
    /// The June reserve, in micro-units.
    pub june_reserve: i64,
    /// The Mahala reserve, in micro-units.
    pub mahala_reserve: i64,
    /// The pool product.
    pub total_liquidity: u128,
    /// The fee, in parts per million.
    pub fee_ppm: i64,
}

} // verus!
