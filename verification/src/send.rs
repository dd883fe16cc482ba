//! Argument handling of the send command.
//!
//! The command takes a destination address, a required non-zero
//! amount, and an optional priority fee. Turning the raw argument
//! list into a validated request is decided here; asking for secrets,
//! address decoding and the wallet call itself are runtime plumbing
//! around it.

use vstd::prelude::*;
use vstd::utf8::encode_utf8;
use crate::wallet::{trimmed_chars, try_vecno_str_to_veni, veni_valid, veni_value, AmountError};

verus! {

/// Sends funds to a public address.
#[derive(Debug, Clone, Copy, PartialEq, Eq, Structural)]
pub struct Send;

/// A validated send request, ready for the wallet.
#[derive(Debug, Clone)]
pub struct SendRequest {
    pub address: String,
    pub amount_veni: u64,
    pub priority_fee_veni: u64,
}

/// Why an argument list was rejected.
#[derive(Debug, Clone, Copy, PartialEq, Eq, Structural)]
pub enum SendArgsError {
    /// Fewer than two arguments: show usage.
    Usage,
    /// The amount argument is blank.
    MissingAmount,
    /// The amount parses to zero.
    ZeroAmount,
    /// The amount does not parse: carries the cause.
    InvalidAmount(AmountError),
    /// The priority fee does not parse: carries the cause.
    InvalidFee(AmountError),
}

impl Send {
    /// Validates the argument list: address first, then a required
    /// non-zero amount, then an optional priority fee that defaults
    /// to zero when absent or blank.
    pub fn parse_args(&self, argv: &Vec<String>) -> (r: Result<SendRequest, SendArgsError>)
        ensures
            ({
                let n = argv@.len();
                if n < 2 {
                    r == Err::<SendRequest, SendArgsError>(SendArgsError::Usage)
                } else {
                    let amount = trimmed_chars(argv@[1]@);
                    let at = encode_utf8(amount);
                    let fee_blank = n < 3 || trimmed_chars(argv@[2]@).len() == 0;
                    match r {
                        Ok(req) => {
                            &&& req.address@ == argv@[0]@
                            &&& amount.len() > 0
                            &&& veni_valid(at)
                            &&& req.amount_veni as int == veni_value(at)
                            &&& req.amount_veni != 0
                            &&& if fee_blank {
                                req.priority_fee_veni == 0
                            } else {
                                let ft = encode_utf8(trimmed_chars(argv@[2]@));
                                &&& veni_valid(ft)
                                &&& req.priority_fee_veni as int == veni_value(ft)
                            }
                        },
                        Err(SendArgsError::Usage) => false,
                        Err(SendArgsError::MissingAmount) => amount.len() == 0,
                        Err(SendArgsError::ZeroAmount) => amount.len() > 0 && veni_valid(at)
                            && veni_value(at) == 0,
                        Err(SendArgsError::InvalidAmount(e)) => amount.len() > 0 && (match e {
                            AmountError::InvalidAmount => !veni_valid(at),
                            AmountError::AmountTooLarge => veni_valid(at) && veni_value(at)
                                > u64::MAX,
                        }),
                        Err(SendArgsError::InvalidFee(e)) => {
                            &&& amount.len() > 0
                            &&& veni_valid(at)
                            &&& veni_value(at) != 0
                            &&& veni_value(at) <= u64::MAX
                            &&& !fee_blank
                            &&& ({
                                let ft = encode_utf8(trimmed_chars(argv@[2]@));
                                match e {
                                    AmountError::InvalidAmount => !veni_valid(ft),
                                    AmountError::AmountTooLarge => veni_valid(ft) && veni_value(ft)
                                        > u64::MAX,
                                }
                            })
                        },
                    }
                }
            }),
    {
        if argv.len() < 2 {
            return Err(SendArgsError::Usage);
        }
        let address = argv[0].clone();
        let amount_veni = match try_vecno_str_to_veni(argv[1].as_str()) {
            Ok(Some(v)) => {
                if v == 0 {
                    return Err(SendArgsError::ZeroAmount);
                }
                v
            },
            Ok(None) => {
                return Err(SendArgsError::MissingAmount);
            },
            Err(e) => {
                return Err(SendArgsError::InvalidAmount(e));
            },
        };
        let priority_fee_veni = if argv.len() < 3 {
            0
        } else {
            match try_vecno_str_to_veni(argv[2].as_str()) {
                Ok(Some(v)) => v,
                Ok(None) => 0,
                Err(e) => {
                    return Err(SendArgsError::InvalidFee(e));
                },
            }
        };
        Ok(SendRequest { address, amount_veni, priority_fee_veni })
    }
}

} // verus!
