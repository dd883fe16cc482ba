use vecnod_core::network::NetworkType;
use vecnod_core::send::{Send, SendArgsError};
use vecnod_core::wallet::{
    str_to_veni, try_vecno_str_to_veni, vecno_suffix, AmountError, VENI_PER_VECNO,
};

#[test]
fn whole_coins_scale_to_base_units() {
    assert_eq!(str_to_veni("0").unwrap(), 0);
    assert_eq!(str_to_veni("1").unwrap(), VENI_PER_VECNO);
    assert_eq!(str_to_veni("21").unwrap(), 21 * VENI_PER_VECNO);
}

#[test]
fn decimals_scale_by_remaining_places() {
    assert_eq!(str_to_veni("1.23").unwrap(), 123_000_000);
    assert_eq!(str_to_veni("0.00000001").unwrap(), 1);
    assert_eq!(str_to_veni("2.").unwrap(), 2 * VENI_PER_VECNO);
    assert_eq!(str_to_veni("0.5").unwrap(), 50_000_000);
}

#[test]
fn digits_past_the_eighth_place_are_ignored() {
    assert_eq!(str_to_veni("1.123456789").unwrap(), 112_345_678);
}

#[test]
fn malformed_amounts_are_rejected() {
    assert_eq!(str_to_veni("").unwrap_err(), AmountError::InvalidAmount);
    assert_eq!(str_to_veni("abc").unwrap_err(), AmountError::InvalidAmount);
    assert_eq!(str_to_veni(".5").unwrap_err(), AmountError::InvalidAmount);
    assert_eq!(str_to_veni("1.2.3").unwrap_err(), AmountError::InvalidAmount);
    assert_eq!(str_to_veni("1.2x").unwrap_err(), AmountError::InvalidAmount);
    assert_eq!(str_to_veni("-1").unwrap_err(), AmountError::InvalidAmount);
}

#[test]
fn amounts_beyond_the_scalar_are_too_large() {
    assert_eq!(
        str_to_veni("999999999999999999999").unwrap_err(),
        AmountError::AmountTooLarge
    );
    // the largest representable amount still parses
    assert_eq!(str_to_veni("184467440737.09551615").unwrap(), u64::MAX);
    assert_eq!(
        str_to_veni("184467440737.09551616").unwrap_err(),
        AmountError::AmountTooLarge
    );
}

#[test]
fn optional_amounts_trim_whitespace_and_allow_blank() {
    assert_eq!(try_vecno_str_to_veni("").unwrap(), None);
    assert_eq!(try_vecno_str_to_veni("   ").unwrap(), None);
    assert_eq!(try_vecno_str_to_veni(" 1.5 ").unwrap(), Some(150_000_000));
    assert_eq!(
        try_vecno_str_to_veni(" x ").unwrap_err(),
        AmountError::InvalidAmount
    );
}

#[test]
fn optional_amounts_trim_all_unicode_whitespace() {
    // a whitespace-only string is "no amount", never an error
    assert_eq!(try_vecno_str_to_veni("\u{000B}").unwrap(), None);
    assert_eq!(try_vecno_str_to_veni("\u{000C} \u{00A0}\u{2003}").unwrap(), None);
    // non-ASCII whitespace around an amount is dropped, as str::trim does
    assert_eq!(
        try_vecno_str_to_veni("\u{00A0}1.5\u{3000}").unwrap(),
        Some(150_000_000)
    );
    // whitespace inside the amount still fails the parse
    assert_eq!(
        try_vecno_str_to_veni("1 5").unwrap_err(),
        AmountError::InvalidAmount
    );
}

#[test]
fn suffix_names_each_network() {
    assert_eq!(vecno_suffix(&NetworkType::Mainnet), "VE");
    assert_eq!(vecno_suffix(&NetworkType::Testnet), "TVE");
    assert_eq!(vecno_suffix(&NetworkType::Simnet), "SVE");
}

#[test]
fn send_args_parse_address_amount_and_fee() {
    let cmd = Send;
    let argv = vec!["vecno:qq0".to_string(), "1.5".to_string(), "0.0001".to_string()];
    let req = cmd.parse_args(&argv).unwrap();
    assert_eq!(req.address, "vecno:qq0");
    assert_eq!(req.amount_veni, 150_000_000);
    assert_eq!(req.priority_fee_veni, 10_000);
}

#[test]
fn send_args_errors() {
    let cmd = Send;
    assert_eq!(
        cmd.parse_args(&vec!["a".to_string()]).unwrap_err(),
        SendArgsError::Usage
    );
    assert_eq!(
        cmd.parse_args(&vec!["a".to_string(), " ".to_string()]).unwrap_err(),
        SendArgsError::MissingAmount
    );
    assert_eq!(
        cmd.parse_args(&vec!["a".to_string(), "0.0".to_string()]).unwrap_err(),
        SendArgsError::ZeroAmount
    );
    assert_eq!(
        cmd.parse_args(&vec!["a".to_string(), "nope".to_string()]).unwrap_err(),
        SendArgsError::InvalidAmount(AmountError::InvalidAmount)
    );
    assert_eq!(
        cmd.parse_args(&vec!["a".to_string(), "1".to_string(), "fee".to_string()])
            .unwrap_err(),
        SendArgsError::InvalidFee(AmountError::InvalidAmount)
    );
    // a blank fee argument defaults to zero
    let req = cmd
        .parse_args(&vec!["a".to_string(), "1".to_string(), " ".to_string()])
        .unwrap();
    assert_eq!(req.priority_fee_veni, 0);
}
