use swap_client::address::Address;
use swap_client::amount::parse_chain_id;
use swap_client::amount::scale_amount;
use swap_client::errors::SwapError;
use swap_client::flow::decode_decimals;
use swap_client::flow::interpret_submission;
use swap_client::flow::scaled_balance;
use swap_client::flow::Session;
use swap_client::swap::compute_deadline;
use swap_client::uint256::Uint256;

fn addr(byte: u8) -> Address {
    Address::from_bytes(&vec![byte; 20]).unwrap()
}

fn uint_word(tail: &[u8]) -> Vec<u8> {
    let mut w = vec![0u8; 32 - tail.len()];
    w.extend(tail.to_vec());
    w
}

fn string_response(text: &str) -> Vec<u8> {
    let mut data = uint_word(&[text.len() as u8]);
    data.extend(text.as_bytes().to_vec());
    while data.len() % 32 != 0 {
        data.push(0);
    }
    data
}

#[test]
fn amount_one_point_five_scales_to_wei() {
    assert_eq!(scale_amount("1.5", 18), Ok(1500000000000000000u128));
}

#[test]
fn amount_integer_and_fraction_forms() {
    assert_eq!(scale_amount("2", 18), Ok(2000000000000000000u128));
    assert_eq!(scale_amount(".5", 18), Ok(500000000000000000u128));
    assert_eq!(scale_amount("3.", 18), Ok(3000000000000000000u128));
    assert_eq!(scale_amount("0.000000000000000001", 18), Ok(1u128));
}

#[test]
fn amount_extra_fraction_digits_truncate() {
    assert_eq!(scale_amount("1.23", 1), Ok(12u128));
}

#[test]
fn amount_malformed_is_parse_error() {
    assert_eq!(scale_amount("", 18), Err(SwapError::ParseError));
    assert_eq!(scale_amount(".", 18), Err(SwapError::ParseError));
    assert_eq!(scale_amount("1.2.3", 18), Err(SwapError::ParseError));
    assert_eq!(scale_amount("12a", 18), Err(SwapError::ParseError));
    assert_eq!(scale_amount("-1", 18), Err(SwapError::ParseError));
}

#[test]
fn amount_too_large_is_parse_error() {
    assert_eq!(
        scale_amount("340282366920938463463374607431768211456", 0),
        Err(SwapError::ParseError)
    );
}

#[test]
fn chain_id_parses() {
    assert_eq!(parse_chain_id("56"), Ok(56u64));
    assert_eq!(parse_chain_id("1"), Ok(1u64));
}

#[test]
fn chain_id_malformed_is_parse_error() {
    assert_eq!(parse_chain_id(""), Err(SwapError::ParseError));
    assert_eq!(parse_chain_id("12x"), Err(SwapError::ParseError));
    assert_eq!(parse_chain_id("99999999999999999999999"), Err(SwapError::ParseError));
}

#[test]
fn address_parses_and_round_trips() {
    let text = "0x00112233445566778899aabbccddeeff00112233";
    let a = Address::parse(text).unwrap();
    assert_eq!(a.to_hex_string(), text);
    assert_eq!(
        a.to_bytes(),
        vec![
            0x00, 0x11, 0x22, 0x33, 0x44, 0x55, 0x66, 0x77, 0x88, 0x99, 0xaa, 0xbb, 0xcc, 0xdd,
            0xee, 0xff, 0x00, 0x11, 0x22, 0x33
        ]
    );
}

#[test]
fn address_malformed_is_parse_error() {
    assert!(Address::parse("0x1234").is_err());
    assert!(Address::parse("00112233445566778899aabbccddeeff0011223344").is_err());
    assert!(Address::parse("0xzz112233445566778899aabbccddeeff00112233").is_err());
}

#[test]
fn decimals_empty_response_defaults_to_eighteen() {
    assert_eq!(decode_decimals(&Vec::new()), 18);
}

#[test]
fn decimals_last_byte_of_word() {
    assert_eq!(decode_decimals(&uint_word(&[6])), 6);
}

#[test]
fn missing_decimals_scales_with_eighteen() {
    // A token that omits `decimals()`: the effective decimals are 18,
    // so a raw balance of 3 * 10^18 reads as 3 whole units.
    let effective = decode_decimals(&Vec::new());
    let raw = Uint256::from_u128(3000000000000000000u128);
    let shown = scaled_balance(&raw, effective).unwrap();
    assert!(shown.equals(&Uint256::from_u64(3)));
}

#[test]
fn balance_scaling_truncates() {
    let raw = Uint256::from_u128(7123456789012345678u128);
    let shown = scaled_balance(&raw, 18).unwrap();
    assert!(shown.equals(&Uint256::from_u64(7)));
}

#[test]
fn balance_scaling_high_decimals() {
    // 25 decimals: two-step division.
    let raw = Uint256::from_u128(40000000000000000000000000u128);
    let shown = scaled_balance(&raw, 25).unwrap();
    assert!(shown.equals(&Uint256::from_u64(4)));
    assert!(scaled_balance(&raw, 39).is_none());
}

#[test]
fn deadline_window() {
    assert_eq!(compute_deadline(1700000000), 1701000000);
}

#[test]
fn short_weth_response_aborts_without_further_calls() {
    let mut sess = Session::new(addr(0x01), addr(0x02), addr(0x03));
    let (target, calldata) = sess.next_request().unwrap();
    assert!(target.equals(&addr(0x03)));
    assert_eq!(calldata, vec![0x4a, 0xa4, 0xa4, 0xfc]);
    let r = sess.absorb_response(&vec![0u8; 31]);
    assert_eq!(r, Err(SwapError::InvalidResponse));
    // The aborted session never asks for another call.
    assert!(sess.next_request().is_none());
}

#[test]
fn session_happy_path() {
    let sender = addr(0x01);
    let token = addr(0x02);
    let router = addr(0x03);
    let mut sess = Session::new(sender, token, router);

    // WETH9 lookup against the router.
    let (target, _data) = sess.next_request().unwrap();
    assert!(target.equals(&addr(0x03)));
    let mut weth_word = vec![0u8; 12];
    weth_word.extend(vec![0xaa; 20]);
    assert_eq!(sess.absorb_response(&weth_word), Ok(()));
    assert!(sess.weth.as_ref().unwrap().equals(&addr(0xaa)));

    // name() against the token.
    let (target, data) = sess.next_request().unwrap();
    assert!(target.equals(&addr(0x02)));
    assert_eq!(data, vec![0x06, 0xfd, 0xde, 0x03]);
    assert_eq!(sess.absorb_response(&string_response("Token")), Ok(()));
    assert_eq!(sess.token_name.as_deref(), Some("Token"));

    // symbol() against the token.
    let (_, data) = sess.next_request().unwrap();
    assert_eq!(data, vec![0x95, 0xd8, 0x9b, 0x41]);
    assert_eq!(sess.absorb_response(&string_response("TOK")), Ok(()));
    assert_eq!(sess.token_symbol.as_deref(), Some("TOK"));

    // decimals() against the token.
    let (_, data) = sess.next_request().unwrap();
    assert_eq!(data, vec![0x31, 0x3c, 0xe5, 0x67]);
    assert_eq!(sess.absorb_response(&uint_word(&[9])), Ok(()));
    assert_eq!(sess.decimals, Some(9));

    // balanceOf(sender) against the token.
    let (_, data) = sess.next_request().unwrap();
    assert_eq!(data.len(), 36);
    assert_eq!(&data[0..4], &[0x70, 0xa0, 0x82, 0x31]);
    assert_eq!(&data[4..16], &[0u8; 12]);
    assert_eq!(&data[16..36], &[0x01; 20]);
    assert_eq!(sess.absorb_response(&uint_word(&[0x10])), Ok(()));
    assert!(sess.balance.as_ref().unwrap().equals(&Uint256::from_u64(16)));

    // The session is complete: nothing further to call.
    assert!(sess.next_request().is_none());
}

#[test]
fn rpc_failure_aborts() {
    let mut sess = Session::new(addr(0x01), addr(0x02), addr(0x03));
    let e = sess.fail_rpc();
    assert_eq!(e, SwapError::RpcError);
    assert!(sess.next_request().is_none());
}

#[test]
fn submission_outcomes() {
    assert_eq!(interpret_submission(Some(vec![0xde, 0xad])), Ok(vec![0xde, 0xad]));
    assert_eq!(interpret_submission(None), Err(SwapError::SubmissionError));
}
