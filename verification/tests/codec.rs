use swap_client::abi::decode_address;
use swap_client::abi::decode_dynamic_string;
use swap_client::abi::decode_uint;
use swap_client::abi::encode_arguments;
use swap_client::abi::AbiValue;
use swap_client::address::Address;
use swap_client::errors::SwapError;
use swap_client::selector::derive_selector;
use swap_client::swap::build_swap;
use swap_client::swap::decode_swap_parameters;
use swap_client::swap::encode_swap_parameters;
use swap_client::swap::make_swap_parameters;
use swap_client::uint256::Uint256;

fn addr(byte: u8) -> Address {
    Address::from_bytes(&vec![byte; 20]).unwrap()
}

#[test]
fn selector_balance_of() {
    assert_eq!(derive_selector("balanceOf(address)"), vec![0x70, 0xa0, 0x82, 0x31]);
}

#[test]
fn selector_decimals() {
    assert_eq!(derive_selector("decimals()"), vec![0x31, 0x3c, 0xe5, 0x67]);
}

#[test]
fn selector_name_and_symbol() {
    assert_eq!(derive_selector("name()"), vec![0x06, 0xfd, 0xde, 0x03]);
    assert_eq!(derive_selector("symbol()"), vec![0x95, 0xd8, 0x9b, 0x41]);
}

#[test]
fn selector_weth9() {
    assert_eq!(derive_selector("WETH9()"), vec![0x4a, 0xa4, 0xa4, 0xfc]);
}

#[test]
fn selector_exact_input_single() {
    let sig = "exactInputSingle((address,address,uint24,address,uint256,uint256,uint160,uint256))";
    assert_eq!(derive_selector(sig), vec![0x10, 0xc2, 0x9d, 0x98]);
}

#[test]
fn selector_deterministic() {
    let a = derive_selector("balanceOf(address)");
    let b = derive_selector("balanceOf(address)");
    assert_eq!(a, b);
}

#[test]
fn encode_single_address_word() {
    let mut args: Vec<AbiValue> = Vec::new();
    args.push(AbiValue::Address(addr(0xab)));
    let enc = encode_arguments(&args);
    let mut expected = vec![0u8; 12];
    expected.extend(vec![0xab; 20]);
    assert_eq!(enc, expected);
}

#[test]
fn encode_uint_word_is_big_endian() {
    let mut args: Vec<AbiValue> = Vec::new();
    args.push(AbiValue::Uint(Uint256::from_u64(0x0102)));
    let enc = encode_arguments(&args);
    let mut expected = vec![0u8; 30];
    expected.push(0x01);
    expected.push(0x02);
    assert_eq!(enc, expected);
}

#[test]
fn decode_uint_all_zero_is_zero() {
    let got = decode_uint(&vec![0u8; 32]).unwrap();
    assert!(got.equals(&Uint256::from_u64(0)));
}

#[test]
fn decode_uint_one() {
    let mut word = vec![0u8; 31];
    word.push(1);
    let got = decode_uint(&word).unwrap();
    assert!(got.equals(&Uint256::from_u64(1)));
}

#[test]
fn decode_uint_short_input_fails() {
    assert!(matches!(decode_uint(&vec![0u8; 31]), Err(SwapError::InvalidResponse)));
}

#[test]
fn decode_address_ignores_padding() {
    let mut word = vec![0xffu8; 12];
    word.extend(vec![0x42; 20]);
    let got = decode_address(&word).unwrap();
    assert!(got.equals(&addr(0x42)));
}

#[test]
fn decode_address_short_input_fails() {
    assert!(decode_address(&vec![0u8; 31]).is_err());
}

#[test]
fn decode_string_abc() {
    let mut data = vec![0u8; 31];
    data.push(3);
    data.extend(b"abc".to_vec());
    data.extend(vec![0u8; 29]);
    assert_eq!(decode_dynamic_string(&data), "abc");
}

#[test]
fn decode_string_short_input_is_empty() {
    assert_eq!(decode_dynamic_string(&vec![1u8; 31]), "");
    assert_eq!(decode_dynamic_string(&Vec::new()), "");
}

#[test]
fn decode_string_length_clamped_to_available() {
    let mut data = vec![0u8; 31];
    data.push(200);
    data.extend(b"hi".to_vec());
    assert_eq!(decode_dynamic_string(&data), "hi");
}

#[test]
fn decode_string_huge_length_prefix_clamped() {
    let mut data = vec![0xffu8; 32];
    data.extend(b"ok".to_vec());
    assert_eq!(decode_dynamic_string(&data), "ok");
}

#[test]
fn swap_parameters_round_trip() {
    let p = make_swap_parameters(&addr(0x11), &addr(0x22), &addr(0x33), 1500000000000000000, 1700000000);
    let enc = encode_swap_parameters(&p);
    assert_eq!(enc.len(), 256);
    let q = decode_swap_parameters(&enc).unwrap();
    assert!(q.token_in.equals(&p.token_in));
    assert!(q.token_out.equals(&p.token_out));
    assert!(q.fee.equals(&p.fee));
    assert!(q.recipient.equals(&p.recipient));
    assert!(q.amount_in.equals(&p.amount_in));
    assert!(q.amount_out_minimum.equals(&p.amount_out_minimum));
    assert!(q.sqrt_price_limit_x96.equals(&p.sqrt_price_limit_x96));
    assert!(q.deadline.equals(&p.deadline));
}

#[test]
fn decode_swap_parameters_wrong_length_fails() {
    assert!(decode_swap_parameters(&vec![0u8; 255]).is_err());
}

#[test]
fn build_swap_layout() {
    let p = make_swap_parameters(&addr(0x11), &addr(0x22), &addr(0x33), 7, 9);
    let router = addr(0x44);
    let (calldata, value, to) = build_swap(&p, &router);
    assert_eq!(calldata.len(), 260);
    assert_eq!(&calldata[0..4], &[0x10, 0xc2, 0x9d, 0x98]);
    assert_eq!(&calldata[4..260], encode_swap_parameters(&p).as_slice());
    assert!(value.equals(&Uint256::from_u64(7)));
    assert!(to.equals(&router));
}

#[test]
fn swap_parameter_policy_fields() {
    let p = make_swap_parameters(&addr(0x11), &addr(0x22), &addr(0x33), 5, 77);
    assert!(p.fee.equals(&Uint256::from_u64(500)));
    assert!(p.amount_out_minimum.equals(&Uint256::from_u64(0)));
    assert!(p.sqrt_price_limit_x96.equals(&Uint256::from_u64(0)));
    assert!(p.deadline.equals(&Uint256::from_u64(77)));
}
