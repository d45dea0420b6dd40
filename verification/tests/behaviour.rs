use contract_bridge::bridge::{from_string_to_address, CallArgs, ContractBridge};
use contract_bridge::encoder::{
    assemble_call, build_input, convert_parameter, parse_signature, solidity_function,
};
use contract_bridge::error::EncodeError;
use contract_bridge::grouping::group_array;
use contract_bridge::hash::{get_selector, keccak, selector_from_digest};
use contract_bridge::leaf::solidity_lookup;
use contract_bridge::numeric::{check_bounds, get_numerical_part, numeric_sanity_check};
use contract_bridge::text::{chars_of, contains, same_text, split_fragments, starts_with};
use contract_bridge::token::{AbiToken, U256};
use contract_bridge::tokenizer::tokenize;

fn unhex(text: &str) -> Vec<u8> {
    hex::decode(text).expect("test vector in hexadecimal")
}

fn texts(values: &[&str]) -> Vec<String> {
    values.iter().map(|value| value.to_string()).collect()
}

fn number(value: u64) -> U256 {
    U256 { limbs: [value, 0, 0, 0] }
}

fn invalid(parameter: &str, value: &str) -> EncodeError {
    EncodeError::InvalidLiteral { parameter: parameter.to_string(), value: value.to_string() }
}

fn unsupported(parameter: &str) -> EncodeError {
    EncodeError::UnsupportedType { parameter: parameter.to_string() }
}

fn out_of_bounds(parameter: &str, width: usize) -> EncodeError {
    EncodeError::NumericOutOfBounds { parameter: parameter.to_string(), width }
}

// The digest and the selector.

#[test]
fn keccak_of_the_empty_input() {
    assert_eq!(
        keccak(b"").to_vec(),
        unhex("c5d2460186f7233c927e7db2dcc703c0e500b653ca82273b7bfad8045d85a470")
    );
}

#[test]
fn keccak_of_a_phrase() {
    assert_eq!(
        keccak(b"The phrase that will be hashed").to_vec(),
        unhex("b244af9dd4aada2eda59130bbcff112f29b427d924b654aaeb5a0384fa9afed4")
    );
}

#[test]
fn selector_of_known_signatures() {
    assert_eq!(get_selector("transfer(address,uint256)"), unhex("a9059cbb"));
    assert_eq!(get_selector("balanceOf(address)"), unhex("70a08231"));
    assert_eq!(get_selector("totalSupply()"), unhex("18160ddd"));
}

#[test]
fn selector_is_the_start_of_the_digest() {
    for signature in ["getScheduled(uint256)", "name(address,address)", "", "f ( uint256 )"] {
        let digest = keccak(signature.as_bytes());
        assert_eq!(get_selector(signature), digest[..4].to_vec());
        assert_eq!(selector_from_digest(&digest), digest[..4].to_vec());
    }
}

#[test]
fn selector_keeps_the_spaces_of_the_signature() {
    assert_ne!(get_selector("baz(uint32, bool)"), get_selector("baz(uint32,bool)"));
    let spaced = solidity_function("baz(uint32, bool)", &texts(&["69", "true"]))
        .expect("encodable call");
    assert_eq!(spaced[..4].to_vec(), get_selector("baz(uint32, bool)"));
    let tight = solidity_function("baz(uint32,bool)", &texts(&["69", "true"]))
        .expect("encodable call");
    assert_eq!(spaced[4..], tight[4..]);
}

// Each leaf type, against bytes laid out by hand.

#[test]
fn encodes_an_unsigned_integer_and_a_boolean() {
    assert_eq!(
        solidity_function("baz(uint32,bool)", &texts(&["69", "true"])),
        Ok(unhex(
            "cdcd77c0\
             0000000000000000000000000000000000000000000000000000000000000045\
             0000000000000000000000000000000000000000000000000000000000000001"
        ))
    );
}

#[test]
fn encodes_a_false_boolean() {
    assert_eq!(
        solidity_function("baz(uint32,bool)", &texts(&["0", "false"])),
        Ok(unhex(
            "cdcd77c0\
             0000000000000000000000000000000000000000000000000000000000000000\
             0000000000000000000000000000000000000000000000000000000000000000"
        ))
    );
}

#[test]
fn encodes_an_integer() {
    assert_eq!(
        solidity_function("set(int256)", &texts(&["5"])),
        Ok(unhex(
            "e5c19b2d\
             0000000000000000000000000000000000000000000000000000000000000005"
        ))
    );
}

#[test]
fn encodes_an_address() {
    assert_eq!(
        solidity_function(
            "balanceOf(address)",
            &texts(&["2b8496768299a9C8e8957589CfA8ea48fa4d5A42"])
        ),
        Ok(unhex(
            "70a08231\
             0000000000000000000000002b8496768299a9c8e8957589cfa8ea48fa4d5a42"
        ))
    );
}

#[test]
fn encodes_a_string() {
    assert_eq!(
        solidity_function("greet(string)", &texts(&["hello"])),
        Ok(unhex(
            "ead710c4\
             0000000000000000000000000000000000000000000000000000000000000020\
             0000000000000000000000000000000000000000000000000000000000000005\
             68656c6c6f000000000000000000000000000000000000000000000000000000"
        ))
    );
}

#[test]
fn encodes_a_function_value() {
    assert_eq!(
        solidity_function("run(function)", &texts(&["0123456789abcdefghijklmn"])),
        Ok(unhex(
            "d69e799d\
             0000000000000000000000000000000000000000000000000000000000000020\
             0000000000000000000000000000000000000000000000000000000000000018\
             303132333435363738396162636465666768696a6b6c6d6e0000000000000000"
        ))
    );
}

#[test]
fn encodes_fixed_bytes_in_a_fixed_array() {
    assert_eq!(
        solidity_function("bar(bytes3[2])", &texts(&["[616263,646566]"])),
        Ok(unhex(
            "fce353f6\
             6162630000000000000000000000000000000000000000000000000000000000\
             6465660000000000000000000000000000000000000000000000000000000000"
        ))
    );
}

#[test]
fn encodes_bytes_a_boolean_and_an_array() {
    assert_eq!(
        solidity_function("sam(bytes,bool,uint256[])", &texts(&["64617665", "true", "[1,2,3]"])),
        Ok(unhex(
            "a5643bf2\
             0000000000000000000000000000000000000000000000000000000000000060\
             0000000000000000000000000000000000000000000000000000000000000001\
             00000000000000000000000000000000000000000000000000000000000000a0\
             0000000000000000000000000000000000000000000000000000000000000004\
             6461766500000000000000000000000000000000000000000000000000000000\
             0000000000000000000000000000000000000000000000000000000000000003\
             0000000000000000000000000000000000000000000000000000000000000001\
             0000000000000000000000000000000000000000000000000000000000000002\
             0000000000000000000000000000000000000000000000000000000000000003"
        ))
    );
}

#[test]
fn encodes_static_and_dynamic_arguments_together() {
    assert_eq!(
        solidity_function(
            "f(uint256,uint32[],bytes10,bytes)",
            &texts(&["291", "[1110, 1929]", "31323334353637383930", "48656c6c6f2c20776f726c6421"])
        ),
        Ok(unhex(
            "8be65246\
             0000000000000000000000000000000000000000000000000000000000000123\
             0000000000000000000000000000000000000000000000000000000000000080\
             3132333435363738393000000000000000000000000000000000000000000000\
             00000000000000000000000000000000000000000000000000000000000000e0\
             0000000000000000000000000000000000000000000000000000000000000002\
             0000000000000000000000000000000000000000000000000000000000000456\
             0000000000000000000000000000000000000000000000000000000000000789\
             000000000000000000000000000000000000000000000000000000000000000d\
             48656c6c6f2c20776f726c642100000000000000000000000000000000000000"
        ))
    );
}

#[test]
fn encodes_nested_arrays() {
    assert_eq!(
        solidity_function(
            "g(uint256[][],string[])",
            &texts(&["[[1,2],[3]]", "[one, two, three]"])
        ),
        Ok(unhex(
            "2289b18c\
             0000000000000000000000000000000000000000000000000000000000000040\
             0000000000000000000000000000000000000000000000000000000000000140\
             0000000000000000000000000000000000000000000000000000000000000002\
             0000000000000000000000000000000000000000000000000000000000000040\
             00000000000000000000000000000000000000000000000000000000000000a0\
             0000000000000000000000000000000000000000000000000000000000000002\
             0000000000000000000000000000000000000000000000000000000000000001\
             0000000000000000000000000000000000000000000000000000000000000002\
             0000000000000000000000000000000000000000000000000000000000000001\
             0000000000000000000000000000000000000000000000000000000000000003\
             0000000000000000000000000000000000000000000000000000000000000003\
             0000000000000000000000000000000000000000000000000000000000000060\
             00000000000000000000000000000000000000000000000000000000000000a0\
             00000000000000000000000000000000000000000000000000000000000000e0\
             0000000000000000000000000000000000000000000000000000000000000003\
             6f6e650000000000000000000000000000000000000000000000000000000000\
             0000000000000000000000000000000000000000000000000000000000000003\
             74776f0000000000000000000000000000000000000000000000000000000000\
             0000000000000000000000000000000000000000000000000000000000000005\
             7468726565000000000000000000000000000000000000000000000000000000"
        ))
    );
}

#[test]
fn encodes_a_fixed_array_of_dynamic_elements() {
    assert_eq!(
        solidity_function("h(bytes[2])", &texts(&["[1315,3430]"])),
        Ok(unhex(
            "71559795\
             0000000000000000000000000000000000000000000000000000000000000020\
             0000000000000000000000000000000000000000000000000000000000000040\
             0000000000000000000000000000000000000000000000000000000000000080\
             0000000000000000000000000000000000000000000000000000000000000002\
             1315000000000000000000000000000000000000000000000000000000000000\
             0000000000000000000000000000000000000000000000000000000000000002\
             3430000000000000000000000000000000000000000000000000000000000000"
        ))
    );
}

#[test]
fn encodes_a_call_without_arguments() {
    assert_eq!(solidity_function("totalSupply()", &[]), Ok(unhex("18160ddd")));
    assert_eq!(build_input("totalSupply()", &[]), unhex("18160ddd"));
}

#[test]
fn build_input_lays_out_tokens() {
    assert_eq!(
        build_input("baz(uint32,bool)", &[AbiToken::Uint(number(69)), AbiToken::Bool(true)]),
        unhex(
            "cdcd77c0\
             0000000000000000000000000000000000000000000000000000000000000045\
             0000000000000000000000000000000000000000000000000000000000000001"
        )
    );
    assert_eq!(
        build_input("set(int256)", &[AbiToken::Int(U256 { limbs: [1, 2, 3, 4] })]),
        unhex(
            "e5c19b2d\
             0000000000000004000000000000000300000000000000020000000000000001"
        )
    );
}

#[test]
fn assemble_call_joins_selector_and_body() {
    assert_eq!(assemble_call(vec![1, 2, 3, 4], &[5, 6]), vec![1, 2, 3, 4, 5, 6]);
    assert_eq!(assemble_call(vec![1, 2, 3, 4], &[]), vec![1, 2, 3, 4]);
}

#[test]
fn encoding_twice_gives_the_same_bytes() {
    let values = texts(&["[[1,2],[3]]", "[one, two, three]"]);
    let first = solidity_function("g(uint256[][],string[])", &values);
    let second = solidity_function("g(uint256[][],string[])", &values);
    assert!(first.is_ok());
    assert_eq!(first, second);
    let bad = texts(&["[[1,2],[x]]", "[one]"]);
    assert_eq!(
        solidity_function("g(uint256[][],string[])", &bad),
        solidity_function("g(uint256[][],string[])", &bad)
    );
}

// Decimal and hexadecimal literals.

#[test]
fn reads_decimal_numbers() {
    assert_eq!(U256::from_dec_str("0"), Some(number(0)));
    assert_eq!(U256::from_dec_str(""), Some(number(0)));
    assert_eq!(U256::from_dec_str("1234"), Some(number(1234)));
    assert_eq!(U256::from_dec_str("0001234"), Some(number(1234)));
    assert_eq!(U256::from_dec_str("18446744073709551615"), Some(number(u64::MAX)));
    assert_eq!(U256::from_dec_str("18446744073709551616"), Some(U256 { limbs: [0, 1, 0, 0] }));
    assert_eq!(
        U256::from_dec_str("340282366920938463463374607431768211456"),
        Some(U256 { limbs: [0, 0, 1, 0] })
    );
}

#[test]
fn reads_decimal_numbers_up_to_256_bits() {
    assert_eq!(
        U256::from_dec_str(
            "115792089237316195423570985008687907853269984665640564039457584007913129639935"
        ),
        Some(U256 { limbs: [u64::MAX; 4] })
    );
    assert_eq!(
        U256::from_dec_str(
            "115792089237316195423570985008687907853269984665640564039457584007913129639936"
        ),
        None
    );
}

#[test]
fn refuses_what_is_no_decimal_number() {
    assert_eq!(U256::from_dec_str("12a"), None);
    assert_eq!(U256::from_dec_str("-1"), None);
    assert_eq!(U256::from_dec_str("+1"), None);
    assert_eq!(U256::from_dec_str(" 1"), None);
    assert_eq!(U256::from_dec_str("0x10"), None);
    assert_eq!(U256::from_dec_str("١٢"), None);
}

#[test]
fn reads_hexadecimal_bytes_in_either_case() {
    assert_eq!(solidity_lookup("bytes", "0aFf10"), Ok(AbiToken::Bytes(vec![0x0a, 0xff, 0x10])));
    assert_eq!(solidity_lookup("bytes", ""), Ok(AbiToken::Bytes(vec![])));
    assert_eq!(
        solidity_lookup("bytes4", "DEADbeef"),
        Ok(AbiToken::FixedBytes(vec![0xde, 0xad, 0xbe, 0xef]))
    );
}

#[test]
fn refuses_what_is_no_hexadecimal_text() {
    assert_eq!(solidity_lookup("bytes", "abc"), Err(invalid("bytes", "abc")));
    assert_eq!(solidity_lookup("bytes", "0x10"), Err(invalid("bytes", "0x10")));
    assert_eq!(solidity_lookup("bytes", "zz"), Err(invalid("bytes", "zz")));
    assert_eq!(solidity_lookup("bytes8", "1g"), Err(invalid("bytes8", "1g")));
}

// Leaf types.

#[test]
fn reads_each_leaf_type() {
    assert_eq!(solidity_lookup("uint256", "7"), Ok(AbiToken::Uint(number(7))));
    assert_eq!(solidity_lookup("uint", "7"), Ok(AbiToken::Uint(number(7))));
    assert_eq!(solidity_lookup("int128", "7"), Ok(AbiToken::Int(number(7))));
    assert_eq!(solidity_lookup("int", "7"), Ok(AbiToken::Int(number(7))));
    assert_eq!(
        solidity_lookup("address", "000102030405060708090a0b0c0d0e0f10111213"),
        Ok(AbiToken::Address([
            0, 1, 2, 3, 4, 5, 6, 7, 8, 9, 10, 11, 12, 13, 14, 15, 16, 17, 18, 19
        ]))
    );
    assert_eq!(solidity_lookup("bool", "true"), Ok(AbiToken::Bool(true)));
    assert_eq!(solidity_lookup("bool", "false"), Ok(AbiToken::Bool(false)));
    assert_eq!(solidity_lookup("bytes", "1315"), Ok(AbiToken::Bytes(vec![0x13, 0x15])));
    assert_eq!(solidity_lookup("bytes2", "1315"), Ok(AbiToken::FixedBytes(vec![0x13, 0x15])));
    assert_eq!(
        solidity_lookup("string", "[not, an array]"),
        Ok(AbiToken::String(String::from("[not, an array]")))
    );
    assert_eq!(
        solidity_lookup("function", "0123456789abcdefghijklmn"),
        Ok(AbiToken::Bytes(b"0123456789abcdefghijklmn".to_vec()))
    );
}

#[test]
fn refuses_bad_literals_of_each_leaf_type() {
    assert_eq!(solidity_lookup("uint256", "-7"), Err(invalid("uint256", "-7")));
    assert_eq!(solidity_lookup("int256", "-7"), Err(invalid("int256", "-7")));
    assert_eq!(solidity_lookup("address", "00"), Err(invalid("address", "00")));
    assert_eq!(
        solidity_lookup("address", "0x0102030405060708090a0b0c0d0e0f1011121314"),
        Err(invalid("address", "0x0102030405060708090a0b0c0d0e0f1011121314"))
    );
    assert_eq!(solidity_lookup("bool", "True"), Err(invalid("bool", "True")));
    assert_eq!(solidity_lookup("bool", "1"), Err(invalid("bool", "1")));
    assert_eq!(solidity_lookup("bool", ""), Err(invalid("bool", "")));
    assert_eq!(solidity_lookup("function", "short"), Err(invalid("function", "short")));
    assert_eq!(
        solidity_lookup("function", "0123456789abcdefghijklmno"),
        Err(invalid("function", "0123456789abcdefghijklmno"))
    );
}

#[test]
fn function_values_count_bytes_not_characters() {
    // Twelve characters of two bytes each.
    let value = "éééééééééééé";
    assert_eq!(value.len(), 24);
    assert_eq!(solidity_lookup("function", value), Ok(AbiToken::Bytes(value.as_bytes().to_vec())));
    // Twenty-four characters, forty-eight bytes.
    let long = "éééééééééééééééééééééééé";
    assert_eq!(solidity_lookup("function", long), Err(invalid("function", long)));
}

#[test]
fn knows_a_family_by_its_start() {
    assert_eq!(solidity_lookup("uintx", "7"), Ok(AbiToken::Uint(number(7))));
    assert_eq!(solidity_lookup("int_", "7"), Ok(AbiToken::Int(number(7))));
    assert_eq!(solidity_lookup("xuint8", "7"), Err(unsupported("xuint8")));
    assert_eq!(solidity_lookup("point", "7"), Err(unsupported("point")));
    assert_eq!(solidity_lookup("bytes32x", "00"), Err(unsupported("bytes32x")));
    assert_eq!(solidity_lookup("bytesfoo", "00"), Err(unsupported("bytesfoo")));
    assert_eq!(solidity_lookup("mybytes8", "00"), Err(unsupported("mybytes8")));
    assert_eq!(solidity_lookup("bytes007", "00"), Ok(AbiToken::FixedBytes(vec![0])));
}

#[test]
fn refuses_unknown_leaf_types() {
    assert_eq!(solidity_lookup("addrress", "00"), Err(unsupported("addrress")));
    assert_eq!(solidity_lookup("", "00"), Err(unsupported("")));
    assert_eq!(solidity_lookup("tuple", "00"), Err(unsupported("tuple")));
    assert_eq!(solidity_lookup("Bool", "true"), Err(unsupported("Bool")));
}

// The width that a type carries.

#[test]
fn finds_the_width_of_a_type() {
    assert_eq!(get_numerical_part("uint256"), Some(256));
    assert_eq!(get_numerical_part("uint256[2][3]"), Some(256));
    assert_eq!(get_numerical_part("bytes32[]"), Some(32));
    assert_eq!(get_numerical_part("int8"), Some(8));
    assert_eq!(get_numerical_part("uint007"), Some(7));
    assert_eq!(get_numerical_part("bytes0"), Some(0));
}

#[test]
fn finds_no_width_where_none_is_written() {
    assert_eq!(get_numerical_part("uint"), None);
    assert_eq!(get_numerical_part("bytes"), None);
    assert_eq!(get_numerical_part("address[4]"), None);
    assert_eq!(get_numerical_part(""), None);
    assert_eq!(get_numerical_part("[12]"), None);
    assert_eq!(get_numerical_part("uint8x"), None);
}

#[test]
fn caps_a_width_beyond_the_machine() {
    assert_eq!(
        get_numerical_part("uint99999999999999999999999999999999999999"),
        Some(usize::MAX)
    );
    assert_eq!(
        check_bounds("uint99999999999999999999999999999999999999"),
        Err(out_of_bounds("uint99999999999999999999999999999999999999", usize::MAX))
    );
}

#[test]
fn allows_integers_of_whole_bytes_up_to_256_bits() {
    assert_eq!(numeric_sanity_check("uint256", 256), Ok(()));
    assert_eq!(numeric_sanity_check("uint8", 8), Ok(()));
    assert_eq!(numeric_sanity_check("int128", 128), Ok(()));
    assert_eq!(numeric_sanity_check("uint0", 0), Ok(()));
    assert_eq!(numeric_sanity_check("uint257", 257), Err(out_of_bounds("uint257", 257)));
    assert_eq!(numeric_sanity_check("uint264", 264), Err(out_of_bounds("uint264", 264)));
    assert_eq!(numeric_sanity_check("int7", 7), Err(out_of_bounds("int7", 7)));
    assert_eq!(numeric_sanity_check("uint250", 250), Err(out_of_bounds("uint250", 250)));
}

#[test]
fn allows_fixed_bytes_of_1_to_32() {
    assert_eq!(numeric_sanity_check("bytes1", 1), Ok(()));
    assert_eq!(numeric_sanity_check("bytes32", 32), Ok(()));
    assert_eq!(numeric_sanity_check("bytes10[]", 10), Ok(()));
    assert_eq!(numeric_sanity_check("bytes0", 0), Err(out_of_bounds("bytes0", 0)));
    assert_eq!(numeric_sanity_check("bytes33", 33), Err(out_of_bounds("bytes33", 33)));
}

#[test]
fn allows_no_width_on_other_types() {
    assert_eq!(numeric_sanity_check("address20", 20), Err(unsupported("address20")));
    assert_eq!(numeric_sanity_check("bool1", 1), Err(unsupported("bool1")));
    assert_eq!(check_bounds("string8[]"), Err(unsupported("string8[]")));
}

#[test]
fn checks_bounds_only_where_a_width_is_written() {
    assert_eq!(check_bounds("uint"), Ok(()));
    assert_eq!(check_bounds("address"), Ok(()));
    assert_eq!(check_bounds("anything"), Ok(()));
    assert_eq!(check_bounds("uint256[3]"), Ok(()));
    assert_eq!(check_bounds("uint257[3]"), Err(out_of_bounds("uint257[3]", 257)));
    assert_eq!(check_bounds("bytes33"), Err(out_of_bounds("bytes33", 33)));
    assert_eq!(check_bounds("bytes0"), Err(out_of_bounds("bytes0", 0)));
}

#[test]
fn bounds_come_before_the_literal() {
    assert_eq!(convert_parameter("uint257", "x"), Err(out_of_bounds("uint257", 257)));
    assert_eq!(convert_parameter("uint256", "x"), Err(invalid("uint256", "x")));
    assert_eq!(convert_parameter("uint256", "9"), Ok(AbiToken::Uint(number(9))));
}

// Cutting array literals.

#[test]
fn groups_flat_literals() {
    assert_eq!(group_array("[10,12,13,42]"), vec!["10", "12", "13", "42"]);
    assert_eq!(group_array("[ 10 ,  12 ]"), vec!["10", "12"]);
    assert_eq!(group_array("[]"), Vec::<String>::new());
    assert_eq!(group_array(""), Vec::<String>::new());
    assert_eq!(group_array("10"), vec!["10"]);
    assert_eq!(group_array("[a,,b]"), vec!["a", "b"]);
    assert_eq!(group_array("[ [1,2],[3,4]]"), vec!["1", "2", "3", "4"]);
}

#[test]
fn groups_nested_literals() {
    assert_eq!(group_array("[[10,12],[13,42]]"), vec!["[10,12]", "[13,42]"]);
    assert_eq!(group_array("[[]]"), vec!["[]"]);
    assert_eq!(group_array("[[1][2][3]]"), vec!["[1]", "[2]", "[3]"]);
    assert_eq!(group_array("[[1], x, [2]]"), vec!["[1]", "[2]"]);
    assert_eq!(group_array("[[[1],[2]],[[3]]]"), vec!["[[1],[2]]", "[[3]]"]);
}

#[test]
fn groups_unbalanced_literals_as_far_as_they_close() {
    assert_eq!(group_array("[[1,2],[3,4]"), vec!["[1,2]"]);
    assert_eq!(group_array("[[1,2]"), Vec::<String>::new());
    assert_eq!(group_array("[["), Vec::<String>::new());
    assert_eq!(group_array("[[1]],[2]]"), vec!["[1]", "[2]"]);
}

#[test]
fn any_separators_group_alike() {
    let expected = vec!["1", "22", "333"];
    let literals =
        ["[1,22,333]", "[1 22 333]", "[1, 22, 333]", "[1 ,22 , 333]", "1,22,,333", "[1][22][333]"];
    for literal in literals {
        assert_eq!(group_array(literal), expected);
    }
}

// Types with array suffixes.

#[test]
fn the_items_of_an_array_are_of_one_kind() {
    let read = tokenize("bool[][2]", "[[true, false], [false]]").expect("readable literal");
    match read {
        AbiToken::FixedArray(rows) => {
            assert_eq!(rows.len(), 2);
            for row in rows {
                match row {
                    AbiToken::Array(items) => {
                        assert!(items.iter().all(|item| matches!(item, AbiToken::Bool(_))));
                    }
                    other => panic!("a row that is no array: {:?}", other),
                }
            }
        }
        other => panic!("no fixed array: {:?}", other),
    }
}

#[test]
fn reads_arrays_of_each_kind() {
    assert_eq!(
        tokenize("bool[]", "[true, false]"),
        Ok(AbiToken::Array(vec![AbiToken::Bool(true), AbiToken::Bool(false)]))
    );
    assert_eq!(
        tokenize("bool[2]", "[true, false]"),
        Ok(AbiToken::FixedArray(vec![AbiToken::Bool(true), AbiToken::Bool(false)]))
    );
    assert_eq!(tokenize("uint8[]", "[]"), Ok(AbiToken::Array(vec![])));
    assert_eq!(tokenize("uint8[0]", "[]"), Ok(AbiToken::FixedArray(vec![])));
}

#[test]
fn reads_a_fixed_array_whose_length_has_several_digits() {
    assert_eq!(
        tokenize("uint256[10]", "[1, 2]"),
        Ok(AbiToken::FixedArray(vec![AbiToken::Uint(number(1)), AbiToken::Uint(number(2))]))
    );
    assert_eq!(
        tokenize("uint256[2][12]", "[[1, 2]]"),
        Ok(AbiToken::FixedArray(vec![AbiToken::FixedArray(vec![
            AbiToken::Uint(number(1)),
            AbiToken::Uint(number(2))
        ])]))
    );
}

#[test]
fn does_not_hold_the_count_against_the_declared_length() {
    assert_eq!(
        tokenize("uint256[2]", "[1, 2, 3]"),
        Ok(AbiToken::FixedArray(vec![
            AbiToken::Uint(number(1)),
            AbiToken::Uint(number(2)),
            AbiToken::Uint(number(3))
        ]))
    );
}

#[test]
fn refuses_a_bracket_that_closes_no_suffix() {
    assert_eq!(tokenize("uint256]", "1"), Err(unsupported("uint256]")));
    assert_eq!(tokenize("uint256[x]", "[1]"), Err(unsupported("uint256[x]")));
    assert_eq!(tokenize("uint256[-1]", "[1]"), Err(unsupported("uint256[-1]")));
    assert_eq!(tokenize("uint256[ 2 ]", "[1]"), Err(unsupported("uint256[ 2 ]")));
    assert_eq!(tokenize("]", "[1]"), Err(unsupported("]")));
    assert_eq!(tokenize("2]", "[1]"), Err(unsupported("2]")));
}

#[test]
fn names_the_element_type_that_is_unknown() {
    assert_eq!(tokenize("[]", "[1]"), Err(unsupported("")));
    assert_eq!(tokenize("tuple[]", "[1]"), Err(unsupported("tuple")));
    assert_eq!(tokenize("tuple[]", "[]"), Ok(AbiToken::Array(vec![])));
}

#[test]
fn the_first_bad_element_decides() {
    assert_eq!(tokenize("uint256[]", "[1, x, y]"), Err(invalid("uint256", "x")));
    assert_eq!(tokenize("uint256[][]", "[[1], [2, z], [w]]"), Err(invalid("uint256", "z")));
    assert_eq!(tokenize("bool[]", "[true, 1, x]"), Err(invalid("bool", "1")));
}

// Signatures.

#[test]
fn parses_the_parameters_of_a_signature() {
    assert_eq!(parse_signature("name(uint256,address)"), vec!["uint256", "address"]);
    assert_eq!(parse_signature("name( uint256 , address )"), vec!["uint256", "address"]);
    assert_eq!(parse_signature("name(uint256[2][],bytes)"), vec!["uint256[2][]", "bytes"]);
    assert_eq!(parse_signature("name()"), Vec::<String>::new());
    assert_eq!(parse_signature("name"), Vec::<String>::new());
    assert_eq!(parse_signature(""), Vec::<String>::new());
}

#[test]
fn takes_the_first_piece_of_a_signature_as_its_name() {
    assert_eq!(parse_signature("(uint256)"), vec!["uint256"]);
    assert_eq!(parse_signature(" name(uint256)"), vec!["name", "uint256"]);
    assert_eq!(parse_signature("name uint256 bool"), vec!["uint256", "bool"]);
}

#[test]
fn refuses_too_few_or_too_many_values() {
    assert_eq!(
        solidity_function("name(uint256,bool)", &texts(&["1"])),
        Err(EncodeError::ArityMismatch { expected: 2, found: 1 })
    );
    assert_eq!(
        solidity_function("name(uint256,bool)", &texts(&["1", "true", "2"])),
        Err(EncodeError::ArityMismatch { expected: 2, found: 3 })
    );
    assert_eq!(
        solidity_function("name()", &texts(&["1"])),
        Err(EncodeError::ArityMismatch { expected: 0, found: 1 })
    );
    assert_eq!(
        solidity_function("name", &texts(&["1"])),
        Err(EncodeError::ArityMismatch { expected: 0, found: 1 })
    );
}

#[test]
fn counts_before_it_reads() {
    assert_eq!(
        solidity_function("name(uint257,nonsense)", &texts(&["x"])),
        Err(EncodeError::ArityMismatch { expected: 2, found: 1 })
    );
}

#[test]
fn the_first_bad_parameter_decides() {
    assert_eq!(
        solidity_function("name(uint256,bytes33,uint257)", &texts(&["1", "00", "2"])),
        Err(out_of_bounds("bytes33", 33))
    );
    assert_eq!(
        solidity_function("name(uint256,bytes32,uint257)", &texts(&["x", "00", "2"])),
        Err(invalid("uint256", "x"))
    );
}

// Text.

#[test]
fn splits_text_at_delimiters() {
    assert_eq!(split_fragments("a,b;c", ",;"), vec!["a", "b", "c"]);
    assert_eq!(split_fragments(",,a,,", ","), vec!["a"]);
    assert_eq!(split_fragments("abc", ""), vec!["abc"]);
    assert_eq!(split_fragments("", ","), Vec::<String>::new());
    assert_eq!(split_fragments("é,ü", ","), vec!["é", "ü"]);
}

#[test]
fn searches_text() {
    let text = chars_of("uint256[]");
    assert_eq!(text.len(), 9);
    assert!(contains(&text, &chars_of("int")));
    assert!(contains(&text, &chars_of("")));
    assert!(!contains(&text, &chars_of("bytes")));
    assert!(!contains(&chars_of("in"), &chars_of("int")));
    assert!(starts_with(&text, &chars_of("uint")));
    assert!(!starts_with(&text, &chars_of("int")));
    assert!(same_text(&text, &chars_of("uint256[]")));
    assert!(!same_text(&text, &chars_of("uint256[ ]")));
    assert!(!same_text(&text, &chars_of("uint256")));
}

// The bridge.

#[test]
fn reads_an_address() {
    assert_eq!(
        from_string_to_address("4BaaD27a98D048295CC50509Fb99BC588926f368"),
        Ok([
            0x4b, 0xaa, 0xd2, 0x7a, 0x98, 0xd0, 0x48, 0x29, 0x5c, 0xc5, 0x05, 0x09, 0xfb, 0x99,
            0xbc, 0x58, 0x89, 0x26, 0xf3, 0x68
        ])
    );
    assert_eq!(from_string_to_address("4Baa"), Err(invalid("address", "4Baa")));
    assert_eq!(from_string_to_address(""), Err(invalid("address", "")));
    assert_eq!(
        from_string_to_address("4BaaD27a98D048295CC50509Fb99BC588926f36"),
        Err(invalid("address", "4BaaD27a98D048295CC50509Fb99BC588926f36"))
    );
    assert_eq!(
        from_string_to_address("4BaaD27a98D048295CC50509Fb99BC588926f36z"),
        Err(invalid("address", "4BaaD27a98D048295CC50509Fb99BC588926f36z"))
    );
}

#[test]
fn prepares_a_call() {
    let mut bridge = ContractBridge;
    let call = bridge.function_call(
        String::from("4BaaD27a98D048295CC50509Fb99BC588926f368"),
        String::from("baz(uint32,bool)"),
        texts(&["69", "true"]),
    );
    match call {
        Ok(CallArgs::V2(args)) => {
            assert_eq!(
                args.contract.to_vec(),
                unhex("4baad27a98d048295cc50509fb99bc588926f368")
            );
            assert_eq!(args.value, [0u8; 32]);
            assert_eq!(
                args.input,
                unhex(
                    "cdcd77c0\
                     0000000000000000000000000000000000000000000000000000000000000045\
                     0000000000000000000000000000000000000000000000000000000000000001"
                )
            );
        }
        other => panic!("no call was prepared: {:?}", other),
    }
}

#[test]
fn a_fault_in_the_arguments_comes_before_one_in_the_address() {
    let mut bridge = ContractBridge;
    assert_eq!(
        bridge.function_call(
            String::from("nowhere"),
            String::from("baz(uint32,bool)"),
            texts(&["69", "maybe"]),
        ),
        Err(invalid("bool", "maybe"))
    );
    assert_eq!(
        bridge.function_call(
            String::from("nowhere"),
            String::from("baz(uint32,bool)"),
            texts(&["69", "true"]),
        ),
        Err(invalid("address", "nowhere"))
    );
}
