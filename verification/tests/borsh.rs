use orquestra_cli::api::IdlType;
use orquestra_cli::borsh::{
    borsh_encode_args, borsh_encode_value, build_instruction_data, seed_bytes_from_value,
    ArgsError, ValueError,
};
use orquestra_cli::idl::IdlArg;
use orquestra_cli::strmap::StrMap;
use orquestra_cli::values::{as_i128, as_i64, as_u128, as_u64, json_text_of, truth, ArgValue};

const SYSTEM_PROGRAM: &str = "11111111111111111111111111111111";
const SAMPLE_KEY: &str = "1thX6LZfHDZZKUs92febYZhYRcXddmzfzF2NvTkPNE";

fn text(s: &str) -> ArgValue {
    ArgValue::Text(s.to_string())
}

fn arg(name: &str, ty: &str) -> IdlArg {
    IdlArg { name: name.to_string(), ty: IdlType::Simple(ty.to_string()) }
}

#[test]
fn string_is_length_prefixed_utf8() {
    assert_eq!(borsh_encode_value(&text("hi"), "string"), Ok(vec![2, 0, 0, 0, b'h', b'i']));
    assert_eq!(borsh_encode_value(&text(""), "String"), Ok(vec![0, 0, 0, 0]));
    assert_eq!(
        borsh_encode_value(&text("é"), "string"),
        Ok(vec![2, 0, 0, 0, 0xc3, 0xa9])
    );
}

#[test]
fn string_of_a_non_string_value_is_its_json_text() {
    assert_eq!(borsh_encode_value(&ArgValue::UInt(42), "string"), Ok(vec![2, 0, 0, 0, b'4', b'2']));
    assert_eq!(
        borsh_encode_value(&ArgValue::NegInt(-7), "string"),
        Ok(vec![2, 0, 0, 0, b'-', b'7'])
    );
    assert_eq!(
        borsh_encode_value(&ArgValue::Bool(true), "string"),
        Ok(vec![4, 0, 0, 0, b't', b'r', b'u', b'e'])
    );
    assert_eq!(
        borsh_encode_value(&ArgValue::Other("null".to_string()), "string"),
        Ok(vec![4, 0, 0, 0, b'n', b'u', b'l', b'l'])
    );
}

#[test]
fn unsigned_integers_are_little_endian() {
    assert_eq!(
        borsh_encode_value(&ArgValue::UInt(1_000_000), "u64"),
        Ok(vec![0x40, 0x42, 0x0f, 0, 0, 0, 0, 0])
    );
    assert_eq!(borsh_encode_value(&text("258"), "u32"), Ok(vec![2, 1, 0, 0]));
    assert_eq!(borsh_encode_value(&ArgValue::UInt(513), "u16"), Ok(vec![1, 2]));
    assert_eq!(borsh_encode_value(&ArgValue::UInt(255), "u8"), Ok(vec![255]));
    assert_eq!(
        borsh_encode_value(&text("340282366920938463463374607431768211455"), "u128"),
        Ok(vec![0xff; 16])
    );
}

#[test]
fn narrow_integers_keep_the_low_bytes() {
    // Out-of-range values are cut to the width of the type, as `as` does.
    assert_eq!(borsh_encode_value(&ArgValue::UInt(256), "u8"), Ok(vec![0]));
    assert_eq!(borsh_encode_value(&ArgValue::UInt(70000), "u16"), Ok(vec![0x70, 0x11]));
    assert_eq!(borsh_encode_value(&ArgValue::UInt(300), "i8"), Ok(vec![44]));
}

#[test]
fn signed_integers_are_twos_complement() {
    assert_eq!(borsh_encode_value(&ArgValue::NegInt(-1), "i64"), Ok(vec![0xff; 8]));
    assert_eq!(borsh_encode_value(&text("-2"), "i32"), Ok(vec![0xfe, 0xff, 0xff, 0xff]));
    assert_eq!(borsh_encode_value(&ArgValue::NegInt(-256), "i16"), Ok(vec![0x00, 0xff]));
    assert_eq!(borsh_encode_value(&ArgValue::NegInt(-128), "i8"), Ok(vec![0x80]));
    assert_eq!(borsh_encode_value(&ArgValue::UInt(5), "i128"), {
        let mut v = vec![5];
        v.extend(vec![0; 15]);
        Ok(v)
    });
    assert_eq!(borsh_encode_value(&text("-1"), "i128"), Ok(vec![0xff; 16]));
}

#[test]
fn integer_errors_name_the_type() {
    assert_eq!(
        borsh_encode_value(&text("abc"), "u64"),
        Err(ValueError::Expected("u64".to_string()))
    );
    assert_eq!(
        borsh_encode_value(&ArgValue::NegInt(-1), "u8"),
        Err(ValueError::Expected("u8".to_string()))
    );
    assert_eq!(
        borsh_encode_value(&ArgValue::UInt(u64::MAX), "i64"),
        Err(ValueError::Expected("i64".to_string()))
    );
    assert_eq!(
        borsh_encode_value(&ArgValue::Bool(true), "i16"),
        Err(ValueError::Expected("i16".to_string()))
    );
    assert_eq!(
        borsh_encode_value(&ArgValue::NegInt(-3), "u128"),
        Err(ValueError::Expected("u128".to_string()))
    );
}

#[test]
fn bool_reads_words_numbers_and_booleans() {
    assert_eq!(borsh_encode_value(&ArgValue::Bool(true), "bool"), Ok(vec![1]));
    assert_eq!(borsh_encode_value(&ArgValue::Bool(false), "bool"), Ok(vec![0]));
    assert_eq!(borsh_encode_value(&text("YES"), "bool"), Ok(vec![1]));
    assert_eq!(borsh_encode_value(&text("1"), "bool"), Ok(vec![1]));
    assert_eq!(borsh_encode_value(&text("no"), "bool"), Ok(vec![0]));
    assert_eq!(borsh_encode_value(&ArgValue::UInt(7), "bool"), Ok(vec![1]));
    assert_eq!(borsh_encode_value(&ArgValue::UInt(0), "bool"), Ok(vec![0]));
    assert_eq!(borsh_encode_value(&ArgValue::NegInt(-7), "bool"), Ok(vec![0]));
}

#[test]
fn pubkey_is_its_32_bytes() {
    assert_eq!(borsh_encode_value(&text(SYSTEM_PROGRAM), "pubkey"), Ok(vec![0; 32]));
    let expected: Vec<u8> = (0..32).collect();
    assert_eq!(borsh_encode_value(&text(SAMPLE_KEY), "publicKey"), Ok(expected));
}

#[test]
fn pubkey_errors() {
    assert_eq!(
        borsh_encode_value(&ArgValue::UInt(1), "pubkey"),
        Err(ValueError::ExpectedPubkeyString)
    );
    assert_eq!(
        borsh_encode_value(&text("0OIl"), "pubkey"),
        Err(ValueError::InvalidPubkey("0OIl".to_string()))
    );
    assert_eq!(
        borsh_encode_value(&text("2"), "pubkey"),
        Err(ValueError::PubkeyLength("2".to_string()))
    );
}

#[test]
fn unsupported_type_keeps_its_spelling() {
    assert_eq!(
        borsh_encode_value(&text("x"), "Vec<u8>"),
        Err(ValueError::UnsupportedType("Vec<u8>".to_string()))
    );
    assert_eq!(
        borsh_encode_value(&text("1.5"), "f64"),
        Err(ValueError::UnsupportedType("f64".to_string()))
    );
}

#[test]
fn seed_strings_are_not_length_prefixed() {
    assert_eq!(seed_bytes_from_value(&text("vault"), "string"), Ok(b"vault".to_vec()));
    assert_eq!(seed_bytes_from_value(&ArgValue::UInt(5), "string"), Ok(vec![]));
}

#[test]
fn seed_integers_and_keys() {
    assert_eq!(seed_bytes_from_value(&ArgValue::UInt(1), "u64"), Ok(vec![1, 0, 0, 0, 0, 0, 0, 0]));
    assert_eq!(seed_bytes_from_value(&text("9"), "U16"), Ok(vec![9, 0]));
    assert_eq!(seed_bytes_from_value(&ArgValue::NegInt(-1), "i32"), Ok(vec![0xff; 4]));
    assert_eq!(seed_bytes_from_value(&text(SYSTEM_PROGRAM), "pubkey"), Ok(vec![0; 32]));
}

#[test]
fn seed_errors() {
    assert_eq!(
        seed_bytes_from_value(&text("x"), "u8"),
        Err(ValueError::Expected("u8".to_string()))
    );
    assert_eq!(
        seed_bytes_from_value(&ArgValue::UInt(1), "f32"),
        Err(ValueError::UnknownSeedType("f32".to_string()))
    );
    assert_eq!(
        seed_bytes_from_value(&ArgValue::NegInt(-1), "u128"),
        Err(ValueError::Expected("u128".to_string()))
    );
    assert_eq!(
        seed_bytes_from_value(&ArgValue::Bool(true), "bool"),
        Err(ValueError::UnknownSeedType("bool".to_string()))
    );
}

#[test]
fn args_are_encoded_in_idl_order() {
    let defs = vec![arg("amount", "u64"), arg("memo", "string"), arg("flag", "bool")];
    let mut values = StrMap::new();
    values.insert("flag".to_string(), ArgValue::Bool(true));
    values.insert("memo".to_string(), text("ok"));
    values.insert("amount".to_string(), ArgValue::UInt(3));
    let mut want = vec![3, 0, 0, 0, 0, 0, 0, 0];
    want.extend([2, 0, 0, 0, b'o', b'k']);
    want.push(1);
    assert_eq!(borsh_encode_args(&defs, &values), Ok(want));
}

#[test]
fn no_args_encode_to_nothing() {
    let values: StrMap<ArgValue> = StrMap::new();
    assert_eq!(borsh_encode_args(&[], &values), Ok(vec![]));
}

#[test]
fn args_errors() {
    let mut values = StrMap::new();
    values.insert("amount".to_string(), text("lots"));
    assert_eq!(
        borsh_encode_args(&[arg("missing", "u8")], &values),
        Err(ArgsError::MissingValue("missing".to_string()))
    );
    assert_eq!(
        borsh_encode_args(&[arg("amount", "u64")], &values),
        Err(ArgsError::Encoding {
            arg: "amount".to_string(),
            ty: "u64".to_string(),
            cause: ValueError::Expected("u64".to_string()),
        })
    );
    let complex = IdlArg {
        name: "data".to_string(),
        ty: IdlType::Complex("{\"vec\":\"u8\"}".to_string()),
    };
    assert_eq!(
        borsh_encode_args(&[complex], &values),
        Err(ArgsError::ComplexType("{\"vec\":\"u8\"}".to_string()))
    );
}

#[test]
fn instruction_data_is_discriminator_then_args() {
    assert_eq!(build_instruction_data(&[1, 2, 3, 4, 5, 6, 7, 8], &[9, 10]), vec![
        1, 2, 3, 4, 5, 6, 7, 8, 9, 10
    ]);
    assert_eq!(build_instruction_data(&[], &[]), Vec::<u8>::new());
}

#[test]
fn value_readers() {
    assert_eq!(as_u64(&text("+12")), Some(12));
    assert_eq!(as_u64(&text("-0")), None);
    assert_eq!(as_u64(&text("18446744073709551616")), None);
    assert_eq!(as_i64(&text("-9223372036854775808")), Some(i64::MIN));
    assert_eq!(as_i64(&ArgValue::UInt(u64::MAX)), None);
    assert_eq!(as_u128(&ArgValue::UInt(7)), Some(7));
    assert_eq!(as_u128(&ArgValue::NegInt(-7)), None);
    assert_eq!(as_i128(&ArgValue::NegInt(-7)), Some(-7));
    assert_eq!(as_i128(&text("12 ")), None);
    assert_eq!(as_u64(&ArgValue::Other("1.5".to_string())), None);
}

#[test]
fn truth_and_json_text() {
    assert!(truth(&text("True")));
    assert!(!truth(&text("y")));
    assert_eq!(json_text_of(&ArgValue::NegInt(i64::MIN)), "-9223372036854775808");
    assert_eq!(json_text_of(&ArgValue::UInt(u64::MAX)), "18446744073709551615");
    assert_eq!(json_text_of(&ArgValue::Bool(false)), "false");
}

#[test]
fn seed_integers_of_every_width_are_little_endian() {
    let mut one_128 = vec![1u8];
    one_128.extend([0u8; 15]);
    assert_eq!(seed_bytes_from_value(&ArgValue::UInt(1), "u128"), Ok(one_128));
    assert_eq!(seed_bytes_from_value(&text("-1"), "i128"), Ok(vec![0xff; 16]));
    assert_eq!(seed_bytes_from_value(&ArgValue::NegInt(-2), "i16"), Ok(vec![0xfe, 0xff]));
    assert_eq!(seed_bytes_from_value(&ArgValue::UInt(5), "I8"), Ok(vec![5]));
    assert_eq!(seed_bytes_from_value(&ArgValue::NegInt(-128), "i8"), Ok(vec![0x80]));
    // Seeds and Borsh agree on integers.
    for ty in ["u8", "u16", "u32", "u64", "u128", "i8", "i16", "i32", "i64", "i128"] {
        assert_eq!(
            seed_bytes_from_value(&ArgValue::UInt(100), ty),
            borsh_encode_value(&ArgValue::UInt(100), ty)
        );
    }
}
