use edge_data_exfil::algorithms::{
    all_digit_bytes, luhn_valid_bytes, luhn_valid_text, AlgorithmMethods, AlgorithmName,
};

const CARDS: [&str; 7] = [
    "4222222222222",
    "4111111111111111",
    "4012888888881881",
    "5555555555554444",
    "5105105105105100",
    "378282246310005",
    "371449635398431",
];

#[test]
fn luhn_accepts_known_card_numbers() {
    let luhn = AlgorithmName::LuhnNumbers;
    for number in CARDS {
        assert!(luhn.validate_string(number), "{}", number);
        assert!(luhn.validate_bytes(number.as_bytes()), "{}", number);
    }
}

#[test]
fn luhn_rejects_every_single_digit_change() {
    let luhn = AlgorithmName::LuhnNumbers;
    for number in CARDS {
        let original = number.as_bytes();
        for at in 0..original.len() {
            for digit in b'0'..=b'9' {
                if digit == original[at] {
                    continue;
                }
                let mut changed = original.to_vec();
                changed[at] = digit;
                assert!(!luhn.validate_bytes(&changed), "{:?}", changed);
                let text = String::from_utf8(changed).unwrap();
                assert!(!luhn.validate_string(&text), "{}", text);
            }
        }
    }
}

#[test]
fn luhn_rejects_text_that_is_not_all_digits() {
    let luhn = AlgorithmName::LuhnNumbers;
    for text in ["", "banana", "4111-1111-1111-1111", "4111 1111 1111 1111", "378282246310005 ", "x0", "0x"] {
        assert!(!luhn.validate_string(text), "{:?}", text);
        assert!(!luhn.validate_bytes(text.as_bytes()), "{:?}", text);
    }
    assert!(!luhn.validate_string("４１１１"));
    assert!(!luhn.validate_string("Ø0"));
}

#[test]
fn luhn_rejects_malformed_bytes() {
    let luhn = AlgorithmName::LuhnNumbers;
    assert!(!luhn.validate_bytes(&[0xff, 0xfe]));
    assert!(!luhn.validate_bytes(&[b'0', 0x80]));
    assert!(!luhn.validate_bytes(&[0xc3]));
    assert!(!luhn.validate_bytes(&[]));
}

#[test]
fn luhn_small_values() {
    assert!(luhn_valid_bytes(b"0"));
    assert!(luhn_valid_text("0"));
    assert!(luhn_valid_bytes(b"18"));
    assert!(luhn_valid_text("18"));
    assert!(!luhn_valid_bytes(b"1"));
    assert!(!luhn_valid_text("17"));
    assert!(luhn_valid_text("49927398716"));
    assert!(luhn_valid_bytes(b"79927398713"));
    assert!(!luhn_valid_bytes(b"79927398710"));
    assert!(luhn_valid_bytes(b"00000000000000000000000000000000000000000000000000000000000000000000"));
}

#[test]
fn text_and_bytes_agree() {
    for algorithm in [AlgorithmName::AlwaysTrue, AlgorithmName::LuhnNumbers] {
        for text in ["", "0", "18", "17", "378282246310005", "37828224631000", "12a", "é", "日本"] {
            assert_eq!(
                algorithm.validate_string(text),
                algorithm.validate_bytes(text.as_bytes()),
                "{:?}",
                text
            );
        }
    }
}

#[test]
fn always_true_accepts_everything() {
    let any = AlgorithmName::AlwaysTrue;
    assert!(any.validate_string(""));
    assert!(any.validate_string("not a number"));
    assert!(any.validate_bytes(&[]));
    assert!(any.validate_bytes(&[0xff, 0x00]));
}

#[test]
fn default_algorithm_is_always_true() {
    assert_eq!(AlgorithmName::default(), AlgorithmName::AlwaysTrue);
}

#[test]
fn algorithm_labels() {
    assert_eq!(AlgorithmName::AlwaysTrue.label(), "AlwaysTrue");
    assert_eq!(AlgorithmName::LuhnNumbers.label(), "Luhn");
}

#[test]
fn digit_bytes() {
    assert!(all_digit_bytes(b""));
    assert!(all_digit_bytes(b"0123456789"));
    assert!(!all_digit_bytes(b"/"));
    assert!(!all_digit_bytes(b":"));
    assert!(!all_digit_bytes(b"12 34"));
}
