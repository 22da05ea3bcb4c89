use tx_codec::{parse_cli_args, BitcoinError, CliCommand};

fn args(words: &[&str]) -> Vec<String> {
    words.iter().map(|w| w.to_string()).collect()
}

#[test]
fn send_command_parses() {
    let a = args(&["send", "100", "1A2b3C"]);
    match parse_cli_args(&a) {
        Ok(CliCommand::Send { amount, address }) => {
            assert_eq!(amount, 100);
            assert_eq!(address, "1A2b3C");
        }
        other => panic!("expected a send command, got {:?}", other),
    }
}

#[test]
fn negative_amount_rejected() {
    let a = args(&["send", "-5", "x"]);
    assert!(matches!(parse_cli_args(&a), Err(BitcoinError::ParseError(_))));
}

#[test]
fn balance_command_parses() {
    let a = args(&["balance"]);
    assert!(matches!(parse_cli_args(&a), Ok(CliCommand::Balance)));
}

#[test]
fn unknown_command_rejected() {
    let a = args(&["fly"]);
    match parse_cli_args(&a) {
        Err(BitcoinError::ParseError(m)) => assert_eq!(m, "Unknown command: fly"),
        other => panic!("expected a parse error, got {:?}", other),
    }
}

#[test]
fn no_arguments_rejected() {
    let a: Vec<String> = Vec::new();
    match parse_cli_args(&a) {
        Err(BitcoinError::ParseError(m)) => assert_eq!(m, "Not enough parameters"),
        other => panic!("expected a parse error, got {:?}", other),
    }
}

#[test]
fn send_missing_arguments_rejected() {
    let one = args(&["send"]);
    match parse_cli_args(&one) {
        Err(BitcoinError::ParseError(m)) => assert_eq!(m, "Not enough arguments"),
        other => panic!("expected a parse error, got {:?}", other),
    }
    let two = args(&["send", "100"]);
    match parse_cli_args(&two) {
        Err(BitcoinError::ParseError(m)) => assert_eq!(m, "Not enough arguments"),
        other => panic!("expected a parse error, got {:?}", other),
    }
}

#[test]
fn bad_amounts_rejected() {
    for bad in ["", "x", "1x", "+5", "5 ", " 5", "5.0"] {
        let a = args(&["send", bad, "addr"]);
        match parse_cli_args(&a) {
            Err(BitcoinError::ParseError(m)) => assert_eq!(m, "Invalid amount"),
            other => panic!("amount {:?}: expected a parse error, got {:?}", bad, other),
        }
    }
}

#[test]
fn amount_bounds() {
    let max = args(&["send", "18446744073709551615", "addr"]);
    match parse_cli_args(&max) {
        Ok(CliCommand::Send { amount, .. }) => assert_eq!(amount, u64::MAX),
        other => panic!("expected a send command, got {:?}", other),
    }
    let over = args(&["send", "18446744073709551616", "addr"]);
    assert!(matches!(parse_cli_args(&over), Err(BitcoinError::ParseError(_))));
    let way_over = args(&["send", "99999999999999999999999", "addr"]);
    assert!(matches!(parse_cli_args(&way_over), Err(BitcoinError::ParseError(_))));
}

#[test]
fn leading_zeros_accepted() {
    let a = args(&["send", "007", "addr"]);
    match parse_cli_args(&a) {
        Ok(CliCommand::Send { amount, .. }) => assert_eq!(amount, 7),
        other => panic!("expected a send command, got {:?}", other),
    }
    let zero = args(&["send", "0", "addr"]);
    match parse_cli_args(&zero) {
        Ok(CliCommand::Send { amount, .. }) => assert_eq!(amount, 0),
        other => panic!("expected a send command, got {:?}", other),
    }
}

#[test]
fn extra_arguments_ignored() {
    let a = args(&["balance", "now"]);
    assert!(matches!(parse_cli_args(&a), Ok(CliCommand::Balance)));
    let b = args(&["send", "5", "addr", "extra"]);
    match parse_cli_args(&b) {
        Ok(CliCommand::Send { amount, address }) => {
            assert_eq!(amount, 5);
            assert_eq!(address, "addr");
        }
        other => panic!("expected a send command, got {:?}", other),
    }
}

#[test]
fn non_ascii_amount_rejected() {
    let a = args(&["send", "١٢٣", "addr"]);
    assert!(matches!(parse_cli_args(&a), Err(BitcoinError::ParseError(_))));
}
