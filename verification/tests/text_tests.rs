use evm_ink_bridge::ink2sol::format_path;
use evm_ink_bridge::text::{capitalize, dec_string, join_strings};

fn strings(parts: Vec<&str>) -> Vec<String> {
    parts.into_iter().map(|p| p.to_string()).collect()
}

#[test]
fn decimal_rendering() {
    assert_eq!(dec_string(0), "0");
    assert_eq!(dec_string(7), "7");
    assert_eq!(dec_string(32), "32");
    assert_eq!(dec_string(12345), "12345");
    assert_eq!(dec_string(u64::MAX), "18446744073709551615");
}

#[test]
fn joining() {
    assert_eq!(join_strings(&strings(vec![]), ","), "");
    assert_eq!(join_strings(&strings(vec!["a"]), ","), "a");
    assert_eq!(join_strings(&strings(vec!["a", "b", "c"]), ","), "a,b,c");
    assert_eq!(join_strings(&strings(vec!["x", ""]), ", "), "x, ");
}

#[test]
fn path_joining() {
    assert_eq!(format_path(&strings(vec!["erc20", "Transfer"]), "_"), "erc20_Transfer");
    assert_eq!(format_path(&strings(vec!["ink_env", "types", "Balance"]), "::"), "ink_env::types::Balance");
    assert_eq!(format_path(&strings(vec![]), "_"), "");
}

#[test]
fn capitalizing() {
    assert_eq!(capitalize("transfer"), "Transfer");
    assert_eq!(capitalize("Transfer"), "Transfer");
    assert_eq!(capitalize("x"), "X");
    assert_eq!(capitalize("_private"), "_private");
    assert_eq!(capitalize("\u{e9}tage"), "\u{c9}tage");
    assert_eq!(capitalize("\u{df}eta"), "SSeta");
}
