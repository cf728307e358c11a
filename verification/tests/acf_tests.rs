use steamlite::acf::acf_val;

const MANIFEST: &str = "\"AppState\"\n{\n\t\"appid\"\t\t\"570\"\n\t\"Universe\"\t\t\"1\"\n\t\"name\"\t\t\"Dota 2\"\n\t\"StateFlags\"\t\t\"4\"\n\t\"playtime_forever\"\t\t\"1200\"\n}\n";

#[test]
fn acf_val_reads_quoted_values() {
    assert_eq!(acf_val(MANIFEST, "appid"), Some("570".to_string()));
    assert_eq!(acf_val(MANIFEST, "name"), Some("Dota 2".to_string()));
    assert_eq!(acf_val(MANIFEST, "playtime_forever"), Some("1200".to_string()));
}

#[test]
fn acf_val_missing_key_is_none() {
    assert_eq!(acf_val(MANIFEST, "installdir"), None);
}

#[test]
fn acf_val_needs_a_quoted_value() {
    assert_eq!(acf_val("\"appid\"  570", "appid"), None);
    assert_eq!(acf_val("\"appid\" \"570", "appid"), None);
    assert_eq!(acf_val("\"appid\"", "appid"), None);
}

#[test]
fn acf_val_takes_the_first_occurrence() {
    assert_eq!(acf_val("\"name\" \"A\" \"name\" \"B\"", "name"), Some("A".to_string()));
    // A key that is a block is not a value.
    assert_eq!(acf_val("\"name\"\n{\n\"name\" \"B\"", "name"), None);
}

#[test]
fn acf_val_skips_any_whitespace_before_the_value() {
    assert_eq!(acf_val("\"k\"\n\t \u{3000}\"v w\"", "k"), Some("v w".to_string()));
    assert_eq!(acf_val("\"k\"\"\"", "k"), Some(String::new()));
}

#[test]
fn acf_val_reads_back_a_written_entry() {
    for (k, v) in [("appid", "730"), ("name", "Counter-Strike 2"), ("x", "")] {
        let text = format!("\"{}\"\t\t\"{}\"\nrest", k, v);
        assert_eq!(acf_val(&text, k), Some(v.to_string()));
    }
}

#[test]
fn acf_val_reads_the_same_value_in_a_larger_text() {
    let s = "\"name\"\t\t\"Portal 2\"\n";
    assert_eq!(acf_val(s, "name"), Some("Portal 2".to_string()));
    // A prefix without quotes and any suffix do not change it.
    let wider = format!("AppState {{ {}\"name\" \"Other\"\n}}", s);
    assert_eq!(acf_val(&wider, "name"), Some("Portal 2".to_string()));
    // A prefix with a quote may: here the key is found earlier, with no value.
    assert_eq!(acf_val(&format!("\"name{}", s), "name"), None);
}

#[test]
fn acf_val_value_ends_at_the_next_quote() {
    assert_eq!(acf_val("\"k\" \u{3000}\"a b\"c\"", "k"), Some("a b".to_string()));
    assert_eq!(acf_val("\"k\"\"\"", "k"), Some(String::new()));
    assert_eq!(acf_val("\"k\" \"unterminated", "k"), None);
}
