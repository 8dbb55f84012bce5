use manganis::builder::font;
use manganis::font::{
    ConfigErrorKind, FontFamilies, FontOption, FontOptionKind, FontWeights, OptionValue,
    ParseFontOptions, option_kind,
};
use manganis::text::{decimal_string, join_strings, replace_spaces};

fn options(
    families: &[&str],
    weights: &[u32],
    text: Option<&str>,
    display: Option<&str>,
) -> ParseFontOptions {
    ParseFontOptions {
        families: FontFamilies { families: families.iter().map(|f| f.to_string()).collect() },
        weights: FontWeights { weights: weights.to_vec() },
        text: text.map(|t| t.to_string()),
        display: display.map(|d| d.to_string()),
    }
}

#[test]
fn url_with_every_option_keeps_segment_order() {
    let o = options(&["Roboto", "Open Sans"], &[400, 700], Some("Hi there"), Some("swap"));
    assert_eq!(
        o.url(),
        "https://fonts.googleapis.com/css2?family=Roboto&Open+Sans&weight=400,700&text=Hi+there&display=swap"
    );
}

#[test]
fn url_of_builder_matches_direct_options() {
    let b = font()
        .families(["Roboto", "Open Sans"])
        .weights([400, 700])
        .text("Hi there")
        .display("swap");
    assert_eq!(
        b.options.url(),
        "https://fonts.googleapis.com/css2?family=Roboto&Open+Sans&weight=400,700&text=Hi+there&display=swap"
    );
}

#[test]
fn url_of_empty_options_has_no_query() {
    let o = options(&[], &[], None, None);
    assert_eq!(o.url(), "https://fonts.googleapis.com/css2");
    assert_eq!(ParseFontOptions::empty().url(), "https://fonts.googleapis.com/css2");
}

#[test]
fn url_with_only_weights() {
    let o = options(&[], &[100, 4000000000], None, None);
    assert_eq!(o.url(), "https://fonts.googleapis.com/css2?weight=100,4000000000");
}

#[test]
fn url_with_only_display_replaces_spaces() {
    let o = options(&[], &[], None, Some("a b  c"));
    assert_eq!(o.url(), "https://fonts.googleapis.com/css2?display=a+b++c");
}

#[test]
fn url_passes_other_characters_through() {
    let o = options(&["Noto Sans JP"], &[], Some("Hello, world!"), None);
    assert_eq!(
        o.url(),
        "https://fonts.googleapis.com/css2?family=Noto+Sans+JP&text=Hello,+world!"
    );
}

#[test]
fn text_helpers_give_exact_results() {
    assert_eq!(replace_spaces(" x y "), "+x+y+");
    assert_eq!(decimal_string(0), "0");
    assert_eq!(decimal_string(4294967295), "4294967295");
    let parts = vec!["a".to_string(), "b".to_string(), "c".to_string()];
    assert_eq!(join_strings(&parts, "&"), "a&b&c");
    assert_eq!(join_strings(&Vec::new(), "&"), "");
}

fn entry(key: &str, value: OptionValue) -> FontOption {
    FontOption { key: key.to_string(), value }
}

#[test]
fn parse_reads_all_four_options() {
    let entries = vec![
        entry("families", OptionValue::Strings(vec!["Roboto".to_string()])),
        entry("Weights", OptionValue::Integers(vec![200])),
        entry("TEXT", OptionValue::Text("Hello".to_string())),
        entry("display", OptionValue::Text("swap".to_string())),
    ];
    let o = ParseFontOptions::parse(&entries).ok().unwrap();
    assert_eq!(
        o.url(),
        "https://fonts.googleapis.com/css2?family=Roboto&weight=200&text=Hello&display=swap"
    );
}

#[test]
fn parse_later_entry_replaces_earlier() {
    let entries = vec![
        entry("text", OptionValue::Text("one".to_string())),
        entry("text", OptionValue::Text("two".to_string())),
    ];
    let o = ParseFontOptions::parse(&entries).ok().unwrap();
    assert_eq!(o.text.as_deref(), Some("two"));
}

#[test]
fn parse_rejects_unknown_option_naming_it() {
    let entries = vec![
        entry("families", OptionValue::Strings(vec!["Roboto".to_string()])),
        entry("Style", OptionValue::Text("italic".to_string())),
    ];
    let e = ParseFontOptions::parse(&entries).err().unwrap();
    assert_eq!(e.kind, ConfigErrorKind::UnknownOption);
    assert_eq!(e.key, "Style");
}

#[test]
fn parse_rejects_value_of_wrong_shape() {
    let entries = vec![entry("weights", OptionValue::Text("bold".to_string()))];
    let e = ParseFontOptions::parse(&entries).err().unwrap();
    assert_eq!(e.kind, ConfigErrorKind::InvalidValue);
    assert_eq!(e.key, "weights");
}

#[test]
fn parse_rejects_empty_family_list() {
    let entries = vec![entry("families", OptionValue::Strings(vec![]))];
    let e = ParseFontOptions::parse(&entries).err().unwrap();
    assert_eq!(e.kind, ConfigErrorKind::InvalidValue);
    assert_eq!(e.key, "families");
}

#[test]
fn parse_of_no_entries_is_empty_options() {
    let o = ParseFontOptions::parse(&Vec::new()).ok().unwrap();
    assert_eq!(o.url(), "https://fonts.googleapis.com/css2");
}

#[test]
fn option_kind_recognises_exactly_four_names() {
    assert_eq!(option_kind("families"), Some(FontOptionKind::Families));
    assert_eq!(option_kind("weights"), Some(FontOptionKind::Weights));
    assert_eq!(option_kind("text"), Some(FontOptionKind::Text));
    assert_eq!(option_kind("display"), Some(FontOptionKind::Display));
    assert_eq!(option_kind("Families"), None);
    assert_eq!(option_kind("family"), None);
}
