use uninvited::brains::{active, catalog, find, ACTIVE};
use uninvited::game::rounds_total;
use uninvited::text::parse_u8;

#[test]
fn parse_u8_follows_str_parse() {
    for s in ["0", "7", "+7", "255", "256", "007", "", "+", "-", "-1", " 3", "3 ", "12a", "99999999999"] {
        assert_eq!(parse_u8(s), s.parse::<u8>().ok(), "{s:?}");
    }
}

#[test]
fn rounds_total_reads_the_setting_or_defaults_to_two() {
    assert_eq!(rounds_total(None), 2);
    assert_eq!(rounds_total(Some("5".to_string())), 5);
    assert_eq!(rounds_total(Some("lots".to_string())), 2);
    assert_eq!(rounds_total(Some("300".to_string())), 2);
}

#[test]
fn brain_catalog_finds_the_active_brain() {
    assert_eq!(catalog().len(), 1);
    let b = active();
    assert_eq!(b.id, ACTIVE);
    assert_eq!(b.main_file, "gemma-4-E2B_q4_0-it.gguf");
    assert_eq!(b.main_size_bytes, 3_350_000_000);
    assert!(find("gemma-4-e2b").is_some());
    assert!(find("gemma").is_none());
    assert_eq!(
        b.resolve_url(b.main_file),
        "https://huggingface.co/google/gemma-4-E2B-it-qat-q4_0-gguf/resolve/main/gemma-4-E2B_q4_0-it.gguf"
    );
}
