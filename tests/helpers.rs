use music_bot::paths::{get_guild_temp_dir, push_decimal, temp_root};
use music_bot::source::{is_link_request, latest_file, search_query};

#[test]
fn guild_dir_layout() {
    assert_eq!(get_guild_temp_dir(42), "/tmp/music_bot_downloads/guild_42");
    assert_eq!(get_guild_temp_dir(0), "/tmp/music_bot_downloads/guild_0");
    assert_eq!(
        get_guild_temp_dir(u64::MAX),
        "/tmp/music_bot_downloads/guild_18446744073709551615"
    );
    assert_eq!(temp_root(), "/tmp/music_bot_downloads");
}

#[test]
fn decimal_rendering() {
    let mut t = String::from("n=");
    push_decimal(&mut t, 1070);
    assert_eq!(t, "n=1070");
}

#[test]
fn links_pass_through_and_text_is_searched() {
    assert_eq!(search_query("https://example.com/v"), "https://example.com/v");
    assert_eq!(search_query("never gonna"), "ytsearch1:never gonna");
    assert_eq!(search_query("htt"), "ytsearch1:htt");
    assert_eq!(search_query(""), "ytsearch1:");
    assert!(is_link_request("http"));
    assert!(!is_link_request("Http://x"));
}

#[test]
fn latest_file_picks_newest() {
    let files = vec![
        ("a".to_string(), 5u128),
        ("b".to_string(), 9u128),
        ("c".to_string(), 9u128),
        ("d".to_string(), 1u128),
    ];
    assert_eq!(latest_file(&files), Some("b".to_string()));
    assert_eq!(latest_file(&vec![("z".to_string(), 0u128)]), None);
    assert_eq!(latest_file(&Vec::new()), None);
}
