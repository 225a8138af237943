use ccrl_notify::live::{CcrlLivePlayer, CcrlLiveRoom, EngineName};

#[test]
fn test_matches_does_not_match_substring() {
    let player = CcrlLivePlayer::new("Lunar");

    assert!(player.matches("Lunar"));
    assert!(!player.matches("Luna"));
}

#[test]
fn test_matches_ignores_version() {
    assert!(CcrlLivePlayer::new("Lunar 2").matches("Lunar"));
    assert!(CcrlLivePlayer::new("Lunar 2.0").matches("Lunar"));
    assert!(CcrlLivePlayer::new("Lunar 2.0.1").matches("Lunar"));
}

#[test]
fn test_matches_ignores_case() {
    assert!(CcrlLivePlayer::new("LUNAR").matches("Lunar 2"));
    assert!(CcrlLivePlayer::new("Lunar 2.0.1").matches("LUNAR"));
}

#[test]
fn test_matches_strips_bitness() {
    assert!(CcrlLivePlayer::new("RookieMonster 1.9.9 64-bit").matches("rookiemonster"));
    assert!(CcrlLivePlayer::new("Betsabe_II 2023").matches("betsabe_ii"));
}

fn normalized_string(name: &str) -> String {
    EngineName::new(name).normalized().iter().collect()
}

#[test]
fn test_normalize_is_idempotent_on_samples() {
    for name in [
        "Lunar 2.0.1",
        "RookieMonster 1.9.9 64-bit",
        "Stockfish V17",
        "  Ethereal  ",
        "Betsabe_II 2023",
        "plain",
        "",
    ] {
        let once = normalized_string(name);
        let twice = normalized_string(&once);
        assert_eq!(once, twice);
    }
}

#[test]
fn test_normalize_exact_values() {
    assert_eq!(normalized_string("Lunar 2.0.1"), "lunar");
    assert_eq!(normalized_string("LUNAR"), "lunar");
    assert_eq!(normalized_string("RookieMonster 1.9.9 64-bit"), "rookiemonster");
    assert_eq!(normalized_string("Stockfish v17"), "stockfish");
    assert_eq!(normalized_string("Luna"), "luna");
}

#[test]
fn test_engine_name_equality_is_normalized() {
    assert!(EngineName::new("Lunar 2") == EngineName::new("LUNAR"));
    assert!(EngineName::new("Lunar") != EngineName::new("Luna"));
}

#[test]
fn test_room_urls() {
    let room = CcrlLiveRoom::new("42");
    assert_eq!(room.code(), "42");
    assert_eq!(room.url(), "https://ccrl.live/42");
    assert_eq!(room.pgn_url(), "https://ccrl.live/42/pgn");
}
