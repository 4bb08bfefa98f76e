use ecs::game::{GameConfig, GameEvent, NANOS_PER_MILLI};

#[test]
fn sixty_frames_per_second_are_sixteen_milliseconds_each() {
    let config = GameConfig::new(60, (1280, 720));
    assert_eq!(config.target_fps(), 60);
    assert_eq!(config.target_frame_millis(), 16);
    assert_eq!(config.game_size(), (1280, 720));
    assert_eq!(NANOS_PER_MILLI, 1_000_000);
}

#[test]
fn frame_length_is_rounded_down() {
    assert_eq!(GameConfig::new(1, (1, 1)).target_frame_millis(), 1000);
    assert_eq!(GameConfig::new(30, (1, 1)).target_frame_millis(), 33);
    assert_eq!(GameConfig::new(1000, (1, 1)).target_frame_millis(), 1);
    assert_eq!(GameConfig::new(1001, (1, 1)).target_frame_millis(), 0);
    assert_eq!(GameConfig::new(u32::MAX, (1, 1)).target_frame_millis(), 0);
}

#[test]
fn the_rest_of_the_frame_is_what_is_left_of_it() {
    let config = GameConfig::new(60, (1280, 720));
    assert_eq!(config.remaining_frame_nanos(0), 16_000_000);
    assert_eq!(config.remaining_frame_nanos(1), 15_999_999);
    assert_eq!(config.remaining_frame_nanos(4_000_000), 12_000_000);
    assert_eq!(config.remaining_frame_nanos(15_999_999), 1);
    assert_eq!(config.remaining_frame_nanos(16_000_000), 0);
    assert_eq!(config.remaining_frame_nanos(16_000_001), 0);
    assert_eq!(config.remaining_frame_nanos(u128::MAX), 0);
    assert_eq!(GameConfig::new(2000, (1, 1)).remaining_frame_nanos(0), 0);
}

#[test]
fn quit_and_escape_stop_the_game() {
    assert!(GameEvent::Quit.stops_game());
    assert!(GameEvent::EscapeKeyDown.stops_game());
    assert!(!GameEvent::Other.stops_game());
}
