use bytewatch::control::{key_action, poll_timeout_nanos, tick_due, KeyAction, KeyInput, TICK_RATE_MILLIS};
use bytewatch::process::SortBy;
use bytewatch::view::{format_throughput, format_used_total, process_list_title, visible_process_rows};

#[test]
fn keys_map_to_actions() {
    assert_eq!(key_action(KeyInput::Char('q')), KeyAction::Quit);
    assert_eq!(key_action(KeyInput::Esc), KeyAction::Quit);
    assert_eq!(key_action(KeyInput::Char('r')), KeyAction::RefreshNow);
    assert_eq!(key_action(KeyInput::Char('Q')), KeyAction::Ignore);
    assert_eq!(key_action(KeyInput::Char('x')), KeyAction::Ignore);
    assert_eq!(key_action(KeyInput::Other), KeyAction::Ignore);
}

#[test]
fn timeout_is_what_is_left_of_the_tick() {
    let tick = TICK_RATE_MILLIS as u128 * 1_000_000;
    assert_eq!(poll_timeout_nanos(tick, 0), tick);
    assert_eq!(poll_timeout_nanos(tick, 250_000_000), 750_000_000);
    assert_eq!(poll_timeout_nanos(tick, tick), 0);
    assert_eq!(poll_timeout_nanos(tick, tick + 5), 0);
}

#[test]
fn ticks_fall_due_at_the_rate() {
    assert!(!tick_due(999_999_999, 1_000_000_000));
    assert!(tick_due(1_000_000_000, 1_000_000_000));
    assert!(tick_due(3_000_000_000, 1_000_000_000));
}

#[test]
fn table_titles_and_rows() {
    assert_eq!(process_list_title(SortBy::Cpu), "Processes (sorted by CPU)");
    assert_eq!(process_list_title(SortBy::Memory), "Processes (sorted by Memory)");
    assert_eq!(process_list_title(SortBy::Name), "Processes (sorted by Name)");
    assert_eq!(process_list_title(SortBy::Pid), "Processes (sorted by PID)");
    assert_eq!(visible_process_rows(0), 0);
    assert_eq!(visible_process_rows(1), 0);
    assert_eq!(visible_process_rows(2), 0);
    assert_eq!(visible_process_rows(30), 28);
}

#[test]
fn figure_texts() {
    assert_eq!(format_used_total(1024, 2048), "1.00 KB / 2.00 KB");
    assert_eq!(format_used_total(0, 0), "0.00 B / 0.00 B");
    assert_eq!(format_throughput(1536, 10), "\u{2193} 1.50 KB/s  \u{2191} 10.00 B /s");
}
