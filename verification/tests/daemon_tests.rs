use deepseek_tui_modes::daemon::{health_timeout, new_daemon_identity, run_dir_name, serve_args, DaemonError, HealthBackoff};

#[test]
fn identity_is_a_v4_uuid() {
    let id = new_daemon_identity();
    assert_eq!(id.auth_token.len(), 36);
    assert_eq!(&id.auth_token[14..15], "4");
    assert_eq!(id.run_dir_name, format!("deepseek-tui-modes-{}", &id.auth_token[..8]));
    let other = new_daemon_identity();
    assert_ne!(id.auth_token, other.auth_token);
}

#[test]
fn run_dir_uses_first_eight_characters() {
    assert_eq!(run_dir_name("0123456789abcdef"), "deepseek-tui-modes-01234567");
}

#[test]
fn serve_arguments() {
    assert_eq!(
        serve_args(8080, "tok"),
        vec!["serve", "--http", "--port", "8080", "--auth-token", "tok"]
    );
}

#[test]
fn backoff_doubles_up_to_five_seconds() {
    let mut b = HealthBackoff::new();
    let delays: Vec<u64> = (0..10).map(|_| b.next_delay_ms()).collect();
    assert_eq!(delays, vec![50, 100, 200, 400, 800, 1600, 3200, 5000, 5000, 5000]);
    assert!(matches!(health_timeout(), DaemonError::HealthTimeout { timeout: 10 }));
}
