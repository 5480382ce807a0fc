//! The daemon's launch parameters and the back-off of its health check.
use vstd::prelude::*;
use vstd::string::*;

use crate::numbers::{decimal, decimal_string};
use crate::text::concat2;

verus! {

#[derive(Debug)]
pub enum DaemonError {
    PortBind(std::io::Error),
    Spawn(std::io::Error),
    HealthTimeout { timeout: u64 },
}

/// `c` is a lowercase hexadecimal digit.
pub open spec fn is_lower_hex(c: char) -> bool {
    ('0' <= c && c <= '9') || ('a' <= c && c <= 'f')
}

/// `s` is a random (version 4) UUID in hyphenated lowercase form.
pub open spec fn is_v4_uuid_text(s: Seq<char>) -> bool {
    &&& s.len() == 36
    &&& s[8] == '-' && s[13] == '-' && s[18] == '-' && s[23] == '-'
    &&& forall|i: int|
        0 <= i < 36 && i != 8 && i != 13 && i != 18 && i != 23 ==> is_lower_hex(#[trigger] s[i])
    &&& s[14] == '4'
    &&& (s[19] == '8' || s[19] == '9' || s[19] == 'a' || s[19] == 'b')
}

/// A fresh random token: `uuid::Uuid::new_v4()` written with `to_string`.
/// Claimed: the text is a version-4 UUID in hyphenated lowercase form.
/// The value is random, so nothing else is claimed; the call panics when
/// the operating system gives no random bytes.
#[verifier::external_body]
fn new_v4_token() -> (r: String)
    ensures
        is_v4_uuid_text(r@),
{
    uuid::Uuid::new_v4().to_string()
}

/// The name of the directory for a run's daemon logs.
pub open spec fn run_dir_name_spec(token: Seq<char>) -> Seq<char> {
    "deepseek-tui-modes-"@ + token.take(8)
}

/// The arguments that start the daemon on `port` with `token`.
pub open spec fn serve_args_spec(port: u16, token: Seq<char>) -> Seq<Seq<char>> {
    seq!["serve"@, "--http"@, "--port"@, decimal(port as nat), "--auth-token"@, token]
}

/// What a daemon run is known by: its auth token and its log directory's
/// name.
pub struct DaemonIdentity {
    pub auth_token: String,
    pub run_dir_name: String,
}

/// The name of the directory for a run's daemon logs: a fixed prefix and
/// the token's first eight characters.
pub fn run_dir_name(token: &str) -> (r: String)
    requires
        token@.len() >= 8,
        forall|i: int| 0 <= i < 8 ==> (#[trigger] token@[i] as int) < 128,
    ensures
        r@ == run_dir_name_spec(token@),
{
    let head = token.substring_char(0, 8);
    concat2("deepseek-tui-modes-", head)
}

/// A fresh identity for a daemon run.
pub fn new_daemon_identity() -> (r: DaemonIdentity)
    ensures
        is_v4_uuid_text(r.auth_token@),
        r.run_dir_name@ == run_dir_name_spec(r.auth_token@),
{
    let auth_token = new_v4_token();
    let run_dir_name = run_dir_name(auth_token.as_str());
    DaemonIdentity { auth_token, run_dir_name }
}

/// The arguments that start the daemon on `port` with `token`.
pub fn serve_args(port: u16, token: &str) -> (r: Vec<String>)
    ensures
        r.deep_view() == serve_args_spec(port, token@),
{
    let mut r: Vec<String> = Vec::new();
    r.push(String::from_str("serve"));
    r.push(String::from_str("--http"));
    r.push(String::from_str("--port"));
    r.push(decimal_string(port as u64));
    r.push(String::from_str("--auth-token"));
    r.push(String::from_str(token));
    assert(r.deep_view() =~= serve_args_spec(port, token@));
    r
}

// ---------------------------------------------------------------------------
// Health-check back-off
// ---------------------------------------------------------------------------

/// The longest pause between two health checks, in milliseconds.
pub open spec fn max_delay_ms() -> u64 {
    5000
}

/// The pause before the first retry, in milliseconds.
pub open spec fn initial_delay_ms() -> u64 {
    50
}

/// The pause after `k` failed health checks.
pub open spec fn backoff_delay(k: nat) -> u64
    decreases k,
{
    if k == 0 {
        initial_delay_ms()
    } else {
        let d = backoff_delay((k - 1) as nat);
        if 2 * d < max_delay_ms() {
            (2 * d) as u64
        } else {
            max_delay_ms()
        }
    }
}

/// The pauses between health checks: doubling from 50 ms up to 5 s.
pub struct HealthBackoff {
    delay_ms: u64,
    attempts: Ghost<nat>,
}

impl View for HealthBackoff {
    type V = nat;

    /// The number of pauses taken so far.
    closed spec fn view(&self) -> nat {
        self.attempts@
    }
}

impl HealthBackoff {
    #[verifier::type_invariant]
    spec fn delay_matches(self) -> bool {
        self.delay_ms == backoff_delay(self.attempts@)
    }

    /// No pause taken yet.
    pub fn new() -> (r: Self)
        ensures
            r@ == 0,
    {
        HealthBackoff { delay_ms: 50, attempts: Ghost(0) }
    }

    /// The pause to take after a failed check; the next one doubles, up to
    /// 5 s.
    pub fn next_delay_ms(&mut self) -> (r: u64)
        ensures
            r == backoff_delay(old(self)@),
            final(self)@ == old(self)@ + 1,
    {
        proof {
            use_type_invariant(&*self);
            lemma_backoff_bounds(self.attempts@);
        }
        let r = self.delay_ms;
        let next: u64 = if r < 2500 {
            r * 2
        } else {
            5000
        };
        let ghost k = self.attempts@ + 1;
        assert(next == backoff_delay(k));
        *self = HealthBackoff { delay_ms: next, attempts: Ghost(k) };
        r
    }
}

/// The failure when the daemon never answered its health check in time.
pub fn health_timeout() -> (r: DaemonError)
    ensures
        r matches DaemonError::HealthTimeout { timeout } && timeout == 10,
{
    DaemonError::HealthTimeout { timeout: 10 }
}

/// The pauses stay between 50 ms and 5 s, never shrink, and reach 5 s from
/// the seventh on.
pub proof fn lemma_backoff_bounds(k: nat)
    ensures
        initial_delay_ms() <= backoff_delay(k) <= max_delay_ms(),
        backoff_delay(k) <= backoff_delay(k + 1),
        k >= 7 ==> backoff_delay(k) == max_delay_ms(),
    decreases k,
{
    if k > 0 {
        lemma_backoff_bounds((k - 1) as nat);
    }
    if k >= 7 {
        lemma_backoff_reaches_max(k);
    }
}

proof fn lemma_backoff_reaches_max(k: nat)
    requires
        k >= 7,
    ensures
        backoff_delay(k) == max_delay_ms(),
    decreases k,
{
    if k == 7 {
        reveal_with_fuel(backoff_delay, 8);
    } else {
        lemma_backoff_reaches_max((k - 1) as nat);
    }
}

} // verus!
