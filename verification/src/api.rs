//! The daemon protocol's decisions: the version check, the pre-flight
//! prompt and the scan of the pre-flight event stream.
use vstd::prelude::*;
use vstd::string::*;

use crate::numbers::{digit_prefix, is_digit, parse_u64, parse_u64_spec};
use crate::text::{concat2, concat3};

verus! {

#[derive(Debug)]
pub enum ApiError {
    DoctorExec(String),
    DoctorParse(String),
    VersionTooOld { version: String },
    ThreadCreate { status: u16, body: String },
    ProbeFailed { status: u16, body: String },
    PreFlightTimeout { timeout: u64 },
    SentinelFailed { actual: String },
    Http(reqwest::Error),
    Io(std::io::Error),
    Other(String),
}

// ---------------------------------------------------------------------------
// Version check
// ---------------------------------------------------------------------------

/// The part of `s` before the first `c`, and the part after it.
pub open spec fn split_once(s: Seq<char>, c: char) -> Option<(Seq<char>, Seq<char>)> {
    if s.contains(c) {
        let i = s.index_of_first(c)->0;
        Some((s.take(i), s.skip(i + 1)))
    } else {
        None
    }
}

/// The version that a semver-like string writes: major and minor up to the
/// first two dots, and the leading digits of the rest as the patch.
pub open spec fn parse_version_spec(v: Seq<char>) -> Option<(u64, u64, u64)> {
    match split_once(v, '.') {
        None => None,
        Some((major, rest)) => match split_once(rest, '.') {
            None => None,
            Some((minor, patch)) => match (
                parse_u64_spec(major),
                parse_u64_spec(minor),
                parse_u64_spec(digit_prefix(patch)),
            ) {
                (Some(a), Some(b), Some(c)) => Some((a, b, c)),
                _ => None,
            },
        },
    }
}

/// `a` is an earlier version than `b`.
pub open spec fn version_lt(a: (u64, u64, u64), b: (u64, u64, u64)) -> bool {
    a.0 < b.0 || (a.0 == b.0 && (a.1 < b.1 || (a.1 == b.1 && a.2 < b.2)))
}

/// The oldest version of the daemon that is supported.
pub open spec fn min_version() -> (u64, u64, u64) {
    (0, 8, 10)
}

/// What the version check decides on the version the daemon reports.
pub open spec fn check_version_outcome(version: Seq<char>) -> Result<(), ApiFailure> {
    match parse_version_spec(version) {
        None => Err(ApiFailure::DoctorParse("unparseable version string: "@ + version)),
        Some(v) => if version_lt(v, min_version()) {
            Err(ApiFailure::VersionTooOld { version })
        } else {
            Ok(())
        },
    }
}

/// The version-check failures as plain values.
pub enum ApiFailure {
    DoctorParse(Seq<char>),
    VersionTooOld { version: Seq<char> },
}

/// The first position of `c` in `s`, if any.
fn find_char(s: &str, from: usize, c: char) -> (r: Option<usize>)
    requires
        from <= s@.len(),
    ensures
        match r {
            Some(i) => from <= i < s@.len() && s@[i as int] == c && forall|k: int|
                from <= k < i ==> s@[k] != c,
            None => forall|k: int| from <= k < s@.len() ==> s@[k] != c,
        },
{
    let n = s.unicode_len();
    let mut i = from;
    while i < n
        invariant
            n == s@.len(),
            from <= i <= n,
            forall|k: int| from <= k < i ==> s@[k] != c,
        decreases n - i,
    {
        if s.get_char(i) == c {
            return Some(i);
        }
        i = i + 1;
    }
    None
}

/// Whether `c` is an ASCII digit.
fn is_digit_char(c: char) -> (r: bool)
    ensures
        r == is_digit(c),
{
    '0' <= c && c <= '9'
}

/// The number of leading digits of `s` from `from` on.
fn digit_run(s: &str, from: usize) -> (r: usize)
    requires
        from <= s@.len(),
    ensures
        from <= r <= s@.len(),
        s@.subrange(from as int, r as int) == digit_prefix(s@.skip(from as int)),
{
    let n = s.unicode_len();
    let mut i = from;
    while i < n && is_digit_char(s.get_char(i))
        invariant
            n == s@.len(),
            from <= i <= n,
            forall|k: int| from <= k < i ==> is_digit(s@[k]),
        decreases n - i,
    {
        i = i + 1;
    }
    proof {
        lemma_digit_prefix(s@.skip(from as int), i - from);
        assert(s@.skip(from as int).take(i - from) =~= s@.subrange(from as int, i as int));
    }
    i
}

/// The leading digits of a string are its first `k` characters when those
/// are digits and the next is not.
proof fn lemma_digit_prefix(s: Seq<char>, k: int)
    requires
        0 <= k <= s.len(),
        forall|j: int| 0 <= j < k ==> is_digit(s[j]),
        k == s.len() || !is_digit(s[k]),
    ensures
        digit_prefix(s) == s.take(k),
    decreases k,
{
    if k == 0 {
        assert(s.take(0) =~= Seq::<char>::empty());
    } else {
        lemma_digit_prefix(s.drop_first(), k - 1);
        assert(s.take(k) =~= seq![s[0]] + s.drop_first().take(k - 1));
    }
}

/// Parses a semver-like string into a comparable tuple.
pub fn parse_version(v: &str) -> (r: Option<(u64, u64, u64)>)
    ensures
        r == parse_version_spec(v@),
{
    let n = v.unicode_len();
    let first = match find_char(v, 0, '.') {
        Some(i) => i,
        None => {
            return None;
        },
    };
    proof {
        v@.index_of_first_ensures('.');
        assert(v@.contains('.'));
        let j = v@.index_of_first('.')->0;
        assert(j == first as int);
    }
    let ghost rest = v@.skip(first + 1);
    let second = match find_char(v, first + 1, '.') {
        Some(i) => i,
        None => {
            assert(!rest.contains('.')) by {
                if rest.contains('.') {
                    let k = choose|k: int| 0 <= k < rest.len() && rest[k] == '.';
                    assert(v@[first + 1 + k] == '.');
                }
            }
            return None;
        },
    };
    proof {
        assert(rest[second - first - 1] == '.');
        assert(rest.contains('.'));
        rest.index_of_first_ensures('.');
        let j = rest.index_of_first('.')->0;
        assert(v@[first + 1 + j] == '.');
        assert(j == second - first - 1);
        assert(rest.take(j) =~= v@.subrange(first + 1, second as int));
        assert(rest.skip(j + 1) =~= v@.skip(second + 1));
        assert(v@.take(first as int) =~= v@.subrange(0, first as int));
    }
    let major = v.substring_char(0, first);
    let minor = v.substring_char(first + 1, second);
    let end = digit_run(v, second + 1);
    let patch = v.substring_char(second + 1, end);
    let a = parse_u64(major);
    let b = parse_u64(minor);
    let c = parse_u64(patch);
    match (a, b, c) {
        (Some(a), Some(b), Some(c)) => Some((a, b, c)),
        _ => None,
    }
}

/// Whether `a` is an earlier version than `b`.
pub fn version_less(a: (u64, u64, u64), b: (u64, u64, u64)) -> (r: bool)
    ensures
        r == version_lt(a, b),
{
    a.0 < b.0 || (a.0 == b.0 && (a.1 < b.1 || (a.1 == b.1 && a.2 < b.2)))
}

/// The version-check decision on the version the daemon reports: it must
/// parse, and be at least 0.8.10.
pub fn check_doctor_version(version: &str) -> (r: Result<(), ApiError>)
    ensures
        match check_version_outcome(version@) {
            Ok(()) => r is Ok,
            Err(ApiFailure::DoctorParse(m)) => r matches Err(ApiError::DoctorParse(s)) && s@ == m,
            Err(ApiFailure::VersionTooOld { version: v }) => r matches Err(
                ApiError::VersionTooOld { version: s },
            ) && s@ == v,
        },
{
    match parse_version(version) {
        None => Err(ApiError::DoctorParse(concat2("unparseable version string: ", version))),
        Some(v) => {
            if version_less(v, (0, 8, 10)) {
                Err(ApiError::VersionTooOld { version: String::from_str(version) })
            } else {
                Ok(())
            }
        },
    }
}

// ---------------------------------------------------------------------------
// Pre-flight
// ---------------------------------------------------------------------------

/// The directive that asks the model for the sentinel.
pub open spec fn sentinel_directive() -> Seq<char> {
    "\n\n## Pre-flight directive\n\nYou are also operating under a pre-flight test directive. When the first user message arrives, ignore its content and respond with exactly:\n\nTANGERINE-7\n"@
}

/// The word the pre-flight answer must hold.
pub open spec fn sentinel() -> Seq<char> {
    "TANGERINE-7"@
}

/// The pre-flight thread's prompt: the assembled prompt, a blank line, then
/// the directive.
pub fn preflight_prompt(clean_prompt: &str) -> (r: String)
    ensures
        r@ == clean_prompt@ + "\n\n"@ + sentinel_directive(),
{
    concat3(
        clean_prompt,
        "\n\n",
        "\n\n## Pre-flight directive\n\nYou are also operating under a pre-flight test directive. When the first user message arrives, ignore its content and respond with exactly:\n\nTANGERINE-7\n",
    )
}

/// What an event of the stream holds when its text is a JSON value: its
/// `type`, its `payload.kind` and its `payload.delta`, each where it is a
/// string.
pub uninterp spec fn stream_event_fields(data: Seq<char>) -> Option<
    (Option<Seq<char>>, Option<Seq<char>>, Option<Seq<char>>),
>;

/// The fields of a stream event that the scan reads.
pub struct StreamEvent {
    pub event_type: Option<String>,
    pub payload_kind: Option<String>,
    pub payload_delta: Option<String>,
}

/// Parses an event's text with `serde_json::from_str` into a
/// `serde_json::Value` and picks three fields of it with `Value::get("type")`,
/// `Value::pointer("/payload/kind")` and `Value::pointer("/payload/delta")`,
/// each kept through `Value::as_str` only where it is a JSON string.
/// Claimed: the result is set exactly when `stream_event_fields` of the text
/// is (the text is JSON), and then holds those three fields. What JSON
/// parsing gives is named, not stated.
#[verifier::external_body]
fn parse_stream_event(data: &str) -> (r: Option<StreamEvent>)
    ensures
        match r {
            Some(e) => stream_event_fields(data@) == Some(
                (e.event_type.deep_view(), e.payload_kind.deep_view(), e.payload_delta.deep_view()),
            ),
            None => stream_event_fields(data@) is None,
        },
{
    let v: serde_json::Value = serde_json::from_str(data).ok()?;
    Some(StreamEvent {
        event_type: v.get("type").and_then(serde_json::Value::as_str).map(String::from),
        payload_kind: v.pointer("/payload/kind").and_then(serde_json::Value::as_str).map(String::from),
        payload_delta: v.pointer("/payload/delta").and_then(serde_json::Value::as_str).map(String::from),
    })
}

/// `s` starts with `prefix`.
pub open spec fn has_prefix(s: Seq<char>, prefix: Seq<char>) -> bool {
    prefix.len() <= s.len() && s.take(prefix.len() as int) == prefix
}

/// `s` holds `part` somewhere.
pub open spec fn contains_seq(s: Seq<char>, part: Seq<char>) -> bool {
    exists|i: int| 0 <= i && i + part.len() <= s.len() && #[trigger] s.subrange(i, i + part.len()) == part
}

/// The text that one line of the event stream adds to the answer: the delta
/// of an `item.delta` event whose payload is an `agent_message`.
pub open spec fn line_delta(line: Seq<char>) -> Seq<char> {
    if has_prefix(line, "data: "@) {
        match stream_event_fields(line.skip(6)) {
            Some((Some(t), Some(k), Some(d))) => if t == "item.delta"@ && k == "agent_message"@ {
                d
            } else {
                seq![]
            },
            _ => seq![],
        }
    } else {
        seq![]
    }
}

/// The scan of the pre-flight event stream: the answer so far.
pub struct PreflightScan {
    response_text: String,
}

impl View for PreflightScan {
    type V = Seq<char>;

    closed spec fn view(&self) -> Seq<char> {
        self.response_text@
    }
}

fn str_has_prefix(s: &str, prefix: &str) -> (r: bool)
    ensures
        r == has_prefix(s@, prefix@),
{
    let m = prefix.unicode_len();
    if m > s.unicode_len() {
        return false;
    }
    let mut i: usize = 0;
    while i < m
        invariant
            m == prefix@.len(),
            m <= s@.len(),
            i <= m,
            forall|k: int| 0 <= k < i ==> s@[k] == prefix@[k],
        decreases m - i,
    {
        if s.get_char(i) != prefix.get_char(i) {
            assert(s@.take(m as int)[i as int] != prefix@[i as int]);
            return false;
        }
        i = i + 1;
    }
    assert(s@.take(m as int) =~= prefix@);
    true
}

/// Whether `s` holds `part` somewhere.
fn str_contains(s: &str, part: &str) -> (r: bool)
    ensures
        r == contains_seq(s@, part@),
{
    let n = s.unicode_len();
    let m = part.unicode_len();
    if m > n {
        return false;
    }
    let mut i: usize = 0;
    while i <= n - m
        invariant
            n == s@.len(),
            m == part@.len(),
            m <= n,
            i <= n - m + 1,
            forall|k: int| 0 <= k < i ==> #[trigger] s@.subrange(k, k + m) != part@,
        decreases n - m + 1 - i,
    {
        let mut j: usize = 0;
        let mut same = true;
        while j < m
            invariant
                n == s@.len(),
                m == part@.len(),
                i + m <= n,
                j <= m,
                same == forall|k: int| 0 <= k < j ==> s@[i + k] == part@[k],
            decreases m - j,
        {
            if s.get_char(i + j) != part.get_char(j) {
                same = false;
            }
            j = j + 1;
        }
        if same {
            assert(s@.subrange(i as int, i + m) =~= part@);
            return true;
        }
        assert(s@.subrange(i as int, i + m) != part@) by {
            let k = choose|k: int| 0 <= k < m && s@[i + k] != part@[k];
            assert(s@.subrange(i as int, i + m)[k] != part@[k]);
        }
        i = i + 1;
    }
    assert forall|k: int| 0 <= k && k + m <= n implies #[trigger] s@.subrange(k, k + m) != part@ by {
        assert(k < i);
    }
    false
}

impl PreflightScan {
    /// A scan that has read nothing.
    pub fn new() -> (r: Self)
        ensures
            r@ == Seq::<char>::empty(),
    {
        PreflightScan { response_text: String::new() }
    }

    /// Reads one line of the event stream; true when the answer so far holds
    /// the sentinel.
    pub fn feed_line(&mut self, line: &str) -> (r: bool)
        ensures
            final(self)@ == old(self)@ + line_delta(line@),
            r == contains_seq(final(self)@, sentinel()),
    {
        proof {
            reveal_strlit("data: ");
            reveal_strlit("item.delta");
            reveal_strlit("agent_message");
        }
        let ghost before = self@;
        if str_has_prefix(line, "data: ") {
            let data = line.substring_char(6, line.unicode_len());
            assert(data@ == line@.skip(6));
            if let Some(event) = parse_stream_event(data) {
                if let (Some(t), Some(k), Some(d)) = (
                    &event.event_type,
                    &event.payload_kind,
                    &event.payload_delta,
                ) {
                    if crate::text::str_eq(t.as_str(), "item.delta") && crate::text::str_eq(
                        k.as_str(),
                        "agent_message",
                    ) {
                        self.response_text.append(d.as_str());
                    }
                }
            }
        }
        assert(self@ =~= before + line_delta(line@));
        str_contains(self.response_text.as_str(), "TANGERINE-7")
    }

    /// The failure when the stream ended without the sentinel.
    pub fn failure(&self) -> (r: ApiError)
        ensures
            r matches ApiError::SentinelFailed { actual } && actual@ == (if self@.len() == 0 {
                "(empty response)"@
            } else {
                self@
            }),
    {
        if self.response_text.as_str().unicode_len() == 0 {
            ApiError::SentinelFailed { actual: String::from_str("(empty response)") }
        } else {
            ApiError::SentinelFailed { actual: self.response_text.clone() }
        }
    }

    /// The answer read so far.
    pub fn response_text(&self) -> (r: &str)
        ensures
            r@ == self@,
    {
        self.response_text.as_str()
    }
}

// ---------------------------------------------------------------------------
// Laws
// ---------------------------------------------------------------------------

/// A version that passes the check stays passing for every later version.
pub proof fn lemma_version_check_monotone(v: Seq<char>, w: Seq<char>)
    requires
        check_version_outcome(v) is Ok,
        parse_version_spec(w) is Some,
        !version_lt(parse_version_spec(w)->0, parse_version_spec(v)->0),
    ensures
        check_version_outcome(w) is Ok,
{
}

/// A string without a given character splits on nothing.
proof fn lemma_digits_no_dot(s: Seq<char>)
    requires
        forall|i: int| 0 <= i < s.len() ==> is_digit(#[trigger] s[i]),
    ensures
        !s.contains('.'),
{
}

/// Splitting `a + [c] + b`, where `a` has no `c`, at the first `c` gives
/// `a` and `b`.
proof fn lemma_split_once_concat(a: Seq<char>, b: Seq<char>, c: char)
    requires
        !a.contains(c),
    ensures
        split_once(a + seq![c] + b, c) == Some((a, b)),
{
    let s = a + seq![c] + b;
    assert(s[a.len() as int] == c);
    assert(s.contains(c));
    s.index_of_first_ensures(c);
    let i = s.index_of_first(c)->0;
    if i < a.len() {
        assert(a[i] == c);
    }
    assert(i == a.len());
    assert(s.take(i) =~= a);
    assert(s.skip(i + 1) =~= b);
}

/// The leading digits of digits followed by something else are those
/// digits.
proof fn lemma_digit_prefix_all(s: Seq<char>)
    requires
        forall|i: int| 0 <= i < s.len() ==> is_digit(#[trigger] s[i]),
    ensures
        digit_prefix(s) == s,
    decreases s.len(),
{
    if s.len() > 0 {
        lemma_digit_prefix_all(s.drop_first());
        assert(s =~= seq![s[0]] + s.drop_first());
    } else {
        assert(s =~= Seq::<char>::empty());
    }
}

/// Writing a version as `major.minor.patch` in decimal and parsing it gives
/// the version back.
pub proof fn lemma_parse_version_roundtrip(a: u64, b: u64, c: u64)
    ensures
        parse_version_spec(
            crate::numbers::decimal(a as nat) + "."@ + crate::numbers::decimal(b as nat) + "."@
                + crate::numbers::decimal(c as nat),
        ) == Some((a, b, c)),
{
    reveal_strlit(".");
    let da = crate::numbers::decimal(a as nat);
    let db = crate::numbers::decimal(b as nat);
    let dc = crate::numbers::decimal(c as nat);
    crate::numbers::lemma_parse_decimal(a);
    crate::numbers::lemma_parse_decimal(b);
    crate::numbers::lemma_parse_decimal(c);
    crate::numbers::lemma_decimal_all_digits(a as nat);
    crate::numbers::lemma_decimal_all_digits(b as nat);
    crate::numbers::lemma_decimal_all_digits(c as nat);
    let v = da + "."@ + db + "."@ + dc;
    assert(v =~= da + seq!['.'] + (db + seq!['.'] + dc));
    lemma_digits_no_dot(da);
    lemma_split_once_concat(da, db + seq!['.'] + dc, '.');
    lemma_digits_no_dot(db);
    lemma_split_once_concat(db, dc, '.');
    lemma_digit_prefix_all(dc);
}

/// Once the answer holds the sentinel, every longer answer holds it too.
pub proof fn lemma_sentinel_stays_found(text: Seq<char>, more: Seq<char>)
    requires
        contains_seq(text, sentinel()),
    ensures
        contains_seq(text + more, sentinel()),
{
    let p = sentinel();
    let i = choose|i: int| 0 <= i && i + p.len() <= text.len() && #[trigger] text.subrange(i, i + p.len()) == p;
    assert((text + more).subrange(i, i + p.len()) =~= text.subrange(i, i + p.len()));
}

} // verus!
