//! Process-wide configuration, read once from environment values, and the
//! OTLP endpoint paths derived from it.
use vstd::prelude::*;
use vstd::string::{StrSliceExecFns, StringExecFns};
use crate::keyed::{entry_of, find_key_str};

verus! {

/// Frozen configuration of the service.
#[derive(Clone, Debug, PartialEq, Eq)]
pub struct Config {
    pub redis_url: String,
    pub amqp_url: String,
    pub mongodb_url: String,
    pub otel_endpoint: String,
    pub rabbitmq_token_queue: String,
    pub rabbitmq_status_queue: String,
    pub rabbitmq_completion_queue: String,
    pub rabbitmq_execution_queue: String,
    pub rabbitmq_consumer_tag: String,
    pub rabbitmq_prefetch_count: u16,
    pub rabbitmq_concurrent_messages: usize,
    pub rabbitmq_queue_durable: bool,
    pub port: u16,
    pub jwt_secret: String,
    pub cors_origin: String,
}

pub open spec fn is_digit(c: char) -> bool {
    '0' <= c <= '9'
}

/// Value of a string of decimal digits.
pub open spec fn digits_value(s: Seq<char>) -> int
    decreases s.len(),
{
    if s.len() == 0 {
        0
    } else {
        digits_value(s.drop_last()) * 10 + (s.last() as int - '0' as int)
    }
}

/// What follows an optional leading `+`.
pub open spec fn unsigned_body(s: Seq<char>) -> Seq<char> {
    if s.len() > 0 && s[0] == '+' {
        s.drop_first()
    } else {
        s
    }
}

/// An optional `+` and at least one digit, as integer parsing reads it.
pub open spec fn unsigned_text(s: Seq<char>) -> Option<int> {
    let body = unsigned_body(s);
    if body.len() > 0 && forall|i: int| 0 <= i < body.len() ==> is_digit(#[trigger] body[i]) {
        Some(digits_value(body))
    } else {
        None
    }
}

/// The number that `s` spells, when it spells one no larger than `max`.
pub open spec fn parsed_up_to(s: Seq<char>, max: int) -> Option<int> {
    match unsigned_text(s) {
        Some(v) if v <= max => Some(v),
        _ => None,
    }
}

proof fn lemma_digits_nonneg(s: Seq<char>)
    requires
        forall|i: int| 0 <= i < s.len() ==> is_digit(#[trigger] s[i]),
    ensures
        digits_value(s) >= 0,
    decreases s.len(),
{
    if s.len() > 0 {
        lemma_digits_nonneg(s.drop_last());
    }
}

/// Parse an unsigned decimal number no larger than `max`.
pub fn parse_unsigned(s: &str, max: u64) -> (r: Option<u64>)
    ensures
        match r {
            Some(v) => parsed_up_to(s@, max as int) == Some(v as int) && v <= max,
            None => parsed_up_to(s@, max as int) is None,
        },
{
    let n = s.unicode_len();
    let mut start: usize = 0;
    if n > 0 && s.get_char(0) == '+' {
        start = 1;
    }
    let ghost body = unsigned_body(s@);
    assert(body =~= s@.subrange(start as int, n as int));
    if start >= n {
        return None;
    }
    let mut value: u64 = 0;
    let mut over = false;
    let mut i: usize = start;
    while i < n
        invariant
            start <= i <= n,
            n == s@.len(),
            body =~= s@.subrange(start as int, n as int),
            body == unsigned_body(s@),
            forall|k: int| 0 <= k < i - start ==> is_digit(#[trigger] body[k]),
            !over ==> value as int == digits_value(body.take(i - start)) && value <= max,
            over ==> digits_value(body.take(i - start)) > max,
        decreases n - i,
    {
        let c = s.get_char(i);
        assert(c == body[i - start]);
        if !('0' <= c && c <= '9') {
            assert(!is_digit(body[i - start]));
            return None;
        }
        let d = (c as u32 - '0' as u32) as u64;
        let ghost prev = digits_value(body.take(i - start));
        assert(body.take(i - start + 1).drop_last() =~= body.take(i - start));
        assert(body.take(i - start + 1).last() == c);
        assert(digits_value(body.take(i - start + 1)) == prev * 10 + d);
        if over {
            assert(prev * 10 + d > max) by (nonlinear_arith)
                requires
                    prev > max,
                    max >= 0,
                    d >= 0,
            ;
        } else if d > max || value > (max - d) / 10 {
            over = true;
            assert(prev * 10 + d > max) by (nonlinear_arith)
                requires
                    prev == value,
                    d > max || value > (max - d) / 10,
                    d >= 0,
                    d <= 9,
                    max >= 0,
            ;
        } else {
            assert(value * 10 + d <= max) by (nonlinear_arith)
                requires
                    value <= (max - d) / 10,
                    d <= max,
                    d >= 0,
            ;
            value = value * 10 + d;
        }
        i = i + 1;
    }
    assert(body.take(n - start) =~= body);
    if over {
        None
    } else {
        Some(value)
    }
}

/// `s` without its trailing slashes.
pub open spec fn trim_end_slashes(s: Seq<char>) -> Seq<char>
    decreases s.len(),
{
    if s.len() > 0 && s.last() == '/' {
        trim_end_slashes(s.drop_last())
    } else {
        s
    }
}

/// `s` without its leading slashes.
pub open spec fn trim_start_slashes(s: Seq<char>) -> Seq<char>
    decreases s.len(),
{
    if s.len() > 0 && s[0] == '/' {
        trim_start_slashes(s.drop_first())
    } else {
        s
    }
}

pub open spec fn ends_with(s: Seq<char>, suffix: Seq<char>) -> bool {
    s.len() >= suffix.len() && s.subrange(s.len() - suffix.len(), s.len() as int) == suffix
}

pub open spec fn strip_signal(t: Seq<char>, suffix: Seq<char>) -> Seq<char> {
    trim_end_slashes(t.subrange(0, t.len() - suffix.len()))
}

/// The collector's base address: trailing slashes dropped, then the first of
/// the per-signal paths `/v1/traces`, `/v1/metrics`, `/v1/logs` that ends it
/// removed, with the slashes before it.
pub open spec fn otlp_base_of(e: Seq<char>) -> Seq<char> {
    let t = trim_end_slashes(e);
    if ends_with(t, "/v1/traces"@) {
        strip_signal(t, "/v1/traces"@)
    } else if ends_with(t, "/v1/metrics"@) {
        strip_signal(t, "/v1/metrics"@)
    } else if ends_with(t, "/v1/logs"@) {
        strip_signal(t, "/v1/logs"@)
    } else {
        t
    }
}

/// Length of `s@.take(n)` without its trailing slashes.
fn trimmed_end_len(s: &str, n: usize) -> (r: usize)
    requires
        n <= s@.len(),
    ensures
        r <= n,
        s@.take(r as int) == trim_end_slashes(s@.take(n as int)),
{
    let mut k = n;
    while k > 0 && s.get_char(k - 1) == '/'
        invariant
            k <= n <= s@.len(),
            trim_end_slashes(s@.take(k as int)) == trim_end_slashes(s@.take(n as int)),
        decreases k,
    {
        assert(s@.take(k as int).drop_last() =~= s@.take(k - 1));
        k = k - 1;
    }
    assert(s@.take(k as int).len() == k);
    k
}

fn has_suffix_at(s: &str, len: usize, suffix: &str) -> (r: bool)
    requires
        len <= s@.len(),
    ensures
        r == ends_with(s@.take(len as int), suffix@),
{
    let m = suffix.unicode_len();
    if m > len {
        return false;
    }
    let base = len - m;
    let mut i: usize = 0;
    while i < m
        invariant
            m == suffix@.len(),
            base + m == len,
            len <= s@.len(),
            i <= m,
            forall|j: int| 0 <= j < i ==> s@[base + j] == suffix@[j],
        decreases m - i,
    {
        if s.get_char(base + i) != suffix.get_char(i) {
            assert(s@.take(len as int).subrange(base as int, len as int)[i as int] != suffix@[i as int]);
            return false;
        }
        i = i + 1;
    }
    assert(s@.take(len as int).subrange(base as int, len as int) =~= suffix@);
    true
}

/// The collector's base address of an OTLP endpoint.
pub fn otlp_base_endpoint(endpoint: &str) -> (r: String)
    ensures
        r@ == otlp_base_of(endpoint@),
{
    let n = endpoint.unicode_len();
    let t = trimmed_end_len(endpoint, n);
    assert(endpoint@.take(n as int) =~= endpoint@);
    let ghost tv = endpoint@.take(t as int);
    let mut cut = t;
    if has_suffix_at(endpoint, t, "/v1/traces") {
        let m = "/v1/traces".unicode_len();
        cut = trimmed_end_len(endpoint, t - m);
        assert(endpoint@.take(t - m) =~= tv.subrange(0, tv.len() - m));
    } else if has_suffix_at(endpoint, t, "/v1/metrics") {
        let m = "/v1/metrics".unicode_len();
        cut = trimmed_end_len(endpoint, t - m);
        assert(endpoint@.take(t - m) =~= tv.subrange(0, tv.len() - m));
    } else if has_suffix_at(endpoint, t, "/v1/logs") {
        let m = "/v1/logs".unicode_len();
        cut = trimmed_end_len(endpoint, t - m);
        assert(endpoint@.take(t - m) =~= tv.subrange(0, tv.len() - m));
    }
    let r = endpoint.substring_char(0, cut).to_owned();
    assert(r@ =~= endpoint@.take(cut as int));
    r
}

/// The address of one signal's path under the collector's base address.
pub fn otlp_endpoint(endpoint: &str, path: &str) -> (r: String)
    ensures
        r@ == otlp_base_of(endpoint@) + "/"@ + trim_start_slashes(path@),
{
    let base = otlp_base_endpoint(endpoint);
    let n = path.unicode_len();
    let mut k: usize = 0;
    assert(path@.subrange(0, n as int) =~= path@);
    while k < n && path.get_char(k) == '/'
        invariant
            k <= n,
            n == path@.len(),
            trim_start_slashes(path@.subrange(k as int, n as int)) == trim_start_slashes(path@),
        decreases n - k,
    {
        assert(path@.subrange(k as int, n as int).drop_first() =~= path@.subrange(k + 1, n as int));
        k = k + 1;
    }
    let rest = path.substring_char(k, n);
    assert(trim_start_slashes(rest@) == rest@);
    let with_slash = base.concat("/");
    with_slash.concat(rest)
}

/// The value set for `name`, else `default`.
pub open spec fn setting_of(vars: Seq<(String, String)>, name: Seq<char>, default: Seq<char>) -> Seq<char> {
    match entry_of(vars, name) {
        Some(v) => v@,
        None => default,
    }
}

/// The number set for `name` when it spells one no larger than `max`, else
/// `default`.
pub open spec fn number_setting_of(vars: Seq<(String, String)>, name: Seq<char>, max: int, default: int) -> int {
    match entry_of(vars, name) {
        Some(v) => match parsed_up_to(v@, max) {
            Some(n) => n,
            None => default,
        },
        None => default,
    }
}

fn setting(vars: &Vec<(String, String)>, name: &str, default: &str) -> (r: String)
    ensures
        r@ == setting_of(vars@, name@, default@),
{
    match find_key_str(vars, name) {
        Some(i) => {
            proof {
                crate::keyed::lemma_entry_at(vars@, name@, i as int);
            }
            vars[i].1.clone()
        },
        None => {
            proof {
                crate::keyed::lemma_entry_absent(vars@, name@);
            }
            String::from_str(default)
        },
    }
}

fn number_setting(vars: &Vec<(String, String)>, name: &str, max: u64, default: u64) -> (r: u64)
    requires
        default <= max,
    ensures
        r as int == number_setting_of(vars@, name@, max as int, default as int),
        r <= max,
{
    match find_key_str(vars, name) {
        Some(i) => {
            proof {
                crate::keyed::lemma_entry_at(vars@, name@, i as int);
            }
            match parse_unsigned(vars[i].1.as_str(), max) {
                Some(n) => n,
                None => default,
            }
        },
        None => {
            proof {
                crate::keyed::lemma_entry_absent(vars@, name@);
            }
            default
        },
    }
}

impl Config {
    /// The configuration that the environment values `vars` give: each
    /// setting from its variable, else its default; numbers that do not parse
    /// or do not fit take their default; queues are durable unless
    /// `RABBITMQ_QUEUE_DURABLE` is `false`.
    pub fn get(vars: &Vec<(String, String)>) -> (r: Config)
        ensures
            r.redis_url@ == setting_of(vars@, "REDIS_URL"@, "redis://127.0.0.1/"@),
            r.amqp_url@ == setting_of(vars@, "AMQP_URL"@, "amqp://127.0.0.1:5672/%2f"@),
            r.mongodb_url@ == setting_of(vars@, "MONGODB_URL"@, "mongodb://localhost:27017"@),
            r.otel_endpoint@ == setting_of(vars@, "OTEL_EXPORTER_OTLP_ENDPOINT"@, "http://localhost:4317"@),
            r.rabbitmq_token_queue@ == setting_of(vars@, "RABBITMQ_QUEUE_NAME"@, "execution.token"@),
            r.rabbitmq_status_queue@ == setting_of(vars@, "RABBITMQ_STATUS_QUEUE"@, "workflow.node.status"@),
            r.rabbitmq_completion_queue@ == setting_of(vars@, "RABBITMQ_COMPLETION_QUEUE"@, "workflow.completion"@),
            r.rabbitmq_execution_queue@ == setting_of(vars@, "RABBITMQ_EXECUTION_QUEUE"@, "workflow.worker.initiated"@),
            r.rabbitmq_consumer_tag@ == setting_of(vars@, "RABBITMQ_CONSUMER_TAG"@, "rtes_token_consumer"@),
            r.rabbitmq_prefetch_count as int == number_setting_of(vars@, "RABBITMQ_PREFETCH_COUNT"@, u16::MAX as int, 10),
            r.rabbitmq_concurrent_messages as int == number_setting_of(vars@, "RABBITMQ_CONCURRENT_MESSAGES"@, u32::MAX as int, 10),
            r.rabbitmq_queue_durable == (setting_of(vars@, "RABBITMQ_QUEUE_DURABLE"@, "true"@) != "false"@),
            r.port as int == number_setting_of(vars@, "PORT"@, u16::MAX as int, 3000),
            r.jwt_secret@ == setting_of(vars@, "JWT_SECRET"@, ""@),
            r.cors_origin@ == setting_of(vars@, "CORS_ORIGIN"@, "http://localhost:3000"@),
    {
        let durable = setting(vars, "RABBITMQ_QUEUE_DURABLE", "true");
        let no = String::from_str("false");
        Config {
            redis_url: setting(vars, "REDIS_URL", "redis://127.0.0.1/"),
            amqp_url: setting(vars, "AMQP_URL", "amqp://127.0.0.1:5672/%2f"),
            mongodb_url: setting(vars, "MONGODB_URL", "mongodb://localhost:27017"),
            otel_endpoint: setting(vars, "OTEL_EXPORTER_OTLP_ENDPOINT", "http://localhost:4317"),
            rabbitmq_token_queue: setting(vars, "RABBITMQ_QUEUE_NAME", "execution.token"),
            rabbitmq_status_queue: setting(vars, "RABBITMQ_STATUS_QUEUE", "workflow.node.status"),
            rabbitmq_completion_queue: setting(vars, "RABBITMQ_COMPLETION_QUEUE", "workflow.completion"),
            rabbitmq_execution_queue: setting(vars, "RABBITMQ_EXECUTION_QUEUE", "workflow.worker.initiated"),
            rabbitmq_consumer_tag: setting(vars, "RABBITMQ_CONSUMER_TAG", "rtes_token_consumer"),
            rabbitmq_prefetch_count: number_setting(vars, "RABBITMQ_PREFETCH_COUNT", 65535, 10) as u16,
            rabbitmq_concurrent_messages: number_setting(vars, "RABBITMQ_CONCURRENT_MESSAGES", 4294967295, 10) as usize,
            rabbitmq_queue_durable: !(durable == no),
            port: number_setting(vars, "PORT", 65535, 3000) as u16,
            jwt_secret: setting(vars, "JWT_SECRET", ""),
            cors_origin: setting(vars, "CORS_ORIGIN", "http://localhost:3000"),
        }
    }
}

} // verus!
