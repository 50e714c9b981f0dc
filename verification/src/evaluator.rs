//! Trigger evaluator: computes the next eligible run timestamp from a
//! trigger's kind, its config payload, and a reference time.
//!
//! Config payloads are JSON text; decoding them is delegated to serde_json
//! behind trusted wrappers whose results are named by uninterpreted spec
//! functions (the decode is a function of the text alone). Cron evaluation
//! is delegated to the cron and chrono crates the same way.

use vstd::prelude::*;

use crate::types::string_eq_lit;

verus! {

/// The `seconds` field that serde_json decodes from an interval trigger
/// config of the shape `{"type": <string>, "seconds": <integer>}`;
/// `None` when the text does not decode to that shape.
pub uninterp spec fn interval_seconds_of(config: Seq<char>) -> Option<i64>;

/// The `expression` field that serde_json decodes from a cron trigger
/// config of the shape `{"type": <string>, "expression": <string>}`;
/// `None` when the text does not decode to that shape.
pub uninterp spec fn cron_expression_of(config: Seq<char>) -> Option<Seq<char>>;

/// The first instant, in milliseconds since the epoch, strictly after the
/// reference time that matches the five-field cron expression (with an
/// implicit leading "second = 0" field), evaluated in UTC; `None` when the
/// expression is unparsable or has no future occurrence.
pub uninterp spec fn cron_next_of(expression: Seq<char>, from_ms: i64) -> Option<i64>;

/// 2100-12-31T23:59:59 UTC in milliseconds: the last reference time worth
/// handing to the cron crate. Its schedules only cover the years 1970
/// through 2100, so from any later reference time there is no future
/// occurrence; stopping there also keeps the evaluation far away from
/// chrono's maximum instant, where the search's one-second head start
/// would overflow.
pub const CRON_HORIZON_MS: i64 = 4133980799000;

/// The view of an optional string.
pub open spec fn opt_string_view(o: Option<String>) -> Option<Seq<char>> {
    match o {
        Some(s) => Some(s@),
        None => None,
    }
}

/// Relies on serde_json::from_str and serde_json::Value::{get, as_str,
/// as_i64}: the decoded field depends on the text alone.
#[verifier::external_body]
fn decode_interval_seconds(config: &str) -> (r: Option<i64>)
    ensures
        r == interval_seconds_of(config@),
{
    let v: serde_json::Value = serde_json::from_str(config).ok()?;
    v.get("type")?.as_str()?;
    v.get("seconds")?.as_i64()
}

/// Relies on serde_json::from_str and serde_json::Value::{get, as_str}:
/// the decoded field depends on the text alone.
#[verifier::external_body]
fn decode_cron_expression(config: &str) -> (r: Option<String>)
    ensures
        opt_string_view(r) == cron_expression_of(config@),
{
    let v: serde_json::Value = serde_json::from_str(config).ok()?;
    v.get("type")?.as_str()?;
    Some(v.get("expression")?.as_str()?.to_string())
}

/// Relies on cron::Schedule::{from_str, after} and on chrono's UTC
/// timestamp conversions: the schedule is evaluated in UTC, so the result
/// depends on the expression and the reference time alone, and cron's
/// next_after starts its search one second past the reference time, so any
/// result is strictly after it. That head start is an addition on a chrono
/// instant, which panics near chrono's maximum; the requires keeps the
/// reference time at or below the crate's own year-2100 schedule horizon,
/// far from that bound.
#[verifier::external_body]
fn cron_next_after_ms(expression: &str, from_ms: i64) -> (r: Option<i64>)
    requires
        from_ms <= CRON_HORIZON_MS,
    ensures
        r == cron_next_of(expression@, from_ms),
        r matches Some(t) ==> t > from_ms,
{
    let expr_6 = format!("0 {expression}");
    let schedule = <cron::Schedule as std::str::FromStr>::from_str(&expr_6).ok()?;
    let from_dt = chrono::TimeZone::timestamp_millis_opt(&chrono::Utc, from_ms).single()?;
    schedule.after(&from_dt).next().map(|dt| dt.timestamp_millis())
}

/// What `compute_next_run` returns: the next eligible run timestamp, or
/// `None` when the trigger kind never auto-schedules, the config does not
/// decode, the interval is not positive, the cron expression has no future
/// occurrence (in particular, from any reference time past the year-2100
/// cron horizon), or the result would not fit in an `i64`.
pub open spec fn spec_next_run(kind: Seq<char>, config: Seq<char>, from_ms: i64) -> Option<i64> {
    if kind == "interval"@ {
        match interval_seconds_of(config) {
            Some(secs) => if secs <= 0 {
                None
            } else if i64::MIN <= from_ms + secs * 1000 <= i64::MAX {
                Some((from_ms + secs * 1000) as i64)
            } else {
                None
            },
            None => None,
        }
    } else if kind == "cron"@ {
        match cron_expression_of(config) {
            Some(expr) => if from_ms <= CRON_HORIZON_MS {
                cron_next_of(expr, from_ms)
            } else {
                None
            },
            None => None,
        }
    } else {
        None
    }
}

/// Computes the next eligible run timestamp for a trigger, from a reference
/// time, per `spec_next_run`: any result is strictly after the reference
/// time. Never fails outward: absence of a next run is the only signal,
/// also for malformed configs.
pub fn compute_next_run(trigger_type: &String, trigger_config: &String, from_ms: i64) -> (r: Option<
    i64,
>)
    ensures
        r == spec_next_run(trigger_type@, trigger_config@, from_ms),
        r matches Some(t) ==> t > from_ms,
{
    if string_eq_lit(trigger_type, "interval") {
        match decode_interval_seconds(trigger_config.as_str()) {
            Some(secs) => {
                if secs <= 0 {
                    None
                } else {
                    let total: i128 = (from_ms as i128) + (secs as i128) * 1000;
                    if i64::MIN as i128 <= total && total <= i64::MAX as i128 {
                        Some(total as i64)
                    } else {
                        None
                    }
                }
            },
            None => None,
        }
    } else if string_eq_lit(trigger_type, "cron") {
        match decode_cron_expression(trigger_config.as_str()) {
            Some(expr) => {
                if from_ms <= CRON_HORIZON_MS {
                    cron_next_after_ms(expr.as_str(), from_ms)
                } else {
                    None
                }
            },
            None => None,
        }
    } else {
        None
    }
}

} // verus!
