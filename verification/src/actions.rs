//! Action dispatch: decoding an action's config payload and deciding the
//! outcome of one execution attempt.
//!
//! Decoding and re-encoding a config is delegated to serde_json behind
//! trusted wrappers; each wrapper's result is named by an uninterpreted
//! spec function, since it depends on the config text alone.

use vstd::prelude::*;

use serde_json::Value;

use crate::evaluator::opt_string_view;
use crate::types::{string_eq_lit, EventView};

verus! {

/// The payload that serde_json produces for a notification action config
/// of the shape `{"type", "title", "body", "actionButton"?,
/// "actionCallback"?}`: the four fields re-encoded as one JSON object
/// (absent optional fields become null). `None` when the text does not
/// decode to that shape.
pub uninterp spec fn notification_payload_of(config: Seq<char>) -> Option<Seq<char>>;

/// The payload that serde_json produces for an agent-task action config of
/// the shape `{"type", "prompt", "toolsAllowed"?, "maxSteps"?}`: the three
/// fields re-encoded as one JSON object. `None` when the text does not
/// decode to that shape.
pub uninterp spec fn agent_payload_of(config: Seq<char>) -> Option<Seq<char>>;

/// The payload that serde_json produces for a workflow action config of
/// the shape `{"type", "workflowId", "input"?}`: the two fields re-encoded
/// as one JSON object. `None` when the text does not decode to that shape.
pub uninterp spec fn workflow_payload_of(config: Seq<char>) -> Option<Seq<char>>;

/// Relies on serde_json::from_str, serde_json::Value::{get, as_str}, and
/// serde_json's object serialization: the result depends on the config
/// text alone.
#[verifier::external_body]
fn build_notification_payload(config: &str) -> (r: Option<String>)
    ensures
        opt_string_view(r) == notification_payload_of(config@),
{
    let v: Value = serde_json::from_str(config).ok()?;
    v.get("type")?.as_str()?;
    let mut m = serde_json::Map::new();
    m.insert("title".into(), Value::String(v.get("title")?.as_str()?.into()));
    m.insert("body".into(), Value::String(v.get("body")?.as_str()?.into()));
    for k in ["actionButton", "actionCallback"] {
        match v.get(k).cloned().unwrap_or(Value::Null) {
            Value::Null => m.insert(k.into(), Value::Null),
            Value::String(s) => m.insert(k.into(), Value::String(s)),
            _ => return None,
        };
    }
    Some(Value::Object(m).to_string())
}

/// Relies on serde_json::from_str, serde_json::Value::{get, as_str,
/// as_i64}, and serde_json's object serialization: the result depends on
/// the config text alone.
#[verifier::external_body]
fn build_agent_payload(config: &str) -> (r: Option<String>)
    ensures
        opt_string_view(r) == agent_payload_of(config@),
{
    let v: Value = serde_json::from_str(config).ok()?;
    v.get("type")?.as_str()?;
    let mut m = serde_json::Map::new();
    m.insert("prompt".into(), Value::String(v.get("prompt")?.as_str()?.into()));
    m.insert("toolsAllowed".into(), v.get("toolsAllowed").cloned().unwrap_or(Value::Null));
    let steps = match v.get("maxSteps") {
        None | Some(Value::Null) => Value::Null,
        Some(x) => Value::Number(x.as_i64()?.into()),
    };
    m.insert("maxSteps".into(), steps);
    Some(Value::Object(m).to_string())
}

/// Relies on serde_json::from_str, serde_json::Value::{get, as_str}, and
/// serde_json's object serialization: the result depends on the config
/// text alone.
#[verifier::external_body]
fn build_workflow_payload(config: &str) -> (r: Option<String>)
    ensures
        opt_string_view(r) == workflow_payload_of(config@),
{
    let v: Value = serde_json::from_str(config).ok()?;
    v.get("type")?.as_str()?;
    let mut m = serde_json::Map::new();
    m.insert("workflowId".into(), Value::String(v.get("workflowId")?.as_str()?.into()));
    m.insert("input".into(), v.get("input").cloned().unwrap_or(Value::Null));
    Some(Value::Object(m).to_string())
}

/// The decided outcome of one execution attempt: its terminal status, the
/// recorded result payload on success, and the recorded error on failure.
pub ghost struct ActionOutcome {
    pub success: bool,
    pub payload: Option<Seq<char>>,
    pub error: Option<Seq<char>>,
}

/// What dispatching an action decides, from its kind tag and config text:
/// the three decodable kinds succeed exactly when their config decodes,
/// `script` is reserved and always fails, and any other tag fails as
/// unknown.
pub open spec fn spec_action_outcome(kind: Seq<char>, config: Seq<char>) -> ActionOutcome {
    if kind == "notification"@ {
        match notification_payload_of(config) {
            Some(p) => ActionOutcome { success: true, payload: Some(p), error: None },
            None => ActionOutcome {
                success: false,
                payload: None,
                error: Some("invalid notification action config"@),
            },
        }
    } else if kind == "agent_task"@ {
        match agent_payload_of(config) {
            Some(p) => ActionOutcome { success: true, payload: Some(p), error: None },
            None => ActionOutcome {
                success: false,
                payload: None,
                error: Some("invalid agent_task action config"@),
            },
        }
    } else if kind == "workflow"@ {
        match workflow_payload_of(config) {
            Some(p) => ActionOutcome { success: true, payload: Some(p), error: None },
            None => ActionOutcome {
                success: false,
                payload: None,
                error: Some("invalid workflow action config"@),
            },
        }
    } else if kind == "script"@ {
        ActionOutcome {
            success: false,
            payload: None,
            error: Some("unsupported action type"@),
        }
    } else {
        ActionOutcome { success: false, payload: None, error: Some("unknown action type: "@ + kind) }
    }
}

/// The action-specific notify event that a successful dispatch emits.
pub open spec fn spec_payload_event(kind: Seq<char>, payload: Seq<char>) -> EventView {
    if kind == "notification"@ {
        EventView::Notification(payload)
    } else if kind == "agent_task"@ {
        EventView::AgentExecute(payload)
    } else {
        EventView::WorkflowExecute(payload)
    }
}

/// Dispatches on the action kind and decides the outcome of one attempt,
/// per `spec_action_outcome`: the success flag, the result payload, and
/// the failure description.
pub fn dispatch_action(kind: &String, config: &String) -> (r: (bool, Option<String>, Option<
    String,
>))
    ensures
        ({
            let oc = spec_action_outcome(kind@, config@);
            r.0 == oc.success && opt_string_view(r.1) == oc.payload && opt_string_view(r.2)
                == oc.error
        }),
{
    if string_eq_lit(kind, "notification") {
        match build_notification_payload(config.as_str()) {
            Some(p) => (true, Some(p), None),
            None => (false, None, Some(String::from_str("invalid notification action config"))),
        }
    } else if string_eq_lit(kind, "agent_task") {
        match build_agent_payload(config.as_str()) {
            Some(p) => (true, Some(p), None),
            None => (false, None, Some(String::from_str("invalid agent_task action config"))),
        }
    } else if string_eq_lit(kind, "workflow") {
        match build_workflow_payload(config.as_str()) {
            Some(p) => (true, Some(p), None),
            None => (false, None, Some(String::from_str("invalid workflow action config"))),
        }
    } else if string_eq_lit(kind, "script") {
        (false, None, Some(String::from_str("unsupported action type")))
    } else {
        let mut msg = String::from_str("unknown action type: ");
        msg.append(kind.as_str());
        (false, None, Some(msg))
    }
}

} // verus!
