//! The host's pane records and the decisions taken on its replies.

use vstd::prelude::*;
use vstd::string::StringExecFns;
use crate::json::{Json, find_key, member_str, member_string, nested_value, truthy_str, truthy_string};
use crate::text::{decimal, push_decimal};

verus! {

/// A pane as the host lists it.
#[derive(Debug, Clone)]
pub struct Pane {
    pub pane_id: String,
    pub agent_status: Option<String>,
    pub title: Option<String>,
}

/// The payload of a `pane.list` reply that it carries nested.
#[derive(Debug)]
pub struct PaneListResult {
    pub panes: Option<Vec<Pane>>,
}

/// A `pane.list` reply: the panes either at the top or under `result`,
/// or an error.
#[derive(Debug)]
pub struct PaneListEnvelope {
    pub result: Option<PaneListResult>,
    pub panes: Option<Vec<Pane>>,
    pub error: Option<String>,
}

/// A reply read only for its error.
#[derive(Debug)]
pub struct ErrorOnly {
    pub error: Option<String>,
}

/// An error that the host reported.
#[derive(Debug)]
pub enum HerdrError {
    /// `pane.list` failed with this message.
    PaneListFailed(String),
    /// `pane.current` failed with this message.
    CurrentFailed(String),
    /// A request failed with this message.
    Failed(String),
}

/// The panes of a `pane.list` reply: the top-level list, else the nested
/// one, else none; or the error when the reply carries one.
pub open spec fn listed_panes(envelope: PaneListEnvelope) -> Result<Seq<Pane>, HerdrError> {
    match envelope.error {
        Some(e) => Err(HerdrError::PaneListFailed(e)),
        None => match envelope.panes {
            Some(p) => Ok(p@),
            None => match envelope.result {
                Some(r) => match r.panes {
                    Some(p) => Ok(p@),
                    None => Ok(Seq::empty()),
                },
                None => Ok(Seq::empty()),
            },
        },
    }
}

/// The ids of a sequence of panes.
pub open spec fn pane_ids(panes: Seq<Pane>) -> Seq<Seq<char>> {
    panes.map_values(|p: Pane| p.pane_id@)
}

/// The panes of a `pane.list` reply; see [`listed_panes`].
pub fn all_panes(envelope: PaneListEnvelope) -> (res: Result<Vec<Pane>, HerdrError>)
    ensures
        match listed_panes(envelope) {
            Ok(p) => res matches Ok(v) && v@ == p,
            Err(e) => res == Err::<Vec<Pane>, HerdrError>(e),
        },
{
    if let Some(e) = envelope.error {
        return Err(HerdrError::PaneListFailed(e));
    }
    match envelope.panes {
        Some(p) => Ok(p),
        None => match envelope.result {
            Some(r) => match r.panes {
                Some(p) => Ok(p),
                None => Ok(Vec::new()),
            },
            None => Ok(Vec::new()),
        },
    }
}

/// The ids of the panes of a `pane.list` reply, in order.
pub fn all_pane_ids(envelope: PaneListEnvelope) -> (res: Result<Vec<String>, HerdrError>)
    ensures
        match listed_panes(envelope) {
            Ok(p) => res matches Ok(v) && crate::text::ids(v@) == pane_ids(p),
            Err(e) => res == Err::<Vec<String>, HerdrError>(e),
        },
{
    let panes = all_panes(envelope)?;
    let mut out: Vec<String> = Vec::new();
    let mut i: usize = 0;
    while i < panes.len()
        invariant
            i <= panes@.len(),
            crate::text::ids(out@) == pane_ids(panes@).take(i as int),
        decreases panes@.len() - i,
    {
        let ghost before = crate::text::ids(out@);
        out.push(panes[i].pane_id.clone());
        assert(crate::text::ids(out@) =~= before.push(panes@[i as int].pane_id@));
        assert(crate::text::ids(out@) =~= pane_ids(panes@).take(i + 1));
        i = i + 1;
    }
    assert(pane_ids(panes@).take(panes@.len() as int) =~= pane_ids(panes@));
    Ok(out)
}

/// Accepts a reply unless it carries an error.
pub fn check_error(reply: ErrorOnly) -> (res: Result<(), HerdrError>)
    ensures
        match reply.error {
            Some(e) => res == Err::<(), HerdrError>(HerdrError::Failed(e)),
            None => res is Ok,
        },
{
    match reply.error {
        Some(e) => Err(HerdrError::Failed(e)),
        None => Ok(()),
    }
}

/// The message of a string member `error` of an object reply.
pub open spec fn reported_error(data: Json) -> Option<Seq<char>> {
    member_str(data, "error"@)
}

/// The current pane of a `pane.current` reply: the first value stored under
/// `pane_id` anywhere in it, when that is a non-empty string.
pub open spec fn reported_pane(data: Json) -> Option<Seq<char>> {
    match find_key(data, "pane_id"@) {
        Some(v) => truthy_str(v),
        None => None,
    }
}

/// The current pane of a `pane.current` reply, or its error.
pub fn current_pane(data: &Json) -> (res: Result<Option<String>, HerdrError>)
    ensures
        match reported_error(*data) {
            Some(e) => res matches Err(HerdrError::CurrentFailed(m)) && m@ == e,
            None => match reported_pane(*data) {
                Some(p) => res matches Ok(Some(s)) && s@ == p,
                None => res matches Ok(None),
            },
        },
{
    if let Some(e) = member_string(data, "error") {
        return Err(HerdrError::CurrentFailed(e.clone()));
    }
    match nested_value(data, "pane_id") {
        Some(v) => Ok(truthy_string(v)),
        None => Ok(None),
    }
}

/// The id of a request: the plugin's prefix, the method and a nonce.
pub open spec fn request_id_text(method: Seq<char>, nonce: nat) -> Seq<char> {
    "plugin:pane-switcher:"@ + method + ":"@ + decimal(nonce)
}

/// The id of a request for `method`, made unique by `nonce` (the host
/// plugin uses the nanoseconds since the Unix epoch).
pub fn request_id(method: &str, nonce: u128) -> (res: String)
    ensures
        res@ == request_id_text(method@, nonce as nat),
{
    let mut id = "plugin:pane-switcher:".to_string();
    id.append(method);
    id.append(":");
    push_decimal(&mut id, nonce);
    id
}

impl HerdrError {
    /// The message to show for this error.
    pub fn message(&self) -> (res: String)
        ensures
            res@ == match self {
                HerdrError::PaneListFailed(e) => "herdr pane.list failed: "@ + e@,
                HerdrError::CurrentFailed(e) => "herdr pane.current failed: "@ + e@,
                HerdrError::Failed(e) => "herdr failed: "@ + e@,
            },
    {
        match self {
            HerdrError::PaneListFailed(e) => "herdr pane.list failed: ".to_string().concat(e.as_str()),
            HerdrError::CurrentFailed(e) => "herdr pane.current failed: ".to_string().concat(e.as_str()),
            HerdrError::Failed(e) => "herdr failed: ".to_string().concat(e.as_str()),
        }
    }
}

} // verus!
