//! The decisions of a stand-in for the host, which the benchmark and the
//! end-to-end checks run the plugin against: it lists a fixed set of panes,
//! records focus requests and reports the focused pane.

use vstd::prelude::*;
use crate::json::{Json, member_str, member_string, object_get, object_get_exec};
use crate::text::{ids, str_eq};

verus! {

/// What the stand-in host keeps between requests.
pub struct MockHost {
    /// The pane that counts as focused.
    pub current_pane_id: Option<String>,
    /// The panes that `pane.focus` requests named, in order.
    pub focus_calls: Vec<String>,
}

/// Model of [`MockHost`].
pub struct MockHostModel {
    pub current_pane_id: Option<Seq<char>>,
    pub focus_calls: Seq<Seq<char>>,
}

impl View for MockHost {
    type V = MockHostModel;

    open spec fn view(&self) -> MockHostModel {
        MockHostModel {
            current_pane_id: crate::actions::opt_view(self.current_pane_id),
            focus_calls: ids(self.focus_calls@),
        }
    }
}

/// The reply to a request.
#[derive(Debug)]
pub enum Reply {
    /// `{"result": {"panes": ...}}`, with the panes the host lists.
    Panes,
    /// `{"result": "ok"}`.
    Done,
    /// `{"result": {"pane_id": ...}}`, with the focused pane or `null`.
    Current(Option<String>),
    /// `{"error": "unknown method: ..."}`, with the method.
    UnknownMethod(String),
}

/// Model of [`Reply`].
pub enum ReplyModel {
    Panes,
    Done,
    Current(Option<Seq<char>>),
    UnknownMethod(Seq<char>),
}

impl View for Reply {
    type V = ReplyModel;

    open spec fn view(&self) -> ReplyModel {
        match self {
            Reply::Panes => ReplyModel::Panes,
            Reply::Done => ReplyModel::Done,
            Reply::Current(p) => ReplyModel::Current(crate::actions::opt_view(*p)),
            Reply::UnknownMethod(m) => ReplyModel::UnknownMethod(m@),
        }
    }
}

/// A request's method: its string member `method`, else empty.
pub open spec fn request_method(request: Json) -> Seq<char> {
    match member_str(request, "method"@) {
        Some(m) => m,
        None => Seq::empty(),
    }
}

/// The pane a request names: the string member `pane_id` of its member
/// `params`.
pub open spec fn requested_pane(request: Json) -> Option<Seq<char>> {
    match request {
        Json::Object(entries) => match object_get(entries@, "params"@) {
            Some(params) => member_str(params, "pane_id"@),
            None => None,
        },
        _ => None,
    }
}

/// What the stand-in host does with a request: its reply, and its state
/// afterwards. A focus request that names a pane makes it the focused pane
/// and records it; every other request leaves the state as it is.
pub open spec fn host_step(request: Json, host: MockHostModel) -> (ReplyModel, MockHostModel) {
    let method = request_method(request);
    if method == "pane.list"@ {
        (ReplyModel::Panes, host)
    } else if method == "pane.focus"@ {
        match requested_pane(request) {
            Some(id) => (
                ReplyModel::Done,
                MockHostModel { current_pane_id: Some(id), focus_calls: host.focus_calls.push(id) },
            ),
            None => (ReplyModel::Done, host),
        }
    } else if method == "pane.current"@ {
        (ReplyModel::Current(host.current_pane_id), host)
    } else {
        (ReplyModel::UnknownMethod(method), host)
    }
}

/// After a focus request that names a pane, the host has recorded that pane
/// last, and a request for the current pane is answered with it.
pub proof fn lemma_focus_then_current(h: MockHostModel, focus: Json, current: Json)
    requires
        request_method(focus) == "pane.focus"@,
        requested_pane(focus) is Some,
        request_method(current) == "pane.current"@,
    ensures
        host_step(focus, h).0 == ReplyModel::Done,
        host_step(focus, h).1.focus_calls == h.focus_calls.push(requested_pane(focus)->Some_0),
        host_step(current, host_step(focus, h).1).0 == ReplyModel::Current(requested_pane(focus)),
{
    reveal_strlit("pane.list");
    reveal_strlit("pane.focus");
    reveal_strlit("pane.current");
    assert("pane.focus"@ != "pane.list"@) by {
        assert("pane.focus"@.len() != "pane.list"@.len());
    }
    assert("pane.current"@ != "pane.list"@) by {
        assert("pane.current"@.len() != "pane.list"@.len());
    }
    assert("pane.current"@ != "pane.focus"@) by {
        assert("pane.current"@.len() != "pane.focus"@.len());
    }
}

/// Answers a request; see [`host_step`].
pub fn dispatch(request: &Json, host: &mut MockHost) -> (reply: Reply)
    ensures
        (reply@, final(host)@) == host_step(*request, old(host)@),
{
    let method: &str = match member_string(request, "method") {
        Some(m) => m.as_str(),
        None => "",
    };
    proof {
        reveal_strlit("");
        assert(method@ == request_method(*request));
    }
    if str_eq(method, "pane.list") {
        Reply::Panes
    } else if str_eq(method, "pane.focus") {
        let target = match request {
            Json::Object(entries) => match object_get_exec(entries, "params") {
                Some(params) => member_string(params, "pane_id"),
                None => None,
            },
            _ => None,
        };
        if let Some(id) = target {
            host.current_pane_id = Some(id.clone());
            let ghost before = ids(host.focus_calls@);
            host.focus_calls.push(id.clone());
            assert(ids(host.focus_calls@) =~= before.push(id@));
        }
        Reply::Done
    } else if str_eq(method, "pane.current") {
        let current = match &host.current_pane_id {
            Some(p) => Some(p.clone()),
            None => None,
        };
        Reply::Current(current)
    } else {
        Reply::UnknownMethod(method.to_string())
    }
}

} // verus!
