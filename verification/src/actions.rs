//! Most-recently-used history operations.

use vstd::prelude::*;
use crate::text::{ids, str_eq, contains_str};
use crate::state::{Cycle, CycleModel, State, StateModel};
use crate::herdr::Pane;
use crate::seqs::{lemma_distinct_subset_len, lemma_filter_all, lemma_filter_keeps_all, lemma_filter_none, lemma_filter_no_duplicates, lemma_filter_out_index};

verus! {

/// The predicate "differs from `p`".
pub open spec fn differs_from(p: Seq<char>) -> spec_fn(Seq<char>) -> bool {
    |x: Seq<char>| x != p
}

/// `pane` first, then every other entry of `history` in its order.
#[verifier::opaque]
pub open spec fn promoted(history: Seq<Seq<char>>, pane: Seq<char>) -> Seq<Seq<char>> {
    seq![pane] + history.filter(differs_from(pane))
}

/// Moves `pane` to the front of `history`, dropping any earlier occurrence.
pub fn promote(history: &[String], pane: &str) -> (res: Vec<String>)
    ensures
        ids(res@) == promoted(ids(history@), pane@),
{
    reveal(promoted);
    let mut promoted_v: Vec<String> = Vec::new();
    promoted_v.push(pane.to_string());
    let ghost h = ids(history@);
    let mut i: usize = 0;
    while i < history.len()
        invariant
            i <= history@.len(),
            h == ids(history@),
            ids(promoted_v@) == seq![pane@] + h.take(i as int).filter(differs_from(pane@)),
        decreases history@.len() - i,
    {
        let existing = &history[i];
        proof {
            assert(h.take(i + 1) =~= h.take(i as int).push(h[i as int]));
            h.take(i as int).lemma_filter_push(h[i as int], differs_from(pane@));
        }
        let ghost before = ids(promoted_v@);
        if !str_eq(existing.as_str(), pane) {
            promoted_v.push(existing.clone());
            assert(ids(promoted_v@) =~= before.push(h[i as int]));
            assert(ids(promoted_v@) =~= seq![pane@] + h.take(i + 1).filter(differs_from(pane@)));
        } else {
            assert(ids(promoted_v@) =~= seq![pane@] + h.take(i + 1).filter(differs_from(pane@)));
        }
        i = i + 1;
    }
    assert(h.take(history@.len() as int) =~= h);
    promoted_v
}

// ------------------------------------------------------------------ cycling

/// The predicate "occurs in `panes`".
pub open spec fn in_panes(panes: Seq<Seq<char>>) -> spec_fn(Seq<char>) -> bool {
    |x: Seq<char>| panes.contains(x)
}

/// The predicate "does not occur in `known`".
pub open spec fn not_in(known: Seq<Seq<char>>) -> spec_fn(Seq<char>) -> bool {
    |x: Seq<char>| !known.contains(x)
}

/// The history restricted to live panes, with the current pane in front.
pub open spec fn known_order(history: Seq<Seq<char>>, panes: Seq<Seq<char>>, current: Seq<char>) -> Seq<Seq<char>> {
    promoted(history.filter(in_panes(panes)), current)
}

/// Live panes that the history has not seen yet, in the host's order.
pub open spec fn unknown_panes(history: Seq<Seq<char>>, panes: Seq<Seq<char>>, current: Seq<char>) -> Seq<Seq<char>> {
    panes.filter(not_in(known_order(history, panes, current)))
}

/// The most-recently-used order that a cycle step walks: the known order,
/// then the panes not seen yet.
pub open spec fn cycle_order(history: Seq<Seq<char>>, panes: Seq<Seq<char>>, current: Seq<char>) -> Seq<Seq<char>> {
    known_order(history, panes, current) + unknown_panes(history, panes, current)
}

/// Whether a step continues the stored cycle: the previous step is recent,
/// it landed on the current pane, and the live panes are the ones the
/// history holds: none of its panes has disappeared and none is new to it.
pub open spec fn continues(s: StateModel, panes: Seq<Seq<char>>, current: Seq<char>, within_timeout: bool) -> bool {
    &&& within_timeout
    &&& s.cycle matches Some(c)
    &&& c.target == current
    &&& s.history.filter(in_panes(panes)).len() == s.history.len()
    &&& unknown_panes(s.history, panes, current).len() == 0
}

/// The position in [`cycle_order`] that a step selects: one past the stored
/// index, wrapping, when the cycle continues, and the second entry otherwise.
pub open spec fn cycle_index(s: StateModel, panes: Seq<Seq<char>>, current: Seq<char>, within_timeout: bool) -> int {
    if continues(s, panes, current, within_timeout) {
        (s.cycle.unwrap().index + 1) % (cycle_order(s.history, panes, current).len() as int)
    } else {
        1
    }
}

/// Why a cycle step could not pick a pane.
#[derive(Debug, PartialEq, Eq, Structural)]
pub enum CycleError {
    /// The order to walk has fewer entries than the position to select.
    IndexOutOfBounds,
}

/// One press of the cycle action: the new state and the pane to focus, if any.
pub open spec fn cycle_step(
    s: StateModel,
    panes: Seq<Seq<char>>,
    current: Seq<char>,
    now: u64,
    within_timeout: bool,
) -> Result<(StateModel, Option<Seq<char>>), CycleError> {
    if panes.len() < 2 {
        Ok((s, None))
    } else {
        let order = cycle_order(s.history, panes, current);
        let index = cycle_index(s, panes, current, within_timeout);
        if index >= order.len() {
            Err(CycleError::IndexOutOfBounds)
        } else {
            let target = order[index];
            Ok((
                StateModel {
                    version: s.version,
                    history: promoted(order, target),
                    cycle: Some(CycleModel { index: index as usize, target, last_at: now }),
                },
                if target != current { Some(target) } else { None },
            ))
        }
    }
}

pub open spec fn opt_view(o: Option<String>) -> Option<Seq<char>> {
    match o {
        Some(s) => Some(s@),
        None => None,
    }
}

/// The entries of `history` that name a live pane, in order.
fn live_entries(history: &Vec<String>, panes: &[String]) -> (res: Vec<String>)
    ensures
        ids(res@) == ids(history@).filter(in_panes(ids(panes@))),
{
    let ghost h = ids(history@);
    let ghost p = in_panes(ids(panes@));
    let mut res: Vec<String> = Vec::new();
    let mut i: usize = 0;
    while i < history.len()
        invariant
            i <= history@.len(),
            h == ids(history@),
            p == in_panes(ids(panes@)),
            ids(res@) == h.take(i as int).filter(p),
        decreases history@.len() - i,
    {
        proof {
            assert(h.take(i + 1) =~= h.take(i as int).push(h[i as int]));
            h.take(i as int).lemma_filter_push(h[i as int], p);
        }
        let ghost before = ids(res@);
        if contains_str(panes, history[i].as_str()) {
            res.push(history[i].clone());
            assert(ids(res@) =~= before.push(h[i as int]));
        }
        i = i + 1;
    }
    assert(h.take(history@.len() as int) =~= h);
    res
}

/// The panes that do not occur in `known`, in order.
fn missing_from(panes: &[String], known: &Vec<String>) -> (res: Vec<String>)
    ensures
        ids(res@) == ids(panes@).filter(not_in(ids(known@))),
{
    let ghost ps = ids(panes@);
    let ghost p = not_in(ids(known@));
    let mut res: Vec<String> = Vec::new();
    let mut i: usize = 0;
    while i < panes.len()
        invariant
            i <= panes@.len(),
            ps == ids(panes@),
            p == not_in(ids(known@)),
            ids(res@) == ps.take(i as int).filter(p),
        decreases panes@.len() - i,
    {
        proof {
            assert(ps.take(i + 1) =~= ps.take(i as int).push(ps[i as int]));
            ps.take(i as int).lemma_filter_push(ps[i as int], p);
        }
        let ghost before = ids(res@);
        if !contains_str(known.as_slice(), panes[i].as_str()) {
            res.push(panes[i].clone());
            assert(ids(res@) =~= before.push(ps[i as int]));
        }
        i = i + 1;
    }
    assert(ps.take(panes@.len() as int) =~= ps);
    res
}

/// One press of the cycle action from `current_pane`, given the live
/// `panes` in the host's order, the time `now` (the bit pattern of the `f64`
/// seconds since the Unix epoch, stored as the cycle's timestamp) and whether
/// the stored cycle's timestamp lies within the cycle timeout before `now`.
/// Returns the pane to focus, if it differs from the current one.
pub fn cycle_panes_logic(
    current_pane: &str,
    panes: &[String],
    state: &mut State,
    now: u64,
    within_timeout: bool,
) -> (res: Result<Option<String>, CycleError>)
    ensures
        match cycle_step(old(state)@, ids(panes@), current_pane@, now, within_timeout) {
            Ok((s, focus)) => res matches Ok(f) && final(state)@ == s && opt_view(f) == focus,
            Err(e) => res == Err::<Option<String>, CycleError>(e) && final(state)@ == old(state)@,
        },
        panes@.len() < 2 ==> res == Ok::<Option<String>, CycleError>(None) && final(state)@ == old(state)@,
{
    if panes.len() < 2 {
        return Ok(None);
    }
    let ghost s0 = state@;
    let live = live_entries(&state.history, panes);
    let none_gone = live.len() == state.history.len();
    let mut order = promote(live.as_slice(), current_pane);
    proof {
        lemma_promoted_shape(ids(live@), current_pane@);
    }
    let mut unknown = missing_from(panes, &order);
    let all_known = unknown.len() == 0;
    let ghost known = ids(order@);
    order.append(&mut unknown);
    assert(ids(order@) =~= cycle_order(s0.history, ids(panes@), current_pane@));
    let continuing = match &state.cycle {
        Some(cycle) => within_timeout && str_eq(cycle.target.as_str(), current_pane) && none_gone && all_known,
        None => false,
    };
    assert(continuing == continues(s0, ids(panes@), current_pane@, within_timeout));
    let len = order.len();
    let index: usize = if continuing {
        let previous = match &state.cycle {
            Some(cycle) => cycle.index,
            None => 0,
        };
        proof {
            assert(len > 0) by {
                assert(known.len() > 0);
            }
            if len > 1 {
                vstd::arithmetic::div_mod::lemma_add_mod_noop(previous as int, 1, len as int);
                vstd::arithmetic::div_mod::lemma_small_mod(1, len as nat);
            } else {
                vstd::arithmetic::div_mod::lemma_mod_bound(previous as int + 1, 1);
                vstd::arithmetic::div_mod::lemma_mod_bound((previous % len) as int + 1, 1);
            }
        }
        (previous % len + 1) % len
    } else {
        1
    };
    if index >= len {
        return Err(CycleError::IndexOutOfBounds);
    }
    let target = order[index].clone();
    let history = promote(order.as_slice(), target.as_str());
    state.history = history;
    state.cycle = Some(Cycle { index, target: target.clone(), last_at: now });
    if !str_eq(target.as_str(), current_pane) {
        Ok(Some(target))
    } else {
        Ok(None)
    }
}

// ------------------------------------------------------------------ events

/// Every entry of `history` other than `pane`, in order.
fn without(history: &Vec<String>, pane: &str) -> (res: Vec<String>)
    ensures
        ids(res@) == ids(history@).filter(differs_from(pane@)),
{
    let ghost h = ids(history@);
    let mut res: Vec<String> = Vec::new();
    let mut i: usize = 0;
    while i < history.len()
        invariant
            i <= history@.len(),
            h == ids(history@),
            ids(res@) == h.take(i as int).filter(differs_from(pane@)),
        decreases history@.len() - i,
    {
        proof {
            assert(h.take(i + 1) =~= h.take(i as int).push(h[i as int]));
            h.take(i as int).lemma_filter_push(h[i as int], differs_from(pane@));
        }
        let ghost before = ids(res@);
        if !str_eq(history[i].as_str(), pane) {
            res.push(history[i].clone());
            assert(ids(res@) =~= before.push(h[i as int]));
        }
        i = i + 1;
    }
    assert(h.take(history@.len() as int) =~= h);
    res
}

/// What recording a host event about `pane` does to the state: a closed
/// pane leaves the history and ends any cycle; any other event makes the
/// pane the most recent one and ends a cycle that did not land on it.
pub open spec fn record_step(s: StateModel, pane: Seq<char>, event: Seq<char>) -> StateModel {
    if event == "pane.closed"@ {
        StateModel { version: s.version, history: s.history.filter(differs_from(pane)), cycle: None }
    } else {
        StateModel {
            version: s.version,
            history: promoted(s.history, pane),
            cycle: match s.cycle {
                Some(c) => if c.target == pane {
                    Some(c)
                } else {
                    None
                },
                None => None,
            },
        }
    }
}

/// Records the host event `event` about `pane_id`; see [`record_step`].
pub fn record_event_logic(pane_id: &str, event: &str, state: &mut State)
    ensures
        final(state)@ == record_step(old(state)@, pane_id@, event@),
{
    if str_eq(event, "pane.closed") {
        state.history = without(&state.history, pane_id);
        state.cycle = None;
    } else {
        state.history = promote(state.history.as_slice(), pane_id);
        let keep = match &state.cycle {
            Some(cycle) => str_eq(cycle.target.as_str(), pane_id),
            None => false,
        };
        if !keep {
            state.cycle = None;
        }
    }
}

// ------------------------------------------------------------------ attention

/// The priority of an agent status: `blocked`, `done`, `idle`, `working`
/// in that order; other statuses have none.
pub open spec fn status_rank(status: Seq<char>) -> Option<nat> {
    if status == "blocked"@ {
        Some(0)
    } else if status == "done"@ {
        Some(1)
    } else if status == "idle"@ {
        Some(2)
    } else if status == "working"@ {
        Some(3)
    } else {
        None
    }
}

/// The priority of a pane's agent status, if it has one.
pub open spec fn pane_rank(p: Pane) -> Option<nat> {
    match p.agent_status {
        Some(s) => status_rank(s@),
        None => None,
    }
}

/// The predicate "the pane's priority is `r`".
pub open spec fn has_rank(r: nat) -> spec_fn(Pane) -> bool {
    |p: Pane| pane_rank(p) == Some(r)
}

/// The panes with a priority, by priority, keeping the host's order among
/// panes of the same priority.
pub open spec fn attention_order(panes: Seq<Pane>) -> Seq<Pane> {
    panes.filter(has_rank(0)) + panes.filter(has_rank(1)) + panes.filter(has_rank(2)) + panes.filter(
        has_rank(3),
    )
}

/// The priority of an agent status; see [`status_rank`].
pub fn status_priority(status: &str) -> (res: Option<usize>)
    ensures
        match status_rank(status@) {
            Some(r) => res == Some(r as usize),
            None => res is None,
        },
{
    if str_eq(status, "blocked") {
        Some(0)
    } else if str_eq(status, "done") {
        Some(1)
    } else if str_eq(status, "idle") {
        Some(2)
    } else if str_eq(status, "working") {
        Some(3)
    } else {
        None
    }
}

fn pane_priority(p: &Pane) -> (res: Option<usize>)
    ensures
        match pane_rank(*p) {
            Some(r) => res == Some(r as usize),
            None => res is None,
        },
{
    match &p.agent_status {
        Some(s) => status_priority(s.as_str()),
        None => None,
    }
}

pub open spec fn derefs(v: Seq<&Pane>) -> Seq<Pane> {
    v.map_values(|p: &Pane| *p)
}

/// The panes that need attention, by priority; see [`attention_order`].
pub fn attention_panes(panes: &[Pane]) -> (res: Vec<&Pane>)
    ensures
        derefs(res@) == attention_order(panes@),
{
    let mut res: Vec<&Pane> = Vec::new();
    let mut rank: usize = 0;
    assert(derefs(res@) =~= Seq::<Pane>::empty());
    while rank < 4
        invariant
            rank <= 4,
            derefs(res@) == (if rank == 0 {
                Seq::<Pane>::empty()
            } else if rank == 1 {
                panes@.filter(has_rank(0))
            } else if rank == 2 {
                panes@.filter(has_rank(0)) + panes@.filter(has_rank(1))
            } else if rank == 3 {
                panes@.filter(has_rank(0)) + panes@.filter(has_rank(1)) + panes@.filter(has_rank(2))
            } else {
                attention_order(panes@)
            }),
        decreases 4 - rank,
    {
        let ghost start = derefs(res@);
        let ghost p = has_rank(rank as nat);
        let mut i: usize = 0;
        while i < panes.len()
            invariant
                i <= panes@.len(),
                rank < 4,
                p == has_rank(rank as nat),
                derefs(res@) == start + panes@.take(i as int).filter(p),
            decreases panes@.len() - i,
        {
            proof {
                assert(panes@.take(i + 1) =~= panes@.take(i as int).push(panes@[i as int]));
                panes@.take(i as int).lemma_filter_push(panes@[i as int], p);
            }
            let ghost before = derefs(res@);
            if pane_priority(&panes[i]) == Some(rank) {
                res.push(&panes[i]);
                assert(derefs(res@) =~= before.push(panes@[i as int]));
            }
            i = i + 1;
        }
        assert(panes@.take(panes@.len() as int) =~= panes@);
        rank = rank + 1;
    }
    res
}

/// The position of the first pane with id `id`, if any.
pub open spec fn first_position(panes: Seq<Pane>, id: Seq<char>) -> Option<int> {
    if exists|i: int| 0 <= i < panes.len() && panes[i].pane_id@ == id {
        Some(choose|i: int| 0 <= i < panes.len() && panes[i].pane_id@ == id && forall|j: int| 0 <= j < i ==> panes[j].pane_id@ != id)
    } else {
        None
    }
}

/// The attention pane an attention action selects: the first one, or for
/// the cycling action the one after the current pane, wrapping to the first.
pub open spec fn attention_target(attention: Seq<Pane>, current: Option<Seq<char>>, next_pane: bool) -> Option<Pane> {
    if attention.len() == 0 {
        None
    } else if next_pane && current is Some {
        match first_position(attention, current.unwrap()) {
            Some(i) => if i + 1 < attention.len() {
                Some(attention[i + 1])
            } else {
                Some(attention[0])
            },
            None => Some(attention[0]),
        }
    } else {
        Some(attention[0])
    }
}

/// The pane an attention action focuses: its target, unless that is the
/// current pane already.
pub open spec fn attention_focus(panes: Seq<Pane>, current: Option<Seq<char>>, next_pane: bool) -> Option<Seq<char>> {
    match attention_target(attention_order(panes), current, next_pane) {
        Some(t) => if current == Some(t.pane_id@) {
            None
        } else {
            Some(t.pane_id@)
        },
        None => None,
    }
}

/// The pane that the attention action focuses, given the listed panes and
/// the current pane; `next_pane` selects the cycling action. See
/// [`attention_focus`].
pub fn focus_attention(next_pane: bool, panes: &[Pane], current: Option<String>) -> (res: Option<String>)
    ensures
        opt_view(res) == attention_focus(panes@, opt_view(current), next_pane),
{
    let attention = attention_panes(panes);
    let ghost att = derefs(attention@);
    if attention.len() == 0 {
        return None;
    }
    let mut index: usize = 0;
    if next_pane {
        if let Some(c) = &current {
            let mut i: usize = 0;
            let mut found = false;
            while i < attention.len()
                invariant_except_break
                    !found,
                invariant
                    i <= attention@.len(),
                    att == derefs(attention@),
                    forall|j: int| 0 <= j < i ==> att[j].pane_id@ != c@,
                ensures
                    i <= attention@.len(),
                    forall|j: int| 0 <= j < i ==> att[j].pane_id@ != c@,
                    found ==> i < attention@.len() && att[i as int].pane_id@ == c@,
                    !found ==> i == attention@.len(),
                decreases attention@.len() - i,
            {
                if str_eq(attention[i].pane_id.as_str(), c.as_str()) {
                    found = true;
                    break;
                }
                i = i + 1;
            }
            proof {
                if found {
                    assert(att[i as int].pane_id@ == c@);
                    let k = first_position(att, c@)->Some_0;
                    assert(k == i);
                } else {
                    assert(i == attention@.len());
                }
            }
            if found && i + 1 < attention.len() {
                index = i + 1;
            }
        }
    }
    let target = attention[index];
    let same = match &current {
        Some(c) => str_eq(c.as_str(), target.pane_id.as_str()),
        None => false,
    };
    if same {
        None
    } else {
        Some(target.pane_id.clone())
    }
}

// ------------------------------------------------------------------ laws

/// A promoted history starts with the promoted pane, followed by the other entries.
pub proof fn lemma_promoted_shape(h: Seq<Seq<char>>, p: Seq<char>)
    ensures
        promoted(h, p).len() == h.filter(differs_from(p)).len() + 1,
        promoted(h, p)[0] == p,
        forall|k: int| 1 <= k < promoted(h, p).len() ==> #[trigger] promoted(h, p)[k] == h.filter(differs_from(p))[k - 1],
{
    reveal(promoted);
}

/// What a promoted history contains: the promoted pane and the old entries.
pub proof fn lemma_promoted_contains(h: Seq<Seq<char>>, p: Seq<char>, x: Seq<char>)
    ensures
        promoted(h, p).contains(x) <==> (x == p || h.contains(x)),
{
    reveal(promoted);
    let f = h.filter(differs_from(p));
    if x != p && h.contains(x) {
        let i = choose|i: int| 0 <= i < h.len() && h[i] == x;
        h.lemma_filter_contains(differs_from(p), i);
        let j = choose|j: int| 0 <= j < f.len() && f[j] == x;
        assert(promoted(h, p)[j + 1] == x);
    }
    if promoted(h, p).contains(x) && x != p {
        let j = choose|j: int| 0 <= j < promoted(h, p).len() && promoted(h, p)[j] == x;
        assert(f[j - 1] == x);
        assert(f.contains(x));
        h.lemma_filter_contains_rev(differs_from(p), x);
    }
    assert(promoted(h, p)[0] == p);
}

/// Promoting keeps a history free of duplicates.
pub proof fn lemma_promoted_no_duplicates(h: Seq<Seq<char>>, p: Seq<char>)
    requires
        h.no_duplicates(),
    ensures
        promoted(h, p).no_duplicates(),
{
    reveal(promoted);
    let f = h.filter(differs_from(p));
    lemma_filter_no_duplicates(h, differs_from(p));
    let r = promoted(h, p);
    assert forall|i: int, j: int| 0 <= i < r.len() && 0 <= j < r.len() && i != j implies r[i] != r[j] by {
        if i > 0 && j > 0 {
            assert(r[i] == f[i - 1] && r[j] == f[j - 1]);
        } else if i == 0 {
            h.lemma_filter_pred(differs_from(p), j - 1);
        } else {
            h.lemma_filter_pred(differs_from(p), i - 1);
        }
    }
}

/// Two duplicate-free sequences with no common element concatenate to a
/// duplicate-free sequence.
proof fn lemma_concat_no_duplicates(a: Seq<Seq<char>>, b: Seq<Seq<char>>)
    requires
        a.no_duplicates(),
        b.no_duplicates(),
        forall|i: int| 0 <= i < b.len() ==> !a.contains(#[trigger] b[i]),
    ensures
        (a + b).no_duplicates(),
{
    let c = a + b;
    assert forall|i: int, j: int| 0 <= i < c.len() && 0 <= j < c.len() && i != j implies c[i] != c[j] by {
        if i < a.len() && j >= a.len() {
            assert(a.contains(a[i]));
            assert(c[j] == b[j - a.len()]);
        } else if j < a.len() && i >= a.len() {
            assert(a.contains(a[j]));
            assert(c[i] == b[i - a.len()]);
        }
    }
}

/// The order that a step walks, for a history and live panes free of
/// duplicates, is free of duplicates, starts with the current pane and holds
/// every live pane; when the current pane is live, it holds nothing else, so
/// closed and vanished panes are never selected.
pub proof fn lemma_cycle_order_holds_live_panes(history: Seq<Seq<char>>, panes: Seq<Seq<char>>, current: Seq<char>)
    requires
        history.no_duplicates(),
        panes.no_duplicates(),
    ensures
        cycle_order(history, panes, current).no_duplicates(),
        cycle_order(history, panes, current).len() > 0,
        cycle_order(history, panes, current)[0] == current,
        forall|x: Seq<char>| panes.contains(x) ==> #[trigger] cycle_order(history, panes, current).contains(x),
        panes.contains(current) ==> forall|x: Seq<char>| #[trigger] cycle_order(history, panes, current).contains(x)
            ==> panes.contains(x),
{
    reveal(promoted);
    let live = history.filter(in_panes(panes));
    let known = known_order(history, panes, current);
    let unknown = unknown_panes(history, panes, current);
    let order = cycle_order(history, panes, current);
    lemma_filter_no_duplicates(history, in_panes(panes));
    lemma_promoted_no_duplicates(live, current);
    lemma_filter_no_duplicates(panes, not_in(known));
    assert forall|i: int| 0 <= i < unknown.len() implies !known.contains(#[trigger] unknown[i]) by {
        panes.lemma_filter_pred(not_in(known), i);
    }
    lemma_concat_no_duplicates(known, unknown);
    assert(order[0] == current);
    assert forall|x: Seq<char>| panes.contains(x) implies #[trigger] order.contains(x) by {
        if known.contains(x) {
            let i = choose|i: int| 0 <= i < known.len() && known[i] == x;
            assert(order[i] == x);
        } else {
            let i = choose|i: int| 0 <= i < panes.len() && panes[i] == x;
            panes.lemma_filter_contains(not_in(known), i);
            let j = choose|j: int| 0 <= j < unknown.len() && unknown[j] == x;
            assert(order[known.len() + j] == x);
        }
    }
    if panes.contains(current) {
        assert forall|x: Seq<char>| #[trigger] order.contains(x) implies panes.contains(x) by {
            let i = choose|i: int| 0 <= i < order.len() && order[i] == x;
            if i < known.len() {
                lemma_promoted_contains(live, current, order[i]);
                assert(known.contains(order[i]));
                if order[i] != current {
                    assert(live.contains(order[i]));
                    let j = choose|j: int| 0 <= j < live.len() && live[j] == order[i];
                    history.lemma_filter_pred(in_panes(panes), j);
                }
            } else {
                assert(unknown.contains(order[i]));
                panes.lemma_filter_contains_rev(not_in(known), order[i]);
            }
        }
    }
}

/// Cycling keeps the history free of duplicates, when the live panes are
/// free of them too.
pub proof fn lemma_cycle_keeps_history_distinct(
    s: StateModel,
    panes: Seq<Seq<char>>,
    current: Seq<char>,
    now: u64,
    within_timeout: bool,
)
    requires
        s.history.no_duplicates(),
        panes.no_duplicates(),
    ensures
        cycle_step(s, panes, current, now, within_timeout) matches Ok((s2, _)) ==> s2.history.no_duplicates(),
{
    if panes.len() >= 2 {
        let order = cycle_order(s.history, panes, current);
        lemma_cycle_order_holds_live_panes(s.history, panes, current);
        let index = cycle_index(s, panes, current, within_timeout);
        if index < order.len() {
            lemma_promoted_no_duplicates(order, order[index]);
        }
    }
}

/// Promoting the entry at `i` of a duplicate-free sequence moves it to the
/// front and shifts the entries before it back by one.
proof fn lemma_promote_entry(order: Seq<Seq<char>>, i: int)
    requires
        order.no_duplicates(),
        0 <= i < order.len(),
    ensures
        order.filter(differs_from(order[i])) == order.remove(i),
        promoted(order, order[i]).len() == order.len(),
        forall|k: int| 1 <= k < order.len() ==> #[trigger] promoted(order, order[i])[k] == order.remove(i)[k - 1],
{
    reveal(promoted);
    lemma_filter_out_index(order, i, differs_from(order[i]));
    order.remove_ensures(i);
}

/// Keeping only the live entries of a sequence of live panes changes nothing.
proof fn lemma_all_live(h: Seq<Seq<char>>, panes: Seq<Seq<char>>)
    requires
        forall|x: Seq<char>| #[trigger] h.contains(x) ==> panes.contains(x),
    ensures
        h.filter(in_panes(panes)) == h,
{
    assert forall|k: int| 0 <= k < h.len() implies in_panes(panes)(#[trigger] h[k]) by {
        assert(h.contains(h[k]));
    }
    lemma_filter_all(h, in_panes(panes));
}

/// No live pane is missing from a sequence that holds them all.
proof fn lemma_none_missing(h: Seq<Seq<char>>, panes: Seq<Seq<char>>)
    requires
        forall|x: Seq<char>| #[trigger] panes.contains(x) ==> h.contains(x),
    ensures
        panes.filter(not_in(h)).len() == 0,
{
    assert forall|k: int| 0 <= k < panes.len() implies !not_in(h)(#[trigger] panes[k]) by {
        assert(panes.contains(panes[k]));
    }
    lemma_filter_none(panes, not_in(h));
}

/// Whether `order` holds exactly the panes of `panes` (as sets).
#[verifier::opaque]
pub open spec fn holds_exactly(order: Seq<Seq<char>>, panes: Seq<Seq<char>>) -> bool {
    &&& forall|x: Seq<char>| panes.contains(x) ==> #[trigger] order.contains(x)
    &&& forall|x: Seq<char>| #[trigger] order.contains(x) ==> panes.contains(x)
}

/// The state and the pane to focus after a press from `current` and `k`
/// further presses within the timeout, each from the pane that the press
/// before it selected; `None` once a press fails.
pub open spec fn press_run(
    s: StateModel,
    panes: Seq<Seq<char>>,
    current: Seq<char>,
    now: u64,
    within_timeout: bool,
    k: nat,
) -> Option<(StateModel, Option<Seq<char>>)>
    decreases k,
{
    if k == 0 {
        match cycle_step(s, panes, current, now, within_timeout) {
            Ok(r) => Some(r),
            Err(_) => None,
        }
    } else {
        match press_run(s, panes, current, now, within_timeout, (k - 1) as nat) {
            Some((sk, _)) => match sk.cycle {
                Some(c) => match cycle_step(sk, panes, c.target, now, true) {
                    Ok(r) => Some(r),
                    Err(_) => None,
                },
                None => None,
            },
            None => None,
        }
    }
}

/// Promoting the front entry of a duplicate-free sequence changes nothing.
proof fn lemma_promote_front(h: Seq<Seq<char>>)
    requires
        h.len() > 0,
        h.no_duplicates(),
    ensures
        promoted(h, h[0]) == h,
{
    lemma_promote_entry(h, 0);
    reveal(promoted);
    assert(promoted(h, h[0]) =~= h);
}

/// A duplicate-free order that holds exactly the live panes is the order
/// that a press from its front entry walks, and such a press continues a
/// cycle that landed on that entry.
proof fn lemma_walk_from_front(sk: StateModel, panes: Seq<Seq<char>>)
    requires
        sk.history.len() > 0,
        sk.history.no_duplicates(),
        holds_exactly(sk.history, panes),
        sk.cycle matches Some(c) && c.target == sk.history[0],
    ensures
        cycle_order(sk.history, panes, sk.history[0]) == sk.history,
        continues(sk, panes, sk.history[0], true),
{
    let h = sk.history;
    let t = h[0];
    assert(h.filter(in_panes(panes)) == h) by {
        reveal(holds_exactly);
        lemma_all_live(h, panes);
    }
    lemma_promote_front(h);
    assert(known_order(h, panes, t) == h);
    assert(unknown_panes(h, panes, t).len() == 0) by {
        reveal(holds_exactly);
        lemma_none_missing(h, panes);
    }
    assert(cycle_order(h, panes, t) =~= h);
}

/// Promoting the entry at `i` of a duplicate-free order that holds exactly
/// the live panes keeps those properties and the entries after `i`.
proof fn lemma_promote_keeps_tail(order: Seq<Seq<char>>, panes: Seq<Seq<char>>, i: int)
    requires
        order.no_duplicates(),
        holds_exactly(order, panes),
        0 <= i < order.len(),
    ensures
        ({
            let h = promoted(order, order[i]);
            &&& h.len() == order.len()
            &&& h.no_duplicates()
            &&& holds_exactly(h, panes)
            &&& h[0] == order[i]
            &&& forall|j: int| i < j < order.len() ==> #[trigger] h[j] == order[j]
        }),
{
    let t = order[i];
    let h = promoted(order, t);
    lemma_promote_entry(order, i);
    order.remove_ensures(i);
    lemma_promoted_no_duplicates(order, t);
    lemma_promoted_shape(order, t);
    assert forall|j: int| i < j < order.len() implies #[trigger] h[j] == order[j] by {
        assert(h[j] == order.remove(i)[j - 1]);
    }
    reveal(holds_exactly);
    assert forall|x: Seq<char>| panes.contains(x) implies #[trigger] h.contains(x) by {
        lemma_promoted_contains(order, t, x);
    }
    assert(order.contains(t));
    assert forall|x: Seq<char>| #[trigger] h.contains(x) implies panes.contains(x) by {
        lemma_promoted_contains(order, t, x);
    }
}

/// A press never fails when the live panes are distinct, at least two, and
/// include the current pane: the position it selects lies in the order it
/// walks.
pub proof fn lemma_press_never_fails(
    s: StateModel,
    panes: Seq<Seq<char>>,
    current: Seq<char>,
    now: u64,
    within_timeout: bool,
)
    requires
        s.history.no_duplicates(),
        panes.no_duplicates(),
        panes.len() >= 2,
        panes.contains(current),
    ensures
        0 <= cycle_index(s, panes, current, within_timeout) < cycle_order(s.history, panes, current).len(),
        cycle_step(s, panes, current, now, within_timeout) is Ok,
{
    let order = cycle_order(s.history, panes, current);
    lemma_cycle_order_holds_live_panes(s.history, panes, current);
    lemma_distinct_subset_len(panes, order);
    if continues(s, panes, current, within_timeout) {
        vstd::arithmetic::div_mod::lemma_mod_bound(s.cycle.unwrap().index + 1, order.len() as int);
    }
}

/// What the `k`-th further press within the timeout leaves: the history is
/// the captured order with the selected entry moved to the front, and the
/// cycle sits `k` places after where the first press landed.
proof fn lemma_press_run_step(
    s: StateModel,
    panes: Seq<Seq<char>>,
    current: Seq<char>,
    now: u64,
    within_timeout: bool,
    k: nat,
)
    requires
        s.history.no_duplicates(),
        panes.no_duplicates(),
        panes.len() >= 2,
        panes.len() <= usize::MAX,
        panes.contains(current),
        cycle_index(s, panes, current, within_timeout) + k < cycle_order(s.history, panes, current).len(),
    ensures
        ({
            let order = cycle_order(s.history, panes, current);
            let i = cycle_index(s, panes, current, within_timeout);
            press_run(s, panes, current, now, within_timeout, k) matches Some((sk, focus)) && {
                &&& sk.history.len() == order.len()
                &&& sk.history.no_duplicates()
                &&& holds_exactly(sk.history, panes)
                &&& sk.history[0] == order[i + k]
                &&& forall|j: int| i + k < j < order.len() ==> #[trigger] sk.history[j] == order[j]
                &&& sk.cycle == Some(CycleModel { index: (i + k) as usize, target: order[i + k], last_at: now })
                &&& k > 0 ==> focus == Some(order[i + k])
            }
        }),
    decreases k,
{
    let order = cycle_order(s.history, panes, current);
    let i = cycle_index(s, panes, current, within_timeout);
    lemma_cycle_order_holds_live_panes(s.history, panes, current);
    assert(holds_exactly(order, panes)) by {
        reveal(holds_exactly);
    }
    lemma_distinct_subset_len(order, panes);
    if k == 0 {
        lemma_press_never_fails(s, panes, current, now, within_timeout);
        lemma_promote_keeps_tail(order, panes, i);
    } else {
        lemma_press_run_step(s, panes, current, now, within_timeout, (k - 1) as nat);
        let prev = press_run(s, panes, current, now, within_timeout, (k - 1) as nat)->Some_0.0;
        let h = prev.history;
        let t = h[0];
        lemma_walk_from_front(prev, panes);
        vstd::arithmetic::div_mod::lemma_small_mod((i + k) as nat, h.len());
        assert(cycle_index(prev, panes, t, true) == i + k);
        assert(h[i + k] == order[i + k]);
        assert(h[i + k] != t);
        lemma_promote_keeps_tail(h, panes, i + k);
        let next = promoted(h, h[i + k]);
        assert forall|j: int| i + k < j < order.len() implies #[trigger] next[j] == order[j] by {
            assert(next[j] == h[j]);
        }
    }
}

/// Presses within the timeout, each from the pane that the press before it
/// selected, walk the order that the first press captured: the `k`-th press
/// after it selects and focuses the entry `k` places further on, and the
/// press after the last entry stays on that entry and focuses nothing.
pub proof fn lemma_presses_walk_captured_order(
    s: StateModel,
    panes: Seq<Seq<char>>,
    current: Seq<char>,
    now: u64,
    within_timeout: bool,
    k: nat,
)
    requires
        s.history.no_duplicates(),
        panes.no_duplicates(),
        panes.len() >= 2,
        panes.len() <= usize::MAX,
        panes.contains(current),
    ensures
        ({
            let order = cycle_order(s.history, panes, current);
            let i = cycle_index(s, panes, current, within_timeout);
            &&& 0 < k && i + k < order.len() ==> (press_run(s, panes, current, now, within_timeout, k) matches Some(
                (sk, focus),
            ) && sk.cycle == Some(CycleModel { index: (i + k) as usize, target: order[i + k], last_at: now })
                && focus == Some(order[i + k]))
            &&& i + k == order.len() ==> (press_run(s, panes, current, now, within_timeout, k) matches Some(
                (sk, focus),
            ) && sk.cycle == Some(CycleModel { index: 0, target: order[i + k - 1], last_at: now })
                && focus is None)
        }),
{
    let order = cycle_order(s.history, panes, current);
    let i = cycle_index(s, panes, current, within_timeout);
    lemma_cycle_order_holds_live_panes(s.history, panes, current);
    lemma_distinct_subset_len(order, panes);
    lemma_press_never_fails(s, panes, current, now, within_timeout);
    if 0 < k && i + k < order.len() {
        lemma_press_run_step(s, panes, current, now, within_timeout, k);
    }
    if i + k == order.len() {
        assert(k > 0);
        lemma_press_run_step(s, panes, current, now, within_timeout, (k - 1) as nat);
        let prev = press_run(s, panes, current, now, within_timeout, (k - 1) as nat)->Some_0.0;
        let h = prev.history;
        lemma_walk_from_front(prev, panes);
        vstd::arithmetic::div_mod::lemma_mod_self_0(h.len() as int);
        assert(cycle_index(prev, panes, h[0], true) == 0);
    }
}

/// A press that does not continue a cycle, from the pane at the front of the
/// history, selects the entry after it when both are live: the pane used
/// before the current one.
pub proof fn lemma_first_press_returns_to_previous(
    s: StateModel,
    panes: Seq<Seq<char>>,
    now: u64,
    within_timeout: bool,
)
    requires
        panes.len() >= 2,
        s.history.len() >= 2,
        s.history[0] != s.history[1],
        panes.contains(s.history[0]),
        panes.contains(s.history[1]),
        !continues(s, panes, s.history[0], within_timeout),
    ensures
        cycle_step(s, panes, s.history[0], now, within_timeout) matches Ok((s2, focus)) && focus == Some(
            s.history[1],
        ) && s2.cycle == Some(CycleModel { index: 1, target: s.history[1], last_at: now }),
{
    reveal(promoted);
    let h = s.history;
    let current = h[0];
    let p = in_panes(panes);
    let head = seq![h[0], h[1]];
    let tail = h.subrange(2, h.len() as int);
    assert(h =~= head + tail);
    Seq::filter_distributes_over_add(head, tail, p);
    lemma_filter_all(head, p);
    let live = h.filter(p);
    assert(live =~= head + tail.filter(p));
    let q = differs_from(current);
    Seq::filter_distributes_over_add(seq![h[0]], seq![h[1]] + tail.filter(p), q);
    assert(head + tail.filter(p) =~= seq![h[0]] + (seq![h[1]] + tail.filter(p)));
    lemma_filter_none(seq![h[0]], q);
    Seq::filter_distributes_over_add(seq![h[1]], tail.filter(p), q);
    lemma_filter_all(seq![h[1]], q);
    assert(live.filter(q)[0] == h[1]);
    let order = cycle_order(h, panes, current);
    assert(order[1] == h[1]);
}

/// The shape of a press that does not continue the stored cycle.
proof fn lemma_restart_step(
    s: StateModel,
    panes: Seq<Seq<char>>,
    current: Seq<char>,
    now: u64,
    within_timeout: bool,
)
    requires
        panes.len() >= 2,
        !continues(s, panes, current, within_timeout),
    ensures
        ({
            let order = cycle_order(s.history, panes, current);
            &&& order.len() >= 1
            &&& order[0] == current
            &&& order.len() >= 2 ==> order[1] != current && (cycle_step(s, panes, current, now, within_timeout) matches Ok(
                (s2, focus),
            ) && s2.cycle == Some(CycleModel { index: 1, target: order[1], last_at: now })
                && s2.history == promoted(order, order[1]) && focus == Some(order[1]))
            &&& order.len() < 2 ==> cycle_step(s, panes, current, now, within_timeout) == Err::<
                (StateModel, Option<Seq<char>>),
                CycleError,
            >(CycleError::IndexOutOfBounds)
        }),
{
    let live = s.history.filter(in_panes(panes));
    let known = known_order(s.history, panes, current);
    let unknown = unknown_panes(s.history, panes, current);
    let order = cycle_order(s.history, panes, current);
    lemma_promoted_shape(live, current);
    assert(order[0] == current);
    if order.len() >= 2 {
        if known.len() >= 2 {
            assert(order[1] == live.filter(differs_from(current))[0]);
            live.lemma_filter_pred(differs_from(current), 0);
        } else {
            assert(order[1] == unknown[0]);
            panes.lemma_filter_pred(not_in(known), 0);
            assert(known[0] == current);
            assert(known.contains(current));
        }
    }
}

/// A press from a pane other than the one the stored cycle landed on (or
/// with no cycle stored) never continues that cycle, however recent it is:
/// the order it walks starts with the current pane, and it selects the entry
/// after it, another pane, stores position 1 and focuses that pane. Only an
/// order with fewer than two entries makes it fail.
pub proof fn lemma_press_off_target_restarts(
    s: StateModel,
    panes: Seq<Seq<char>>,
    current: Seq<char>,
    now: u64,
    within_timeout: bool,
)
    requires
        panes.len() >= 2,
        s.cycle matches Some(c) ==> c.target != current,
    ensures
        ({
            let order = cycle_order(s.history, panes, current);
            &&& order.len() >= 1
            &&& order[0] == current
            &&& order.len() >= 2 ==> order[1] != current && (cycle_step(s, panes, current, now, within_timeout) matches Ok(
                (s2, focus),
            ) && s2.cycle == Some(CycleModel { index: 1, target: order[1], last_at: now })
                && s2.history == promoted(order, order[1]) && focus == Some(order[1]))
            &&& order.len() < 2 ==> cycle_step(s, panes, current, now, within_timeout) == Err::<
                (StateModel, Option<Seq<char>>),
                CycleError,
            >(CycleError::IndexOutOfBounds)
        }),
{
    lemma_restart_step(s, panes, current, now, within_timeout);
}

/// A press when a live pane other than the current one is missing from the
/// history never continues the stored cycle, however recent it is: like a
/// press after a pause it selects the entry after the current pane and
/// stores position 1.
pub proof fn lemma_new_pane_restarts(
    s: StateModel,
    panes: Seq<Seq<char>>,
    current: Seq<char>,
    now: u64,
    within_timeout: bool,
    x: Seq<char>,
)
    requires
        panes.len() >= 2,
        panes.contains(x),
        !s.history.contains(x),
        x != current,
    ensures
        ({
            let order = cycle_order(s.history, panes, current);
            &&& order.len() >= 1
            &&& order[0] == current
            &&& order.len() >= 2 ==> order[1] != current && (cycle_step(s, panes, current, now, within_timeout) matches Ok(
                (s2, focus),
            ) && s2.cycle == Some(CycleModel { index: 1, target: order[1], last_at: now })
                && s2.history == promoted(order, order[1]) && focus == Some(order[1]))
            &&& order.len() < 2 ==> cycle_step(s, panes, current, now, within_timeout) == Err::<
                (StateModel, Option<Seq<char>>),
                CycleError,
            >(CycleError::IndexOutOfBounds)
        }),
{
    let known = known_order(s.history, panes, current);
    lemma_promoted_contains(s.history.filter(in_panes(panes)), current, x);
    if s.history.filter(in_panes(panes)).contains(x) {
        s.history.lemma_filter_contains_rev(in_panes(panes), x);
    }
    assert(!known.contains(x));
    let k = choose|k: int| 0 <= k < panes.len() && panes[k] == x;
    panes.lemma_filter_contains(not_in(known), k);
    assert(unknown_panes(s.history, panes, current).len() > 0);
    lemma_restart_step(s, panes, current, now, within_timeout);
}

/// A press when a pane of the history is no longer live never continues the
/// stored cycle, however recent it is: it selects the entry after the
/// current pane and stores position 1.
pub proof fn lemma_vanished_pane_restarts(
    s: StateModel,
    panes: Seq<Seq<char>>,
    current: Seq<char>,
    now: u64,
    within_timeout: bool,
    y: Seq<char>,
)
    requires
        panes.len() >= 2,
        s.history.contains(y),
        !panes.contains(y),
    ensures
        ({
            let order = cycle_order(s.history, panes, current);
            &&& order.len() >= 1
            &&& order[0] == current
            &&& order.len() >= 2 ==> order[1] != current && (cycle_step(s, panes, current, now, within_timeout) matches Ok(
                (s2, focus),
            ) && s2.cycle == Some(CycleModel { index: 1, target: order[1], last_at: now })
                && s2.history == promoted(order, order[1]) && focus == Some(order[1]))
            &&& order.len() < 2 ==> cycle_step(s, panes, current, now, within_timeout) == Err::<
                (StateModel, Option<Seq<char>>),
                CycleError,
            >(CycleError::IndexOutOfBounds)
        }),
{
    if s.history.filter(in_panes(panes)).len() == s.history.len() {
        lemma_filter_keeps_all(s.history, in_panes(panes));
        let k = choose|k: int| 0 <= k < s.history.len() && s.history[k] == y;
        assert(in_panes(panes)(s.history[k]));
    }
    lemma_restart_step(s, panes, current, now, within_timeout);
}


/// A press after the cycle timeout starts a new cycle from the current
/// history, whatever cycle was stored: it selects the entry after the current
/// pane in the order it walks, which is another pane, and focuses it.
pub proof fn lemma_pause_restarts(s: StateModel, panes: Seq<Seq<char>>, current: Seq<char>, now: u64)
    requires
        s.history.no_duplicates(),
        panes.no_duplicates(),
        panes.len() >= 2,
        panes.contains(current),
    ensures
        ({
            let order = cycle_order(s.history, panes, current);
            &&& order.len() >= 2
            &&& order[1] != current
            &&& cycle_step(s, panes, current, now, false) matches Ok((s2, focus))
            &&& s2.cycle == Some(CycleModel { index: 1, target: order[1], last_at: now })
            &&& focus == Some(order[1])
        }),
{
    let order = cycle_order(s.history, panes, current);
    lemma_cycle_order_holds_live_panes(s.history, panes, current);
    lemma_distinct_subset_len(panes, order);
    assert(order[0] == current);
    assert(order[1] != order[0]);
}

/// After the host reports focus on `a` and then on another pane `b`, a press
/// of the cycle action from `b` focuses `a`, whatever the state was before
/// and however recent the last press, when both panes are live.
pub proof fn lemma_press_returns_to_previous_focus(
    s: StateModel,
    a: Seq<char>,
    b: Seq<char>,
    panes: Seq<Seq<char>>,
    now: u64,
    within_timeout: bool,
)
    requires
        a != b,
        panes.contains(a),
        panes.contains(b),
    ensures
        ({
            let s1 = record_step(record_step(s, a, "pane.focused"@), b, "pane.focused"@);
            cycle_step(s1, panes, b, now, within_timeout) matches Ok((s2, focus)) && focus == Some(a)
                && s2.cycle == Some(CycleModel { index: 1, target: a, last_at: now })
        }),
{
    reveal_strlit("pane.focused");
    reveal_strlit("pane.closed");
    let s0 = record_step(s, a, "pane.focused"@);
    let s1 = record_step(s0, b, "pane.focused"@);
    assert("pane.focused"@ != "pane.closed"@) by {
        assert("pane.focused"@[5] != "pane.closed"@[5]);
    }
    assert(s0.cycle is None || s0.cycle->Some_0.target == a);
    assert(s1.cycle is None);
    reveal(promoted);
    let h0 = s0.history;
    assert(h0 == seq![a] + s.history.filter(differs_from(a)));
    Seq::filter_distributes_over_add(seq![a], s.history.filter(differs_from(a)), differs_from(b));
    lemma_filter_all(seq![a], differs_from(b));
    assert(s1.history[0] == b);
    assert(s1.history[1] == a);
    assert(!continues(s1, panes, b, within_timeout));
    lemma_first_press_returns_to_previous(s1, panes, now, within_timeout);
}

/// Recording an event keeps the history free of duplicates.
pub proof fn lemma_record_keeps_history_distinct(s: StateModel, pane: Seq<char>, event: Seq<char>)
    requires
        s.history.no_duplicates(),
    ensures
        record_step(s, pane, event).history.no_duplicates(),
{
    lemma_filter_no_duplicates(s.history, differs_from(pane));
    lemma_promoted_no_duplicates(s.history, pane);
}

/// After a pane closes, the history no longer names it and no cycle is kept;
/// after any other event about a pane, that pane is the most recent one.
pub proof fn lemma_record_event_effect(s: StateModel, pane: Seq<char>, event: Seq<char>)
    ensures
        event == "pane.closed"@ ==> !record_step(s, pane, event).history.contains(pane)
            && record_step(s, pane, event).cycle is None,
        event != "pane.closed"@ ==> record_step(s, pane, event).history[0] == pane,
{
    if event == "pane.closed"@ {
        let f = s.history.filter(differs_from(pane));
        if f.contains(pane) {
            let k = choose|k: int| 0 <= k < f.len() && f[k] == pane;
            s.history.lemma_filter_pred(differs_from(pane), k);
        }
    } else {
        lemma_promoted_shape(s.history, pane);
    }
}

/// Every pane of a priority bucket has that priority.
proof fn lemma_bucket_rank(panes: Seq<Pane>, r: nat, i: int)
    requires
        0 <= i < panes.filter(has_rank(r)).len(),
    ensures
        pane_rank(panes.filter(has_rank(r))[i]) == Some(r),
{
    panes.lemma_filter_pred(has_rank(r), i);
}

/// The attention order lists exactly the panes that have a priority, and
/// never a pane of lower priority before one of higher priority.
pub proof fn lemma_attention_sorted(panes: Seq<Pane>)
    ensures
        forall|i: int| 0 <= i < attention_order(panes).len() ==> pane_rank(#[trigger] attention_order(panes)[i]) is Some,
        forall|i: int, j: int|
            0 <= i <= j < attention_order(panes).len() ==> pane_rank(#[trigger] attention_order(panes)[i])->Some_0
                <= pane_rank(#[trigger] attention_order(panes)[j])->Some_0,
        forall|k: int|
            0 <= k < panes.len() && pane_rank(panes[k]) is Some ==> #[trigger] attention_order(panes).contains(
                panes[k],
            ),
{
    let b0 = panes.filter(has_rank(0));
    let b1 = panes.filter(has_rank(1));
    let b2 = panes.filter(has_rank(2));
    let b3 = panes.filter(has_rank(3));
    let att = attention_order(panes);
    let l0 = b0.len() as int;
    let l1 = l0 + b1.len();
    let l2 = l1 + b2.len();
    assert forall|i: int| 0 <= i < att.len() implies pane_rank(#[trigger] att[i]) == Some(
        if i < l0 { 0nat } else if i < l1 { 1nat } else if i < l2 { 2nat } else { 3nat },
    ) by {
        if i < l0 {
            assert(att[i] == b0[i]);
            lemma_bucket_rank(panes, 0, i);
        } else if i < l1 {
            assert(att[i] == b1[i - l0]);
            lemma_bucket_rank(panes, 1, i - l0);
        } else if i < l2 {
            assert(att[i] == b2[i - l1]);
            lemma_bucket_rank(panes, 2, i - l1);
        } else {
            assert(att[i] == b3[i - l2]);
            lemma_bucket_rank(panes, 3, i - l2);
        }
    }
    assert forall|k: int|
        0 <= k < panes.len() && pane_rank(panes[k]) is Some implies #[trigger] att.contains(panes[k]) by {
        let r = pane_rank(panes[k])->Some_0;
        let x = panes[k];
        panes.lemma_filter_contains(has_rank(r), k);
        if r == 0 {
            let j = choose|j: int| 0 <= j < b0.len() && b0[j] == x;
            assert(att[j] == x);
        } else if r == 1 {
            let j = choose|j: int| 0 <= j < b1.len() && b1[j] == x;
            assert(att[l0 + j] == x);
        } else if r == 2 {
            let j = choose|j: int| 0 <= j < b2.len() && b2[j] == x;
            assert(att[l1 + j] == x);
        } else {
            let j = choose|j: int| 0 <= j < b3.len() && b3[j] == x;
            assert(att[l2 + j] == x);
        }
    }
}

/// When attention panes have distinct ids, the cycling attention action
/// from the attention pane at `i` targets the next one, and from the last
/// one wraps to the first.
pub proof fn lemma_cycle_attention_advances(attention: Seq<Pane>, i: int)
    requires
        0 <= i < attention.len(),
        forall|j: int, k: int|
            0 <= j < attention.len() && 0 <= k < attention.len() && j != k ==> attention[j].pane_id@
                != attention[k].pane_id@,
    ensures
        attention_target(attention, Some(attention[i].pane_id@), true) == Some(
            attention[(i + 1) % attention.len() as int],
        ),
{
    let id = attention[i].pane_id@;
    assert(exists|j: int| 0 <= j < attention.len() && attention[j].pane_id@ == id);
    let k = first_position(attention, id)->Some_0;
    assert(k == i);
    if i + 1 < attention.len() {
        vstd::arithmetic::div_mod::lemma_small_mod((i + 1) as nat, attention.len());
    } else {
        vstd::arithmetic::div_mod::lemma_mod_self_0(attention.len() as int);
    }
}

/// The focus-attention action targets a pane of the highest priority present.
pub proof fn lemma_focus_attention_picks_top_priority(panes: Seq<Pane>, current: Option<Seq<char>>)
    requires
        attention_order(panes).len() > 0,
    ensures
        attention_target(attention_order(panes), current, false) == Some(attention_order(panes)[0]),
        forall|k: int|
            0 <= k < panes.len() && #[trigger] pane_rank(panes[k]) is Some ==> pane_rank(
                attention_order(panes)[0],
            )->Some_0 <= pane_rank(panes[k])->Some_0,
{
    let att = attention_order(panes);
    lemma_attention_sorted(panes);
    assert forall|k: int|
        0 <= k < panes.len() && #[trigger] pane_rank(panes[k]) is Some implies pane_rank(att[0])->Some_0
        <= pane_rank(panes[k])->Some_0 by {
        assert(att.contains(panes[k]));
        let j = choose|j: int| 0 <= j < att.len() && att[j] == panes[k];
        assert(pane_rank(att[0])->Some_0 <= pane_rank(att[j])->Some_0);
    }
}

} // verus!
