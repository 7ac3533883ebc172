//! Reply threads: a message and, under it, the visible messages that reply
//! to it; under a limit the newest replies are shown and the rest counted.

use vstd::prelude::*;
use crate::error::{ErrorCode, RaftError};
use crate::lists::views;
use crate::records::{Message, Withdrawal};
use crate::text::{debug_quoted, debug_str, str_eq};

verus! {

broadcast use vstd::std_specs::vec::group_vec_axioms, vstd::seq::group_seq_axioms;

/// A message and the replies shown under it.
pub struct ThreadNode {
    pub message: Message,
    pub children: Vec<ThreadNode>,
}

/// The shape of a thread: each node names its message by its position in
/// the message list.
pub struct ThreadShape {
    pub index: int,
    pub children: Seq<ThreadShape>,
}

pub open spec fn opt_text(o: Option<String>) -> Option<Seq<char>> {
    match o {
        Some(s) => Some(s@),
        None => None,
    }
}

pub open spec fn withdrawal_view(w: Option<Withdrawal>) -> Option<(Seq<char>, Seq<char>, Option<Seq<char>>)> {
    match w {
        Some(x) => Some((x.by@, x.at@, opt_text(x.reason))),
        None => None,
    }
}

/// Two messages hold the same values.
pub open spec fn same_message(a: Message, b: Message) -> bool {
    &&& a.v == b.v
    &&& a.id@ == b.id@
    &&& a.conversation_id@ == b.conversation_id@
    &&& a.kind@ == b.kind@
    &&& a.from@ == b.from@
    &&& views(a.to@) == views(b.to@)
    &&& views(a.mentions@) == views(b.mentions@)
    &&& a.subject@ == b.subject@
    &&& a.body@ == b.body@
    &&& a.created_at@ == b.created_at@
    &&& a.requires_ack == b.requires_ack
    &&& views(a.needs_response_from@) == views(b.needs_response_from@)
    &&& opt_text(a.subject_id) == opt_text(b.subject_id)
    &&& opt_text(a.after) == opt_text(b.after)
    &&& withdrawal_view(a.withdrawn) == withdrawal_view(b.withdrawn)
}

/// A thread node holds the messages its shape names.
pub open spec fn fits(n: ThreadNode, t: ThreadShape, ms: Seq<Message>) -> bool
    decreases n, 0int,
{
    &&& 0 <= t.index < ms.len()
    &&& same_message(n.message, ms[t.index])
    &&& n.children@.len() == t.children.len()
    &&& fits_all(n.children@, t.children, ms, n.children@.len() as int)
}

/// The first `k` nodes hold what their shapes name.
pub open spec fn fits_all(cs: Seq<ThreadNode>, ts: Seq<ThreadShape>, ms: Seq<Message>, k: int) -> bool
    decreases cs, k,
{
    if k <= 0 || k > cs.len() {
        true
    } else {
        fits_all(cs, ts, ms, k - 1) && fits(cs[k - 1], ts[k - 1], ms)
    }
}

/// The position of the first message with id `id` at or after `i`.
pub open spec fn first_from(ms: Seq<Message>, id: Seq<char>, i: int) -> Option<int>
    decreases ms.len() - i,
{
    if i < 0 || i >= ms.len() {
        None
    } else if ms[i].id@ == id {
        Some(i)
    } else {
        first_from(ms, id, i + 1)
    }
}

pub open spec fn first_with_id(ms: Seq<Message>, id: Seq<char>) -> Option<int> {
    first_from(ms, id, 0)
}

/// The position of the message `ms[j]` replies to: the first message whose
/// id is its `after`.
pub open spec fn parent_of(ms: Seq<Message>, j: int) -> Option<int> {
    match opt_text(ms[j].after) {
        Some(a) => first_with_id(ms, a),
        None => None,
    }
}

/// Whether following replies upward from `j` reaches `root` within `steps`
/// steps.
pub open spec fn reaches(ms: Seq<Message>, root: int, j: int, steps: nat) -> bool
    decreases steps,
{
    if j == root {
        true
    } else if steps == 0 {
        false
    } else {
        match parent_of(ms, j) {
            Some(p) => reaches(ms, root, p, (steps - 1) as nat),
            None => false,
        }
    }
}

/// The message at `j` belongs to the thread of `root`: it is the root or
/// replies to it, directly or through other replies.
pub open spec fn in_thread(ms: Seq<Message>, root: int, j: int) -> bool {
    0 <= j < ms.len() && reaches(ms, root, j, ms.len())
}

/// The number of replies in the thread (members other than the root) at
/// positions `j` and later.
pub open spec fn replies_from(ms: Seq<Message>, root: int, j: int) -> nat
    decreases ms.len() - j,
{
    if j < 0 || j >= ms.len() {
        0
    } else {
        replies_from(ms, root, j + 1) + if j != root && in_thread(ms, root, j) {
            1nat
        } else {
            0nat
        }
    }
}

/// How many replies a thread of at most `limit` messages shows beside its
/// root (the root always counts, even under a limit of 0).
pub open spec fn reply_budget(limit: nat) -> nat {
    if limit == 0 {
        0
    } else {
        (limit - 1) as nat
    }
}

/// Whether the message at `j` is shown: the root always is, and a reply is
/// when fewer than the budget of replies are newer (later in id order).
pub open spec fn kept(ms: Seq<Message>, root: int, limit: nat, j: int) -> bool {
    j == root || (in_thread(ms, root, j) && replies_from(ms, root, j + 1) < reply_budget(limit))
}

/// The first shown message at or above `p`, following replies upward within
/// `steps` steps.
pub open spec fn kept_above(ms: Seq<Message>, root: int, limit: nat, p: Option<int>, steps: nat) -> Option<int>
    decreases steps,
{
    match p {
        None => None,
        Some(k) => if kept(ms, root, limit, k) {
            Some(k)
        } else if steps == 0 {
            None
        } else {
            kept_above(ms, root, limit, parent_of(ms, k), (steps - 1) as nat)
        },
    }
}

/// The nearest shown ancestor of the message at `j`: a shown reply whose
/// parent was dropped hangs under the next shown message above it.
pub open spec fn kept_parent(ms: Seq<Message>, root: int, limit: nat, j: int) -> Option<int> {
    kept_above(ms, root, limit, parent_of(ms, j), ms.len())
}

/// The shown children of the node at `i` among positions `j` and later, in id
/// order, each with its own subtree (`fuel` bounds the depth).
pub open spec fn shown_children(ms: Seq<Message>, root: int, limit: nat, i: int, j: int, fuel: nat) -> Seq<ThreadShape>
    decreases fuel, ms.len() - j,
{
    if j < 0 || j >= ms.len() {
        Seq::empty()
    } else if fuel > 0 && j != root && kept(ms, root, limit, j) && kept_parent(ms, root, limit, j) == Some(i) {
        seq![shown_node(ms, root, limit, j, (fuel - 1) as nat)] + shown_children(ms, root, limit, i, j + 1, fuel)
    } else {
        shown_children(ms, root, limit, i, j + 1, fuel)
    }
}

/// The node at `i` with its shown children.
pub open spec fn shown_node(ms: Seq<Message>, root: int, limit: nat, i: int, fuel: nat) -> ThreadShape
    decreases fuel, ms.len() + 1,
{
    ThreadShape { index: i, children: shown_children(ms, root, limit, i, 0, fuel) }
}

/// How many replies a limit of `limit` drops from the thread of `root`.
pub open spec fn omitted_replies(ms: Seq<Message>, root: int, limit: nat) -> nat {
    if replies_from(ms, root, 0) > reply_budget(limit) {
        (replies_from(ms, root, 0) - reply_budget(limit)) as nat
    } else {
        0
    }
}

pub open spec fn opt_pos(o: Option<usize>) -> Option<int> {
    match o {
        Some(p) => Some(p as int),
        None => None,
    }
}

proof fn lemma_first_found(ms: Seq<Message>, id: Seq<char>, i: int)
    ensures
        first_from(ms, id, i) matches Some(k) ==> 0 <= k < ms.len() && ms[k].id@ == id,
        first_from(ms, id, i) is None ==> forall|k: int| 0 <= i <= k < ms.len() ==> ms[k].id@ != id,
    decreases ms.len() - i,
{
    if 0 <= i < ms.len() && ms[i].id@ != id {
        lemma_first_found(ms, id, i + 1);
    }
}

proof fn lemma_fits_all_push(cs: Seq<ThreadNode>, ts: Seq<ThreadShape>, ms: Seq<Message>, x: ThreadNode, t: ThreadShape, k: int)
    requires
        0 <= k <= cs.len(),
        cs.len() == ts.len(),
        fits_all(cs, ts, ms, k),
    ensures
        fits_all(cs.push(x), ts.push(t), ms, k),
    decreases k,
{
    if k > 0 {
        lemma_fits_all_push(cs, ts, ms, x, t, k - 1);
        assert(cs.push(x)[k - 1] == cs[k - 1]);
        assert(ts.push(t)[k - 1] == ts[k - 1]);
    }
}

fn copy_strings(v: &Vec<String>) -> (r: Vec<String>)
    ensures
        views(r@) == views(v@),
{
    let mut out: Vec<String> = Vec::new();
    let mut i: usize = 0;
    while i < v.len()
        invariant
            i <= v@.len(),
            views(out@) == views(v@).take(i as int),
        decreases v@.len() - i,
    {
        let ghost before = out@;
        out.push(v[i].clone());
        proof {
            assert(views(out@) =~= views(before).push(v@[i as int]@));
            assert(views(v@).take(i + 1) =~= views(v@).take(i as int).push(v@[i as int]@));
        }
        i = i + 1;
    }
    assert(views(v@).take(v@.len() as int) =~= views(v@));
    out
}

fn copy_opt(o: &Option<String>) -> (r: Option<String>)
    ensures
        opt_text(r) == opt_text(*o),
{
    match o {
        Some(s) => Some(s.clone()),
        None => None,
    }
}

/// A copy of a message.
pub fn copy_message(m: &Message) -> (r: Message)
    ensures
        same_message(r, *m),
{
    Message {
        v: m.v,
        id: m.id.clone(),
        conversation_id: m.conversation_id.clone(),
        kind: m.kind.clone(),
        from: m.from.clone(),
        to: copy_strings(&m.to),
        mentions: copy_strings(&m.mentions),
        subject: m.subject.clone(),
        body: m.body.clone(),
        created_at: m.created_at.clone(),
        requires_ack: m.requires_ack,
        needs_response_from: copy_strings(&m.needs_response_from),
        subject_id: copy_opt(&m.subject_id),
        after: copy_opt(&m.after),
        withdrawn: match &m.withdrawn {
            Some(w) => Some(Withdrawal { by: w.by.clone(), at: w.at.clone(), reason: copy_opt(&w.reason) }),
            None => None,
        },
    }
}

fn find_index(ms: &[Message], id: &str) -> (r: Option<usize>)
    ensures
        match r {
            Some(i) => first_with_id(ms@, id@) == Some(i as int),
            None => first_with_id(ms@, id@) is None,
        },
{
    let mut i: usize = 0;
    while i < ms.len()
        invariant
            i <= ms@.len(),
            first_with_id(ms@, id@) == first_from(ms@, id@, i as int),
        decreases ms@.len() - i,
    {
        if str_eq(ms[i].id.as_str(), id) {
            return Some(i);
        }
        i = i + 1;
    }
    None
}

/// A thread as shown: the tree, and how many replies the limit left out.
pub struct ThreadView {
    pub root: ThreadNode,
    pub truncated: bool,
    pub omitted: usize,
}

/// The positions the messages reply to, as [`parent_of`] gives them.
fn parent_positions(ms: &[Message]) -> (r: Vec<Option<usize>>)
    ensures
        r@.len() == ms@.len(),
        forall|j: int| 0 <= j < ms@.len() ==> opt_pos(#[trigger] r@[j]) == parent_of(ms@, j),
        forall|j: int| 0 <= j < ms@.len() ==> (#[trigger] r@[j] matches Some(p) ==> p < ms@.len()),
{
    let mut out: Vec<Option<usize>> = Vec::new();
    let mut j: usize = 0;
    while j < ms.len()
        invariant
            j <= ms@.len(),
            out@.len() == j,
            forall|t: int| 0 <= t < j ==> opt_pos(#[trigger] out@[t]) == parent_of(ms@, t),
            forall|t: int| 0 <= t < j ==> (#[trigger] out@[t] matches Some(p) ==> p < ms@.len()),
        decreases ms@.len() - j,
    {
        let p = match &ms[j].after {
            Some(a) => {
                let f = find_index(ms, a.as_str());
                proof {
                    lemma_first_found(ms@, a@, 0);
                }
                f
            },
            None => None,
        };
        out.push(p);
        j = j + 1;
    }
    out
}

/// Whether the thread of `root` holds the message at `j`.
fn walks_to_root(ms: &[Message], parents: &Vec<Option<usize>>, root: usize, j: usize) -> (r: bool)
    requires
        parents@.len() == ms@.len(),
        forall|t: int| 0 <= t < ms@.len() ==> opt_pos(#[trigger] parents@[t]) == parent_of(ms@, t),
        forall|t: int| 0 <= t < ms@.len() ==> (#[trigger] parents@[t] matches Some(p) ==> p < ms@.len()),
        j < ms@.len(),
    ensures
        r == in_thread(ms@, root as int, j as int),
{
    let mut cur = j;
    let mut steps = ms.len();
    loop
        invariant
            parents@.len() == ms@.len(),
            forall|t: int| 0 <= t < ms@.len() ==> opt_pos(#[trigger] parents@[t]) == parent_of(ms@, t),
            forall|t: int| 0 <= t < ms@.len() ==> (#[trigger] parents@[t] matches Some(p) ==> p < ms@.len()),
            j < ms@.len(),
            cur < ms@.len(),
            reaches(ms@, root as int, j as int, ms@.len()) == reaches(ms@, root as int, cur as int, steps as nat),
        decreases steps,
    {
        if cur == root {
            return true;
        }
        if steps == 0 {
            return false;
        }
        match parents[cur] {
            None => {
                return false;
            },
            Some(p) => {
                cur = p;
                steps = steps - 1;
            },
        }
    }
}

/// The first shown message at or above `start`.
fn nearest_kept(
    ms: &[Message],
    parents: &Vec<Option<usize>>,
    shown: &Vec<bool>,
    root: usize,
    limit: usize,
    start: Option<usize>,
) -> (r: Option<usize>)
    requires
        parents@.len() == ms@.len(),
        shown@.len() == ms@.len(),
        forall|t: int| 0 <= t < ms@.len() ==> opt_pos(#[trigger] parents@[t]) == parent_of(ms@, t),
        forall|t: int| 0 <= t < ms@.len() ==> (#[trigger] parents@[t] matches Some(p) ==> p < ms@.len()),
        forall|t: int| 0 <= t < ms@.len() ==> #[trigger] shown@[t] == kept(ms@, root as int, limit as nat, t),
        start matches Some(p) ==> p < ms@.len(),
    ensures
        opt_pos(r) == kept_above(ms@, root as int, limit as nat, opt_pos(start), ms@.len()),
        r matches Some(p) ==> p < ms@.len(),
{
    let mut cur = start;
    let mut steps = ms.len();
    loop
        invariant
            parents@.len() == ms@.len(),
            shown@.len() == ms@.len(),
            forall|t: int| 0 <= t < ms@.len() ==> opt_pos(#[trigger] parents@[t]) == parent_of(ms@, t),
            forall|t: int| 0 <= t < ms@.len() ==> (#[trigger] parents@[t] matches Some(p) ==> p < ms@.len()),
            forall|t: int| 0 <= t < ms@.len() ==> #[trigger] shown@[t] == kept(ms@, root as int, limit as nat, t),
            cur matches Some(p) ==> p < ms@.len(),
            kept_above(ms@, root as int, limit as nat, opt_pos(start), ms@.len()) == kept_above(
                ms@,
                root as int,
                limit as nat,
                opt_pos(cur),
                steps as nat,
            ),
        decreases steps,
    {
        match cur {
            None => {
                return None;
            },
            Some(k) => {
                if shown[k] {
                    return Some(k);
                }
                if steps == 0 {
                    return None;
                }
                cur = parents[k];
                steps = steps - 1;
            },
        }
    }
}

/// The node at `i` with its shown children, down to depth `fuel`.
fn build_shown(
    ms: &[Message],
    shown: &Vec<bool>,
    above: &Vec<Option<usize>>,
    root: usize,
    limit: usize,
    i: usize,
    fuel: usize,
) -> (r: ThreadNode)
    requires
        shown@.len() == ms@.len(),
        above@.len() == ms@.len(),
        forall|t: int| 0 <= t < ms@.len() ==> #[trigger] shown@[t] == kept(ms@, root as int, limit as nat, t),
        forall|t: int| 0 <= t < ms@.len() ==> opt_pos(#[trigger] above@[t]) == kept_parent(
            ms@,
            root as int,
            limit as nat,
            t,
        ),
        i < ms@.len(),
    ensures
        fits(r, shown_node(ms@, root as int, limit as nat, i as int, fuel as nat), ms@),
    decreases fuel,
{
    let ghost full = shown_children(ms@, root as int, limit as nat, i as int, 0, fuel as nat);
    let mut children: Vec<ThreadNode> = Vec::new();
    let ghost mut shapes: Seq<ThreadShape> = Seq::empty();
    let mut j: usize = 0;
    while j < ms.len()
        invariant
            shown@.len() == ms@.len(),
            above@.len() == ms@.len(),
            forall|t: int| 0 <= t < ms@.len() ==> #[trigger] shown@[t] == kept(ms@, root as int, limit as nat, t),
            forall|t: int| 0 <= t < ms@.len() ==> opt_pos(#[trigger] above@[t]) == kept_parent(
                ms@,
                root as int,
                limit as nat,
                t,
            ),
            i < ms@.len(),
            j <= ms@.len(),
            full == shown_children(ms@, root as int, limit as nat, i as int, 0, fuel as nat),
            children@.len() == shapes.len(),
            fits_all(children@, shapes, ms@, children@.len() as int),
            shapes + shown_children(ms@, root as int, limit as nat, i as int, j as int, fuel as nat) == full,
        decreases ms@.len() - j,
    {
        let under_i = match above[j] {
            Some(p) => p == i,
            None => false,
        };
        let ghost rest = shown_children(ms@, root as int, limit as nat, i as int, j + 1, fuel as nat);
        if fuel > 0 && j != root && shown[j] && under_i {
            let child = build_shown(ms, shown, above, root, limit, j, fuel - 1);
            proof {
                let t = shown_node(ms@, root as int, limit as nat, j as int, (fuel - 1) as nat);
                lemma_fits_all_push(children@, shapes, ms@, child, t, children@.len() as int);
                assert(shapes.push(t) + rest =~= shapes + (seq![t] + rest));
                shapes = shapes.push(t);
            }
            let ghost prev = children@;
            children.push(child);
            proof {
                assert(children@ == prev.push(child));
            }
        }
        j = j + 1;
    }
    proof {
        assert(shapes =~= full);
    }
    ThreadNode { message: copy_message(&ms[i]), children }
}

/// The thread under message `message_id` among `messages` (the visible
/// messages, in id order), showing at most `limit` messages: the root always,
/// then the newest of its replies; a shown reply whose parent was dropped
/// hangs under its nearest shown ancestor, and `omitted` counts the replies
/// left out.
pub fn build_thread_node(message_id: &str, messages: &[Message], limit: usize) -> (r: Result<ThreadView, RaftError>)
    ensures
        match first_with_id(messages@, message_id@) {
            None => r matches Err(e) && e.code == ErrorCode::Error && e.message@ == "message "@ + debug_quoted(
                message_id@,
            ) + " was not found in visible thread"@,
            Some(i) => r matches Ok(v) && fits(v.root, shown_node(messages@, i, limit as nat, i, messages@.len()), messages@)
                && v.omitted == omitted_replies(messages@, i, limit as nat) && v.truncated == (v.omitted > 0),
        },
{
    let root = match find_index(messages, message_id) {
        Some(i) => i,
        None => {
            let mut m = String::from_str("message ");
            m.append(debug_str(message_id).as_str());
            m.append(" was not found in visible thread");
            return Err(RaftError::coded(ErrorCode::Error, m));
        },
    };
    proof {
        lemma_first_found(messages@, message_id@, 0);
    }
    let ghost ms = messages@;
    let n = messages.len();
    let parents = parent_positions(messages);
    let budget: usize = if limit == 0 { 0 } else { limit - 1 };
    let mut shown: Vec<bool> = Vec::new();
    let mut t: usize = 0;
    while t < n
        invariant
            t <= n,
            n == ms.len(),
            shown@.len() == t,
        decreases n - t,
    {
        shown.push(false);
        t = t + 1;
    }
    let mut count: usize = 0;
    let mut k: usize = n;
    while k > 0
        invariant
            ms == messages@,
            n == ms.len(),
            k <= n,
            root < n,
            budget as nat == reply_budget(limit as nat),
            parents@.len() == ms.len(),
            forall|u: int| 0 <= u < ms.len() ==> opt_pos(#[trigger] parents@[u]) == parent_of(ms, u),
            forall|u: int| 0 <= u < ms.len() ==> (#[trigger] parents@[u] matches Some(p) ==> p < ms.len()),
            shown@.len() == n,
            count as nat == replies_from(ms, root as int, k as int),
            count <= n - k,
            forall|u: int| k <= u < n ==> #[trigger] shown@[u] == kept(ms, root as int, limit as nat, u),
        decreases k,
    {
        k = k - 1;
        let member = walks_to_root(messages, &parents, root, k);
        let is_reply = k != root && member;
        let keep = k == root || (member && count < budget);
        shown.set(k, keep);
        if is_reply {
            count = count + 1;
        }
    }
    let mut above: Vec<Option<usize>> = Vec::new();
    let mut j: usize = 0;
    while j < n
        invariant
            ms == messages@,
            n == ms.len(),
            j <= n,
            root < n,
            parents@.len() == ms.len(),
            forall|u: int| 0 <= u < ms.len() ==> opt_pos(#[trigger] parents@[u]) == parent_of(ms, u),
            forall|u: int| 0 <= u < ms.len() ==> (#[trigger] parents@[u] matches Some(p) ==> p < ms.len()),
            shown@.len() == n,
            forall|u: int| 0 <= u < n ==> #[trigger] shown@[u] == kept(ms, root as int, limit as nat, u),
            above@.len() == j,
            forall|u: int| 0 <= u < j ==> opt_pos(#[trigger] above@[u]) == kept_parent(ms, root as int, limit as nat, u),
        decreases n - j,
    {
        let a = nearest_kept(messages, &parents, &shown, root, limit, parents[j]);
        above.push(a);
        j = j + 1;
    }
    let tree = build_shown(messages, &shown, &above, root, limit, root, n);
    let omitted = if count > budget { count - budget } else { 0 };
    Ok(ThreadView { root: tree, truncated: omitted > 0, omitted })
}

} // verus!
