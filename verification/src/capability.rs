//! Capability tokens: attenuable, offline-verifiable authority.
//!
//! A token is a chain of signed blocks. The root block is signed by the
//! issuing key; each later block is an attenuation signed by the previous
//! block's holder. Effective authority is the intersection of every block's
//! caveats, so a later block can only narrow it. Authorization is fail-closed
//! on `action`: a token whose effective action set is unconstrained
//! authorizes nothing.

use vstd::prelude::*;
use crate::crypto::{
    ed25519_public, keypair_facts, parsed_pubkey, pubkey_panics, pubkey_text, signature_valid, verify_error,
    verify, verify_safe, verify_would_panic, Keypair,
};
use crate::error::{ErrorCode, RaftError};
use crate::hex::{hex_decoded, hex_panics};
use crate::json::{
    char_views, member_chars, member_text, object_chars, object_text, quoted, quoted_chars,
    string_list_chars, string_list_text, utf8, utf8_bytes,
};
use crate::lists::{contains_str, views};
use crate::sets::{lemma_views_push, sorted_set_of, sorted_strict};
use crate::suggest::seq_less;
use crate::text::{debug_quoted, debug_str, decimal, decimal_chars, str_eq};
use crate::time::{instant_before, instant_lt, instant_min, parse_time, rfc3339_instant, utc_seconds, utc_seconds_text};
use crate::util::schema_v1;

verus! {

/// Restrictions carried by one block. An empty list or an absent value leaves
/// that dimension to the other blocks; a present one narrows it.
pub struct Caveats {
    /// Allowed action verbs (`task.dispatch`, `tool.run:deploy`, ...).
    pub action: Vec<String>,
    /// Allowed tool names.
    pub tool: Vec<String>,
    /// The single conversation the token is scoped to.
    pub conversation: Option<String>,
    /// Allowed execution environments.
    pub env: Vec<String>,
    /// Maximum task runtime, seconds.
    pub max_runtime_s: Option<u64>,
    /// Maximum captured output, bytes.
    pub max_output_bytes: Option<u64>,
    /// Absolute expiry, RFC 3339.
    pub expires_at: Option<String>,
}

impl Caveats {
    /// Caveats that constrain nothing.
    pub fn unconstrained() -> (r: Caveats)
        ensures
            r.action@.len() == 0,
            r.tool@.len() == 0,
            r.conversation is None,
            r.env@.len() == 0,
            r.max_runtime_s is None,
            r.max_output_bytes is None,
            r.expires_at is None,
    {
        Caveats {
            action: Vec::new(),
            tool: Vec::new(),
            conversation: None,
            env: Vec::new(),
            max_runtime_s: None,
            max_output_bytes: None,
            expires_at: None,
        }
    }
}

impl Default for Caveats {
    fn default() -> (r: Caveats)
        ensures
            r.action@.len() == 0,
            r.tool@.len() == 0,
            r.conversation is None,
            r.env@.len() == 0,
            r.max_runtime_s is None,
            r.max_output_bytes is None,
            r.expires_at is None,
    {
        Caveats::unconstrained()
    }
}

/// One link of the delegation chain.
pub struct Block {
    /// Key that signs this block (`ed25519:<hex>`).
    pub issuer: String,
    /// Key this block delegates to (`ed25519:<hex>`).
    pub holder: String,
    pub caveats: Caveats,
    /// Signature by `issuer` over the canonical block without `sig`.
    pub sig: Option<String>,
}

/// A capability token.
pub struct Token {
    pub v: u16,
    /// The key at the root of authority; equals the first block's issuer.
    pub root_issuer: String,
    pub blocks: Vec<Block>,
}

pub open spec fn opt_view(o: Option<String>) -> Option<Seq<char>> {
    match o {
        Some(s) => Some(s@),
        None => None,
    }
}

/// Caveats as values.
pub struct CaveatsView {
    pub action: Seq<Seq<char>>,
    pub tool: Seq<Seq<char>>,
    pub conversation: Option<Seq<char>>,
    pub env: Seq<Seq<char>>,
    pub max_runtime_s: Option<u64>,
    pub max_output_bytes: Option<u64>,
    pub expires_at: Option<Seq<char>>,
}

/// A block as values.
pub struct BlockView {
    pub issuer: Seq<char>,
    pub holder: Seq<char>,
    pub caveats: CaveatsView,
    pub sig: Option<Seq<char>>,
}

/// A token as values.
pub struct TokenView {
    pub v: u16,
    pub root_issuer: Seq<char>,
    pub blocks: Seq<BlockView>,
}

impl View for Caveats {
    type V = CaveatsView;

    open spec fn view(&self) -> CaveatsView {
        CaveatsView {
            action: views(self.action@),
            tool: views(self.tool@),
            conversation: opt_view(self.conversation),
            env: views(self.env@),
            max_runtime_s: self.max_runtime_s,
            max_output_bytes: self.max_output_bytes,
            expires_at: opt_view(self.expires_at),
        }
    }
}

impl View for Block {
    type V = BlockView;

    open spec fn view(&self) -> BlockView {
        BlockView { issuer: self.issuer@, holder: self.holder@, caveats: self.caveats@, sig: opt_view(self.sig) }
    }
}

pub open spec fn block_views(v: Seq<Block>) -> Seq<BlockView> {
    Seq::new(v.len(), |i: int| v[i]@)
}

impl View for Token {
    type V = TokenView;

    open spec fn view(&self) -> TokenView {
        TokenView { v: self.v, root_issuer: self.root_issuer@, blocks: block_views(self.blocks@) }
    }
}

pub open spec fn opt_part(present: bool, part: Seq<char>) -> Seq<Seq<char>> {
    if present {
        seq![part]
    } else {
        Seq::empty()
    }
}

/// The members of a caveats object, in key order, absent ones skipped.
pub open spec fn caveats_members(c: CaveatsView) -> Seq<Seq<char>> {
    opt_part(c.action.len() > 0, member_text("action"@, string_list_text(c.action)))
        + opt_part(c.conversation is Some, member_text("conversation"@, quoted(c.conversation->0)))
        + opt_part(c.env.len() > 0, member_text("env"@, string_list_text(c.env)))
        + opt_part(c.expires_at is Some, member_text("expires_at"@, quoted(c.expires_at->0)))
        + opt_part(c.max_output_bytes is Some, member_text("max_output_bytes"@, decimal(c.max_output_bytes->0 as nat)))
        + opt_part(c.max_runtime_s is Some, member_text("max_runtime_s"@, decimal(c.max_runtime_s->0 as nat)))
        + opt_part(c.tool.len() > 0, member_text("tool"@, string_list_text(c.tool)))
}

/// Canonical JSON text of caveats.
pub open spec fn caveats_text(c: CaveatsView) -> Seq<char> {
    object_text(caveats_members(c))
}

/// Canonical JSON text of a block without its `sig`: what the signature covers.
pub open spec fn block_signing_text(b: BlockView) -> Seq<char> {
    object_text(
        seq![
            member_text("caveats"@, caveats_text(b.caveats)),
            member_text("holder"@, quoted(b.holder)),
            member_text("issuer"@, quoted(b.issuer)),
        ],
    )
}

pub open spec fn block_signing_bytes(b: BlockView) -> Seq<u8> {
    utf8(block_signing_text(b))
}

fn list_part(key: &str, items: &[String]) -> (r: Vec<Vec<char>>)
    ensures
        char_views(r@) == opt_part(items@.len() > 0, member_text(key@, string_list_text(views(items@)))),
{
    let mut parts: Vec<Vec<char>> = Vec::new();
    if items.len() > 0 {
        let l = string_list_chars(items);
        parts.push(member_chars(key, l.as_slice()));
    }
    assert(char_views(parts@) =~= opt_part(items@.len() > 0, member_text(key@, string_list_text(views(items@)))));
    parts
}

fn text_part(key: &str, value: &Option<String>) -> (r: Vec<Vec<char>>)
    ensures
        char_views(r@) == opt_part(opt_view(*value) is Some, member_text(key@, quoted(opt_view(*value)->0))),
{
    let mut parts: Vec<Vec<char>> = Vec::new();
    if let Some(v) = value {
        let q = quoted_chars(v.as_str());
        parts.push(member_chars(key, q.as_slice()));
    }
    assert(char_views(parts@) =~= opt_part(opt_view(*value) is Some, member_text(key@, quoted(opt_view(*value)->0))));
    parts
}

fn number_part(key: &str, value: Option<u64>) -> (r: Vec<Vec<char>>)
    ensures
        char_views(r@) == opt_part(value is Some, member_text(key@, decimal(value->0 as nat))),
{
    let mut parts: Vec<Vec<char>> = Vec::new();
    if let Some(n) = value {
        let d = decimal_chars(n);
        parts.push(member_chars(key, d.as_slice()));
    }
    assert(char_views(parts@) =~= opt_part(value is Some, member_text(key@, decimal(value->0 as nat))));
    parts
}

fn append_parts(parts: &mut Vec<Vec<char>>, more: Vec<Vec<char>>)
    ensures
        char_views(final(parts)@) == char_views(old(parts)@) + char_views(more@),
{
    let mut more = more;
    let ghost m = more@;
    parts.append(&mut more);
    assert(char_views(parts@) =~= char_views(old(parts)@) + char_views(m));
}

fn caveats_chars(c: &Caveats) -> (r: Vec<char>)
    ensures
        r@ == caveats_text(c@),
{
    let mut parts = list_part("action", c.action.as_slice());
    append_parts(&mut parts, text_part("conversation", &c.conversation));
    append_parts(&mut parts, list_part("env", c.env.as_slice()));
    append_parts(&mut parts, text_part("expires_at", &c.expires_at));
    append_parts(&mut parts, number_part("max_output_bytes", c.max_output_bytes));
    append_parts(&mut parts, number_part("max_runtime_s", c.max_runtime_s));
    append_parts(&mut parts, list_part("tool", c.tool.as_slice()));
    assert(char_views(parts@) =~= caveats_members(c@));
    object_chars(&parts)
}

impl Block {
    /// Canonical bytes the signature covers: the block with `sig` removed.
    pub fn signing_bytes(&self) -> (r: Vec<u8>)
        ensures
            r@ == block_signing_bytes(self@),
    {
        let cav = caveats_chars(&self.caveats);
        let mut parts: Vec<Vec<char>> = Vec::new();
        parts.push(member_chars("caveats", cav.as_slice()));
        let h = quoted_chars(self.holder.as_str());
        parts.push(member_chars("holder", h.as_slice()));
        let i = quoted_chars(self.issuer.as_str());
        parts.push(member_chars("issuer", i.as_slice()));
        let text = object_chars(&parts);
        proof {
            assert(char_views(parts@) =~= seq![
                member_text("caveats"@, caveats_text(self.caveats@)),
                member_text("holder"@, quoted(self.holder@)),
                member_text("issuer"@, quoted(self.issuer@)),
            ]);
        }
        utf8_bytes(text.as_slice())
    }
}

/// A dimension narrowed by one more block's list: an empty list leaves it
/// as it was; otherwise the listed items, within what was already allowed.
pub open spec fn narrowed(acc: Option<Set<Seq<char>>>, next: Seq<Seq<char>>) -> Option<Set<Seq<char>>> {
    if next.len() == 0 {
        acc
    } else {
        match acc {
            None => Some(next.to_set()),
            Some(cur) => Some(cur.intersect(next.to_set())),
        }
    }
}

/// The set a resolved dimension holds; `None` is unconstrained.
pub open spec fn set_view(v: Option<Vec<String>>) -> Option<Set<Seq<char>>> {
    match v {
        Some(x) => Some(views(x@).to_set()),
        None => None,
    }
}

pub open spec fn sorted_opt(v: Option<Vec<String>>) -> bool {
    match v {
        Some(x) => sorted_strict(views(x@)),
        None => true,
    }
}

/// Narrows one resolved dimension by a block's list, keeping it sorted.
pub fn intersect(acc: Option<Vec<String>>, next: &[String]) -> (r: Option<Vec<String>>)
    requires
        sorted_opt(acc),
    ensures
        sorted_opt(r),
        set_view(r) == narrowed(set_view(acc), views(next@)),
{
    if next.len() == 0 {
        return acc;
    }
    match acc {
        None => Some(sorted_set_of(next)),
        Some(current) => {
            let ghost cur = views(current@);
            let ghost nx = views(next@);
            let mut out: Vec<String> = Vec::new();
            let mut i: usize = 0;
            while i < current.len()
                invariant
                    i <= current@.len(),
                    cur == views(current@),
                    nx == views(next@),
                    sorted_strict(cur),
                    sorted_strict(views(out@)),
                    forall|j: int, m: int| 0 <= j < out@.len() && i <= m < cur.len() ==> seq_less(
                        #[trigger] views(out@)[j], #[trigger] cur[m]),
                    forall|y: Seq<char>| #[trigger] views(out@).contains(y) <==> (cur.take(i as int).contains(y)
                        && nx.contains(y)),
                decreases current@.len() - i,
            {
                let ghost before = views(out@);
                proof {
                    assert(cur.take(i + 1) =~= cur.take(i as int).push(cur[i as int]));
                    assert(cur[i as int] == current@[i as int]@);
                }
                if contains_str(next, current[i].as_str()) {
                    let ghost old_out = out@;
                    out.push(current[i].clone());
                    proof {
                        lemma_views_push(old_out, current@[i as int]);
                        assert(views(out@) == before.push(cur[i as int]));
                        assert forall|j: int, m: int| 0 <= j < out@.len() && i + 1 <= m < cur.len() implies seq_less(
                            #[trigger] views(out@)[j], #[trigger] cur[m]) by {
                            if j < before.len() {
                                assert(views(out@)[j] == before[j]);
                            } else {
                                assert(views(out@)[j] == cur[i as int]);
                            }
                        }
                        assert forall|y: Seq<char>| #[trigger] views(out@).contains(y) <==> (cur.take(i + 1).contains(y)
                            && nx.contains(y)) by {
                            vstd::seq_lib::lemma_seq_contains_after_push(before, cur[i as int], y);
                            vstd::seq_lib::lemma_seq_contains_after_push(cur.take(i as int), cur[i as int], y);
                            assert(before.contains(y) <==> (cur.take(i as int).contains(y) && nx.contains(y)));
                        }
                    }
                } else {
                    proof {
                        assert forall|y: Seq<char>| #[trigger] views(out@).contains(y) <==> (cur.take(i + 1).contains(y)
                            && nx.contains(y)) by {
                            vstd::seq_lib::lemma_seq_contains_after_push(cur.take(i as int), cur[i as int], y);
                            assert(before.contains(y) <==> (cur.take(i as int).contains(y) && nx.contains(y)));
                        }
                    }
                }
                i = i + 1;
            }
            proof {
                assert(cur.take(cur.len() as int) =~= cur);
                assert(views(out@).to_set() =~= cur.to_set().intersect(nx.to_set()));
            }
            Some(out)
        },
    }
}

/// Authority after intersecting blocks. `None` on a dimension means
/// unconstrained there; an empty set allows nothing.
pub struct Authority {
    pub action: Option<Set<Seq<char>>>,
    pub tool: Option<Set<Seq<char>>>,
    pub env: Option<Set<Seq<char>>>,
    pub conversation: Option<Seq<char>>,
    /// Two blocks pinned different conversations: authority is void.
    pub conversation_impossible: bool,
    pub max_runtime_s: Option<u64>,
    pub max_output_bytes: Option<u64>,
    pub expires_at: Option<(i64, u32)>,
}

/// A limit lowered by one more block: the smaller of the two when both exist.
pub open spec fn opt_min(acc: Option<u64>, next: Option<u64>) -> Option<u64> {
    match next {
        None => acc,
        Some(l) => Some(
            match acc {
                None => l,
                Some(c) => if c <= l { c } else { l },
            },
        ),
    }
}

/// The pinned conversation after one more block, and whether two blocks
/// pinned different ones.
pub open spec fn narrowed_conversation(acc: (Option<Seq<char>>, bool), next: Option<Seq<char>>) -> (Option<Seq<char>>, bool) {
    match next {
        None => acc,
        Some(c) => match acc.0 {
            Some(e) => if e != c { (acc.0, true) } else { (Some(c), acc.1) },
            None => (Some(c), acc.1),
        },
    }
}

/// The expiry after one more block: the earlier of the two.
pub open spec fn narrowed_expiry(acc: Option<(i64, u32)>, next: Option<Seq<char>>) -> Option<(i64, u32)> {
    match next {
        None => acc,
        Some(raw) => match rfc3339_instant(raw) {
            None => acc,
            Some(t) => Some(
                match acc {
                    None => t,
                    Some(c) => instant_min(c, t),
                },
            ),
        },
    }
}

pub open spec fn unconstrained_authority() -> Authority {
    Authority {
        action: None,
        tool: None,
        env: None,
        conversation: None,
        conversation_impossible: false,
        max_runtime_s: None,
        max_output_bytes: None,
        expires_at: None,
    }
}

/// Authority narrowed by one block's caveats.
pub open spec fn add_block(a: Authority, c: CaveatsView) -> Authority {
    let conv = narrowed_conversation((a.conversation, a.conversation_impossible), c.conversation);
    Authority {
        action: narrowed(a.action, c.action),
        tool: narrowed(a.tool, c.tool),
        env: narrowed(a.env, c.env),
        conversation: conv.0,
        conversation_impossible: conv.1,
        max_runtime_s: opt_min(a.max_runtime_s, c.max_runtime_s),
        max_output_bytes: opt_min(a.max_output_bytes, c.max_output_bytes),
        expires_at: narrowed_expiry(a.expires_at, c.expires_at),
    }
}

/// The effective authority of a chain of blocks.
pub open spec fn authority_of(blocks: Seq<BlockView>) -> Authority
    decreases blocks.len(),
{
    if blocks.len() == 0 {
        unconstrained_authority()
    } else {
        add_block(authority_of(blocks.drop_last()), blocks.last().caveats)
    }
}

/// The first expiry text that is not RFC 3339, if any.
pub open spec fn expiry_error(blocks: Seq<BlockView>) -> Option<Seq<char>>
    decreases blocks.len(),
{
    if blocks.len() == 0 {
        None
    } else {
        match expiry_error(blocks.drop_last()) {
            Some(x) => Some(x),
            None => match blocks.last().caveats.expires_at {
                Some(raw) => if rfc3339_instant(raw) is None { Some(raw) } else { None },
                None => None,
            },
        }
    }
}

pub open spec fn invalid_expiry_message(raw: Seq<char>) -> Seq<char> {
    "invalid expires_at "@ + debug_quoted(raw)
}

proof fn lemma_expiry_error_prefix(blocks: Seq<BlockView>, n: int)
    requires
        0 <= n <= blocks.len(),
        expiry_error(blocks.take(n)) is Some,
    ensures
        expiry_error(blocks) == expiry_error(blocks.take(n)),
    decreases blocks.len(),
{
    if n == blocks.len() {
        assert(blocks.take(n) =~= blocks);
    } else {
        assert(blocks.drop_last().take(n) =~= blocks.take(n));
        lemma_expiry_error_prefix(blocks.drop_last(), n);
    }
}

/// Resolved authority of a token.
pub struct Effective {
    pub action: Option<Vec<String>>,
    pub tool: Option<Vec<String>>,
    pub env: Option<Vec<String>>,
    pub conversation: Option<String>,
    pub conversation_impossible: bool,
    pub max_runtime_s: Option<u64>,
    pub max_output_bytes: Option<u64>,
    /// Earliest expiry: seconds since the epoch and the nanosecond part.
    pub expires_at: Option<(i64, u32)>,
}

impl View for Effective {
    type V = Authority;

    open spec fn view(&self) -> Authority {
        Authority {
            action: set_view(self.action),
            tool: set_view(self.tool),
            env: set_view(self.env),
            conversation: opt_view(self.conversation),
            conversation_impossible: self.conversation_impossible,
            max_runtime_s: self.max_runtime_s,
            max_output_bytes: self.max_output_bytes,
            expires_at: self.expires_at,
        }
    }
}

/// The resolved sets are kept as strictly sorted lists.
pub open spec fn effective_sorted(e: Effective) -> bool {
    sorted_opt(e.action) && sorted_opt(e.tool) && sorted_opt(e.env)
}

fn lower_limit(acc: Option<u64>, next: Option<u64>) -> (r: Option<u64>)
    ensures
        r == opt_min(acc, next),
{
    match next {
        None => acc,
        Some(l) => Some(
            match acc {
                None => l,
                Some(c) => if c <= l { c } else { l },
            },
        ),
    }
}

fn clone_opt(o: &Option<String>) -> (r: Option<String>)
    ensures
        opt_view(r) == opt_view(*o),
{
    match o {
        Some(s) => Some(s.clone()),
        None => None,
    }
}

proof fn lemma_take_last(blocks: Seq<BlockView>, i: int)
    requires
        0 <= i < blocks.len(),
    ensures
        blocks.take(i + 1).drop_last() == blocks.take(i),
        blocks.take(i + 1).last() == blocks[i],
{
    assert(blocks.take(i + 1).drop_last() =~= blocks.take(i));
}

/// Compute effective authority by intersecting every block. A malformed
/// expiry is an error, never silently ignored.
pub fn effective(token: &Token) -> (r: Result<Effective, RaftError>)
    ensures
        match r {
            Ok(e) => expiry_error(token@.blocks) is None && e@ == authority_of(token@.blocks)
                && effective_sorted(e),
            Err(err) => expiry_error(token@.blocks) matches Some(raw) && err.code == ErrorCode::Parse
                && err.message@ == invalid_expiry_message(raw),
        },
{
    let ghost bv = token@.blocks;
    let mut action: Option<Vec<String>> = None;
    let mut tool: Option<Vec<String>> = None;
    let mut env: Option<Vec<String>> = None;
    let mut conversation: Option<String> = None;
    let mut conversation_impossible = false;
    let mut max_runtime_s: Option<u64> = None;
    let mut max_output_bytes: Option<u64> = None;
    let mut expires_at: Option<(i64, u32)> = None;
    let mut i: usize = 0;
    while i < token.blocks.len()
        invariant
            bv == token@.blocks,
            i <= bv.len(),
            expiry_error(bv.take(i as int)) is None,
            sorted_opt(action),
            sorted_opt(tool),
            sorted_opt(env),
            set_view(action) == authority_of(bv.take(i as int)).action,
            set_view(tool) == authority_of(bv.take(i as int)).tool,
            set_view(env) == authority_of(bv.take(i as int)).env,
            opt_view(conversation) == authority_of(bv.take(i as int)).conversation,
            conversation_impossible == authority_of(bv.take(i as int)).conversation_impossible,
            max_runtime_s == authority_of(bv.take(i as int)).max_runtime_s,
            max_output_bytes == authority_of(bv.take(i as int)).max_output_bytes,
            expires_at == authority_of(bv.take(i as int)).expires_at,
        decreases bv.len() - i,
    {
        proof {
            lemma_take_last(bv, i as int);
            assert(bv[i as int] == token.blocks@[i as int]@);
        }
        let c = &token.blocks[i].caveats;
        action = intersect(action, c.action.as_slice());
        tool = intersect(tool, c.tool.as_slice());
        env = intersect(env, c.env.as_slice());
        if let Some(conv) = &c.conversation {
            let keep = match &conversation {
                Some(existing) => !str_eq(existing.as_str(), conv.as_str()),
                None => false,
            };
            if keep {
                conversation_impossible = true;
            } else {
                conversation = Some(conv.clone());
            }
        }
        max_runtime_s = lower_limit(max_runtime_s, c.max_runtime_s);
        max_output_bytes = lower_limit(max_output_bytes, c.max_output_bytes);
        if let Some(raw) = &c.expires_at {
            match parse_time(raw.as_str()) {
                None => {
                    proof {
                        lemma_expiry_error_prefix(bv, i + 1);
                    }
                    let q = debug_str(raw.as_str());
                    let mut m = String::from_str("invalid expires_at ");
                    m.append(q.as_str());
                    return Err(RaftError::coded(ErrorCode::Parse, m));
                },
                Some(t) => {
                    expires_at = Some(
                        match expires_at {
                            None => t,
                            Some(cur) => if instant_before(t, cur) { t } else { cur },
                        },
                    );
                },
            }
        }
        i = i + 1;
    }
    proof {
        assert(bv.take(bv.len() as int) =~= bv);
    }
    Ok(Effective {
        action,
        tool,
        env,
        conversation,
        conversation_impossible,
        max_runtime_s,
        max_output_bytes,
        expires_at,
    })
}

/// A concrete action to authorize against a token.
pub struct AuthRequest {
    pub action: String,
    pub conversation: Option<String>,
    pub tool: Option<String>,
    pub env: Option<String>,
    /// The current instant: seconds since the epoch and nanoseconds.
    pub now: (i64, u32),
    pub requested_runtime_s: Option<u64>,
    pub requested_output_bytes: Option<u64>,
}

/// A request as values.
pub struct RequestView {
    pub action: Seq<char>,
    pub conversation: Option<Seq<char>>,
    pub tool: Option<Seq<char>>,
    pub env: Option<Seq<char>>,
    pub now: (i64, u32),
    pub requested_runtime_s: Option<u64>,
    pub requested_output_bytes: Option<u64>,
}

impl View for AuthRequest {
    type V = RequestView;

    open spec fn view(&self) -> RequestView {
        RequestView {
            action: self.action@,
            conversation: opt_view(self.conversation),
            tool: opt_view(self.tool),
            env: opt_view(self.env),
            now: self.now,
            requested_runtime_s: self.requested_runtime_s,
            requested_output_bytes: self.requested_output_bytes,
        }
    }
}

/// Whether a constrained dimension admits the requested value; an
/// unconstrained one admits anything, a constrained one denies an omitted value.
pub open spec fn admits(set: Option<Set<Seq<char>>>, value: Option<Seq<char>>) -> bool {
    match set {
        None => true,
        Some(s) => value is Some && s.contains(value->0),
    }
}

pub open spec fn within_limit(limit: Option<u64>, want: Option<u64>) -> bool {
    match (limit, want) {
        (Some(l), Some(w)) => w <= l,
        _ => true,
    }
}

/// Why a request is refused, checked in order; `None` when it is allowed.
pub open spec fn denial(a: Authority, r: RequestView) -> Option<Seq<char>> {
    if !(a.action is Some && a.action->0.contains(r.action)) {
        Some("capability does not authorize action "@ + debug_quoted(r.action))
    } else if a.conversation_impossible {
        Some("capability pins contradictory conversations"@)
    } else if a.conversation is Some && r.conversation != a.conversation {
        Some("capability is scoped to conversation "@ + debug_quoted(a.conversation->0))
    } else if !admits(a.tool, r.tool) {
        Some("capability does not authorize this tool"@)
    } else if !admits(a.env, r.env) {
        Some("capability does not authorize this environment"@)
    } else if a.expires_at is Some && instant_lt(a.expires_at->0, r.now) {
        Some("capability has expired"@)
    } else if !within_limit(a.max_runtime_s, r.requested_runtime_s) {
        Some("requested runtime exceeds the capability limit"@)
    } else if !within_limit(a.max_output_bytes, r.requested_output_bytes) {
        Some("requested output size exceeds the capability limit"@)
    } else {
        None
    }
}

fn set_admits(set: &Option<Vec<String>>, value: &Option<String>) -> (r: bool)
    ensures
        r == admits(set_view(*set), opt_view(*value)),
{
    match set {
        None => true,
        Some(items) => match value {
            Some(v) => contains_str(items.as_slice(), v.as_str()),
            None => false,
        },
    }
}

fn not_authorized(message: &str) -> (r: RaftError)
    ensures
        r.code == ErrorCode::NotAuthorized,
        r.message@ == message@,
{
    RaftError::coded(ErrorCode::NotAuthorized, String::from_str(message))
}

/// Check a request against already-resolved authority. Fail-closed: an
/// unconstrained action set authorizes nothing, and a constrained dimension
/// the request omits is denied.
pub fn check(effective: &Effective, request: &AuthRequest) -> (r: Result<(), RaftError>)
    ensures
        match denial(effective@, request@) {
            None => r is Ok,
            Some(m) => r matches Err(e) && e.code == ErrorCode::NotAuthorized && e.message@ == m,
        },
{
    let allowed = match &effective.action {
        Some(set) => contains_str(set.as_slice(), request.action.as_str()),
        None => false,
    };
    if !allowed {
        let q = debug_str(request.action.as_str());
        let mut m = String::from_str("capability does not authorize action ");
        m.append(q.as_str());
        return Err(RaftError::coded(ErrorCode::NotAuthorized, m));
    }
    if effective.conversation_impossible {
        return Err(not_authorized("capability pins contradictory conversations"));
    }
    if let Some(conversation) = &effective.conversation {
        let matches = match &request.conversation {
            Some(c) => str_eq(c.as_str(), conversation.as_str()),
            None => false,
        };
        if !matches {
            let q = debug_str(conversation.as_str());
            let mut m = String::from_str("capability is scoped to conversation ");
            m.append(q.as_str());
            return Err(RaftError::coded(ErrorCode::NotAuthorized, m));
        }
    }
    if !set_admits(&effective.tool, &request.tool) {
        return Err(not_authorized("capability does not authorize this tool"));
    }
    if !set_admits(&effective.env, &request.env) {
        return Err(not_authorized("capability does not authorize this environment"));
    }
    if let Some(expiry) = effective.expires_at {
        if instant_before(expiry, request.now) {
            return Err(not_authorized("capability has expired"));
        }
    }
    if let (Some(limit), Some(want)) = (effective.max_runtime_s, request.requested_runtime_s) {
        if want > limit {
            return Err(not_authorized("requested runtime exceeds the capability limit"));
        }
    }
    if let (Some(limit), Some(want)) = (effective.max_output_bytes, request.requested_output_bytes) {
        if want > limit {
            return Err(not_authorized("requested output size exceeds the capability limit"));
        }
    }
    Ok(())
}

/// Why a chain fails verification.
pub enum ChainFault {
    NoBlocks,
    RootMismatch,
    NotExpectedRoot,
    Broken,
    Unsigned,
    /// Checking the signature would slice its hex off a character boundary.
    Unsafe,
    BadSignature,
}

/// The fault of block `i` on its own: not issued by the previous holder,
/// unsigned, or not validly signed by its issuer.
pub open spec fn block_fault(blocks: Seq<BlockView>, i: int) -> Option<ChainFault> {
    let b = blocks[i];
    if i > 0 && b.issuer != blocks[i - 1].holder {
        Some(ChainFault::Broken)
    } else if b.sig is None {
        Some(ChainFault::Unsigned)
    } else if !verify_safe(b.issuer, b.sig->0) {
        Some(ChainFault::Unsafe)
    } else if !signature_valid(b.issuer, block_signing_bytes(b), b.sig->0) {
        Some(ChainFault::BadSignature)
    } else {
        None
    }
}

/// The first fault among blocks `i..`.
pub open spec fn fault_from(blocks: Seq<BlockView>, i: int) -> Option<ChainFault>
    decreases blocks.len() - i,
{
    if i < 0 || i >= blocks.len() {
        None
    } else {
        match block_fault(blocks, i) {
            Some(f) => Some(f),
            None => fault_from(blocks, i + 1),
        }
    }
}

pub open spec fn opt_str(o: Option<&str>) -> Option<Seq<char>> {
    match o {
        Some(s) => Some(s@),
        None => None,
    }
}

/// The first reason a token fails verification, in the order checked.
pub open spec fn chain_fault(t: TokenView, expected_root: Option<Seq<char>>) -> Option<ChainFault> {
    if t.blocks.len() == 0 {
        Some(ChainFault::NoBlocks)
    } else if t.blocks[0].issuer != t.root_issuer {
        Some(ChainFault::RootMismatch)
    } else if expected_root is Some && t.root_issuer != expected_root->0 {
        Some(ChainFault::NotExpectedRoot)
    } else {
        fault_from(t.blocks, 0)
    }
}

/// The message of a fault that has a fixed one.
pub open spec fn fault_message(f: ChainFault) -> Seq<char> {
    match f {
        ChainFault::NoBlocks => "capability token has no blocks"@,
        ChainFault::RootMismatch => "first block issuer does not match root_issuer"@,
        ChainFault::NotExpectedRoot => "capability is not rooted at the expected issuer"@,
        ChainFault::Broken => "broken delegation chain: a block is not signed by the previous holder"@,
        ChainFault::Unsigned => "capability block is unsigned"@,
        _ => Seq::empty(),
    }
}

/// The message of the first fault among blocks `i..`: a failed signature
/// check reports why the signature was refused.
pub open spec fn fault_message_from(blocks: Seq<BlockView>, i: int) -> Seq<char>
    decreases blocks.len() - i,
{
    if i < 0 || i >= blocks.len() {
        Seq::empty()
    } else {
        match block_fault(blocks, i) {
            Some(f) => if f == ChainFault::BadSignature {
                verify_error(blocks[i].issuer, blocks[i].sig->0)
            } else {
                fault_message(f)
            },
            None => fault_message_from(blocks, i + 1),
        }
    }
}

/// The message a faulty chain is refused with.
pub open spec fn chain_message(t: TokenView, expected_root: Option<Seq<char>>) -> Seq<char> {
    if t.blocks.len() == 0 || t.blocks[0].issuer != t.root_issuer || (expected_root is Some
        && t.root_issuer != expected_root->0) {
        fault_message(chain_fault(t, expected_root)->0)
    } else {
        fault_message_from(t.blocks, 0)
    }
}

/// Why chain verification refuses a token, if it does: a chain fault, or an
/// expiry that does not parse.
pub open spec fn chain_refusal(t: TokenView, expected_root: Option<Seq<char>>) -> Option<Seq<char>> {
    match chain_fault(t, expected_root) {
        Some(_) => Some(chain_message(t, expected_root)),
        None => match expiry_error(t.blocks) {
            Some(raw) => Some(invalid_expiry_message(raw)),
            None => None,
        },
    }
}

fn chain_error(message: &str) -> (r: RaftError)
    ensures
        r.code == ErrorCode::Error,
        r.message@ == message@,
{
    RaftError::coded(ErrorCode::Error, String::from_str(message))
}

proof fn lemma_fault_from_step(blocks: Seq<BlockView>, i: int)
    requires
        0 <= i < blocks.len(),
        block_fault(blocks, i) is None,
    ensures
        fault_from(blocks, i) == fault_from(blocks, i + 1),
{
}

/// Whether verifying the chain would slice a key or signature text off a
/// character boundary.
pub fn verify_chain_panics(token: &Token, expected_root: Option<&str>) -> (r: bool)
    ensures
        r == (chain_fault(token@, opt_str(expected_root)) == Some(ChainFault::Unsafe)),
{
    let ghost bv = token@.blocks;
    if token.blocks.len() == 0 || !str_eq(token.blocks[0].issuer.as_str(), token.root_issuer.as_str()) {
        return false;
    }
    if let Some(root) = expected_root {
        if !str_eq(token.root_issuer.as_str(), root) {
            return false;
        }
    }
    let mut i: usize = 0;
    while i < token.blocks.len()
        invariant
            bv == token@.blocks,
            i <= bv.len(),
            chain_fault(token@, opt_str(expected_root)) == fault_from(bv, i as int),
        decreases bv.len() - i,
    {
        let block = &token.blocks[i];
        proof {
            assert(bv[i as int] == block@);
            if i > 0 {
                assert(bv[i - 1] == token.blocks@[i - 1]@);
            }
        }
        if i > 0 && !str_eq(block.issuer.as_str(), token.blocks[i - 1].holder.as_str()) {
            return false;
        }
        let sig = match &block.sig {
            Some(s) => s,
            None => {
                return false;
            },
        };
        if verify_would_panic(block.issuer.as_str(), sig.as_str()) {
            return true;
        }
        let bytes = block.signing_bytes();
        if verify(block.issuer.as_str(), bytes.as_slice(), sig.as_str()).is_err() {
            return false;
        }
        proof {
            lemma_fault_from_step(bv, i as int);
        }
        i = i + 1;
    }
    false
}

/// Verify every block's signature and the contiguity of the delegation
/// chain, then resolve the effective authority. Does not check a request.
pub fn verify_chain(token: &Token, expected_root: Option<&str>) -> (r: Result<Effective, RaftError>)
    requires
        chain_fault(token@, opt_str(expected_root)) != Some(ChainFault::Unsafe),
    ensures
        match chain_fault(token@, opt_str(expected_root)) {
            Some(f) => r matches Err(e) && (f != ChainFault::BadSignature ==> e.code == ErrorCode::Error
                && e.message@ == fault_message(f)) && e.message@ == chain_message(
                token@,
                opt_str(expected_root),
            ),
            None => match expiry_error(token@.blocks) {
                Some(raw) => r matches Err(e) && e.code == ErrorCode::Parse && e.message@
                    == invalid_expiry_message(raw),
                None => r matches Ok(e) && e@ == authority_of(token@.blocks) && effective_sorted(e),
            },
        },
{
    let ghost bv = token@.blocks;
    if token.blocks.len() == 0 {
        return Err(chain_error("capability token has no blocks"));
    }
    proof {
        assert(bv[0] == token.blocks@[0]@);
    }
    if !str_eq(token.blocks[0].issuer.as_str(), token.root_issuer.as_str()) {
        return Err(chain_error("first block issuer does not match root_issuer"));
    }
    if let Some(root) = expected_root {
        if !str_eq(token.root_issuer.as_str(), root) {
            return Err(chain_error("capability is not rooted at the expected issuer"));
        }
    }
    let mut i: usize = 0;
    while i < token.blocks.len()
        invariant
            bv == token@.blocks,
            i <= bv.len(),
            chain_fault(token@, opt_str(expected_root)) == fault_from(bv, i as int),
            fault_from(bv, i as int) != Some(ChainFault::Unsafe),
            chain_message(token@, opt_str(expected_root)) == fault_message_from(bv, i as int),
        decreases bv.len() - i,
    {
        let block = &token.blocks[i];
        proof {
            assert(bv[i as int] == block@);
            if i > 0 {
                assert(bv[i - 1] == token.blocks@[i - 1]@);
            }
        }
        if i > 0 && !str_eq(block.issuer.as_str(), token.blocks[i - 1].holder.as_str()) {
            return Err(chain_error("broken delegation chain: a block is not signed by the previous holder"));
        }
        let sig = match &block.sig {
            Some(s) => s,
            None => {
                return Err(chain_error("capability block is unsigned"));
            },
        };
        let bytes = block.signing_bytes();
        match verify(block.issuer.as_str(), bytes.as_slice(), sig.as_str()) {
            Ok(()) => {},
            Err(e) => {
                return Err(e);
            },
        }
        proof {
            lemma_fault_from_step(bv, i as int);
        }
        i = i + 1;
    }
    effective(token)
}

/// Whether a token authorizes a request: it verifies (rooted at
/// `expected_root` when given), its expiries parse, and the effective
/// authority admits the request.
pub open spec fn authorized(t: TokenView, expected_root: Option<Seq<char>>, r: RequestView) -> bool {
    &&& chain_fault(t, expected_root) is None
    &&& expiry_error(t.blocks) is None
    &&& denial(authority_of(t.blocks), r) is None
}

/// Full authorization: verify the chain, then check the request.
pub fn authorize(token: &Token, expected_root: Option<&str>, request: &AuthRequest) -> (r: Result<(), RaftError>)
    requires
        chain_fault(token@, opt_str(expected_root)) != Some(ChainFault::Unsafe),
    ensures
        r is Ok <==> authorized(token@, opt_str(expected_root), request@),
        r matches Err(e) ==> chain_fault(token@, opt_str(expected_root)) is None && expiry_error(
            token@.blocks,
        ) is None ==> e.code == ErrorCode::NotAuthorized && Some(e.message@) == denial(
            authority_of(token@.blocks),
            request@,
        ),
{
    let effective = verify_chain(token, expected_root)?;
    check(&effective, request)
}

fn clone_strings(v: &Vec<String>) -> (r: Vec<String>)
    ensures
        views(r@) == views(v@),
{
    let mut out: Vec<String> = Vec::new();
    let mut i: usize = 0;
    while i < v.len()
        invariant
            i <= v@.len(),
            views(out@) == views(v@).take(i as int),
        decreases v@.len() - i,
    {
        let ghost before = out@;
        out.push(v[i].clone());
        proof {
            lemma_views_push(before, v@[i as int]);
            assert(views(v@).take(i + 1) =~= views(v@).take(i as int).push(v@[i as int]@));
        }
        i = i + 1;
    }
    assert(views(v@).take(v@.len() as int) =~= views(v@));
    out
}

impl Caveats {
    /// A copy with the same contents.
    pub fn duplicate(&self) -> (r: Caveats)
        ensures
            r@ == self@,
    {
        Caveats {
            action: clone_strings(&self.action),
            tool: clone_strings(&self.tool),
            conversation: clone_opt(&self.conversation),
            env: clone_strings(&self.env),
            max_runtime_s: self.max_runtime_s,
            max_output_bytes: self.max_output_bytes,
            expires_at: clone_opt(&self.expires_at),
        }
    }
}

impl Block {
    /// A copy with the same contents.
    pub fn duplicate(&self) -> (r: Block)
        ensures
            r@ == self@,
    {
        Block {
            issuer: self.issuer.clone(),
            holder: self.holder.clone(),
            caveats: self.caveats.duplicate(),
            sig: clone_opt(&self.sig),
        }
    }
}

impl Token {
    /// A copy with the same contents.
    pub fn duplicate(&self) -> (r: Token)
        ensures
            r@ == self@,
    {
        let mut blocks: Vec<Block> = Vec::new();
        let mut i: usize = 0;
        while i < self.blocks.len()
            invariant
                i <= self.blocks@.len(),
                block_views(blocks@) == block_views(self.blocks@).take(i as int),
            decreases self.blocks@.len() - i,
        {
            let b = self.blocks[i].duplicate();
            let ghost before = blocks@;
            blocks.push(b);
            proof {
                assert(block_views(blocks@) =~= block_views(before).push(self.blocks@[i as int]@));
                assert(block_views(self.blocks@).take(i + 1) =~= block_views(self.blocks@).take(i as int).push(
                    self.blocks@[i as int]@,
                ));
            }
            i = i + 1;
        }
        assert(block_views(self.blocks@).take(self.blocks@.len() as int) =~= block_views(self.blocks@));
        Token { v: self.v, root_issuer: self.root_issuer.clone(), blocks }
    }
}

/// The block `issuer` signs, delegating to `holder` under `caveats`.
pub open spec fn signed_block(issuer: Seq<u8>, holder: Seq<char>, caveats: CaveatsView) -> BlockView {
    let unsigned = BlockView {
        issuer: pubkey_text(ed25519_public(issuer)),
        holder,
        caveats,
        sig: None,
    };
    BlockView {
        sig: Some(crate::hex::hex_of(crate::crypto::ed25519_signature(issuer, block_signing_bytes(unsigned)))),
        ..unsigned
    }
}

fn sign_block(key: &Keypair, holder: &str, caveats: Caveats) -> (r: Block)
    ensures
        r@ == signed_block(key@, holder@, caveats@),
        verify_safe(r@.issuer, r@.sig->0),
        signature_valid(r@.issuer, block_signing_bytes(r@), r@.sig->0),
{
    let mut block = Block {
        issuer: key.public_hex(),
        holder: String::from_str(holder),
        caveats,
        sig: None,
    };
    let bytes = block.signing_bytes();
    let sig = key.sign(bytes.as_slice());
    block.sig = Some(sig);
    block
}

/// Issue a fresh root token from `issuer` to `holder` with `caveats`. The
/// token verifies, rooted at the issuer's key.
pub fn issue_root(issuer: &Keypair, holder: &str, caveats: Caveats) -> (r: Token)
    ensures
        r.v == 1,
        r@.root_issuer == pubkey_text(ed25519_public(issuer@)),
        r@.blocks == seq![signed_block(issuer@, holder@, caveats@)],
        chain_fault(r@, None) is None,
        chain_fault(r@, Some(pubkey_text(ed25519_public(issuer@)))) is None,
{
    let block = sign_block(issuer, holder, caveats);
    let root = issuer.public_hex();
    let t = Token { v: schema_v1(), root_issuer: root, blocks: vec![block] };
    proof {
        assert(t@.blocks =~= seq![block@]);
        assert(block_fault(t@.blocks, 0) is None);
        assert(fault_from(t@.blocks, 1) is None);
    }
    t
}

proof fn lemma_block_fault_push(blocks: Seq<BlockView>, b: BlockView, i: int)
    requires
        0 <= i < blocks.len(),
    ensures
        block_fault(blocks.push(b), i) == block_fault(blocks, i),
{
    assert(blocks.push(b)[i] == blocks[i]);
    if i > 0 {
        assert(blocks.push(b)[i - 1] == blocks[i - 1]);
    }
}

proof fn lemma_fault_from_push(blocks: Seq<BlockView>, b: BlockView, i: int)
    requires
        0 <= i <= blocks.len(),
        fault_from(blocks, i) is None,
        block_fault(blocks.push(b), blocks.len() as int) is None,
    ensures
        fault_from(blocks.push(b), i) is None,
    decreases blocks.len() - i,
{
    let nb = blocks.push(b);
    if i == blocks.len() {
        assert(fault_from(nb, i + 1) is None);
    } else {
        lemma_block_fault_push(blocks, b, i);
        lemma_fault_from_push(blocks, b, i + 1);
    }
}

/// Append an attenuation block signed by the current holder. Refused when
/// the token has no blocks or `holder_key` is not its current holder. A token
/// that verified still verifies after attenuation.
pub fn attenuate(token: &Token, holder_key: &Keypair, new_holder: &str, caveats: Caveats) -> (r: Result<Token, RaftError>)
    ensures
        match r {
            Ok(t) => token@.blocks.len() > 0 && token@.blocks.last().holder == pubkey_text(
                ed25519_public(holder_key@),
            ) && t@ == TokenView {
                blocks: token@.blocks.push(signed_block(holder_key@, new_holder@, caveats@)),
                ..token@
            } && forall|e: Option<Seq<char>>| chain_fault(token@, e) is None ==> #[trigger] chain_fault(t@, e) is None,
            Err(e) => e.code == ErrorCode::Error && if token@.blocks.len() == 0 {
                e.message@ == "capability token has no blocks"@
            } else {
                token@.blocks.last().holder != pubkey_text(ed25519_public(holder_key@))
                    && e.message@ == "only the current holder of a capability may attenuate it"@
            },
        },
{
    let n = token.blocks.len();
    if n == 0 {
        return Err(chain_error("capability token has no blocks"));
    }
    let me = holder_key.public_hex();
    proof {
        assert(token@.blocks.last() == token.blocks@[n - 1]@);
    }
    if !str_eq(token.blocks[n - 1].holder.as_str(), me.as_str()) {
        return Err(chain_error("only the current holder of a capability may attenuate it"));
    }
    let block = sign_block(holder_key, new_holder, caveats);
    let mut t = token.duplicate();
    let ghost before = t@;
    t.blocks.push(block);
    proof {
        assert(block_views(t.blocks@) =~= before.blocks.push(block@));
        let bv = token@.blocks;
        let nb = bv.push(block@);
        assert(nb[n as int] == block@);
        assert(nb[n - 1] == bv[n - 1]);
        assert(block_fault(nb, n as int) is None);
        assert forall|e: Option<Seq<char>>| chain_fault(token@, e) is None implies #[trigger] chain_fault(t@, e) is None by {
            assert(nb[0] == bv[0]);
            lemma_fault_from_push(bv, block@, 0);
        }
    }
    Ok(t)
}

pub open spec fn set_narrower(s2: Option<Set<Seq<char>>>, s1: Option<Set<Seq<char>>>) -> bool {
    match s1 {
        None => true,
        Some(x1) => match s2 {
            Some(x2) => x2.subset_of(x1),
            None => false,
        },
    }
}

pub open spec fn limit_narrower(l2: Option<u64>, l1: Option<u64>) -> bool {
    match l1 {
        None => true,
        Some(x1) => match l2 {
            Some(x2) => x2 <= x1,
            None => false,
        },
    }
}

pub open spec fn expiry_narrower(e2: Option<(i64, u32)>, e1: Option<(i64, u32)>) -> bool {
    match e1 {
        None => true,
        Some(t1) => match e2 {
            Some(t2) => !instant_lt(t1, t2),
            None => false,
        },
    }
}

/// `a2` allows no more than `a1` on every dimension: subsets of its sets, its
/// pinned conversation kept, limits and expiry no later or larger.
pub open spec fn narrower(a2: Authority, a1: Authority) -> bool {
    &&& set_narrower(a2.action, a1.action)
    &&& set_narrower(a2.tool, a1.tool)
    &&& set_narrower(a2.env, a1.env)
    &&& a1.conversation_impossible ==> a2.conversation_impossible
    &&& a1.conversation is Some ==> a2.conversation == a1.conversation
    &&& limit_narrower(a2.max_runtime_s, a1.max_runtime_s)
    &&& limit_narrower(a2.max_output_bytes, a1.max_output_bytes)
    &&& expiry_narrower(a2.expires_at, a1.expires_at)
}

/// Fail-closed on `action`: a token whose effective action set is
/// unconstrained authorizes nothing.
pub proof fn lemma_unconstrained_action_authorizes_nothing(
    t: TokenView,
    expected_root: Option<Seq<char>>,
    r: RequestView,
)
    requires
        authority_of(t.blocks).action is None,
    ensures
        !authorized(t, expected_root, r),
{
}

/// Attenuation can only narrow: appending a block (whose expiry parses)
/// yields authority narrower than before on every dimension.
pub proof fn lemma_attenuation_narrows(blocks: Seq<BlockView>, b: BlockView)
    requires
        expiry_error(blocks.push(b)) is None,
    ensures
        narrower(authority_of(blocks.push(b)), authority_of(blocks)),
{
    let nb = blocks.push(b);
    assert(nb.drop_last() =~= blocks);
    let a1 = authority_of(blocks);
    let a2 = authority_of(nb);
    assert(a2 == add_block(a1, b.caveats));
    if b.caveats.expires_at is Some {
        assert(rfc3339_instant(b.caveats.expires_at->0) is Some);
    }
    assert(set_narrower(a2.action, a1.action));
    assert(set_narrower(a2.tool, a1.tool));
    assert(set_narrower(a2.env, a1.env));
}

/// Narrower authority admits no request that the wider one refuses, as long
/// as the wider one constrains `action` (an unconstrained action set admits
/// nothing at all).
pub proof fn lemma_narrower_admits_less(a1: Authority, a2: Authority, r: RequestView)
    requires
        narrower(a2, a1),
        a1.action is Some,
        denial(a2, r) is None,
    ensures
        denial(a1, r) is None,
{
    assert(a2.action->0.contains(r.action));
    if let Some(x1) = a1.tool {
        assert(r.tool is Some && a2.tool->0.contains(r.tool->0));
    }
    if let Some(x1) = a1.env {
        assert(r.env is Some && a2.env->0.contains(r.env->0));
    }
}

proof fn lemma_fault_from_prefix(blocks: Seq<BlockView>, b: BlockView, i: int)
    requires
        0 <= i <= blocks.len(),
        fault_from(blocks.push(b), i) is None,
    ensures
        fault_from(blocks, i) is None,
    decreases blocks.len() - i,
{
    if i < blocks.len() {
        lemma_block_fault_push(blocks, b, i);
        lemma_fault_from_prefix(blocks, b, i + 1);
    }
}

/// A request authorized by an attenuated token is authorized by the token it
/// was derived from, provided the original constrains `action`.
pub proof fn lemma_attenuated_authorization_implies_original(
    t: TokenView,
    b: BlockView,
    expected_root: Option<Seq<char>>,
    r: RequestView,
)
    requires
        authorized(TokenView { blocks: t.blocks.push(b), ..t }, expected_root, r),
        authority_of(t.blocks).action is Some,
    ensures
        authorized(t, expected_root, r),
{
    let nb = t.blocks.push(b);
    assert(nb.drop_last() =~= t.blocks);
    assert(t.blocks.len() > 0);
    assert(nb[0] == t.blocks[0]);
    lemma_fault_from_prefix(t.blocks, b, 0);
    assert(expiry_error(t.blocks) is None);
    lemma_attenuation_narrows(t.blocks, b);
    lemma_narrower_admits_less(authority_of(t.blocks), authority_of(nb), r);
}

/// A resolved set as JSON: its sorted strings, or `null` when unconstrained.
pub open spec fn set_json(o: Option<Vec<String>>) -> Seq<char> {
    match o {
        Some(v) => string_list_text(views(v@)),
        None => "null"@,
    }
}

pub open spec fn opt_text_json(o: Option<Seq<char>>) -> Seq<char> {
    match o {
        Some(s) => quoted(s),
        None => "null"@,
    }
}

pub open spec fn opt_number_json(o: Option<u64>) -> Seq<char> {
    match o {
        Some(n) => decimal(n as nat),
        None => "null"@,
    }
}

/// Resolved authority as JSON, keys in order: sets as sorted arrays, `null`
/// where a dimension is unconstrained, the expiry to the second in UTC.
pub open spec fn effective_json(e: Effective) -> Seq<char> {
    object_text(
        seq![
            member_text("action"@, set_json(e.action)),
            member_text("conversation"@, opt_text_json(opt_view(e.conversation))),
            member_text("conversation_impossible"@, if e.conversation_impossible { "true"@ } else { "false"@ }),
            member_text("env"@, set_json(e.env)),
            member_text("expires_at"@, match e.expires_at {
                Some(t) => opt_text_json(utc_seconds_text(t)),
                None => "null"@,
            }),
            member_text("max_output_bytes"@, opt_number_json(e.max_output_bytes)),
            member_text("max_runtime_s"@, opt_number_json(e.max_runtime_s)),
            member_text("tool"@, set_json(e.tool)),
        ],
    )
}

fn null_chars() -> (r: Vec<char>)
    ensures
        r@ == "null"@,
{
    let r = vec!['n', 'u', 'l', 'l'];
    proof {
        reveal_strlit("null");
        assert(r@ =~= "null"@);
    }
    r
}

fn set_chars(o: &Option<Vec<String>>) -> (r: Vec<char>)
    ensures
        r@ == set_json(*o),
{
    match o {
        Some(v) => string_list_chars(v.as_slice()),
        None => null_chars(),
    }
}

fn opt_text_chars(o: &Option<String>) -> (r: Vec<char>)
    ensures
        r@ == opt_text_json(opt_view(*o)),
{
    match o {
        Some(s) => quoted_chars(s.as_str()),
        None => null_chars(),
    }
}

fn opt_number_chars(o: Option<u64>) -> (r: Vec<char>)
    ensures
        r@ == opt_number_json(o),
{
    match o {
        Some(n) => decimal_chars(n),
        None => null_chars(),
    }
}

/// The JSON text of resolved authority, as `grant inspect` shows it.
pub fn effective_to_json(e: &Effective) -> (r: String)
    ensures
        r@ == effective_json(*e),
{
    let mut parts: Vec<Vec<char>> = Vec::new();
    let a = set_chars(&e.action);
    parts.push(member_chars("action", a.as_slice()));
    let c = opt_text_chars(&e.conversation);
    parts.push(member_chars("conversation", c.as_slice()));
    let ci = if e.conversation_impossible {
        let t = vec!['t', 'r', 'u', 'e'];
        proof {
            reveal_strlit("true");
            assert(t@ =~= "true"@);
        }
        t
    } else {
        let f = vec!['f', 'a', 'l', 's', 'e'];
        proof {
            reveal_strlit("false");
            assert(f@ =~= "false"@);
        }
        f
    };
    parts.push(member_chars("conversation_impossible", ci.as_slice()));
    let en = set_chars(&e.env);
    parts.push(member_chars("env", en.as_slice()));
    let ex = match e.expires_at {
        Some(t) => opt_text_chars(&utc_seconds(t)),
        None => null_chars(),
    };
    parts.push(member_chars("expires_at", ex.as_slice()));
    let mo = opt_number_chars(e.max_output_bytes);
    parts.push(member_chars("max_output_bytes", mo.as_slice()));
    let mr = opt_number_chars(e.max_runtime_s);
    parts.push(member_chars("max_runtime_s", mr.as_slice()));
    let tl = set_chars(&e.tool);
    parts.push(member_chars("tool", tl.as_slice()));
    let text = object_chars(&parts);
    proof {
        assert(char_views(parts@) =~= seq![
            member_text("action"@, set_json(e.action)),
            member_text("conversation"@, opt_text_json(opt_view(e.conversation))),
            member_text("conversation_impossible"@, if e.conversation_impossible { "true"@ } else { "false"@ }),
            member_text("env"@, set_json(e.env)),
            member_text("expires_at"@, match e.expires_at {
                Some(t) => opt_text_json(utc_seconds_text(t)),
                None => "null"@,
            }),
            member_text("max_output_bytes"@, opt_number_json(e.max_output_bytes)),
            member_text("max_runtime_s"@, opt_number_json(e.max_runtime_s)),
            member_text("tool"@, set_json(e.tool)),
        ]);
    }
    crate::text::string_of(text.as_slice())
}

} // verus!
