//! The doctor's checks on messages and receipts.

use vstd::prelude::*;
use crate::audit::{
    author_key, author_key_findings, doctor_agent_pubkey, doctor_check_signed_record,
    loaded_key_panics, signature_check_panics, signed_record_findings,
};
use crate::bus::{expected_receipts, receipt_recipients};
use crate::capability::{opt_view, chain_fault, chain_refusal, opt_str, verify_chain, ChainFault, Token};
use crate::doctor::{
    doctor_check_schema, doctor_check_time, error_at, found_if, json_stem, stem_differs, stem_mismatch, occurs_before, parsed,
    read_findings, schema_findings, time_findings, warning_at, DoctorReport, Finding, IssueLevel, Loaded,
};
use crate::hex::{byte_len, byte_len_of};
use crate::json::JsonValue;
use crate::lists::{contains_str, views};
use crate::records::{Agent, Message, Meta, Receipt, ReceiptEvent};
use crate::time::is_rfc3339;
use crate::text::{
    chars_of, debug_quoted, debug_str, decimal, decimal_chars, decimal_chars_wide, str_eq, string_of,
    trim, trim_chars,
};
use crate::util::{id_valid, invalid_id_message, subject_id_error, subject_id_valid, validate_id, validate_subject_id};

verus! {

broadcast use vstd::std_specs::vec::group_vec_axioms, vstd::seq::group_seq_axioms;

fn appended(s: String, t: &str) -> (r: String)
    ensures
        r@ == s@ + t@,
{
    let mut s = s;
    s.append(t);
    s
}

fn appended_chars(s: String, t: &Vec<char>) -> (r: String)
    ensures
        r@ == s@ + t@,
{
    let mut s = s;
    s.append(string_of(t.as_slice()).as_str());
    s
}

/// The kinds a stored message may have.
pub open spec fn is_message_kind(k: Seq<char>) -> bool {
    k == "message"@ || k == "event"@ || k == "receipt"@ || k == "system"@ || k == "task"@ || k
        == "summary"@
}

/// The findings on a message's schema, file name and id.
pub open spec fn message_name_findings(path: Seq<char>, name: Seq<char>, m: Message) -> Seq<Finding> {
    schema_findings(path, m.v, "message"@) + found_if(
        stem_mismatch(name, m.id@),
        error_at(
            "message_id_mismatch"@,
            path,
            "file name is "@ + debug_quoted(json_stem(name)) + " but payload id is "@ + debug_quoted(m.id@),
        ),
    ) + found_if(
        !id_valid(m.id@),
        error_at("invalid_message_id"@, path, invalid_id_message("message id"@, m.id@)),
    )
}

/// The findings on a message's sender and conversation ids.
pub open spec fn message_link_findings(path: Seq<char>, meta: Meta, m: Message) -> Seq<Finding> {
    found_if(
        !id_valid(m.from@),
        error_at("invalid_sender_id"@, path, invalid_id_message("sender"@, m.from@)),
    ) + found_if(
        !id_valid(m.conversation_id@),
        error_at(
            "invalid_message_conversation_id"@,
            path,
            invalid_id_message("conversation id"@, m.conversation_id@),
        ),
    ) + found_if(
        m.conversation_id@ != meta.id@,
        error_at(
            "message_conversation_mismatch"@,
            path,
            "message belongs to "@ + debug_quoted(m.conversation_id@) + ", expected "@ + debug_quoted(meta.id@),
        ),
    )
}

/// The findings on a message's own ids: schema, file name, id grammar, and
/// that it belongs to the conversation it is stored in.
pub open spec fn message_id_findings(path: Seq<char>, name: Seq<char>, meta: Meta, m: Message) -> Seq<Finding> {
    message_name_findings(path, name, m) + message_link_findings(path, meta, m)
}

/// The findings on a message's kind and sender: system messages come from
/// `raft`, every other message from a participant.
pub open spec fn message_kind_findings(path: Seq<char>, meta: Meta, m: Message) -> Seq<Finding> {
    found_if(
        !is_message_kind(m.kind@),
        error_at("invalid_message_kind"@, path, "unsupported kind "@ + debug_quoted(m.kind@)),
    ) + if m.kind@ == "system"@ {
        found_if(
            m.from@ != "raft"@,
            error_at("forged_system_message"@, path, "system messages must be from raft"@),
        )
    } else {
        found_if(
            !views(meta.participants@).contains(m.from@),
            error_at("sender_not_participant"@, path, "sender @"@ + m.from@ + " is not a participant"@),
        )
    }
}

fn check_message_name(report: &mut DoctorReport, path: &str, name: &str, m: &Message)
    ensures
        final(report).log() == old(report).log() + message_name_findings(path@, name@, *m),
        final(report).same_but_log(old(report)),
{
    let ghost l0 = report.log();
    doctor_check_schema(report, path, m.v, "message");
    let ghost l1 = report.log();
    if let Some(stem) = stem_differs(name, m.id.as_str()) {
        let mut t = String::from_str("file name is ");
        t.append(debug_str(stem.as_str()).as_str());
        t.append(" but payload id is ");
        t.append(debug_str(m.id.as_str()).as_str());
        report.error(path, "message_id_mismatch", t);
    }
    let ghost l2 = report.log();
    if let Err(e) = validate_id(m.id.as_str(), "message id") {
        report.error(path, "invalid_message_id", e.message);
    }
    proof {
        let mm = *m;
        let w1 = found_if(
            stem_mismatch(name@, mm.id@),
            error_at(
                "message_id_mismatch"@,
                path@,
                "file name is "@ + debug_quoted(json_stem(name@)) + " but payload id is "@ + debug_quoted(mm.id@),
            ),
        );
        let w2 = found_if(!id_valid(mm.id@), error_at("invalid_message_id"@, path@, invalid_id_message("message id"@, mm.id@)));
        assert(l2 =~= l1 + w1);
        assert(final(report).log() =~= l2 + w2);
        assert(final(report).log() =~= l0 + (schema_findings(path@, mm.v, "message"@) + w1 + w2));
    }
}

fn check_message_link(report: &mut DoctorReport, path: &str, meta: &Meta, m: &Message)
    ensures
        final(report).log() == old(report).log() + message_link_findings(path@, *meta, *m),
        final(report).same_but_log(old(report)),
{
    let ghost l0 = report.log();
    if let Err(e) = validate_id(m.from.as_str(), "sender") {
        report.error(path, "invalid_sender_id", e.message);
    }
    let ghost l1 = report.log();
    if let Err(e) = validate_id(m.conversation_id.as_str(), "conversation id") {
        report.error(path, "invalid_message_conversation_id", e.message);
    }
    let ghost l2 = report.log();
    if !str_eq(m.conversation_id.as_str(), meta.id.as_str()) {
        let mut t = String::from_str("message belongs to ");
        t.append(debug_str(m.conversation_id.as_str()).as_str());
        t.append(", expected ");
        t.append(debug_str(meta.id.as_str()).as_str());
        report.error(path, "message_conversation_mismatch", t);
    }
    proof {
        let mm = *m;
        let w3 = found_if(!id_valid(mm.from@), error_at("invalid_sender_id"@, path@, invalid_id_message("sender"@, mm.from@)));
        let w4 = found_if(
            !id_valid(mm.conversation_id@),
            error_at(
                "invalid_message_conversation_id"@,
                path@,
                invalid_id_message("conversation id"@, mm.conversation_id@),
            ),
        );
        assert(l1 =~= l0 + w3);
        assert(l2 =~= l1 + w4);
        assert(final(report).log() =~= old(report).log() + message_link_findings(path@, *meta, mm));
    }
}

fn check_message_ids(report: &mut DoctorReport, path: &str, name: &str, meta: &Meta, m: &Message)
    ensures
        final(report).log() == old(report).log() + message_id_findings(path@, name@, *meta, *m),
        final(report).same_but_log(old(report)),
{
    check_message_name(report, path, name, m);
    check_message_link(report, path, meta, m);
    assert(final(report).log() =~= old(report).log() + message_id_findings(path@, name@, *meta, *m));
}

fn check_message_kind(report: &mut DoctorReport, path: &str, meta: &Meta, m: &Message)
    ensures
        final(report).log() == old(report).log() + message_kind_findings(path@, *meta, *m),
        final(report).same_but_log(old(report)),
{
    let ghost l0 = report.log();
    let k = m.kind.as_str();
    if !(str_eq(k, "message") || str_eq(k, "event") || str_eq(k, "receipt") || str_eq(k, "system")
        || str_eq(k, "task") || str_eq(k, "summary")) {
        let mut t = String::from_str("unsupported kind ");
        t.append(debug_str(k).as_str());
        report.error(path, "invalid_message_kind", t);
    }
    let ghost l1 = report.log();
    if str_eq(k, "system") {
        if !str_eq(m.from.as_str(), "raft") {
            report.error(path, "forged_system_message", String::from_str("system messages must be from raft"));
        }
    } else if !contains_str(meta.participants.as_slice(), m.from.as_str()) {
        let mut t = String::from_str("sender @");
        t.append(m.from.as_str());
        t.append(" is not a participant");
        report.error(path, "sender_not_participant", t);
    }
    proof {
        let w0 = found_if(
            !is_message_kind((*m).kind@),
            error_at("invalid_message_kind"@, path@, "unsupported kind "@ + debug_quoted((*m).kind@)),
        );
        assert(l1 =~= l0 + w0);
        assert(final(report).log() =~= old(report).log() + message_kind_findings(path@, *meta, *m));
    }
}

/// The findings on recipient `j`: listed twice, a bad id, or not a
/// participant (`*` is neither of the last two).
pub open spec fn recipient_findings(path: Seq<char>, to: Seq<Seq<char>>, participants: Seq<Seq<char>>, j: int) -> Seq<Finding> {
    let r = to[j];
    found_if(
        to.take(j).contains(r),
        error_at("duplicate_recipient"@, path, "recipient @"@ + r + " is listed more than once"@),
    ) + found_if(
        r != "*"@ && !id_valid(r),
        error_at("invalid_recipient_id"@, path, invalid_id_message("recipient"@, r)),
    ) + found_if(
        r != "*"@ && !participants.contains(r),
        error_at("recipient_not_participant"@, path, "recipient @"@ + r + " is not a participant"@),
    )
}

pub open spec fn recipients_findings(path: Seq<char>, to: Seq<Seq<char>>, participants: Seq<Seq<char>>, n: int) -> Seq<Finding>
    decreases n,
{
    if n <= 0 {
        Seq::empty()
    } else {
        recipients_findings(path, to, participants, n - 1) + recipient_findings(path, to, participants, n - 1)
    }
}

/// The findings on mention `j`: listed twice, a bad id, or (a warning) not a
/// participant.
pub open spec fn mention_findings(path: Seq<char>, ms: Seq<Seq<char>>, participants: Seq<Seq<char>>, j: int) -> Seq<Finding> {
    let x = ms[j];
    found_if(
        ms.take(j).contains(x),
        error_at("duplicate_mention"@, path, "mention @"@ + x + " is listed more than once"@),
    ) + found_if(!id_valid(x), error_at("invalid_mention_id"@, path, invalid_id_message("mention"@, x)))
        + found_if(
        !participants.contains(x),
        warning_at("mention_not_participant"@, path, "mention @"@ + x + " is not a participant"@),
    )
}

pub open spec fn mentions_findings(path: Seq<char>, ms: Seq<Seq<char>>, participants: Seq<Seq<char>>, n: int) -> Seq<Finding>
    decreases n,
{
    if n <= 0 {
        Seq::empty()
    } else {
        mentions_findings(path, ms, participants, n - 1) + mention_findings(path, ms, participants, n - 1)
    }
}

/// The findings on awaited agent `j`: a bad id, listed twice, or not a
/// participant.
pub open spec fn awaited_findings(path: Seq<char>, ws: Seq<Seq<char>>, participants: Seq<Seq<char>>, j: int) -> Seq<Finding> {
    let x = ws[j];
    found_if(!id_valid(x), error_at("invalid_awaited_id"@, path, invalid_id_message("awaited agent"@, x)))
        + found_if(
        ws.take(j).contains(x),
        error_at("duplicate_awaited_agent"@, path, "awaited agent @"@ + x + " is listed more than once"@),
    ) + found_if(
        !participants.contains(x),
        error_at("awaited_not_participant"@, path, "awaited agent @"@ + x + " is not a participant"@),
    )
}

pub open spec fn awaiteds_findings(path: Seq<char>, ws: Seq<Seq<char>>, participants: Seq<Seq<char>>, n: int) -> Seq<Finding>
    decreases n,
{
    if n <= 0 {
        Seq::empty()
    } else {
        awaiteds_findings(path, ws, participants, n - 1) + awaited_findings(path, ws, participants, n - 1)
    }
}

fn check_recipient(report: &mut DoctorReport, path: &str, to: &Vec<String>, participants: &Vec<String>, j: usize)
    requires
        j < to@.len(),
    ensures
        final(report).log() == old(report).log() + recipient_findings(
            path@,
            views(to@),
            views(participants@),
            j as int,
        ),
        final(report).same_but_log(old(report)),
{
    let r = to[j].as_str();
    let ghost l0 = report.log();
    if occurs_before(to.as_slice(), j, r) {
        let mut t = String::from_str("recipient @");
        t.append(r);
        t.append(" is listed more than once");
        report.error(path, "duplicate_recipient", t);
    }
    let ghost l1 = report.log();
    let star = str_eq(r, "*");
    if !star {
        if let Err(e) = validate_id(r, "recipient") {
            report.error(path, "invalid_recipient_id", e.message);
        }
    }
    let ghost l2 = report.log();
    if !star && !contains_str(participants.as_slice(), r) {
        let mut t = String::from_str("recipient @");
        t.append(r);
        t.append(" is not a participant");
        report.error(path, "recipient_not_participant", t);
    }
    proof {
        let x = views(to@)[j as int];
        assert(x == r@);
        let w0 = found_if(
            views(to@).take(j as int).contains(x),
            error_at("duplicate_recipient"@, path@, "recipient @"@ + x + " is listed more than once"@),
        );
        let w1 = found_if(
            x != "*"@ && !id_valid(x),
            error_at("invalid_recipient_id"@, path@, invalid_id_message("recipient"@, x)),
        );
        assert(l1 =~= l0 + w0);
        assert(l2 =~= l1 + w1);
        assert(final(report).log() =~= old(report).log() + recipient_findings(
            path@,
            views(to@),
            views(participants@),
            j as int,
        ));
    }
}

fn check_mention(report: &mut DoctorReport, path: &str, ms: &Vec<String>, participants: &Vec<String>, j: usize)
    requires
        j < ms@.len(),
    ensures
        final(report).log() == old(report).log() + mention_findings(
            path@,
            views(ms@),
            views(participants@),
            j as int,
        ),
        final(report).same_but_log(old(report)),
{
    let x = ms[j].as_str();
    let ghost l0 = report.log();
    if occurs_before(ms.as_slice(), j, x) {
        let mut t = String::from_str("mention @");
        t.append(x);
        t.append(" is listed more than once");
        report.error(path, "duplicate_mention", t);
    }
    let ghost l1 = report.log();
    if let Err(e) = validate_id(x, "mention") {
        report.error(path, "invalid_mention_id", e.message);
    }
    let ghost l2 = report.log();
    if !contains_str(participants.as_slice(), x) {
        let mut t = String::from_str("mention @");
        t.append(x);
        t.append(" is not a participant");
        report.warn(path, "mention_not_participant", t);
    }
    proof {
        let xv = views(ms@)[j as int];
        assert(xv == x@);
        let w0 = found_if(
            views(ms@).take(j as int).contains(xv),
            error_at("duplicate_mention"@, path@, "mention @"@ + xv + " is listed more than once"@),
        );
        let w1 = found_if(!id_valid(xv), error_at("invalid_mention_id"@, path@, invalid_id_message("mention"@, xv)));
        assert(l1 =~= l0 + w0);
        assert(l2 =~= l1 + w1);
        assert(final(report).log() =~= old(report).log() + mention_findings(
            path@,
            views(ms@),
            views(participants@),
            j as int,
        ));
    }
}

fn check_awaited(report: &mut DoctorReport, path: &str, ws: &Vec<String>, participants: &Vec<String>, j: usize)
    requires
        j < ws@.len(),
    ensures
        final(report).log() == old(report).log() + awaited_findings(
            path@,
            views(ws@),
            views(participants@),
            j as int,
        ),
        final(report).same_but_log(old(report)),
{
    let x = ws[j].as_str();
    let ghost l0 = report.log();
    if let Err(e) = validate_id(x, "awaited agent") {
        report.error(path, "invalid_awaited_id", e.message);
    }
    let ghost l1 = report.log();
    if occurs_before(ws.as_slice(), j, x) {
        let mut t = String::from_str("awaited agent @");
        t.append(x);
        t.append(" is listed more than once");
        report.error(path, "duplicate_awaited_agent", t);
    }
    let ghost l2 = report.log();
    if !contains_str(participants.as_slice(), x) {
        let mut t = String::from_str("awaited agent @");
        t.append(x);
        t.append(" is not a participant");
        report.error(path, "awaited_not_participant", t);
    }
    proof {
        let xv = views(ws@)[j as int];
        assert(xv == x@);
        let w0 = found_if(!id_valid(xv), error_at("invalid_awaited_id"@, path@, invalid_id_message("awaited agent"@, xv)));
        let w1 = found_if(
            views(ws@).take(j as int).contains(xv),
            error_at("duplicate_awaited_agent"@, path@, "awaited agent @"@ + xv + " is listed more than once"@),
        );
        assert(l1 =~= l0 + w0);
        assert(l2 =~= l1 + w1);
        assert(final(report).log() =~= old(report).log() + awaited_findings(
            path@,
            views(ws@),
            views(participants@),
            j as int,
        ));
    }
}

/// The findings on a message's recipients, mentions and awaited agents.
pub open spec fn message_lists_findings(path: Seq<char>, meta: Meta, m: Message) -> Seq<Finding> {
    let ps = views(meta.participants@);
    recipients_findings(path, views(m.to@), ps, m.to@.len() as int) + mentions_findings(
        path,
        views(m.mentions@),
        ps,
        m.mentions@.len() as int,
    ) + awaiteds_findings(path, views(m.needs_response_from@), ps, m.needs_response_from@.len() as int)
}

fn check_message_lists(report: &mut DoctorReport, path: &str, meta: &Meta, m: &Message)
    ensures
        final(report).log() == old(report).log() + message_lists_findings(path@, *meta, *m),
        final(report).same_but_log(old(report)),
{
    let ghost l0 = report.log();
    let ghost ps = views(meta.participants@);
    let mut j: usize = 0;
    while j < m.to.len()
        invariant
            j <= m.to@.len(),
            report.log() == l0 + recipients_findings(path@, views(m.to@), ps, j as int),
            report.same_but_log(old(report)),
            ps == views(meta.participants@),
        decreases m.to@.len() - j,
    {
        check_recipient(report, path, &m.to, &meta.participants, j);
        assert(report.log() =~= l0 + recipients_findings(path@, views(m.to@), ps, j + 1));
        j = j + 1;
    }
    let ghost l1 = report.log();
    let mut j: usize = 0;
    while j < m.mentions.len()
        invariant
            j <= m.mentions@.len(),
            report.log() == l1 + mentions_findings(path@, views(m.mentions@), ps, j as int),
            report.same_but_log(old(report)),
            ps == views(meta.participants@),
        decreases m.mentions@.len() - j,
    {
        check_mention(report, path, &m.mentions, &meta.participants, j);
        assert(report.log() =~= l1 + mentions_findings(path@, views(m.mentions@), ps, j + 1));
        j = j + 1;
    }
    let ghost l2 = report.log();
    let mut j: usize = 0;
    while j < m.needs_response_from.len()
        invariant
            j <= m.needs_response_from@.len(),
            report.log() == l2 + awaiteds_findings(path@, views(m.needs_response_from@), ps, j as int),
            report.same_but_log(old(report)),
            ps == views(meta.participants@),
        decreases m.needs_response_from@.len() - j,
    {
        check_awaited(report, path, &m.needs_response_from, &meta.participants, j);
        assert(report.log() =~= l2 + awaiteds_findings(path@, views(m.needs_response_from@), ps, j + 1));
        j = j + 1;
    }
    assert(report.log() =~= l0 + message_lists_findings(path@, *meta, *m));
}

/// The findings on a message's subject id and reply link.
pub open spec fn message_refs_findings(path: Seq<char>, m: Message) -> Seq<Finding> {
    (match m.subject_id {
        Some(s) => found_if(
            !subject_id_valid(s@),
            error_at("invalid_subject_id"@, path, "message subject_id is invalid: "@ + subject_id_error(s@)),
        ),
        None => Seq::empty(),
    }) + (match m.after {
        Some(a) => found_if(
            !id_valid(a@),
            error_at("invalid_after_id"@, path, invalid_id_message("after message id"@, a@)),
        ),
        None => Seq::empty(),
    })
}

/// The findings on a message's ask flags, and on the size of a summary
/// (`summary_limit` bytes at most).
pub open spec fn message_flags_findings(path: Seq<char>, meta: Meta, m: Message, summary_limit: usize) -> Seq<Finding> {
    found_if(
        m.requires_ack && expected_receipts(m, meta).len() == 0,
        warning_at(
            "ack_without_recipients"@,
            path,
            "message requires ack but has no recipient other than sender"@,
        ),
    ) + found_if(
        !(m.kind@ == "message"@ || m.kind@ == "task"@) && (m.requires_ack || m.needs_response_from@.len() > 0),
        error_at(
            "non_obligation_kind_has_ask"@,
            path,
            "kind "@ + debug_quoted(m.kind@) + " must not carry requires_ack or needs_response_from"@,
        ),
    ) + found_if(
        m.kind@ == "summary"@ && byte_len(m.body@) > summary_limit,
        error_at(
            "summary_too_large"@,
            path,
            "summary is "@ + decimal(byte_len(m.body@)) + " bytes; limit is "@ + decimal(summary_limit as nat),
        ),
    )
}

/// The findings on a message's subject id, reply link, time and ask flags,
/// and on the size of a summary.
pub open spec fn message_misc_findings(path: Seq<char>, meta: Meta, m: Message, summary_limit: usize) -> Seq<Finding> {
    message_refs_findings(path, m) + time_findings(path, "created_at"@, m.created_at@)
        + message_flags_findings(path, meta, m, summary_limit)
}

fn check_message_refs(report: &mut DoctorReport, path: &str, m: &Message)
    ensures
        final(report).log() == old(report).log() + message_refs_findings(path@, *m),
        final(report).same_but_log(old(report)),
{
    let ghost l0 = report.log();
    if let Some(s) = &m.subject_id {
        if let Err(e) = validate_subject_id(s.as_str()) {
            let mut t = String::from_str("message subject_id is invalid: ");
            t.append(e.message.as_str());
            report.error(path, "invalid_subject_id", t);
        }
    }
    let ghost l1 = report.log();
    if let Some(a) = &m.after {
        if let Err(e) = validate_id(a.as_str(), "after message id") {
            report.error(path, "invalid_after_id", e.message);
        }
    }
    assert(final(report).log() =~= old(report).log() + message_refs_findings(path@, *m));
}

fn check_message_flags(report: &mut DoctorReport, path: &str, meta: &Meta, m: &Message, summary_limit: usize)
    ensures
        final(report).log() == old(report).log() + message_flags_findings(path@, *meta, *m, summary_limit),
        final(report).same_but_log(old(report)),
{
    let ghost l0 = report.log();
    if m.requires_ack && receipt_recipients(m, meta).len() == 0 {
        report.warn(
            path,
            "ack_without_recipients",
            String::from_str("message requires ack but has no recipient other than sender"),
        );
    }
    let ghost l1 = report.log();
    let k = m.kind.as_str();
    if !(str_eq(k, "message") || str_eq(k, "task")) && (m.requires_ack || m.needs_response_from.len() > 0) {
        let mut t = String::from_str("kind ");
        t.append(debug_str(k).as_str());
        t.append(" must not carry requires_ack or needs_response_from");
        report.error(path, "non_obligation_kind_has_ask", t);
    }
    let ghost l2 = report.log();
    if str_eq(k, "summary") {
        let n = byte_len_of(chars_of(m.body.as_str()).as_slice());
        if n > summary_limit as u128 {
            let mut t = String::from_str("summary is ");
            t = appended_chars(t, &decimal_chars_wide(n));
            t.append(" bytes; limit is ");
            t = appended_chars(t, &decimal_chars(summary_limit as u64));
            report.error(path, "summary_too_large", t);
        }
    }
    proof {
        let mm = *m;
        let w0 = found_if(
            mm.requires_ack && expected_receipts(mm, *meta).len() == 0,
            warning_at(
                "ack_without_recipients"@,
                path@,
                "message requires ack but has no recipient other than sender"@,
            ),
        );
        let w1 = found_if(
            !(mm.kind@ == "message"@ || mm.kind@ == "task"@) && (mm.requires_ack || mm.needs_response_from@.len() > 0),
            error_at(
                "non_obligation_kind_has_ask"@,
                path@,
                "kind "@ + debug_quoted(mm.kind@) + " must not carry requires_ack or needs_response_from"@,
            ),
        );
        assert(l1 =~= l0 + w0);
        assert(l2 =~= l1 + w1);
    }
    assert(final(report).log() =~= old(report).log() + message_flags_findings(path@, *meta, *m, summary_limit));
}

fn check_message_misc(report: &mut DoctorReport, path: &str, meta: &Meta, m: &Message, summary_limit: usize)
    ensures
        final(report).log() == old(report).log() + message_misc_findings(path@, *meta, *m, summary_limit),
        final(report).same_but_log(old(report)),
{
    check_message_refs(report, path, m);
    doctor_check_time(report, path, "created_at", m.created_at.as_str());
    check_message_flags(report, path, meta, m, summary_limit);
    assert(final(report).log() =~= old(report).log() + message_misc_findings(path@, *meta, *m, summary_limit));
}

/// What looking up a task worker's passport gave: its public key, no
/// passport, or the error text of a passport that could not be read.
pub open spec fn worker_lookup_findings(path: Seq<char>, worker: Seq<char>, lookup: Result<Option<String>, String>) -> Seq<Finding> {
    match lookup {
        Ok(Some(_)) => Seq::empty(),
        Ok(None) => seq![
            error_at("task_worker_identity_missing"@, path, "task worker @"@ + worker + " has no passport"@),
        ],
        Err(e) => seq![
            error_at(
                "task_worker_identity_invalid"@,
                path,
                "task worker @"@ + worker + " passport is invalid: "@ + e@,
            ),
        ],
    }
}

/// The worker's passport key, when the task names workers and the first
/// one's passport was found.
pub open spec fn worker_key(m: Message, lookup: Result<Option<String>, String>) -> Option<Seq<char>> {
    if m.needs_response_from@.len() > 0 {
        match lookup {
            Ok(Some(pk)) => Some(pk@),
            _ => None,
        }
    } else {
        None
    }
}

/// The findings on a task's body: it must parse, and an embedded capability
/// must verify and be held by the worker's key.
pub open spec fn task_body_findings(path: Seq<char>, key: Option<Seq<char>>, body: Result<Option<Token>, String>) -> Seq<Finding> {
    match body {
        Ok(Some(t)) => (match chain_refusal(t@, None) {
            Some(why) => seq![
                error_at("invalid_task_capability"@, path, "task capability chain is invalid: "@ + why),
            ],
            None => Seq::empty(),
        }) + match key {
            Some(pk) => found_if(
                !(t@.blocks.len() > 0 && t@.blocks.last().holder == pk),
                error_at(
                    "task_capability_holder_mismatch"@,
                    path,
                    "task capability holder does not match the awaited worker"@,
                ),
            ),
            None => Seq::empty(),
        },
        Ok(None) => Seq::empty(),
        Err(e) => seq![
            error_at(
                "invalid_task_body"@,
                path,
                "task body is not valid Hermes JSON: invalid task body: "@ + e@,
            ),
        ],
    }
}

/// The findings on a task: no `requires_ack`, exactly one awaited worker who
/// is also an explicit recipient and has a passport, and a valid body.
pub open spec fn task_findings(
    path: Seq<char>,
    m: Message,
    lookup: Result<Option<String>, String>,
    body: Result<Option<Token>, String>,
) -> Seq<Finding> {
    let ws = views(m.needs_response_from@);
    if m.kind@ != "task"@ {
        Seq::empty()
    } else {
        found_if(m.requires_ack, error_at("task_requires_ack"@, path, "task messages must not use requires_ack"@))
            + (if ws.len() != 1 {
            seq![
                error_at(
                    "invalid_task_worker_count"@,
                    path,
                    "task messages must name exactly one awaited worker, found "@ + decimal(ws.len()),
                ),
            ]
        } else {
            found_if(
                !views(m.to@).contains(ws[0]),
                error_at(
                    "task_worker_not_recipient"@,
                    path,
                    "task worker @"@ + ws[0] + " is not an explicit recipient"@,
                ),
            )
        }) + (if ws.len() > 0 {
            worker_lookup_findings(path, ws[0], lookup)
        } else {
            Seq::empty()
        }) + task_body_findings(path, worker_key(m, lookup), body)
    }
}

/// Whether checking a task body's capability would panic.
pub open spec fn task_body_panics(body: Result<Option<Token>, String>) -> bool {
    body matches Ok(Some(t)) && chain_fault(t@, None) == Some(ChainFault::Unsafe)
}

fn check_task_workers(report: &mut DoctorReport, path: &str, m: &Message, lookup: &Result<Option<String>, String>)
    requires
        m.kind@ == "task"@,
    ensures
        final(report).log() == old(report).log() + found_if(
            m.requires_ack,
            error_at("task_requires_ack"@, path@, "task messages must not use requires_ack"@),
        ) + (if m.needs_response_from@.len() != 1 {
            seq![
                error_at(
                    "invalid_task_worker_count"@,
                    path@,
                    "task messages must name exactly one awaited worker, found "@ + decimal(
                        m.needs_response_from@.len(),
                    ),
                ),
            ]
        } else {
            found_if(
                !views(m.to@).contains(views(m.needs_response_from@)[0]),
                error_at(
                    "task_worker_not_recipient"@,
                    path@,
                    "task worker @"@ + views(m.needs_response_from@)[0] + " is not an explicit recipient"@,
                ),
            )
        }) + (if m.needs_response_from@.len() > 0 {
            worker_lookup_findings(path@, views(m.needs_response_from@)[0], *lookup)
        } else {
            Seq::empty()
        }),
        final(report).same_but_log(old(report)),
{
    let ghost l0 = report.log();
    if m.requires_ack {
        report.error(path, "task_requires_ack", String::from_str("task messages must not use requires_ack"));
    }
    let ghost l1 = report.log();
    let n = m.needs_response_from.len();
    if n != 1 {
        let t = appended_chars(
            String::from_str("task messages must name exactly one awaited worker, found "),
            &decimal_chars(n as u64),
        );
        report.error(path, "invalid_task_worker_count", t);
    } else if !contains_str(m.to.as_slice(), m.needs_response_from[0].as_str()) {
        let mut t = String::from_str("task worker @");
        t.append(m.needs_response_from[0].as_str());
        t.append(" is not an explicit recipient");
        report.error(path, "task_worker_not_recipient", t);
    }
    let ghost l2 = report.log();
    if n > 0 {
        let w = m.needs_response_from[0].as_str();
        match lookup {
            Ok(Some(_)) => {},
            Ok(None) => {
                let mut t = String::from_str("task worker @");
                t.append(w);
                t.append(" has no passport");
                report.error(path, "task_worker_identity_missing", t);
            },
            Err(e) => {
                let mut t = String::from_str("task worker @");
                t.append(w);
                t.append(" passport is invalid: ");
                t.append(e.as_str());
                report.error(path, "task_worker_identity_invalid", t);
            },
        }
    }
    proof {
        let mm = *m;
        let w0 = found_if(mm.requires_ack, error_at("task_requires_ack"@, path@, "task messages must not use requires_ack"@));
        assert(l1 =~= l0 + w0);
        if n > 0 {
            assert(views(mm.needs_response_from@)[0] == mm.needs_response_from@[0]@);
        }
        assert(final(report).log() =~= l2 + (if mm.needs_response_from@.len() > 0 {
            worker_lookup_findings(path@, views(mm.needs_response_from@)[0], *lookup)
        } else {
            Seq::empty()
        }));
    }
}

fn check_task_body(report: &mut DoctorReport, path: &str, key: Option<&str>, body: &Result<Option<Token>, String>)
    requires
        !task_body_panics(*body),
    ensures
        final(report).log() == old(report).log() + task_body_findings(
            path@,
            match key {
                Some(k) => Some(k@),
                None => None,
            },
            *body,
        ),
        final(report).same_but_log(old(report)),
{
    let ghost l0 = report.log();
    match body {
        Ok(Some(token)) => {
            if let Err(e) = verify_chain(token, None) {
                let mut t = String::from_str("task capability chain is invalid: ");
                t.append(e.message.as_str());
                report.error(path, "invalid_task_capability", t);
            }
            let ghost l1 = report.log();
            if let Some(pk) = key {
                let n = token.blocks.len();
                let holds = n > 0 && str_eq(token.blocks[n - 1].holder.as_str(), pk);
                proof {
                    if n > 0 {
                        assert(token@.blocks.last() == token.blocks@[n - 1]@);
                    }
                }
                if !holds {
                    report.error(
                        path,
                        "task_capability_holder_mismatch",
                        String::from_str("task capability holder does not match the awaited worker"),
                    );
                }
            }
            proof {
                let why = match chain_refusal(token@, None) {
                    Some(why) => seq![
                        error_at("invalid_task_capability"@, path@, "task capability chain is invalid: "@ + why),
                    ],
                    None => Seq::empty(),
                };
                assert(l1 =~= l0 + why);
            }
        },
        Ok(None) => {},
        Err(e) => {
            let mut t = String::from_str("task body is not valid Hermes JSON: invalid task body: ");
            t.append(e.as_str());
            report.error(path, "invalid_task_body", t);
        },
    }
    assert(final(report).log() =~= l0 + task_body_findings(
        path@,
        match key {
            Some(k) => Some(k@),
            None => None,
        },
        *body,
    ));
}

fn check_task(
    report: &mut DoctorReport,
    path: &str,
    m: &Message,
    lookup: &Result<Option<String>, String>,
    body: &Result<Option<Token>, String>,
)
    requires
        m.kind@ == "task"@ ==> !task_body_panics(*body),
    ensures
        final(report).log() == old(report).log() + task_findings(path@, *m, *lookup, *body),
        final(report).same_but_log(old(report)),
{
    if !str_eq(m.kind.as_str(), "task") {
        assert(final(report).log() =~= old(report).log() + task_findings(path@, *m, *lookup, *body));
        return;
    }
    check_task_workers(report, path, m, lookup);
    let key: Option<&str> = if m.needs_response_from.len() > 0 {
        match lookup {
            Ok(Some(pk)) => Some(pk.as_str()),
            _ => None,
        }
    } else {
        None
    };
    assert(match key {
        Some(k) => Some(k@),
        None => None,
    } == worker_key(*m, *lookup));
    check_task_body(report, path, key, body);
    assert(final(report).log() =~= old(report).log() + task_findings(path@, *m, *lookup, *body));
}

/// The findings on a message's signature: for every kind but `system`,
/// reading the author's agent record, its key, and the signature fields.
pub open spec fn message_signature_findings(
    path: Seq<char>,
    m: Message,
    agent_path: Seq<char>,
    author: Loaded<Agent>,
    record: JsonValue,
) -> Seq<Finding> {
    if m.kind@ == "system"@ {
        Seq::empty()
    } else {
        read_findings(agent_path, author) + author_key_findings(path, m.from@, parsed(author))
            + signed_record_findings(path, "message"@, m.from@, author_key(parsed(author)), record)
    }
}

/// The findings on a stored message at `path` (file name `name`) in the
/// conversation `meta`.
pub open spec fn message_findings(
    path: Seq<char>,
    name: Seq<char>,
    meta: Meta,
    m: Message,
    summary_limit: usize,
    lookup: Result<Option<String>, String>,
    body: Result<Option<Token>, String>,
    agent_path: Seq<char>,
    author: Loaded<Agent>,
    record: JsonValue,
) -> Seq<Finding> {
    message_id_findings(path, name, meta, m) + message_kind_findings(path, meta, m)
        + message_lists_findings(path, meta, m) + message_misc_findings(path, meta, m, summary_limit)
        + task_findings(path, m, lookup, body) + message_signature_findings(
        path,
        m,
        agent_path,
        author,
        record,
    )
}

/// The inputs on which checking a message would panic: a task capability
/// whose keys or signatures slice off a character boundary, or such an
/// author key or message signature.
pub open spec fn message_check_panics(m: Message, body: Result<Option<Token>, String>, author: Loaded<Agent>, record: JsonValue) -> bool {
    (m.kind@ == "task"@ && task_body_panics(body)) || (m.kind@ != "system"@ && (loaded_key_panics(author)
        || signature_check_panics(record)))
}

/// Check one stored message. Besides the parsed message, it takes what the
/// scan found for it: `lookup`, the first awaited worker's passport key;
/// `body`, the task body parsed (its capability) or the parser's error text;
/// `author`, the sender's agent record read from `agent_path`; and `record`,
/// the message as a JSON document, signature fields included. A summary may
/// hold `summary_limit` bytes.
#[verifier::spinoff_prover]
#[verifier::rlimit(40)]
pub fn doctor_check_message(
    report: &mut DoctorReport,
    path: &str,
    name: &str,
    meta: &Meta,
    m: &Message,
    summary_limit: usize,
    lookup: &Result<Option<String>, String>,
    body: &Result<Option<Token>, String>,
    agent_path: &str,
    author: &Loaded<Agent>,
    record: &JsonValue,
)
    requires
        !message_check_panics(*m, *body, *author, *record),
    ensures
        final(report).log() == old(report).log() + message_findings(
            path@,
            name@,
            *meta,
            *m,
            summary_limit,
            *lookup,
            *body,
            agent_path@,
            *author,
            *record,
        ),
        final(report).same_but_log(old(report)),
        forall|x: Seq<char>| #[trigger] views(m.needs_response_from@).contains(x) && !views(meta.participants@).contains(
            x,
        ) ==> has_error_code(final(report).log(), "awaited_not_participant"@),
{
    let ghost l0 = report.log();
    let ghost a = message_id_findings(path@, name@, *meta, *m);
    let ghost b = message_kind_findings(path@, *meta, *m);
    let ghost c = message_lists_findings(path@, *meta, *m);
    let ghost d = message_misc_findings(path@, *meta, *m, summary_limit);
    let ghost e = task_findings(path@, *m, *lookup, *body);
    let ghost f = message_signature_findings(path@, *m, agent_path@, *author, *record);
    check_message_ids(report, path, name, meta, m);
    check_message_kind(report, path, meta, m);
    assert(report.log() =~= l0 + (a + b));
    check_message_lists(report, path, meta, m);
    assert(report.log() =~= l0 + (a + b + c));
    check_message_misc(report, path, meta, m, summary_limit);
    assert(report.log() =~= l0 + (a + b + c + d));
    check_task(report, path, m, lookup, body);
    assert(report.log() =~= l0 + (a + b + c + d + e));
    check_message_signature(report, path, m, agent_path, author, record);
    assert(report.log() =~= l0 + (a + b + c + d + e + f));
    proof {
        assert forall|x: Seq<char>| #[trigger] views(m.needs_response_from@).contains(x) && !views(
            meta.participants@,
        ).contains(x) implies has_error_code(report.log(), "awaited_not_participant"@) by {
            lemma_outsider_awaited_reported(path@, name@, *meta, *m, summary_limit, *lookup, *body, agent_path@,
                *author, *record, x);
            lemma_has_concat(l0, a + b + c + d + e + f, "awaited_not_participant"@);
        }
    }
}

fn check_message_signature(report: &mut DoctorReport, path: &str, m: &Message, agent_path: &str, author: &Loaded<Agent>, record: &JsonValue)
    requires
        m.kind@ != "system"@ ==> !loaded_key_panics(*author) && !signature_check_panics(*record),
    ensures
        final(report).log() == old(report).log() + message_signature_findings(path@, *m, agent_path@, *author, *record),
        final(report).same_but_log(old(report)),
{
    let ghost av = *author;
    let ghost l1 = report.log();
    if !str_eq(m.kind.as_str(), "system") {
        let key = doctor_agent_pubkey(report, path, m.from.as_str(), agent_path, author);
        assert(opt_view(key) == author_key(parsed(av)));
        doctor_check_signed_record(report, path, "message", m.from.as_str(), key, record);
    }
    assert(report.log() =~= l1 + message_signature_findings(path@, *m, agent_path@, av, *record));
}

/// The findings on a receipt's schema and ids. `dir_message_id` is the
/// message its directory is named after.
pub open spec fn receipt_ids_findings(path: Seq<char>, meta: Meta, dir_message_id: Seq<char>, r: Receipt) -> Seq<Finding> {
    schema_findings(path, r.v, "receipt"@) + found_if(
        r.message_id@ != dir_message_id,
        error_at(
            "receipt_message_mismatch"@,
            path,
            "receipt is for "@ + debug_quoted(r.message_id@) + ", expected directory message "@ + debug_quoted(
                dir_message_id,
            ),
        ),
    ) + found_if(
        r.conversation_id@ != meta.id@,
        error_at(
            "receipt_conversation_mismatch"@,
            path,
            "receipt belongs to "@ + debug_quoted(r.conversation_id@) + ", expected "@ + debug_quoted(meta.id@),
        ),
    )
}

/// The findings on a receipt's agent and status.
pub open spec fn receipt_agent_findings(path: Seq<char>, name: Seq<char>, meta: Meta, r: Receipt) -> Seq<Finding> {
    found_if(
        stem_mismatch(name, r.agent@),
        error_at(
            "receipt_agent_mismatch"@,
            path,
            "file name is "@ + debug_quoted(json_stem(name)) + " but payload agent is "@ + debug_quoted(r.agent@),
        ),
    ) + found_if(
        !views(meta.participants@).contains(r.agent@),
        warning_at(
            "receipt_agent_not_participant"@,
            path,
            "receipt agent @"@ + r.agent@ + " is not a participant"@,
        ),
    ) + found_if(
        trim(r.status@).len() == 0,
        error_at("empty_receipt_status"@, path, "receipt status is empty"@),
    )
}

/// The findings on a receipt's ids, agent and status.
pub open spec fn receipt_head_findings(path: Seq<char>, name: Seq<char>, meta: Meta, dir_message_id: Seq<char>, r: Receipt) -> Seq<Finding> {
    receipt_ids_findings(path, meta, dir_message_id, r) + receipt_agent_findings(path, name, meta, r)
}

/// The time findings on the first `n` history events.
pub open spec fn history_findings(path: Seq<char>, h: Seq<ReceiptEvent>, n: int) -> Seq<Finding>
    decreases n,
{
    if n <= 0 {
        Seq::empty()
    } else {
        history_findings(path, h, n - 1) + time_findings(path, "history.at"@, h[n - 1].at@)
    }
}

/// The findings on a receipt's times.
pub open spec fn receipt_time_findings(path: Seq<char>, r: Receipt) -> Seq<Finding> {
    time_findings(path, "updated_at"@, r.updated_at@) + (match r.read_at {
        Some(t) => time_findings(path, "read_at"@, t@),
        None => Seq::empty(),
    }) + history_findings(path, r.history@, r.history@.len() as int)
}

/// The findings on a receipt at `path` (file name `name`), in the receipt
/// directory of message `dir_message_id` of conversation `meta`; `author` is
/// the receipt agent's record read from `agent_path` and `record` the
/// receipt as a JSON document.
pub open spec fn receipt_findings(
    path: Seq<char>,
    name: Seq<char>,
    meta: Meta,
    dir_message_id: Seq<char>,
    r: Receipt,
    agent_path: Seq<char>,
    author: Loaded<Agent>,
    record: JsonValue,
) -> Seq<Finding> {
    receipt_head_findings(path, name, meta, dir_message_id, r) + receipt_time_findings(path, r)
        + receipt_signature_findings(path, r, agent_path, author, record)
}

/// The findings on a receipt's signature: reading the agent's record, its
/// key, and the signature fields.
pub open spec fn receipt_signature_findings(path: Seq<char>, r: Receipt, agent_path: Seq<char>, author: Loaded<Agent>, record: JsonValue) -> Seq<Finding> {
    read_findings(agent_path, author) + author_key_findings(path, r.agent@, parsed(author))
        + signed_record_findings(path, "receipt"@, r.agent@, author_key(parsed(author)), record)
}

fn check_receipt_signature(report: &mut DoctorReport, path: &str, r: &Receipt, agent_path: &str, author: &Loaded<Agent>, record: &JsonValue)
    requires
        !loaded_key_panics(*author),
        !signature_check_panics(*record),
    ensures
        final(report).log() == old(report).log() + receipt_signature_findings(path@, *r, agent_path@, *author, *record),
        final(report).same_but_log(old(report)),
{
    let ghost av = *author;
    let ghost l0 = report.log();
    let key = doctor_agent_pubkey(report, path, r.agent.as_str(), agent_path, author);
    assert(opt_view(key) == author_key(parsed(av)));
    doctor_check_signed_record(report, path, "receipt", r.agent.as_str(), key, record);
    assert(report.log() =~= l0 + receipt_signature_findings(path@, *r, agent_path@, av, *record));
}

fn check_receipt_ids(report: &mut DoctorReport, path: &str, name: &str, meta: &Meta, dir_message_id: &str, r: &Receipt)
    ensures
        final(report).log() == old(report).log() + receipt_ids_findings(path@, *meta, dir_message_id@, *r),
        final(report).same_but_log(old(report)),
{
    let ghost l0 = report.log();
    doctor_check_schema(report, path, r.v, "receipt");
    let ghost l1 = report.log();
    if !str_eq(r.message_id.as_str(), dir_message_id) {
        let mut t = String::from_str("receipt is for ");
        t.append(debug_str(r.message_id.as_str()).as_str());
        t.append(", expected directory message ");
        t.append(debug_str(dir_message_id).as_str());
        report.error(path, "receipt_message_mismatch", t);
    }
    let ghost l2 = report.log();
    if !str_eq(r.conversation_id.as_str(), meta.id.as_str()) {
        let mut t = String::from_str("receipt belongs to ");
        t.append(debug_str(r.conversation_id.as_str()).as_str());
        t.append(", expected ");
        t.append(debug_str(meta.id.as_str()).as_str());
        report.error(path, "receipt_conversation_mismatch", t);
    }
    proof {
        let rr = *r;
        let w1 = found_if(
            rr.message_id@ != dir_message_id@,
            error_at(
                "receipt_message_mismatch"@,
                path@,
                "receipt is for "@ + debug_quoted(rr.message_id@) + ", expected directory message "@
                    + debug_quoted(dir_message_id@),
            ),
        );
        let w2 = found_if(
            rr.conversation_id@ != (*meta).id@,
            error_at(
                "receipt_conversation_mismatch"@,
                path@,
                "receipt belongs to "@ + debug_quoted(rr.conversation_id@) + ", expected "@ + debug_quoted((*meta).id@),
            ),
        );
        assert(l2 =~= l1 + w1);
        assert(final(report).log() =~= l2 + w2);
        assert(final(report).log() =~= l0 + receipt_ids_findings(path@, *meta, dir_message_id@, rr));
    }
}

fn check_receipt_agent(report: &mut DoctorReport, path: &str, name: &str, meta: &Meta, r: &Receipt)
    ensures
        final(report).log() == old(report).log() + receipt_agent_findings(path@, name@, *meta, *r),
        final(report).same_but_log(old(report)),
{
    let ghost l0 = report.log();
    if let Some(stem) = stem_differs(name, r.agent.as_str()) {
        let mut t = String::from_str("file name is ");
        t.append(debug_str(stem.as_str()).as_str());
        t.append(" but payload agent is ");
        t.append(debug_str(r.agent.as_str()).as_str());
        report.error(path, "receipt_agent_mismatch", t);
    }
    let ghost l1 = report.log();
    if !contains_str(meta.participants.as_slice(), r.agent.as_str()) {
        let mut t = String::from_str("receipt agent @");
        t.append(r.agent.as_str());
        t.append(" is not a participant");
        report.warn(path, "receipt_agent_not_participant", t);
    }
    let ghost l2 = report.log();
    if trim_chars(chars_of(r.status.as_str()).as_slice()).len() == 0 {
        report.error(path, "empty_receipt_status", String::from_str("receipt status is empty"));
    }
    proof {
        let rr = *r;
        let w0 = found_if(
            stem_mismatch(name@, rr.agent@),
            error_at(
                "receipt_agent_mismatch"@,
                path@,
                "file name is "@ + debug_quoted(json_stem(name@)) + " but payload agent is "@ + debug_quoted(rr.agent@),
            ),
        );
        let w1 = found_if(
            !views((*meta).participants@).contains(rr.agent@),
            warning_at(
                "receipt_agent_not_participant"@,
                path@,
                "receipt agent @"@ + rr.agent@ + " is not a participant"@,
            ),
        );
        assert(l1 =~= l0 + w0);
        assert(l2 =~= l1 + w1);
    }
    assert(final(report).log() =~= old(report).log() + receipt_agent_findings(path@, name@, *meta, *r));
}

fn check_receipt_times(report: &mut DoctorReport, path: &str, r: &Receipt)
    ensures
        final(report).log() == old(report).log() + receipt_time_findings(path@, *r),
        final(report).same_but_log(old(report)),
{
    let ghost l0 = report.log();
    doctor_check_time(report, path, "updated_at", r.updated_at.as_str());
    if let Some(t) = &r.read_at {
        doctor_check_time(report, path, "read_at", t.as_str());
    }
    let ghost l1 = report.log();
    let mut j: usize = 0;
    while j < r.history.len()
        invariant
            j <= r.history@.len(),
            report.log() == l1 + history_findings(path@, r.history@, j as int),
            report.same_but_log(old(report)),
        decreases r.history@.len() - j,
    {
        doctor_check_time(report, path, "history.at", r.history[j].at.as_str());
        assert(report.log() =~= l1 + history_findings(path@, r.history@, j + 1));
        j = j + 1;
    }
    proof {
        let rr = *r;
        let t = match rr.read_at {
            Some(t) => time_findings(path@, "read_at"@, t@),
            None => Seq::empty(),
        };
        assert(l1 =~= l0 + time_findings(path@, "updated_at"@, rr.updated_at@) + t);
        assert(report.log() =~= l0 + receipt_time_findings(path@, rr));
    }
}

/// Check one receipt; see [`receipt_findings`] for what it takes.
pub fn doctor_check_receipt(
    report: &mut DoctorReport,
    path: &str,
    name: &str,
    meta: &Meta,
    dir_message_id: &str,
    r: &Receipt,
    agent_path: &str,
    author: &Loaded<Agent>,
    record: &JsonValue,
)
    requires
        !loaded_key_panics(*author),
        !signature_check_panics(*record),
    ensures
        final(report).log() == old(report).log() + receipt_findings(
            path@,
            name@,
            *meta,
            dir_message_id@,
            *r,
            agent_path@,
            *author,
            *record,
        ),
        final(report).same_but_log(old(report)),
{
    let ghost l0 = report.log();
    let ghost a = receipt_head_findings(path@, name@, *meta, dir_message_id@, *r);
    let ghost b = receipt_time_findings(path@, *r);
    let ghost c = receipt_signature_findings(path@, *r, agent_path@, *author, *record);
    check_receipt_ids(report, path, name, meta, dir_message_id, r);
    check_receipt_agent(report, path, name, meta, r);
    assert(report.log() =~= l0 + a);
    check_receipt_times(report, path, r);
    assert(report.log() =~= l0 + (a + b));
    check_receipt_signature(report, path, r, agent_path, author, record);
    assert(report.log() =~= l0 + (a + b + c));
}

/// The findings on a message's reply link, once every message of the
/// conversation is known: `ids` are the stored message ids, `task_ids` those
/// of tasks, and `result_error` the parser's error text when the body is not
/// a task result.
pub open spec fn reply_findings(
    path: Seq<char>,
    m: Message,
    ids: Seq<Seq<char>>,
    task_ids: Seq<Seq<char>>,
    result_error: Option<String>,
) -> Seq<Finding> {
    match m.after {
        Some(a) => found_if(
            !ids.contains(a@),
            warning_at("dangling_after"@, path, "after points to missing message "@ + debug_quoted(a@)),
        ) + found_if(
            task_ids.contains(a@) && m.kind@ == "message"@ && result_error is Some,
            error_at(
                "invalid_task_result"@,
                path,
                "reply to task "@ + debug_quoted(a@) + " is not a valid task result: "@ + result_error->0@,
            ),
        ),
        None => Seq::empty(),
    }
}

pub fn doctor_check_reply(
    report: &mut DoctorReport,
    path: &str,
    m: &Message,
    ids: &[String],
    task_ids: &[String],
    result_error: &Option<String>,
)
    ensures
        final(report).log() == old(report).log() + reply_findings(
            path@,
            *m,
            views(ids@),
            views(task_ids@),
            *result_error,
        ),
        final(report).same_but_log(old(report)),
{
    let ghost l0 = report.log();
    if let Some(a) = &m.after {
        if !contains_str(ids, a.as_str()) {
            let mut t = String::from_str("after points to missing message ");
            t.append(debug_str(a.as_str()).as_str());
            report.warn(path, "dangling_after", t);
        }
        let ghost l1 = report.log();
        if contains_str(task_ids, a.as_str()) && str_eq(m.kind.as_str(), "message") {
            if let Some(err) = result_error {
                let mut t = String::from_str("reply to task ");
                t.append(debug_str(a.as_str()).as_str());
                t.append(" is not a valid task result: ");
                t.append(err.as_str());
                report.error(path, "invalid_task_result", t);
            }
        }
        proof {
            let w0 = found_if(
                !views(ids@).contains(a@),
                warning_at("dangling_after"@, path@, "after points to missing message "@ + debug_quoted(a@)),
            );
            assert(l1 =~= l0 + w0);
        }
    }
    assert(final(report).log() =~= old(report).log() + reply_findings(
        path@,
        *m,
        views(ids@),
        views(task_ids@),
        *result_error,
    ));
}


/// No finding in `s` carries code `code`.
pub open spec fn lacks_code(s: Seq<Finding>, code: Seq<char>) -> bool {
    forall|i: int| 0 <= i < s.len() ==> #[trigger] s[i].code != code
}

/// Some error in `s` carries code `code`.
pub open spec fn has_error_code(s: Seq<Finding>, code: Seq<char>) -> bool {
    exists|i: int| 0 <= i < s.len() && #[trigger] s[i].code == code && s[i].level == IssueLevel::Error
}

/// None of the findings carries either sender code.
pub open spec fn lacks_sender_codes(s: Seq<Finding>) -> bool {
    lacks_code(s, "sender_not_participant"@) && lacks_code(s, "forged_system_message"@)
}

proof fn lemma_lacks_concat(a: Seq<Finding>, b: Seq<Finding>)
    requires
        lacks_sender_codes(a),
        lacks_sender_codes(b),
    ensures
        lacks_sender_codes(a + b),
{
    assert forall|i: int| 0 <= i < (a + b).len() implies #[trigger] (a + b)[i].code != "sender_not_participant"@
        && (a + b)[i].code != "forged_system_message"@ by {
        if i < a.len() {
            assert((a + b)[i] == a[i]);
        } else {
            assert((a + b)[i] == b[i - a.len()]);
        }
    }
}

proof fn lemma_has_concat(a: Seq<Finding>, b: Seq<Finding>, code: Seq<char>)
    ensures
        has_error_code(a + b, code) <==> has_error_code(a, code) || has_error_code(b, code),
{
    if has_error_code(a + b, code) {
        let i = choose|i: int| 0 <= i < (a + b).len() && #[trigger] (a + b)[i].code == code && (a + b)[i].level
            == IssueLevel::Error;
        if i < a.len() {
            assert(a[i] == (a + b)[i]);
        } else {
            assert(b[i - a.len()] == (a + b)[i]);
        }
    }
    if has_error_code(a, code) {
        let i = choose|i: int| 0 <= i < a.len() && #[trigger] a[i].code == code && a[i].level == IssueLevel::Error;
        assert((a + b)[i] == a[i]);
    }
    if has_error_code(b, code) {
        let i = choose|i: int| 0 <= i < b.len() && #[trigger] b[i].code == code && b[i].level == IssueLevel::Error;
        assert((a + b)[i + a.len()] == b[i]);
    }
}

proof fn lemma_lacks_not_has(s: Seq<Finding>, code: Seq<char>)
    requires
        lacks_code(s, code),
    ensures
        !has_error_code(s, code),
{
}

/// The codes the sender checks use, spelled out.
proof fn lemma_sender_code_text()
    ensures
        "sender_not_participant"@ =~= seq!['s', 'e', 'n', 'd', 'e', 'r', '_', 'n', 'o', 't', '_', 'p', 'a', 'r', 't', 'i',
            'c', 'i', 'p', 'a', 'n', 't'],
        "forged_system_message"@ =~= seq!['f', 'o', 'r', 'g', 'e', 'd', '_', 's', 'y', 's', 't', 'e', 'm', '_', 'm', 'e',
            's', 's', 'a', 'g', 'e'],
{
    reveal_strlit("sender_not_participant");
    reveal_strlit("forged_system_message");
}

/// A code whose first character is neither `s` nor `f`, or that starts with
/// `s` but not `se`, is neither sender code.
proof fn lemma_other_code(c: Seq<char>)
    requires
        c.len() >= 2,
        c[0] != 'f',
        c[0] != 's' || c[1] != 'e',
    ensures
        c != "sender_not_participant"@,
        c != "forged_system_message"@,
{
    lemma_sender_code_text();
    if c == "sender_not_participant"@ {
        assert(c[0] == 's' && c[1] == 'e');
    }
    if c == "forged_system_message"@ {
        assert(c[0] == 'f');
    }
}

proof fn lemma_found_if_other(c: bool, f: Finding)
    requires
        f.code.len() >= 2,
        f.code[0] != 'f',
        f.code[0] != 's' || f.code[1] != 'e',
    ensures
        lacks_sender_codes(found_if(c, f)),
{
    lemma_other_code(f.code);
}

proof fn lemma_recipients_lack(path: Seq<char>, to: Seq<Seq<char>>, ps: Seq<Seq<char>>, n: int)
    requires
        n <= to.len(),
    ensures
        lacks_sender_codes(recipients_findings(path, to, ps, n)),
    decreases n,
{
    if n > 0 {
        lemma_recipients_lack(path, to, ps, n - 1);
        let r = to[n - 1];
        reveal_strlit("duplicate_recipient");
        reveal_strlit("invalid_recipient_id");
        reveal_strlit("recipient_not_participant");
        lemma_found_if_other(to.take(n - 1).contains(r), error_at("duplicate_recipient"@, path,
            "recipient @"@ + r + " is listed more than once"@));
        lemma_found_if_other(r != "*"@ && !id_valid(r), error_at("invalid_recipient_id"@, path, invalid_id_message(
            "recipient"@, r)));
        lemma_found_if_other(r != "*"@ && !ps.contains(r), error_at("recipient_not_participant"@, path, "recipient @"@
            + r + " is not a participant"@));
        let a = found_if(to.take(n - 1).contains(r), error_at("duplicate_recipient"@, path,
            "recipient @"@ + r + " is listed more than once"@));
        let b = found_if(r != "*"@ && !id_valid(r), error_at("invalid_recipient_id"@, path, invalid_id_message(
            "recipient"@, r)));
        let c = found_if(r != "*"@ && !ps.contains(r), error_at("recipient_not_participant"@, path, "recipient @"@
            + r + " is not a participant"@));
        lemma_lacks_concat(a, b);
        lemma_lacks_concat(a + b, c);
        lemma_lacks_concat(recipients_findings(path, to, ps, n - 1), a + b + c);
    }
}

proof fn lemma_mentions_lack(path: Seq<char>, ms: Seq<Seq<char>>, ps: Seq<Seq<char>>, n: int)
    requires
        n <= ms.len(),
    ensures
        lacks_sender_codes(mentions_findings(path, ms, ps, n)),
    decreases n,
{
    if n > 0 {
        lemma_mentions_lack(path, ms, ps, n - 1);
        let x = ms[n - 1];
        reveal_strlit("duplicate_mention");
        reveal_strlit("invalid_mention_id");
        reveal_strlit("mention_not_participant");
        let a = found_if(ms.take(n - 1).contains(x), error_at("duplicate_mention"@, path, "mention @"@ + x
            + " is listed more than once"@));
        let b = found_if(!id_valid(x), error_at("invalid_mention_id"@, path, invalid_id_message("mention"@, x)));
        let c = found_if(!ps.contains(x), warning_at("mention_not_participant"@, path, "mention @"@ + x
            + " is not a participant"@));
        lemma_found_if_other(ms.take(n - 1).contains(x), error_at("duplicate_mention"@, path, "mention @"@ + x
            + " is listed more than once"@));
        lemma_found_if_other(!id_valid(x), error_at("invalid_mention_id"@, path, invalid_id_message("mention"@, x)));
        lemma_found_if_other(!ps.contains(x), warning_at("mention_not_participant"@, path, "mention @"@ + x
            + " is not a participant"@));
        lemma_lacks_concat(a, b);
        lemma_lacks_concat(a + b, c);
        lemma_lacks_concat(mentions_findings(path, ms, ps, n - 1), a + b + c);
    }
}

proof fn lemma_awaiteds_lack(path: Seq<char>, ws: Seq<Seq<char>>, ps: Seq<Seq<char>>, n: int)
    requires
        n <= ws.len(),
    ensures
        lacks_sender_codes(awaiteds_findings(path, ws, ps, n)),
    decreases n,
{
    if n > 0 {
        lemma_awaiteds_lack(path, ws, ps, n - 1);
        let x = ws[n - 1];
        reveal_strlit("invalid_awaited_id");
        reveal_strlit("duplicate_awaited_agent");
        reveal_strlit("awaited_not_participant");
        let a = found_if(!id_valid(x), error_at("invalid_awaited_id"@, path, invalid_id_message("awaited agent"@, x)));
        let b = found_if(ws.take(n - 1).contains(x), error_at("duplicate_awaited_agent"@, path, "awaited agent @"@ + x
            + " is listed more than once"@));
        let c = found_if(!ps.contains(x), error_at("awaited_not_participant"@, path, "awaited agent @"@ + x
            + " is not a participant"@));
        lemma_found_if_other(!id_valid(x), error_at("invalid_awaited_id"@, path, invalid_id_message("awaited agent"@,
            x)));
        lemma_found_if_other(ws.take(n - 1).contains(x), error_at("duplicate_awaited_agent"@, path, "awaited agent @"@
            + x + " is listed more than once"@));
        lemma_found_if_other(!ps.contains(x), error_at("awaited_not_participant"@, path, "awaited agent @"@ + x
            + " is not a participant"@));
        lemma_lacks_concat(a, b);
        lemma_lacks_concat(a + b, c);
        lemma_lacks_concat(awaiteds_findings(path, ws, ps, n - 1), a + b + c);
    }
}


proof fn lemma_single_other(f: Finding)
    requires
        f.code.len() >= 2,
        f.code[0] != 'f',
        f.code[0] != 's' || f.code[1] != 'e',
    ensures
        lacks_sender_codes(seq![f]),
{
    lemma_found_if_other(true, f);
}

proof fn lemma_id_findings_lack(path: Seq<char>, name: Seq<char>, meta: Meta, m: Message)
    ensures
        lacks_sender_codes(message_id_findings(path, name, meta, m)),
{
    reveal_strlit("schema_version");
    reveal_strlit("message_id_mismatch");
    reveal_strlit("invalid_message_id");
    reveal_strlit("invalid_sender_id");
    reveal_strlit("invalid_message_conversation_id");
    reveal_strlit("message_conversation_mismatch");
    let a = schema_findings(path, m.v, "message"@);
    let b = found_if(stem_mismatch(name, m.id@), error_at("message_id_mismatch"@, path, "file name is "@ + debug_quoted(
        json_stem(name)) + " but payload id is "@ + debug_quoted(m.id@)));
    let c = found_if(!id_valid(m.id@), error_at("invalid_message_id"@, path, invalid_id_message("message id"@, m.id@)));
    let d = found_if(!id_valid(m.from@), error_at("invalid_sender_id"@, path, invalid_id_message("sender"@, m.from@)));
    let e = found_if(!id_valid(m.conversation_id@), error_at("invalid_message_conversation_id"@, path,
        invalid_id_message("conversation id"@, m.conversation_id@)));
    let f = found_if(m.conversation_id@ != meta.id@, error_at("message_conversation_mismatch"@, path, "message belongs to "@
        + debug_quoted(m.conversation_id@) + ", expected "@ + debug_quoted(meta.id@)));
    lemma_found_if_other(m.v != 1, warning_at("schema_version"@, path, "message"@ + " has _v="@ + decimal(m.v as nat)
        + "; current schema is 1"@));
    lemma_found_if_other(stem_mismatch(name, m.id@), error_at("message_id_mismatch"@, path, "file name is "@ + debug_quoted(
        json_stem(name)) + " but payload id is "@ + debug_quoted(m.id@)));
    lemma_found_if_other(!id_valid(m.id@), error_at("invalid_message_id"@, path, invalid_id_message("message id"@, m.id@)));
    lemma_found_if_other(!id_valid(m.from@), error_at("invalid_sender_id"@, path, invalid_id_message("sender"@, m.from@)));
    lemma_found_if_other(!id_valid(m.conversation_id@), error_at("invalid_message_conversation_id"@, path,
        invalid_id_message("conversation id"@, m.conversation_id@)));
    lemma_found_if_other(m.conversation_id@ != meta.id@, error_at("message_conversation_mismatch"@, path,
        "message belongs to "@ + debug_quoted(m.conversation_id@) + ", expected "@ + debug_quoted(meta.id@)));
    lemma_lacks_concat(a, b);
    lemma_lacks_concat(a + b, c);
    lemma_lacks_concat(d, e);
    lemma_lacks_concat(d + e, f);
    lemma_lacks_concat(a + b + c, d + e + f);
}

proof fn lemma_misc_findings_lack(path: Seq<char>, meta: Meta, m: Message, summary_limit: usize)
    ensures
        lacks_sender_codes(message_misc_findings(path, meta, m, summary_limit)),
{
    reveal_strlit("invalid_subject_id");
    reveal_strlit("invalid_after_id");
    reveal_strlit("invalid_time");
    reveal_strlit("ack_without_recipients");
    reveal_strlit("non_obligation_kind_has_ask");
    reveal_strlit("summary_too_large");
    let a = match m.subject_id {
        Some(x) => found_if(!subject_id_valid(x@), error_at("invalid_subject_id"@, path, "message subject_id is invalid: "@
            + subject_id_error(x@))),
        None => Seq::empty(),
    };
    let b = match m.after {
        Some(x) => found_if(!id_valid(x@), error_at("invalid_after_id"@, path, invalid_id_message("after message id"@, x@))),
        None => Seq::empty(),
    };
    if let Some(x) = m.subject_id {
        lemma_found_if_other(!subject_id_valid(x@), error_at("invalid_subject_id"@, path, "message subject_id is invalid: "@
            + subject_id_error(x@)));
    }
    if let Some(x) = m.after {
        lemma_found_if_other(!id_valid(x@), error_at("invalid_after_id"@, path, invalid_id_message("after message id"@, x@)));
    }
    lemma_lacks_concat(a, b);
    let t = time_findings(path, "created_at"@, m.created_at@);
    lemma_found_if_other(!is_rfc3339(m.created_at@), error_at("invalid_time"@, path, "created_at"@ + " is not RFC3339: "@
        + debug_quoted(m.created_at@)));
    let c = found_if(m.requires_ack && expected_receipts(m, meta).len() == 0, warning_at("ack_without_recipients"@, path,
        "message requires ack but has no recipient other than sender"@));
    let d = found_if(!(m.kind@ == "message"@ || m.kind@ == "task"@) && (m.requires_ack || m.needs_response_from@.len() > 0),
        error_at("non_obligation_kind_has_ask"@, path, "kind "@ + debug_quoted(m.kind@)
        + " must not carry requires_ack or needs_response_from"@));
    let e = found_if(m.kind@ == "summary"@ && byte_len(m.body@) > summary_limit, error_at("summary_too_large"@, path,
        "summary is "@ + decimal(byte_len(m.body@)) + " bytes; limit is "@ + decimal(summary_limit as nat)));
    lemma_found_if_other(m.requires_ack && expected_receipts(m, meta).len() == 0, warning_at("ack_without_recipients"@,
        path, "message requires ack but has no recipient other than sender"@));
    lemma_found_if_other(!(m.kind@ == "message"@ || m.kind@ == "task"@) && (m.requires_ack || m.needs_response_from@.len()
        > 0), error_at("non_obligation_kind_has_ask"@, path, "kind "@ + debug_quoted(m.kind@)
        + " must not carry requires_ack or needs_response_from"@));
    lemma_found_if_other(m.kind@ == "summary"@ && byte_len(m.body@) > summary_limit, error_at("summary_too_large"@, path,
        "summary is "@ + decimal(byte_len(m.body@)) + " bytes; limit is "@ + decimal(summary_limit as nat)));
    lemma_lacks_concat(c, d);
    lemma_lacks_concat(c + d, e);
    lemma_lacks_concat(a + b, t);
    lemma_lacks_concat(a + b + t, c + d + e);
}


proof fn lemma_signed_record_lacks(path: Seq<char>, author: Seq<char>, key: Option<Seq<char>>, record: JsonValue)
    ensures
        lacks_sender_codes(signed_record_findings(path, "message"@, author, key, record)),
{
    reveal_strlit("message");
    reveal_strlit("unverified_");
    reveal_strlit("_signature");
    reveal_strlit("missing_");
    reveal_strlit("_signer");
    reveal_strlit("_signer_mismatch");
    reveal_strlit("_hash");
    reveal_strlit("invalid_");
    let rt = "message"@;
    lemma_other_code("unverified_"@ + rt + "_signature"@);
    lemma_other_code("missing_"@ + rt + "_signer"@);
    lemma_other_code(rt + "_signer_mismatch"@);
    lemma_other_code("missing_"@ + rt + "_hash"@);
    lemma_other_code("missing_"@ + rt + "_signature"@);
    lemma_other_code("invalid_"@ + rt + "_hash"@);
    lemma_other_code("invalid_"@ + rt + "_signature"@);
    let signer = crate::audit::str_field(record, "signer_key"@);
    let hash = crate::audit::str_field(record, "hash"@);
    let sig = crate::audit::str_field(record, "sig"@);
    if let (Some(k), Some(sk), Some(h), Some(sg)) = (key, signer, hash, sig) {
        if sk == k {
            let a = crate::audit::hash_findings(path, rt, h, record);
            let b = found_if(
                !crate::crypto::signature_valid(sk, crate::audit::signed_bytes(record), sg),
                error_at("invalid_"@ + rt + "_signature"@, path, crate::crypto::verify_error(sk, sg)),
            );
            lemma_lacks_concat(a, b);
        }
    }
}

proof fn lemma_signature_findings_lack(path: Seq<char>, m: Message, agent_path: Seq<char>, author: Loaded<Agent>, record: JsonValue)
    ensures
        lacks_sender_codes(message_signature_findings(path, m, agent_path, author, record)),
{
    if m.kind@ != "system"@ {
        reveal_strlit("read_failed");
        reveal_strlit("invalid_json");
        reveal_strlit("invalid_agent_pubkey");
        lemma_other_code("read_failed"@);
        lemma_other_code("invalid_json"@);
        lemma_other_code("invalid_agent_pubkey"@);
        let a = read_findings(agent_path, author);
        let b = author_key_findings(path, m.from@, parsed(author));
        let c = signed_record_findings(path, "message"@, m.from@, author_key(parsed(author)), record);
        lemma_signed_record_lacks(path, m.from@, author_key(parsed(author)), record);
        lemma_lacks_concat(a, b);
        lemma_lacks_concat(a + b, c);
    }
}

proof fn lemma_task_findings_lack(path: Seq<char>, m: Message, lookup: Result<Option<String>, String>, body: Result<Option<Token>, String>)
    ensures
        lacks_sender_codes(task_findings(path, m, lookup, body)),
{
    if m.kind@ == "task"@ {
        reveal_strlit("task_requires_ack");
        reveal_strlit("invalid_task_worker_count");
        reveal_strlit("task_worker_not_recipient");
        reveal_strlit("task_worker_identity_missing");
        reveal_strlit("task_worker_identity_invalid");
        reveal_strlit("invalid_task_capability");
        reveal_strlit("task_capability_holder_mismatch");
        reveal_strlit("invalid_task_body");
        lemma_other_code("task_requires_ack"@);
        lemma_other_code("invalid_task_worker_count"@);
        lemma_other_code("task_worker_not_recipient"@);
        lemma_other_code("task_worker_identity_missing"@);
        lemma_other_code("task_worker_identity_invalid"@);
        lemma_other_code("invalid_task_capability"@);
        lemma_other_code("task_capability_holder_mismatch"@);
        lemma_other_code("invalid_task_body"@);
        let ws = views(m.needs_response_from@);
        let a = found_if(m.requires_ack, error_at("task_requires_ack"@, path, "task messages must not use requires_ack"@));
        let b = if ws.len() != 1 {
            seq![
                error_at(
                    "invalid_task_worker_count"@,
                    path,
                    "task messages must name exactly one awaited worker, found "@ + decimal(ws.len()),
                ),
            ]
        } else {
            found_if(
                !views(m.to@).contains(ws[0]),
                error_at("task_worker_not_recipient"@, path, "task worker @"@ + ws[0] + " is not an explicit recipient"@),
            )
        };
        let c = if ws.len() > 0 {
            worker_lookup_findings(path, ws[0], lookup)
        } else {
            Seq::empty()
        };
        let d = task_body_findings(path, worker_key(m, lookup), body);
        if let Ok(Some(t)) = body {
            let d1 = match chain_refusal(t@, None) {
                Some(why) => seq![error_at("invalid_task_capability"@, path, "task capability chain is invalid: "@ + why)],
                None => Seq::empty(),
            };
            let d2 = match worker_key(m, lookup) {
                Some(pk) => found_if(
                    !(t@.blocks.len() > 0 && t@.blocks.last().holder == pk),
                    error_at("task_capability_holder_mismatch"@, path,
                        "task capability holder does not match the awaited worker"@),
                ),
                None => Seq::empty(),
            };
            lemma_lacks_concat(d1, d2);
            assert(d == d1 + d2);
        }
        lemma_lacks_concat(a, b);
        lemma_lacks_concat(a + b, c);
        lemma_lacks_concat(a + b + c, d);
    }
}

proof fn lemma_only_in(a: Seq<Finding>, k: Seq<Finding>, l: Seq<Finding>, x: Seq<Finding>, t: Seq<Finding>, g: Seq<Finding>, code: Seq<char>)
    requires
        lacks_code(a, code),
        lacks_code(l, code),
        lacks_code(x, code),
        lacks_code(t, code),
        lacks_code(g, code),
    ensures
        has_error_code(a + k + l + x + t + g, code) <==> has_error_code(k, code),
{
    lemma_has_concat(a + k + l + x + t, g, code);
    lemma_has_concat(a + k + l + x, t, code);
    lemma_has_concat(a + k + l, x, code);
    lemma_has_concat(a + k, l, code);
    lemma_has_concat(a, k, code);
}

proof fn lemma_kind_findings_codes(path: Seq<char>, meta: Meta, m: Message)
    ensures
        has_error_code(message_kind_findings(path, meta, m), "sender_not_participant"@) <==> (m.kind@ != "system"@
            && !views(meta.participants@).contains(m.from@)),
        has_error_code(message_kind_findings(path, meta, m), "forged_system_message"@) <==> (m.kind@ == "system"@
            && m.from@ != "raft"@),
{
    let ps = views(meta.participants@);
    reveal_strlit("invalid_message_kind");
    lemma_other_code("invalid_message_kind"@);
    lemma_sender_code_text();
    let k0 = found_if(!is_message_kind(m.kind@), error_at("invalid_message_kind"@, path, "unsupported kind "@
        + debug_quoted(m.kind@)));
    let forged = found_if(m.from@ != "raft"@, error_at("forged_system_message"@, path, "system messages must be from raft"@));
    let stranger = found_if(!ps.contains(m.from@), error_at("sender_not_participant"@, path, "sender @"@ + m.from@
        + " is not a participant"@));
    let k1 = if m.kind@ == "system"@ { forged } else { stranger };
    assert(message_kind_findings(path, meta, m) == k0 + k1);
    let snp = "sender_not_participant"@;
    let fsm = "forged_system_message"@;
    assert(snp[0] != fsm[0]);
    lemma_has_concat(k0, k1, snp);
    lemma_has_concat(k0, k1, fsm);
    lemma_lacks_not_has(k0, snp);
    lemma_lacks_not_has(k0, fsm);
    if m.kind@ == "system"@ {
        if m.from@ != "raft"@ {
            assert(forged[0].code == fsm);
        }
    } else {
        if !ps.contains(m.from@) {
            assert(stranger[0].code == snp);
        }
    }
}

proof fn lemma_lists_findings_lack(path: Seq<char>, meta: Meta, m: Message)
    ensures
        lacks_sender_codes(message_lists_findings(path, meta, m)),
{
    let ps = views(meta.participants@);
    let r = recipients_findings(path, views(m.to@), ps, m.to@.len() as int);
    let n = mentions_findings(path, views(m.mentions@), ps, m.mentions@.len() as int);
    let w = awaiteds_findings(path, views(m.needs_response_from@), ps, m.needs_response_from@.len() as int);
    lemma_recipients_lack(path, views(m.to@), ps, m.to@.len() as int);
    lemma_mentions_lack(path, views(m.mentions@), ps, m.mentions@.len() as int);
    lemma_awaiteds_lack(path, views(m.needs_response_from@), ps, m.needs_response_from@.len() as int);
    lemma_lacks_concat(r, n);
    lemma_lacks_concat(r + n, w);
}

/// The doctor's message check reports each sender error exactly under its
/// condition: `forged_system_message` when a `system` message is not from
/// `raft`, and `sender_not_participant` when any other message is from
/// someone outside the conversation. No other check uses these codes.
pub proof fn lemma_sender_errors_exact(
    path: Seq<char>,
    name: Seq<char>,
    meta: Meta,
    m: Message,
    summary_limit: usize,
    lookup: Result<Option<String>, String>,
    body: Result<Option<Token>, String>,
    agent_path: Seq<char>,
    author: Loaded<Agent>,
    record: JsonValue,
)
    ensures
        has_error_code(
            message_findings(path, name, meta, m, summary_limit, lookup, body, agent_path, author, record),
            "sender_not_participant"@,
        ) <==> (m.kind@ != "system"@ && !views(meta.participants@).contains(m.from@)),
        has_error_code(
            message_findings(path, name, meta, m, summary_limit, lookup, body, agent_path, author, record),
            "forged_system_message"@,
        ) <==> (m.kind@ == "system"@ && m.from@ != "raft"@),
{
    let a = message_id_findings(path, name, meta, m);
    let k = message_kind_findings(path, meta, m);
    let l = message_lists_findings(path, meta, m);
    let x = message_misc_findings(path, meta, m, summary_limit);
    let t = task_findings(path, m, lookup, body);
    let g = message_signature_findings(path, m, agent_path, author, record);
    lemma_id_findings_lack(path, name, meta, m);
    lemma_lists_findings_lack(path, meta, m);
    lemma_misc_findings_lack(path, meta, m, summary_limit);
    lemma_task_findings_lack(path, m, lookup, body);
    lemma_signature_findings_lack(path, m, agent_path, author, record);
    lemma_kind_findings_codes(path, meta, m);
    lemma_only_in(a, k, l, x, t, g, "sender_not_participant"@);
    lemma_only_in(a, k, l, x, t, g, "forged_system_message"@);
}


proof fn lemma_awaited_outsider_flagged(path: Seq<char>, ws: Seq<Seq<char>>, ps: Seq<Seq<char>>, n: int, j: int)
    requires
        0 <= j < n <= ws.len(),
        !ps.contains(ws[j]),
    ensures
        has_error_code(awaiteds_findings(path, ws, ps, n), "awaited_not_participant"@),
    decreases n,
{
    let prev = awaiteds_findings(path, ws, ps, n - 1);
    let x = ws[n - 1];
    let a = found_if(!id_valid(x), error_at("invalid_awaited_id"@, path, invalid_id_message("awaited agent"@, x)));
    let b = found_if(ws.take(n - 1).contains(x), error_at("duplicate_awaited_agent"@, path, "awaited agent @"@ + x
        + " is listed more than once"@));
    let c = found_if(!ps.contains(x), error_at("awaited_not_participant"@, path, "awaited agent @"@ + x
        + " is not a participant"@));
    assert(awaited_findings(path, ws, ps, n - 1) == a + b + c);
    lemma_has_concat(prev, a + b + c, "awaited_not_participant"@);
    lemma_has_concat(a + b, c, "awaited_not_participant"@);
    if j == n - 1 {
        assert(c[0].code == "awaited_not_participant"@);
    } else {
        lemma_awaited_outsider_flagged(path, ws, ps, n - 1, j);
    }
}

/// The doctor flags every awaited agent outside the conversation: when a
/// message waits on someone who is not a participant, its findings hold an
/// `awaited_not_participant` error.
pub proof fn lemma_outsider_awaited_reported(
    path: Seq<char>,
    name: Seq<char>,
    meta: Meta,
    m: Message,
    summary_limit: usize,
    lookup: Result<Option<String>, String>,
    body: Result<Option<Token>, String>,
    agent_path: Seq<char>,
    author: Loaded<Agent>,
    record: JsonValue,
    x: Seq<char>,
)
    requires
        views(m.needs_response_from@).contains(x),
        !views(meta.participants@).contains(x),
    ensures
        has_error_code(
            message_findings(path, name, meta, m, summary_limit, lookup, body, agent_path, author, record),
            "awaited_not_participant"@,
        ),
{
    let code = "awaited_not_participant"@;
    let ps = views(meta.participants@);
    let ws = views(m.needs_response_from@);
    let j = choose|j: int| 0 <= j < ws.len() && ws[j] == x;
    lemma_awaited_outsider_flagged(path, ws, ps, m.needs_response_from@.len() as int, j);
    let r = recipients_findings(path, views(m.to@), ps, m.to@.len() as int);
    let n = mentions_findings(path, views(m.mentions@), ps, m.mentions@.len() as int);
    let w = awaiteds_findings(path, ws, ps, m.needs_response_from@.len() as int);
    lemma_has_concat(r + n, w, code);
    let a = message_id_findings(path, name, meta, m);
    let k = message_kind_findings(path, meta, m);
    let l = message_lists_findings(path, meta, m);
    let xm = message_misc_findings(path, meta, m, summary_limit);
    let t = task_findings(path, m, lookup, body);
    let g = message_signature_findings(path, m, agent_path, author, record);
    lemma_has_concat(a + k, l, code);
    lemma_has_concat(a + k + l, xm, code);
    lemma_has_concat(a + k + l + xm, t, code);
    lemma_has_concat(a + k + l + xm + t, g, code);
}

} // verus!
