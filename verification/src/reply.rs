//! What a DoH server's HTTP reply means for one query attempt.

use vstd::prelude::*;
use crate::dns::{dns_answer_ips, parse_dns_response};
use crate::probe::{ReplyModel, ReplyOutcome};
use crate::text::{decimal, opt_view, push_decimal, push_str, string_views};
use crate::types::DoHMethod;

verus! {

/// Prefix of the messages about a request form.
pub open spec fn method_tag(m: DoHMethod) -> Seq<char> {
    match m {
        DoHMethod::GetWire => "GET-wire"@,
        DoHMethod::PostWire => "POST-wire"@,
        DoHMethod::GetJson => "GET-json"@,
    }
}

/// The text that a reply's content type must hold for a request form.
pub open spec fn content_needle(m: DoHMethod) -> Seq<char> {
    match m {
        DoHMethod::GetWire => "dns-message"@,
        DoHMethod::PostWire => "dns-message"@,
        DoHMethod::GetJson => "json"@,
    }
}

fn method_tag_string(m: DoHMethod) -> (s: String)
    ensures
        s@ == method_tag(m),
{
    match m {
        DoHMethod::GetWire => "GET-wire".to_owned(),
        DoHMethod::PostWire => "POST-wire".to_owned(),
        DoHMethod::GetJson => "GET-json".to_owned(),
    }
}

/// True when `needle` occurs in `s`.
pub open spec fn contains(s: Seq<char>, needle: Seq<char>) -> bool {
    exists|i: int| 0 <= i <= s.len() - needle.len() && #[trigger] s.subrange(i, i + needle.len()) == needle
}

/// Whether `needle` occurs in `hay`.
pub fn str_contains(hay: &str, needle: &str) -> (b: bool)
    ensures
        b == contains(hay@, needle@),
{
    let h = crate::text::chars_of(hay);
    let n = crate::text::chars_of(needle);
    if n.len() > h.len() {
        return false;
    }
    let mut i: usize = 0;
    while i <= h.len() - n.len()
        invariant
            n.len() <= h.len(),
            h@ == hay@,
            n@ == needle@,
            forall|k: int| 0 <= k < i ==> #[trigger] h@.subrange(k, k + n@.len()) != n@,
        decreases h.len() - n.len() + 1 - i,
    {
        let mut j: usize = 0;
        let mut same = true;
        while j < n.len()
            invariant
                j <= n.len(),
                i + n.len() <= h.len(),
                same == forall|k: int| 0 <= k < j ==> h@[i + k] == n@[k],
            decreases n.len() - j,
        {
            if h[i + j] != n[j] {
                same = false;
            }
            j = j + 1;
        }
        if same {
            assert(h@.subrange(i as int, i + n@.len()) =~= n@);
            return true;
        }
        assert(h@.subrange(i as int, i + n@.len()) != n@) by {
            let k = choose|k: int| 0 <= k < n.len() && h@[i + k] != n@[k];
            assert(h@.subrange(i as int, i + n@.len())[k] == h@[i + k]);
        }
        i = i + 1;
    }
    false
}

/// The reason phrase that the HTTP registry gives a status code, as
/// `reqwest::StatusCode::canonical_reason` returns it.
pub uninterp spec fn canonical_reason(code: u16) -> Option<Seq<char>>;

/// `reqwest::StatusCode::from_u16` then `canonical_reason`: the reason
/// phrase of a status code in 100..=999, `None` for a code without one.
#[verifier::external_body]
fn status_reason(code: u16) -> (r: Option<String>)
    requires
        100 <= code <= 999,
    ensures
        opt_view(r) == canonical_reason(code),
{
    reqwest::StatusCode::from_u16(code).ok().and_then(|s| s.canonical_reason()).map(|r| r.to_string())
}

/// A status code as HTTP libraries print it: the number, a space and the
/// reason phrase, or `<unknown status code>` when it has none.
pub open spec fn status_text(code: u16) -> Seq<char> {
    decimal(code as nat) + " "@ + match canonical_reason(code) {
        Some(r) => r,
        None => "<unknown status code>"@,
    }
}

/// Writes a status code with its reason phrase.
pub fn status_line(code: u16) -> (s: String)
    requires
        100 <= code <= 999,
    ensures
        s@ == status_text(code),
{
    let mut s = String::new();
    push_decimal(&mut s, code as u64);
    push_str(&mut s, " ");
    match status_reason(code) {
        Some(r) => push_str(&mut s, r.as_str()),
        None => push_str(&mut s, "<unknown status code>"),
    }
    s
}

/// The verdict on a reply's status and content type: a failure unless the
/// status is 200 and the content type names the expected format.
pub open spec fn head_verdict(m: DoHMethod, status: u16, content_type: Seq<char>) -> Option<Seq<char>> {
    if status != 200 {
        Some(method_tag(m) + "-"@ + status_text(status))
    } else if !contains(content_type, content_needle(m)) {
        Some(method_tag(m) + "-bad-content-type:"@ + content_type)
    } else {
        None
    }
}

/// Checks a reply's status and content type before its body is read; the
/// failure message, if any.
pub fn check_reply_head(method: DoHMethod, status: u16, content_type: &str) -> (failure: Option<String>)
    requires
        100 <= status <= 999,
    ensures
        opt_view(failure) == head_verdict(method, status, content_type@),
{
    let mut msg = method_tag_string(method);
    if status != 200 {
        push_str(&mut msg, "-");
        let line = status_line(status);
        push_str(&mut msg, line.as_str());
        return Some(msg);
    }
    let found = match method {
        DoHMethod::GetWire => str_contains(content_type, "dns-message"),
        DoHMethod::PostWire => str_contains(content_type, "dns-message"),
        DoHMethod::GetJson => str_contains(content_type, "json"),
    };
    if !found {
        push_str(&mut msg, "-bad-content-type:");
        push_str(&mut msg, content_type);
        return Some(msg);
    }
    None
}

/// A needle occurs in any text that has it between two other texts.
pub proof fn lemma_contains_infix(before: Seq<char>, needle: Seq<char>, after: Seq<char>)
    ensures
        contains(before + needle + after, needle),
{
    let s = before + needle + after;
    let i = before.len() as int;
    assert(s.subrange(i, i + needle.len()) =~= needle);
}

/// The head check accepts a reply with status 200 whose content type holds
/// "dns-message" for both wire forms, or "json" for the JSON form, whatever
/// stands around it; a content type without it is refused with the form's
/// name and the content type; any other status is refused with the form's
/// name and the status line.
pub proof fn lemma_head_verdict_accepts(m: DoHMethod, status: u16, before: Seq<char>, after: Seq<char>, ct: Seq<char>)
    ensures
        head_verdict(DoHMethod::GetWire, 200, before + "dns-message"@ + after) is None,
        head_verdict(DoHMethod::PostWire, 200, before + "dns-message"@ + after) is None,
        head_verdict(DoHMethod::GetJson, 200, before + "json"@ + after) is None,
        !contains(ct, "dns-message"@) ==> head_verdict(DoHMethod::GetWire, 200, ct) == Some(
            "GET-wire-bad-content-type:"@ + ct,
        ),
        !contains(ct, "dns-message"@) ==> head_verdict(DoHMethod::PostWire, 200, ct) == Some(
            "POST-wire-bad-content-type:"@ + ct,
        ),
        !contains(ct, "json"@) ==> head_verdict(DoHMethod::GetJson, 200, ct) == Some(
            "GET-json-bad-content-type:"@ + ct,
        ),
        status != 200 ==> head_verdict(m, status, ct) == Some(method_tag(m) + "-"@ + status_text(status)),
{
    lemma_contains_infix(before, "dns-message"@, after);
    lemma_contains_infix(before, "json"@, after);
    reveal_strlit("GET-wire");
    reveal_strlit("POST-wire");
    reveal_strlit("GET-json");
    reveal_strlit("-bad-content-type:");
    reveal_strlit("GET-wire-bad-content-type:");
    reveal_strlit("POST-wire-bad-content-type:");
    reveal_strlit("GET-json-bad-content-type:");
    assert("GET-wire"@ + "-bad-content-type:"@ =~= "GET-wire-bad-content-type:"@);
    assert("POST-wire"@ + "-bad-content-type:"@ =~= "POST-wire-bad-content-type:"@);
    assert("GET-json"@ + "-bad-content-type:"@ =~= "GET-json-bad-content-type:"@);
}

/// The message of a request that could not be sent.
pub fn send_failure(method: DoHMethod, error: &str) -> (msg: String)
    ensures
        msg@ == method_tag(method) + "-exc:"@ + error@,
{
    let mut msg = method_tag_string(method);
    push_str(&mut msg, "-exc:");
    push_str(&mut msg, error);
    msg
}

/// The message of a reply whose body could not be read.
pub fn body_failure(method: DoHMethod, error: &str) -> (msg: String)
    ensures
        msg@ == method_tag(method) + "-parse-fail:"@ + error@,
{
    let mut msg = method_tag_string(method);
    push_str(&mut msg, "-parse-fail:");
    push_str(&mut msg, error);
    msg
}

/// The outcome that addresses make: answered when there is at least one.
pub open spec fn addresses_outcome(ips: Seq<Seq<char>>) -> ReplyModel {
    if ips.len() == 0 {
        ReplyModel::NoAnswer
    } else {
        ReplyModel::Answered(ips)
    }
}

/// The outcome of a wire-format reply body.
pub open spec fn wire_body_outcome(m: DoHMethod, body: Seq<u8>) -> ReplyModel {
    match dns_answer_ips(body) {
        None => ReplyModel::Failed(method_tag(m) + "-parse-fail"@),
        Some(ips) => addresses_outcome(ips),
    }
}

/// Reads the addresses from a wire-format reply body.
pub fn read_wire_body(method: DoHMethod, body: &[u8]) -> (out: ReplyOutcome)
    ensures
        out@ == wire_body_outcome(method, body@),
{
    match parse_dns_response(body) {
        Some(ips) => {
            if ips.len() == 0 {
                ReplyOutcome::NoAnswer
            } else {
                ReplyOutcome::Answered(ips)
            }
        },
        None => {
            let mut msg = method_tag_string(method);
            push_str(&mut msg, "-parse-fail");
            ReplyOutcome::Failed(msg)
        },
    }
}


/// One entry of the `Answer` array of a JSON DNS reply: its `type` when that
/// is an unsigned integer and its `data` when that is a string.
pub struct JsonAnswer {
    pub rtype: Option<u64>,
    pub data: Option<String>,
}

/// `JsonAnswer` taken by plain values.
pub open spec fn json_answer_view(a: JsonAnswer) -> (Option<u64>, Option<Seq<char>>) {
    (a.rtype, opt_view(a.data))
}

/// What a JSON body holds for the tester, as serde_json reads it: `None`
/// when the bytes are not JSON; `Some(None)` when there is no `Answer`
/// array; otherwise the `type` and `data` of each of its entries, in order.
pub uninterp spec fn json_answer_records(body: Seq<u8>) -> Option<Option<Seq<(Option<u64>, Option<Seq<char>>)>>>;

/// `Option<Option<Vec<JsonAnswer>>>` taken by plain values.
pub open spec fn json_records_view(r: Option<Option<Vec<JsonAnswer>>>) -> Option<Option<Seq<(Option<u64>, Option<Seq<char>>)>>> {
    match r {
        None => None,
        Some(None) => Some(None),
        Some(Some(v)) => Some(Some(v@.map_values(|a: JsonAnswer| json_answer_view(a)))),
    }
}

/// `serde_json::from_slice` into a `serde_json::Value`, then `get("Answer")`,
/// `as_array`, and for each entry `get("type")` with `as_u64` and
/// `get("data")` with `as_str`: the entries of the body's `Answer` array.
#[verifier::external_body]
fn json_answers(body: &[u8]) -> (r: Option<Option<Vec<JsonAnswer>>>)
    ensures
        json_records_view(r) == json_answer_records(body@),
{
    let value: serde_json::Value = match serde_json::from_slice(body) {
        Ok(v) => v,
        Err(_) => return None,
    };
    Some(value.get("Answer").and_then(|a| a.as_array()).map(|entries| {
        entries.iter().map(|e| JsonAnswer {
            rtype: e.get("type").and_then(|t| t.as_u64()),
            data: e.get("data").and_then(|d| d.as_str()).map(|d| d.to_string()),
        }).collect()
    }))
}

/// The `data` of the entries whose `type` is 1 (A records) and whose `data`
/// is a string, in order.
pub open spec fn a_record_data(recs: Seq<(Option<u64>, Option<Seq<char>>)>) -> Seq<Seq<char>>
    decreases recs.len(),
{
    if recs.len() == 0 {
        seq![]
    } else {
        let rest = a_record_data(recs.drop_last());
        let (t, d) = recs.last();
        if t == Some(1u64) && d is Some {
            rest.push(d->0)
        } else {
            rest
        }
    }
}

/// The outcome of a JSON reply body.
pub open spec fn json_body_outcome(body: Seq<u8>) -> ReplyModel {
    match json_answer_records(body) {
        None => ReplyModel::Failed("GET-json-parse-fail:error decoding response body"@),
        Some(None) => ReplyModel::NoAnswer,
        Some(Some(recs)) => addresses_outcome(a_record_data(recs)),
    }
}

/// Reads the A-record addresses from a JSON reply body.
pub fn read_json_body(body: &[u8]) -> (out: ReplyOutcome)
    ensures
        out@ == json_body_outcome(body@),
{
    match json_answers(body) {
        None => ReplyOutcome::Failed("GET-json-parse-fail:error decoding response body".to_owned()),
        Some(None) => ReplyOutcome::NoAnswer,
        Some(Some(entries)) => {
            let ghost recs = entries@.map_values(|a: JsonAnswer| json_answer_view(a));
            let mut ips: Vec<String> = Vec::new();
            let mut i: usize = 0;
            while i < entries.len()
                invariant
                    i <= entries.len(),
                    recs == entries@.map_values(|a: JsonAnswer| json_answer_view(a)),
                    string_views(ips@) == a_record_data(recs.take(i as int)),
                decreases entries.len() - i,
            {
                let e = &entries[i];
                assert(recs.take(i + 1).drop_last() =~= recs.take(i as int));
                assert(recs.take(i + 1).last() == json_answer_view(entries@[i as int]));
                if e.rtype == Some(1u64) {
                    match &e.data {
                        Some(d) => {
                            let ghost before = string_views(ips@);
                            ips.push(d.clone());
                            assert(string_views(ips@) =~= before.push(d@));
                        },
                        None => {},
                    }
                }
                i = i + 1;
            }
            assert(recs.take(entries.len() as int) =~= recs);
            if ips.len() == 0 {
                ReplyOutcome::NoAnswer
            } else {
                ReplyOutcome::Answered(ips)
            }
        },
    }
}

} // verus!
