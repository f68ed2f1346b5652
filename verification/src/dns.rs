//! DNS wire format: the A-record query that the tester sends and the reading
//! of the answers that come back.

use vstd::prelude::*;
use crate::text::{decimal, push_char, push_decimal, string_views};
use vstd::utf8::encode_utf8;

verus! {

/// Index of the first `'.'` (0x2e) in `b` at or after `i`, or the length of
/// `b` when there is none.
pub open spec fn label_end(b: Seq<u8>, i: int) -> int
    decreases b.len() - i,
{
    if i < 0 {
        0
    } else if i >= b.len() {
        b.len() as int
    } else if b[i] == 0x2e {
        i
    } else {
        label_end(b, i + 1)
    }
}

/// Length-prefixed labels of the dot-separated name that starts at `start`
/// (each prefix is the label's byte length taken modulo 256), without the
/// terminating zero.
pub open spec fn encode_labels(b: Seq<u8>, start: int) -> Seq<u8>
    decreases b.len() - start,
{
    if start < 0 || start > b.len() {
        seq![]
    } else {
        let e = label_end(b, start);
        let head = seq![(e - start) as u8] + b.subrange(start, e);
        if e < b.len() {
            proof {
                lemma_label_end_bounds(b, start);
            }
            head + encode_labels(b, e + 1)
        } else {
            head
        }
    }
}

/// Fixed header of the query: id 0x1234, flags 0x0100 (recursion desired),
/// one question, no answer, authority or additional records.
pub open spec fn query_header() -> Seq<u8> {
    seq![0x12u8, 0x34u8, 0x01u8, 0x00u8, 0x00u8, 0x01u8, 0x00u8, 0x00u8, 0x00u8, 0x00u8, 0x00u8, 0x00u8]
}

/// The whole query for the name whose UTF-8 bytes are `b`: header, the name,
/// its terminating zero, QTYPE A (1) and QCLASS IN (1).
pub open spec fn dns_query(b: Seq<u8>) -> Seq<u8> {
    query_header() + encode_labels(b, 0) + seq![0x00u8, 0x00u8, 0x01u8, 0x00u8, 0x01u8]
}

/// Where a label ends: not before it starts, at a dot or at the end.
pub proof fn lemma_label_end_bounds(b: Seq<u8>, i: int)
    requires
        0 <= i <= b.len(),
    ensures
        i <= label_end(b, i) <= b.len(),
        label_end(b, i) < b.len() ==> b[label_end(b, i)] == 0x2e,
        forall|k: int| i <= k < label_end(b, i) ==> b[k] != 0x2e,
    decreases b.len() - i,
{
    if i < b.len() && b[i] != 0x2e {
        lemma_label_end_bounds(b, i + 1);
    }
}

/// The encoded labels take one byte more than the bytes they encode.
proof fn lemma_encode_labels_len(b: Seq<u8>, start: int)
    requires
        0 <= start <= b.len(),
    ensures
        encode_labels(b, start).len() == b.len() - start + 1,
    decreases b.len() - start,
{
    lemma_label_end_bounds(b, start);
    let e = label_end(b, start);
    if e < b.len() {
        lemma_encode_labels_len(b, e + 1);
    }
}

/// Builds an A/IN query for `domain` in DNS wire format. The name is cut
/// into labels at each `.`; cutting its UTF-8 bytes at 0x2e does the same,
/// since no other character's encoding holds that byte.
pub fn build_dns_query(domain: &str) -> (query: Vec<u8>)
    ensures
        query@ == dns_query(encode_utf8(domain@)),
{
    let b: &[u8] = domain.as_bytes();
    let ghost bs = b@;
    let mut packet: Vec<u8> = Vec::new();
    packet.push(0x12);
    packet.push(0x34);
    packet.push(0x01);
    packet.push(0x00);
    packet.push(0x00);
    packet.push(0x01);
    packet.push(0x00);
    packet.push(0x00);
    packet.push(0x00);
    packet.push(0x00);
    packet.push(0x00);
    packet.push(0x00);
    assert(packet@ =~= query_header());
    let mut start: usize = 0;
    loop
        invariant_except_break
            query_header() + encode_labels(bs, 0) == packet@ + encode_labels(bs, start as int),
        invariant
            bs == b@,
            0 <= start <= b.len(),
        ensures
            query_header() + encode_labels(bs, 0) == packet@,
        decreases b.len() - start,
    {
        let mut e: usize = start;
        while e < b.len() && b[e] != 0x2e
            invariant
                start <= e <= b.len(),
                label_end(bs, e as int) == label_end(bs, start as int),
                bs == b@,
            decreases b.len() - e,
        {
            e = e + 1;
        }
        assert(label_end(bs, e as int) == e);
        let ghost before = packet@;
        packet.push((e - start) as u8);
        let mut k: usize = start;
        while k < e
            invariant
                start <= k <= e <= b.len(),
                bs == b@,
                packet@ == before.push((e - start) as u8) + bs.subrange(start as int, k as int),
            decreases e - k,
        {
            packet.push(b[k]);
            assert(bs.subrange(start as int, k + 1) =~= bs.subrange(start as int, k as int).push(bs[k as int]));
            k = k + 1;
        }
        let ghost head = seq![(e - start) as u8] + bs.subrange(start as int, e as int);
        assert(packet@ =~= before + head);
        if e == b.len() {
            assert(encode_labels(bs, start as int) == head);
            assert(query_header() + encode_labels(bs, 0) =~= packet@);
            break;
        }
        assert(encode_labels(bs, start as int) == head + encode_labels(bs, e + 1));
        assert(query_header() + encode_labels(bs, 0) =~= packet@ + encode_labels(bs, e + 1));
        start = e + 1;
    }
    packet.push(0x00);
    packet.push(0x00);
    packet.push(0x01);
    packet.push(0x00);
    packet.push(0x01);
    assert(packet@ =~= dns_query(bs));
    packet
}


/// Offset just past the name that starts at `off`: a run of length-prefixed
/// labels ended by a zero byte, or by a compression pointer (a length byte
/// with both top bits set) together with the byte that follows it. `None`
/// when the data ends first.
pub open spec fn name_end(data: Seq<u8>, off: int) -> Option<int>
    decreases data.len() - off,
{
    if off < 0 || off >= data.len() {
        None
    } else if data[off] == 0 {
        Some(off + 1)
    } else if data[off] >= 0xc0 {
        if off + 1 >= data.len() {
            None
        } else {
            Some(off + 2)
        }
    } else if off + 1 + data[off] > data.len() {
        None
    } else {
        name_end(data, off + 1 + data[off])
    }
}

/// A name ends after it starts and no later than the data.
pub proof fn lemma_name_end_bounds(data: Seq<u8>, off: int)
    ensures
        name_end(data, off) matches Some(e) ==> off < e <= data.len(),
    decreases data.len() - off,
{
    if 0 <= off < data.len() && data[off] != 0 && data[off] < 0xc0 && off + 1 + data[off] <= data.len() {
        lemma_name_end_bounds(data, off + 1 + data[off]);
    }
}

/// Skips the name that starts at `offset` and returns the offset just past it.
pub fn parse_name(data: &[u8], offset: usize) -> (end: Option<usize>)
    ensures
        end matches Some(e) ==> name_end(data@, offset as int) == Some(e as int),
        end is None ==> name_end(data@, offset as int) is None,
{
    let mut pos: usize = offset;
    loop
        invariant
            name_end(data@, pos as int) == name_end(data@, offset as int),
        decreases data.len() - pos,
    {
        if pos >= data.len() {
            return None;
        }
        let len: u8 = data[pos];
        pos = pos + 1;
        if len == 0 {
            return Some(pos);
        }
        if len >= 0xc0 {
            if pos >= data.len() {
                return None;
            }
            return Some(pos + 1);
        }
        let label_len: usize = len as usize;
        if label_len > data.len() - pos {
            return None;
        }
        pos = pos + label_len;
    }
}


/// Big-endian value of two bytes.
pub open spec fn be16(hi: u8, lo: u8) -> nat {
    hi as nat * 256 + lo as nat
}

/// Dotted-decimal notation of an IPv4 address, such as `147.24.34.52`.
pub open spec fn dotted_quad(a: u8, b: u8, c: u8, d: u8) -> Seq<char> {
    decimal(a as nat) + seq!['.'] + decimal(b as nat) + seq!['.'] + decimal(c as nat) + seq!['.']
        + decimal(d as nat)
}

/// Offset just past `n` questions (a name, then QTYPE and QCLASS) that start
/// at `off`; `None` when one of them is cut short.
pub open spec fn skip_questions(data: Seq<u8>, off: int, n: nat) -> Option<int>
    decreases n,
{
    if n == 0 {
        Some(off)
    } else if off >= data.len() {
        None
    } else {
        match name_end(data, off) {
            None => None,
            Some(e) => if e + 4 > data.len() {
                None
            } else {
                skip_questions(data, e + 4, (n - 1) as nat)
            },
        }
    }
}

/// Addresses of the A records (type 1, four bytes of data) among at most `n`
/// answer records that start at `off`. Reading stops early, keeping what it
/// has, when the data ends before a record starts or before its fixed fields
/// end; it fails when a record's name is cut short.
pub open spec fn answer_addresses(data: Seq<u8>, off: int, n: nat) -> Option<Seq<Seq<char>>>
    decreases n,
{
    if n == 0 || off >= data.len() {
        Some(seq![])
    } else {
        match name_end(data, off) {
            None => None,
            Some(e) => if e + 10 > data.len() {
                Some(seq![])
            } else {
                let rdlength = be16(data[e + 8], data[e + 9]);
                let o = e + 10;
                let here: Seq<Seq<char>> = if be16(data[e], data[e + 1]) == 1 && rdlength == 4 && o + 4
                    <= data.len() {
                    seq![dotted_quad(data[o], data[o + 1], data[o + 2], data[o + 3])]
                } else {
                    seq![]
                };
                match answer_addresses(data, o + rdlength, (n - 1) as nat) {
                    None => None,
                    Some(rest) => Some(here + rest),
                }
            },
        }
    }
}

/// What a DNS response holds for the tester: `None` when it is shorter than
/// the header, announces no answer, or its question section is cut short;
/// otherwise the A-record addresses of its answer section.
pub open spec fn dns_answer_ips(data: Seq<u8>) -> Option<Seq<Seq<char>>> {
    if data.len() < 12 {
        None
    } else if be16(data[6], data[7]) == 0 {
        None
    } else {
        match skip_questions(data, 12, be16(data[4], data[5])) {
            None => None,
            Some(off) => answer_addresses(data, off, be16(data[6], data[7])),
        }
    }
}

/// Writes an IPv4 address in dotted-decimal notation.
pub fn format_ipv4(a: u8, b: u8, c: u8, d: u8) -> (s: String)
    ensures
        s@ == dotted_quad(a, b, c, d),
{
    let mut s = String::new();
    push_decimal(&mut s, a as u64);
    push_char(&mut s, '.');
    push_decimal(&mut s, b as u64);
    push_char(&mut s, '.');
    push_decimal(&mut s, c as u64);
    push_char(&mut s, '.');
    push_decimal(&mut s, d as u64);
    assert(s@ =~= dotted_quad(a, b, c, d));
    s
}

/// Extracts the IPv4 addresses of the A records in a DNS response.
pub fn parse_dns_response(data: &[u8]) -> (ips: Option<Vec<String>>)
    ensures
        ips matches Some(v) ==> dns_answer_ips(data@) == Some(string_views(v@)),
        ips is None ==> dns_answer_ips(data@) is None,
{
    if data.len() < 12 {
        return None;
    }
    let qdcount: u16 = ((data[4] as u16) << 8) | (data[5] as u16);
    let ancount: u16 = ((data[6] as u16) << 8) | (data[7] as u16);
    proof {
        let (h4, l5, h6, l7) = (data@[4], data@[5], data@[6], data@[7]);
        assert(((h4 as u16) << 8) | (l5 as u16) == h4 as u16 * 256 + l5 as u16) by (bit_vector);
        assert(((h6 as u16) << 8) | (l7 as u16) == h6 as u16 * 256 + l7 as u16) by (bit_vector);
    }
    if ancount == 0 {
        return None;
    }
    let mut offset: usize = 12;
    let mut i: u16 = 0;
    while i < qdcount
        invariant
            0 <= i <= qdcount,
            qdcount == be16(data@[4], data@[5]),
            data.len() >= 12,
            offset <= data.len(),
            skip_questions(data@, 12, qdcount as nat) == skip_questions(data@, offset as int, (qdcount - i) as nat),
        decreases qdcount - i,
    {
        if offset >= data.len() {
            return None;
        }
        let name_end_at = match parse_name(data, offset) {
            Some(e) => e,
            None => return None,
        };
        proof {
            lemma_name_end_bounds(data@, offset as int);
        }
        if 4 > data.len() - name_end_at {
            return None;
        }
        offset = name_end_at + 4;
        i = i + 1;
    }
    let mut ips: Vec<String> = Vec::new();
    let mut j: u16 = 0;
    let ghost first = offset as int;
    assert(dns_answer_ips(data@) == answer_addresses(data@, first, ancount as nat));
    loop
        invariant_except_break
            j <= ancount,
            answer_addresses(data@, first, ancount as nat) == match answer_addresses(
                data@,
                offset as int,
                (ancount - j) as nat,
            ) {
                None => None,
                Some(rest) => Some(string_views(ips@) + rest),
            },
        invariant
            offset <= data.len(),
            ancount == be16(data@[6], data@[7]),
            dns_answer_ips(data@) == answer_addresses(data@, first, ancount as nat),
        ensures
            answer_addresses(data@, first, ancount as nat) == Some(string_views(ips@)),
        decreases ancount - j,
    {
        if j >= ancount || offset >= data.len() {
            assert(string_views(ips@) + seq![] =~= string_views(ips@));
            break;
        }
        let e = match parse_name(data, offset) {
            Some(e) => e,
            None => return None,
        };
        proof {
            lemma_name_end_bounds(data@, offset as int);
        }
        if 10 > data.len() - e {
            assert(string_views(ips@) + seq![] =~= string_views(ips@));
            break;
        }
        let atype: u16 = ((data[e] as u16) << 8) | (data[e + 1] as u16);
        let rdlength: u16 = ((data[e + 8] as u16) << 8) | (data[e + 9] as u16);
        proof {
            let (h0, l1, h8, l9) = (data@[e as int], data@[e + 1], data@[e + 8], data@[e + 9]);
            assert(((h0 as u16) << 8) | (l1 as u16) == h0 as u16 * 256 + l1 as u16) by (bit_vector);
            assert(((h8 as u16) << 8) | (l9 as u16) == h8 as u16 * 256 + l9 as u16) by (bit_vector);
        }
        let o: usize = e + 10;
        let ghost old_views = string_views(ips@);
        if atype == 1 && rdlength == 4 && 4 <= data.len() - o {
            let ip = format_ipv4(data[o], data[o + 1], data[o + 2], data[o + 3]);
            ips.push(ip);
            assert(string_views(ips@) =~= old_views + seq![dotted_quad(data@[o as int], data@[o + 1], data@[o + 2], data@[o + 3])]);
        } else {
            assert(string_views(ips@) =~= old_views + seq![]);
        }
        let ghost next = o + rdlength as int;
        if rdlength as usize > data.len() - o {
            offset = data.len();
        } else {
            offset = o + rdlength as usize;
        }
        proof {
            if next > data.len() {
                assert(answer_addresses(data@, next, (ancount - j - 1) as nat) == Some(Seq::<Seq<char>>::empty()));
                assert(answer_addresses(data@, offset as int, (ancount - j - 1) as nat) == Some(Seq::<Seq<char>>::empty()));
            }
        }
        j = j + 1;
    }
    Some(ips)
}


/// Every label of the dot-separated name in `b` (from `start` on) has
/// between 1 and 191 bytes, so that its length byte is neither the
/// terminating zero nor a compression pointer.
pub open spec fn labels_fit(b: Seq<u8>, start: int) -> bool
    decreases b.len() - start,
{
    if start < 0 || start > b.len() {
        false
    } else {
        let e = label_end(b, start);
        &&& 1 <= e - start <= 191
        &&& (e < b.len() ==> {
            proof {
                lemma_label_end_bounds(b, start);
            }
            labels_fit(b, e + 1)
        })
    }
}

/// A query is as long as the domain's bytes plus 18: the 12-byte header,
/// one length byte more than the name's bytes, the terminating zero, and
/// QTYPE and QCLASS.
pub proof fn lemma_query_len(b: Seq<u8>)
    ensures
        dns_query(b).len() == b.len() + 18,
{
    lemma_encode_labels_len(b, 0);
}

/// Reading a name over encoded labels that fit skips exactly them and the
/// zero after them.
proof fn lemma_name_end_encoded(b: Seq<u8>, start: int, data: Seq<u8>, off: int)
    requires
        labels_fit(b, start),
        0 <= off,
        off + encode_labels(b, start).len() < data.len(),
        data.subrange(off, off + encode_labels(b, start).len()) == encode_labels(b, start),
        data[off + encode_labels(b, start).len()] == 0,
    ensures
        name_end(data, off) == Some(off + encode_labels(b, start).len() + 1),
    decreases b.len() - start,
{
    lemma_label_end_bounds(b, start);
    let e = label_end(b, start);
    let enc = encode_labels(b, start);
    let head = seq![(e - start) as u8] + b.subrange(start, e);
    assert(data[off] == enc[0]);
    assert(enc[0] == (e - start) as u8);
    assert(data[off] == e - start);
    if e < b.len() {
        let rest = encode_labels(b, e + 1);
        assert(enc == head + rest);
        let off2 = off + 1 + (e - start);
        assert(data.subrange(off2, off2 + rest.len()) =~= rest) by {
            assert forall|k: int| 0 <= k < rest.len() implies data[off2 + k] == rest[k] by {
                assert(data.subrange(off, off + enc.len())[head.len() + k] == enc[head.len() + k]);
            }
        }
        assert(data[off2 + rest.len()] == 0);
        lemma_name_end_encoded(b, e + 1, data, off2);
    } else {
        assert(enc == head);
        assert(data[off + enc.len()] == 0);
    }
}

/// The name that `build_dns_query` writes is read back by `parse_name` up to
/// its terminating zero, when every label has 1 to 191 bytes.
pub proof fn lemma_query_name_read_back(b: Seq<u8>)
    requires
        labels_fit(b, 0),
    ensures
        name_end(dns_query(b), 12) == Some(dns_query(b).len() - 4),
{
    let q = dns_query(b);
    let enc = encode_labels(b, 0);
    lemma_encode_labels_len(b, 0);
    assert(q.subrange(12, 12 + enc.len() as int) =~= enc);
    assert(q[12 + enc.len() as int] == 0);
    lemma_name_end_encoded(b, 0, q, 12);
}

/// A query is not an answer: its answer count is zero, so reading it as a
/// response gives nothing.
pub proof fn lemma_query_has_no_answers(b: Seq<u8>)
    ensures
        dns_answer_ips(dns_query(b)) is None,
{
    lemma_query_len(b);
    let q = dns_query(b);
    assert(q[6] == 0 && q[7] == 0);
}

/// No more addresses come out of the answers than the answer count announces.
pub proof fn lemma_answer_count_bound(data: Seq<u8>, off: int, n: nat)
    ensures
        answer_addresses(data, off, n) matches Some(ips) ==> ips.len() <= n,
    decreases n,
{
    if n > 0 && off < data.len() {
        if let Some(e) = name_end(data, off) {
            if e + 10 <= data.len() {
                let rdlength = be16(data[e + 8], data[e + 9]);
                lemma_answer_count_bound(data, e + 10 + rdlength, (n - 1) as nat);
            }
        }
    }
}

/// A response yields at most as many addresses as its answer count says.
pub proof fn lemma_response_ips_bound(data: Seq<u8>)
    ensures
        dns_answer_ips(data) matches Some(ips) ==> ips.len() <= be16(data[6], data[7]),
{
    if data.len() >= 12 {
        if let Some(off) = skip_questions(data, 12, be16(data[4], data[5])) {
            lemma_answer_count_bound(data, off, be16(data[6], data[7]));
        }
    }
}


/// Where a name ends depends only on its own bytes: any data that holds the
/// same bytes from `off` to the end of the name (the data cut there, or with
/// bytes appended) gives the same end.
pub proof fn lemma_name_end_local(data: Seq<u8>, other: Seq<u8>, off: int)
    requires
        name_end(data, off) is Some,
        other.len() >= name_end(data, off)->0,
        other.subrange(off, name_end(data, off)->0) == data.subrange(off, name_end(data, off)->0),
    ensures
        name_end(other, off) == name_end(data, off),
    decreases data.len() - off,
{
    lemma_name_end_bounds(data, off);
    let e = name_end(data, off)->0;
    assert(other[off] == other.subrange(off, e)[0]);
    assert(data[off] == data.subrange(off, e)[0]);
    if data[off] != 0 && data[off] < 0xc0 {
        let next = off + 1 + data[off];
        lemma_name_end_bounds(data, next);
        assert(other.subrange(next, e) =~= other.subrange(off, e).subrange(next - off, e - off));
        assert(data.subrange(next, e) =~= data.subrange(off, e).subrange(next - off, e - off));
        lemma_name_end_local(data, other, next);
    }
}

/// Skipping the questions depends only on the bytes up to their end.
proof fn lemma_skip_questions_extended(data: Seq<u8>, extra: Seq<u8>, off: int, n: nat)
    requires
        0 <= off,
        skip_questions(data, off, n) is Some,
    ensures
        skip_questions(data + extra, off, n) == skip_questions(data, off, n),
    decreases n,
{
    if n > 0 {
        let e = name_end(data, off)->0;
        lemma_name_end_bounds(data, off);
        assert((data + extra).subrange(off, e) =~= data.subrange(off, e));
        lemma_name_end_local(data, data + extra, off);
        lemma_skip_questions_extended(data, extra, e + 4, (n - 1) as nat);
    }
}

/// True when `n` answer records start at `off` and each of them, with its
/// name, fixed fields and data, lies inside `data`.
pub open spec fn answers_complete(data: Seq<u8>, off: int, n: nat) -> bool
    decreases n,
{
    if n == 0 {
        true
    } else if off >= data.len() {
        false
    } else {
        match name_end(data, off) {
            None => false,
            Some(e) => e + 10 <= data.len() && e + 10 + be16(data[e + 8], data[e + 9]) <= data.len()
                && answers_complete(data, e + 10 + be16(data[e + 8], data[e + 9]), (n - 1) as nat),
        }
    }
}

/// True when `data` is a whole response: a header announcing answers, its
/// questions, and every announced answer record inside the data.
pub open spec fn complete_response(data: Seq<u8>) -> bool {
    &&& data.len() >= 12
    &&& be16(data[6], data[7]) != 0
    &&& match skip_questions(data, 12, be16(data[4], data[5])) {
        Some(off) => answers_complete(data, off, be16(data[6], data[7])),
        None => false,
    }
}

proof fn lemma_answers_extended(data: Seq<u8>, extra: Seq<u8>, off: int, n: nat)
    requires
        0 <= off,
        answers_complete(data, off, n),
    ensures
        answer_addresses(data + extra, off, n) == answer_addresses(data, off, n),
    decreases n,
{
    if n > 0 {
        let d2 = data + extra;
        let e = name_end(data, off)->0;
        lemma_name_end_bounds(data, off);
        assert(d2.subrange(off, e) =~= data.subrange(off, e));
        lemma_name_end_local(data, d2, off);
        let o = e + 10;
        assert(d2[e] == data[e] && d2[e + 1] == data[e + 1] && d2[e + 8] == data[e + 8] && d2[e + 9]
            == data[e + 9]);
        let rdlength = be16(data[e + 8], data[e + 9]);
        if be16(data[e], data[e + 1]) == 1 && rdlength == 4 {
            assert(d2[o] == data[o] && d2[o + 1] == data[o + 1] && d2[o + 2] == data[o + 2] && d2[o + 3]
                == data[o + 3]);
        }
        lemma_answers_extended(data, extra, o + rdlength, (n - 1) as nat);
    }
}

/// Bytes after a whole response change nothing of what it is read to hold.
pub proof fn lemma_appended_bytes_ignored(data: Seq<u8>, extra: Seq<u8>)
    requires
        complete_response(data),
    ensures
        dns_answer_ips(data + extra) == dns_answer_ips(data),
        dns_answer_ips(data) is Some,
{
    let d2 = data + extra;
    assert(d2[4] == data[4] && d2[5] == data[5] && d2[6] == data[6] && d2[7] == data[7]);
    let qd = be16(data[4], data[5]);
    lemma_skip_questions_extended(data, extra, 12, qd);
    let off = skip_questions(data, 12, qd)->0;
    lemma_answers_extended(data, extra, off, be16(data[6], data[7]));
    lemma_answers_complete_some(data, off, be16(data[6], data[7]));
}

proof fn lemma_answers_complete_some(data: Seq<u8>, off: int, n: nat)
    requires
        answers_complete(data, off, n),
    ensures
        answer_addresses(data, off, n) is Some,
    decreases n,
{
    if n > 0 {
        let e = name_end(data, off)->0;
        lemma_answers_complete_some(data, e + 10 + be16(data[e + 8], data[e + 9]), (n - 1) as nat);
    }
}


/// The answers read from `p` on depend only on the bytes from `p` on.
proof fn lemma_answers_from_suffix(d1: Seq<u8>, d2: Seq<u8>, p: int, k: nat)
    requires
        0 <= p,
        d1.len() == d2.len(),
        forall|i: int| p <= i < d1.len() ==> d1[i] == d2[i],
    ensures
        answer_addresses(d1, p, k) == answer_addresses(d2, p, k),
    decreases k,
{
    if k > 0 && p < d1.len() {
        lemma_name_end_bounds(d1, p);
        lemma_name_end_bounds(d2, p);
        if let Some(e) = name_end(d1, p) {
            assert(d2.subrange(p, e) =~= d1.subrange(p, e));
            lemma_name_end_local(d1, d2, p);
        } else if let Some(e) = name_end(d2, p) {
            assert(d1.subrange(p, e) =~= d2.subrange(p, e));
            lemma_name_end_local(d2, d1, p);
        }
        if let Some(e) = name_end(d1, p) {
            if e + 10 <= d1.len() {
                let rdlength = be16(d1[e + 8], d1[e + 9]);
                lemma_answers_from_suffix(d1, d2, e + 10 + rdlength, (k - 1) as nat);
            }
        }
    }
}

/// An answer record of type A (bytes 00 01) with four bytes of data (length
/// bytes 00 04) that lies inside the message gives its address, whatever
/// name owns it, ahead of the addresses of the records after it.
pub proof fn lemma_a_record_read(data: Seq<u8>, off: int, n: nat, e: int)
    requires
        n > 0,
        0 <= off < data.len(),
        name_end(data, off) == Some(e),
        e + 14 <= data.len(),
        data[e] == 0x00,
        data[e + 1] == 0x01,
        data[e + 8] == 0x00,
        data[e + 9] == 0x04,
    ensures
        answer_addresses(data, off, n) == match answer_addresses(data, e + 14, (n - 1) as nat) {
            None => None,
            Some(rest) => Some(seq![dotted_quad(data[e + 10], data[e + 11], data[e + 12], data[e + 13])] + rest),
        },
{
}

/// Which name owns an answer record does not matter: putting another name
/// of the same length in its place gives the same addresses.
pub proof fn lemma_owner_name_irrelevant(data: Seq<u8>, other: Seq<u8>, off: int, n: nat, e: int)
    requires
        0 <= off,
        name_end(data, off) == Some(e),
        name_end(other, off) == Some(e),
        other.len() == data.len(),
        forall|i: int| 0 <= i < data.len() && !(off <= i < e) ==> other[i] == data[i],
    ensures
        answer_addresses(other, off, n) == answer_addresses(data, off, n),
{
    lemma_name_end_bounds(data, off);
    if n > 0 && e + 10 <= data.len() {
        let rdlength = be16(data[e + 8], data[e + 9]);
        assert(other[e + 8] == data[e + 8] && other[e + 9] == data[e + 9]);
        assert(other[e] == data[e] && other[e + 1] == data[e + 1]);
        if e + 14 <= data.len() {
            assert(other[e + 10] == data[e + 10] && other[e + 11] == data[e + 11] && other[e + 12] == data[e
                + 12] && other[e + 13] == data[e + 13]);
        }
        lemma_answers_from_suffix(data, other, e + 10 + rdlength, (n - 1) as nat);
    }
}

} // verus!
