//! mDNS (RFC 6762) query packets and response records.
use vstd::prelude::*;
use vstd::string::StringSliceAdditionalSpecFns;
use crate::localnet::{Ipv4Address, octets_value};
use crate::text::{
    ascii_chars, chars_of, decode_lossy, is_ascii_bytes, join, join_chars, string_of, utf8_lossy,
    views,
};
use crate::types::{NetworkError, NetworkErrorView};

verus! {

broadcast use vstd::string::group_string_axioms;

/// Multicast group and port used by mDNS (RFC 6762).
pub const MDNS_GROUP: &'static str = "224.0.0.251";

pub const MDNS_PORT: u16 = 5353;

pub const TYPE_PTR: u16 = 12;

pub const TYPE_A: u16 = 1;

/// The length of a text without its trailing dots.
pub open spec fn without_trailing_dots(b: Seq<u8>, j: int) -> int
    decreases j,
{
    if 0 < j <= b.len() && b[j - 1] == 0x2E {
        without_trailing_dots(b, j - 1)
    } else {
        j
    }
}

proof fn lemma_without_trailing_dots(b: Seq<u8>, j: int)
    requires
        0 <= j <= b.len(),
    ensures
        0 <= without_trailing_dots(b, j) <= j,
    decreases j,
{
    if 0 < j && b[j - 1] == 0x2E {
        lemma_without_trailing_dots(b, j - 1);
    }
}

/// Index of the first `.` at or after `i`, or the length.
pub open spec fn find_dot(s: Seq<u8>, i: int) -> int
    decreases s.len() - i,
{
    if 0 <= i < s.len() && s[i] != 0x2E {
        find_dot(s, i + 1)
    } else {
        i
    }
}

proof fn lemma_find_dot(s: Seq<u8>, i: int)
    requires
        0 <= i <= s.len(),
    ensures
        i <= find_dot(s, i) <= s.len(),
        find_dot(s, i) < s.len() ==> s[find_dot(s, i)] == 0x2E,
    decreases s.len() - i,
{
    if i < s.len() && s[i] != 0x2E {
        lemma_find_dot(s, i + 1);
    }
}

/// The wire form of a dotted name from position `i`: each label preceded
/// by its length; no form when a label is empty or longer than 63 bytes.
pub open spec fn encode_labels(s: Seq<u8>, i: int) -> Option<Seq<u8>>
    decreases s.len() - i,
{
    let j = find_dot(s, i);
    if i < 0 || i > s.len() || j < i || j > s.len() {
        None
    } else {
        let label = s.subrange(i, j);
        if label.len() == 0 || label.len() > 63 {
            None
        } else if j >= s.len() {
            Some(seq![label.len() as u8] + label)
        } else {
            match encode_labels(s, j + 1) {
                Some(rest) => Some(seq![label.len() as u8] + label + rest),
                None => None,
            }
        }
    }
}

/// The bytes of `.local`.
pub open spec fn dot_local() -> Seq<u8> {
    seq![0x2Eu8, 0x6C, 0x6F, 0x63, 0x61, 0x6C]
}

/// The header of a query: the id, standard query flags, one question.
pub open spec fn query_header(id: u16) -> Seq<u8> {
    seq![(id / 256) as u8, (id % 256) as u8, 0, 0, 0, 1, 0, 0, 0, 0, 0, 0]
}

/// A DNS query for the PTR records of `<name>.local`: the header (the id,
/// standard query flags, one question), the encoded name, then type PTR and
/// class IN. There is no packet when a label of the name is empty or longer
/// than 63 bytes.
pub open spec fn spec_build_query(name: Seq<u8>, id: u16) -> Option<Seq<u8>> {
    let full = name.take(without_trailing_dots(name, name.len() as int)) + dot_local();
    match encode_labels(full, 0) {
        Some(qname) => Some(
            query_header(id) + qname + seq![
                0u8,
                0,
                12,
                0,
                1,
            ],
        ),
        None => None,
    }
}

/// Builds a DNS query packet asking for PTR records of `name`.
///
/// The name is given without the trailing `.local` root, e.g. `_http._tcp`;
/// the `.local` label is appended automatically.
pub fn build_query(name: &str, id: u16) -> (r: Option<Vec<u8>>)
    ensures
        r.is_some() == spec_build_query(name.spec_bytes(), id).is_some(),
        r matches Some(p) ==> Some(p@) == spec_build_query(name.spec_bytes(), id),
{
    let bytes = name.as_bytes();
    let mut end = bytes.len();
    while end > 0 && bytes[end - 1] == 0x2E
        invariant
            end <= bytes.len(),
            without_trailing_dots(bytes@, end as int) == without_trailing_dots(
                bytes@,
                bytes@.len() as int,
            ),
        decreases end,
    {
        end -= 1;
    }
    assert(without_trailing_dots(bytes@, end as int) == end);
    let mut full: Vec<u8> = Vec::new();
    let mut i: usize = 0;
    while i < end
        invariant
            i <= end <= bytes.len(),
            full@ == bytes@.take(i as int),
        decreases end - i,
    {
        full.push(bytes[i]);
        i += 1;
    }
    full.push(0x2E);
    full.push(0x6C);
    full.push(0x6F);
    full.push(0x63);
    full.push(0x61);
    full.push(0x6C);
    let ghost fv = bytes@.take(end as int) + dot_local();
    assert(full@ == fv);
    let mut packet: Vec<u8> = Vec::new();
    packet.push((id / 256) as u8);
    packet.push((id % 256) as u8);
    packet.push(0);
    packet.push(0);
    packet.push(0);
    packet.push(1);
    packet.push(0);
    packet.push(0);
    packet.push(0);
    packet.push(0);
    packet.push(0);
    packet.push(0);
    let ghost header = packet@;
    assert(header == query_header(id));
    let mut start: usize = 0;
    loop
        invariant
            start < full.len(),
            full@ == fv,
            fv == bytes@.take(end as int) + dot_local(),
            end <= bytes.len(),
            bytes@ == name.spec_bytes(),
            end == without_trailing_dots(name.spec_bytes(), name.spec_bytes().len() as int),
            packet@.len() >= 12,
            encode_labels(fv, 0) == match encode_labels(fv, start as int) {
                Some(rest) => Some(packet@.skip(12) + rest),
                None => None::<Seq<u8>>,
            },
            packet@.take(12) == header,
            header == query_header(id),
        decreases full.len() - start,
    {
        let mut j = start;
        while j < full.len() && full[j] != 0x2E
            invariant
                start <= j <= full.len(),
                find_dot(fv, j as int) == find_dot(fv, start as int),
                full@ == fv,
            decreases full.len() - j,
        {
            j += 1;
        }
        proof {
            lemma_find_dot(fv, start as int);
        }
        assert(find_dot(fv, j as int) == j);
        let len = j - start;
        if len == 0 || len > 63 {
            return None;
        }
        let ghost before = packet@;
        packet.push(len as u8);
        let mut k = start;
        while k < j
            invariant
                start <= k <= j <= full.len(),
                full@ == fv,
                packet@ == before + seq![len as u8] + fv.subrange(start as int, k as int),
            decreases j - k,
        {
            packet.push(full[k]);
            k += 1;
        }
        assert(packet@.skip(12) == before.skip(12) + seq![len as u8] + fv.subrange(
            start as int,
            j as int,
        ));
        assert(packet@.take(12) == before.take(12));
        if j >= full.len() {
            packet.push(0);
            packet.push(0);
            packet.push(12);
            packet.push(0);
            packet.push(1);
            assert(packet@ == header + encode_labels(fv, 0).unwrap() + seq![0u8, 0, 12, 0, 1]);
            return Some(packet);
        }
        start = j + 1;
        assert(start < full.len()) by {
            let t = bytes@.take(end as int);
            assert(fv.len() == t.len() + 6);
            assert(fv[fv.len() - 1] == dot_local()[5]);
        }
    }
}


/// The text of a label as `String::from_utf8_lossy` decodes it: an ASCII
/// label as it is.
pub open spec fn label_text(b: Seq<u8>) -> Seq<char> {
    if is_ascii_bytes(b) {
        ascii_chars(b)
    } else {
        utf8_lossy(b)
    }
}

/// Reads a (possibly compressed) DNS name from `offset` on, with the labels
/// read so far, the number of compression pointers followed and, once one
/// was followed, the position after the first pointer. A zero byte ends the
/// name; a byte of 192 or more starts a two-byte pointer; any other byte is
/// the length of a label. More than 32 pointers, or running past the
/// buffer, gives nothing. The result is the labels and where reading goes on.
pub open spec fn walk_name(
    buf: Seq<u8>,
    offset: int,
    hops: int,
    after_jump: Option<int>,
    labels: Seq<Seq<char>>,
) -> Option<(Seq<Seq<char>>, int)>
    decreases 33 - hops, buf.len() - offset,
{
    if offset < 0 || offset >= buf.len() || hops > 32 || hops < 0 {
        None
    } else if buf[offset] == 0 {
        Some(
            (
                labels,
                match after_jump {
                    Some(n) => n,
                    None => offset + 1,
                },
            ),
        )
    } else if buf[offset] >= 0xC0 {
        if offset + 1 >= buf.len() {
            None
        } else {
            let pointer = (buf[offset] - 0xC0) * 256 + buf[offset + 1];
            walk_name(
                buf,
                pointer,
                hops + 1,
                match after_jump {
                    Some(n) => Some(n),
                    None => Some(offset + 2),
                },
                labels,
            )
        }
    } else {
        let end = offset + 1 + buf[offset];
        if end > buf.len() {
            None
        } else {
            walk_name(
                buf,
                end,
                hops,
                after_jump,
                labels.push(label_text(buf.subrange(offset + 1, end))),
            )
        }
    }
}

/// The dotted name at `start` and the position after it.
pub open spec fn spec_read_name(buf: Seq<u8>, start: int) -> Option<(Seq<char>, int)> {
    match walk_name(buf, start, 0, None, Seq::empty()) {
        Some((labels, next)) => Some((join(labels, seq!['.']), next)),
        None => None,
    }
}

/// Reads a DNS name at `start`; returns the dotted name and the position
/// after it.
pub fn read_name(buf: &[u8], start: usize) -> (r: Option<(String, usize)>)
    requires
        buf@.len() <= isize::MAX,
    ensures
        match r {
            Some((name, next)) => spec_read_name(buf@, start as int) == Some(
                (name@, next as int),
            ),
            None => spec_read_name(buf@, start as int).is_none(),
        },
{
    let mut labels: Vec<Vec<char>> = Vec::new();
    let mut offset = start;
    let mut jumped = false;
    let mut next_after_jump: usize = 0;
    let mut hops: usize = 0;
    assert(views(labels@) == Seq::<Seq<char>>::empty());
    loop
        invariant
            buf@.len() <= isize::MAX,
            hops <= 33,
            jumped ==> next_after_jump <= buf@.len() + 1,
            walk_name(
                buf@,
                offset as int,
                hops as int,
                if jumped {
                    Some(next_after_jump as int)
                } else {
                    None
                },
                views(labels@),
            ) == walk_name(buf@, start as int, 0, None, Seq::empty()),
        decreases 33 - hops, buf@.len() - offset,
    {
        if offset >= buf.len() || hops > 32 {
            return None;
        }
        let len = buf[offset];
        if len == 0 {
            let next = if jumped {
                next_after_jump
            } else {
                offset + 1
            };
            let mut dot: Vec<char> = Vec::new();
            dot.push('.');
            assert(dot@ == seq!['.']);
            let name = join_chars(&labels, &dot);
            return Some((string_of(&name), next));
        } else if len >= 0xC0 {
            if offset + 1 >= buf.len() {
                return None;
            }
            let pointer = ((len - 0xC0) as usize) * 256 + buf[offset + 1] as usize;
            if !jumped {
                next_after_jump = offset + 2;
                jumped = true;
            }
            offset = pointer;
            hops += 1;
        } else {
            let end = offset + 1 + len as usize;
            if end > buf.len() {
                return None;
            }
            let label = decode_lossy(&buf[offset + 1..end]);
            let ghost before = labels@;
            labels.push(label);
            assert(views(labels@) == views(before).push(label@));
            offset = end;
        }
    }
}

/// The big-endian 16-bit value at `offset`, when two bytes are there.
pub open spec fn spec_read_u16(buf: Seq<u8>, offset: int) -> Option<u16> {
    if 0 <= offset && offset + 2 <= buf.len() {
        Some((buf[offset] * 256 + buf[offset + 1]) as u16)
    } else {
        None
    }
}

pub fn read_u16(buf: &[u8], offset: usize) -> (r: Option<u16>)
    requires
        offset + 2 <= usize::MAX,
    ensures
        r == spec_read_u16(buf@, offset as int),
{
    if offset + 2 <= buf.len() {
        Some((buf[offset] as u16) * 256 + buf[offset + 1] as u16)
    } else {
        None
    }
}


proof fn lemma_walk_name_next(
    buf: Seq<u8>,
    offset: int,
    hops: int,
    after_jump: Option<int>,
    labels: Seq<Seq<char>>,
)
    requires
        after_jump matches Some(n) ==> 0 <= n <= buf.len(),
    ensures
        walk_name(buf, offset, hops, after_jump, labels) matches Some((_, next)) ==> 0 <= next
            <= buf.len(),
    decreases 33 - hops, buf.len() - offset,
{
    if offset < 0 || offset >= buf.len() || hops > 32 || hops < 0 {
    } else if buf[offset] == 0 {
    } else if buf[offset] >= 0xC0 {
        if offset + 1 < buf.len() {
            let pointer = (buf[offset] - 0xC0) * 256 + buf[offset + 1];
            lemma_walk_name_next(
                buf,
                pointer,
                hops + 1,
                match after_jump {
                    Some(n) => Some(n),
                    None => Some(offset + 2),
                },
                labels,
            );
        }
    } else {
        let end = offset + 1 + buf[offset];
        if end <= buf.len() {
            lemma_walk_name_next(
                buf,
                end,
                hops,
                after_jump,
                labels.push(label_text(buf.subrange(offset + 1, end))),
            );
        }
    }
}

/// Reading goes on after a name at most at the end of the buffer.
pub proof fn lemma_read_name_next(buf: Seq<u8>, start: int)
    ensures
        spec_read_name(buf, start) matches Some((_, next)) ==> 0 <= next <= buf.len(),
{
    lemma_walk_name_next(buf, start, 0, None, Seq::empty());
}

/// The dot-separated labels of a name from position `i`.
pub open spec fn dot_labels(s: Seq<u8>, i: int) -> Seq<Seq<u8>>
    decreases s.len() - i,
{
    let j = find_dot(s, i);
    if i < 0 || i > s.len() || j < i || j > s.len() {
        Seq::empty()
    } else if j >= s.len() {
        seq![s.subrange(i, j)]
    } else {
        seq![s.subrange(i, j)] + dot_labels(s, j + 1)
    }
}

/// Labels as text, each decoded as `read_name` decodes it.
pub open spec fn decoded(ls: Seq<Seq<u8>>) -> Seq<Seq<char>> {
    ls.map_values(|l: Seq<u8>| label_text(l))
}

/// The name `build_query` asks for: `name` without trailing dots, then
/// `.local`.
pub open spec fn query_name(name: Seq<u8>) -> Seq<u8> {
    name.take(without_trailing_dots(name, name.len() as int)) + dot_local()
}

/// A label can be encoded when it has 1 to 63 bytes.
pub open spec fn encodable(ls: Seq<Seq<u8>>) -> bool {
    forall|k: int| 0 <= k < ls.len() ==> 1 <= (#[trigger] ls[k]).len() <= 63
}

proof fn lemma_encode_labels(s: Seq<u8>, i: int)
    requires
        0 <= i <= s.len(),
    ensures
        encode_labels(s, i).is_some() <==> encodable(dot_labels(s, i)),
        dot_labels(s, i).len() > 0,
    decreases s.len() - i,
{
    lemma_find_dot(s, i);
    let j = find_dot(s, i);
    if j < s.len() {
        lemma_encode_labels(s, j + 1);
        let ls = dot_labels(s, i);
        let rest = dot_labels(s, j + 1);
        assert(ls == seq![s.subrange(i, j)] + rest);
        if encodable(ls) {
            assert(ls[0] == s.subrange(i, j));
            assert forall|k: int| 0 <= k < rest.len() implies 1 <= (#[trigger] rest[k]).len() <= 63 by {
                assert(ls[k + 1] == rest[k]);
            }
        }
        if encode_labels(s, i).is_some() {
            assert forall|k: int| 0 <= k < ls.len() implies 1 <= (#[trigger] ls[k]).len() <= 63 by {
                if k > 0 {
                    assert(ls[k] == rest[k - 1]);
                }
            }
        }
    } else {
        let ls = dot_labels(s, i);
        assert(ls == seq![s.subrange(i, j)]);
        if encodable(ls) {
            assert(ls[0] == s.subrange(i, j));
        }
    }
}

proof fn lemma_walk_encoded(
    s: Seq<u8>,
    i: int,
    q: Seq<u8>,
    buf: Seq<u8>,
    offset: int,
    acc: Seq<Seq<char>>,
)
    requires
        0 <= i <= s.len(),
        encode_labels(s, i) == Some(q),
        0 <= offset,
        offset + q.len() < buf.len(),
        buf.subrange(offset, offset + q.len()) == q,
        buf[offset + q.len()] == 0,
    ensures
        walk_name(buf, offset, 0, None, acc) == Some(
            (acc + decoded(dot_labels(s, i)), offset + q.len() + 1),
        ),
    decreases s.len() - i,
{
    lemma_find_dot(s, i);
    let j = find_dot(s, i);
    let label = s.subrange(i, j);
    let n = label.len();
    assert(q[0] == buf[offset]);
    assert(q[0] == n as u8);
    let end = offset + 1 + n;
    assert(buf.subrange(offset + 1, end) =~= label) by {
        assert forall|k: int| 0 <= k < n implies buf.subrange(offset + 1, end)[k] == label[k] by {
            assert(buf[offset + 1 + k] == q[1 + k]);
        }
    }
    let acc2 = acc.push(label_text(label));
    if j >= s.len() {
        assert(q.len() == 1 + n);
        assert(dot_labels(s, i) == seq![label]);
        assert(decoded(seq![label]) =~= seq![label_text(label)]);
        assert(acc + seq![label_text(label)] =~= acc2);
        assert(walk_name(buf, end, 0, None, acc2) == Some((acc2, end + 1)));
    } else {
        let rest = encode_labels(s, j + 1).unwrap();
        assert(q == seq![n as u8] + label + rest);
        assert(buf.subrange(end, end + rest.len()) =~= rest) by {
            assert forall|k: int| 0 <= k < rest.len() implies buf.subrange(end, end + rest.len())[k]
                == rest[k] by {
                assert(buf[end + k] == q[1 + n + k]);
            }
        }
        assert(buf[end + rest.len()] == 0);
        lemma_walk_encoded(s, j + 1, rest, buf, end, acc2);
        assert(dot_labels(s, i) == seq![label] + dot_labels(s, j + 1));
        assert(decoded(dot_labels(s, i)) =~= seq![label_text(label)] + decoded(dot_labels(s, j + 1)));
        assert(acc + decoded(dot_labels(s, i)) =~= acc2 + decoded(dot_labels(s, j + 1)));
    }
}

proof fn lemma_join_front(a: Seq<char>, rest: Seq<Seq<char>>, sep: Seq<char>)
    requires
        rest.len() > 0,
    ensures
        join(seq![a] + rest, sep) == a + sep + join(rest, sep),
    decreases rest.len(),
{
    let t = seq![a] + rest;
    assert(t.len() >= 2);
    if rest.len() == 1 {
        assert(t.drop_last() =~= seq![a]);
        assert(join(seq![a], sep) == a);
        assert(t.last() == rest[0]);
        assert(join(rest, sep) == rest[0]);
        assert(join(t, sep) == join(t.drop_last(), sep) + sep + t.last());
    } else {
        assert(t.drop_last() =~= seq![a] + rest.drop_last());
        assert(t.last() == rest.last());
        lemma_join_front(a, rest.drop_last(), sep);
        assert(join(t, sep) == join(t.drop_last(), sep) + sep + t.last());
        assert(join(rest, sep) == join(rest.drop_last(), sep) + sep + rest.last());
        assert(a + sep + join(rest.drop_last(), sep) + sep + rest.last() =~= a + sep + (join(
            rest.drop_last(),
            sep,
        ) + sep + rest.last()));
    }
}

proof fn lemma_dot_labels_text(s: Seq<u8>, i: int)
    requires
        0 <= i <= s.len(),
        is_ascii_bytes(s),
    ensures
        join(decoded(dot_labels(s, i)), seq!['.']) == ascii_chars(s.subrange(i, s.len() as int)),
    decreases s.len() - i,
{
    lemma_find_dot(s, i);
    let j = find_dot(s, i);
    let label = s.subrange(i, j);
    assert(is_ascii_bytes(label)) by {
        assert forall|k: int| 0 <= k < label.len() implies #[trigger] label[k] < 0x80 by {
            assert(label[k] == s[i + k]);
        }
    }
    if j >= s.len() {
        assert(dot_labels(s, i) == seq![label]);
        assert(decoded(seq![label]) =~= seq![ascii_chars(label)]);
    } else {
        lemma_encode_labels(s, j + 1);
        lemma_dot_labels_text(s, j + 1);
        let rest = dot_labels(s, j + 1);
        assert(dot_labels(s, i) == seq![label] + rest);
        assert(decoded(seq![label] + rest) =~= seq![ascii_chars(label)] + decoded(rest));
        lemma_join_front(ascii_chars(label), decoded(rest), seq!['.']);
        assert((s[j] as char) == '.');
        assert(ascii_chars(s.subrange(i, s.len() as int)) =~= ascii_chars(label) + seq!['.']
            + ascii_chars(s.subrange(j + 1, s.len() as int)));
    }
}

/// A query packet exists exactly when every label of `name.local` has 1 to
/// 63 bytes, and reading the name of a built query back gives those labels
/// (each decoded as text) joined with dots, with the type and class after
/// it; for an ASCII name that is `name.local` itself.
pub proof fn lemma_query_name_round_trip(name: Seq<u8>, id: u16)
    ensures
        spec_build_query(name, id).is_some() <==> encodable(dot_labels(query_name(name), 0)),
        spec_build_query(name, id) matches Some(p) ==> spec_read_name(p, 12) == Some(
            (join(decoded(dot_labels(query_name(name), 0)), seq!['.']), p.len() - 4),
        ),
        is_ascii_bytes(name) ==> (spec_build_query(name, id) matches Some(p) ==> spec_read_name(
            p,
            12,
        ) == Some((ascii_chars(query_name(name)), p.len() - 4))),
{
    let full = query_name(name);
    lemma_encode_labels(full, 0);
    if is_ascii_bytes(name) {
        lemma_without_trailing_dots(name, name.len() as int);
        assert(is_ascii_bytes(full)) by {
            let t = name.take(without_trailing_dots(name, name.len() as int));
            assert forall|k: int| 0 <= k < full.len() implies #[trigger] full[k] < 0x80 by {
                if k < t.len() {
                    assert(full[k] == name[k]);
                }
            }
        }
        lemma_dot_labels_text(full, 0);
        assert(full.subrange(0, full.len() as int) =~= full);
    }
    match encode_labels(full, 0) {
        Some(q) => {
            let p = query_header(id) + q + seq![0u8, 0, 12, 0, 1];
            assert(p.subrange(12, 12 + q.len() as int) =~= q);
            assert(p[12 + q.len() as int] == 0);
            lemma_walk_encoded(full, 0, q, p, 12, Seq::empty());
            assert(Seq::<Seq<char>>::empty() + decoded(dot_labels(full, 0)) =~= decoded(
                dot_labels(full, 0),
            ));
        },
        None => {},
    }
}

/// One parsed resource record of an mDNS response.
#[derive(Debug, Clone)]
pub struct MdnsRecord {
    pub owner: String,
    pub record_type: u16,
    /// Target name for PTR records.
    pub ptr_target: Option<String>,
    /// Address for A records.
    pub ipv4: Option<Ipv4Address>,
}

pub struct MdnsRecordView {
    pub owner: Seq<char>,
    pub record_type: u16,
    pub ptr_target: Option<Seq<char>>,
    pub ipv4: Option<Ipv4Address>,
}

impl View for MdnsRecord {
    type V = MdnsRecordView;

    open spec fn view(&self) -> MdnsRecordView {
        MdnsRecordView {
            owner: self.owner@,
            record_type: self.record_type,
            ptr_target: match self.ptr_target {
                Some(t) => Some(t@),
                None => None,
            },
            ipv4: self.ipv4,
        }
    }
}

pub open spec fn record_views(v: Seq<MdnsRecord>) -> Seq<MdnsRecordView> {
    v.map_values(|r: MdnsRecord| r@)
}

/// The resource record at `offset` and where the next one starts: the owner
/// name, type and class, then the data length and data. An A record carries
/// the four address bytes, a PTR record the target name.
pub open spec fn spec_parse_record(buf: Seq<u8>, offset: int) -> Option<(MdnsRecordView, int)> {
    match spec_read_name(buf, offset) {
        None => None,
        Some((owner, o)) => match (spec_read_u16(buf, o), spec_read_u16(buf, o + 2)) {
            (Some(record_type), Some(_)) => {
                let rdlength = match spec_read_u16(buf, o + 8) {
                    Some(l) => l as int,
                    None => 0,
                };
                let rdata_start = o + 10;
                let rdata_end = rdata_start + rdlength;
                if rdata_end > buf.len() {
                    None
                } else {
                    let ipv4 = if record_type == TYPE_A && rdata_start + 4 <= buf.len() {
                        Some(
                            Ipv4Address {
                                bits: octets_value(
                                    buf[rdata_start],
                                    buf[rdata_start + 1],
                                    buf[rdata_start + 2],
                                    buf[rdata_start + 3],
                                ) as u32,
                            },
                        )
                    } else {
                        None
                    };
                    let ptr_target = if record_type == TYPE_PTR {
                        match spec_read_name(buf, rdata_start) {
                            Some((target, _)) => Some(target),
                            None => None,
                        }
                    } else {
                        None
                    };
                    Some(
                        (
                            MdnsRecordView { owner, record_type, ptr_target, ipv4 },
                            rdata_end,
                        ),
                    )
                }
            },
            _ => None,
        },
    }
}

/// The position after `n` questions from `offset`.
pub open spec fn skip_questions(buf: Seq<u8>, offset: int, n: nat) -> Option<int>
    decreases n,
{
    if n == 0 {
        Some(offset)
    } else {
        match spec_read_name(buf, offset) {
            Some((_, next)) => skip_questions(buf, next + 4, (n - 1) as nat),
            None => None,
        }
    }
}

/// Up to `n` records from `offset`, stopping at the first malformed one.
pub open spec fn records_from(buf: Seq<u8>, offset: int, n: nat) -> Seq<MdnsRecordView>
    decreases n,
{
    if n == 0 {
        Seq::empty()
    } else {
        match spec_parse_record(buf, offset) {
            Some((r, next)) => seq![r] + records_from(buf, next, (n - 1) as nat),
            None => Seq::empty(),
        }
    }
}

/// The 16-bit header field at `offset`.
pub open spec fn header_field(buf: Seq<u8>, offset: int) -> nat {
    (buf[offset] * 256 + buf[offset + 1]) as nat
}

/// The records of a response: after the questions, as many answer,
/// authority and additional records as the header counts, up to the first
/// malformed one; nothing when the header or a question is malformed.
pub open spec fn spec_parse_response(buf: Seq<u8>) -> Seq<MdnsRecordView> {
    if buf.len() < 12 {
        Seq::empty()
    } else {
        match skip_questions(buf, 12, header_field(buf, 4)) {
            Some(o) => records_from(
                buf,
                o,
                header_field(buf, 6) + header_field(buf, 8) + header_field(buf, 10),
            ),
            None => Seq::empty(),
        }
    }
}

fn parse_record(buf: &[u8], offset: usize) -> (r: Option<(MdnsRecord, usize)>)
    requires
        buf@.len() <= isize::MAX,
    ensures
        match r {
            Some((rec, next)) => spec_parse_record(buf@, offset as int) == Some(
                (rec@, next as int),
            ) && next <= buf@.len(),
            None => spec_parse_record(buf@, offset as int).is_none(),
        },
{
    proof {
        lemma_read_name_next(buf@, offset as int);
    }
    let (owner, o) = match read_name(buf, offset) {
        Some(x) => x,
        None => return None,
    };
    let record_type = match read_u16(buf, o) {
        Some(t) => t,
        None => return None,
    };
    match read_u16(buf, o + 2) {
        Some(_) => {},
        None => return None,
    }
    let rdlength = match read_u16(buf, o + 8) {
        Some(l) => l as usize,
        None => 0,
    };
    let rdata_start = o + 10;
    let rdata_end = rdata_start + rdlength;
    if rdata_end > buf.len() {
        return None;
    }
    let ipv4 = if record_type == TYPE_A && rdata_start + 4 <= buf.len() {
        Some(
            Ipv4Address::new(
                buf[rdata_start],
                buf[rdata_start + 1],
                buf[rdata_start + 2],
                buf[rdata_start + 3],
            ),
        )
    } else {
        None
    };
    let ptr_target = if record_type == TYPE_PTR {
        match read_name(buf, rdata_start) {
            Some((target, _)) => Some(target),
            None => None,
        }
    } else {
        None
    };
    Some((MdnsRecord { owner, record_type, ptr_target, ipv4 }, rdata_end))
}

/// Parses all resource records from an mDNS response packet.
///
/// Questions are skipped; answers, additional and authority sections are
/// collected. Returns an empty vector for malformed packets instead of
/// failing hard.
pub fn parse_response(buf: &[u8]) -> (r: Vec<MdnsRecord>)
    requires
        buf@.len() <= isize::MAX,
    ensures
        record_views(r@) == spec_parse_response(buf@),
{
    let mut records: Vec<MdnsRecord> = Vec::new();
    if buf.len() < 12 {
        assert(record_views(records@) == Seq::<MdnsRecordView>::empty());
        return records;
    }
    let qd = (buf[4] as u32) * 256 + buf[5] as u32;
    let total = ((buf[6] as u32) * 256 + buf[7] as u32) + ((buf[8] as u32) * 256 + buf[9] as u32)
        + ((buf[10] as u32) * 256 + buf[11] as u32);
    let mut offset: usize = 12;
    let mut i: u32 = 0;
    while i < qd
        invariant
            buf@.len() <= isize::MAX,
            buf@.len() >= 12,
            i <= qd,
            qd == header_field(buf@, 4),
            offset <= buf@.len() + 4,
            records@ == Seq::<MdnsRecord>::empty(),
            skip_questions(buf@, 12, qd as nat) == skip_questions(
                buf@,
                offset as int,
                (qd - i) as nat,
            ),
        decreases qd - i,
    {
        proof {
            lemma_read_name_next(buf@, offset as int);
        }
        match read_name(buf, offset) {
            Some((_, next)) => {
                offset = next + 4;
            },
            None => {
                assert(record_views(records@) == Seq::<MdnsRecordView>::empty());
                return records;
            },
        }
        i += 1;
    }
    let ghost start = offset;
    let mut k: u32 = 0;
    assert(record_views(records@) == Seq::<MdnsRecordView>::empty());
    assert(skip_questions(buf@, 12, header_field(buf@, 4)) == Some(start as int));
    while k < total
        invariant
            buf@.len() <= isize::MAX,
            buf@.len() >= 12,
            skip_questions(buf@, 12, header_field(buf@, 4)) == Some(start as int),
            total == header_field(buf@, 6) + header_field(buf@, 8) + header_field(buf@, 10),
            k <= total,
            offset <= buf@.len() + 4,
            record_views(records@) + records_from(buf@, offset as int, (total - k) as nat)
                == records_from(buf@, start as int, total as nat),
        decreases total - k,
    {
        match parse_record(buf, offset) {
            Some((rec, next)) => {
                let ghost before = records@;
                let ghost rv = rec@;
                records.push(rec);
                assert(record_views(records@) == record_views(before).push(rv));
                assert(records_from(buf@, offset as int, (total - k) as nat) == seq![rv]
                    + records_from(buf@, next as int, (total - k - 1) as nat));
                offset = next;
            },
            None => {
                assert(records_from(buf@, offset as int, (total - k) as nat)
                    == Seq::<MdnsRecordView>::empty());
                assert(record_views(records@) + Seq::<MdnsRecordView>::empty() == record_views(
                    records@,
                ));
                return records;
            },
        }
        k += 1;
    }
    assert(record_views(records@) + Seq::<MdnsRecordView>::empty() == record_views(records@));
    records
}


/// A packet shorter than a DNS header holds no records.
pub proof fn lemma_short_packet_empty(buf: Seq<u8>)
    requires
        buf.len() < 12,
    ensures
        spec_parse_response(buf).len() == 0,
{
}

/// A malformed record ends the parse: no record after it is read.
pub proof fn lemma_records_stop_at_malformed(buf: Seq<u8>, offset: int, n: nat)
    requires
        n > 0,
        spec_parse_record(buf, offset) is None,
    ensures
        records_from(buf, offset, n).len() == 0,
{
}


/// Whether `n` records parse one after another from `offset`.
pub open spec fn records_parse(buf: Seq<u8>, offset: int, n: nat) -> bool
    decreases n,
{
    n == 0 || match spec_parse_record(buf, offset) {
        Some((_, next)) => records_parse(buf, next, (n - 1) as nat),
        None => false,
    }
}

proof fn lemma_records_from_len(buf: Seq<u8>, offset: int, n: nat)
    requires
        records_parse(buf, offset, n),
    ensures
        records_from(buf, offset, n).len() == n,
    decreases n,
{
    if n > 0 {
        let (_, next) = spec_parse_record(buf, offset).unwrap();
        lemma_records_from_len(buf, next, (n - 1) as nat);
    }
}

/// A response reports every record its header counts: when the questions
/// can be skipped and the answer, authority and additional records that
/// follow all parse, the parse gives ANCOUNT + NSCOUNT + ARCOUNT records
/// (header bytes 6 to 11).
pub proof fn lemma_response_reads_all_sections(buf: Seq<u8>)
    ensures
        buf.len() >= 12 ==> (skip_questions(buf, 12, (buf[4] * 256 + buf[5]) as nat) matches Some(o)
            ==> (records_parse(
            buf,
            o,
            (buf[6] * 256 + buf[7] + buf[8] * 256 + buf[9] + buf[10] * 256 + buf[11]) as nat,
        ) ==> spec_parse_response(buf).len() == buf[6] * 256 + buf[7] + buf[8] * 256 + buf[9]
            + buf[10] * 256 + buf[11])),
{
    if buf.len() >= 12 {
        let total = (buf[6] * 256 + buf[7] + buf[8] * 256 + buf[9] + buf[10] * 256 + buf[11]) as nat;
        match skip_questions(buf, 12, (buf[4] * 256 + buf[5]) as nat) {
            Some(o) => {
                if records_parse(buf, o, total) {
                    lemma_records_from_len(buf, o, total);
                }
            },
            None => {},
        }
    }
}

/// A built query is a standard query with one question and no records:
/// the id in bytes 0 and 1, zero flags, QDCOUNT 1 and ANCOUNT, NSCOUNT and
/// ARCOUNT 0, and it ends with type PTR and class IN.
pub proof fn lemma_query_header(name: Seq<u8>, id: u16)
    ensures
        spec_build_query(name, id) matches Some(p) ==> {
            &&& p.len() > 16
            &&& p[0] * 256 + p[1] == id
            &&& p[2] == 0 && p[3] == 0
            &&& p[4] == 0 && p[5] == 1
            &&& p[6] == 0 && p[7] == 0 && p[8] == 0 && p[9] == 0 && p[10] == 0 && p[11] == 0
            &&& p[p.len() - 4] == 0 && p[p.len() - 3] == 12
            &&& p[p.len() - 2] == 0 && p[p.len() - 1] == 1
        },
{
    match spec_build_query(name, id) {
        Some(p) => {
            let q = encode_labels(query_name(name), 0).unwrap();
            lemma_encode_labels(query_name(name), 0);
            assert(q.len() > 0) by {
                lemma_find_dot(query_name(name), 0);
            }
            assert(p == query_header(id) + q + seq![0u8, 0, 12, 0, 1]);
            assert((id / 256) * 256 + id % 256 == id);
        },
        None => {},
    }
}

/// The query packet for `service` with transaction `id`, or a `ParseError`
/// naming the service when it cannot be encoded.
pub fn query_packet(service: &str, id: u16) -> (r: Result<Vec<u8>, NetworkError>)
    ensures
        match spec_build_query(service.spec_bytes(), id) {
            Some(p) => r matches Ok(x) && x@ == p,
            None => r matches Err(e) && e@ == NetworkErrorView::ParseError(
                "invalid service name "@ + service@,
            ),
        },
{
    match build_query(service, id) {
        Some(p) => Ok(p),
        None => {
            let mut msg = chars_of("invalid service name ");
            msg.append(&mut chars_of(service));
            Err(NetworkError::ParseError(string_of(&msg)))
        },
    }
}

} // verus!
