//! The byte-level building blocks of the vault's file format.
//!
//! A message is a run of fields in ascending field order. A field is one tag
//! byte followed by a base-128 varint or by a length-delimited payload, and a
//! field that holds its default value (zero, or no bytes) does not appear at
//! all. Every value has exactly one encoding: the readers here turn down
//! padded varints and fields written out with their default value.
use vstd::prelude::*;

verus! {

/// The base-128 encoding of `v`: seven bits per byte, lowest group first, the
/// high bit set on every byte but the last.
pub open spec fn varint(v: nat) -> Seq<u8>
    decreases v,
{
    if v < 128 {
        seq![v as u8]
    } else {
        seq![(v % 128 + 128) as u8] + varint(v / 128)
    }
}

/// Reads one varint from the front of `b`: the value and the number of bytes
/// it took. `None` where `b` ends before the varint does, or where the varint
/// is padded with a zero group at the top.
pub open spec fn parse_varint(b: Seq<u8>) -> Option<(nat, nat)>
    decreases b.len(),
{
    if b.len() == 0 {
        None
    } else if b[0] < 128 {
        Some((b[0] as nat, 1nat))
    } else {
        match parse_varint(b.skip(1)) {
            Some((hi, n)) => if hi == 0 {
                None
            } else {
                Some(((b[0] - 128 + 128 * hi) as nat, n + 1))
            },
            None => None,
        }
    }
}

/// `parse_varint`, for values that fit in 64 bits.
pub open spec fn parse_u64(b: Seq<u8>) -> Option<(u64, nat)> {
    match parse_varint(b) {
        Some((v, n)) => if v <= u64::MAX {
            Some((v as u64, n))
        } else {
            None
        },
        None => None,
    }
}

/// A varint is never empty.
pub proof fn lemma_varint_len(v: nat)
    ensures
        varint(v).len() >= 1,
    decreases v,
{
    if v >= 128 {
        lemma_varint_len(v / 128);
    }
}

/// 128 to the power of `k`.
pub open spec fn pow128(k: nat) -> nat
    decreases k,
{
    if k == 0 {
        1
    } else {
        128 * pow128((k - 1) as nat)
    }
}

/// A value below 128 to the `k` takes at most `k` bytes.
pub proof fn lemma_varint_len_bound(v: nat, k: nat)
    requires
        k >= 1,
        v < pow128(k),
    ensures
        varint(v).len() <= k,
    decreases k,
{
    if v >= 128 {
        if k == 1 {
            assert(pow128(1) == 128) by {
                reveal_with_fuel(pow128, 2);
            }
        } else {
            lemma_varint_len_bound(v / 128, (k - 1) as nat);
        }
    }
}

/// A 64-bit value takes at most ten bytes.
pub proof fn lemma_varint_short(v: nat)
    requires
        v <= u64::MAX,
    ensures
        varint(v).len() <= 10,
{
    assert(pow128(10) == 0x40_0000_0000_0000_0000) by {
        reveal_with_fuel(pow128, 11);
    }
    lemma_varint_len_bound(v, 10);
}

/// Reading gives back what was written, whatever follows it.
pub proof fn lemma_parse_varint_of_varint(v: nat, rest: Seq<u8>)
    ensures
        parse_varint(varint(v) + rest) == Some((v, varint(v).len())),
    decreases v,
{
    let b = varint(v) + rest;
    if v < 128 {
        assert(b[0] == v as u8);
    } else {
        let tail = varint(v / 128);
        lemma_parse_varint_of_varint(v / 128, rest);
        assert(b[0] == (v % 128 + 128) as u8);
        assert(b.skip(1) =~= tail + rest);
    }
}

/// What the reader accepts is exactly the encoding of the value it returns.
pub proof fn lemma_parse_varint_canonical(b: Seq<u8>)
    ensures
        parse_varint(b) matches Some((v, n)) ==> 1 <= n <= b.len() && b.subrange(0, n as int)
            == varint(v),
    decreases b.len(),
{
    if b.len() > 0 && b[0] >= 128 {
        lemma_parse_varint_canonical(b.skip(1));
        if let Some((hi, n)) = parse_varint(b.skip(1)) {
            if hi != 0 {
                let v = (b[0] - 128 + 128 * hi) as nat;
                assert(v / 128 == hi && v % 128 == b[0] - 128);
                assert(b.subrange(0, n as int + 1) =~= seq![b[0]] + b.skip(1).subrange(
                    0,
                    n as int,
                ));
            }
        }
    } else if b.len() > 0 {
        assert(b.subrange(0, 1) =~= seq![b[0]]);
    }
}

/// A run of continuation bytes that reaches the end of the input is no varint.
proof fn lemma_unterminated(b: Seq<u8>)
    requires
        forall|k: int| 0 <= k < b.len() ==> b[k] >= 128,
    ensures
        parse_varint(b) is None,
    decreases b.len(),
{
    if b.len() > 0 {
        lemma_unterminated(b.skip(1));
    }
}

/// Continuation bytes in front of something that is no 64-bit varint do not
/// make it one.
proof fn lemma_continuation_keeps_failure(b: Seq<u8>, from: int, to: int)
    requires
        0 <= from <= to <= b.len(),
        forall|k: int| from <= k < to ==> b[k] >= 128,
        parse_u64(b.skip(to)) is None,
    ensures
        parse_u64(b.skip(from)) is None,
    decreases to - from,
{
    if from < to {
        lemma_continuation_keeps_failure(b, from + 1, to);
        assert(b.skip(from).skip(1) =~= b.skip(from + 1));
    }
}

/// True where `b` does not begin with the byte `tag`.
pub open spec fn not_tagged(b: Seq<u8>, tag: u8) -> bool {
    b.len() == 0 || b[0] != tag
}

/// A length-delimited field: the tag, the payload's length as a varint, the
/// payload.
pub open spec fn delimited(tag: u8, payload: Seq<u8>) -> Seq<u8> {
    seq![tag] + varint(payload.len()) + payload
}

/// An unsigned field; zero is left out.
pub open spec fn uint_field(tag: u8, v: u64) -> Seq<u8> {
    if v == 0 {
        Seq::empty()
    } else {
        seq![tag] + varint(v as nat)
    }
}

/// A field of bytes; no bytes is left out.
pub open spec fn bytes_field(tag: u8, payload: Seq<u8>) -> Seq<u8> {
    if payload.len() == 0 {
        Seq::empty()
    } else {
        delimited(tag, payload)
    }
}

/// A nested message that may be absent; present, it is written even when empty.
pub open spec fn message_field(tag: u8, payload: Option<Seq<u8>>) -> Seq<u8> {
    match payload {
        Some(p) => delimited(tag, p),
        None => Seq::empty(),
    }
}

/// A repeated nested message: one length-delimited field per item, in order.
pub open spec fn repeated_field(tag: u8, items: Seq<Seq<u8>>) -> Seq<u8>
    decreases items.len(),
{
    if items.len() == 0 {
        Seq::empty()
    } else {
        delimited(tag, items[0]) + repeated_field(tag, items.skip(1))
    }
}

/// Reads a length and that many bytes: the payload and what follows it.
pub open spec fn parse_payload(b: Seq<u8>) -> Option<(Seq<u8>, Seq<u8>)> {
    match parse_u64(b) {
        Some((len, n)) => if len <= b.len() - n {
            Some((b.subrange(n as int, n + len), b.skip(n + len)))
        } else {
            None
        },
        None => None,
    }
}

/// Reads the unsigned field `tag` if `b` begins with it, and zero if not.
/// A zero that is written out is turned down.
pub open spec fn parse_uint_field(tag: u8, b: Seq<u8>) -> Option<(u64, Seq<u8>)> {
    if b.len() > 0 && b[0] == tag {
        match parse_u64(b.skip(1)) {
            Some((v, n)) => if v == 0 {
                None
            } else {
                Some((v, b.skip(1 + n as int)))
            },
            None => None,
        }
    } else {
        Some((0, b))
    }
}

/// Reads the bytes field `tag` if `b` begins with it, and no bytes if not.
/// An empty payload that is written out is turned down.
pub open spec fn parse_bytes_field(tag: u8, b: Seq<u8>) -> Option<(Seq<u8>, Seq<u8>)> {
    if b.len() > 0 && b[0] == tag {
        match parse_payload(b.skip(1)) {
            Some((p, rest)) => if p.len() == 0 {
                None
            } else {
                Some((p, rest))
            },
            None => None,
        }
    } else {
        Some((Seq::empty(), b))
    }
}

/// Reads the nested message `tag` if `b` begins with it.
pub open spec fn parse_message_field(tag: u8, b: Seq<u8>) -> Option<(Option<Seq<u8>>, Seq<u8>)> {
    if b.len() > 0 && b[0] == tag {
        match parse_payload(b.skip(1)) {
            Some((p, rest)) => Some((Some(p), rest)),
            None => None,
        }
    } else {
        Some((None, b))
    }
}

/// Reads nested messages for as long as `b` goes on with the byte `tag`.
pub open spec fn parse_repeated_field(tag: u8, b: Seq<u8>) -> Option<(Seq<Seq<u8>>, Seq<u8>)>
    decreases b.len(),
{
    if b.len() > 0 && b[0] == tag {
        match parse_payload(b.skip(1)) {
            Some((p, rest)) => if rest.len() < b.len() {
                match parse_repeated_field(tag, rest) {
                    Some((more, end)) => Some((seq![p] + more, end)),
                    None => None,
                }
            } else {
                None
            },
            None => None,
        }
    } else {
        Some((Seq::empty(), b))
    }
}

/// Concatenation may be bracketed either way.
pub proof fn lemma_concat_assoc(a: Seq<u8>, b: Seq<u8>, c: Seq<u8>)
    ensures
        (a + b) + c == a + (b + c),
{
    assert((a + b) + c =~= a + (b + c));
}

/// Nothing, appended, changes nothing.
pub proof fn lemma_concat_empty(a: Seq<u8>, e: Seq<u8>)
    requires
        e.len() == 0,
    ensures
        a + e == a,
        e + a == a,
{
    assert(a + e =~= a);
    assert(e + a =~= a);
}

/// True where `b` is empty or begins with a byte above `tag`. What follows a
/// field inside a message begins with the tag of a later field.
pub open spec fn starts_above(b: Seq<u8>, tag: u8) -> bool {
    b.len() == 0 || b[0] > tag
}

/// An unsigned field of a later tag, in front of what begins above `below`,
/// leaves it beginning above `below`.
pub proof fn lemma_uint_field_starts(tag: u8, v: u64, rest: Seq<u8>, below: u8)
    requires
        below < tag,
        starts_above(rest, below),
    ensures
        starts_above(uint_field(tag, v) + rest, below),
{
    if v == 0 {
        assert(uint_field(tag, v) + rest =~= rest);
    } else {
        assert((uint_field(tag, v) + rest)[0] == tag);
    }
}

/// A bytes field of a later tag, in front of what begins above `below`,
/// leaves it beginning above `below`.
pub proof fn lemma_bytes_field_starts(tag: u8, p: Seq<u8>, rest: Seq<u8>, below: u8)
    requires
        below < tag,
        starts_above(rest, below),
    ensures
        starts_above(bytes_field(tag, p) + rest, below),
{
    if p.len() == 0 {
        assert(bytes_field(tag, p) + rest =~= rest);
    } else {
        assert((bytes_field(tag, p) + rest)[0] == tag);
    }
}

/// A nested message of a later tag, in front of what begins above `below`,
/// leaves it beginning above `below`.
pub proof fn lemma_message_field_starts(tag: u8, p: Option<Seq<u8>>, rest: Seq<u8>, below: u8)
    requires
        below < tag,
        starts_above(rest, below),
    ensures
        starts_above(message_field(tag, p) + rest, below),
{
    match p {
        Some(bytes) => {
            assert((message_field(tag, p) + rest)[0] == tag);
        },
        None => {
            assert(message_field(tag, p) + rest =~= rest);
        },
    }
}

/// A repeated field of a later tag, in front of what begins above `below`,
/// leaves it beginning above `below`.
pub proof fn lemma_repeated_field_starts(tag: u8, items: Seq<Seq<u8>>, rest: Seq<u8>, below: u8)
    requires
        below < tag,
        starts_above(rest, below),
    ensures
        starts_above(repeated_field(tag, items) + rest, below),
{
    if items.len() == 0 {
        assert(repeated_field(tag, items) + rest =~= rest);
    } else {
        assert((repeated_field(tag, items) + rest)[0] == tag);
    }
}

/// A length and a payload that were written are read back, whatever follows.
pub proof fn lemma_payload_roundtrip(p: Seq<u8>, rest: Seq<u8>)
    requires
        p.len() <= u64::MAX,
    ensures
        parse_payload(varint(p.len()) + p + rest) == Some((p, rest)),
{
    let head = varint(p.len());
    let b = head + p + rest;
    lemma_parse_varint_of_varint(p.len(), p + rest);
    assert(b =~= head + (p + rest));
    assert(b.subrange(head.len() as int, head.len() as int + p.len()) =~= p);
    assert(b.skip(head.len() as int + p.len()) =~= rest);
}

/// What is read as a length and a payload is the encoding of that payload,
/// and then what follows.
pub proof fn lemma_payload_canonical(b: Seq<u8>)
    ensures
        parse_payload(b) matches Some((p, rest)) ==> b == varint(p.len()) + p + rest,
{
    lemma_parse_varint_canonical(b);
    if let Some((p, rest)) = parse_payload(b) {
        let (len, n) = parse_u64(b)->0;
        assert(b =~= b.subrange(0, n as int) + p + rest);
    }
}

/// A length-delimited field begins with its tag, and its payload is read back.
pub proof fn lemma_delimited_roundtrip(tag: u8, p: Seq<u8>, rest: Seq<u8>)
    requires
        p.len() <= u64::MAX,
    ensures
        (delimited(tag, p) + rest).len() > 0,
        (delimited(tag, p) + rest)[0] == tag,
        parse_payload((delimited(tag, p) + rest).skip(1)) == Some((p, rest)),
{
    lemma_payload_roundtrip(p, rest);
    assert((delimited(tag, p) + rest).skip(1) =~= varint(p.len()) + p + rest);
}

/// Bytes that begin with a tag and go on as a payload are the
/// length-delimited field of that payload, and then what follows.
pub proof fn lemma_delimited_canonical(tag: u8, b: Seq<u8>)
    requires
        b.len() > 0,
        b[0] == tag,
    ensures
        parse_payload(b.skip(1)) matches Some((p, rest)) ==> b == delimited(tag, p) + rest,
{
    lemma_payload_canonical(b.skip(1));
    if let Some((p, rest)) = parse_payload(b.skip(1)) {
        assert(b =~= seq![tag] + b.skip(1));
        assert(b =~= delimited(tag, p) + rest);
    }
}

/// An unsigned field that was written is read back; a zero, which is not
/// written, where what follows does not begin with the tag.
pub proof fn lemma_uint_field_roundtrip(tag: u8, v: u64, rest: Seq<u8>)
    requires
        v == 0 ==> not_tagged(rest, tag),
    ensures
        parse_uint_field(tag, uint_field(tag, v) + rest) == Some((v, rest)),
{
    let b = uint_field(tag, v) + rest;
    if v == 0 {
        assert(b =~= rest);
    } else {
        lemma_parse_varint_of_varint(v as nat, rest);
        assert(b.skip(1) =~= varint(v as nat) + rest);
        assert(b.skip(1 + varint(v as nat).len() as int) =~= rest);
    }
}

/// What is read as an unsigned field is the encoding of that field, and then
/// what follows.
pub proof fn lemma_uint_field_canonical(tag: u8, b: Seq<u8>)
    ensures
        parse_uint_field(tag, b) matches Some((v, rest)) ==> b == uint_field(tag, v) + rest && (v
            == 0 ==> not_tagged(rest, tag)),
{
    if let Some((v, rest)) = parse_uint_field(tag, b) {
        if b.len() > 0 && b[0] == tag {
            lemma_parse_varint_canonical(b.skip(1));
            let (value, n) = parse_u64(b.skip(1))->0;
            assert(b =~= seq![tag] + b.skip(1).subrange(0, n as int) + rest);
        } else {
            assert(b =~= uint_field(tag, v) + rest);
        }
    }
}

/// A bytes field that was written is read back; no bytes, which are not
/// written, where what follows does not begin with the tag.
pub proof fn lemma_bytes_field_roundtrip(tag: u8, p: Seq<u8>, rest: Seq<u8>)
    requires
        p.len() <= u64::MAX,
        p.len() == 0 ==> not_tagged(rest, tag),
    ensures
        parse_bytes_field(tag, bytes_field(tag, p) + rest) == Some((p, rest)),
{
    if p.len() == 0 {
        assert(bytes_field(tag, p) + rest =~= rest);
        assert(p =~= Seq::<u8>::empty());
    } else {
        lemma_delimited_roundtrip(tag, p, rest);
    }
}

/// What is read as a bytes field is the encoding of that field, and then
/// what follows.
pub proof fn lemma_bytes_field_canonical(tag: u8, b: Seq<u8>)
    ensures
        parse_bytes_field(tag, b) matches Some((p, rest)) ==> b == bytes_field(tag, p) + rest && (
        p.len() == 0 ==> not_tagged(rest, tag)),
{
    if let Some((p, rest)) = parse_bytes_field(tag, b) {
        if b.len() > 0 && b[0] == tag {
            lemma_delimited_canonical(tag, b);
        } else {
            assert(b =~= bytes_field(tag, p) + rest);
        }
    }
}

/// A nested message that was written is read back; an absent one where what
/// follows does not begin with the tag.
pub proof fn lemma_message_field_roundtrip(tag: u8, p: Option<Seq<u8>>, rest: Seq<u8>)
    requires
        p matches Some(bytes) ==> bytes.len() <= u64::MAX,
        p is None ==> not_tagged(rest, tag),
    ensures
        parse_message_field(tag, message_field(tag, p) + rest) == Some((p, rest)),
{
    match p {
        Some(bytes) => {
            lemma_delimited_roundtrip(tag, bytes, rest);
        },
        None => {
            assert(message_field(tag, p) + rest =~= rest);
        },
    }
}

/// What is read as a nested message is the encoding of that message, and
/// then what follows.
pub proof fn lemma_message_field_canonical(tag: u8, b: Seq<u8>)
    ensures
        parse_message_field(tag, b) matches Some((p, rest)) ==> b == message_field(tag, p) + rest
            && (p is None ==> not_tagged(rest, tag)),
{
    if let Some((p, rest)) = parse_message_field(tag, b) {
        if b.len() > 0 && b[0] == tag {
            lemma_delimited_canonical(tag, b);
        } else {
            assert(b =~= message_field(tag, p) + rest);
        }
    }
}

/// Items that were written one after another are read back in order, where
/// what follows does not begin with the tag.
pub proof fn lemma_repeated_field_roundtrip(tag: u8, items: Seq<Seq<u8>>, rest: Seq<u8>)
    requires
        forall|i: int| 0 <= i < items.len() ==> (#[trigger] items[i]).len() <= u64::MAX,
        not_tagged(rest, tag),
    ensures
        parse_repeated_field(tag, repeated_field(tag, items) + rest) == Some((items, rest)),
    decreases items.len(),
{
    let b = repeated_field(tag, items) + rest;
    if items.len() == 0 {
        assert(b =~= rest);
        assert(items =~= Seq::<Seq<u8>>::empty());
    } else {
        let tail = repeated_field(tag, items.skip(1)) + rest;
        assert forall|i: int| 0 <= i < items.skip(1).len() implies (#[trigger] items.skip(
            1,
        )[i]).len() <= u64::MAX by {
            assert(items.skip(1)[i] == items[i + 1]);
        }
        lemma_repeated_field_roundtrip(tag, items.skip(1), rest);
        lemma_delimited_roundtrip(tag, items[0], tail);
        assert(b =~= delimited(tag, items[0]) + tail);
        lemma_varint_len(items[0].len());
        assert(tail.len() < b.len());
        assert(seq![items[0]] + items.skip(1) =~= items);
    }
}

/// What is read as a repeated field is the encoding of its items, and then
/// what follows, which does not begin with the tag.
pub proof fn lemma_repeated_field_canonical(tag: u8, b: Seq<u8>)
    ensures
        parse_repeated_field(tag, b) matches Some((items, rest)) ==> b == repeated_field(
            tag,
            items,
        ) + rest && not_tagged(rest, tag),
    decreases b.len(),
{
    if let Some((items, rest)) = parse_repeated_field(tag, b) {
        if b.len() > 0 && b[0] == tag {
            let (p, mid) = parse_payload(b.skip(1))->0;
            let (more, end) = parse_repeated_field(tag, mid)->0;
            lemma_delimited_canonical(tag, b);
            lemma_repeated_field_canonical(tag, mid);
            assert(items.skip(1) =~= more);
            assert(b =~= repeated_field(tag, items) + rest);
        } else {
            assert(b =~= repeated_field(tag, items) + rest);
        }
    }
}

/// A repeated field is at least as long as each of its items.
pub proof fn lemma_repeated_field_holds(tag: u8, items: Seq<Seq<u8>>, i: int)
    requires
        0 <= i < items.len(),
    ensures
        items[i].len() <= repeated_field(tag, items).len(),
    decreases items.len(),
{
    if i > 0 {
        lemma_repeated_field_holds(tag, items.skip(1), i - 1);
    }
}

/// Writing one more item behind the others.
pub proof fn lemma_repeated_field_push(tag: u8, items: Seq<Seq<u8>>, last: Seq<u8>)
    ensures
        repeated_field(tag, items.push(last)) == repeated_field(tag, items) + delimited(tag, last),
    decreases items.len(),
{
    if items.len() == 0 {
        assert(items.push(last).skip(1) =~= Seq::<Seq<u8>>::empty());
        assert(items.push(last)[0] == last);
        assert(repeated_field(tag, items.push(last).skip(1)) =~= Seq::<u8>::empty());
        assert(repeated_field(tag, items) =~= Seq::<u8>::empty());
        assert(delimited(tag, last) + Seq::<u8>::empty() =~= Seq::<u8>::empty() + delimited(
            tag,
            last,
        ));
    } else {
        lemma_repeated_field_push(tag, items.skip(1), last);
        assert(items.push(last).skip(1) =~= items.skip(1).push(last));
        assert(items.push(last)[0] == items[0]);
        let head = delimited(tag, items[0]);
        let middle = repeated_field(tag, items.skip(1));
        assert(head + (middle + delimited(tag, last)) =~= (head + middle) + delimited(tag, last));
    }
}

/// Appends the varint of `v` to `out`.
pub fn write_varint(out: &mut Vec<u8>, v: u64)
    ensures
        final(out)@ == old(out)@ + varint(v as nat),
{
    let ghost start = out@;
    let mut x: u64 = v;
    while x >= 128
        invariant
            start + varint(v as nat) == out@ + varint(x as nat),
        decreases x,
    {
        let ghost before = out@;
        out.push((x % 128 + 128) as u8);
        proof {
            assert(out@ + varint((x / 128) as nat) =~= before + varint(x as nat));
        }
        x = x / 128;
    }
    let ghost before = out@;
    out.push(x as u8);
    proof {
        assert(out@ =~= before + varint(x as nat));
    }
}

/// Reads the varint that starts at `pos`: its value and the position behind it.
pub fn read_varint(b: &[u8], pos: usize) -> (r: Option<(u64, usize)>)
    requires
        pos <= b.len(),
    ensures
        match parse_u64(b@.skip(pos as int)) {
            Some((v, n)) => r == Some((v, (pos + n) as usize)) && pos + n <= b.len(),
            None => r is None,
        },
{
    let mut end: usize = pos;
    while end < b.len() && b[end] >= 128
        invariant
            pos <= end <= b.len(),
            forall|k: int| pos <= k < end ==> b@[k] >= 128,
        decreases b.len() - end,
    {
        end += 1;
    }
    if end >= b.len() {
        proof {
            lemma_unterminated(b@.skip(pos as int));
        }
        return None;
    }
    let mut acc: u64 = b[end] as u64;
    let mut i: usize = end;
    while i > pos
        invariant
            pos <= i <= end < b.len(),
            forall|k: int| pos <= k < end ==> b@[k] >= 128,
            parse_u64(b@.skip(i as int)) == Some((acc, (end - i + 1) as nat)),
        decreases i,
    {
        let low: u64 = (b[i - 1] - 128) as u64;
        proof {
            assert(b@.skip(i - 1).skip(1) =~= b@.skip(i as int));
        }
        if acc == 0 || acc > (u64::MAX - low) / 128 {
            proof {
                lemma_continuation_keeps_failure(b@, pos as int, i - 1);
            }
            return None;
        }
        acc = acc * 128 + low;
        i -= 1;
    }
    Some((acc, end + 1))
}

/// Appends `src` to `out`.
pub fn append_bytes(out: &mut Vec<u8>, src: &[u8])
    ensures
        final(out)@ == old(out)@ + src@,
{
    let ghost start = out@;
    let mut i: usize = 0;
    while i < src.len()
        invariant
            i <= src.len(),
            out@ == start + src@.take(i as int),
        decreases src.len() - i,
    {
        out.push(src[i]);
        i += 1;
        proof {
            assert(out@ =~= start + src@.take(i as int));
        }
    }
    proof {
        assert(src@.take(i as int) =~= src@);
    }
}

/// Appends the length-delimited field `tag` with the given payload.
pub fn write_delimited(out: &mut Vec<u8>, tag: u8, payload: &[u8])
    ensures
        final(out)@ == old(out)@ + delimited(tag, payload@),
{
    let ghost start = out@;
    out.push(tag);
    write_varint(out, payload.len() as u64);
    append_bytes(out, payload);
    proof {
        assert(out@ =~= start + delimited(tag, payload@));
    }
}

/// Appends the unsigned field `tag`, or nothing where `v` is zero.
pub fn write_uint_field(out: &mut Vec<u8>, tag: u8, v: u64)
    ensures
        final(out)@ == old(out)@ + uint_field(tag, v),
{
    let ghost start = out@;
    if v != 0 {
        out.push(tag);
        write_varint(out, v);
    }
    proof {
        assert(out@ =~= start + uint_field(tag, v));
    }
}

/// Appends the bytes field `tag`, or nothing where `payload` is empty.
pub fn write_bytes_field(out: &mut Vec<u8>, tag: u8, payload: &[u8])
    ensures
        final(out)@ == old(out)@ + bytes_field(tag, payload@),
{
    let ghost start = out@;
    if payload.len() != 0 {
        write_delimited(out, tag, payload);
    }
    proof {
        assert(out@ =~= start + bytes_field(tag, payload@));
    }
}

/// Reads a length and that many bytes, starting at `pos`.
pub fn read_payload(b: &[u8], pos: usize) -> (r: Option<(Vec<u8>, usize)>)
    requires
        pos <= b.len(),
    ensures
        match parse_payload(b@.skip(pos as int)) {
            Some((p, rest)) => r matches Some((v, next)) && v@ == p && pos < next <= b.len()
                && b@.skip(next as int) == rest,
            None => r is None,
        },
{
    match read_varint(b, pos) {
        None => None,
        Some((len, start)) => {
            if len > (b.len() - start) as u64 {
                return None;
            }
            let end: usize = start + len as usize;
            let payload = vstd::slice::slice_to_vec(vstd::slice::slice_subrange(b, start, end));
            proof {
                let bs = b@.skip(pos as int);
                let n = start - pos;
                assert(bs.subrange(n, n + len) =~= b@.subrange(start as int, end as int));
                assert(bs.skip(n + len) =~= b@.skip(end as int));
            }
            Some((payload, end))
        },
    }
}

/// Reads the unsigned field `tag` at `pos`; zero where another byte stands there.
pub fn read_uint_field(b: &[u8], pos: usize, tag: u8) -> (r: Option<(u64, usize)>)
    requires
        pos <= b.len(),
    ensures
        match parse_uint_field(tag, b@.skip(pos as int)) {
            Some((v, rest)) => r matches Some((x, next)) && x == v && pos <= next <= b.len()
                && b@.skip(next as int) == rest,
            None => r is None,
        },
{
    if pos < b.len() && b[pos] == tag {
        proof {
            assert(b@.skip(pos as int).skip(1) =~= b@.skip(pos + 1));
        }
        match read_varint(b, pos + 1) {
            None => None,
            Some((v, next)) => {
                if v == 0 {
                    return None;
                }
                proof {
                    let n = next - pos - 1;
                    assert(b@.skip(pos as int).skip(1 + n) =~= b@.skip(next as int));
                }
                Some((v, next))
            },
        }
    } else {
        Some((0, pos))
    }
}

/// Reads the bytes field `tag` at `pos`; no bytes where another byte stands there.
pub fn read_bytes_field(b: &[u8], pos: usize, tag: u8) -> (r: Option<(Vec<u8>, usize)>)
    requires
        pos <= b.len(),
    ensures
        match parse_bytes_field(tag, b@.skip(pos as int)) {
            Some((p, rest)) => r matches Some((v, next)) && v@ == p && pos <= next <= b.len()
                && b@.skip(next as int) == rest,
            None => r is None,
        },
{
    if pos < b.len() && b[pos] == tag {
        proof {
            assert(b@.skip(pos as int).skip(1) =~= b@.skip(pos + 1));
        }
        match read_payload(b, pos + 1) {
            None => None,
            Some((payload, next)) => {
                if payload.len() == 0 {
                    return None;
                }
                Some((payload, next))
            },
        }
    } else {
        Some((Vec::new(), pos))
    }
}

/// Reads the nested message `tag` at `pos`, if it stands there.
pub fn read_message_field(b: &[u8], pos: usize, tag: u8) -> (r: Option<(Option<Vec<u8>>, usize)>)
    requires
        pos <= b.len(),
    ensures
        match parse_message_field(tag, b@.skip(pos as int)) {
            Some((p, rest)) => r matches Some((v, next)) && pos <= next <= b.len() && b@.skip(
                next as int,
            ) == rest && match p {
                Some(bytes) => v matches Some(w) && w@ == bytes,
                None => v is None,
            },
            None => r is None,
        },
{
    if pos < b.len() && b[pos] == tag {
        proof {
            assert(b@.skip(pos as int).skip(1) =~= b@.skip(pos + 1));
        }
        match read_payload(b, pos + 1) {
            None => None,
            Some((payload, next)) => Some((Some(payload), next)),
        }
    } else {
        Some((None, pos))
    }
}

/// The byte strings that a vector of buffers holds.
pub open spec fn payloads(items: Seq<Vec<u8>>) -> Seq<Seq<u8>> {
    Seq::new(items.len(), |i: int| items[i]@)
}

/// What `parse_repeated_field` gives for the whole, when `front` was read
/// already and `tail` is what it gives for the rest.
pub open spec fn prepend_items(
    front: Seq<Seq<u8>>,
    tail: Option<(Seq<Seq<u8>>, Seq<u8>)>,
) -> Option<(Seq<Seq<u8>>, Seq<u8>)> {
    match tail {
        Some((more, rest)) => Some((front + more, rest)),
        None => None,
    }
}

/// Reads the nested messages `tag` that stand in a row at `pos`.
pub fn read_repeated_field(b: &[u8], pos: usize, tag: u8) -> (r: Option<(Vec<Vec<u8>>, usize)>)
    requires
        pos <= b.len(),
    ensures
        match parse_repeated_field(tag, b@.skip(pos as int)) {
            Some((items, rest)) => r matches Some((v, next)) && payloads(v@) == items && pos
                <= next <= b.len() && b@.skip(next as int) == rest,
            None => r is None,
        },
{
    let mut items: Vec<Vec<u8>> = Vec::new();
    let mut at: usize = pos;
    proof {
        assert(payloads(items@) =~= Seq::<Seq<u8>>::empty());
        let whole = parse_repeated_field(tag, b@.skip(pos as int));
        assert(prepend_items(payloads(items@), whole) == whole) by {
            if let Some((more, rest)) = whole {
                assert(payloads(items@) + more =~= more);
            }
        }
    }
    while at < b.len() && b[at] == tag
        invariant
            pos <= at <= b.len(),
            parse_repeated_field(tag, b@.skip(pos as int)) == prepend_items(
                payloads(items@),
                parse_repeated_field(tag, b@.skip(at as int)),
            ),
        decreases b.len() - at,
    {
        proof {
            assert(b@.skip(at as int).skip(1) =~= b@.skip(at + 1));
        }
        match read_payload(b, at + 1) {
            None => {
                return None;
            },
            Some((payload, next)) => {
                proof {
                    let front = payloads(items@);
                    let tail = parse_repeated_field(tag, b@.skip(next as int));
                    assert(payloads(items@.push(payload)) =~= front.push(payload@));
                    if let Some((more, rest)) = tail {
                        assert(front + (seq![payload@] + more) =~= front.push(payload@) + more);
                    }
                }
                items.push(payload);
                at = next;
            },
        }
    }
    proof {
        let front = payloads(items@);
        assert(front + Seq::<Seq<u8>>::empty() =~= front);
    }
    Some((items, at))
}

} // verus!
