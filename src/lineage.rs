//! Lineage stacks and their stable hash: a name-based UUID (version 5, OID
//! namespace) of the stack's canonical JSON encoding.
use vstd::prelude::*;
use vstd::utf8::{encode_utf8, is_ascii_chars};

verus! {

broadcast use vstd::string::group_string_axioms;

/// One level of nested split/branch context.
#[derive(Clone, Debug, PartialEq, Eq, Default)]
pub struct StackFrame {
    pub split_node_id: String,
    pub branch_id: String,
    pub item_index: i32,
    pub total_items: i32,
}

pub open spec fn ascii_bytes(s: Seq<char>) -> Seq<u8> {
    s.map_values(|c: char| c as u8)
}

pub open spec fn hex_digit(d: u8) -> u8 {
    if d < 10 {
        (48 + d) as u8
    } else {
        (87 + d) as u8
    }
}

/// How one byte of a string's UTF-8 form is written inside a JSON string.
pub open spec fn escape_byte(b: u8) -> Seq<u8> {
    if b == 34 {
        seq![92u8, 34u8]
    } else if b == 92 {
        seq![92u8, 92u8]
    } else if b == 8 {
        seq![92u8, 98u8]
    } else if b == 9 {
        seq![92u8, 116u8]
    } else if b == 10 {
        seq![92u8, 110u8]
    } else if b == 12 {
        seq![92u8, 102u8]
    } else if b == 13 {
        seq![92u8, 114u8]
    } else if b < 32 {
        seq![92u8, 117u8, 48u8, 48u8, hex_digit(b / 16), hex_digit(b % 16)]
    } else {
        seq![b]
    }
}

pub open spec fn escape_bytes(bs: Seq<u8>) -> Seq<u8>
    decreases bs.len(),
{
    if bs.len() == 0 {
        Seq::empty()
    } else {
        escape_bytes(bs.drop_last()) + escape_byte(bs.last())
    }
}

/// A string as a JSON string literal.
pub open spec fn json_string(s: Seq<char>) -> Seq<u8> {
    seq![34u8] + escape_bytes(encode_utf8(s)) + seq![34u8]
}

/// Decimal digits of a natural number.
pub open spec fn decimal(n: nat) -> Seq<u8>
    decreases n,
{
    if n < 10 {
        seq![(48 + n) as u8]
    } else {
        decimal(n / 10) + seq![(48 + n % 10) as u8]
    }
}

/// An integer as a JSON number.
pub open spec fn json_int(n: int) -> Seq<u8> {
    if n < 0 {
        seq![45u8] + decimal((-n) as nat)
    } else {
        decimal(n as nat)
    }
}

/// A frame as a JSON object, fields in declaration order.
pub open spec fn frame_json(f: StackFrame) -> Seq<u8> {
    ascii_bytes("{\"split_node_id\":"@) + json_string(f.split_node_id@) + ascii_bytes(",\"branch_id\":"@)
        + json_string(f.branch_id@) + ascii_bytes(",\"item_index\":"@) + json_int(f.item_index as int)
        + ascii_bytes(",\"total_items\":"@) + json_int(f.total_items as int) + ascii_bytes("}"@)
}

/// The frames, comma-separated.
pub open spec fn frames_json(frames: Seq<StackFrame>) -> Seq<u8>
    decreases frames.len(),
{
    if frames.len() == 0 {
        Seq::empty()
    } else if frames.len() == 1 {
        frame_json(frames[0])
    } else {
        frames_json(frames.drop_last()) + seq![44u8] + frame_json(frames.last())
    }
}

/// The canonical encoding of a stack: a compact JSON array of frame objects.
pub open spec fn stack_json(frames: Seq<StackFrame>) -> Seq<u8> {
    seq![91u8] + frames_json(frames) + seq![93u8]
}

fn push_ascii(out: &mut Vec<u8>, s: &str)
    requires
        is_ascii_chars(s@),
    ensures
        final(out)@ == old(out)@ + ascii_bytes(s@),
{
    let b = s.as_bytes();
    proof {
        vstd::utf8::is_ascii_chars_encode_utf8(s@);
    }
    let ghost start = out@;
    let mut i: usize = 0;
    while i < b.len()
        invariant
            b@ == encode_utf8(s@),
            b@.len() == s@.len(),
            forall|k: int| 0 <= k < s@.len() ==> #[trigger] b@[k] == s@[k] as u8,
            i <= b@.len(),
            out@ == start + ascii_bytes(s@).take(i as int),
        decreases b@.len() - i,
    {
        out.push(b[i]);
        assert(ascii_bytes(s@).take(i + 1) =~= ascii_bytes(s@).take(i as int).push(b@[i as int]));
        i = i + 1;
    }
    assert(ascii_bytes(s@).take(i as int) =~= ascii_bytes(s@));
}

fn hex_digit_exec(d: u8) -> (r: u8)
    requires
        d < 16,
    ensures
        r == hex_digit(d),
{
    if d < 10 {
        48 + d
    } else {
        87 + d
    }
}

fn push_escaped_byte(out: &mut Vec<u8>, b: u8)
    ensures
        final(out)@ == old(out)@ + escape_byte(b),
{
    let ghost start = out@;
    if b == 34 || b == 92 {
        out.push(92);
        out.push(b);
    } else if b == 8 {
        out.push(92);
        out.push(98);
    } else if b == 9 {
        out.push(92);
        out.push(116);
    } else if b == 10 {
        out.push(92);
        out.push(110);
    } else if b == 12 {
        out.push(92);
        out.push(102);
    } else if b == 13 {
        out.push(92);
        out.push(114);
    } else if b < 32 {
        out.push(92);
        out.push(117);
        out.push(48);
        out.push(48);
        out.push(hex_digit_exec(b / 16));
        out.push(hex_digit_exec(b % 16));
    } else {
        out.push(b);
    }
    assert(out@ =~= start + escape_byte(b));
}

fn push_json_string(out: &mut Vec<u8>, s: &String)
    ensures
        final(out)@ == old(out)@ + json_string(s@),
{
    let ghost start = out@;
    let b = s.as_str().as_bytes();
    out.push(34);
    let mut i: usize = 0;
    while i < b.len()
        invariant
            b@ == encode_utf8(s@),
            i <= b@.len(),
            out@ == start + seq![34u8] + escape_bytes(b@.take(i as int)),
        decreases b@.len() - i,
    {
        push_escaped_byte(out, b[i]);
        assert(b@.take(i + 1).drop_last() =~= b@.take(i as int));
        i = i + 1;
    }
    assert(b@.take(i as int) =~= b@);
    out.push(34);
    assert(out@ =~= start + json_string(s@));
}

fn push_decimal(out: &mut Vec<u8>, n: u64)
    ensures
        final(out)@ == old(out)@ + decimal(n as nat),
    decreases n,
{
    if n < 10 {
        out.push(48 + n as u8);
    } else {
        push_decimal(out, n / 10);
        out.push(48 + (n % 10) as u8);
    }
}

fn push_json_int(out: &mut Vec<u8>, n: i32)
    ensures
        final(out)@ == old(out)@ + json_int(n as int),
{
    if n < 0 {
        let ghost start = out@;
        out.push(45);
        let m: i64 = -(n as i64);
        push_decimal(out, m as u64);
        assert(out@ =~= start + json_int(n as int));
    } else {
        push_decimal(out, n as u64);
    }
}

fn push_frame(out: &mut Vec<u8>, f: &StackFrame)
    ensures
        final(out)@ == old(out)@ + frame_json(*f),
{
    let ghost start = out@;
    proof {
        reveal_strlit("{\"split_node_id\":");
        reveal_strlit(",\"branch_id\":");
        reveal_strlit(",\"item_index\":");
        reveal_strlit(",\"total_items\":");
        reveal_strlit("}");
    }
    push_ascii(out, "{\"split_node_id\":");
    push_json_string(out, &f.split_node_id);
    push_ascii(out, ",\"branch_id\":");
    push_json_string(out, &f.branch_id);
    push_ascii(out, ",\"item_index\":");
    push_json_int(out, f.item_index);
    push_ascii(out, ",\"total_items\":");
    push_json_int(out, f.total_items);
    push_ascii(out, "}");
    assert(out@ =~= start + frame_json(*f));
}

/// The canonical encoding of `stack`, the bytes that its hash is taken of.
pub fn encode_stack(stack: &[StackFrame]) -> (r: Vec<u8>)
    ensures
        r@ == stack_json(stack@),
{
    let mut out: Vec<u8> = Vec::new();
    out.push(91);
    let mut i: usize = 0;
    while i < stack.len()
        invariant
            i <= stack@.len(),
            out@ == seq![91u8] + frames_json(stack@.take(i as int)),
        decreases stack@.len() - i,
    {
        let ghost before = out@;
        if i > 0 {
            out.push(44);
        }
        push_frame(&mut out, &stack[i]);
        let ghost pre = stack@.take(i + 1);
        assert(pre.drop_last() =~= stack@.take(i as int));
        if i == 0 {
            assert(out@ =~= seq![91u8] + frames_json(pre));
        } else {
            assert(out@ =~= seq![91u8] + frames_json(pre));
        }
        i = i + 1;
    }
    out.push(93);
    assert(stack@.take(i as int) =~= stack@);
    out
}

/// The hash text for some name: what uuid's version-5 UUID in the OID
/// namespace prints.
pub uninterp spec fn oid_uuid_v5_text(name: Seq<u8>) -> Seq<char>;

/// Relies on `uuid::Uuid::new_v5` with `Uuid::NAMESPACE_OID` and on its
/// `Display` impl, which prints the lowercase hyphenated form.
#[verifier::external_body]
fn oid_uuid_v5(name: &[u8]) -> (r: String)
    ensures
        r@ == oid_uuid_v5_text(name@),
        r@.len() == 36,
{
    uuid::Uuid::new_v5(&uuid::Uuid::NAMESPACE_OID, name).to_string()
}

/// The lineage hash of a stack, as a function of the stack alone.
pub open spec fn lineage_hash_of(stack: Seq<StackFrame>) -> Seq<char> {
    oid_uuid_v5_text(stack_json(stack))
}

/// The stable key of a lineage stack: the version-5 UUID (OID namespace) of
/// its canonical encoding. It depends on the stack alone.
/// An empty stack has no hash.
pub fn compute_lineage_hash(stack: &[StackFrame]) -> (r: Option<String>)
    ensures
        r is Some <==> stack@.len() > 0,
        r is Some ==> r->0@ == lineage_hash_of(stack@) && r->0@.len() == 36,
{
    if stack.len() == 0 {
        return None;
    }
    let bytes = encode_stack(stack);
    Some(oid_uuid_v5(bytes.as_slice()))
}

proof fn lemma_escape_concat(a: Seq<u8>, b: Seq<u8>)
    ensures
        escape_bytes(a + b) == escape_bytes(a) + escape_bytes(b),
    decreases b.len(),
{
    if b.len() == 0 {
        assert(a + b =~= a);
        assert(escape_bytes(a) + escape_bytes(b) =~= escape_bytes(a));
    } else {
        lemma_escape_concat(a, b.drop_last());
        assert((a + b).drop_last() =~= a + b.drop_last());
        assert((a + b).last() == b.last());
        assert(escape_bytes(a) + escape_bytes(b) =~= escape_bytes(a) + escape_bytes(b.drop_last()) + escape_byte(b.last()));
    }
}

proof fn lemma_escape_first(s: Seq<u8>)
    requires
        s.len() > 0,
    ensures
        escape_bytes(s) == escape_byte(s[0]) + escape_bytes(s.drop_first()),
{
    lemma_escape_concat(seq![s[0]], s.drop_first());
    assert(seq![s[0]] + s.drop_first() =~= s);
    assert(seq![s[0]].drop_last() =~= Seq::<u8>::empty());
    assert(escape_bytes(Seq::<u8>::empty()) =~= Seq::<u8>::empty());
    assert(escape_bytes(seq![s[0]]) =~= escape_byte(s[0]));
}

pub open spec fn hex_value(h: u8) -> int {
    if 48 <= h <= 57 {
        h - 48
    } else {
        h - 87
    }
}

/// The byte an escape sequence at the start of `bs` (after its backslash)
/// stands for, and the sequence's length without the backslash.
pub open spec fn unescape_one(bs: Seq<u8>) -> Option<(u8, int)> {
    if bs.len() == 0 {
        None
    } else if bs[0] == 34 || bs[0] == 92 {
        Some((bs[0], 1))
    } else if bs[0] == 98 {
        Some((8u8, 1))
    } else if bs[0] == 116 {
        Some((9u8, 1))
    } else if bs[0] == 110 {
        Some((10u8, 1))
    } else if bs[0] == 102 {
        Some((12u8, 1))
    } else if bs[0] == 114 {
        Some((13u8, 1))
    } else if bs[0] == 117 && bs.len() >= 5 {
        Some(((hex_value(bs[3]) * 16 + hex_value(bs[4])) as u8, 5))
    } else {
        None
    }
}

/// Read the inside of a JSON string up to its closing quote: the bytes it
/// stands for, and how many bytes were read, the quote included.
pub open spec fn unescape(bs: Seq<u8>) -> Option<(Seq<u8>, int)>
    decreases bs.len(),
{
    if bs.len() == 0 {
        None
    } else if bs[0] == 34 {
        Some((Seq::empty(), 1))
    } else if bs[0] == 92 {
        match unescape_one(bs.drop_first()) {
            Some((b, k)) => if 0 < k < bs.len() {
                match unescape(bs.subrange(k + 1, bs.len() as int)) {
                    Some((t, m)) => Some((seq![b] + t, m + k + 1)),
                    None => None,
                }
            } else {
                None
            },
            None => None,
        }
    } else {
        match unescape(bs.drop_first()) {
            Some((t, m)) => Some((seq![bs[0]] + t, m + 1)),
            None => None,
        }
    }
}

proof fn lemma_unescape_escaped(s: Seq<u8>, rest: Seq<u8>)
    ensures
        unescape(escape_bytes(s) + seq![34u8] + rest) == Some((s, escape_bytes(s).len() + 1int)),
    decreases s.len(),
{
    let bs = escape_bytes(s) + seq![34u8] + rest;
    if s.len() == 0 {
        assert(escape_bytes(s) =~= Seq::<u8>::empty());
        assert(bs[0] == 34);
    } else {
        lemma_escape_first(s);
        let tail = s.drop_first();
        lemma_unescape_escaped(tail, rest);
        let e = escape_byte(s[0]);
        let after = escape_bytes(tail) + seq![34u8] + rest;
        assert(bs =~= e + after);
        let b = s[0];
        if b == 34 || b == 92 || b == 8 || b == 9 || b == 10 || b == 12 || b == 13 || b < 32 {
            assert(bs[0] == 92);
            assert(bs.subrange(e.len() as int, bs.len() as int) =~= after);
            if b < 32 && b != 8 && b != 9 && b != 10 && b != 12 && b != 13 {
                assert(bs.drop_first()[0] == 117);
                let h1 = hex_digit(b / 16);
                let h2 = hex_digit(b % 16);
                assert(hex_value(h1) == b / 16);
                assert(hex_value(h2) == b % 16);
                assert(unescape_one(bs.drop_first()) == Some((b, 5int)));
            } else {
                assert(unescape_one(bs.drop_first()) == Some((b, 1int)));
            }
        } else {
            assert(e == seq![b]);
            assert(bs[0] == b);
            assert(bs.drop_first() =~= after);
        }
        assert(seq![b] + tail =~= s);
    }
}

/// Read a JSON string at the start of `bs`: the bytes it stands for and how
/// many bytes it takes.
pub open spec fn read_string(bs: Seq<u8>) -> Option<(Seq<u8>, int)> {
    if bs.len() > 0 && bs[0] == 34 {
        match unescape(bs.drop_first()) {
            Some((t, m)) => Some((t, m + 1)),
            None => None,
        }
    } else {
        None
    }
}

proof fn lemma_read_string(x: Seq<char>, rest: Seq<u8>)
    ensures
        read_string(json_string(x) + rest) == Some((encode_utf8(x), json_string(x).len() as int)),
{
    let e = escape_bytes(encode_utf8(x));
    lemma_unescape_escaped(encode_utf8(x), rest);
    assert((json_string(x) + rest).drop_first() =~= e + seq![34u8] + rest);
}

pub open spec fn is_digit_byte(b: u8) -> bool {
    48 <= b <= 57
}

/// Length of the run of digits at the start of `bs`.
pub open spec fn digit_run(bs: Seq<u8>) -> nat
    decreases bs.len(),
{
    if bs.len() > 0 && is_digit_byte(bs[0]) {
        1 + digit_run(bs.drop_first())
    } else {
        0
    }
}

pub open spec fn digits_val(ds: Seq<u8>) -> int
    decreases ds.len(),
{
    if ds.len() == 0 {
        0
    } else {
        digits_val(ds.drop_last()) * 10 + (ds.last() - 48)
    }
}

/// Read a JSON integer at the start of `bs`: its value and length.
pub open spec fn read_int(bs: Seq<u8>) -> Option<(int, int)> {
    if bs.len() > 0 && bs[0] == 45 {
        let k = digit_run(bs.drop_first());
        if k > 0 {
            Some((-digits_val(bs.drop_first().take(k as int)), k + 1int))
        } else {
            None
        }
    } else {
        let k = digit_run(bs);
        if k > 0 {
            Some((digits_val(bs.take(k as int)), k as int))
        } else {
            None
        }
    }
}

proof fn lemma_decimal(n: nat)
    ensures
        decimal(n).len() > 0,
        forall|i: int| 0 <= i < decimal(n).len() ==> is_digit_byte(#[trigger] decimal(n)[i]),
        digits_val(decimal(n)) == n,
    decreases n,
{
    if n >= 10 {
        lemma_decimal(n / 10);
        let d = decimal(n);
        assert(d.drop_last() =~= decimal(n / 10));
        assert(d.last() as int == 48 + n % 10);
        assert(digits_val(d) == digits_val(d.drop_last()) * 10 + (d.last() - 48));
        assert(digits_val(d) == digits_val(decimal(n / 10)) * 10 + n % 10);
        assert((n / 10) * 10 + n % 10 == n) by {
            vstd::arithmetic::div_mod::lemma_fundamental_div_mod(n as int, 10);
        }
    } else {
        assert(decimal(n).drop_last() =~= Seq::<u8>::empty());
        assert(decimal(n).last() as int == 48 + n);
        assert(digits_val(decimal(n).drop_last()) == 0);
        assert(digits_val(decimal(n)) == digits_val(decimal(n).drop_last()) * 10 + (decimal(n).last() - 48));
    }
}

proof fn lemma_digit_run(d: Seq<u8>, rest: Seq<u8>)
    requires
        forall|i: int| 0 <= i < d.len() ==> is_digit_byte(#[trigger] d[i]),
        rest.len() > 0,
        !is_digit_byte(rest[0]),
    ensures
        digit_run(d + rest) == d.len(),
    decreases d.len(),
{
    if d.len() == 0 {
        assert(d + rest =~= rest);
    } else {
        lemma_digit_run(d.drop_first(), rest);
        assert((d + rest).drop_first() =~= d.drop_first() + rest);
    }
}

proof fn lemma_read_int(n: int, rest: Seq<u8>)
    requires
        rest.len() > 0,
        !is_digit_byte(rest[0]),
    ensures
        read_int(json_int(n) + rest) == Some((n, json_int(n).len() as int)),
{
    let bs = json_int(n) + rest;
    if n < 0 {
        let d = decimal((-n) as nat);
        lemma_decimal((-n) as nat);
        lemma_digit_run(d, rest);
        assert(json_int(n) == seq![45u8] + d);
        assert(bs[0] == 45);
        assert(bs.drop_first() =~= d + rest);
        assert((d + rest).take(d.len() as int) =~= d);
        assert(digit_run(bs.drop_first()) == d.len());
        assert(-digits_val(bs.drop_first().take(d.len() as int)) == n);
    } else {
        let d = decimal(n as nat);
        lemma_decimal(n as nat);
        lemma_digit_run(d, rest);
        assert(json_int(n) == d);
        assert(bs =~= d + rest);
        assert(is_digit_byte(d[0]));
        assert(bs[0] != 45);
        assert((d + rest).take(d.len() as int) =~= d);
    }
}

#[verifier::opaque]
pub open spec fn lit_at(bs: Seq<u8>, p: int, lit: Seq<u8>) -> bool {
    0 <= p && p + lit.len() <= bs.len() && bs.subrange(p, p + lit.len()) == lit
}

/// A literal at `p`, then a JSON string: the string's bytes and where it ends.
#[verifier::opaque]
pub open spec fn read_str_field(bs: Seq<u8>, p: int, lit: Seq<u8>) -> Option<(Seq<u8>, int)> {
    if lit_at(bs, p, lit) {
        match read_string(bs.skip(p + lit.len())) {
            Some((t, k)) => Some((t, p + lit.len() + k)),
            None => None,
        }
    } else {
        None
    }
}

/// A literal at `p`, then a JSON integer: its value and where it ends.
#[verifier::opaque]
pub open spec fn read_int_field(bs: Seq<u8>, p: int, lit: Seq<u8>) -> Option<(int, int)> {
    if lit_at(bs, p, lit) {
        match read_int(bs.skip(p + lit.len())) {
            Some((v, k)) => Some((v, p + lit.len() + k)),
            None => None,
        }
    } else {
        None
    }
}

/// Read a frame object at the start of `bs`: its two strings' bytes, its two
/// integers, and its length.
#[verifier::opaque]
pub open spec fn read_frame(bs: Seq<u8>) -> Option<(Seq<u8>, Seq<u8>, int, int, int)> {
    match read_str_field(bs, 0, ascii_bytes("{\"split_node_id\":"@)) {
        None => None,
        Some((s1, at_branch)) => match read_str_field(bs, at_branch, ascii_bytes(",\"branch_id\":"@)) {
            None => None,
            Some((s2, at_item)) => match read_int_field(bs, at_item, ascii_bytes(",\"item_index\":"@)) {
                None => None,
                Some((i1, at_total)) => match read_int_field(bs, at_total, ascii_bytes(",\"total_items\":"@)) {
                    None => None,
                    Some((i2, at_close)) => if lit_at(bs, at_close, ascii_bytes("}"@)) {
                        Some((s1, s2, i1, i2, at_close + 1))
                    } else {
                        None
                    },
                },
            },
        },
    }
}

pub open spec fn frame_bytes(f: StackFrame) -> (Seq<u8>, Seq<u8>, int, int) {
    (encode_utf8(f.split_node_id@), encode_utf8(f.branch_id@), f.item_index as int, f.total_items as int)
}

proof fn lemma_str_field(bs: Seq<u8>, p: int, lit: Seq<u8>, x: Seq<char>, rest: Seq<u8>)
    requires
        0 <= p <= bs.len(),
        bs.skip(p) == lit + json_string(x) + rest,
    ensures
        read_str_field(bs, p, lit) == Some((encode_utf8(x), p + lit.len() + json_string(x).len())),
{
    reveal(read_str_field);
    reveal(lit_at);
    assert(bs.skip(p).len() == bs.len() - p);
    reveal(read_int_field);
    reveal(lit_at);
    assert(bs.skip(p).len() == bs.len() - p);
    assert(bs.subrange(p, p + lit.len()) =~= lit) by {
        assert forall|i: int| 0 <= i < lit.len() implies bs.subrange(p, p + lit.len())[i] == lit[i] by {
            assert(bs.skip(p)[i] == bs[p + i]);
        }
    }
    assert(bs.skip(p + lit.len()) =~= json_string(x) + rest) by {
        assert forall|i: int| 0 <= i < bs.len() - (p + lit.len()) implies bs.skip(p + lit.len())[i] == (json_string(x) + rest)[i] by {
            assert(bs.skip(p)[lit.len() + i] == bs[p + lit.len() + i]);
        }
    }
    lemma_read_string(x, rest);
}

proof fn lemma_int_field(bs: Seq<u8>, p: int, lit: Seq<u8>, n: int, rest: Seq<u8>)
    requires
        0 <= p <= bs.len(),
        bs.skip(p) == lit + json_int(n) + rest,
        rest.len() > 0,
        !is_digit_byte(rest[0]),
    ensures
        read_int_field(bs, p, lit) == Some((n, p + lit.len() + json_int(n).len())),
{
    reveal(read_int_field);
    reveal(lit_at);
    assert(bs.skip(p).len() == bs.len() - p);
    assert(bs.subrange(p, p + lit.len()) =~= lit) by {
        assert forall|i: int| 0 <= i < lit.len() implies bs.subrange(p, p + lit.len())[i] == lit[i] by {
            assert(bs.skip(p)[i] == bs[p + i]);
        }
    }
    assert(bs.skip(p + lit.len()) =~= json_int(n) + rest) by {
        assert forall|i: int| 0 <= i < bs.len() - (p + lit.len()) implies bs.skip(p + lit.len())[i] == (json_int(n) + rest)[i] by {
            assert(bs.skip(p)[lit.len() + i] == bs[p + lit.len() + i]);
        }
    }
    lemma_read_int(n, rest);
}

#[verifier::rlimit(40)]
proof fn lemma_read_frame(f: StackFrame, rest: Seq<u8>)
    ensures
        read_frame(frame_json(f) + rest) == Some((
            frame_bytes(f).0,
            frame_bytes(f).1,
            frame_bytes(f).2,
            frame_bytes(f).3,
            frame_json(f).len() as int,
        )),
{
    reveal(read_frame);
    reveal_strlit(",\"branch_id\":");
    reveal_strlit(",\"total_items\":");
    reveal_strlit("}");
    let l1 = ascii_bytes("{\"split_node_id\":"@);
    let l2 = ascii_bytes(",\"branch_id\":"@);
    let l3 = ascii_bytes(",\"item_index\":"@);
    let l4 = ascii_bytes(",\"total_items\":"@);
    let l5 = ascii_bytes("}"@);
    let j1 = json_string(f.split_node_id@);
    let j2 = json_string(f.branch_id@);
    let i1 = json_int(f.item_index as int);
    let i2 = json_int(f.total_items as int);
    let bs = frame_json(f) + rest;
    let r5 = l5 + rest;
    let r4 = l4 + i2 + r5;
    let r3 = l3 + i1 + r4;
    let r2 = l2 + j2 + r3;
    assert(bs =~= l1 + j1 + r2);
    assert(bs.skip(0) =~= bs);
    lemma_str_field(bs, 0, l1, f.split_node_id@, r2);
    let at_branch = (l1.len() + j1.len()) as int;
    assert(bs.skip(at_branch) =~= r2);
    lemma_str_field(bs, at_branch, l2, f.branch_id@, r3);
    let at_item = at_branch + l2.len() + j2.len();
    assert(bs.skip(at_item) =~= r3);
    assert(r4[0] == 44);
    lemma_int_field(bs, at_item, l3, f.item_index as int, r4);
    let at_total = at_item + l3.len() + i1.len();
    assert(bs.skip(at_total) =~= r4);
    assert(r5[0] == 125);
    lemma_int_field(bs, at_total, l4, f.total_items as int, r5);
    let at_close = at_total + l4.len() + i2.len();
    assert(bs.skip(at_close) =~= r5);
    assert(bs.subrange(at_close, at_close + 1) =~= l5);
    assert(lit_at(bs, at_close, l5)) by {
        reveal(lit_at);
    }
    assert(frame_json(f).len() == at_close + 1);
}

proof fn lemma_frames_first(a: Seq<StackFrame>)
    requires
        a.len() >= 2,
    ensures
        frames_json(a) == frame_json(a[0]) + seq![44u8] + frames_json(a.drop_first()),
    decreases a.len(),
{
    let init = a.drop_last();
    if a.len() == 2 {
        assert(init.len() == 1);
        assert(frames_json(init) == frame_json(a[0]));
        assert(a.drop_first().len() == 1);
        assert(frames_json(a.drop_first()) == frame_json(a[1]));
    } else {
        lemma_frames_first(init);
        assert(init.drop_first() =~= a.drop_first().drop_last());
        assert(a.drop_first().last() == a.last());
        assert(frames_json(a) =~= frame_json(a[0]) + seq![44u8] + frames_json(a.drop_first()));
    }
}

/// Read comma-separated frame objects up to the closing bracket, with at
/// most `more` commas.
#[verifier::opaque]
pub open spec fn read_frames(bs: Seq<u8>, more: nat) -> Option<Seq<(Seq<u8>, Seq<u8>, int, int)>>
    decreases more,
{
    match read_frame(bs) {
        None => None,
        Some((a, b, c, d, k)) => if 0 <= k < bs.len() && bs[k] == 93 {
            Some(seq![(a, b, c, d)])
        } else if 0 <= k < bs.len() && bs[k] == 44 && more > 0 {
            match read_frames(bs.skip(k + 1), (more - 1) as nat) {
                Some(t) => Some(seq![(a, b, c, d)] + t),
                None => None,
            }
        } else {
            None
        },
    }
}

proof fn lemma_read_frames(a: Seq<StackFrame>, more: nat)
    requires
        a.len() >= 1,
        more >= a.len() - 1,
    ensures
        read_frames(frames_json(a) + seq![93u8], more) == Some(a.map_values(|f: StackFrame| frame_bytes(f))),
    decreases a.len(),
{
    reveal(read_frames);
    let bs = frames_json(a) + seq![93u8];
    let fb = frame_bytes(a[0]);
    if a.len() == 1 {
        assert(frames_json(a) == frame_json(a[0]));
        lemma_read_frame(a[0], seq![93u8]);
        assert(bs[frame_json(a[0]).len() as int] == 93);
        assert(a.map_values(|f: StackFrame| frame_bytes(f)) =~= seq![(fb.0, fb.1, fb.2, fb.3)]);
    } else {
        lemma_frames_first(a);
        let tail = a.drop_first();
        let rest = seq![44u8] + frames_json(tail) + seq![93u8];
        assert(bs =~= frame_json(a[0]) + rest);
        lemma_read_frame(a[0], rest);
        let k = frame_json(a[0]).len() as int;
        assert(bs[k] == 44);
        assert(bs.skip(k + 1) =~= frames_json(tail) + seq![93u8]);
        lemma_read_frames(tail, (more - 1) as nat);
        assert(a.map_values(|f: StackFrame| frame_bytes(f)) =~= seq![(fb.0, fb.1, fb.2, fb.3)]
            + tail.map_values(|f: StackFrame| frame_bytes(f)));
    }
}

proof fn lemma_frames_start(a: Seq<StackFrame>)
    requires
        a.len() >= 1,
    ensures
        frames_json(a).len() > 0,
        frames_json(a)[0] == 123,
{
    reveal_strlit("{\"split_node_id\":");
    if a.len() >= 2 {
        lemma_frames_first(a);
    }
    assert(frame_json(a[0])[0] == 123);
}

/// Stacks that differ in any field of any frame, or in length, have
/// different canonical encodings: equal encodings mean equal frames.
pub proof fn stack_encoding_distinguishes_stacks(a: Seq<StackFrame>, b: Seq<StackFrame>)
    requires
        stack_json(a) == stack_json(b),
    ensures
        a.len() == b.len(),
        forall|i: int|
            0 <= i < a.len() ==> (#[trigger] a[i]).split_node_id@ == b[i].split_node_id@
                && a[i].branch_id@ == b[i].branch_id@ && a[i].item_index == b[i].item_index
                && a[i].total_items == b[i].total_items,
{
    if a.len() == 0 || b.len() == 0 {
        if a.len() > 0 && b.len() == 0 {
            lemma_frames_start(a);
            assert(frames_json(b) =~= Seq::<u8>::empty());
            assert(stack_json(b)[1] == 93);
            assert(stack_json(a)[1] == frames_json(a)[0]);
        }
        if b.len() > 0 && a.len() == 0 {
            lemma_frames_start(b);
            assert(frames_json(a) =~= Seq::<u8>::empty());
            assert(stack_json(a)[1] == 93);
            assert(stack_json(b)[1] == frames_json(b)[0]);
        }
    } else {
        let more = (a.len() + b.len()) as nat;
        lemma_read_frames(a, more);
        lemma_read_frames(b, more);
        assert(stack_json(a).drop_first() =~= frames_json(a) + seq![93u8]);
        assert(stack_json(b).drop_first() =~= frames_json(b) + seq![93u8]);
        let ma = a.map_values(|f: StackFrame| frame_bytes(f));
        let mb = b.map_values(|f: StackFrame| frame_bytes(f));
        assert(ma == mb);
        assert(a.len() == ma.len() && b.len() == mb.len());
        assert forall|i: int| 0 <= i < a.len() implies (#[trigger] a[i]).split_node_id@ == b[i].split_node_id@
            && a[i].branch_id@ == b[i].branch_id@ && a[i].item_index == b[i].item_index
            && a[i].total_items == b[i].total_items by {
            assert(ma[i] == mb[i]);
            assert(ma[i] == frame_bytes(a[i]));
            assert(mb[i] == frame_bytes(b[i]));
            vstd::utf8::encode_utf8_decode_utf8(a[i].split_node_id@);
            vstd::utf8::encode_utf8_decode_utf8(b[i].split_node_id@);
            vstd::utf8::encode_utf8_decode_utf8(a[i].branch_id@);
            vstd::utf8::encode_utf8_decode_utf8(b[i].branch_id@);
        }
    }
}

/// Reading back the canonical encoding of a non-empty stack, after its
/// opening bracket, gives its frames: each frame's two strings as UTF-8 bytes
/// and its two integers.
pub proof fn stack_encoding_reads_back(a: Seq<StackFrame>)
    requires
        a.len() > 0,
    ensures
        read_frames(stack_json(a).drop_first(), (a.len() - 1) as nat) == Some(
            a.map_values(|f: StackFrame| frame_bytes(f)),
        ),
{
    lemma_read_frames(a, (a.len() - 1) as nat);
    assert(stack_json(a).drop_first() =~= frames_json(a) + seq![93u8]);
}

/// Frames with the same fields give the same lineage hash, in any process:
/// the hash is a function of the frames alone.
pub proof fn lineage_hash_depends_on_frames_only(a: Seq<StackFrame>, b: Seq<StackFrame>)
    requires
        a.len() == b.len(),
        forall|i: int|
            0 <= i < a.len() ==> (#[trigger] a[i]).split_node_id@ == b[i].split_node_id@
                && a[i].branch_id@ == b[i].branch_id@ && a[i].item_index == b[i].item_index
                && a[i].total_items == b[i].total_items,
    ensures
        stack_json(a) == stack_json(b),
        lineage_hash_of(a) == lineage_hash_of(b),
    decreases a.len(),
{
    if a.len() > 0 {
        lineage_hash_depends_on_frames_only(a.drop_last(), b.drop_last());
        assert(frame_json(a.last()) == frame_json(b.last()));
        assert(frames_json(a.drop_last()) == frames_json(b.drop_last())) by {
            assert(stack_json(a.drop_last()) == stack_json(b.drop_last()));
            assert(frames_json(a.drop_last()) =~= stack_json(a.drop_last()).subrange(1, stack_json(a.drop_last()).len() - 1));
            assert(frames_json(b.drop_last()) =~= stack_json(b.drop_last()).subrange(1, stack_json(b.drop_last()).len() - 1));
        }
        if a.len() == 1 {
            assert(frames_json(a) == frame_json(a[0]));
            assert(frames_json(b) == frame_json(b[0]));
        }
    }
}

} // verus!
