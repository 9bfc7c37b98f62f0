//! The protobuf wire format of the messages this library exchanges.
//!
//! A message is a sequence of fields; each field is a key (the field number
//! and the wire type, as a varint) followed by its value. Decoding reads the
//! fields in order and refuses malformed framing; fields whose number a
//! message does not know are skipped. Encoding writes the known fields in field-number order, leaving
//! out fields that hold their default value, as protobuf encoders do.
//!
//! Groups, a deprecated wire form, are skipped with their nested fields;
//! decoding is given how many levels of nesting remain, and skipping a field
//! at a level where none remains fails, as it does in `prost`.
use vstd::prelude::*;
use vstd::arithmetic::div_mod::*;
use vstd::arithmetic::mul::*;

verus! {

// ---------------------------------------------------------------------------
// Varints.

/// 128 to the power `k`.
pub open spec fn pow128(k: nat) -> nat
    decreases k,
{
    if k == 0 {
        1
    } else {
        128 * pow128((k - 1) as nat)
    }
}

/// The canonical (shortest) base-128 encoding of `v`, low group first.
pub open spec fn varint_bytes(v: nat) -> Seq<u8>
    decreases v,
{
    if v < 128 {
        seq![v as u8]
    } else {
        seq![((v % 128) + 128) as u8] + varint_bytes(v / 128)
    }
}

/// Reading a varint from byte `k` of `s` on: the weighted value of the
/// bytes from `k` to the last one, and the position after the last one. A
/// varint ends at its first byte below 128, within ten bytes.
pub open spec fn varint_from(s: Seq<u8>, k: nat) -> Option<(nat, nat)>
    decreases 10 - k,
{
    if k >= 10 || k >= s.len() {
        None
    } else if s[k as int] < 128 {
        Some(((s[k as int] as nat) * pow128(k), k + 1))
    } else {
        match varint_from(s, k + 1) {
            Some((v, n)) => Some((((s[k as int] - 128) as nat) * pow128(k) + v, n)),
            None => None,
        }
    }
}

/// The varint at the start of `s`: its value, wrapped to 64 bits, and its
/// length in bytes.
pub open spec fn varint_at(s: Seq<u8>) -> Option<(u64, nat)> {
    match varint_from(s, 0) {
        Some((v, n)) => Some(((v % 0x1_0000_0000_0000_0000) as u64, n)),
        None => None,
    }
}

proof fn lemma_pow128_mono(a: nat, b: nat)
    requires
        a <= b,
    ensures
        1 <= pow128(a) <= pow128(b),
    decreases b,
{
    if a < b {
        lemma_pow128_mono(a, (b - 1) as nat);
    } else if b > 0 {
        lemma_pow128_mono(0, (b - 1) as nat);
    }
}

proof fn lemma_pow128_ten()
    ensures
        pow128(10) == 0x40_0000_0000_0000_0000,
{
    reveal_with_fuel(pow128, 11);
}

proof fn lemma_varint_len(w: nat, n: nat)
    requires
        1 <= n,
        w < pow128(n),
    ensures
        1 <= varint_bytes(w).len() <= n,
    decreases w,
{
    if w >= 128 {
        assert(n >= 2) by {
            if n == 1 {
                reveal_with_fuel(pow128, 2);
            }
        }
        let n1 = (n - 1) as nat;
        assert(w / 128 < pow128(n1)) by {
            lemma_div_is_ordered(w as int, (pow128(n) - 1) as int, 128);
            assert(pow128(n) == 128 * pow128(n1));
            lemma_div_multiples_vanish(pow128(n1) as int, 128);
            lemma_div_is_ordered((pow128(n) - 1) as int, pow128(n) as int, 128);
            lemma_fundamental_div_mod((pow128(n) - 1) as int, 128);
            lemma_mod_bound((pow128(n) - 1) as int, 128);
            lemma_fundamental_div_mod(w as int, 128);
            lemma_mod_bound(w as int, 128);
            lemma_mul_is_commutative(pow128(n1) as int, 128);
            if w / 128 >= pow128(n1) {
                lemma_mul_inequality(pow128(n1) as int, (w / 128) as int, 128);
            }
        }
        lemma_varint_len(w / 128, n1);
    }
}

proof fn lemma_varint_from(s: Seq<u8>, k: nat, w: nat)
    requires
        k + varint_bytes(w).len() <= 10,
        k + varint_bytes(w).len() <= s.len(),
        s.subrange(k as int, (k + varint_bytes(w).len()) as int) == varint_bytes(w),
    ensures
        varint_from(s, k) == Some((w * pow128(k), k + varint_bytes(w).len())),
    decreases w,
{
    let b = varint_bytes(w);
    assert(s[k as int] == b[0]);
    if w < 128 {
        assert(b.len() == 1);
    } else {
        let rest = varint_bytes(w / 128);
        assert(b == seq![((w % 128) + 128) as u8] + rest);
        assert(s.subrange((k + 1) as int, (k + 1 + rest.len()) as int) =~= rest) by {
            assert forall|i: int| 0 <= i < rest.len() implies s.subrange((k + 1) as int, (k + 1 + rest.len()) as int)[i]
                == rest[i] by {
                assert(s[k + 1 + i] == s.subrange(k as int, (k + b.len()) as int)[1 + i]);
                assert(b[1 + i] == rest[i]);
            }
        }
        lemma_varint_from(s, k + 1, w / 128);
        assert(s[k as int] == (w % 128) + 128) by {
            lemma_mod_bound(w as int, 128);
        }
        assert(((w % 128) as nat) * pow128(k) + (w / 128) * pow128(k + 1) == w * pow128(k)) by {
            assert(pow128(k + 1) == 128 * pow128(k));
            lemma_fundamental_div_mod(w as int, 128);
            lemma_mul_is_associative((w / 128) as int, 128, pow128(k) as int);
            lemma_mul_is_commutative((w / 128) as int, 128);
            lemma_mul_is_distributive_add_other_way(
                pow128(k) as int,
                (w % 128) as int,
                (128 * (w / 128)) as int,
            );
        }
    }
}

/// Reading back an encoded varint gives its value and length.
pub proof fn lemma_varint_roundtrip(v: u64, rest: Seq<u8>)
    ensures
        varint_at(varint_bytes(v as nat) + rest) == Some((v, varint_bytes(v as nat).len())),
        1 <= varint_bytes(v as nat).len() <= 10,
{
    let b = varint_bytes(v as nat);
    lemma_pow128_ten();
    lemma_varint_len(v as nat, 10);
    let s = b + rest;
    assert(s.subrange(0, b.len() as int) =~= b);
    lemma_varint_from(s, 0, v as nat);
    assert(pow128(0) == 1);
    assert((v as nat) * 1 == v as nat);
    lemma_small_mod(v as nat, 0x1_0000_0000_0000_0000);
}

/// Appends the varint encoding of `v`.
pub fn write_varint(out: &mut Vec<u8>, v: u64)
    ensures
        final(out)@ == old(out)@ + varint_bytes(v as nat),
{
    let mut x: u64 = v;
    while x >= 128
        invariant
            out@ + varint_bytes(x as nat) == old(out)@ + varint_bytes(v as nat),
        decreases x,
    {
        let ghost before = out@;
        out.push(((x % 128) + 128) as u8);
        assert(varint_bytes(x as nat) == seq![((x % 128) + 128) as u8] + varint_bytes(
            (x / 128) as nat,
        ));
        assert(out@ + varint_bytes((x / 128) as nat) =~= before + varint_bytes(x as nat));
        x = x / 128;
    }
    out.push(x as u8);
    assert(out@ =~= old(out)@ + varint_bytes(v as nat));
}

/// Reads the varint at position `pos` of `s`: its value and the position
/// after it.
pub fn read_varint(s: &[u8], pos: usize) -> (r: Option<(u64, usize)>)
    requires
        pos <= s@.len(),
    ensures
        match varint_at(s@.skip(pos as int)) {
            None => r is None,
            Some((v, n)) => r matches Some((rv, e)) && rv == v && e == pos + n,
        },
        r matches Some((_, e)) ==> pos < e <= s@.len(),
{
    let ghost t = s@.skip(pos as int);
    let mut k: usize = 0;
    let mut acc: u128 = 0;
    let mut mult: u128 = 1;
    proof {
        lemma_pow128_ten();
    }
    while k < 10 && k < s.len() - pos
        invariant
            pos <= s@.len(),
            t == s@.skip(pos as int),
            k <= 10,
            mult == pow128(k as nat),
            pow128(10) == 0x40_0000_0000_0000_0000,
            acc < mult,
            varint_from(t, 0) == (match varint_from(t, k as nat) {
                Some((v, n)) => Some(((acc + v) as nat, n)),
                None => None,
            }),
        decreases 10 - k,
    {
        let b = s[pos + k];
        assert(t[k as int] == b);
        proof {
            lemma_pow128_mono(k as nat, 10);
            assert(b * mult <= 255 * pow128(10)) by {
                lemma_mul_inequality(b as int, 255, mult as int);
                lemma_mul_inequality(mult as int, pow128(10) as int, 255);
                lemma_mul_is_commutative(mult as int, 255);
            }
        }
        if b < 128 {
            let total = acc + (b as u128) * mult;
            let value = (total % 0x1_0000_0000_0000_0000u128) as u64;
            proof {
                lemma_pow128_mono((k + 1) as nat, 10);
            }
            return Some((value, pos + k + 1));
        }
        proof {
            lemma_pow128_mono((k + 1) as nat, 10);
            assert((b - 128) * mult + acc < 128 * mult) by {
                lemma_mul_inequality((b - 128) as int, 127, mult as int);
            }
        }
        acc = acc + ((b - 128) as u128) * mult;
        mult = mult * 128;
        k = k + 1;
    }
    None
}


// ---------------------------------------------------------------------------
// Fields.

/// The levels of nesting a message is decoded with, as in `prost`: its own
/// fields have this many, the fields of a message nested in it one less.
pub const RECURSION_LIMIT: u32 = 100;

/// The value of one field as the wire frames it. Fixed-width values and
/// groups are only ever skipped, so their bytes are not kept.
pub enum WireValue {
    Varint(u64),
    Fixed64,
    Bytes(Seq<u8>),
    Fixed32,
    Group,
}

/// One field: its number and its value.
pub struct FieldView {
    pub tag: u32,
    pub value: WireValue,
}

/// The key at the start of `s`: field number, wire type and length. A key
/// fits in 32 bits, names a wire type from 0 to 5 and a field number of at
/// least 1.
pub open spec fn key_at(s: Seq<u8>) -> Option<(u32, u8, nat)> {
    match varint_at(s) {
        Some((k, n)) => if k <= 0xffff_ffff && k % 8 <= 5 && k / 8 >= 1 {
            Some(((k / 8) as u32, (k % 8) as u8, n))
        } else {
            None
        },
        None => None,
    }
}

/// The length of a value of wire type `wire` at the start of `s`, skipped
/// as the value of field `tag` with `c` levels of nesting left: fails when
/// none is left, when the value runs past the end, and for an end-group key.
pub open spec fn skip_len(s: Seq<u8>, wire: u8, tag: u32, c: nat) -> Option<nat>
    decreases s.len(), 1nat,
{
    if c == 0 {
        None
    } else if wire == 0 {
        match varint_at(s) {
            Some((_, n)) => if n <= s.len() {
                Some(n)
            } else {
                None
            },
            None => None,
        }
    } else if wire == 1 {
        if s.len() >= 8 {
            Some(8)
        } else {
            None
        }
    } else if wire == 2 {
        match varint_at(s) {
            Some((len, n)) => if n + len <= s.len() {
                Some((n + len) as nat)
            } else {
                None
            },
            None => None,
        }
    } else if wire == 5 {
        if s.len() >= 4 {
            Some(4)
        } else {
            None
        }
    } else if wire == 3 {
        group_body_len(s, tag, c)
    } else {
        None
    }
}

/// The length of the rest of a group of field `tag` at the start of `s`, up
/// to and including its end-group key: its fields are skipped with one level
/// of nesting less, and the end-group key must name the same field.
pub open spec fn group_body_len(s: Seq<u8>, tag: u32, c: nat) -> Option<nat>
    decreases s.len(), 0nat,
{
    match key_at(s) {
        None => None,
        Some((t, w, n)) => if !(1 <= n <= s.len()) {
            None
        } else if w == 4 {
            if t == tag {
                Some(n)
            } else {
                None
            }
        } else if c == 0 {
            None
        } else {
            match skip_len(s.skip(n as int), w, t, (c - 1) as nat) {
                None => None,
                Some(m) => if n + m > s.len() {
                    None
                } else {
                    match group_body_len(s.skip((n + m) as int), tag, c) {
                        Some(k) => if n + m + k <= s.len() {
                            Some((n + m + k) as nat)
                        } else {
                            None
                        },
                        None => None,
                    }
                },
            }
        },
    }
}

/// The field at the start of `s` and its length, with `c` levels of nesting
/// left for the groups it may hold.
pub open spec fn field_at(s: Seq<u8>, c: nat) -> Option<(FieldView, nat)> {
    match key_at(s) {
        None => None,
        Some((tag, wire, n)) => {
            let rest = s.skip(n as int);
            if wire == 0 {
                match varint_at(rest) {
                    Some((v, m)) => Some((FieldView { tag, value: WireValue::Varint(v) }, n + m)),
                    None => None,
                }
            } else if wire == 1 {
                if rest.len() >= 8 {
                    Some((FieldView { tag, value: WireValue::Fixed64 }, n + 8))
                } else {
                    None
                }
            } else if wire == 2 {
                match varint_at(rest) {
                    Some((len, m)) => if m + len <= rest.len() {
                        Some(
                            (
                                FieldView {
                                    tag,
                                    value: WireValue::Bytes(rest.subrange(m as int, m + len)),
                                },
                                (n + m + len) as nat,
                            ),
                        )
                    } else {
                        None
                    },
                    None => None,
                }
            } else if wire == 5 {
                if rest.len() >= 4 {
                    Some((FieldView { tag, value: WireValue::Fixed32 }, n + 4))
                } else {
                    None
                }
            } else if wire == 3 {
                match skip_len(rest, 3, tag, c) {
                    Some(k) => Some((FieldView { tag, value: WireValue::Group }, n + k)),
                    None => None,
                }
            } else {
                None
            }
        },
    }
}

/// The fields of `s` in order, or `None` when the framing is malformed; `c`
/// levels of nesting are left for groups.
pub open spec fn fields_of(s: Seq<u8>, c: nat) -> Option<Seq<FieldView>>
    decreases s.len(),
{
    if s.len() == 0 {
        Some(Seq::empty())
    } else {
        match field_at(s, c) {
            Some((f, n)) => if 1 <= n <= s.len() {
                match fields_of(s.skip(n as int), c) {
                    Some(fs) => Some(seq![f] + fs),
                    None => None,
                }
            } else {
                None
            },
            None => None,
        }
    }
}

/// The encoding of a key.
pub open spec fn key_bytes(tag: u32, wire: u8) -> Seq<u8> {
    varint_bytes((tag * 8 + wire) as nat)
}

/// Whether this library writes a field: a field number below 2^29, and a
/// varint or a length-delimited value.
pub open spec fn encodable(f: FieldView) -> bool {
    &&& 1 <= f.tag < 0x2000_0000
    &&& match f.value {
        WireValue::Varint(_) => true,
        WireValue::Bytes(b) => b.len() < 0x1_0000_0000_0000_0000,
        _ => false,
    }
}

/// The encoding of a field.
pub open spec fn field_bytes(f: FieldView) -> Seq<u8> {
    match f.value {
        WireValue::Varint(v) => key_bytes(f.tag, 0) + varint_bytes(v as nat),
        WireValue::Bytes(b) => key_bytes(f.tag, 2) + varint_bytes(b.len()) + b,
        WireValue::Fixed64 => key_bytes(f.tag, 1) + Seq::new(8, |i: int| 0u8),
        WireValue::Fixed32 => key_bytes(f.tag, 5) + Seq::new(4, |i: int| 0u8),
        WireValue::Group => key_bytes(f.tag, 3) + key_bytes(f.tag, 4),
    }
}

/// The encoding of fields, one after the other.
pub open spec fn fields_bytes(fs: Seq<FieldView>) -> Seq<u8>
    decreases fs.len(),
{
    if fs.len() == 0 {
        Seq::empty()
    } else {
        field_bytes(fs[0]) + fields_bytes(fs.drop_first())
    }
}

proof fn lemma_key_roundtrip(tag: u32, wire: u8, rest: Seq<u8>)
    requires
        1 <= tag < 0x2000_0000,
        wire <= 5,
    ensures
        key_at(key_bytes(tag, wire) + rest) == Some((tag, wire, key_bytes(tag, wire).len())),
        1 <= key_bytes(tag, wire).len() <= 10,
{
    let k: u64 = (tag * 8 + wire) as u64;
    assert(k as nat == tag * 8 + wire);
    lemma_varint_roundtrip(k, rest);
    assert(k / 8 == tag && k % 8 == wire) by {
        lemma_fundamental_div_mod_converse(k as int, 8, tag as int, wire as int);
    }
}

/// Reading back an encoded field gives the field and its length.
pub proof fn lemma_field_roundtrip(f: FieldView, rest: Seq<u8>, c: nat)
    requires
        encodable(f),
    ensures
        field_at(field_bytes(f) + rest, c) == Some((f, field_bytes(f).len())),
{
    let s = field_bytes(f) + rest;
    match f.value {
        WireValue::Varint(v) => {
            let kb = key_bytes(f.tag, 0);
            let vb = varint_bytes(v as nat);
            assert(s =~= kb + (vb + rest));
            lemma_key_roundtrip(f.tag, 0, vb + rest);
            assert(s.skip(kb.len() as int) =~= vb + rest);
            lemma_varint_roundtrip(v, rest);
        },
        WireValue::Bytes(b) => {
            let kb = key_bytes(f.tag, 2);
            let lb = varint_bytes(b.len());
            let len: u64 = b.len() as u64;
            assert(s =~= kb + (lb + (b + rest)));
            lemma_key_roundtrip(f.tag, 2, lb + (b + rest));
            assert(s.skip(kb.len() as int) =~= lb + (b + rest));
            lemma_varint_roundtrip(len, b + rest);
            assert((lb + (b + rest)).subrange(lb.len() as int, (lb.len() + b.len()) as int) =~= b);
        },
        _ => {},
    }
}

/// Reading back encoded fields gives the fields.
pub proof fn lemma_fields_roundtrip(fs: Seq<FieldView>, c: nat)
    requires
        forall|i: int| 0 <= i < fs.len() ==> encodable(#[trigger] fs[i]),
    ensures
        fields_of(fields_bytes(fs), c) == Some(fs),
    decreases fs.len(),
{
    if fs.len() > 0 {
        let s = fields_bytes(fs);
        let first = field_bytes(fs[0]);
        let tail = fields_bytes(fs.drop_first());
        assert(encodable(fs[0]));
        lemma_field_roundtrip(fs[0], tail, c);
        assert(s.skip(first.len() as int) =~= tail);
        assert forall|i: int| 0 <= i < fs.drop_first().len() implies encodable(
            #[trigger] fs.drop_first()[i],
        ) by {
            assert(fs.drop_first()[i] == fs[i + 1]);
        }
        lemma_fields_roundtrip(fs.drop_first(), c);
        assert(seq![fs[0]] + fs.drop_first() =~= fs);
    } else {
        assert(fs =~= Seq::<FieldView>::empty());
    }
}

/// A length-delimited field takes at most twenty bytes besides its value.
pub proof fn lemma_bytes_field_len(tag: u32, b: Seq<u8>)
    requires
        1 <= tag < 0x2000_0000,
        b.len() < 0x1_0000_0000_0000_0000,
    ensures
        field_bytes(FieldView { tag, value: WireValue::Bytes(b) }).len() <= b.len() + 20,
{
    lemma_key_roundtrip(tag, 2, Seq::empty());
    lemma_varint_roundtrip(b.len() as u64, Seq::empty());
}

/// A varint field takes at most twenty bytes.
pub proof fn lemma_varint_field_len(tag: u32, v: u64)
    requires
        1 <= tag < 0x2000_0000,
    ensures
        field_bytes(FieldView { tag, value: WireValue::Varint(v) }).len() <= 20,
{
    lemma_key_roundtrip(tag, 0, Seq::empty());
    lemma_varint_roundtrip(v, Seq::empty());
}

/// Encoding one more field appends its bytes.
pub proof fn lemma_fields_bytes_push(fs: Seq<FieldView>, f: FieldView)
    ensures
        fields_bytes(fs.push(f)) == fields_bytes(fs) + field_bytes(f),
    decreases fs.len(),
{
    if fs.len() == 0 {
        assert(fs.push(f).drop_first() =~= Seq::<FieldView>::empty());
        assert(fields_bytes(Seq::<FieldView>::empty()) == Seq::<u8>::empty());
        assert(fs.push(f)[0] == f);
        assert(fields_bytes(fs.push(f)) == field_bytes(f) + fields_bytes(fs.push(f).drop_first()));
        assert(fields_bytes(fs.push(f)) =~= field_bytes(f));
        assert(fields_bytes(fs) + field_bytes(f) =~= field_bytes(f));
    } else {
        assert(fs.push(f).drop_first() =~= fs.drop_first().push(f));
        lemma_fields_bytes_push(fs.drop_first(), f);
        assert(fields_bytes(fs.push(f)) =~= fields_bytes(fs) + field_bytes(f));
    }
}

/// One field, as it is read.
pub enum FieldValue {
    Varint(u64),
    Fixed64,
    Bytes(Vec<u8>),
    Fixed32,
    Group,
}

/// One field read from a message.
pub struct Field {
    pub tag: u32,
    pub value: FieldValue,
}

impl View for Field {
    type V = FieldView;

    open spec fn view(&self) -> FieldView {
        FieldView {
            tag: self.tag,
            value: match self.value {
                FieldValue::Varint(v) => WireValue::Varint(v),
                FieldValue::Fixed64 => WireValue::Fixed64,
                FieldValue::Bytes(b) => WireValue::Bytes(b@),
                FieldValue::Fixed32 => WireValue::Fixed32,
                FieldValue::Group => WireValue::Group,
            },
        }
    }
}

/// The views of fields.
pub open spec fn fields_view(v: Seq<Field>) -> Seq<FieldView> {
    v.map_values(|f: Field| f@)
}

/// Skips a value of wire type `wire` at position `pos` of `s`, as the value
/// of field `tag` with `c` levels of nesting left: the position after it.
fn skip_value(s: &[u8], pos: usize, wire: u8, tag: u32, c: u32) -> (r: Option<usize>)
    requires
        pos <= s@.len(),
    ensures
        match skip_len(s@.skip(pos as int), wire, tag, c as nat) {
            None => r is None,
            Some(m) => r matches Some(e) && e == pos + m,
        },
        r matches Some(e) ==> pos <= e <= s@.len(),
    decreases s@.len() - pos, 1nat,
{
    let ghost t = s@.skip(pos as int);
    if c == 0 {
        return None;
    }
    if wire == 0 {
        match read_varint(s, pos) {
            Some((_, e)) => Some(e),
            None => None,
        }
    } else if wire == 1 {
        if s.len() - pos >= 8 {
            Some(pos + 8)
        } else {
            None
        }
    } else if wire == 2 {
        match read_varint(s, pos) {
            Some((len, p2)) => {
                if len <= (s.len() - p2) as u64 {
                    Some(p2 + len as usize)
                } else {
                    None
                }
            },
            None => None,
        }
    } else if wire == 5 {
        if s.len() - pos >= 4 {
            Some(pos + 4)
        } else {
            None
        }
    } else if wire == 3 {
        skip_group(s, pos, tag, c)
    } else {
        None
    }
}

/// Skips the rest of a group of field `tag` from position `pos` of `s`, up
/// to and including its end-group key: the position after it.
fn skip_group(s: &[u8], pos: usize, tag: u32, c: u32) -> (r: Option<usize>)
    requires
        pos <= s@.len(),
    ensures
        match group_body_len(s@.skip(pos as int), tag, c as nat) {
            None => r is None,
            Some(k) => r matches Some(e) && e == pos + k,
        },
        r matches Some(e) ==> pos <= e <= s@.len(),
    decreases s@.len() - pos, 0nat,
{
    let ghost t = s@.skip(pos as int);
    let (k, p1) = match read_varint(s, pos) {
        Some(x) => x,
        None => return None,
    };
    if !(k <= 0xffff_ffff && k % 8 <= 5 && k / 8 >= 1) {
        return None;
    }
    let w = (k % 8) as u8;
    let t_in = (k / 8) as u32;
    assert(key_at(t) == Some((t_in, w, (p1 - pos) as nat)));
    assert(t.skip(p1 - pos) =~= s@.skip(p1 as int));
    if w == 4 {
        if t_in == tag {
            return Some(p1);
        } else {
            return None;
        }
    }
    if c == 0 {
        return None;
    }
    let p2 = match skip_value(s, p1, w, t_in, c - 1) {
        Some(e) => e,
        None => return None,
    };
    assert(t.skip(p2 - pos) =~= s@.skip(p2 as int));
    skip_group(s, p2, tag, c)
}

/// Reads the field at position `pos` of `s` and the position after it.
fn read_field(s: &[u8], pos: usize, c: u32) -> (r: Option<(Field, usize)>)
    requires
        pos < s@.len(),
    ensures
        match field_at(s@.skip(pos as int), c as nat) {
            None => r is None,
            Some((f, n)) => r matches Some((fe, e)) && fe@ == f && e == pos + n,
        },
        r matches Some((_, e)) ==> pos < e <= s@.len(),
{
    let ghost t = s@.skip(pos as int);
    let (k, p1) = match read_varint(s, pos) {
        Some(x) => x,
        None => return None,
    };
    if !(k <= 0xffff_ffff && k % 8 <= 5 && k / 8 >= 1) {
        return None;
    }
    let wire = (k % 8) as u8;
    let tag = (k / 8) as u32;
    assert(key_at(t) == Some((tag, wire, (p1 - pos) as nat)));
    assert(t.skip(p1 - pos) =~= s@.skip(p1 as int));
    let ghost rest = s@.skip(p1 as int);
    if wire == 0 {
        match read_varint(s, p1) {
            Some((v, p2)) => Some((Field { tag, value: FieldValue::Varint(v) }, p2)),
            None => None,
        }
    } else if wire == 1 {
        if s.len() - p1 >= 8 {
            Some((Field { tag, value: FieldValue::Fixed64 }, p1 + 8))
        } else {
            None
        }
    } else if wire == 2 {
        match read_varint(s, p1) {
            Some((len, p2)) => {
                if len <= (s.len() - p2) as u64 {
                    let end = p2 + len as usize;
                    let bytes = vstd::slice::slice_to_vec(vstd::slice::slice_subrange(s, p2, end));
                    assert(bytes@ =~= s@.skip(p1 as int).subrange(
                        (p2 - p1) as int,
                        (p2 - p1) + len,
                    ));
                    Some((Field { tag, value: FieldValue::Bytes(bytes) }, end))
                } else {
                    None
                }
            },
            None => None,
        }
    } else if wire == 5 {
        if s.len() - p1 >= 4 {
            Some((Field { tag, value: FieldValue::Fixed32 }, p1 + 4))
        } else {
            None
        }
    } else if wire == 3 {
        match skip_value(s, p1, 3, tag, c) {
            Some(e) => Some((Field { tag, value: FieldValue::Group }, e)),
            None => None,
        }
    } else {
        None
    }
}

/// Reads the fields of a message in order, with `c` levels of nesting left
/// for groups; `None` when the framing is malformed.
pub fn read_fields(s: &[u8], c: u32) -> (r: Option<Vec<Field>>)
    ensures
        match fields_of(s@, c as nat) {
            None => r is None,
            Some(fs) => r matches Some(v) && fields_view(v@) == fs,
        },
{
    let mut out: Vec<Field> = Vec::new();
    let mut pos: usize = 0;
    assert(s@.skip(0) =~= s@);
    while pos < s.len()
        invariant
            pos <= s@.len(),
            fields_of(s@, c as nat) == (match fields_of(s@.skip(pos as int), c as nat) {
                Some(fs) => Some(fields_view(out@) + fs),
                None => None,
            }),
        decreases s@.len() - pos,
    {
        match read_field(s, pos, c) {
            None => {
                return None;
            },
            Some((f, e)) => {
                let ghost t = s@.skip(pos as int);
                assert(t.skip(e - pos) =~= s@.skip(e as int));
                let ghost before = out@;
                out.push(f);
                assert(fields_view(out@) =~= fields_view(before) + seq![f@]);
                assert forall|fs: Seq<FieldView>| true implies fields_view(before) + (seq![f@] + fs)
                    =~= fields_view(out@) + fs by {}
                pos = e;
            },
        }
    }
    assert(s@.skip(pos as int) =~= Seq::<u8>::empty());
    assert(fields_view(out@) + Seq::<FieldView>::empty() =~= fields_view(out@));
    Some(out)
}

/// Appends a varint field.
pub fn write_varint_field(out: &mut Vec<u8>, tag: u32, v: u64)
    requires
        1 <= tag < 0x2000_0000,
    ensures
        final(out)@ == old(out)@ + field_bytes(FieldView { tag, value: WireValue::Varint(v) }),
{
    write_varint(out, (tag as u64) * 8);
    write_varint(out, v);
    assert(final(out)@ =~= old(out)@ + field_bytes(FieldView { tag, value: WireValue::Varint(v) }));
}

/// Appends a length-delimited field.
pub fn write_bytes_field(out: &mut Vec<u8>, tag: u32, data: &[u8])
    requires
        1 <= tag < 0x2000_0000,
    ensures
        final(out)@ == old(out)@ + field_bytes(FieldView { tag, value: WireValue::Bytes(data@) }),
{
    write_varint(out, (tag as u64) * 8 + 2);
    write_varint(out, data.len() as u64);
    let mut i: usize = 0;
    let ghost mid = out@;
    while i < data.len()
        invariant
            i <= data@.len(),
            out@ == mid + data@.subrange(0, i as int),
        decreases data@.len() - i,
    {
        out.push(data[i]);
        assert(data@.subrange(0, i + 1) =~= data@.subrange(0, i as int).push(data@[i as int]));
        i = i + 1;
    }
    assert(data@.subrange(0, data@.len() as int) =~= data@);
    assert(final(out)@ =~= old(out)@ + field_bytes(FieldView { tag, value: WireValue::Bytes(data@) }));
}

} // verus!
