//! Self-describing packet value codec. Every value of the closed value domain
//! encodes to a tagged byte string with fixed numeric widths; decoding against
//! the matching type tag restores the value exactly, and decoding against a
//! different concrete tag reports a type error rather than corrupting data.
use vstd::bytes::*;
use vstd::prelude::*;
use vstd::slice::slice_subrange;
use vstd::utf8::char_is_scalar;
use vstd::utf8::char_u32_cast;
use vstd::utf8::is_scalar;

verus! {

/// Errors of the codec: a tag that does not admit the value, or bytes that are
/// not a complete encoding.
#[derive(Clone, Copy, PartialEq, Eq, Structural, Debug)]
pub enum CodecError {
    TypeError,
    Malformed,
}

/// The closed set of port type tags.
#[derive(Clone, Copy, PartialEq, Eq, Structural, Debug)]
pub enum TypeTag {
    Text,
    Raw,
    Int64,
    Uint64,
    Float64,
    Boolean,
    ListOf,
    MapOf,
    StructRef,
    Any,
}

/// A value of the closed value domain. Floating-point payloads are carried as
/// their fixed-width bit patterns so that encoding is exact.
#[derive(Debug)]
pub enum Value {
    Text(String),
    Raw(Vec<u8>),
    Int64(i64),
    Uint64(u64),
    Float64Bits(u64),
    Boolean(bool),
    ValueList(Vec<Value>),
    ValueMap(Vec<(String, Value)>),
    Structured(String, Vec<(String, Value)>),
}

/// The mathematical model of a `Value`.
pub enum ValueView {
    Text(Seq<char>),
    Raw(Seq<u8>),
    Int64(i64),
    Uint64(u64),
    Float64Bits(u64),
    Boolean(bool),
    ValueList(Seq<ValueView>),
    ValueMap(Seq<(Seq<char>, ValueView)>),
    Structured(Seq<char>, Seq<(Seq<char>, ValueView)>),
}

pub open spec fn value_list_view(items: Seq<Value>) -> Seq<ValueView>
    decreases items,
{
    if items.len() == 0 {
        Seq::empty()
    } else {
        seq![items[0]@] + value_list_view(items.subrange(1, items.len() as int))
    }
}

pub open spec fn value_pairs_view(items: Seq<(String, Value)>) -> Seq<(Seq<char>, ValueView)>
    decreases items,
{
    if items.len() == 0 {
        Seq::empty()
    } else {
        seq![(items[0].0@, items[0].1@)] + value_pairs_view(
            items.subrange(1, items.len() as int),
        )
    }
}

impl View for Value {
    type V = ValueView;

    open spec fn view(&self) -> ValueView
        decreases self,
    {
        match self {
            Value::Text(s) => ValueView::Text(s@),
            Value::Raw(b) => ValueView::Raw(b@),
            Value::Int64(i) => ValueView::Int64(*i),
            Value::Uint64(n) => ValueView::Uint64(*n),
            Value::Float64Bits(n) => ValueView::Float64Bits(*n),
            Value::Boolean(b) => ValueView::Boolean(*b),
            Value::ValueList(items) => ValueView::ValueList(value_list_view(items@)),
            Value::ValueMap(ps) => ValueView::ValueMap(value_pairs_view(ps@)),
            Value::Structured(name, ps) => ValueView::Structured(name@, value_pairs_view(ps@)),
        }
    }
}

/// The tag a value describes itself with.
pub open spec fn tag_of(v: ValueView) -> TypeTag {
    match v {
        ValueView::Text(_) => TypeTag::Text,
        ValueView::Raw(_) => TypeTag::Raw,
        ValueView::Int64(_) => TypeTag::Int64,
        ValueView::Uint64(_) => TypeTag::Uint64,
        ValueView::Float64Bits(_) => TypeTag::Float64,
        ValueView::Boolean(_) => TypeTag::Boolean,
        ValueView::ValueList(_) => TypeTag::ListOf,
        ValueView::ValueMap(_) => TypeTag::MapOf,
        ValueView::Structured(_, _) => TypeTag::StructRef,
    }
}

/// A tag admits a value if it is the value's own tag, or `Any`.
pub open spec fn tag_admits(t: TypeTag, v: ValueView) -> bool {
    t == TypeTag::Any || t == tag_of(v)
}

/// The byte that opens the encoding of each kind of value.
pub open spec fn tag_code(t: TypeTag) -> u8 {
    match t {
        TypeTag::Text => 1,
        TypeTag::Raw => 2,
        TypeTag::Int64 => 3,
        TypeTag::Uint64 => 4,
        TypeTag::Float64 => 5,
        TypeTag::Boolean => 6,
        TypeTag::ListOf => 7,
        TypeTag::MapOf => 8,
        TypeTag::StructRef => 9,
        TypeTag::Any => 10,
    }
}

/// All counted lengths fit the fixed 64-bit width the encoding uses.
pub open spec fn fits_len(n: nat) -> bool {
    n < 0x1_0000_0000_0000_0000
}

/// Well-formed model values: every counted length fits its fixed width.
pub open spec fn view_wf(v: ValueView) -> bool
    decreases v,
{
    match v {
        ValueView::Text(s) => fits_len(s.len()),
        ValueView::Raw(b) => fits_len(b.len()),
        ValueView::Int64(_) => true,
        ValueView::Uint64(_) => true,
        ValueView::Float64Bits(_) => true,
        ValueView::Boolean(_) => true,
        ValueView::ValueList(items) => fits_len(items.len()) && (forall|i: int|
            0 <= i < items.len() ==> view_wf(#[trigger] items[i])),
        ValueView::ValueMap(ps) => fits_len(ps.len()) && (forall|i: int|
            0 <= i < ps.len() ==> fits_len((#[trigger] ps[i]).0.len()) && view_wf(ps[i].1)),
        ValueView::Structured(name, ps) => fits_len(name.len()) && fits_len(ps.len()) && (
        forall|i: int|
            0 <= i < ps.len() ==> fits_len((#[trigger] ps[i]).0.len()) && view_wf(ps[i].1)),
    }
}

/// Characters, each as a fixed-width little-endian code point.
pub open spec fn enc_chars_raw(s: Seq<char>) -> Seq<u8>
    decreases s.len(),
{
    if s.len() == 0 {
        Seq::empty()
    } else {
        spec_u32_to_le_bytes(s[0] as u32) + enc_chars_raw(s.subrange(1, s.len() as int))
    }
}

/// A counted character string.
pub open spec fn enc_chars(s: Seq<char>) -> Seq<u8> {
    spec_u64_to_le_bytes(s.len() as u64) + enc_chars_raw(s)
}

/// The encoding of one value: its tag byte, then its payload.
pub open spec fn enc_value(v: ValueView) -> Seq<u8>
    decreases v,
{
    match v {
        ValueView::Text(s) => seq![tag_code(TypeTag::Text)] + enc_chars(s),
        ValueView::Raw(b) => seq![tag_code(TypeTag::Raw)] + spec_u64_to_le_bytes(
            b.len() as u64,
        ) + b,
        ValueView::Int64(i) => seq![tag_code(TypeTag::Int64)] + spec_u64_to_le_bytes(i as u64),
        ValueView::Uint64(n) => seq![tag_code(TypeTag::Uint64)] + spec_u64_to_le_bytes(n),
        ValueView::Float64Bits(n) => seq![tag_code(TypeTag::Float64)] + spec_u64_to_le_bytes(n),
        ValueView::Boolean(b) => seq![
            tag_code(TypeTag::Boolean),
            if b {
                1u8
            } else {
                0u8
            },
        ],
        ValueView::ValueList(items) => seq![tag_code(TypeTag::ListOf)] + spec_u64_to_le_bytes(
            items.len() as u64,
        ) + enc_value_seq(items),
        ValueView::ValueMap(ps) => seq![tag_code(TypeTag::MapOf)] + spec_u64_to_le_bytes(
            ps.len() as u64,
        ) + enc_pair_seq(ps),
        ValueView::Structured(name, ps) => seq![tag_code(TypeTag::StructRef)] + enc_chars(name)
            + spec_u64_to_le_bytes(ps.len() as u64) + enc_pair_seq(ps),
    }
}

pub open spec fn enc_value_seq(items: Seq<ValueView>) -> Seq<u8>
    decreases items,
{
    if items.len() == 0 {
        Seq::empty()
    } else {
        enc_value(items[0]) + enc_value_seq(items.subrange(1, items.len() as int))
    }
}

pub open spec fn enc_pair_seq(ps: Seq<(Seq<char>, ValueView)>) -> Seq<u8>
    decreases ps,
{
    if ps.len() == 0 {
        Seq::empty()
    } else {
        enc_chars(ps[0].0) + enc_value(ps[0].1) + enc_pair_seq(ps.subrange(1, ps.len() as int))
    }
}

proof fn lemma_enc_chars_raw_snoc(s: Seq<char>)
    requires
        s.len() > 0,
    ensures
        enc_chars_raw(s) == enc_chars_raw(s.drop_last()) + spec_u32_to_le_bytes(s.last() as u32),
    decreases s.len(),
{
    if s.len() == 1 {
        assert(s.drop_last() =~= Seq::<char>::empty());
        assert(s.subrange(1, s.len() as int) =~= Seq::<char>::empty());
        assert(enc_chars_raw(s) =~= enc_chars_raw(s.drop_last()) + spec_u32_to_le_bytes(
            s.last() as u32,
        ));
    } else {
        let t = s.subrange(1, s.len() as int);
        lemma_enc_chars_raw_snoc(t);
        assert(t.drop_last() =~= s.drop_last().subrange(1, s.drop_last().len() as int));
        assert(t.last() == s.last());
        assert(enc_chars_raw(s) =~= enc_chars_raw(s.drop_last()) + spec_u32_to_le_bytes(
            s.last() as u32,
        ));
    }
}

proof fn lemma_enc_value_seq_snoc(items: Seq<ValueView>)
    requires
        items.len() > 0,
    ensures
        enc_value_seq(items) == enc_value_seq(items.drop_last()) + enc_value(items.last()),
    decreases items.len(),
{
    if items.len() == 1 {
        assert(items.drop_last() =~= Seq::<ValueView>::empty());
        assert(items.subrange(1, items.len() as int) =~= Seq::<ValueView>::empty());
        assert(enc_value_seq(items) =~= enc_value_seq(items.drop_last()) + enc_value(
            items.last(),
        ));
    } else {
        let t = items.subrange(1, items.len() as int);
        lemma_enc_value_seq_snoc(t);
        assert(t.drop_last() =~= items.drop_last().subrange(1, items.drop_last().len() as int));
        assert(t.last() == items.last());
        assert(enc_value_seq(items) =~= enc_value_seq(items.drop_last()) + enc_value(
            items.last(),
        ));
    }
}

proof fn lemma_enc_pair_seq_snoc(ps: Seq<(Seq<char>, ValueView)>)
    requires
        ps.len() > 0,
    ensures
        enc_pair_seq(ps) == enc_pair_seq(ps.drop_last()) + (enc_chars(ps.last().0) + enc_value(
            ps.last().1,
        )),
    decreases ps.len(),
{
    if ps.len() == 1 {
        assert(ps.drop_last() =~= Seq::<(Seq<char>, ValueView)>::empty());
        assert(ps.subrange(1, ps.len() as int) =~= Seq::<(Seq<char>, ValueView)>::empty());
        assert(enc_pair_seq(ps) =~= enc_pair_seq(ps.drop_last()) + (enc_chars(ps.last().0)
            + enc_value(ps.last().1)));
    } else {
        let t = ps.subrange(1, ps.len() as int);
        lemma_enc_pair_seq_snoc(t);
        assert(t.drop_last() =~= ps.drop_last().subrange(1, ps.drop_last().len() as int));
        assert(t.last() == ps.last());
        assert(enc_pair_seq(ps) =~= enc_pair_seq(ps.drop_last()) + (enc_chars(ps.last().0)
            + enc_value(ps.last().1)));
    }
}

pub(crate) fn push_u64_le(out: &mut Vec<u8>, n: u64)
    ensures
        final(out)@ == old(out)@ + spec_u64_to_le_bytes(n),
{
    let mut b = u64_to_le_bytes(n);
    out.append(&mut b);
}

pub(crate) fn push_chars(out: &mut Vec<u8>, s: &String)
    ensures
        final(out)@ == old(out)@ + enc_chars(s@),
        fits_len(s@.len()),
{
    let n: usize = s.as_str().unicode_len();
    push_u64_le(out, n as u64);
    let ghost base = out@;
    let mut i: usize = 0;
    while i < n
        invariant
            n == s@.len(),
            i <= n,
            out@ == base + enc_chars_raw(s@.subrange(0, i as int)),
        decreases n - i,
    {
        let c = s.as_str().get_char(i);
        let mut cb = u32_to_le_bytes(c as u32);
        out.append(&mut cb);
        proof {
            let pre = s@.subrange(0, i as int);
            let cur = s@.subrange(0, i + 1 as int);
            assert(cur.drop_last() =~= pre);
            assert(cur.last() == s@[i as int]);
            lemma_enc_chars_raw_snoc(cur);
        }
        i = i + 1;
    }
    proof {
        assert(s@.subrange(0, n as int) =~= s@);
    }
}

/// Appends the encoding of `v` to `out`; establishes that `v`'s model is
/// well-formed (its lengths are machine lengths, so they fit the fixed width).
#[verifier::loop_isolation(false)]
pub fn encode_value_into(v: &Value, out: &mut Vec<u8>)
    ensures
        final(out)@ == old(out)@ + enc_value(v@),
        view_wf(v@),
    decreases v, 1nat,
{
    match v {
        Value::Text(s) => {
            out.push(1u8);
            push_chars(out, s);
        },
        Value::Raw(b) => {
            out.push(2u8);
            push_u64_le(out, b.len() as u64);
            let mut copy = b.clone();
            out.append(&mut copy);
        },
        Value::Int64(i) => {
            out.push(3u8);
            push_u64_le(out, #[verifier::truncate] (*i as u64));
        },
        Value::Uint64(n) => {
            out.push(4u8);
            push_u64_le(out, *n);
        },
        Value::Float64Bits(n) => {
            out.push(5u8);
            push_u64_le(out, *n);
        },
        Value::Boolean(b) => {
            out.push(6u8);
            out.push(if *b {
                1u8
            } else {
                0u8
            });
        },
        Value::ValueList(items) => {
            out.push(7u8);
            let n: usize = items.len();
            push_u64_le(out, n as u64);
            let ghost base = out@;
            let mut i: usize = 0;
            while i < n
                invariant
                    n == items@.len(),
                    i <= n,
                    out@ == base + enc_value_seq(value_list_view(items@.subrange(0, i as int))),
                    forall|j: int| 0 <= j < i ==> view_wf(#[trigger] items@[j]@),
                decreases n - i,
            {
                proof {
                    let vals = items@;
                    assert(decreases_to!(*v => v->ValueList_0));
                    assert(v->ValueList_0 == *items);
                    assert(decreases_to!(*items => vals));
                    assert(decreases_to!(vals => vals[i as int]));
                    assert(decreases_to!(*v => vals[i as int]));
                }
                encode_value_into(&items[i], out);
                proof {
                    let pre = items@.subrange(0, i as int);
                    let cur = items@.subrange(0, i + 1 as int);
                    lemma_value_list_view_snoc(cur);
                    assert(cur.drop_last() =~= pre);
                    assert(value_list_view(cur).len() > 0);
                    lemma_enc_value_seq_snoc(value_list_view(cur));
                    assert(value_list_view(cur).drop_last() =~= value_list_view(pre));
                    assert(value_list_view(cur).last() == items@[i as int]@);
                }
                i = i + 1;
            }
            proof {
                assert(items@.subrange(0, n as int) =~= items@);
                lemma_value_list_view_props(items@);
            }
        },
        Value::ValueMap(ps) => {
            out.push(8u8);
            let n: usize = ps.len();
            push_u64_le(out, n as u64);
            encode_pairs_into(v, ps, out);
            proof {
                lemma_value_pairs_view_props(ps@);
            }
        },
        Value::Structured(name, ps) => {
            out.push(9u8);
            push_chars(out, name);
            let n: usize = ps.len();
            push_u64_le(out, n as u64);
            encode_pairs_into(v, ps, out);
            proof {
                lemma_value_pairs_view_props(ps@);
            }
        },
    }
}

/// Appends the encodings of the named pairs of a map or structured value;
/// `v` is the owning value, carried for termination.
#[verifier::loop_isolation(false)]
fn encode_pairs_into(v: &Value, ps: &Vec<(String, Value)>, out: &mut Vec<u8>)
    requires
        (v matches Value::ValueMap(inner) && inner == ps) || (v matches Value::Structured(
            _,
            inner,
        ) && inner == ps),
    ensures
        final(out)@ == old(out)@ + enc_pair_seq(value_pairs_view(ps@)),
        forall|j: int|
            0 <= j < ps@.len() ==> fits_len((#[trigger] ps@[j]).0@.len()) && view_wf(ps@[j].1@),
    decreases v, 0nat,
{
    let n: usize = ps.len();
    let ghost base = out@;
    let mut i: usize = 0;
    while i < n
        invariant
            n == ps@.len(),
            i <= n,
            (v matches Value::ValueMap(inner) && inner == ps) || (v matches Value::Structured(
                _,
                inner,
            ) && inner == ps),
            out@ == base + enc_pair_seq(value_pairs_view(ps@.subrange(0, i as int))),
            forall|j: int|
                0 <= j < i ==> fits_len((#[trigger] ps@[j]).0@.len()) && view_wf(ps@[j].1@),
        decreases n - i,
    {
        push_chars(out, &ps[i].0);
        proof {
            let pairs = ps@;
            if *v matches Value::ValueMap(_) {
                assert(decreases_to!(*v => v->ValueMap_0));
                assert(v->ValueMap_0 == *ps);
            } else {
                assert(decreases_to!(*v => v->Structured_1));
                assert(v->Structured_1 == *ps);
            }
            assert(decreases_to!(*ps => pairs));
            assert(decreases_to!(pairs => pairs[i as int]));
            assert(decreases_to!(pairs[i as int] => pairs[i as int].1));
            assert(decreases_to!(*v => pairs[i as int].1));
        }
        encode_value_into(&ps[i].1, out);
        proof {
            let pre = ps@.subrange(0, i as int);
            let cur = ps@.subrange(0, i + 1 as int);
            lemma_value_pairs_view_snoc(cur);
            assert(cur.drop_last() =~= pre);
            assert(value_pairs_view(cur).len() > 0);
            lemma_enc_pair_seq_snoc(value_pairs_view(cur));
            assert(value_pairs_view(cur).drop_last() =~= value_pairs_view(pre));
            assert(value_pairs_view(cur).last() == (ps@[i as int].0@, ps@[i as int].1@));
        }
        i = i + 1;
    }
    proof {
        assert(ps@.subrange(0, n as int) =~= ps@);
    }
}

/// Relies on char::from_u32: `Some` exactly on Unicode scalar values, and the
/// character returned has the given code point.
#[verifier::external_body]
fn char_from_u32(v: u32) -> (r: Option<char>)
    ensures
        r is Some <==> is_scalar(v),
        r matches Some(c) ==> c as u32 == v,
{
    char::from_u32(v)
}

/// Relies on String::push: appends one character to the string.
#[verifier::external_body]
pub(crate) fn string_push(s: &mut String, c: char)
    ensures
        final(s)@ == old(s)@.push(c),
{
    s.push(c);
}

pub(crate) fn read_u64_at(b: &Vec<u8>, pos: usize) -> (r: Option<(u64, usize)>)
    requires
        pos <= b@.len(),
    ensures
        match r {
            Some((n, end)) => end == pos + 8 && end <= b@.len() && n == spec_u64_from_le_bytes(
                b@.subrange(pos as int, pos + 8),
            ),
            None => b@.len() - pos < 8,
        },
{
    if b.len() - pos < 8 {
        return None;
    }
    let s = slice_subrange(b.as_slice(), pos, pos + 8);
    let n = u64_from_le_bytes(s);
    Some((n, pos + 8))
}

#[verifier::loop_isolation(false)]
pub(crate) fn decode_chars_at(b: &Vec<u8>, pos: usize) -> (r: Result<(String, usize), CodecError>)
    requires
        pos <= b@.len(),
    ensures
        match r {
            Ok((s, end)) => pos <= end <= b@.len() && dec_chars(b@.skip(pos as int)) == Some(
                (s@, end - pos),
            ),
            Err(e) => dec_chars(b@.skip(pos as int)) is None && e == CodecError::Malformed,
        },
{
    let ghost s0 = b@.skip(pos as int);
    let n = match read_u64_at(b, pos) {
        Some((n, _)) => n,
        None => {
            return Err(CodecError::Malformed);
        },
    };
    proof {
        assert(s0.subrange(0, 8) =~= b@.subrange(pos as int, pos + 8));
        assert(s0.skip(8) =~= b@.skip(pos + 8));
        let t_opt = dec_chars_raw(b@.skip(pos + 8), n as nat);
        if t_opt is Some {
            assert(Seq::<char>::empty() + t_opt.unwrap() =~= t_opt.unwrap());
        }
    }
    let mut acc = String::new();
    let mut cur: usize = pos + 8;
    let mut i: u64 = 0;
    while i < n
        invariant
            i <= n,
            pos + 8 <= cur <= b@.len(),
            cur as int == pos + 8 + 4 * (i as int),
            acc@.len() == i,
            dec_chars_raw(s0.skip(8), n as nat) == (match dec_chars_raw(
                b@.skip(cur as int),
                (n - i) as nat,
            ) {
                Some(t) => Some(acc@ + t),
                None => None::<Seq<char>>,
            }),
        decreases n - i,
    {
        if b.len() - cur < 4 {
            return Err(CodecError::Malformed);
        }
        let s = slice_subrange(b.as_slice(), cur, cur + 4);
        let u = u32_from_le_bytes(s);
        proof {
            assert(b@.skip(cur as int).subrange(0, 4) =~= b@.subrange(cur as int, cur + 4));
        }
        match char_from_u32(u) {
            Some(c) => {
                proof {
                    char_u32_cast(c, u);
                }
                string_push(&mut acc, c);
                proof {
                    assert(b@.skip(cur as int).skip(4) =~= b@.skip(cur + 4));
                    let t_opt = dec_chars_raw(b@.skip(cur + 4), (n - i - 1) as nat);
                    if t_opt is Some {
                        assert(acc@ + t_opt.unwrap() =~= acc@.drop_last() + (seq![c]
                            + t_opt.unwrap()));
                    }
                }
                cur = cur + 4;
                i = i + 1;
            },
            None => {
                return Err(CodecError::Malformed);
            },
        }
    }
    proof {
        assert(dec_chars_raw(b@.skip(cur as int), 0) == Some(Seq::<char>::empty()));
        assert(acc@ + Seq::<char>::empty() =~= acc@);
        assert(dec_chars(s0) == Some((acc@, 8 + 4 * (n as int))));
        assert(cur - pos == 8 + 4 * (n as int));
    }
    Ok((acc, cur))
}

#[verifier::loop_isolation(false)]
#[verifier::rlimit(60)]
fn decode_value_at(b: &Vec<u8>, pos: usize) -> (r: Result<(Value, usize), CodecError>)
    requires
        pos <= b@.len(),
    ensures
        match r {
            Ok((val, end)) => pos <= end <= b@.len() && dec_value(b@.skip(pos as int)) == Some(
                (val@, end - pos),
            ),
            Err(e) => dec_value(b@.skip(pos as int)) is None && e == CodecError::Malformed,
        },
    decreases b@.len() - pos, 0nat, 0nat,
{
    let ghost s0 = b@.skip(pos as int);
    if b.len() - pos < 1 {
        return Err(CodecError::Malformed);
    }
    let tag = b[pos];
    let p = pos + 1;
    proof {
        assert(s0[0] == b@[pos as int]);
        assert(s0.skip(1) =~= b@.skip(p as int));
    }
    let ghost rsp = s0.skip(1);
    if tag == 1 {
        match decode_chars_at(b, p) {
            Ok((s, end)) => Ok((Value::Text(s), end)),
            Err(e) => Err(e),
        }
    } else if tag == 2 {
        match read_u64_at(b, p) {
            Some((n, p2)) => {
                proof {
                    assert(rsp.subrange(0, 8) =~= b@.subrange(p as int, p + 8));
                }
                let rem = b.len() - p2;
                if n > rem as u64 {
                    return Err(CodecError::Malformed);
                }
                let nu = n as usize;
                let raw = vstd::slice::slice_to_vec(slice_subrange(b.as_slice(), p2, p2 + nu));
                proof {
                    assert(raw@ =~= rsp.subrange(8, 8 + n as int));
                }
                Ok((Value::Raw(raw), p2 + nu))
            },
            None => Err(CodecError::Malformed),
        }
    } else if tag == 3 {
        match read_u64_at(b, p) {
            Some((n, p2)) => {
                proof {
                    assert(rsp.subrange(0, 8) =~= b@.subrange(p as int, p + 8));
                }
                Ok((Value::Int64(#[verifier::truncate] (n as i64)), p2))
            },
            None => Err(CodecError::Malformed),
        }
    } else if tag == 4 {
        match read_u64_at(b, p) {
            Some((n, p2)) => {
                proof {
                    assert(rsp.subrange(0, 8) =~= b@.subrange(p as int, p + 8));
                }
                Ok((Value::Uint64(n), p2))
            },
            None => Err(CodecError::Malformed),
        }
    } else if tag == 5 {
        match read_u64_at(b, p) {
            Some((n, p2)) => {
                proof {
                    assert(rsp.subrange(0, 8) =~= b@.subrange(p as int, p + 8));
                }
                Ok((Value::Float64Bits(n), p2))
            },
            None => Err(CodecError::Malformed),
        }
    } else if tag == 6 {
        if b.len() - p < 1 {
            return Err(CodecError::Malformed);
        }
        let bit = b[p];
        proof {
            assert(rsp[0] == b@[p as int]);
        }
        if bit == 1 {
            Ok((Value::Boolean(true), p + 1))
        } else if bit == 0 {
            Ok((Value::Boolean(false), p + 1))
        } else {
            Err(CodecError::Malformed)
        }
    } else if tag == 7 {
        match read_u64_at(b, p) {
            Some((n, p2)) => {
                proof {
                    assert(rsp.subrange(0, 8) =~= b@.subrange(p as int, p + 8));
                    assert(rsp.skip(8) =~= b@.skip(p2 as int));
                }
                match decode_value_list(b, p2, n) {
                    Ok((vals, end)) => Ok((Value::ValueList(vals), end)),
                    Err(e) => Err(e),
                }
            },
            None => Err(CodecError::Malformed),
        }
    } else if tag == 8 {
        match read_u64_at(b, p) {
            Some((n, p2)) => {
                proof {
                    assert(rsp.subrange(0, 8) =~= b@.subrange(p as int, p + 8));
                    assert(rsp.skip(8) =~= b@.skip(p2 as int));
                }
                match decode_pair_list(b, p2, n) {
                    Ok((ps, end)) => Ok((Value::ValueMap(ps), end)),
                    Err(e) => Err(e),
                }
            },
            None => Err(CodecError::Malformed),
        }
    } else if tag == 9 {
        match decode_chars_at(b, p) {
            Ok((name, p2)) => {
                proof {
                    assert(rsp.skip(p2 - p) =~= b@.skip(p2 as int));
                }
                match read_u64_at(b, p2) {
                    Some((n, p3)) => {
                        proof {
                            assert(b@.skip(p2 as int).subrange(0, 8) =~= b@.subrange(
                                p2 as int,
                                p2 + 8,
                            ));
                            assert(b@.skip(p2 as int).skip(8) =~= b@.skip(p3 as int));
                        }
                        match decode_pair_list(b, p3, n) {
                            Ok((ps, end)) => Ok((Value::Structured(name, ps), end)),
                            Err(e) => Err(e),
                        }
                    },
                    None => Err(CodecError::Malformed),
                }
            },
            Err(e) => Err(e),
        }
    } else {
        Err(CodecError::Malformed)
    }
}

fn decode_value_list(b: &Vec<u8>, pos: usize, n: u64) -> (r: Result<(Vec<Value>, usize), CodecError>)
    requires
        pos <= b@.len(),
    ensures
        match r {
            Ok((vals, end)) => pos <= end <= b@.len() && dec_value_seq(
                b@.skip(pos as int),
                n as nat,
            ) == Some((value_list_view(vals@), end - pos)),
            Err(e) => dec_value_seq(b@.skip(pos as int), n as nat) is None && e
                == CodecError::Malformed,
        },
    decreases b@.len() - pos, 1nat, n,
{
    if n == 0 {
        let vals: Vec<Value> = Vec::new();
        proof {
            assert(value_list_view(vals@) =~= Seq::<ValueView>::empty());
        }
        return Ok((vals, pos));
    }
    match decode_value_at(b, pos) {
        Ok((v, p1)) => {
            if p1 == pos {
                return Err(CodecError::Malformed);
            }
            proof {
                assert(b@.skip(pos as int).skip(p1 - pos) =~= b@.skip(p1 as int));
            }
            match decode_value_list(b, p1, n - 1) {
                Ok((vs, end)) => {
                    let ghost tail_view = vs@;
                    let mut vals = vs;
                    vals.insert(0, v);
                    proof {
                        assert(vals@[0] == v);
                        assert(vals@.subrange(1, vals@.len() as int) =~= tail_view);
                        assert(value_list_view(vals@) == seq![v@] + value_list_view(tail_view));
                    }
                    Ok((vals, end))
                },
                Err(e) => Err(e),
            }
        },
        Err(e) => Err(e),
    }
}

fn decode_pair_list(b: &Vec<u8>, pos: usize, n: u64) -> (r: Result<
    (Vec<(String, Value)>, usize),
    CodecError,
>)
    requires
        pos <= b@.len(),
    ensures
        match r {
            Ok((ps, end)) => pos <= end <= b@.len() && dec_pair_seq(
                b@.skip(pos as int),
                n as nat,
            ) == Some((value_pairs_view(ps@), end - pos)),
            Err(e) => dec_pair_seq(b@.skip(pos as int), n as nat) is None && e
                == CodecError::Malformed,
        },
    decreases b@.len() - pos, 1nat, n,
{
    if n == 0 {
        let ps: Vec<(String, Value)> = Vec::new();
        proof {
            assert(value_pairs_view(ps@) =~= Seq::<(Seq<char>, ValueView)>::empty());
        }
        return Ok((ps, pos));
    }
    match decode_chars_at(b, pos) {
        Ok((key, p1)) => {
            proof {
                assert(b@.skip(pos as int).skip(p1 - pos) =~= b@.skip(p1 as int));
            }
            match decode_value_at(b, p1) {
                Ok((v, p2)) => {
                    if p2 == p1 {
                        return Err(CodecError::Malformed);
                    }
                    proof {
                        assert(b@.skip(pos as int).skip(p2 - pos) =~= b@.skip(p2 as int));
                    }
                    match decode_pair_list(b, p2, n - 1) {
                        Ok((ps0, end)) => {
                            let ghost tail_view = ps0@;
                            let mut ps = ps0;
                            ps.insert(0, (key, v));
                            proof {
                                assert(ps@[0] == (key, v));
                                assert(ps@.subrange(1, ps@.len() as int) =~= tail_view);
                                assert(value_pairs_view(ps@) == seq![(key@, v@)]
                                    + value_pairs_view(tail_view));
                            }
                            Ok((ps, end))
                        },
                        Err(e) => Err(e),
                    }
                },
                Err(e) => Err(e),
            }
        },
        Err(e) => Err(e),
    }
}

/// The tag a value describes itself with.
pub fn value_tag(value: &Value) -> (t: TypeTag)
    ensures
        t == tag_of(value@),
{
    match value {
        Value::Text(_) => TypeTag::Text,
        Value::Raw(_) => TypeTag::Raw,
        Value::Int64(_) => TypeTag::Int64,
        Value::Uint64(_) => TypeTag::Uint64,
        Value::Float64Bits(_) => TypeTag::Float64,
        Value::Boolean(_) => TypeTag::Boolean,
        Value::ValueList(_) => TypeTag::ListOf,
        Value::ValueMap(_) => TypeTag::MapOf,
        Value::Structured(_, _) => TypeTag::StructRef,
    }
}

/// Encodes a value under a tag that admits it; a tag that does not is a type
/// error and nothing is encoded.
pub fn encode(value: &Value, tag: &TypeTag) -> (r: Result<Vec<u8>, CodecError>)
    ensures
        match r {
            Ok(bytes) => tag_admits(*tag, value@) && bytes@ == enc_value(value@) && view_wf(
                value@,
            ),
            Err(e) => e == CodecError::TypeError && !tag_admits(*tag, value@),
        },
{
    if !(*tag == TypeTag::Any || *tag == value_tag(value)) {
        return Err(CodecError::TypeError);
    }
    let mut out: Vec<u8> = Vec::new();
    encode_value_into(value, &mut out);
    Ok(out)
}

/// Decodes a complete encoding under the given tag. A well-formed encoding
/// whose value the tag does not admit is a type error; anything else that is
/// not a complete encoding is malformed.
pub fn decode(bytes: &Vec<u8>, tag: &TypeTag) -> (r: Result<Value, CodecError>)
    ensures
        r matches Ok(val) ==> dec_value(bytes@) == Some((val@, bytes@.len() as int))
            && tag_admits(*tag, val@),
        r == Err::<Value, CodecError>(CodecError::TypeError) ==> (dec_value(bytes@) matches Some(
            (vv, k),
        ) && k == bytes@.len() && !tag_admits(*tag, vv)),
        r == Err::<Value, CodecError>(CodecError::Malformed) ==> !(dec_value(
            bytes@,
        ) matches Some((vv, k)) && k == bytes@.len()),
{
    proof {
        assert(bytes@.skip(0) =~= bytes@);
    }
    match decode_value_at(bytes, 0) {
        Ok((val, end)) => {
            if end != bytes.len() {
                return Err(CodecError::Malformed);
            }
            if *tag == TypeTag::Any || *tag == value_tag(&val) {
                Ok(val)
            } else {
                Err(CodecError::TypeError)
            }
        },
        Err(_) => Err(CodecError::Malformed),
    }
}

/// Codec round trip: a well-formed value's encoding decodes back to exactly
/// that value, consuming the whole encoding; and a tag admits a value exactly
/// when it is the value's own tag or `Any`, so decoding under any other
/// concrete tag reports a type error rather than corrupting the value.
pub proof fn lemma_codec_round_trip(v: ValueView, t: TypeTag)
    requires
        view_wf(v),
    ensures
        dec_value(enc_value(v)) == Some((v, enc_value(v).len() as int)),
        tag_admits(t, v) <==> (t == TypeTag::Any || t == tag_of(v)),
{
    lemma_dec_enc_value(v, Seq::empty());
    assert(enc_value(v) + Seq::<u8>::empty() =~= enc_value(v));
}

/// The model of a list of values is pointwise the values' models.
pub proof fn lemma_value_list_view_props(items: Seq<Value>)
    ensures
        value_list_view(items).len() == items.len(),
        forall|i: int| 0 <= i < items.len() ==> value_list_view(items)[i] == items[i]@,
    decreases items.len(),
{
    if items.len() > 0 {
        let t = items.subrange(1, items.len() as int);
        lemma_value_list_view_props(t);
        assert(value_list_view(items) == seq![items[0]@] + value_list_view(t));
        assert forall|i: int| 0 <= i < items.len() implies value_list_view(items)[i]
            == items[i]@ by {
            if i > 0 {
                assert(t[i - 1] == items[i]);
                assert(value_list_view(items)[i] == value_list_view(t)[i - 1]);
            }
        }
    }
}

/// The model of a pair list is pointwise the pairs' models.
pub proof fn lemma_value_pairs_view_props(ps: Seq<(String, Value)>)
    ensures
        value_pairs_view(ps).len() == ps.len(),
        forall|i: int| 0 <= i < ps.len() ==> value_pairs_view(ps)[i] == (ps[i].0@, ps[i].1@),
    decreases ps.len(),
{
    if ps.len() > 0 {
        let t = ps.subrange(1, ps.len() as int);
        lemma_value_pairs_view_props(t);
        assert(value_pairs_view(ps) == seq![(ps[0].0@, ps[0].1@)] + value_pairs_view(t));
        assert forall|i: int| 0 <= i < ps.len() implies value_pairs_view(ps)[i] == (
        ps[i].0@,
        ps[i].1@,
        ) by {
            if i > 0 {
                assert(t[i - 1] == ps[i]);
                assert(value_pairs_view(ps)[i] == value_pairs_view(t)[i - 1]);
            }
        }
    }
}

proof fn lemma_value_list_view_snoc(items: Seq<Value>)
    requires
        items.len() > 0,
    ensures
        value_list_view(items) == value_list_view(items.drop_last()).push(items.last()@),
{
    lemma_value_list_view_props(items);
    lemma_value_list_view_props(items.drop_last());
    assert(value_list_view(items) =~= value_list_view(items.drop_last()).push(items.last()@));
}

/// Decodes `n` fixed-width characters from the front of `s`.
pub open spec fn dec_chars_raw(s: Seq<u8>, n: nat) -> Option<Seq<char>>
    decreases n,
{
    if n == 0 {
        Some(Seq::empty())
    } else if s.len() < 4 {
        None
    } else {
        let u = spec_u32_from_le_bytes(s.subrange(0, 4));
        if is_scalar(u) {
            match dec_chars_raw(s.skip(4), (n - 1) as nat) {
                Some(t) => Some(seq![u as char] + t),
                None => None,
            }
        } else {
            None
        }
    }
}

/// Decodes a counted character string from the front of `s`; the second
/// component is the number of bytes consumed.
pub open spec fn dec_chars(s: Seq<u8>) -> Option<(Seq<char>, int)> {
    if s.len() < 8 {
        None
    } else {
        let n = spec_u64_from_le_bytes(s.subrange(0, 8));
        match dec_chars_raw(s.skip(8), n as nat) {
            Some(cs) => Some((cs, 8 + 4 * (n as int))),
            None => None,
        }
    }
}

/// Decodes one value from the front of `s`; the second component is the number
/// of bytes consumed.
pub open spec fn dec_value(s: Seq<u8>) -> Option<(ValueView, int)>
    decreases s.len(), 0nat, 0nat,
{
    if s.len() < 1 {
        None
    } else {
        let tag = s[0];
        let r = s.skip(1);
        if tag == 1 {
            match dec_chars(r) {
                Some((cs, k)) => Some((ValueView::Text(cs), 1 + k)),
                None => None,
            }
        } else if tag == 2 {
            if r.len() < 8 {
                None
            } else {
                let n = spec_u64_from_le_bytes(r.subrange(0, 8)) as int;
                if r.len() - 8 < n {
                    None
                } else {
                    Some((ValueView::Raw(r.subrange(8, 8 + n)), 9 + n))
                }
            }
        } else if tag == 3 {
            if r.len() < 8 {
                None
            } else {
                Some((ValueView::Int64(spec_u64_from_le_bytes(r.subrange(0, 8)) as i64), 9))
            }
        } else if tag == 4 {
            if r.len() < 8 {
                None
            } else {
                Some((ValueView::Uint64(spec_u64_from_le_bytes(r.subrange(0, 8))), 9))
            }
        } else if tag == 5 {
            if r.len() < 8 {
                None
            } else {
                Some((ValueView::Float64Bits(spec_u64_from_le_bytes(r.subrange(0, 8))), 9))
            }
        } else if tag == 6 {
            if r.len() < 1 {
                None
            } else if r[0] == 1 {
                Some((ValueView::Boolean(true), 2))
            } else if r[0] == 0 {
                Some((ValueView::Boolean(false), 2))
            } else {
                None
            }
        } else if tag == 7 {
            if r.len() < 8 {
                None
            } else {
                let n = spec_u64_from_le_bytes(r.subrange(0, 8));
                match dec_value_seq(r.skip(8), n as nat) {
                    Some((items, k)) => Some((ValueView::ValueList(items), 9 + k)),
                    None => None,
                }
            }
        } else if tag == 8 {
            if r.len() < 8 {
                None
            } else {
                let n = spec_u64_from_le_bytes(r.subrange(0, 8));
                match dec_pair_seq(r.skip(8), n as nat) {
                    Some((ps, k)) => Some((ValueView::ValueMap(ps), 9 + k)),
                    None => None,
                }
            }
        } else if tag == 9 {
            match dec_chars(r) {
                Some((name, k1)) => if 8 <= k1 <= r.len() {
                    let r2 = r.skip(k1);
                    if r2.len() < 8 {
                        None
                    } else {
                        let n = spec_u64_from_le_bytes(r2.subrange(0, 8));
                        match dec_pair_seq(r2.skip(8), n as nat) {
                            Some((ps, k2)) => Some(
                                (ValueView::Structured(name, ps), 1 + k1 + 8 + k2),
                            ),
                            None => None,
                        }
                    }
                } else {
                    None
                },
                None => None,
            }
        } else {
            None
        }
    }
}

/// Decodes `n` values from the front of `s`.
pub open spec fn dec_value_seq(s: Seq<u8>, n: nat) -> Option<(Seq<ValueView>, int)>
    decreases s.len(), 1nat, n,
{
    if n == 0 {
        Some((Seq::empty(), 0))
    } else {
        match dec_value(s) {
            Some((v, k)) => if 1 <= k <= s.len() {
                match dec_value_seq(s.skip(k), (n - 1) as nat) {
                    Some((vs, k2)) => Some((seq![v] + vs, k + k2)),
                    None => None,
                }
            } else {
                None
            },
            None => None,
        }
    }
}

/// Decodes `n` named pairs from the front of `s`.
pub open spec fn dec_pair_seq(s: Seq<u8>, n: nat) -> Option<(Seq<(Seq<char>, ValueView)>, int)>
    decreases s.len(), 1nat, n,
{
    if n == 0 {
        Some((Seq::empty(), 0))
    } else {
        match dec_chars(s) {
            Some((key, k1)) => if 8 <= k1 <= s.len() {
                match dec_value(s.skip(k1)) {
                    Some((v, k2)) => if 1 <= k2 <= s.len() - k1 {
                        match dec_pair_seq(s.skip(k1 + k2), (n - 1) as nat) {
                            Some((ps, k3)) => Some((seq![(key, v)] + ps, k1 + k2 + k3)),
                            None => None,
                        }
                    } else {
                        None
                    },
                    None => None,
                }
            } else {
                None
            },
            None => None,
        }
    }
}

proof fn lemma_dec_enc_chars_raw(s: Seq<char>, rest: Seq<u8>)
    ensures
        enc_chars_raw(s).len() == 4 * s.len(),
        dec_chars_raw(enc_chars_raw(s) + rest, s.len()) == Some(s),
    decreases s.len(),
{
    lemma_auto_spec_u32_to_from_le_bytes();
    if s.len() == 0 {
        assert(enc_chars_raw(s) + rest =~= rest);
        assert(s =~= Seq::<char>::empty());
    } else {
        let t = s.subrange(1, s.len() as int);
        let cb = spec_u32_to_le_bytes(s[0] as u32);
        lemma_dec_enc_chars_raw(t, rest);
        let full = enc_chars_raw(s) + rest;
        assert(enc_chars_raw(s) == cb + enc_chars_raw(t));
        assert(full.subrange(0, 4) =~= cb);
        assert(full.skip(4) =~= enc_chars_raw(t) + rest);
        char_is_scalar(s[0]);
        let u = spec_u32_from_le_bytes(full.subrange(0, 4));
        assert(u == s[0] as u32);
        char_u32_cast(s[0], u);
        assert(seq![s[0]] + t =~= s);
    }
}

proof fn lemma_dec_enc_chars(s: Seq<char>, rest: Seq<u8>)
    requires
        fits_len(s.len()),
    ensures
        enc_chars(s).len() == 8 + 4 * s.len(),
        dec_chars(enc_chars(s) + rest) == Some((s, 8 + 4 * (s.len() as int))),
    decreases s.len(),
{
    lemma_auto_spec_u64_to_from_le_bytes();
    let lb = spec_u64_to_le_bytes(s.len() as u64);
    lemma_dec_enc_chars_raw(s, rest);
    let full = enc_chars(s) + rest;
    assert(full.subrange(0, 8) =~= lb);
    assert(full.skip(8) =~= enc_chars_raw(s) + rest);
    assert(spec_u64_from_le_bytes(full.subrange(0, 8)) == s.len() as u64);
}

/// Every encoding starts with its tag byte and is nonempty.
proof fn lemma_enc_value_shape(v: ValueView)
    ensures
        enc_value(v).len() >= 1,
        enc_value(v)[0] == tag_code(tag_of(v)),
{
}

/// Decoding inverts encoding: a well-formed value, encoded and followed by
/// anything, decodes to itself consuming exactly its encoding.
pub proof fn lemma_dec_enc_value(v: ValueView, rest: Seq<u8>)
    requires
        view_wf(v),
    ensures
        dec_value(enc_value(v) + rest) == Some((v, enc_value(v).len() as int)),
    decreases v, 1nat, 0nat,
{
    lemma_auto_spec_u64_to_from_le_bytes();
    let e = enc_value(v);
    let full = e + rest;
    assert(full[0] == e[0]);
    let r = full.skip(1);
    match v {
        ValueView::Text(s) => {
            assert(r =~= enc_chars(s) + rest);
            lemma_dec_enc_chars(s, rest);
        },
        ValueView::Raw(b) => {
            let lb = spec_u64_to_le_bytes(b.len() as u64);
            assert(r =~= lb + (b + rest));
            assert(r.subrange(0, 8) =~= lb);
            let n = spec_u64_from_le_bytes(r.subrange(0, 8)) as int;
            assert(n == b.len());
            assert(r.subrange(8, 8 + n) =~= b);
        },
        ValueView::Int64(i) => {
            let lb = spec_u64_to_le_bytes(i as u64);
            assert(r.subrange(0, 8) =~= lb);
            assert(((i as u64) as i64) == i) by (bit_vector);
        },
        ValueView::Uint64(n) => {
            let lb = spec_u64_to_le_bytes(n);
            assert(r.subrange(0, 8) =~= lb);
        },
        ValueView::Float64Bits(n) => {
            let lb = spec_u64_to_le_bytes(n);
            assert(r.subrange(0, 8) =~= lb);
        },
        ValueView::Boolean(b) => {
            assert(r[0] == (if b {
                1u8
            } else {
                0u8
            }));
        },
        ValueView::ValueList(items) => {
            let lb = spec_u64_to_le_bytes(items.len() as u64);
            assert(r =~= lb + (enc_value_seq(items) + rest));
            assert(r.subrange(0, 8) =~= lb);
            assert(r.skip(8) =~= enc_value_seq(items) + rest);
            lemma_dec_enc_value_seq(items, rest);
        },
        ValueView::ValueMap(ps) => {
            let lb = spec_u64_to_le_bytes(ps.len() as u64);
            assert(r =~= lb + (enc_pair_seq(ps) + rest));
            assert(r.subrange(0, 8) =~= lb);
            assert(r.skip(8) =~= enc_pair_seq(ps) + rest);
            lemma_dec_enc_pair_seq(ps, rest);
        },
        ValueView::Structured(name, ps) => {
            let lb = spec_u64_to_le_bytes(ps.len() as u64);
            let tail1 = lb + (enc_pair_seq(ps) + rest);
            assert(r =~= enc_chars(name) + tail1);
            lemma_dec_enc_chars(name, tail1);
            let k1 = 8 + 4 * (name.len() as int);
            assert(enc_chars(name).len() == k1);
            let r2 = r.skip(k1);
            assert(r2 =~= tail1);
            assert(r2.subrange(0, 8) =~= lb);
            assert(r2.skip(8) =~= enc_pair_seq(ps) + rest);
            lemma_dec_enc_pair_seq(ps, rest);
        },
    }
}

proof fn lemma_dec_enc_value_seq(items: Seq<ValueView>, rest: Seq<u8>)
    requires
        fits_len(items.len()),
        forall|i: int| 0 <= i < items.len() ==> view_wf(#[trigger] items[i]),
    ensures
        dec_value_seq(enc_value_seq(items) + rest, items.len()) == Some(
            (items, enc_value_seq(items).len() as int),
        ),
    decreases items, 0nat, 0nat,
{
    if items.len() == 0 {
        assert(enc_value_seq(items) + rest =~= rest);
        assert(items =~= Seq::<ValueView>::empty());
    } else {
        let t = items.subrange(1, items.len() as int);
        let e0 = enc_value(items[0]);
        let full = enc_value_seq(items) + rest;
        assert(full =~= e0 + (enc_value_seq(t) + rest));
        lemma_dec_enc_value(items[0], enc_value_seq(t) + rest);
        let k = e0.len() as int;
        lemma_enc_value_shape(items[0]);
        assert(full.skip(k) =~= enc_value_seq(t) + rest);
        lemma_dec_enc_value_seq(t, rest);
        assert(seq![items[0]] + t =~= items);
    }
}

proof fn lemma_dec_enc_pair_seq(ps: Seq<(Seq<char>, ValueView)>, rest: Seq<u8>)
    requires
        fits_len(ps.len()),
        forall|i: int|
            0 <= i < ps.len() ==> fits_len((#[trigger] ps[i]).0.len()) && view_wf(ps[i].1),
    ensures
        dec_pair_seq(enc_pair_seq(ps) + rest, ps.len()) == Some(
            (ps, enc_pair_seq(ps).len() as int),
        ),
    decreases ps, 0nat, 0nat,
{
    if ps.len() == 0 {
        assert(enc_pair_seq(ps) + rest =~= rest);
        assert(ps =~= Seq::<(Seq<char>, ValueView)>::empty());
    } else {
        let t = ps.subrange(1, ps.len() as int);
        let ek = enc_chars(ps[0].0);
        let ev = enc_value(ps[0].1);
        let full = enc_pair_seq(ps) + rest;
        assert(full =~= ek + (ev + (enc_pair_seq(t) + rest)));
        lemma_dec_enc_chars(ps[0].0, ev + (enc_pair_seq(t) + rest));
        let k1 = ek.len() as int;
        assert(k1 == 8 + 4 * (ps[0].0.len() as int));
        assert(full.skip(k1) =~= ev + (enc_pair_seq(t) + rest));
        lemma_dec_enc_value(ps[0].1, enc_pair_seq(t) + rest);
        let k2 = ev.len() as int;
        lemma_enc_value_shape(ps[0].1);
        assert(full.skip(k1 + k2) =~= enc_pair_seq(t) + rest);
        lemma_dec_enc_pair_seq(t, rest);
        assert(seq![(ps[0].0, ps[0].1)] + t =~= ps);
        assert((ps[0].0, ps[0].1) == ps[0]);
    }
}

proof fn lemma_value_pairs_view_snoc(ps: Seq<(String, Value)>)
    requires
        ps.len() > 0,
    ensures
        value_pairs_view(ps) == value_pairs_view(ps.drop_last()).push(
            (ps.last().0@, ps.last().1@),
        ),
{
    lemma_value_pairs_view_props(ps);
    lemma_value_pairs_view_props(ps.drop_last());
    assert(value_pairs_view(ps) =~= value_pairs_view(ps.drop_last()).push(
        (ps.last().0@, ps.last().1@),
    ));
}

} // verus!
