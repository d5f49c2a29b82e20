//! Decoding one value of a given type into a flat stream of events: the
//! primitive kinds straight from the byte codec, structs by their field
//! deltas, slices, arrays and maps by their counts.

use vstd::prelude::*;
use vstd::utf8::{decode_utf8, valid_utf8};

use crate::gob::{
    bool_at, bytes_len_at, float_bits_at, int_at, lemma_bool_round_trip, lemma_bytes_round_trip,
    lemma_int_round_trip, lemma_swap64_involution, lemma_uint_round_trip, swap64, uint_at,
    uint_encoding, zigzag, Message,
};
use crate::gob;
use crate::types::{
    Shape, TypeId, Types, WireType, shape_lookup, BOOL, BYTES, COMPLEX, FLOAT, INT, STRING, UINT,
};

verus! {

/// Why decoding stopped.
#[derive(Debug, Clone, Copy, PartialEq, Eq, Structural)]
pub enum DecodeError {
    /// Fewer bytes remain than a read needs.
    IncompleteMessage,
    /// A boolean other than 0 or 1, or an integer longer than eight bytes.
    IntegerOverflow,
    /// A value of a type that is neither built in nor announced.
    UnknownTypeId(i64),
    /// A field delta reached a field index past the last field of the
    /// struct type with this id.
    FieldNumberOverflow { type_id: i64, field: u128 },
    /// A type announcement defines another id than its record names.
    TypeIdMismatch,
    /// A value that is not a struct lacks its zero discriminator.
    MalformedSingleton,
    /// A string's bytes are not UTF-8.
    InvalidUtf8,
    /// A type announcement does not describe exactly one definition.
    MalformedType,
}

/// One step of a decoded value, in wire order. Byte strings and strings are
/// ranges of the input; a struct's fields are given by their positions in
/// the struct type's field list.
#[derive(Debug, Clone, Copy, PartialEq, Eq, Structural)]
pub enum Event {
    Bool(bool),
    Int(i64),
    Uint(u64),
    /// A float's bit pattern.
    Float(u64),
    /// The bit patterns of the real and the imaginary part.
    Complex(u64, u64),
    Bytes { start: usize, len: usize },
    Str { start: usize, len: usize },
    /// A struct value of the given type begins.
    StructStart(i64),
    /// The field at this position of the struct type follows.
    Field(usize),
    StructEnd,
    /// This many elements follow.
    SeqStart(u64),
    /// This many key and value pairs follow.
    MapStart(u64),
}

/// The decoding error for a codec error.
pub open spec fn lift(e: gob::Error) -> DecodeError {
    match e {
        gob::Error::IncompleteMessage => DecodeError::IncompleteMessage,
        gob::Error::IntegerOverflow => DecodeError::IntegerOverflow,
    }
}

pub(crate) fn lift_exec(e: gob::Error) -> (r: DecodeError)
    ensures
        r == lift(e),
{
    match e {
        gob::Error::IncompleteMessage => DecodeError::IncompleteMessage,
        gob::Error::IntegerOverflow => DecodeError::IntegerOverflow,
    }
}

/// Whether a decode that began at `pos` and ended at `q` moved forward
/// within `s`.
pub open spec fn advanced(s: Seq<u8>, pos: nat, q: nat) -> bool {
    pos < q <= s.len()
}

/// The ids of the kinds that the codec reads directly.
pub open spec fn is_builtin(id: i64) -> bool {
    id == BOOL || id == INT || id == UINT || id == FLOAT || id == COMPLEX || id == BYTES || id == STRING
}

/// Decodes one value of a built-in kind at `pos`.
pub open spec fn builtin_at(id: i64, s: Seq<u8>, pos: nat) -> Result<(Seq<Event>, nat), DecodeError> {
    if id == BOOL {
        match bool_at(s, pos) {
            Ok((b, p)) => Ok((seq![Event::Bool(b)], p)),
            Err(e) => Err(lift(e)),
        }
    } else if id == INT {
        match int_at(s, pos) {
            Ok((v, p)) => Ok((seq![Event::Int(v)], p)),
            Err(e) => Err(lift(e)),
        }
    } else if id == UINT {
        match uint_at(s, pos) {
            Ok((v, p)) => Ok((seq![Event::Uint(v)], p)),
            Err(e) => Err(lift(e)),
        }
    } else if id == FLOAT {
        match float_bits_at(s, pos) {
            Ok((v, p)) => Ok((seq![Event::Float(v)], p)),
            Err(e) => Err(lift(e)),
        }
    } else if id == COMPLEX {
        match float_bits_at(s, pos) {
            Ok((re, p)) => match float_bits_at(s, p) {
                Ok((im, q)) => Ok((seq![Event::Complex(re, im)], q)),
                Err(e) => Err(lift(e)),
            },
            Err(e) => Err(lift(e)),
        }
    } else if id == BYTES {
        match bytes_len_at(s, pos) {
            Ok((n, p)) => Ok((seq![Event::Bytes { start: p as usize, len: n as usize }], p + n)),
            Err(e) => Err(lift(e)),
        }
    } else if id == STRING {
        match bytes_len_at(s, pos) {
            Ok((n, p)) => if valid_utf8(s.subrange(p as int, (p + n) as int)) {
                Ok((seq![Event::Str { start: p as usize, len: n as usize }], p + n))
            } else {
                Err(DecodeError::InvalidUtf8)
            },
            Err(e) => Err(lift(e)),
        }
    } else {
        Err(DecodeError::UnknownTypeId(id))
    }
}

/// Decodes one value of type `id` at `pos`, given the custom definitions
/// `custom`: its events and the position after it.
pub open spec fn value_at(custom: Seq<(i64, Shape)>, id: i64, s: Seq<u8>, pos: nat) -> Result<
    (Seq<Event>, nat),
    DecodeError,
>
    decreases s.len() - pos, 1nat,
{
    if is_builtin(id) {
        builtin_at(id, s, pos)
    } else {
        match shape_lookup(custom, id) {
            None => Err(DecodeError::UnknownTypeId(id)),
            Some(Shape::Struct { fields }) => match fields_at(custom, id, fields, 0, s, pos) {
                Ok((evs, p)) => Ok((seq![Event::StructStart(id)] + evs, p)),
                Err(e) => Err(e),
            },
            Some(Shape::Slice { elem }) => seq_at(custom, elem, s, pos),
            Some(Shape::Array { elem, len }) => seq_at(custom, elem, s, pos),
            Some(Shape::MapOf { key, elem }) => match uint_at(s, pos) {
                Ok((n, p)) => match entries_at(custom, key, elem, n as nat, s, p) {
                    Ok((evs, q)) => Ok((seq![Event::MapStart(n)] + evs, q)),
                    Err(e) => Err(e),
                },
                Err(e) => Err(lift(e)),
            },
        }
    }
}

/// A slice or array value: a count, then that many elements.
pub open spec fn seq_at(custom: Seq<(i64, Shape)>, elem: i64, s: Seq<u8>, pos: nat) -> Result<
    (Seq<Event>, nat),
    DecodeError,
>
    decreases s.len() - pos, 0nat,
{
    match uint_at(s, pos) {
        Ok((n, p)) => match elems_at(custom, elem, n as nat, s, p) {
            Ok((evs, q)) => Ok((seq![Event::SeqStart(n)] + evs, q)),
            Err(e) => Err(e),
        },
        Err(e) => Err(lift(e)),
    }
}

/// The fields of a struct value of type `id` with field types `fields`,
/// `next` fields being behind: deltas and values up to the zero delta.
pub open spec fn fields_at(
    custom: Seq<(i64, Shape)>,
    id: i64,
    fields: Seq<i64>,
    next: nat,
    s: Seq<u8>,
    pos: nat,
) -> Result<(Seq<Event>, nat), DecodeError>
    decreases s.len() - pos, 0nat,
{
    match uint_at(s, pos) {
        Err(e) => Err(lift(e)),
        Ok((delta, p)) => if delta == 0 {
            Ok((seq![Event::StructEnd], p))
        } else if next + delta > fields.len() {
            Err(DecodeError::FieldNumberOverflow { type_id: id, field: (next + delta - 1) as u128 })
        } else {
            let k = (next + delta - 1) as nat;
            match value_at(custom, fields[k as int], s, p) {
                Err(e) => Err(e),
                Ok((evs, q)) => if !advanced(s, pos, q) {
                    Err(DecodeError::IncompleteMessage)
                } else {
                    match fields_at(custom, id, fields, k + 1, s, q) {
                        Ok((rest, r)) => Ok((seq![Event::Field(k as usize)] + evs + rest, r)),
                        Err(e) => Err(e),
                    }
                },
            }
        },
    }
}

/// `n` values of type `elem`, one after another.
pub open spec fn elems_at(custom: Seq<(i64, Shape)>, elem: i64, n: nat, s: Seq<u8>, pos: nat) -> Result<
    (Seq<Event>, nat),
    DecodeError,
>
    decreases s.len() - pos, 2nat, n,
{
    if n == 0 {
        Ok((seq![], pos))
    } else {
        match value_at(custom, elem, s, pos) {
            Err(e) => Err(e),
            Ok((evs, q)) => if !advanced(s, pos, q) {
                Err(DecodeError::IncompleteMessage)
            } else {
                match elems_at(custom, elem, (n - 1) as nat, s, q) {
                    Ok((rest, r)) => Ok((evs + rest, r)),
                    Err(e) => Err(e),
                }
            },
        }
    }
}

/// `n` pairs of a key of type `key` and a value of type `elem`.
pub open spec fn entries_at(
    custom: Seq<(i64, Shape)>,
    key: i64,
    elem: i64,
    n: nat,
    s: Seq<u8>,
    pos: nat,
) -> Result<(Seq<Event>, nat), DecodeError>
    decreases s.len() - pos, 2nat, n,
{
    if n == 0 {
        Ok((seq![], pos))
    } else {
        match value_at(custom, key, s, pos) {
            Err(e) => Err(e),
            Ok((kevs, q)) => if !advanced(s, pos, q) {
                Err(DecodeError::IncompleteMessage)
            } else {
                match value_at(custom, elem, s, q) {
                    Err(e) => Err(e),
                    Ok((vevs, q2)) => if !advanced(s, pos, q2) {
                        Err(DecodeError::IncompleteMessage)
                    } else {
                        match entries_at(custom, key, elem, (n - 1) as nat, s, q2) {
                            Ok((rest, r)) => Ok((kevs + vevs + rest, r)),
                            Err(e) => Err(e),
                        }
                    },
                }
            },
        }
    }
}

/// A value of each built-in scalar kind decodes from its wire form to
/// itself, wherever the form stands: unsigned and signed integers,
/// booleans, and float bit patterns (written with their bytes reversed).
pub proof fn lemma_scalar_values_round_trip(
    custom: Seq<(i64, Shape)>,
    prefix: Seq<u8>,
    u: u64,
    i: i64,
    b: bool,
    f: u64,
    suffix: Seq<u8>,
)
    ensures
        value_at(custom, UINT, prefix + uint_encoding(u) + suffix, prefix.len()) == Ok::<
            (Seq<Event>, nat),
            DecodeError,
        >((seq![Event::Uint(u)], prefix.len() + uint_encoding(u).len())),
        value_at(custom, INT, prefix + uint_encoding(zigzag(i)) + suffix, prefix.len()) == Ok::<
            (Seq<Event>, nat),
            DecodeError,
        >((seq![Event::Int(i)], prefix.len() + uint_encoding(zigzag(i)).len())),
        value_at(custom, BOOL, prefix + uint_encoding(if b { 1u64 } else { 0u64 }) + suffix, prefix.len())
            == Ok::<(Seq<Event>, nat), DecodeError>((seq![Event::Bool(b)], prefix.len() + 1)),
        value_at(custom, FLOAT, prefix + uint_encoding(swap64(f)) + suffix, prefix.len()) == Ok::<
            (Seq<Event>, nat),
            DecodeError,
        >((seq![Event::Float(f)], prefix.len() + uint_encoding(swap64(f)).len())),
{
    lemma_uint_round_trip(prefix, u, suffix);
    lemma_int_round_trip(prefix, i, suffix);
    lemma_bool_round_trip(prefix, b, suffix);
    lemma_uint_round_trip(prefix, swap64(f), suffix);
    lemma_swap64_involution(f);
}

/// A byte string decodes from its length and bytes to the range of the
/// input that holds those bytes; so does a string, when the bytes are UTF-8.
pub proof fn lemma_bytes_value_round_trip(
    custom: Seq<(i64, Shape)>,
    prefix: Seq<u8>,
    b: Seq<u8>,
    suffix: Seq<u8>,
)
    requires
        prefix.len() + uint_encoding(b.len() as u64).len() + b.len() <= usize::MAX,
    ensures
        ({
            let start = prefix.len() + uint_encoding(b.len() as u64).len();
            let s = prefix + uint_encoding(b.len() as u64) + b + suffix;
            &&& value_at(custom, BYTES, s, prefix.len()) == Ok::<(Seq<Event>, nat), DecodeError>(
                (seq![Event::Bytes { start: start as usize, len: b.len() as usize }], start + b.len()),
            )
            &&& s.subrange(start as int, (start + b.len()) as int) == b
            &&& valid_utf8(b) ==> value_at(custom, STRING, s, prefix.len()) == Ok::<
                (Seq<Event>, nat),
                DecodeError,
            >((seq![Event::Str { start: start as usize, len: b.len() as usize }], start + b.len()))
        }),
{
    lemma_bytes_round_trip(prefix, b, suffix);
}

/// A value that decodes ends past where it began, within the input.
pub proof fn lemma_value_advances(custom: Seq<(i64, Shape)>, id: i64, s: Seq<u8>, pos: nat)
    ensures
        value_at(custom, id, s, pos) matches Ok((_, q)) ==> advanced(s, pos, q),
    decreases s.len() - pos, 1nat,
{
    if !is_builtin(id) {
        match shape_lookup(custom, id) {
            Some(Shape::Struct { fields }) => lemma_fields_advance(custom, id, fields, 0, s, pos),
            Some(Shape::Slice { elem }) => lemma_seq_advances(custom, elem, s, pos),
            Some(Shape::Array { elem, len }) => lemma_seq_advances(custom, elem, s, pos),
            Some(Shape::MapOf { key, elem }) => {
                if let Ok((n, p)) = uint_at(s, pos) {
                    lemma_entries_advance(custom, key, elem, n as nat, s, p);
                }
            },
            None => {},
        }
    }
}

proof fn lemma_seq_advances(custom: Seq<(i64, Shape)>, elem: i64, s: Seq<u8>, pos: nat)
    ensures
        seq_at(custom, elem, s, pos) matches Ok((_, q)) ==> advanced(s, pos, q),
    decreases s.len() - pos, 0nat,
{
    if let Ok((n, p)) = uint_at(s, pos) {
        lemma_elems_advance(custom, elem, n as nat, s, p);
    }
}

proof fn lemma_fields_advance(
    custom: Seq<(i64, Shape)>,
    id: i64,
    fields: Seq<i64>,
    next: nat,
    s: Seq<u8>,
    pos: nat,
)
    ensures
        fields_at(custom, id, fields, next, s, pos) matches Ok((_, q)) ==> advanced(s, pos, q),
    decreases s.len() - pos, 0nat,
{
    if let Ok((delta, p)) = uint_at(s, pos) {
        if delta != 0 && next + delta <= fields.len() {
            let k = (next + delta - 1) as nat;
            if let Ok((evs, q)) = value_at(custom, fields[k as int], s, p) {
                if advanced(s, pos, q) {
                    lemma_fields_advance(custom, id, fields, k + 1, s, q);
                }
            }
        }
    }
}

proof fn lemma_elems_advance(custom: Seq<(i64, Shape)>, elem: i64, n: nat, s: Seq<u8>, pos: nat)
    ensures
        elems_at(custom, elem, n, s, pos) matches Ok((_, q)) ==> pos <= q <= s.len() || (n == 0 && q
            == pos),
    decreases s.len() - pos, 2nat, n,
{
    if n > 0 {
        if let Ok((evs, q)) = value_at(custom, elem, s, pos) {
            if advanced(s, pos, q) {
                lemma_elems_advance(custom, elem, (n - 1) as nat, s, q);
            }
        }
    }
}

proof fn lemma_entries_advance(
    custom: Seq<(i64, Shape)>,
    key: i64,
    elem: i64,
    n: nat,
    s: Seq<u8>,
    pos: nat,
)
    ensures
        entries_at(custom, key, elem, n, s, pos) matches Ok((_, q)) ==> pos <= q <= s.len() || (n == 0
            && q == pos),
    decreases s.len() - pos, 2nat, n,
{
    if n > 0 {
        if let Ok((kevs, q)) = value_at(custom, key, s, pos) {
            if advanced(s, pos, q) {
                if let Ok((vevs, q2)) = value_at(custom, elem, s, q) {
                    if advanced(s, pos, q2) {
                        lemma_entries_advance(custom, key, elem, (n - 1) as nat, s, q2);
                    }
                }
            }
        }
    }
}

/// A struct value names only the fields that its deltas reach: after `next`
/// fields, a delta `d` gives the field at `next + d - 1` next, and the
/// fields in between, omitted on the wire, get no event; a zero delta ends
/// the struct with no more fields.
pub proof fn lemma_omitted_fields_absent(
    custom: Seq<(i64, Shape)>,
    id: i64,
    fields: Seq<i64>,
    next: nat,
    s: Seq<u8>,
    pos: nat,
)
    ensures
        fields_at(custom, id, fields, next, s, pos) matches Ok((evs, _)) ==> (uint_at(s, pos) matches Ok(
            (d, _),
        ) && (d == 0 ==> evs == seq![Event::StructEnd]) && (d > 0 ==> evs.len() > 0 && evs[0]
            == Event::Field((next + d - 1) as usize))),
{
    if let Ok((evs, q)) = fields_at(custom, id, fields, next, s, pos) {
        if let Ok((d, p)) = uint_at(s, pos) {
            if d > 0 {
                let k = (next + d - 1) as nat;
                if let Ok((vevs, q1)) = value_at(custom, fields[k as int], s, p) {
                    if let Ok((rest, r)) = fields_at(custom, id, fields, k + 1, s, q1) {
                        assert((seq![Event::Field(k as usize)] + vevs + rest)[0] == Event::Field(k as usize));
                    }
                }
            }
        }
    }
}

/// Appending events in two steps appends their concatenation.
pub broadcast proof fn lemma_events_assoc(a: Seq<Event>, b: Seq<Event>, c: Seq<Event>)
    ensures
        #[trigger] ((a + b) + c) == a + (b + c),
{
    assert((a + b) + c =~= a + (b + c));
}

/// Pushing an event appends the one-event sequence.
pub broadcast proof fn lemma_events_push(a: Seq<Event>, x: Event)
    ensures
        #[trigger] a.push(x) == a + seq![x],
{
    assert(a.push(x) =~= a + seq![x]);
}

/// Whether an exec decode that returned `r`, grew the events from `before`
/// to `after` and left the cursor at `pos` did what `want` says.
pub open spec fn decoded(
    r: Result<(), DecodeError>,
    want: Result<(Seq<Event>, nat), DecodeError>,
    before: Seq<Event>,
    after: Seq<Event>,
    pos: nat,
) -> bool {
    match want {
        Ok((evs, p)) => r is Ok && pos == p && after == before + evs,
        Err(e) => r == Err::<(), DecodeError>(e),
    }
}

/// Relies on std::str::from_utf8: it accepts exactly the well-formed UTF-8
/// byte sequences, and the text is what they encode.
#[verifier::external_body]
pub(crate) fn utf8_text(b: &[u8]) -> (r: Option<String>)
    ensures
        r is Some <==> valid_utf8(b@),
        r matches Some(t) ==> t@ == decode_utf8(b@),
{
    std::str::from_utf8(b).ok().map(|t| t.to_owned())
}

/// Decodes one value of a built-in kind from the cursor, appending its event.
fn decode_builtin(id: i64, msg: &mut Message, out: &mut Vec<Event>) -> (r: Result<(), DecodeError>)
    ensures
        final(msg).bytes() == old(msg).bytes(),
        decoded(r, builtin_at(id, old(msg).bytes(), old(msg).position()), old(out)@, final(out)@, final(msg).position()),
{
    broadcast use lemma_events_push;

    if id == BOOL {
        match msg.read_bool() {
            Ok(b) => {
                out.push(Event::Bool(b));
                Ok(())
            },
            Err(e) => Err(lift_exec(e)),
        }
    } else if id == INT {
        match msg.read_int() {
            Ok(v) => {
                out.push(Event::Int(v));
                Ok(())
            },
            Err(e) => Err(lift_exec(e)),
        }
    } else if id == UINT {
        match msg.read_uint() {
            Ok(v) => {
                out.push(Event::Uint(v));
                Ok(())
            },
            Err(e) => Err(lift_exec(e)),
        }
    } else if id == FLOAT {
        match msg.read_float() {
            Ok(v) => {
                out.push(Event::Float(v));
                Ok(())
            },
            Err(e) => Err(lift_exec(e)),
        }
    } else if id == COMPLEX {
        let re = match msg.read_float() {
            Ok(v) => v,
            Err(e) => {
                return Err(lift_exec(e));
            },
        };
        match msg.read_float() {
            Ok(im) => {
                out.push(Event::Complex(re, im));
                Ok(())
            },
            Err(e) => Err(lift_exec(e)),
        }
    } else if id == BYTES || id == STRING {
        let n = match msg.read_bytes_len() {
            Ok(n) => n,
            Err(e) => {
                return Err(lift_exec(e));
            },
        };
        let start = msg.pos();
        // the buffer's length bounds the end of the string
        let _len = msg.get_ref().len();
        if id == STRING {
            let text = utf8_text(vstd::slice::slice_subrange(msg.get_ref().as_slice(), start, start + n));
            if text.is_none() {
                return Err(DecodeError::InvalidUtf8);
            }
            out.push(Event::Str { start, len: n });
        } else {
            out.push(Event::Bytes { start, len: n });
        }
        msg.advance(n);
        Ok(())
    } else {
        Err(DecodeError::UnknownTypeId(id))
    }
}

/// Decodes one value of type `id` from the cursor, appending its events.
pub fn decode_value(t: &Types, id: i64, msg: &mut Message, out: &mut Vec<Event>) -> (r: Result<
    (),
    DecodeError,
>)
    requires
        t.wf(),
    ensures
        final(msg).bytes() == old(msg).bytes(),
        decoded(
            r,
            value_at(t.model(), id, old(msg).bytes(), old(msg).position()),
            old(out)@,
            final(out)@,
            final(msg).position(),
        ),
        !is_builtin(id) && shape_lookup(t.model(), id) is None ==> final(msg).position() == old(
            msg,
        ).position(),
    decreases old(msg).bytes().len() - old(msg).position(), 1nat,
{
    broadcast use lemma_events_assoc, lemma_events_push;

    if id == BOOL || id == INT || id == UINT || id == FLOAT || id == COMPLEX || id == BYTES || id == STRING {
        decode_builtin(id, msg, out)
    } else {
        match t.lookup(TypeId(id)) {
            None => Err(DecodeError::UnknownTypeId(id)),
            Some(WireType::Struct(st)) => {
                out.push(Event::StructStart(id));
                decode_fields(t, id, &st.fields, 0, msg, out)
            },
            Some(WireType::Slice(sl)) => decode_seq(t, sl.elem.0, msg, out),
            Some(WireType::Array(ar)) => decode_seq(t, ar.elem.0, msg, out),
            Some(WireType::MapOf(mt)) => {
                let n = match msg.read_uint() {
                    Ok(n) => n,
                    Err(e) => {
                        return Err(lift_exec(e));
                    },
                };
                out.push(Event::MapStart(n));
                decode_entries(t, mt.key.0, mt.elem.0, n, msg, out)
            },
        }
    }
}

fn decode_seq(t: &Types, elem: i64, msg: &mut Message, out: &mut Vec<Event>) -> (r: Result<
    (),
    DecodeError,
>)
    requires
        t.wf(),
    ensures
        final(msg).bytes() == old(msg).bytes(),
        decoded(
            r,
            seq_at(t.model(), elem, old(msg).bytes(), old(msg).position()),
            old(out)@,
            final(out)@,
            final(msg).position(),
        ),
    decreases old(msg).bytes().len() - old(msg).position(), 0nat,
{
    broadcast use lemma_events_assoc, lemma_events_push;

    let n = match msg.read_uint() {
        Ok(n) => n,
        Err(e) => {
            return Err(lift_exec(e));
        },
    };
    out.push(Event::SeqStart(n));
    decode_elems(t, elem, n, msg, out)
}

fn decode_fields(
    t: &Types,
    id: i64,
    fields: &Vec<crate::types::FieldType>,
    next: usize,
    msg: &mut Message,
    out: &mut Vec<Event>,
) -> (r: Result<(), DecodeError>)
    requires
        t.wf(),
        next <= fields@.len(),
    ensures
        final(msg).bytes() == old(msg).bytes(),
        decoded(
            r,
            fields_at(
                t.model(),
                id,
                fields@.map_values(|f: crate::types::FieldType| f.id.0),
                next as nat,
                old(msg).bytes(),
                old(msg).position(),
            ),
            old(out)@,
            final(out)@,
            final(msg).position(),
        ),
    decreases old(msg).bytes().len() - old(msg).position(), 0nat,
{
    broadcast use lemma_events_assoc, lemma_events_push;

    let ghost ids = fields@.map_values(|f: crate::types::FieldType| f.id.0);
    let delta = match msg.read_uint() {
        Ok(d) => d,
        Err(e) => {
            return Err(lift_exec(e));
        },
    };
    if delta == 0 {
        out.push(Event::StructEnd);
        return Ok(());
    }
    if delta > (fields.len() - next) as u64 {
        return Err(DecodeError::FieldNumberOverflow { type_id: id, field: next as u128 + delta as u128 - 1 });
    }
    let k = next + (delta as usize) - 1;
    out.push(Event::Field(k));
    proof {
        lemma_value_advances(t.model(), fields@[k as int].id.0, msg.bytes(), msg.position());
    }
    decode_value(t, fields[k].id.0, msg, out)?;
    decode_fields(t, id, fields, k + 1, msg, out)
}

fn decode_elems(t: &Types, elem: i64, n: u64, msg: &mut Message, out: &mut Vec<Event>) -> (r: Result<
    (),
    DecodeError,
>)
    requires
        t.wf(),
    ensures
        final(msg).bytes() == old(msg).bytes(),
        decoded(
            r,
            elems_at(t.model(), elem, n as nat, old(msg).bytes(), old(msg).position()),
            old(out)@,
            final(out)@,
            final(msg).position(),
        ),
    decreases old(msg).bytes().len() - old(msg).position(), 2nat, n,
{
    broadcast use lemma_events_assoc, lemma_events_push;

    if n == 0 {
        return Ok(());
    }
    proof {
        lemma_value_advances(t.model(), elem, msg.bytes(), msg.position());
    }
    decode_value(t, elem, msg, out)?;
    decode_elems(t, elem, n - 1, msg, out)
}

fn decode_entries(
    t: &Types,
    key: i64,
    elem: i64,
    n: u64,
    msg: &mut Message,
    out: &mut Vec<Event>,
) -> (r: Result<(), DecodeError>)
    requires
        t.wf(),
    ensures
        final(msg).bytes() == old(msg).bytes(),
        decoded(
            r,
            entries_at(t.model(), key, elem, n as nat, old(msg).bytes(), old(msg).position()),
            old(out)@,
            final(out)@,
            final(msg).position(),
        ),
    decreases old(msg).bytes().len() - old(msg).position(), 2nat, n,
{
    broadcast use lemma_events_assoc, lemma_events_push;

    if n == 0 {
        return Ok(());
    }
    proof {
        lemma_value_advances(t.model(), key, msg.bytes(), msg.position());
    }
    decode_value(t, key, msg, out)?;
    proof {
        lemma_value_advances(t.model(), elem, msg.bytes(), msg.position());
    }
    decode_value(t, elem, msg, out)?;
    decode_entries(t, key, elem, n - 1, msg, out)
}

} // verus!
