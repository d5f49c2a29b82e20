//! The stream protocol: length-prefixed records that either announce a type
//! (negative id) or carry one value (non-negative id).

use vstd::prelude::*;
use vstd::utf8::{decode_utf8, valid_utf8};

use crate::de::{
    decode_value, lemma_value_advances, lift, utf8_text, value_at, DecodeError, Event, lemma_events_assoc, lemma_events_push,
};
use crate::gob::{
    bytes_len_at, int_at, lemma_uint_round_trip, lemma_uint_truncated, uint_at, uint_encoding, Message,
};
use crate::types::{
    ArrayType, CommonType, FieldType, MapType, Shape, SliceType, StructType, TypeId, Types,
    WireType, shape_lookup, ARRAY_TYPE, COMMON_TYPE, FIELD_TYPE, MAP_TYPE, SLICE_TYPE, STRUCT_TYPE,
    WIRE_TYPE,
};

verus! {

/// The event at `i`, if there is one.
pub open spec fn ev(evs: Seq<Event>, i: nat) -> Option<Event> {
    if i < evs.len() {
        Some(evs[i as int])
    } else {
        None
    }
}

/// An optional integer field `k` at `i`: its value, zero when omitted, and
/// the index after it.
pub open spec fn opt_int_spec(evs: Seq<Event>, i: nat, k: usize) -> (i64, nat) {
    if ev(evs, i) == Some(Event::Field(k)) {
        match ev(evs, i + 1) {
            Some(Event::Int(v)) => (v, i + 2),
            _ => (0, i),
        }
    } else {
        (0, i)
    }
}

/// An optional string field `k` at `i`, checked to be UTF-8 in `s`: its
/// text (empty when omitted) and the index after it.
pub open spec fn opt_name_spec(evs: Seq<Event>, s: Seq<u8>, i: nat, k: usize) -> Result<
    (Seq<char>, nat),
    DecodeError,
> {
    if ev(evs, i) == Some(Event::Field(k)) {
        match ev(evs, i + 1) {
            Some(Event::Str { start, len }) => if start + len <= s.len() {
                if valid_utf8(s.subrange(start as int, start + len)) {
                    Ok((decode_utf8(s.subrange(start as int, start + len)), i + 2))
                } else {
                    Err(DecodeError::InvalidUtf8)
                }
            } else {
                Err(DecodeError::MalformedType)
            },
            _ => Ok((seq![], i)),
        }
    } else {
        Ok((seq![], i))
    }
}

/// Event `e` at `i`: the index after it.
pub open spec fn expect_spec(evs: Seq<Event>, i: nat, e: Event) -> Result<nat, DecodeError> {
    if ev(evs, i) == Some(e) {
        Ok(i + 1)
    } else {
        Err(DecodeError::MalformedType)
    }
}

/// A struct value of meta-type `id` at `i` holding an optional string field
/// 0 and an optional integer field 1: that text, that integer and the index
/// after it.
pub open spec fn name_id_spec(evs: Seq<Event>, s: Seq<u8>, i: nat, id: i64) -> Result<
    (Seq<char>, i64, nat),
    DecodeError,
> {
    match expect_spec(evs, i, Event::StructStart(id)) {
        Err(e) => Err(e),
        Ok(j) => match opt_name_spec(evs, s, j, 0) {
            Err(e) => Err(e),
            Ok((name, j)) => {
                let (v, j) = opt_int_spec(evs, j, 1);
                match expect_spec(evs, j, Event::StructEnd) {
                    Err(e) => Err(e),
                    Ok(j) => Ok((name, v, j)),
                }
            },
        },
    }
}

/// An optional common-type field (field 0) at `i`: the name and id it gives
/// (empty and zero when omitted) and the index after it.
pub open spec fn common_spec(evs: Seq<Event>, s: Seq<u8>, i: nat) -> Result<(Seq<char>, i64, nat), DecodeError> {
    if ev(evs, i) == Some(Event::Field(0)) {
        name_id_spec(evs, s, i + 1, COMMON_TYPE)
    } else {
        Ok((seq![], 0, i))
    }
}

/// `n` field descriptors at `i`: their names and type ids, and the index
/// after them.
pub open spec fn fields_spec(evs: Seq<Event>, s: Seq<u8>, i: nat, n: nat) -> Result<
    (Seq<(Seq<char>, i64)>, nat),
    DecodeError,
>
    decreases n,
{
    if n == 0 {
        Ok((seq![], i))
    } else {
        match name_id_spec(evs, s, i, FIELD_TYPE) {
            Err(e) => Err(e),
            Ok((name, id, j)) => match fields_spec(evs, s, j, (n - 1) as nat) {
                Err(e) => Err(e),
                Ok((rest, r)) => Ok((seq![(name, id)] + rest, r)),
            },
        }
    }
}

/// What an announcement defines: the id, the shape, the name, and the
/// names of the fields (none but for a struct type).
pub struct Described {
    pub id: i64,
    pub shape: Shape,
    pub name: Seq<char>,
    pub field_names: Seq<Seq<char>>,
}

/// The body of a definition of kind `kind` at `i`: what it defines and the
/// index after it.
pub open spec fn body_spec(evs: Seq<Event>, s: Seq<u8>, kind: usize, i: nat) -> Result<
    (Described, nat),
    DecodeError,
> {
    let head = if kind == 0 {
        ARRAY_TYPE
    } else if kind == 1 {
        SLICE_TYPE
    } else if kind == 2 {
        STRUCT_TYPE
    } else {
        MAP_TYPE
    };
    if kind > 3 {
        Err(DecodeError::MalformedType)
    } else {
        match expect_spec(evs, i, Event::StructStart(head)) {
            Err(e) => Err(e),
            Ok(j) => match common_spec(evs, s, j) {
                Err(e) => Err(e),
                Ok((name, cid, j)) => {
                    let (a, j1) = opt_int_spec(evs, j, 1);
                    let (b, j2) = opt_int_spec(evs, j1, 2);
                    if kind == 0 {
                        Ok((Described { id: cid, shape: Shape::Array { elem: a, len: b }, name, field_names: seq![] }, j2))
                    } else if kind == 1 {
                        Ok((Described { id: cid, shape: Shape::Slice { elem: a }, name, field_names: seq![] }, j1))
                    } else if kind == 3 {
                        Ok((Described { id: cid, shape: Shape::MapOf { key: a, elem: b }, name, field_names: seq![] }, j2))
                    } else if ev(evs, j) == Some(Event::Field(1)) {
                        match ev(evs, j + 1) {
                            Some(Event::SeqStart(n)) => match fields_spec(evs, s, j + 2, n as nat) {
                                Err(e) => Err(e),
                                Ok((fs, r)) => Ok((
                                    Described {
                                        id: cid,
                                        shape: Shape::Struct { fields: fs.map_values(|f: (Seq<char>, i64)| f.1) },
                                        name,
                                        field_names: fs.map_values(|f: (Seq<char>, i64)| f.0),
                                    },
                                    r,
                                )),
                            },
                            _ => Err(DecodeError::MalformedType),
                        }
                    } else {
                        Ok((Described { id: cid, shape: Shape::Struct { fields: seq![] }, name, field_names: seq![] }, j))
                    }
                },
            },
        }
    }
}

/// What the events of a wire-type value define, names read from the input
/// `s`.
pub open spec fn definition_spec(evs: Seq<Event>, s: Seq<u8>) -> Result<Described, DecodeError> {
    if evs.len() + 16 > usize::MAX {
        Err(DecodeError::MalformedType)
    } else {
        match expect_spec(evs, 0, Event::StructStart(WIRE_TYPE)) {
            Err(e) => Err(e),
            Ok(i) => match ev(evs, i) {
                Some(Event::Field(kind)) => match body_spec(evs, s, kind, i + 1) {
                    Err(e) => Err(e),
                    Ok((d, j)) => match expect_spec(evs, j, Event::StructEnd) {
                        Err(e) => Err(e),
                        Ok(j) => match expect_spec(evs, j, Event::StructEnd) {
                            Err(e) => Err(e),
                            Ok(j) => if j == evs.len() {
                                Ok(d)
                            } else {
                                Err(DecodeError::MalformedType)
                            },
                        },
                    },
                },
                _ => Err(DecodeError::MalformedType),
            },
        }
    }
}

/// What a definition defines, in the terms of `Described`.
pub open spec fn described(w: WireType) -> Described {
    Described {
        id: w.id_spec(),
        shape: w.shape(),
        name: w.common_spec().name@,
        field_names: match w {
            WireType::Struct(t) => t.fields@.map_values(|f: FieldType| f.name@),
            _ => seq![],
        },
    }
}

/// The event at `i`, if there is one.
fn event_at(evs: &Vec<Event>, i: usize) -> (r: Option<Event>)
    ensures
        r == ev(evs@, i as nat),
{
    if i < evs.len() {
        Some(evs[i])
    } else {
        None
    }
}

fn opt_int(evs: &Vec<Event>, i: usize, k: usize) -> (r: (i64, usize))
    requires
        evs@.len() + 16 <= usize::MAX,
        i <= evs@.len() + 1,
    ensures
        (r.0, r.1 as nat) == opt_int_spec(evs@, i as nat, k),
        r.1 <= evs@.len() + 1,
{
    if let Some(Event::Field(f)) = event_at(evs, i) {
        if f == k {
            if let Some(Event::Int(v)) = event_at(evs, i + 1) {
                return (v, i + 2);
            }
        }
    }
    (0, i)
}

/// An optional string field `k` at `i`, its text read from `input`.
fn opt_name(evs: &Vec<Event>, input: &Vec<u8>, i: usize, k: usize) -> (r: Result<
    (String, usize),
    DecodeError,
>)
    requires
        evs@.len() + 16 <= usize::MAX,
        i <= evs@.len() + 1,
    ensures
        match r {
            Ok(x) => opt_name_spec(evs@, input@, i as nat, k) == Ok::<(Seq<char>, nat), DecodeError>(
                (x.0@, x.1 as nat),
            ),
            Err(e) => opt_name_spec(evs@, input@, i as nat, k) == Err::<(Seq<char>, nat), DecodeError>(e),
        },
        r matches Ok(x) ==> x.1 <= evs@.len() + 1,
{
    if let Some(Event::Field(f)) = event_at(evs, i) {
        if f == k {
            if let Some(Event::Str { start, len }) = event_at(evs, i + 1) {
                if start <= input.len() && len <= input.len() - start {
                    let b = vstd::slice::slice_subrange(input.as_slice(), start, start + len);
                    return match utf8_text(b) {
                        Some(t) => Ok((t, i + 2)),
                        None => Err(DecodeError::InvalidUtf8),
                    };
                }
                return Err(DecodeError::MalformedType);
            }
        }
    }
    Ok((String::new(), i))
}

fn expect(evs: &Vec<Event>, i: usize, e: Event) -> (r: Result<usize, DecodeError>)
    requires
        evs@.len() + 16 <= usize::MAX,
        i <= evs@.len() + 1,
    ensures
        match r {
            Ok(x) => expect_spec(evs@, i as nat, e) == Ok::<nat, DecodeError>(x as nat),
            Err(x) => expect_spec(evs@, i as nat, e) == Err::<nat, DecodeError>(x),
        },
        r matches Ok(j) ==> j <= evs@.len(),
{
    match event_at(evs, i) {
        Some(x) => if x == e {
            Ok(i + 1)
        } else {
            Err(DecodeError::MalformedType)
        },
        None => Err(DecodeError::MalformedType),
    }
}

/// A struct value of meta-type `id` with an optional name (field 0) and an
/// optional id (field 1).
fn name_id(evs: &Vec<Event>, input: &Vec<u8>, i: usize, id: i64) -> (r: Result<
    (String, i64, usize),
    DecodeError,
>)
    requires
        evs@.len() + 16 <= usize::MAX,
        i <= evs@.len() + 1,
    ensures
        match r {
            Ok(x) => name_id_spec(evs@, input@, i as nat, id) == Ok::<(Seq<char>, i64, nat), DecodeError>(
                (x.0@, x.1, x.2 as nat),
            ),
            Err(e) => name_id_spec(evs@, input@, i as nat, id) == Err::<(Seq<char>, i64, nat), DecodeError>(e),
        },
        r matches Ok(x) ==> x.2 <= evs@.len(),
{
    let j = expect(evs, i, Event::StructStart(id))?;
    let (name, j) = opt_name(evs, input, j, 0)?;
    let (v, j) = opt_int(evs, j, 1);
    let j = expect(evs, j, Event::StructEnd)?;
    Ok((name, v, j))
}

fn opt_common(evs: &Vec<Event>, input: &Vec<u8>, i: usize) -> (r: Result<
    (CommonType, usize),
    DecodeError,
>)
    requires
        evs@.len() + 16 <= usize::MAX,
        i <= evs@.len() + 1,
    ensures
        match r {
            Ok(x) => common_spec(evs@, input@, i as nat) == Ok::<(Seq<char>, i64, nat), DecodeError>(
                (x.0.name@, x.0.id.0, x.1 as nat),
            ),
            Err(e) => common_spec(evs@, input@, i as nat) == Err::<(Seq<char>, i64, nat), DecodeError>(e),
        },
        r matches Ok(x) ==> x.1 <= evs@.len() + 1,
{
    if let Some(Event::Field(0)) = event_at(evs, i) {
        let (name, id, j) = name_id(evs, input, i + 1, COMMON_TYPE)?;
        return Ok((CommonType { name, id: TypeId(id) }, j));
    }
    Ok((CommonType { name: String::new(), id: TypeId(0) }, i))
}

fn field_list(evs: &Vec<Event>, input: &Vec<u8>, i: usize, n: u64) -> (r: Result<
    (Vec<FieldType>, usize),
    DecodeError,
>)
    requires
        evs@.len() + 16 <= usize::MAX,
        i <= evs@.len() + 1,
    ensures
        match r {
            Ok(x) => fields_spec(evs@, input@, i as nat, n as nat) == Ok::<
                (Seq<(Seq<char>, i64)>, nat),
                DecodeError,
            >((x.0@.map_values(|f: FieldType| (f.name@, f.id.0)), x.1 as nat)),
            Err(e) => fields_spec(evs@, input@, i as nat, n as nat) == Err::<
                (Seq<(Seq<char>, i64)>, nat),
                DecodeError,
            >(e),
        },
        r matches Ok(x) ==> x.1 <= evs@.len() + 1,
{
    let mut fields: Vec<FieldType> = Vec::new();
    let mut j = i;
    let mut c: u64 = 0;
    while c < n
        invariant
            evs@.len() + 16 <= usize::MAX,
            j <= evs@.len() + 1,
            c <= n,
            fields_spec(evs@, input@, i as nat, n as nat) == match fields_spec(
                evs@,
                input@,
                j as nat,
                (n - c) as nat,
            ) {
                Ok((rest, r)) => Ok::<(Seq<(Seq<char>, i64)>, nat), DecodeError>(
                    (fields@.map_values(|f: FieldType| (f.name@, f.id.0)) + rest, r),
                ),
                Err(e) => Err(e),
            },
        decreases n - c,
    {
        let ghost done = fields@.map_values(|f: FieldType| (f.name@, f.id.0));
        let (name, id, k) = name_id(evs, input, j, FIELD_TYPE)?;
        let ghost pair = (name@, id);
        fields.push(FieldType { name, id: TypeId(id) });
        proof {
            assert(fields@.map_values(|f: FieldType| (f.name@, f.id.0)) =~= done.push(pair));
            let later = fields_spec(evs@, input@, k as nat, (n - c - 1) as nat);
            if let Ok((rest, r)) = later {
                assert(done + (seq![pair] + rest) =~= done.push(pair) + rest);
            }
        }
        j = k;
        c = c + 1;
    }
    assert(fields@.map_values(|f: FieldType| (f.name@, f.id.0)) + seq![] =~= fields@.map_values(
        |f: FieldType| (f.name@, f.id.0),
    ));
    Ok((fields, j))
}

/// The definition that the events of a decoded wire-type value describe.
fn wire_type_of(evs: &Vec<Event>, input: &Vec<u8>) -> (r: Result<WireType, DecodeError>)
    ensures
        match r {
            Ok(x) => definition_spec(evs@, input@) == Ok::<Described, DecodeError>(described(x)),
            Err(e) => definition_spec(evs@, input@) == Err::<Described, DecodeError>(e),
        },
{
    if evs.len() > usize::MAX - 16 {
        return Err(DecodeError::MalformedType);
    }
    let i = expect(evs, 0, Event::StructStart(WIRE_TYPE))?;
    let kind = match event_at(evs, i) {
        Some(Event::Field(k)) => k,
        _ => {
            return Err(DecodeError::MalformedType);
        },
    };
    let i = i + 1;
    if kind > 3 {
        return Err(DecodeError::MalformedType);
    }
    let head = if kind == 0 {
        ARRAY_TYPE
    } else if kind == 1 {
        SLICE_TYPE
    } else if kind == 2 {
        STRUCT_TYPE
    } else {
        MAP_TYPE
    };
    let j = expect(evs, i, Event::StructStart(head))?;
    let (common, j) = opt_common(evs, input, j)?;
    let (a, j1) = opt_int(evs, j, 1);
    let (b, j2) = opt_int(evs, j1, 2);
    let (def, k) = if kind == 0 {
        (WireType::Array(ArrayType { common, elem: TypeId(a), len: b }), j2)
    } else if kind == 1 {
        (WireType::Slice(SliceType { common, elem: TypeId(a) }), j1)
    } else if kind == 3 {
        (WireType::MapOf(MapType { common, key: TypeId(a), elem: TypeId(b) }), j2)
    } else {
        let (fields, k) = match event_at(evs, j) {
            Some(Event::Field(1)) => match event_at(evs, j + 1) {
                Some(Event::SeqStart(n)) => field_list(evs, input, j + 2, n)?,
                _ => {
                    return Err(DecodeError::MalformedType);
                },
            },
            _ => (Vec::new(), j),
        };
        proof {
            let pairs = fields@.map_values(|f: FieldType| (f.name@, f.id.0));
            assert(pairs.map_values(|f: (Seq<char>, i64)| f.1) =~= fields@.map_values(|f: FieldType| f.id.0));
            assert(pairs.map_values(|f: (Seq<char>, i64)| f.0) =~= fields@.map_values(|f: FieldType| f.name@));
            if fields@.len() == 0 {
                assert(fields@.map_values(|f: FieldType| f.id.0) =~= Seq::<i64>::empty());
                assert(fields@.map_values(|f: FieldType| f.name@) =~= Seq::<Seq<char>>::empty());
            }
        }
        (WireType::Struct(StructType { common, fields }), k)
    };
    let k = expect(evs, k, Event::StructEnd)?;
    let k = expect(evs, k, Event::StructEnd)?;
    if k != evs.len() {
        return Err(DecodeError::MalformedType);
    }
    Ok(def)
}

/// What one record is, read at `pos`: the header read (its length and its
/// type id) and the position after the header.
pub open spec fn header_at(s: Seq<u8>, pos: nat) -> Result<(i64, nat), DecodeError> {
    match bytes_len_at(s, pos) {
        Err(e) => Err(lift(e)),
        Ok((_, p)) => match int_at(s, p) {
            Err(e) => Err(lift(e)),
            Ok((id, q)) => Ok((id, q)),
        },
    }
}

/// A record, its body after its length, cut short anywhere before its end
/// fails as incomplete: the length asks for more bytes than remain.
pub proof fn lemma_record_truncated(body: Seq<u8>, k: nat)
    requires
        body.len() <= u64::MAX,
        k < uint_encoding(body.len() as u64).len() + body.len(),
    ensures
        header_at((uint_encoding(body.len() as u64) + body).subrange(0, k as int), 0)
            == Err::<(i64, nat), DecodeError>(DecodeError::IncompleteMessage),
{
    let e = uint_encoding(body.len() as u64);
    let t = (e + body).subrange(0, k as int);
    if k < e.len() {
        assert(t =~= e.subrange(0, k as int));
        lemma_uint_truncated(body.len() as u64, k);
    } else {
        let rest = body.subrange(0, k - e.len());
        assert(t =~= Seq::<u8>::empty() + e + rest);
        lemma_uint_round_trip(Seq::<u8>::empty(), body.len() as u64, rest);
    }
}

/// A value record of type `id` whose body starts at `pos`: a struct
/// directly, anything else after a zero discriminator.
pub open spec fn value_record_at(custom: Seq<(i64, Shape)>, id: i64, s: Seq<u8>, pos: nat) -> Result<
    (Seq<Event>, nat),
    DecodeError,
> {
    if shape_lookup(custom, id) matches Some(Shape::Struct { .. }) {
        value_at(custom, id, s, pos)
    } else {
        match uint_at(s, pos) {
            Err(e) => Err(lift(e)),
            Ok((d, p)) => if d != 0 {
                Err(DecodeError::MalformedSingleton)
            } else {
                value_at(custom, id, s, p)
            },
        }
    }
}

/// What one record brought.
#[derive(Debug, Clone, PartialEq, Eq)]
pub enum Record {
    /// A value, as its events.
    Value(Vec<Event>),
    /// A definition of the type with this id was added to the registry.
    Announced(i64),
}

/// A decoding session over one input: the cursor and the registry the
/// stream has taught so far.
pub struct Deserializer {
    msg: Message,
    types: Types,
}

impl Deserializer {
    /// The input.
    pub closed spec fn input(&self) -> Seq<u8> {
        self.msg.bytes()
    }

    /// The custom definitions learned, in the order announced.
    pub closed spec fn definitions(&self) -> Seq<WireType> {
        self.types.custom_defs()
    }

    /// Where the next record starts.
    pub closed spec fn cursor(&self) -> nat {
        self.msg.position()
    }

    /// The custom definitions learned, as (id, shape) pairs.
    pub closed spec fn learned(&self) -> Seq<(i64, Shape)> {
        self.types.model()
    }

    pub closed spec fn wf(&self) -> bool {
        self.types.wf()
    }

    /// A session at the start of `input`, knowing no custom type. The
    /// session holds its own copy of the input; events give positions in it,
    /// which are the same positions in `input`.
    pub fn from_slice(input: &[u8]) -> (r: Deserializer)
        ensures
            r.wf(),
            r.input() == input@,
            r.cursor() == 0,
            r.learned().len() == 0,
    {
        let mut buf: Vec<u8> = Vec::new();
        let mut i: usize = 0;
        while i < input.len()
            invariant
                i <= input@.len(),
                buf@ == input@.subrange(0, i as int),
            decreases input@.len() - i,
        {
            buf.push(input[i]);
            i = i + 1;
            assert(buf@ =~= input@.subrange(0, i as int));
        }
        assert(input@.subrange(0, input@.len() as int) =~= input@);
        let types = Types::new();
        assert(types.model() =~= Seq::<(i64, Shape)>::empty());
        Deserializer { msg: Message::new(buf), types }
    }

    /// The registry the stream has taught so far.
    pub fn registry(&self) -> (r: &Types)
        ensures
            r.model() == self.learned(),
            r.custom_defs() == self.definitions(),
            r.wf() == self.wf(),
    {
        &self.types
    }

    /// The input.
    pub fn buffer(&self) -> (r: &Vec<u8>)
        ensures
            r@ == self.input(),
    {
        self.msg.get_ref()
    }

    /// Reads one record. A value record gives its events and leaves the
    /// registry alone; an announcement adds the definition it carries when
    /// the definition's id is the opposite of the record's, and fails
    /// otherwise with the registry unchanged.
    pub fn decode_record(&mut self) -> (r: Result<Record, DecodeError>)
        requires
            old(self).wf(),
        ensures
            final(self).wf(),
            final(self).input() == old(self).input(),
            !(r matches Ok(Record::Announced(_))) ==> final(self).definitions() == old(self).definitions(),
            match header_at(old(self).input(), old(self).cursor()) {
                Err(e) => r == Err::<Record, DecodeError>(e) && final(self).learned() == old(self).learned(),
                Ok((id, p)) => if id >= 0 {
                    final(self).learned() == old(self).learned() && match value_record_at(
                        old(self).learned(),
                        id,
                        old(self).input(),
                        p,
                    ) {
                        Ok((evs, q)) => r matches Ok(Record::Value(v)) && v@ == evs
                            && final(self).cursor() == q,
                        Err(e) => r == Err::<Record, DecodeError>(e),
                    }
                } else {
                    match value_at(old(self).learned(), WIRE_TYPE, old(self).input(), p) {
                        Err(e) => r == Err::<Record, DecodeError>(e) && final(self).learned()
                            == old(self).learned(),
                        Ok((evs, q)) => match definition_spec(evs, old(self).input()) {
                            Err(e) => r == Err::<Record, DecodeError>(e) && final(self).learned()
                                == old(self).learned(),
                            Ok(d) => if d.id != -id {
                                r == Err::<Record, DecodeError>(DecodeError::TypeIdMismatch)
                                    && final(self).learned() == old(self).learned()
                                    && final(self).definitions() == old(self).definitions()
                            } else {
                                r matches Ok(Record::Announced(a)) && a == d.id && final(self).cursor() == q
                                    && final(self).learned() == old(self).learned().push((d.id, d.shape))
                                    && final(self).definitions().drop_last() == old(self).definitions()
                                    && described(final(self).definitions().last()) == d
                            },
                        },
                    }
                },
            },
    {
        broadcast use lemma_events_assoc, lemma_events_push;

        let _len = match self.msg.read_bytes_len() {
            Ok(n) => n,
            Err(e) => {
                return Err(crate::de::lift_exec(e));
            },
        };
        let id = match self.msg.read_int() {
            Ok(v) => v,
            Err(e) => {
                return Err(crate::de::lift_exec(e));
            },
        };
        let mut out: Vec<Event> = Vec::new();
        if id >= 0 {
            let is_struct = match self.types.lookup(TypeId(id)) {
                Some(WireType::Struct(_)) => true,
                _ => false,
            };
            if !is_struct {
                match self.msg.read_uint() {
                    Ok(d) => if d != 0 {
                        return Err(DecodeError::MalformedSingleton);
                    },
                    Err(e) => {
                        return Err(crate::de::lift_exec(e));
                    },
                }
            }
            decode_value(&self.types, id, &mut self.msg, &mut out)?;
            assert(out@ =~= Seq::<Event>::empty() + out@);
            return Ok(Record::Value(out));
        }
        decode_value(&self.types, WIRE_TYPE, &mut self.msg, &mut out)?;
        let def = wire_type_of(&out, self.msg.get_ref())?;
        if id == i64::MIN || def.common().id.0 != -id {
            return Err(DecodeError::TypeIdMismatch);
        }
        let did = def.common().id.0;
        self.types.insert(def);
        Ok(Record::Announced(did))
    }

    /// Reads records until a value record, learning the types announced on
    /// the way, and gives the value's events; the first error stops it.
    pub fn next_value(&mut self) -> (r: Result<Vec<Event>, DecodeError>)
        requires
            old(self).wf(),
        ensures
            final(self).wf(),
            final(self).input() == old(self).input(),
            extends(final(self).learned(), old(self).learned()),
            match stream_at(old(self).learned(), old(self).input(), old(self).cursor()) {
                Ok((evs, q, learned)) => r matches Ok(v) && v@ == evs && final(self).cursor() == q
                    && final(self).learned() == learned,
                Err(e) => r == Err::<Vec<Event>, DecodeError>(e),
            },
    {
        let ghost start = self.learned();
        assert(start.subrange(0, start.len() as int) =~= start);
        loop
            invariant
                self.wf(),
                self.input() == old(self).input(),
                extends(self.learned(), start),
                start == old(self).learned(),
                stream_at(start, self.input(), old(self).cursor()) == stream_at(
                    self.learned(),
                    self.input(),
                    self.cursor(),
                ),
            decreases self.input().len() - self.cursor(),
        {
            let before = self.msg.pos();
            let ghost learned_before = self.learned();
            match self.decode_record() {
                Ok(Record::Value(v)) => {
                    return Ok(v);
                },
                Ok(Record::Announced(_)) => {
                    proof {
                        if let Ok((id, p)) = header_at(self.input(), before as nat) {
                            lemma_value_advances(learned_before, WIRE_TYPE, self.input(), p);
                        }
                    }
                    assert(self.learned().subrange(0, start.len() as int) =~= learned_before.subrange(
                        0,
                        start.len() as int,
                    ));
                },
                Err(e) => {
                    return Err(e);
                },
            }
        }
    }
}

/// Whether `longer` starts with `shorter`.
pub open spec fn extends(longer: Seq<(i64, Shape)>, shorter: Seq<(i64, Shape)>) -> bool {
    shorter.len() <= longer.len() && longer.subrange(0, shorter.len() as int) == shorter
}

/// Reads records from `c` on, with the custom definitions `custom` known,
/// until a value record: the value's events, the position after it and
/// the custom definitions known then. An announcement adds its definition
/// when the definition's id is the opposite of the record's.
pub open spec fn stream_at(custom: Seq<(i64, Shape)>, s: Seq<u8>, c: nat) -> Result<
    (Seq<Event>, nat, Seq<(i64, Shape)>),
    DecodeError,
>
    decreases s.len() - c,
{
    match header_at(s, c) {
        Err(e) => Err(e),
        Ok((id, p)) => if id >= 0 {
            match value_record_at(custom, id, s, p) {
                Ok((evs, q)) => Ok((evs, q, custom)),
                Err(e) => Err(e),
            }
        } else {
            match value_at(custom, WIRE_TYPE, s, p) {
                Err(e) => Err(e),
                Ok((evs, q)) => match definition_spec(evs, s) {
                    Err(e) => Err(e),
                    Ok(d) => if d.id != -id {
                        Err(DecodeError::TypeIdMismatch)
                    } else if !(c < q && q <= s.len()) {
                        Err(DecodeError::IncompleteMessage)
                    } else {
                        stream_at(custom.push((d.id, d.shape)), s, q)
                    },
                },
            }
        },
    }
}

} // verus!
