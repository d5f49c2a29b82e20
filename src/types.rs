//! The type model of gob and the registry of wire types that a stream
//! builds: the fixed meta-type definitions and the custom types announced.

use vstd::prelude::*;

verus! {

/// Names a type on the wire. Negative at the head of a record: the record
/// announces the type with the opposite id.
#[derive(Debug, Clone, Copy, PartialEq, Eq, Structural)]
pub struct TypeId(pub i64);

pub const BOOL: i64 = 1;
pub const INT: i64 = 2;
pub const UINT: i64 = 3;
pub const FLOAT: i64 = 4;
pub const BYTES: i64 = 5;
pub const STRING: i64 = 6;
pub const COMPLEX: i64 = 7;
pub const WIRE_TYPE: i64 = 16;
pub const ARRAY_TYPE: i64 = 17;
pub const COMMON_TYPE: i64 = 18;
pub const SLICE_TYPE: i64 = 19;
pub const STRUCT_TYPE: i64 = 20;
pub const FIELD_TYPE: i64 = 21;
pub const FIELD_TYPE_SLICE: i64 = 22;
pub const MAP_TYPE: i64 = 23;
/// The first id that a stream may give a type of its own.
pub const FIRST_CUSTOM: i64 = 65;

/// The ids whose definitions every registry holds from the start.
pub open spec fn is_meta_id(id: i64) -> bool {
    id == WIRE_TYPE || id == ARRAY_TYPE || id == COMMON_TYPE || id == SLICE_TYPE || id
        == STRUCT_TYPE || id == FIELD_TYPE || id == FIELD_TYPE_SLICE || id == MAP_TYPE
}

/// The header of every definition: a name and the id defined.
#[derive(Debug, Clone, PartialEq, Eq)]
pub struct CommonType {
    pub name: String,
    pub id: TypeId,
}

/// One field of a struct type.
#[derive(Debug, Clone, PartialEq, Eq)]
pub struct FieldType {
    pub name: String,
    pub id: TypeId,
}

#[derive(Debug, Clone, PartialEq, Eq)]
pub struct ArrayType {
    pub common: CommonType,
    pub elem: TypeId,
    pub len: i64,
}

#[derive(Debug, Clone, PartialEq, Eq)]
pub struct SliceType {
    pub common: CommonType,
    pub elem: TypeId,
}

#[derive(Debug, Clone, PartialEq, Eq)]
pub struct StructType {
    pub common: CommonType,
    pub fields: Vec<FieldType>,
}

#[derive(Debug, Clone, PartialEq, Eq)]
pub struct MapType {
    pub common: CommonType,
    pub key: TypeId,
    pub elem: TypeId,
}

/// A structural definition, of one of four shapes.
#[derive(Debug, Clone, PartialEq, Eq)]
pub enum WireType {
    Array(ArrayType),
    Slice(SliceType),
    Struct(StructType),
    MapOf(MapType),
}

/// What decoding reads of a definition: its shape and the ids in it.
pub enum Shape {
    Array { elem: i64, len: i64 },
    Slice { elem: i64 },
    Struct { fields: Seq<i64> },
    MapOf { key: i64, elem: i64 },
}

impl WireType {
    /// The header.
    pub open spec fn common_spec(&self) -> CommonType {
        match self {
            WireType::Array(t) => t.common,
            WireType::Slice(t) => t.common,
            WireType::Struct(t) => t.common,
            WireType::MapOf(t) => t.common,
        }
    }

    /// The id defined.
    pub open spec fn id_spec(&self) -> i64 {
        self.common_spec().id.0
    }

    /// The shape, with the ids of the fields, elements, keys.
    pub open spec fn shape(&self) -> Shape {
        match self {
            WireType::Array(t) => Shape::Array { elem: t.elem.0, len: t.len },
            WireType::Slice(t) => Shape::Slice { elem: t.elem.0 },
            WireType::Struct(t) => Shape::Struct { fields: t.fields@.map_values(|f: FieldType| f.id.0) },
            WireType::MapOf(t) => Shape::MapOf { key: t.key.0, elem: t.elem.0 },
        }
    }

    /// The header.
    pub fn common(&self) -> (r: &CommonType)
        ensures
            *r == self.common_spec(),
    {
        match self {
            WireType::Array(t) => &t.common,
            WireType::Slice(t) => &t.common,
            WireType::Struct(t) => &t.common,
            WireType::MapOf(t) => &t.common,
        }
    }
}

/// Whether a borrowed option holds what `o` holds.
pub open spec fn opt_ref_is(r: Option<&WireType>, o: Option<WireType>) -> bool {
    match r {
        Some(w) => o == Some(*w),
        None => o is None,
    }
}

/// The last definition of `id` in `defs`, if any.
pub open spec fn find_last(defs: Seq<WireType>, id: i64) -> Option<WireType>
    decreases defs.len(),
{
    if defs.len() == 0 {
        None
    } else if defs.last().id_spec() == id {
        Some(defs.last())
    } else {
        find_last(defs.drop_last(), id)
    }
}

fn find_last_exec(defs: &Vec<WireType>, id: i64) -> (r: Option<&WireType>)
    ensures
        opt_ref_is(r, find_last(defs@, id)),
{
    let mut i: usize = defs.len();
    assert(defs@.subrange(0, i as int) =~= defs@);
    while i > 0
        invariant
            i <= defs@.len(),
            find_last(defs@, id) == find_last(defs@.subrange(0, i as int), id),
        decreases i,
    {
        let ghost pre = defs@.subrange(0, i as int);
        assert(pre.drop_last() =~= defs@.subrange(0, i - 1));
        if defs[i - 1].common().id.0 == id {
            return Some(&defs[i - 1]);
        }
        i = i - 1;
    }
    None
}

fn field(name: &str, id: i64) -> (r: FieldType)
    ensures
        r.name@ == name@,
        r.id.0 == id,
{
    FieldType { name: name.to_owned(), id: TypeId(id) }
}

fn common(name: &str, id: i64) -> (r: CommonType)
    ensures
        r.name@ == name@,
        r.id.0 == id,
{
    CommonType { name: name.to_owned(), id: TypeId(id) }
}

fn struct_def(name: &str, id: i64, fields: Vec<FieldType>) -> (r: WireType)
    ensures
        r.id_spec() == id,
        r.shape() == (Shape::Struct { fields: fields@.map_values(|f: FieldType| f.id.0) }),
{
    WireType::Struct(StructType { common: common(name, id), fields })
}

/// The shape of a meta-type.
pub open spec fn meta_shape(id: i64) -> Shape {
    if id == WIRE_TYPE {
        Shape::Struct { fields: seq![ARRAY_TYPE, SLICE_TYPE, STRUCT_TYPE, MAP_TYPE] }
    } else if id == ARRAY_TYPE || id == MAP_TYPE {
        Shape::Struct { fields: seq![COMMON_TYPE, INT, INT] }
    } else if id == COMMON_TYPE || id == FIELD_TYPE {
        Shape::Struct { fields: seq![STRING, INT] }
    } else if id == SLICE_TYPE {
        Shape::Struct { fields: seq![COMMON_TYPE, INT] }
    } else if id == STRUCT_TYPE {
        Shape::Struct { fields: seq![COMMON_TYPE, FIELD_TYPE_SLICE] }
    } else {
        Shape::Slice { elem: FIELD_TYPE }
    }
}

/// The shape of the last pair of `id` in `custom`, if any.
pub open spec fn find_last_shape(custom: Seq<(i64, Shape)>, id: i64) -> Option<Shape>
    decreases custom.len(),
{
    if custom.len() == 0 {
        None
    } else if custom.last().0 == id {
        Some(custom.last().1)
    } else {
        find_last_shape(custom.drop_last(), id)
    }
}

/// The shape that a registry with custom definitions `custom` gives `id`:
/// a meta-type's fixed shape, for a custom id the last custom one of `id`,
/// and none for any other id.
pub open spec fn shape_lookup(custom: Seq<(i64, Shape)>, id: i64) -> Option<Shape> {
    if is_meta_id(id) {
        Some(meta_shape(id))
    } else if id >= FIRST_CUSTOM {
        find_last_shape(custom, id)
    } else {
        None
    }
}

proof fn lemma_find_last_model(defs: Seq<WireType>, id: i64)
    ensures
        match find_last(defs, id) {
            Some(w) => find_last_shape(defs.map_values(|w: WireType| (w.id_spec(), w.shape())), id)
                == Some(w.shape()),
            None => find_last_shape(defs.map_values(|w: WireType| (w.id_spec(), w.shape())), id) is None,
        },
    decreases defs.len(),
{
    let m = defs.map_values(|w: WireType| (w.id_spec(), w.shape()));
    if defs.len() > 0 {
        assert(m.drop_last() =~= defs.drop_last().map_values(|w: WireType| (w.id_spec(), w.shape())));
        lemma_find_last_model(defs.drop_last(), id);
    }
}

/// Whether `fixed` holds the meta-type definitions, in the order of their ids.
pub open spec fn meta_defs(fixed: Seq<WireType>) -> bool {
    &&& fixed.len() == 8
    &&& fixed[0].id_spec() == WIRE_TYPE && fixed[0].shape() == (Shape::Struct {
        fields: seq![ARRAY_TYPE, SLICE_TYPE, STRUCT_TYPE, MAP_TYPE],
    })
    &&& fixed[1].id_spec() == ARRAY_TYPE && fixed[1].shape() == (Shape::Struct {
        fields: seq![COMMON_TYPE, INT, INT],
    })
    &&& fixed[2].id_spec() == COMMON_TYPE && fixed[2].shape() == (Shape::Struct {
        fields: seq![STRING, INT],
    })
    &&& fixed[3].id_spec() == SLICE_TYPE && fixed[3].shape() == (Shape::Struct {
        fields: seq![COMMON_TYPE, INT],
    })
    &&& fixed[4].id_spec() == STRUCT_TYPE && fixed[4].shape() == (Shape::Struct {
        fields: seq![COMMON_TYPE, FIELD_TYPE_SLICE],
    })
    &&& fixed[5].id_spec() == FIELD_TYPE && fixed[5].shape() == (Shape::Struct {
        fields: seq![STRING, INT],
    })
    &&& fixed[6].id_spec() == FIELD_TYPE_SLICE && fixed[6].shape() == (Shape::Slice {
        elem: FIELD_TYPE,
    })
    &&& fixed[7].id_spec() == MAP_TYPE && fixed[7].shape() == (Shape::Struct {
        fields: seq![COMMON_TYPE, INT, INT],
    })
}

/// The registry of one decoding session: the fixed meta-type definitions
/// and the custom definitions in the order they were announced.
pub struct Types {
    fixed: Vec<WireType>,
    custom: Vec<WireType>,
}

impl Types {
    /// The fixed definitions.
    pub closed spec fn fixed_defs(&self) -> Seq<WireType> {
        self.fixed@
    }

    /// The custom definitions, in the order they were inserted.
    pub closed spec fn custom_defs(&self) -> Seq<WireType> {
        self.custom@
    }

    pub open spec fn wf(&self) -> bool {
        meta_defs(self.fixed_defs())
    }

    /// The custom definitions as (id, shape) pairs, in insertion order.
    pub open spec fn model(&self) -> Seq<(i64, Shape)> {
        self.custom_defs().map_values(|w: WireType| (w.id_spec(), w.shape()))
    }

    /// A registry with the meta-type definitions and no custom type.
    pub fn new() -> (r: Types)
        ensures
            r.wf(),
            r.custom_defs().len() == 0,
    {
        let wire = vec![
            field("ArrayT", ARRAY_TYPE),
            field("SliceT", SLICE_TYPE),
            field("StructT", STRUCT_TYPE),
            field("MapT", MAP_TYPE),
        ];
        let array = vec![field("CommonType", COMMON_TYPE), field("Elem", INT), field("Len", INT)];
        let common_fields = vec![field("Name", STRING), field("Id", INT)];
        let slice = vec![field("CommonType", COMMON_TYPE), field("Elem", INT)];
        let strct = vec![field("CommonType", COMMON_TYPE), field("Field", FIELD_TYPE_SLICE)];
        let field_fields = vec![field("Name", STRING), field("Id", INT)];
        let map = vec![field("CommonType", COMMON_TYPE), field("Key", INT), field("Elem", INT)];
        assert(wire@.map_values(|f: FieldType| f.id.0) =~= seq![ARRAY_TYPE, SLICE_TYPE, STRUCT_TYPE, MAP_TYPE]);
        assert(array@.map_values(|f: FieldType| f.id.0) =~= seq![COMMON_TYPE, INT, INT]);
        assert(common_fields@.map_values(|f: FieldType| f.id.0) =~= seq![STRING, INT]);
        assert(slice@.map_values(|f: FieldType| f.id.0) =~= seq![COMMON_TYPE, INT]);
        assert(strct@.map_values(|f: FieldType| f.id.0) =~= seq![COMMON_TYPE, FIELD_TYPE_SLICE]);
        assert(field_fields@.map_values(|f: FieldType| f.id.0) =~= seq![STRING, INT]);
        assert(map@.map_values(|f: FieldType| f.id.0) =~= seq![COMMON_TYPE, INT, INT]);
        let mut fixed: Vec<WireType> = Vec::new();
        fixed.push(struct_def("wireType", WIRE_TYPE, wire));
        fixed.push(struct_def("arrayType", ARRAY_TYPE, array));
        fixed.push(struct_def("CommonType", COMMON_TYPE, common_fields));
        fixed.push(struct_def("sliceType", SLICE_TYPE, slice));
        fixed.push(struct_def("structType", STRUCT_TYPE, strct));
        fixed.push(struct_def("fieldType", FIELD_TYPE, field_fields));
        fixed.push(
            WireType::Slice(
                SliceType { common: common("[]fieldType", FIELD_TYPE_SLICE), elem: TypeId(FIELD_TYPE) },
            ),
        );
        fixed.push(struct_def("mapType", MAP_TYPE, map));
        Types { fixed, custom: Vec::new() }
    }

    /// Adds a custom definition under its own id; a later one of the same id
    /// hides an earlier one.
    pub fn insert(&mut self, def: WireType)
        ensures
            final(self).fixed_defs() == old(self).fixed_defs(),
            final(self).custom_defs() == old(self).custom_defs().push(def),
            final(self).model() == old(self).model().push((def.id_spec(), def.shape())),
    {
        self.custom.push(def);
        assert(self.model() =~= old(self).model().push((def.id_spec(), def.shape())));
    }

    /// What `lookup` gives for `id`: a meta-type's fixed definition (they
    /// stand in id order from `WIRE_TYPE` on), for a custom id the last
    /// custom definition of `id`, and none for any other id.
    pub open spec fn lookup_def(&self, id: i64) -> Option<WireType> {
        if is_meta_id(id) {
            Some(self.fixed_defs()[id - WIRE_TYPE])
        } else if id >= FIRST_CUSTOM {
            find_last(self.custom_defs(), id)
        } else {
            None
        }
    }

    /// The definition of `id`, if the registry has one: a meta-type's fixed
    /// definition, for a custom id the last custom definition of `id`, and
    /// none for any other id.
    pub fn lookup(&self, id: TypeId) -> (r: Option<&WireType>)
        requires
            self.wf(),
        ensures
            opt_ref_is(r, self.lookup_def(id.0)),
            match r {
                Some(w) => shape_lookup(self.model(), id.0) == Some(w.shape()),
                None => shape_lookup(self.model(), id.0) is None,
            },
    {
        let i = id.0;
        if i == WIRE_TYPE {
            Some(&self.fixed[0])
        } else if i == ARRAY_TYPE {
            Some(&self.fixed[1])
        } else if i == COMMON_TYPE {
            Some(&self.fixed[2])
        } else if i == SLICE_TYPE {
            Some(&self.fixed[3])
        } else if i == STRUCT_TYPE {
            Some(&self.fixed[4])
        } else if i == FIELD_TYPE {
            Some(&self.fixed[5])
        } else if i == FIELD_TYPE_SLICE {
            Some(&self.fixed[6])
        } else if i == MAP_TYPE {
            Some(&self.fixed[7])
        } else if i < FIRST_CUSTOM {
            None
        } else {
            let r = find_last_exec(&self.custom, i);
            proof {
                lemma_find_last_model(self.custom@, i);
            }
            r
        }
    }

    /// The custom definitions, in the order they were inserted.
    pub fn custom(&self) -> (r: &Vec<WireType>)
        ensures
            r@ == self.custom_defs(),
    {
        &self.custom
    }

    /// One past the highest custom id inserted, or the first custom id when
    /// there is none.
    pub fn next_custom_id(&self) -> (r: TypeId)
        ensures
            r.0 == next_custom_spec(self.custom_defs()),
    {
        let mut best: i64 = FIRST_CUSTOM - 1;
        let mut any = false;
        let mut i: usize = 0;
        while i < self.custom.len()
            invariant
                i <= self.custom@.len(),
                any == (i > 0),
                any ==> best == max_id(self.custom@.subrange(0, i as int)),
            decreases self.custom@.len() - i,
        {
            let id = self.custom[i].common().id.0;
            assert(self.custom@.subrange(0, i + 1).drop_last() =~= self.custom@.subrange(0, i as int));
            if !any || id > best {
                best = id;
            }
            any = true;
            i = i + 1;
        }
        assert(self.custom@.subrange(0, i as int) =~= self.custom@);
        if !any {
            TypeId(FIRST_CUSTOM)
        } else if best == i64::MAX {
            TypeId(best)
        } else {
            TypeId(best + 1)
        }
    }
}

/// The highest id among non-empty `defs`.
pub open spec fn max_id(defs: Seq<WireType>) -> i64
    decreases defs.len(),
{
    if defs.len() <= 1 {
        if defs.len() == 0 { 0 } else { defs[0].id_spec() }
    } else {
        let m = max_id(defs.drop_last());
        if defs.last().id_spec() > m { defs.last().id_spec() } else { m }
    }
}

/// One past the highest id (held at the largest id), or the first custom id.
pub open spec fn next_custom_spec(defs: Seq<WireType>) -> i64 {
    if defs.len() == 0 {
        FIRST_CUSTOM
    } else if max_id(defs) == i64::MAX {
        i64::MAX
    } else {
        (max_id(defs) + 1) as i64
    }
}

} // verus!
