//! Typed, dirty-tracked uniform bindings. The value store is a tagged sum
//! over the closed set of supported scalar and vector types — floating-point
//! components are carried as their IEEE-754 bit patterns, which the host
//! program reassembles at upload time. A table keys slots by name, rebuilt
//! from the reflected declarations of every compile, and a reload splices
//! old values into the fresh table where name and type still agree.

use vstd::prelude::*;

use crate::preprocess::TranspiledUniform;
use crate::text::str_eq;
use crate::Bindable;

verus! {

// ------------------------------------------------------------------
// The closed type set
// ------------------------------------------------------------------
/// The uniform types the reflector understands.
#[derive(Debug, Clone, Copy, PartialEq, Eq, Structural)]
pub enum UniformType {
    Bool,
    Int,
    Uint,
    Float,
    Double,
    BVec2,
    BVec3,
    BVec4,
    IVec2,
    IVec3,
    IVec4,
    UVec2,
    UVec3,
    UVec4,
    Vec2,
    Vec3,
    Vec4,
    DVec2,
    DVec3,
    DVec4,
}

/// A uniform value. Floating-point components are IEEE-754 bit patterns
/// (`f32::to_bits` / `f64::to_bits` images), so the store itself stays free
/// of floating-point arithmetic.
#[derive(Debug, Clone, Copy, PartialEq, Eq, Structural)]
pub enum UniformValue {
    Bool(bool),
    Int(i32),
    Uint(u32),
    Float(u32),
    Double(u64),
    BVec2(bool, bool),
    BVec3(bool, bool, bool),
    BVec4(bool, bool, bool, bool),
    IVec2(i32, i32),
    IVec3(i32, i32, i32),
    IVec4(i32, i32, i32, i32),
    UVec2(u32, u32),
    UVec3(u32, u32, u32),
    UVec4(u32, u32, u32, u32),
    Vec2(u32, u32),
    Vec3(u32, u32, u32),
    Vec4(u32, u32, u32, u32),
    DVec2(u64, u64),
    DVec3(u64, u64, u64),
    DVec4(u64, u64, u64, u64),
}

/// The type a value inhabits.
pub open spec fn type_of_value(v: UniformValue) -> UniformType {
    match v {
        UniformValue::Bool(..) => UniformType::Bool,
        UniformValue::Int(..) => UniformType::Int,
        UniformValue::Uint(..) => UniformType::Uint,
        UniformValue::Float(..) => UniformType::Float,
        UniformValue::Double(..) => UniformType::Double,
        UniformValue::BVec2(..) => UniformType::BVec2,
        UniformValue::BVec3(..) => UniformType::BVec3,
        UniformValue::BVec4(..) => UniformType::BVec4,
        UniformValue::IVec2(..) => UniformType::IVec2,
        UniformValue::IVec3(..) => UniformType::IVec3,
        UniformValue::IVec4(..) => UniformType::IVec4,
        UniformValue::UVec2(..) => UniformType::UVec2,
        UniformValue::UVec3(..) => UniformType::UVec3,
        UniformValue::UVec4(..) => UniformType::UVec4,
        UniformValue::Vec2(..) => UniformType::Vec2,
        UniformValue::Vec3(..) => UniformType::Vec3,
        UniformValue::Vec4(..) => UniformType::Vec4,
        UniformValue::DVec2(..) => UniformType::DVec2,
        UniformValue::DVec3(..) => UniformType::DVec3,
        UniformValue::DVec4(..) => UniformType::DVec4,
    }
}

pub fn value_type(v: &UniformValue) -> (r: UniformType)
    ensures
        r == type_of_value(*v),
{
    match v {
        UniformValue::Bool(..) => UniformType::Bool,
        UniformValue::Int(..) => UniformType::Int,
        UniformValue::Uint(..) => UniformType::Uint,
        UniformValue::Float(..) => UniformType::Float,
        UniformValue::Double(..) => UniformType::Double,
        UniformValue::BVec2(..) => UniformType::BVec2,
        UniformValue::BVec3(..) => UniformType::BVec3,
        UniformValue::BVec4(..) => UniformType::BVec4,
        UniformValue::IVec2(..) => UniformType::IVec2,
        UniformValue::IVec3(..) => UniformType::IVec3,
        UniformValue::IVec4(..) => UniformType::IVec4,
        UniformValue::UVec2(..) => UniformType::UVec2,
        UniformValue::UVec3(..) => UniformType::UVec3,
        UniformValue::UVec4(..) => UniformType::UVec4,
        UniformValue::Vec2(..) => UniformType::Vec2,
        UniformValue::Vec3(..) => UniformType::Vec3,
        UniformValue::Vec4(..) => UniformType::Vec4,
        UniformValue::DVec2(..) => UniformType::DVec2,
        UniformValue::DVec3(..) => UniformType::DVec3,
        UniformValue::DVec4(..) => UniformType::DVec4,
    }
}

/// The zero value of each type; zero bits are the zero of each float width.
pub open spec fn spec_default_value(t: UniformType) -> UniformValue {
    match t {
        UniformType::Bool => UniformValue::Bool(false),
        UniformType::Int => UniformValue::Int(0),
        UniformType::Uint => UniformValue::Uint(0),
        UniformType::Float => UniformValue::Float(0),
        UniformType::Double => UniformValue::Double(0),
        UniformType::BVec2 => UniformValue::BVec2(false, false),
        UniformType::BVec3 => UniformValue::BVec3(false, false, false),
        UniformType::BVec4 => UniformValue::BVec4(false, false, false, false),
        UniformType::IVec2 => UniformValue::IVec2(0, 0),
        UniformType::IVec3 => UniformValue::IVec3(0, 0, 0),
        UniformType::IVec4 => UniformValue::IVec4(0, 0, 0, 0),
        UniformType::UVec2 => UniformValue::UVec2(0, 0),
        UniformType::UVec3 => UniformValue::UVec3(0, 0, 0),
        UniformType::UVec4 => UniformValue::UVec4(0, 0, 0, 0),
        UniformType::Vec2 => UniformValue::Vec2(0, 0),
        UniformType::Vec3 => UniformValue::Vec3(0, 0, 0),
        UniformType::Vec4 => UniformValue::Vec4(0, 0, 0, 0),
        UniformType::DVec2 => UniformValue::DVec2(0, 0),
        UniformType::DVec3 => UniformValue::DVec3(0, 0, 0),
        UniformType::DVec4 => UniformValue::DVec4(0, 0, 0, 0),
    }
}

pub fn default_value(t: UniformType) -> (r: UniformValue)
    ensures
        r == spec_default_value(t),
        type_of_value(r) == t,
{
    match t {
        UniformType::Bool => UniformValue::Bool(false),
        UniformType::Int => UniformValue::Int(0),
        UniformType::Uint => UniformValue::Uint(0),
        UniformType::Float => UniformValue::Float(0),
        UniformType::Double => UniformValue::Double(0),
        UniformType::BVec2 => UniformValue::BVec2(false, false),
        UniformType::BVec3 => UniformValue::BVec3(false, false, false),
        UniformType::BVec4 => UniformValue::BVec4(false, false, false, false),
        UniformType::IVec2 => UniformValue::IVec2(0, 0),
        UniformType::IVec3 => UniformValue::IVec3(0, 0, 0),
        UniformType::IVec4 => UniformValue::IVec4(0, 0, 0, 0),
        UniformType::UVec2 => UniformValue::UVec2(0, 0),
        UniformType::UVec3 => UniformValue::UVec3(0, 0, 0),
        UniformType::UVec4 => UniformValue::UVec4(0, 0, 0, 0),
        UniformType::Vec2 => UniformValue::Vec2(0, 0),
        UniformType::Vec3 => UniformValue::Vec3(0, 0, 0),
        UniformType::Vec4 => UniformValue::Vec4(0, 0, 0, 0),
        UniformType::DVec2 => UniformValue::DVec2(0, 0),
        UniformType::DVec3 => UniformValue::DVec3(0, 0, 0),
        UniformType::DVec4 => UniformValue::DVec4(0, 0, 0, 0),
    }
}

/// The source-level name of each type tag.
pub open spec fn spec_type_name(t: UniformType) -> Seq<char> {
    match t {
        UniformType::Bool => "bool"@,
        UniformType::Int => "int"@,
        UniformType::Uint => "uint"@,
        UniformType::Float => "float"@,
        UniformType::Double => "double"@,
        UniformType::BVec2 => "bvec2"@,
        UniformType::BVec3 => "bvec3"@,
        UniformType::BVec4 => "bvec4"@,
        UniformType::IVec2 => "ivec2"@,
        UniformType::IVec3 => "ivec3"@,
        UniformType::IVec4 => "ivec4"@,
        UniformType::UVec2 => "uvec2"@,
        UniformType::UVec3 => "uvec3"@,
        UniformType::UVec4 => "uvec4"@,
        UniformType::Vec2 => "vec2"@,
        UniformType::Vec3 => "vec3"@,
        UniformType::Vec4 => "vec4"@,
        UniformType::DVec2 => "dvec2"@,
        UniformType::DVec3 => "dvec3"@,
        UniformType::DVec4 => "dvec4"@,
    }
}

pub fn type_name_str(t: UniformType) -> (r: &'static str)
    ensures
        r@ == spec_type_name(t),
{
    match t {
        UniformType::Bool => "bool",
        UniformType::Int => "int",
        UniformType::Uint => "uint",
        UniformType::Float => "float",
        UniformType::Double => "double",
        UniformType::BVec2 => "bvec2",
        UniformType::BVec3 => "bvec3",
        UniformType::BVec4 => "bvec4",
        UniformType::IVec2 => "ivec2",
        UniformType::IVec3 => "ivec3",
        UniformType::IVec4 => "ivec4",
        UniformType::UVec2 => "uvec2",
        UniformType::UVec3 => "uvec3",
        UniformType::UVec4 => "uvec4",
        UniformType::Vec2 => "vec2",
        UniformType::Vec3 => "vec3",
        UniformType::Vec4 => "vec4",
        UniformType::DVec2 => "dvec2",
        UniformType::DVec3 => "dvec3",
        UniformType::DVec4 => "dvec4",
    }
}

/// The type tag a declaration's type token names, if it is in the closed set.
pub open spec fn spec_parse_type(s: Seq<char>) -> Option<UniformType> {
    if s == "bool"@ {
        Some(UniformType::Bool)
    } else if s == "int"@ {
        Some(UniformType::Int)
    } else if s == "uint"@ {
        Some(UniformType::Uint)
    } else if s == "float"@ {
        Some(UniformType::Float)
    } else if s == "double"@ {
        Some(UniformType::Double)
    } else if s == "bvec2"@ {
        Some(UniformType::BVec2)
    } else if s == "bvec3"@ {
        Some(UniformType::BVec3)
    } else if s == "bvec4"@ {
        Some(UniformType::BVec4)
    } else if s == "ivec2"@ {
        Some(UniformType::IVec2)
    } else if s == "ivec3"@ {
        Some(UniformType::IVec3)
    } else if s == "ivec4"@ {
        Some(UniformType::IVec4)
    } else if s == "uvec2"@ {
        Some(UniformType::UVec2)
    } else if s == "uvec3"@ {
        Some(UniformType::UVec3)
    } else if s == "uvec4"@ {
        Some(UniformType::UVec4)
    } else if s == "vec2"@ {
        Some(UniformType::Vec2)
    } else if s == "vec3"@ {
        Some(UniformType::Vec3)
    } else if s == "vec4"@ {
        Some(UniformType::Vec4)
    } else if s == "dvec2"@ {
        Some(UniformType::DVec2)
    } else if s == "dvec3"@ {
        Some(UniformType::DVec3)
    } else if s == "dvec4"@ {
        Some(UniformType::DVec4)
    } else {
        None
    }
}

pub fn parse_type(s: &str) -> (r: Option<UniformType>)
    ensures
        r == spec_parse_type(s@),
{
    if str_eq(s, "bool") {
        Some(UniformType::Bool)
    } else if str_eq(s, "int") {
        Some(UniformType::Int)
    } else if str_eq(s, "uint") {
        Some(UniformType::Uint)
    } else if str_eq(s, "float") {
        Some(UniformType::Float)
    } else if str_eq(s, "double") {
        Some(UniformType::Double)
    } else if str_eq(s, "bvec2") {
        Some(UniformType::BVec2)
    } else if str_eq(s, "bvec3") {
        Some(UniformType::BVec3)
    } else if str_eq(s, "bvec4") {
        Some(UniformType::BVec4)
    } else if str_eq(s, "ivec2") {
        Some(UniformType::IVec2)
    } else if str_eq(s, "ivec3") {
        Some(UniformType::IVec3)
    } else if str_eq(s, "ivec4") {
        Some(UniformType::IVec4)
    } else if str_eq(s, "uvec2") {
        Some(UniformType::UVec2)
    } else if str_eq(s, "uvec3") {
        Some(UniformType::UVec3)
    } else if str_eq(s, "uvec4") {
        Some(UniformType::UVec4)
    } else if str_eq(s, "vec2") {
        Some(UniformType::Vec2)
    } else if str_eq(s, "vec3") {
        Some(UniformType::Vec3)
    } else if str_eq(s, "vec4") {
        Some(UniformType::Vec4)
    } else if str_eq(s, "dvec2") {
        Some(UniformType::DVec2)
    } else if str_eq(s, "dvec3") {
        Some(UniformType::DVec3)
    } else {
        if str_eq(s, "dvec4") {
            Some(UniformType::DVec4)
        } else {
            None
        }
    }
}

/// Type tokens that name an image or sampler binding rather than a value.
pub open spec fn spec_is_image_type(s: Seq<char>) -> bool {
    ||| s == "image1D"@
    ||| s == "image2D"@
    ||| s == "image3D"@
    ||| s == "sampler1D"@
    ||| s == "sampler2D"@
    ||| s == "sampler3D"@
}

pub fn is_image_type(s: &str) -> (r: bool)
    ensures
        r == spec_is_image_type(s@),
{
    str_eq(s, "image1D") || str_eq(s, "image2D") || str_eq(s, "image3D") || str_eq(s, "sampler1D")
        || str_eq(s, "sampler2D") || str_eq(s, "sampler3D")
}

// ------------------------------------------------------------------
// Slots
// ------------------------------------------------------------------
/// The spec image of one binding slot.
#[verifier::ext_equal]
pub struct SlotModel {
    pub name: Seq<char>,
    pub ty: UniformType,
    pub location: Option<i32>,
    pub value: UniformValue,
    pub dirty: bool,
}

/// A slot's value always inhabits its declared type.
pub open spec fn slot_wf(m: SlotModel) -> bool {
    type_of_value(m.value) == m.ty
}

/// The canonical signature a reload matches slots by: `name: type`.
pub open spec fn sig_of(m: SlotModel) -> Seq<char> {
    m.name + ": "@ + spec_type_name(m.ty)
}

/// One named, typed binding with dirty tracking and an optional program
/// location. A slot without a location is inert: the program in use does not
/// reference its name, and uploads for it are skipped, which is not an error.
#[derive(Debug)]
pub struct UniformSlot {
    name: String,
    ty: UniformType,
    location: Option<i32>,
    bind: Bindable<UniformValue>,
}

impl View for UniformSlot {
    type V = SlotModel;

    closed spec fn view(&self) -> SlotModel {
        SlotModel {
            name: self.name@,
            ty: self.ty,
            location: self.location,
            value: self.bind.spec_value(),
            dirty: self.bind.spec_dirty(),
        }
    }
}

impl UniformSlot {
    /// A new slot, dirty so that its first use uploads, with no location yet.
    pub fn new(name: &str, ty: UniformType, initial: UniformValue) -> (r: UniformSlot)
        requires
            type_of_value(initial) == ty,
        ensures
            r@ == (SlotModel { name: name@, ty, location: None, value: initial, dirty: true }),
    {
        UniformSlot {
            name: String::from_str(name),
            ty,
            location: None,
            bind: Bindable::new(initial),
        }
    }

    /// A slot rebuilt from all of its parts, the way a splice re-files a
    /// carried value into a fresh table.
    pub fn with_state(
        name: &str,
        ty: UniformType,
        location: Option<i32>,
        value: UniformValue,
        dirty: bool,
    ) -> (r: UniformSlot)
        requires
            type_of_value(value) == ty,
        ensures
            r@ == (SlotModel { name: name@, ty, location, value, dirty }),
    {
        let mut bind = Bindable::new(value);
        if !dirty {
            bind.clear_dirty();
        }
        UniformSlot { name: String::from_str(name), ty, location, bind }
    }

    pub fn name_str(&self) -> (r: &str)
        ensures
            r@ == self@.name,
    {
        self.name.as_str()
    }

    pub fn uniform_type(&self) -> (r: UniformType)
        ensures
            r == self@.ty,
    {
        self.ty
    }

    pub fn get_location(&self) -> (r: Option<i32>)
        ensures
            r == self@.location,
    {
        self.location
    }

    /// Files the location the linked program reports for this name; `None`
    /// when the program does not reference it.
    pub fn set_location(&mut self, location: Option<i32>)
        ensures
            final(self)@ == (SlotModel { location, ..old(self)@ }),
    {
        self.location = location;
    }

    pub fn get_value(&self) -> (r: &UniformValue)
        ensures
            *r == self@.value,
    {
        self.bind.get()
    }

    /// Stores a value of the slot's own type and marks the slot dirty.
    pub fn set_value(&mut self, value: UniformValue)
        requires
            type_of_value(value) == old(self)@.ty,
        ensures
            final(self)@ == (SlotModel { value, dirty: true, ..old(self)@ }),
    {
        self.bind.set(value);
    }

    pub fn is_dirty(&self) -> (r: bool)
        ensures
            r == self@.dirty,
    {
        self.bind.is_dirty()
    }

    pub fn clear_dirty(&mut self)
        ensures
            final(self)@ == (SlotModel { dirty: false, ..old(self)@ }),
    {
        self.bind.clear_dirty();
    }

    /// The slot's signature, `name: type`.
    pub fn signature(&self) -> (r: String)
        ensures
            r@ == sig_of(self@),
    {
        let mut out = String::from_str(self.name.as_str());
        out.append(": ");
        out.append(type_name_str(self.ty));
        out
    }
}

// ------------------------------------------------------------------
// The table
// ------------------------------------------------------------------
/// First index in `t` holding `name`, or `t.len()` when none does.
pub open spec fn find_from(t: Seq<SlotModel>, name: Seq<char>, i: int) -> int
    decreases t.len() - i,
{
    if i < 0 || i >= t.len() {
        t.len() as int
    } else if t[i].name == name {
        i
    } else {
        find_from(t, name, i + 1)
    }
}

pub open spec fn find_slot(t: Seq<SlotModel>, name: Seq<char>) -> int {
    find_from(t, name, 0)
}

pub proof fn lemma_find_from_props(t: Seq<SlotModel>, name: Seq<char>, lo: int)
    requires
        0 <= lo <= t.len(),
    ensures
        lo <= find_from(t, name, lo) <= t.len(),
        find_from(t, name, lo) < t.len() ==> t[find_from(t, name, lo)].name == name,
        forall|j: int| lo <= j < find_from(t, name, lo) ==> (#[trigger] t[j]).name != name,
    decreases t.len() - lo,
{
    if lo < t.len() && t[lo].name != name {
        lemma_find_from_props(t, name, lo + 1);
    }
}

/// Well-formedness of a table: slots typed, names unique.
pub open spec fn table_wf(t: Seq<SlotModel>) -> bool {
    &&& forall|i: int| 0 <= i < t.len() ==> slot_wf(#[trigger] t[i])
    &&& forall|i: int, j: int|
        0 <= i < j < t.len() ==> (#[trigger] t[i]).name != (#[trigger] t[j]).name
}

/// Replaces the slot of `s.name`, or appends `s` when the name is new.
pub open spec fn upsert(t: Seq<SlotModel>, s: SlotModel) -> Seq<SlotModel> {
    let k = find_slot(t, s.name);
    if k < t.len() {
        t.update(k, s)
    } else {
        t.push(s)
    }
}

/// One upload the dirty pass asks the host program to perform.
#[derive(Debug, Clone, Copy, PartialEq, Eq, Structural)]
pub struct UploadCommand {
    pub location: i32,
    pub value: UniformValue,
}

/// The uploads a pass over `t` emits: every slot that is dirty (or forced)
/// and has a location, in table order.
pub open spec fn uploads_of(t: Seq<SlotModel>, force: bool) -> Seq<UploadCommand>
    decreases t.len(),
{
    if t.len() == 0 {
        Seq::empty()
    } else {
        let rest = uploads_of(t.drop_last(), force);
        let m = t.last();
        if (force || m.dirty) && m.location is Some {
            rest.push(UploadCommand { location: m.location->0, value: m.value })
        } else {
            rest
        }
    }
}

/// Every slot clean, values untouched.
pub open spec fn all_clean(t: Seq<SlotModel>) -> Seq<SlotModel> {
    Seq::new(t.len(), |i: int| SlotModel { dirty: false, ..t[i] })
}

/// Every slot dirty, values untouched.
pub open spec fn all_dirty(t: Seq<SlotModel>) -> Seq<SlotModel> {
    Seq::new(t.len(), |i: int| SlotModel { dirty: true, ..t[i] })
}

/// Why a by-name update was refused.
#[derive(Debug, Clone, Copy, PartialEq, Eq, Structural)]
pub enum UniformError {
    /// No slot carries the name.
    UnknownName,
    /// The slot's declared type differs from the value offered.
    TypeMismatch,
}

/// The name-keyed store of uniform slots.
#[derive(Debug)]
pub struct UniformTable {
    slots: Vec<UniformSlot>,
}

impl View for UniformTable {
    type V = Seq<SlotModel>;

    closed spec fn view(&self) -> Seq<SlotModel> {
        self.slots@.map_values(|s: UniformSlot| s@)
    }
}

impl UniformTable {
    pub open spec fn wf(&self) -> bool {
        table_wf(self@)
    }

    pub fn new() -> (r: UniformTable)
        ensures
            r@ =~= Seq::<SlotModel>::empty(),
            r.wf(),
    {
        UniformTable { slots: Vec::new() }
    }

    pub fn len(&self) -> (r: usize)
        ensures
            r == self@.len(),
    {
        self.slots.len()
    }

    pub fn slot_at(&self, i: usize) -> (r: &UniformSlot)
        requires
            i < self@.len(),
        ensures
            r@ == self@[i as int],
    {
        &self.slots[i]
    }

    /// The index of the slot carrying `name`: a stable key into this table.
    #[verifier::loop_isolation(false)]
    pub fn get_uniform(&self, name: &str) -> (r: Option<usize>)
        ensures
            match r {
                Some(i) => i == find_slot(self@, name@) && i < self@.len() && self@[i as int].name
                    == name@,
                None => find_slot(self@, name@) == self@.len(),
            },
    {
        let mut i: usize = 0;
        while i < self.slots.len()
            invariant
                i <= self@.len(),
                forall|j: int| 0 <= j < i ==> (#[trigger] self@[j]).name != name@,
            decreases self@.len() - i,
        {
            if str_eq(self.slots[i].name.as_str(), name) {
                proof {
                    lemma_find_from_props(self@, name@, 0);
                    if find_slot(self@, name@) < i {
                        assert(self@[find_slot(self@, name@)].name == name@);
                    }
                    if find_slot(self@, name@) > i {
                        assert(self@[i as int].name != name@);
                    }
                }
                return Some(i);
            }
            i += 1;
        }
        proof {
            lemma_find_from_props(self@, name@, 0);
            if find_slot(self@, name@) < self@.len() {
                assert(self@[find_slot(self@, name@)].name == name@);
            }
        }
        None
    }

    /// Replaces the slot of `slot`'s name, or appends it when the name is
    /// new.
    #[verifier::loop_isolation(false)]
    pub fn add_uniform(&mut self, slot: UniformSlot)
        requires
            old(self).wf(),
            slot_wf(slot@),
        ensures
            final(self).wf(),
            final(self)@ == upsert(old(self)@, slot@),
    {
        let ghost before = self@;
        let ghost s = slot@;
        match self.get_uniform(slot.name.as_str()) {
            Some(k) => {
                self.slots[k] = slot;
                proof {
                    assert(self@ =~= before.update(find_slot(before, s.name), s));
                    let after = self@;
                    assert forall|a: int| 0 <= a < after.len() implies after[a].name
                        == before[a].name by {}
                    assert(table_wf(after));
                }
            },
            None => {
                self.slots.push(slot);
                proof {
                    assert(self@ =~= before.push(s));
                    lemma_find_from_props(before, s.name, 0);
                    let after = self@;
                    assert forall|a: int, b: int|
                        0 <= a < b < after.len() implies after[a].name != after[b].name by {
                        if b == before.len() {
                            assert(before[a].name != s.name);
                        }
                    }
                    assert(table_wf(after));
                }
            },
        }
    }

    /// The current value under `name`, if any slot carries it.
    pub fn value_of(&self, name: &str) -> (r: Option<UniformValue>)
        ensures
            match r {
                Some(v) => find_slot(self@, name@) < self@.len() && v == self@[find_slot(
                    self@,
                    name@,
                )].value,
                None => find_slot(self@, name@) == self@.len(),
            },
    {
        match self.get_uniform(name) {
            Some(i) => Some(*self.slots[i].get_value()),
            None => None,
        }
    }

    /// Stores a value under `name`. Succeeds exactly when a slot carries the
    /// name and its declared type is the value's type; the slot then holds
    /// the value and is dirty, and no other slot moves.
    pub fn set_value(&mut self, name: &str, value: UniformValue) -> (r: Result<(), UniformError>)
        requires
            old(self).wf(),
        ensures
            final(self).wf(),
            ({
                let k = find_slot(old(self)@, name@);
                match r {
                    Ok(()) => {
                        &&& k < old(self)@.len()
                        &&& old(self)@[k].ty == type_of_value(value)
                        &&& final(self)@ == old(self)@.update(
                            k,
                            (SlotModel { value, dirty: true, ..old(self)@[k] }),
                        )
                    },
                    Err(UniformError::UnknownName) => k == old(self)@.len() && final(self)@ == old(
                        self,
                    )@,
                    Err(UniformError::TypeMismatch) => {
                        &&& k < old(self)@.len()
                        &&& old(self)@[k].ty != type_of_value(value)
                        &&& final(self)@ == old(self)@
                    },
                }
            }),
    {
        let ghost before = self@;
        match self.get_uniform(name) {
            Some(k) => {
                let slot = &mut self.slots[k];
                if value_type(&value) == slot.uniform_type() {
                    slot.set_value(value);
                    proof {
                        assert(self@ =~= before.update(
                            k as int,
                            (SlotModel { value, dirty: true, ..before[k as int] }),
                        ));
                    }
                    Ok(())
                } else {
                    proof {
                        assert(self@ =~= before);
                    }
                    Err(UniformError::TypeMismatch)
                }
            },
            None => Err(UniformError::UnknownName),
        }
    }

    /// Marks every slot dirty, the way a reload forces a full re-upload.
    #[verifier::loop_isolation(false)]
    pub fn mark_all_dirty(&mut self)
        requires
            old(self).wf(),
        ensures
            final(self).wf(),
            final(self)@ == all_dirty(old(self)@),
    {
        let ghost before = self@;
        let mut i: usize = 0;
        while i < self.slots.len()
            invariant
                i <= before.len(),
                self@.len() == before.len(),
                forall|j: int|
                    0 <= j < before.len() ==> #[trigger] self@[j] == if j < i {
                        SlotModel { dirty: true, ..before[j] }
                    } else {
                        before[j]
                    },
            decreases before.len() - i,
        {
            let ghost snap = self@;
            proof {
                assert(snap[i as int] == before[i as int]);
                assert(slot_wf(before[i as int]));
            }
            let slot = &mut self.slots[i];
            let v = *slot.get_value();
            slot.set_value(v);
            proof {
                assert forall|j: int| 0 <= j < before.len() implies #[trigger] self@[j] == (if j
                    < i + 1 {
                    SlotModel { dirty: true, ..before[j] }
                } else {
                    before[j]
                }) by {
                    if j != i {
                        assert(self@[j] == snap[j]);
                    }
                }
            }
            i += 1;
        }
        proof {
            assert(self@ =~= all_dirty(before));
        }
    }

    /// One upload pass: clears every slot's dirty mark and hands back the
    /// uploads owed — one per slot that was dirty (or that `force` covers)
    /// and has a location, in table order.
    #[verifier::loop_isolation(false)]
    pub fn take_uploads(&mut self, force: bool) -> (r: Vec<UploadCommand>)
        requires
            old(self).wf(),
        ensures
            final(self).wf(),
            final(self)@ == all_clean(old(self)@),
            r@ == uploads_of(old(self)@, force),
    {
        let ghost before = self@;
        let mut out: Vec<UploadCommand> = Vec::new();
        let mut i: usize = 0;
        while i < self.slots.len()
            invariant
                i <= before.len(),
                self@.len() == before.len(),
                forall|j: int|
                    0 <= j < before.len() ==> #[trigger] self@[j] == if j < i {
                        SlotModel { dirty: false, ..before[j] }
                    } else {
                        before[j]
                    },
                out@ == uploads_of(before.take(i as int), force),
            decreases before.len() - i,
        {
            let ghost snap = self@;
            proof {
                assert(before.take(i + 1).drop_last() =~= before.take(i as int));
                assert(before.take(i + 1).last() == before[i as int]);
                assert(snap[i as int] == before[i as int]);
            }
            let slot = &mut self.slots[i];
            if force || slot.is_dirty() {
                slot.clear_dirty();
                match slot.get_location() {
                    Some(location) => {
                        out.push(UploadCommand { location, value: *slot.get_value() });
                    },
                    None => {},
                }
            }
            proof {
                assert forall|j: int| 0 <= j < before.len() implies #[trigger] self@[j] == (if j
                    < i + 1 {
                    SlotModel { dirty: false, ..before[j] }
                } else {
                    before[j]
                }) by {
                    if j != i {
                        assert(self@[j] == snap[j]);
                    } else {
                        assert(self@[j] == (SlotModel { dirty: false, ..before[j] }));
                    }
                }
                assert(out@ == uploads_of(before.take(i + 1), force));
            }
            i += 1;
        }
        proof {
            assert(before.take(before.len() as int) =~= before);
            assert(self@ =~= all_clean(before));
        }
        out
    }

    /// The slot names, in table order, for the host program to look up
    /// locations with.
    #[verifier::loop_isolation(false)]
    pub fn names(&self) -> (r: Vec<String>)
        ensures
            r@.map_values(|n: String| n@) == self@.map_values(|m: SlotModel| m.name),
    {
        let mut out: Vec<String> = Vec::new();
        let mut i: usize = 0;
        while i < self.slots.len()
            invariant
                i <= self@.len(),
                out@.map_values(|n: String| n@) == self@.map_values(|m: SlotModel| m.name).take(
                    i as int,
                ),
            decreases self@.len() - i,
        {
            out.push(String::from_str(self.slots[i].name.as_str()));
            proof {
                assert(out@.map_values(|n: String| n@) =~= self@.map_values(
                    |m: SlotModel| m.name,
                ).take(i + 1));
            }
            i += 1;
        }
        proof {
            assert(self@.map_values(|m: SlotModel| m.name).take(self@.len() as int) =~= self@
                .map_values(|m: SlotModel| m.name));
        }
        out
    }

    /// Files the locations the linked program reports, one per slot in table
    /// order; `None` marks a name the program does not reference.
    #[verifier::loop_isolation(false)]
    pub fn bind_locations(&mut self, locations: &Vec<Option<i32>>)
        requires
            old(self).wf(),
            locations@.len() == old(self)@.len(),
        ensures
            final(self).wf(),
            final(self)@ == Seq::new(
                old(self)@.len(),
                |i: int| SlotModel { location: locations@[i], ..old(self)@[i] },
            ),
    {
        let ghost before = self@;
        let mut i: usize = 0;
        while i < self.slots.len()
            invariant
                i <= before.len(),
                self@.len() == before.len(),
                locations@.len() == before.len(),
                forall|j: int|
                    0 <= j < before.len() ==> #[trigger] self@[j] == if j < i {
                        SlotModel { location: locations@[j], ..before[j] }
                    } else {
                        before[j]
                    },
            decreases before.len() - i,
        {
            let ghost snap = self@;
            proof {
                assert(snap[i as int] == before[i as int]);
            }
            let slot = &mut self.slots[i];
            slot.set_location(locations[i]);
            proof {
                assert forall|j: int| 0 <= j < before.len() implies #[trigger] self@[j] == (if j
                    < i + 1 {
                    SlotModel { location: locations@[j], ..before[j] }
                } else {
                    before[j]
                }) by {
                    if j != i {
                        assert(self@[j] == snap[j]);
                    } else {
                        assert(self@[j] == (SlotModel {
                            location: locations@[j],
                            ..before[j]
                        }));
                    }
                }
            }
            i += 1;
        }
        proof {
            assert(self@ =~= Seq::new(
                before.len(),
                |i: int| SlotModel { location: locations@[i], ..before[i] },
            ));
        }
    }
}

// ------------------------------------------------------------------
// Reflection: declarations to a fresh table
// ------------------------------------------------------------------
/// A declaration whose type token is outside the closed set: fatal, the
/// upload path for a type must be known statically.
#[derive(Debug, Clone, PartialEq)]
pub enum ReflectError {
    UnknownUniformType(String),
}

/// The spec image of reflection: the slots and image names a declaration
/// list builds, or the first type token outside the closed set.
pub enum ReflectResult {
    Built(Seq<SlotModel>, Seq<Seq<char>>),
    Unknown(Seq<char>),
}

/// Appends a name unless it is already listed.
pub open spec fn names_upsert(ns: Seq<Seq<char>>, n: Seq<char>) -> Seq<Seq<char>> {
    if ns.contains(n) {
        ns
    } else {
        ns.push(n)
    }
}

/// A freshly reflected slot: default value, dirty, not yet located.
pub open spec fn fresh_slot(name: Seq<char>, t: UniformType) -> SlotModel {
    SlotModel { name, ty: t, location: None, value: spec_default_value(t), dirty: true }
}

/// Reflection over a declaration list, in source order: a recognized value
/// type files a fresh default slot under its name (a repeated name replaces
/// the earlier slot), an image or sampler type files the name among the
/// image bindings, and anything else stops reflection.
pub open spec fn reflect_spec(decls: Seq<(Seq<char>, Seq<char>)>) -> ReflectResult
    decreases decls.len(),
{
    if decls.len() == 0 {
        ReflectResult::Built(Seq::empty(), Seq::empty())
    } else {
        match reflect_spec(decls.drop_last()) {
            ReflectResult::Unknown(t) => ReflectResult::Unknown(t),
            ReflectResult::Built(slots, images) => {
                let name = decls.last().0;
                let ty = decls.last().1;
                match spec_parse_type(ty) {
                    Some(t) => ReflectResult::Built(upsert(slots, fresh_slot(name, t)), images),
                    None => if spec_is_image_type(ty) {
                        ReflectResult::Built(slots, names_upsert(images, name))
                    } else {
                        ReflectResult::Unknown(ty)
                    },
                }
            },
        }
    }
}

/// Once reflection stops on an unknown type token, the longer list stops on
/// the same token.
proof fn lemma_reflect_unknown_persists(ds: Seq<(Seq<char>, Seq<char>)>, i: int)
    requires
        0 <= i <= ds.len(),
        reflect_spec(ds.take(i)) is Unknown,
    ensures
        reflect_spec(ds) == reflect_spec(ds.take(i)),
    decreases ds.len() - i,
{
    if i < ds.len() {
        assert(ds.take(i + 1).drop_last() =~= ds.take(i));
        lemma_reflect_unknown_persists(ds, i + 1);
    } else {
        assert(ds.take(i) =~= ds);
    }
}

/// Whether `s` stands among the names.
fn image_names_contain(v: &Vec<String>, s: &str) -> (r: bool)
    ensures
        r == v@.map_values(|x: String| x@).contains(s@),
{
    let ghost names = v@.map_values(|x: String| x@);
    let mut i: usize = 0;
    while i < v.len()
        invariant
            i <= v@.len(),
            names == v@.map_values(|x: String| x@),
            forall|j: int| 0 <= j < i ==> names[j] != s@,
        decreases v@.len() - i,
    {
        if str_eq(v[i].as_str(), s) {
            proof {
                assert(names[i as int] == s@);
            }
            return true;
        }
        i += 1;
    }
    proof {
        if names.contains(s@) {
            let j = choose|j: int| 0 <= j < names.len() && names[j] == s@;
        }
    }
    false
}

/// Builds the uniform table and the image-binding name list that a merged
/// unit's declarations call for, exactly as `reflect_spec` lays them out.
/// Every slot starts at its type's default and dirty, so the first upload
/// pass covers the whole table.
#[verifier::loop_isolation(false)]
pub fn build_table(decls: &Vec<TranspiledUniform>) -> (r: Result<
    (UniformTable, Vec<String>),
    ReflectError,
>)
    ensures
        match r {
            Ok(p) => {
                &&& reflect_spec(decls@.map_values(|d: TranspiledUniform| (d.name@, d.ty@)))
                    == ReflectResult::Built(p.0@, p.1@.map_values(|n: String| n@))
                &&& p.0.wf()
            },
            Err(ReflectError::UnknownUniformType(ty)) => reflect_spec(
                decls@.map_values(|d: TranspiledUniform| (d.name@, d.ty@)),
            ) == ReflectResult::Unknown(ty@),
        },
{
    let ghost ds = decls@.map_values(|d: TranspiledUniform| (d.name@, d.ty@));
    let mut table = UniformTable::new();
    let mut images: Vec<String> = Vec::new();
    proof {
        assert(ds.take(0) =~= Seq::<(Seq<char>, Seq<char>)>::empty());
        assert(images@.map_values(|n: String| n@) =~= Seq::<Seq<char>>::empty());
    }
    let mut i: usize = 0;
    while i < decls.len()
        invariant
            i <= decls@.len(),
            table.wf(),
            reflect_spec(ds.take(i as int)) == ReflectResult::Built(
                table@,
                images@.map_values(|n: String| n@),
            ),
        decreases decls@.len() - i,
    {
        proof {
            assert(ds.take(i + 1).drop_last() =~= ds.take(i as int));
            assert(ds.take(i + 1).last() == ds[i as int]);
        }
        let d = &decls[i];
        match parse_type(d.ty.as_str()) {
            Some(t) => {
                let slot = UniformSlot::new(d.name.as_str(), t, default_value(t));
                table.add_uniform(slot);
            },
            None => {
                if is_image_type(d.ty.as_str()) {
                    if !image_names_contain(&images, d.name.as_str()) {
                        let ghost prev = images@.map_values(|n: String| n@);
                        images.push(String::from_str(d.name.as_str()));
                        proof {
                            assert(images@.map_values(|n: String| n@) =~= prev.push(d.name@));
                        }
                    }
                } else {
                    proof {
                        lemma_reflect_unknown_persists(ds, i + 1);
                    }
                    return Err(ReflectError::UnknownUniformType(String::from_str(
                        d.ty.as_str(),
                    )));
                }
            },
        }
        i += 1;
    }
    proof {
        assert(ds.take(ds.len() as int) =~= ds);
    }
    Ok((table, images))
}

// ------------------------------------------------------------------
// The reload splice
// ------------------------------------------------------------------
/// Why a slot's state did not carry across a reload.
#[derive(Debug, Clone, Copy, PartialEq, Eq, Structural)]
pub enum CarryReason {
    /// The fresh table declares the name at a different type; the fresh
    /// default stands.
    TypeChanged,
    /// The fresh table does not declare the name at all.
    Dropped,
}

/// A per-name report that a reload could not carry state over.
#[derive(Debug, Clone, PartialEq)]
pub struct CarryNote {
    pub name: String,
    pub reason: CarryReason,
}

/// The value a fresh slot shows after the splice: the old table's value
/// where the old table declares the same name at the same type, the fresh
/// default otherwise.
pub open spec fn splice_value(old_slots: Seq<SlotModel>, f: SlotModel) -> UniformValue {
    let k = find_slot(old_slots, f.name);
    if k < old_slots.len() && old_slots[k].ty == f.ty {
        old_slots[k].value
    } else {
        f.value
    }
}

/// The fresh table after the splice: every slot keeps its name, type and
/// location, takes `splice_value`, and is dirty so that one forced upload
/// pass leaves nothing stale.
pub open spec fn spliced_slots(old_slots: Seq<SlotModel>, fresh: Seq<SlotModel>) -> Seq<
    SlotModel,
> {
    Seq::new(
        fresh.len(),
        |i: int| SlotModel { value: splice_value(old_slots, fresh[i]), dirty: true, ..fresh[i] },
    )
}

/// The names whose state does not carry, in old-table order: names the fresh
/// table drops, and names whose declared type changed.
pub open spec fn carry_notes(old_slots: Seq<SlotModel>, fresh: Seq<SlotModel>) -> Seq<
    (Seq<char>, CarryReason),
>
    decreases old_slots.len(),
{
    if old_slots.len() == 0 {
        Seq::empty()
    } else {
        let rest = carry_notes(old_slots.drop_last(), fresh);
        let o = old_slots.last();
        let k = find_slot(fresh, o.name);
        if k >= fresh.len() {
            rest.push((o.name, CarryReason::Dropped))
        } else if fresh[k].ty != o.ty {
            rest.push((o.name, CarryReason::TypeChanged))
        } else {
            rest
        }
    }
}

impl UniformTable {
    /// Splices a running table into the fresh table of a successful reload:
    /// where name and type still agree the old value carries over, otherwise
    /// the fresh default stands and the name is reported; every slot of the
    /// result is dirty, so the next forced upload pass re-covers the whole
    /// program.
    #[verifier::loop_isolation(false)]
    pub fn spliced(old_table: &UniformTable, fresh: &UniformTable) -> (r: (
        UniformTable,
        Vec<CarryNote>,
    ))
        requires
            old_table.wf(),
            fresh.wf(),
        ensures
            r.0.wf(),
            r.0@ == spliced_slots(old_table@, fresh@),
            r.1@.map_values(|n: CarryNote| (n.name@, n.reason)) == carry_notes(
                old_table@,
                fresh@,
            ),
    {
        let mut merged = UniformTable::new();
        let mut i: usize = 0;
        while i < fresh.len()
            invariant
                i <= fresh@.len(),
                merged@ =~= spliced_slots(old_table@, fresh@).take(i as int),
            decreases fresh@.len() - i,
        {
            let f = fresh.slot_at(i);
            let ghost fm = fresh@[i as int];
            let value = match old_table.get_uniform(f.name_str()) {
                Some(k) => {
                    let o = old_table.slot_at(k);
                    if o.uniform_type() == f.uniform_type() {
                        *o.get_value()
                    } else {
                        *f.get_value()
                    }
                },
                None => *f.get_value(),
            };
            proof {
                assert(value == splice_value(old_table@, fm));
                assert(type_of_value(value) == fm.ty);
            }
            let slot = UniformSlot::with_state(
                f.name_str(),
                f.uniform_type(),
                f.get_location(),
                value,
                true,
            );
            let ghost prev = merged@;
            merged.slots.push(slot);
            proof {
                assert(merged@ =~= prev.push(slot@));
                assert(merged@ =~= spliced_slots(old_table@, fresh@).take(i + 1));
            }
            i += 1;
        }
        proof {
            assert(spliced_slots(old_table@, fresh@).take(fresh@.len() as int) =~= spliced_slots(
                old_table@,
                fresh@,
            ));
            assert forall|a: int, b: int|
                0 <= a < b < merged@.len() implies (#[trigger] merged@[a]).name
                != (#[trigger] merged@[b]).name by {
                assert(merged@[a].name == fresh@[a].name);
                assert(merged@[b].name == fresh@[b].name);
            }
            assert forall|a: int| 0 <= a < merged@.len() implies slot_wf(#[trigger] merged@[a]) by {
                let fm = fresh@[a];
                lemma_find_from_props(old_table@, fm.name, 0);
                assert(merged@[a] == spliced_slots(old_table@, fresh@)[a]);
                assert(slot_wf(fm));
            }
            assert(table_wf(merged@));
        }

        let mut notes: Vec<CarryNote> = Vec::new();
        let mut j: usize = 0;
        while j < old_table.len()
            invariant
                j <= old_table@.len(),
                notes@.map_values(|n: CarryNote| (n.name@, n.reason)) =~= carry_notes(
                    old_table@.take(j as int),
                    fresh@,
                ),
            decreases old_table@.len() - j,
        {
            proof {
                assert(old_table@.take(j + 1).drop_last() =~= old_table@.take(j as int));
                assert(old_table@.take(j + 1).last() == old_table@[j as int]);
            }
            let o = old_table.slot_at(j);
            let ghost prev_notes = notes@.map_values(|n: CarryNote| (n.name@, n.reason));
            match fresh.get_uniform(o.name_str()) {
                Some(k) => {
                    if fresh.slot_at(k).uniform_type() != o.uniform_type() {
                        notes.push(
                            CarryNote {
                                name: String::from_str(o.name_str()),
                                reason: CarryReason::TypeChanged,
                            },
                        );
                        proof {
                            assert(notes@.map_values(|n: CarryNote| (n.name@, n.reason))
                                =~= prev_notes.push((o@.name, CarryReason::TypeChanged)));
                        }
                    }
                },
                None => {
                    notes.push(
                        CarryNote {
                            name: String::from_str(o.name_str()),
                            reason: CarryReason::Dropped,
                        },
                    );
                    proof {
                        assert(notes@.map_values(|n: CarryNote| (n.name@, n.reason))
                            =~= prev_notes.push((o@.name, CarryReason::Dropped)));
                    }
                },
            }
            j += 1;
        }
        proof {
            assert(old_table@.take(old_table@.len() as int) =~= old_table@);
        }
        (merged, notes)
    }
}

} // verus!

