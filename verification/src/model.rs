//! The dynamic configuration model.
//!
//! A configuration shape is described by a field-descriptor table
//! ([`Shape`]); a partial view of a configuration ([`Partial`]) holds, for
//! each field of the shape, either nothing, a scalar datum, or a nested
//! partial sub-configuration.  Scalar data are format-independent trees
//! ([`Value`]) and are merged atomically; nested sub-configurations merge
//! field-wise.

use vstd::prelude::*;

verus! {

/// A format-independent datum, as produced by one of the deserialization
/// capabilities.  Scalar configuration fields hold one `Value` and are
/// merged atomically, however deep the datum itself is.
#[derive(Debug, PartialEq)]
pub enum Value {
    /// An explicit null.
    Null,
    /// A boolean.
    Bool(bool),
    /// An integer.  Non-integer numbers are outside the model.
    Int(i64),
    /// A string.
    Str(String),
    /// A sequence of data.
    List(Vec<Value>),
    /// A mapping from names to data, in document order.
    Obj(Vec<(String, Value)>),
}

/// Mathematical model of a [`Value`].
pub enum ValueV {
    /// An explicit null.
    Null,
    /// A boolean.
    Bool(bool),
    /// An integer.
    Int(i64),
    /// A string.
    Str(Seq<char>),
    /// A sequence of data.
    List(Seq<ValueV>),
    /// A mapping from names to data, in document order.
    Obj(Seq<(Seq<char>, ValueV)>),
}

pub open spec fn value_view(v: Value) -> ValueV
    decreases v,
{
    match v {
        Value::Null => ValueV::Null,
        Value::Bool(b) => ValueV::Bool(b),
        Value::Int(i) => ValueV::Int(i),
        Value::Str(s) => ValueV::Str(s@),
        Value::List(items) => ValueV::List(values_view(items@)),
        Value::Obj(entries) => ValueV::Obj(entries_view(entries@)),
    }
}

pub open spec fn values_view(s: Seq<Value>) -> Seq<ValueV>
    decreases s,
{
    if s.len() == 0 {
        Seq::empty()
    } else {
        values_view(s.drop_last()).push(value_view(s.last()))
    }
}

pub open spec fn entries_view(s: Seq<(String, Value)>) -> Seq<(Seq<char>, ValueV)>
    decreases s,
{
    if s.len() == 0 {
        Seq::empty()
    } else {
        entries_view(s.drop_last()).push((s.last().0@, value_view(s.last().1)))
    }
}

impl View for Value {
    type V = ValueV;

    open spec fn view(&self) -> ValueV {
        value_view(*self)
    }
}

pub broadcast proof fn lemma_entries_view_len(s: Seq<(String, Value)>)
    ensures
        (#[trigger] entries_view(s)).len() == s.len(),
    decreases s,
{
    if s.len() > 0 {
        lemma_entries_view_len(s.drop_last());
    }
}

impl Value {
    /// A structurally equal copy, proved to keep the value's model.
    pub fn duplicate(&self) -> (r: Value)
        ensures
            r@ == self@,
        decreases *self,
    {
        match self {
            Value::Null => Value::Null,
            Value::Bool(b) => Value::Bool(*b),
            Value::Int(i) => Value::Int(*i),
            Value::Str(s) => Value::Str(s.clone()),
            Value::List(items) => {
                proof {
                    assert(decreases_to!(*self => self->List_0));
                }
                let mut out: Vec<Value> = Vec::new();
                let n = items.len();
                for k in 0..n
                    invariant
                        n == items.len(),
                        out.len() == k,
                        decreases_to!(*self => *items),
                        values_view(out@) == values_view(items@.subrange(0, k as int)),
                {
                    proof {
                        vstd::std_specs::vec::axiom_vec_index_decreases(*items, k as int);
                        assert(decreases_to!(*self => items@[k as int]));
                    }
                    let ghost prev = out@;
                    let d = items[k].duplicate();
                    out.push(d);
                    proof {
                        assert(out@.drop_last() =~= prev);
                        assert(items@.subrange(0, k as int + 1).drop_last() =~= items@.subrange(
                            0,
                            k as int,
                        ));
                        assert(items@.subrange(0, k as int + 1).last() == items@[k as int]);
                    }
                }
                proof {
                    assert(items@.subrange(0, items@.len() as int) =~= items@);
                }
                Value::List(out)
            },
            Value::Obj(entries) => {
                proof {
                    assert(decreases_to!(*self => self->Obj_0));
                }
                let mut out: Vec<(String, Value)> = Vec::new();
                let n = entries.len();
                for k in 0..n
                    invariant
                        n == entries.len(),
                        out.len() == k,
                        decreases_to!(*self => *entries),
                        entries_view(out@) == entries_view(entries@.subrange(0, k as int)),
                {
                    proof {
                        vstd::std_specs::vec::axiom_vec_index_decreases(*entries, k as int);
                        assert(decreases_to!(entries@[k as int] => entries@[k as int].1));
                        assert(decreases_to!(*self => entries@[k as int].1));
                    }
                    let ghost prev = out@;
                    let name = entries[k].0.clone();
                    let d = entries[k].1.duplicate();
                    out.push((name, d));
                    proof {
                        assert(out@.drop_last() =~= prev);
                        assert(entries@.subrange(0, k as int + 1).drop_last() =~= entries@.subrange(
                            0,
                            k as int,
                        ));
                        assert(entries@.subrange(0, k as int + 1).last() == entries@[k as int]);
                    }
                }
                proof {
                    assert(entries@.subrange(0, entries@.len() as int) =~= entries@);
                }
                Value::Obj(out)
            },
        }
    }
}

/// One field of a partial configuration: nothing yet, a scalar datum, or a
/// nested partial sub-configuration.
#[derive(Debug, PartialEq)]
pub enum Slot {
    /// The field has not been set by this layer.
    Absent,
    /// The field holds a scalar datum, merged atomically.
    Scalar(Value),
    /// The field is a nested sub-configuration, merged field-wise.
    Sub(Partial),
}

/// A partial view of a configuration: one [`Slot`] per field of the
/// [`Shape`] it mirrors, in the shape's field order.
#[derive(Debug, PartialEq)]
pub struct Partial {
    /// One slot per field of the mirrored shape.
    pub slots: Vec<Slot>,
}

/// Mathematical model of a [`Slot`]; a partial view is modelled as a
/// sequence of these.
pub enum SlotV {
    /// The field has not been set.
    Absent,
    /// A scalar datum.
    Scalar(ValueV),
    /// A nested partial sub-configuration.
    Sub(Seq<SlotV>),
}

pub open spec fn slot_view(s: Slot) -> SlotV
    decreases s,
{
    match s {
        Slot::Absent => SlotV::Absent,
        Slot::Scalar(v) => SlotV::Scalar(value_view(v)),
        Slot::Sub(p) => SlotV::Sub(slots_view(p.slots@)),
    }
}

pub open spec fn slots_view(s: Seq<Slot>) -> Seq<SlotV>
    decreases s,
{
    if s.len() == 0 {
        Seq::empty()
    } else {
        slots_view(s.drop_last()).push(slot_view(s.last()))
    }
}

impl View for Partial {
    type V = Seq<SlotV>;

    open spec fn view(&self) -> Seq<SlotV> {
        slots_view(self.slots@)
    }
}

pub broadcast proof fn lemma_slots_view_len(s: Seq<Slot>)
    ensures
        (#[trigger] slots_view(s)).len() == s.len(),
    decreases s,
{
    if s.len() > 0 {
        lemma_slots_view_len(s.drop_last());
    }
}

pub broadcast proof fn lemma_slots_view_index(s: Seq<Slot>, i: int)
    requires
        0 <= i < s.len(),
    ensures
        #[trigger] slots_view(s)[i] == slot_view(s[i]),
    decreases s,
{
    lemma_slots_view_len(s);
    if i < s.len() - 1 {
        lemma_slots_view_index(s.drop_last(), i);
        lemma_slots_view_len(s.drop_last());
    }
}

/// How one field of a configuration shape behaves.
#[derive(Debug, PartialEq)]
pub enum FieldKind {
    /// A scalar field that must be set somewhere for solidify to succeed.
    Required,
    /// A scalar field that may stay unset.
    Optional,
    /// A nested sub-configuration with its own shape.
    Sub(Shape),
}

/// The descriptor of one configuration field.
#[derive(Debug, PartialEq)]
pub struct FieldDesc {
    /// The field's name, as it appears in serialized documents.
    pub name: String,
    /// How the field behaves.
    pub kind: FieldKind,
    /// Whether a value of this field names a further configuration file to
    /// load as a nested layer.  Such a value must be a string path.
    pub load_config: bool,
    /// A built-in default, merged beneath every explicit layer.
    pub default: Option<Value>,
}

/// A configuration shape: the ordered field-descriptor table that a
/// [`Partial`] mirrors.
#[derive(Debug, PartialEq)]
pub struct Shape {
    /// The fields, in declaration order.
    pub fields: Vec<FieldDesc>,
}

/// Mathematical model of a [`FieldKind`].
pub enum FieldKindV {
    /// A required scalar field.
    Required,
    /// An optional scalar field.
    Optional,
    /// A nested sub-configuration.
    Sub(Seq<FieldDescV>),
}

/// Mathematical model of a [`FieldDesc`].
pub struct FieldDescV {
    /// The field's name.
    pub name: Seq<char>,
    /// How the field behaves.
    pub kind: FieldKindV,
    /// Whether a value of this field names a further configuration file.
    pub load_config: bool,
    /// A built-in default for the field.
    pub default: Option<ValueV>,
}

pub open spec fn kind_view(k: FieldKind) -> FieldKindV
    decreases k,
{
    match k {
        FieldKind::Required => FieldKindV::Required,
        FieldKind::Optional => FieldKindV::Optional,
        FieldKind::Sub(shape) => FieldKindV::Sub(fields_view(shape.fields@)),
    }
}

pub open spec fn field_view(f: FieldDesc) -> FieldDescV
    decreases f,
{
    FieldDescV {
        name: f.name@,
        kind: kind_view(f.kind),
        load_config: f.load_config,
        default: match f.default {
            Option::Some(v) => Option::Some(value_view(v)),
            Option::None => Option::None,
        },
    }
}

pub open spec fn fields_view(s: Seq<FieldDesc>) -> Seq<FieldDescV>
    decreases s,
{
    if s.len() == 0 {
        Seq::empty()
    } else {
        fields_view(s.drop_last()).push(field_view(s.last()))
    }
}

impl View for Shape {
    type V = Seq<FieldDescV>;

    open spec fn view(&self) -> Seq<FieldDescV> {
        fields_view(self.fields@)
    }
}

pub broadcast proof fn lemma_fields_view_len(s: Seq<FieldDesc>)
    ensures
        (#[trigger] fields_view(s)).len() == s.len(),
    decreases s,
{
    if s.len() > 0 {
        lemma_fields_view_len(s.drop_last());
    }
}

pub broadcast proof fn lemma_fields_view_index(s: Seq<FieldDesc>, i: int)
    requires
        0 <= i < s.len(),
    ensures
        #[trigger] fields_view(s)[i] == field_view(s[i]),
    decreases s,
{
    lemma_fields_view_len(s);
    if i < s.len() - 1 {
        lemma_fields_view_index(s.drop_last(), i);
        lemma_fields_view_len(s.drop_last());
    }
}

/// Whether one slot structurally matches one field kind: a sub-configuration
/// field always holds a `Sub` slot whose contents mirror the sub-shape, and a
/// scalar field never holds one.
pub open spec fn wf_slot(sl: SlotV, k: FieldKindV) -> bool
    decreases k,
{
    match k {
        FieldKindV::Sub(sub) => sl matches SlotV::Sub(q) && wf_slots(q, sub),
        _ => !(sl is Sub),
    }
}

/// Whether a present value of a load-config field is a string path.
pub open spec fn lc_slot_ok(sl: SlotV, f: FieldDescV) -> bool {
    f.load_config ==> (sl is Absent || (sl matches SlotV::Scalar(v) && v is Str))
}

/// Structural agreement of a partial view with a shape, field by field.
pub open spec fn wf_slots(p: Seq<SlotV>, s: Seq<FieldDescV>) -> bool
    decreases s,
{
    &&& p.len() == s.len()
    &&& if s.len() == 0 {
        true
    } else {
        &&& wf_slots(p.drop_last(), s.drop_last())
        &&& wf_slot(p.last(), s.last().kind)
        &&& lc_slot_ok(p.last(), s.last())
    }
}

pub broadcast proof fn lemma_wf_slots_index(p: Seq<SlotV>, s: Seq<FieldDescV>, i: int)
    requires
        wf_slots(p, s),
        0 <= i < s.len(),
    ensures
        #[trigger] wf_slot(p[i], s[i].kind),
        lc_slot_ok(p[i], s[i]),
    decreases s,
{
    if i < s.len() - 1 {
        lemma_wf_slots_index(p.drop_last(), s.drop_last(), i);
    }
}

/// Validity of a shape itself: a nested field carries no load-config flag
/// and no scalar default, and a load-config field's default, if any, is a
/// string path.
pub open spec fn wf_fields(s: Seq<FieldDescV>) -> bool
    decreases s,
{
    if s.len() == 0 {
        true
    } else {
        &&& wf_fields(s.drop_last())
        &&& wf_field(s.last())
    }
}

pub open spec fn wf_field(f: FieldDescV) -> bool
    decreases f,
{
    match f.kind {
        FieldKindV::Sub(sub) => !f.load_config && f.default is None && wf_fields(sub),
        _ => f.load_config ==> match f.default {
            Option::Some(v) => v is Str,
            Option::None => true,
        },
    }
}

/// The merge of two corresponding slots; the first argument has the higher
/// priority.  A set scalar survives untouched; an unset field takes the
/// lower layer's contribution; nested sub-configurations merge field-wise.
pub open spec fn merge_slot(a: SlotV, b: SlotV) -> SlotV
    decreases a,
{
    match (a, b) {
        (SlotV::Sub(x), SlotV::Sub(y)) => SlotV::Sub(merge_slots(x, y)),
        (SlotV::Absent, _) => b,
        _ => a,
    }
}

/// Field-wise merge of two partial views of the same shape; the first
/// argument has the higher priority.
pub open spec fn merge_slots(a: Seq<SlotV>, b: Seq<SlotV>) -> Seq<SlotV>
    decreases a,
{
    if a.len() == 0 {
        Seq::empty()
    } else {
        merge_slots(a.drop_last(), b.drop_last()).push(merge_slot(a.last(), b.last()))
    }
}

pub broadcast proof fn lemma_merge_slots_len(a: Seq<SlotV>, b: Seq<SlotV>)
    ensures
        (#[trigger] merge_slots(a, b)).len() == a.len(),
    decreases a,
{
    if a.len() > 0 {
        lemma_merge_slots_len(a.drop_last(), b.drop_last());
    }
}

pub broadcast proof fn lemma_merge_slots_index(a: Seq<SlotV>, b: Seq<SlotV>, i: int)
    requires
        a.len() == b.len(),
        0 <= i < a.len(),
    ensures
        #[trigger] merge_slots(a, b)[i] == merge_slot(a[i], b[i]),
    decreases a,
{
    lemma_merge_slots_len(a, b);
    if i < a.len() - 1 {
        lemma_merge_slots_index(a.drop_last(), b.drop_last(), i);
        lemma_merge_slots_len(a.drop_last(), b.drop_last());
    }
}

/// Structural compatibility of two partial views: equal field counts, at
/// every level where both sides hold a nested sub-configuration.
pub open spec fn slot_compat(a: SlotV, b: SlotV) -> bool
    decreases a,
{
    (a matches SlotV::Sub(x) && b matches SlotV::Sub(y)) ==> compat(a->Sub_0, b->Sub_0)
}

pub open spec fn compat(a: Seq<SlotV>, b: Seq<SlotV>) -> bool
    decreases a,
{
    &&& a.len() == b.len()
    &&& if a.len() == 0 {
        true
    } else {
        compat(a.drop_last(), b.drop_last()) && slot_compat(a.last(), b.last())
    }
}

pub broadcast proof fn lemma_compat_index(a: Seq<SlotV>, b: Seq<SlotV>, i: int)
    requires
        compat(a, b),
        0 <= i < a.len(),
    ensures
        #[trigger] slot_compat(a[i], b[i]),
    decreases a,
{
    if i < a.len() - 1 {
        lemma_compat_index(a.drop_last(), b.drop_last(), i);
    }
}

/// Two partial views of one shape are structurally compatible.
pub proof fn lemma_wf_compat(a: Seq<SlotV>, b: Seq<SlotV>, s: Seq<FieldDescV>)
    requires
        wf_slots(a, s),
        wf_slots(b, s),
    ensures
        compat(a, b),
    decreases s,
{
    if s.len() > 0 {
        lemma_wf_compat(a.drop_last(), b.drop_last(), s.drop_last());
        assert(wf_slot(a.last(), s.last().kind));
        assert(wf_slot(b.last(), s.last().kind));
        match s.last().kind {
            FieldKindV::Sub(sub) => {
                assert(wf_slots(a.last()->Sub_0, sub));
                assert(wf_slots(b.last()->Sub_0, sub));
                lemma_wf_compat(a.last()->Sub_0, b.last()->Sub_0, sub);
                assert(slot_compat(a.last(), b.last()));
            },
            _ => {
                assert(!(a.last() is Sub));
                assert(slot_compat(a.last(), b.last()));
            },
        }
    }
}

/// Merging two partial views of one shape yields a partial view of that
/// shape.
pub proof fn lemma_merge_wf(a: Seq<SlotV>, b: Seq<SlotV>, s: Seq<FieldDescV>)
    requires
        wf_slots(a, s),
        wf_slots(b, s),
    ensures
        wf_slots(merge_slots(a, b), s),
    decreases s,
{
    lemma_merge_slots_len(a, b);
    if s.len() > 0 {
        lemma_merge_wf(a.drop_last(), b.drop_last(), s.drop_last());
        let m = merge_slots(a, b);
        assert(m.drop_last() =~= merge_slots(a.drop_last(), b.drop_last()));
        assert(m.last() == merge_slot(a.last(), b.last()));
        assert(wf_slot(a.last(), s.last().kind));
        assert(wf_slot(b.last(), s.last().kind));
        match s.last().kind {
            FieldKindV::Sub(sub) => {
                assert(wf_slots(a.last()->Sub_0, sub));
                assert(wf_slots(b.last()->Sub_0, sub));
                lemma_merge_wf(a.last()->Sub_0, b.last()->Sub_0, sub);
                assert(wf_slot(m.last(), s.last().kind));
                assert(lc_slot_ok(m.last(), s.last()));
            },
            _ => {
                assert(!(a.last() is Sub) && !(b.last() is Sub));
                assert(m.last() == a.last() || m.last() == b.last());
                assert(wf_slot(m.last(), s.last().kind));
                assert(lc_slot_ok(m.last(), s.last()));
            },
        }
    }
}

/// The all-absent partial view of a shape: every scalar field unset, every
/// nested sub-configuration recursively empty.
pub open spec fn skeleton_slot(k: FieldKindV) -> SlotV
    decreases k,
{
    match k {
        FieldKindV::Sub(sub) => SlotV::Sub(skeleton_slots(sub)),
        _ => SlotV::Absent,
    }
}

pub open spec fn skeleton_slots(s: Seq<FieldDescV>) -> Seq<SlotV>
    decreases s,
{
    if s.len() == 0 {
        Seq::empty()
    } else {
        skeleton_slots(s.drop_last()).push(skeleton_slot(s.last().kind))
    }
}

pub broadcast proof fn lemma_skeleton_len(s: Seq<FieldDescV>)
    ensures
        (#[trigger] skeleton_slots(s)).len() == s.len(),
    decreases s,
{
    if s.len() > 0 {
        lemma_skeleton_len(s.drop_last());
    }
}

/// The all-absent partial view of a valid shape agrees with the shape.
pub proof fn lemma_skeleton_wf(s: Seq<FieldDescV>)
    requires
        wf_fields(s),
    ensures
        wf_slots(skeleton_slots(s), s),
    decreases s,
{
    lemma_skeleton_len(s);
    if s.len() > 0 {
        lemma_skeleton_wf(s.drop_last());
        let m = skeleton_slots(s);
        assert(m.drop_last() =~= skeleton_slots(s.drop_last()));
        assert(m.last() == skeleton_slot(s.last().kind));
        assert(wf_field(s.last()));
        match s.last().kind {
            FieldKindV::Sub(sub) => {
                lemma_skeleton_wf(sub);
                assert(wf_slot(m.last(), s.last().kind));
                assert(lc_slot_ok(m.last(), s.last()));
            },
            _ => {
                assert(wf_slot(m.last(), s.last().kind));
                assert(lc_slot_ok(m.last(), s.last()));
            },
        }
    }
}

/// The built-in lowest-priority layer of a shape: each scalar field set to
/// its declared default, if any; nested sub-configurations recursively so.
pub open spec fn default_slot(k: FieldKindV, d: Option<ValueV>) -> SlotV
    decreases k,
{
    match k {
        FieldKindV::Sub(sub) => SlotV::Sub(default_slots(sub)),
        _ => match d {
            Option::Some(v) => SlotV::Scalar(v),
            Option::None => SlotV::Absent,
        },
    }
}

pub open spec fn default_slots(s: Seq<FieldDescV>) -> Seq<SlotV>
    decreases s,
{
    if s.len() == 0 {
        Seq::empty()
    } else {
        default_slots(s.drop_last()).push(default_slot(s.last().kind, s.last().default))
    }
}

pub broadcast proof fn lemma_default_len(s: Seq<FieldDescV>)
    ensures
        (#[trigger] default_slots(s)).len() == s.len(),
    decreases s,
{
    if s.len() > 0 {
        lemma_default_len(s.drop_last());
    }
}

/// The built-in default layer of a valid shape agrees with the shape.
pub proof fn lemma_default_wf(s: Seq<FieldDescV>)
    requires
        wf_fields(s),
    ensures
        wf_slots(default_slots(s), s),
    decreases s,
{
    lemma_default_len(s);
    if s.len() > 0 {
        lemma_default_wf(s.drop_last());
        let m = default_slots(s);
        assert(m.drop_last() =~= default_slots(s.drop_last()));
        assert(m.last() == default_slot(s.last().kind, s.last().default));
        assert(wf_field(s.last()));
        match s.last().kind {
            FieldKindV::Sub(sub) => {
                lemma_default_wf(sub);
                assert(wf_slot(m.last(), s.last().kind));
                assert(lc_slot_ok(m.last(), s.last()));
            },
            _ => {
                assert(wf_slot(m.last(), s.last().kind));
                assert(lc_slot_ok(m.last(), s.last()));
            },
        }
    }
}

/// Whether a partial view contributes nothing at all.
pub open spec fn slot_absent(sl: SlotV) -> bool
    decreases sl,
{
    match sl {
        SlotV::Absent => true,
        SlotV::Scalar(_) => false,
        SlotV::Sub(q) => all_absent(q),
    }
}

pub open spec fn all_absent(p: Seq<SlotV>) -> bool
    decreases p,
{
    if p.len() == 0 {
        true
    } else {
        all_absent(p.drop_last()) && slot_absent(p.last())
    }
}

impl Slot {
    /// A structurally equal copy, proved to keep the slot's model.
    pub fn duplicate(&self) -> (r: Slot)
        ensures
            slot_view(r) == slot_view(*self),
        decreases *self,
    {
        match self {
            Slot::Absent => Slot::Absent,
            Slot::Scalar(v) => Slot::Scalar(v.duplicate()),
            Slot::Sub(p) => {
                proof {
                    assert(decreases_to!(*self => self->Sub_0));
                    assert(decreases_to!(self->Sub_0 => p.slots));
                }
                let mut out: Vec<Slot> = Vec::new();
                let n = p.slots.len();
                for k in 0..n
                    invariant
                        n == p.slots.len(),
                        out.len() == k,
                        decreases_to!(*self => p.slots),
                        slots_view(out@) == slots_view(p.slots@.subrange(0, k as int)),
                {
                    proof {
                        vstd::std_specs::vec::axiom_vec_index_decreases(p.slots, k as int);
                        assert(decreases_to!(*self => p.slots@[k as int]));
                    }
                    let ghost prev = out@;
                    let d = p.slots[k].duplicate();
                    out.push(d);
                    proof {
                        assert(out@.drop_last() =~= prev);
                        assert(p.slots@.subrange(0, k as int + 1).drop_last() =~= p.slots@.subrange(
                            0,
                            k as int,
                        ));
                        assert(p.slots@.subrange(0, k as int + 1).last() == p.slots@[k as int]);
                    }
                }
                proof {
                    assert(p.slots@.subrange(0, p.slots@.len() as int) =~= p.slots@);
                }
                Slot::Sub(Partial { slots: out })
            },
        }
    }
}

impl Partial {
    /// A structurally equal copy, proved to keep the partial view's model.
    pub fn duplicate(&self) -> (r: Partial)
        ensures
            r@ == self@,
    {
        let mut out: Vec<Slot> = Vec::new();
        let n = self.slots.len();
        for k in 0..n
            invariant
                n == self.slots.len(),
                out.len() == k,
                slots_view(out@) == slots_view(self.slots@.subrange(0, k as int)),
        {
            let ghost prev = out@;
            let d = self.slots[k].duplicate();
            out.push(d);
            proof {
                assert(out@.drop_last() =~= prev);
                assert(self.slots@.subrange(0, k as int + 1).drop_last() =~= self.slots@.subrange(
                    0,
                    k as int,
                ));
                assert(self.slots@.subrange(0, k as int + 1).last() == self.slots@[k as int]);
            }
        }
        proof {
            assert(self.slots@.subrange(0, self.slots@.len() as int) =~= self.slots@);
        }
        Partial { slots: out }
    }

    /// Whether this partial view contributes nothing at all.
    pub fn is_empty(&self) -> (r: bool)
        ensures
            r == all_absent(self@),
        decreases *self,
    {
        let n = self.slots.len();
        let mut empty = true;
        for k in 0..n
            invariant
                n == self.slots.len(),
                decreases_to!(*self => self.slots),
                empty == all_absent(slots_view(self.slots@.subrange(0, k as int))),
        {
            proof {
                vstd::std_specs::vec::axiom_vec_index_decreases(self.slots, k as int);
            }
            let sl_empty = match &self.slots[k] {
                Slot::Absent => true,
                Slot::Scalar(_) => false,
                Slot::Sub(q) => {
                    proof {
                        assert(decreases_to!(*self => self.slots@[k as int]));
                        assert(decreases_to!(self.slots@[k as int] => *q));
                    }
                    q.is_empty()
                },
            };
            proof {
                lemma_slots_view_index(self.slots@, k as int);
                assert(sl_empty == slot_absent(slot_view(self.slots@[k as int])));
                assert(self.slots@.subrange(0, k as int + 1).drop_last() =~= self.slots@.subrange(
                    0,
                    k as int,
                ));
                assert(self.slots@.subrange(0, k as int + 1).last() == self.slots@[k as int]);
                assert(slots_view(self.slots@.subrange(0, k as int + 1)) == slots_view(
                    self.slots@.subrange(0, k as int),
                ).push(slot_view(self.slots@[k as int])));
                lemma_all_absent_push(
                    slots_view(self.slots@.subrange(0, k as int)),
                    slot_view(self.slots@[k as int]),
                );
            }
            empty = empty && sl_empty;
        }
        proof {
            assert(self.slots@.subrange(0, self.slots@.len() as int) =~= self.slots@);
        }
        empty
    }
}

pub proof fn lemma_all_absent_push(p: Seq<SlotV>, sl: SlotV)
    ensures
        all_absent(p.push(sl)) == (all_absent(p) && slot_absent(sl)),
{
    assert(p.push(sl).drop_last() =~= p);
    assert(p.push(sl).last() == sl);
}

pub proof fn lemma_slots_view_push_prefix(s: Seq<Slot>, k: int)
    requires
        0 <= k < s.len(),
    ensures
        slots_view(s.subrange(0, k + 1)) == slots_view(s.subrange(0, k)).push(slot_view(s[k])),
{
    assert(s.subrange(0, k + 1).drop_last() =~= s.subrange(0, k));
    assert(s.subrange(0, k + 1).last() == s[k]);
}

pub proof fn lemma_fields_view_push_prefix(s: Seq<FieldDesc>, k: int)
    requires
        0 <= k < s.len(),
    ensures
        fields_view(s.subrange(0, k + 1)) == fields_view(s.subrange(0, k)).push(field_view(s[k])),
{
    assert(s.subrange(0, k + 1).drop_last() =~= s.subrange(0, k));
    assert(s.subrange(0, k + 1).last() == s[k]);
}

pub proof fn lemma_merge_slots_push(a: Seq<SlotV>, b: Seq<SlotV>, x: SlotV, y: SlotV)
    ensures
        merge_slots(a.push(x), b.push(y)) == merge_slots(a, b).push(merge_slot(x, y)),
{
    assert(a.push(x).drop_last() =~= a);
    assert(b.push(y).drop_last() =~= b);
    assert(a.push(x).last() == x);
    assert(b.push(y).last() == y);
}

pub proof fn lemma_skeleton_slots_push(s: Seq<FieldDescV>, f: FieldDescV)
    ensures
        skeleton_slots(s.push(f)) == skeleton_slots(s).push(skeleton_slot(f.kind)),
{
    assert(s.push(f).drop_last() =~= s);
    assert(s.push(f).last() == f);
}

pub proof fn lemma_default_slots_push(s: Seq<FieldDescV>, f: FieldDescV)
    ensures
        default_slots(s.push(f)) == default_slots(s).push(default_slot(f.kind, f.default)),
{
    assert(s.push(f).drop_last() =~= s);
    assert(s.push(f).last() == f);
}

impl Shape {
    /// The all-absent partial view of this shape.
    pub fn skeleton(&self) -> (r: Partial)
        ensures
            r@ == skeleton_slots(self@),
        decreases *self,
    {
        proof {
            assert(decreases_to!(*self => self.fields));
        }
        let mut out: Vec<Slot> = Vec::new();
        let n = self.fields.len();
        for k in 0..n
            invariant
                n == self.fields.len(),
                out.len() == k,
                decreases_to!(*self => self.fields),
                slots_view(out@) == skeleton_slots(fields_view(self.fields@.subrange(0, k as int))),
        {
            proof {
                vstd::std_specs::vec::axiom_vec_index_decreases(self.fields, k as int);
            }
            let ghost prev = out@;
            let sl: Slot = match &self.fields[k].kind {
                FieldKind::Sub(shape) => {
                    proof {
                        assert(decreases_to!(*self => self.fields@[k as int]));
                        assert(decreases_to!(self.fields@[k as int] => self.fields@[k as int].kind));
                        assert(decreases_to!(self.fields@[k as int].kind => *shape));
                    }
                    Slot::Sub(shape.skeleton())
                },
                _ => Slot::Absent,
            };
            proof {
                assert(slot_view(sl) == skeleton_slot(field_view(self.fields@[k as int]).kind));
            }
            out.push(sl);
            proof {
                assert(out@.drop_last() =~= prev);
                lemma_fields_view_push_prefix(self.fields@, k as int);
                lemma_skeleton_slots_push(
                    fields_view(self.fields@.subrange(0, k as int)),
                    field_view(self.fields@[k as int]),
                );
            }
        }
        proof {
            assert(self.fields@.subrange(0, self.fields@.len() as int) =~= self.fields@);
        }
        Partial { slots: out }
    }

    /// The built-in lowest-priority default layer of this shape.
    pub fn default_layer(&self) -> (r: Partial)
        ensures
            r@ == default_slots(self@),
        decreases *self,
    {
        proof {
            assert(decreases_to!(*self => self.fields));
        }
        let mut out: Vec<Slot> = Vec::new();
        let n = self.fields.len();
        for k in 0..n
            invariant
                n == self.fields.len(),
                out.len() == k,
                decreases_to!(*self => self.fields),
                slots_view(out@) == default_slots(fields_view(self.fields@.subrange(0, k as int))),
        {
            proof {
                vstd::std_specs::vec::axiom_vec_index_decreases(self.fields, k as int);
            }
            let ghost prev = out@;
            let sl: Slot = match &self.fields[k].kind {
                FieldKind::Sub(shape) => {
                    proof {
                        assert(decreases_to!(*self => self.fields@[k as int]));
                        assert(decreases_to!(self.fields@[k as int] => self.fields@[k as int].kind));
                        assert(decreases_to!(self.fields@[k as int].kind => *shape));
                    }
                    Slot::Sub(shape.default_layer())
                },
                _ => match &self.fields[k].default {
                    Option::Some(v) => Slot::Scalar(v.duplicate()),
                    Option::None => Slot::Absent,
                },
            };
            proof {
                assert(slot_view(sl) == default_slot(
                    field_view(self.fields@[k as int]).kind,
                    field_view(self.fields@[k as int]).default,
                ));
            }
            out.push(sl);
            proof {
                assert(out@.drop_last() =~= prev);
                lemma_fields_view_push_prefix(self.fields@, k as int);
                lemma_default_slots_push(
                    fields_view(self.fields@.subrange(0, k as int)),
                    field_view(self.fields@[k as int]),
                );
            }
        }
        proof {
            assert(self.fields@.subrange(0, self.fields@.len() as int) =~= self.fields@);
        }
        Partial { slots: out }
    }
}

/// The field-wise merge of two slot vectors; the first argument has the
/// higher priority.
pub fn merge_slot_vecs(a: &Vec<Slot>, b: &Vec<Slot>) -> (r: Vec<Slot>)
    requires
        compat(slots_view(a@), slots_view(b@)),
    ensures
        slots_view(r@) == merge_slots(slots_view(a@), slots_view(b@)),
    decreases a@,
{
    proof {
        lemma_slots_view_len(a@);
        lemma_slots_view_len(b@);
    }
    let mut out: Vec<Slot> = Vec::new();
    let n = a.len();
    for k in 0..n
        invariant
            n == a.len(),
            a.len() == b.len(),
            out.len() == k,
            compat(slots_view(a@), slots_view(b@)),
            slots_view(out@) == merge_slots(
                slots_view(a@.subrange(0, k as int)),
                slots_view(b@.subrange(0, k as int)),
            ),
    {
        proof {
            vstd::std_specs::vec::axiom_vec_index_decreases(*a, k as int);
            lemma_slots_view_len(a@);
            lemma_slots_view_len(b@);
            lemma_slots_view_index(a@, k as int);
            lemma_slots_view_index(b@, k as int);
            lemma_compat_index(slots_view(a@), slots_view(b@), k as int);
        }
        let ghost prev = out@;
        let sl: Slot = match (&a[k], &b[k]) {
            (Slot::Absent, _) => b[k].duplicate(),
            (Slot::Sub(p), Slot::Sub(q)) => {
                proof {
                    assert(decreases_to!(a@ => a@[k as int]));
                    assert(decreases_to!(a@[k as int] => *p));
                    assert(decreases_to!(*p => p.slots));
                }
                Slot::Sub(Partial { slots: merge_slot_vecs(&p.slots, &q.slots) })
            },
            _ => a[k].duplicate(),
        };
        proof {
            assert(slot_view(sl) == merge_slot(slot_view(a@[k as int]), slot_view(b@[k as int])));
        }
        out.push(sl);
        proof {
            assert(out@.drop_last() =~= prev);
            lemma_slots_view_push_prefix(a@, k as int);
            lemma_slots_view_push_prefix(b@, k as int);
            lemma_merge_slots_push(
                slots_view(a@.subrange(0, k as int)),
                slots_view(b@.subrange(0, k as int)),
                slot_view(a@[k as int]),
                slot_view(b@[k as int]),
            );
        }
    }
    proof {
        assert(a@.subrange(0, a@.len() as int) =~= a@);
        assert(b@.subrange(0, b@.len() as int) =~= b@);
    }
    out
}

/// The value bound to `name` in a document object; among duplicate keys the
/// last occurrence wins, as the deserialization capabilities resolve them.
pub open spec fn obj_lookup(entries: Seq<(Seq<char>, ValueV)>, name: Seq<char>) -> Option<ValueV>
    decreases entries,
{
    if entries.len() == 0 {
        Option::None
    } else if entries.last().0 == name {
        Option::Some(entries.last().1)
    } else {
        obj_lookup(entries.drop_last(), name)
    }
}

/// The slot a document contributes to one field, or the name of the field
/// the document disagrees with: a nested field must be bound to an object,
/// a load-config field to a string path; an absent or null binding leaves a
/// scalar field unset and a nested field recursively empty.
pub open spec fn tree_slot(f: FieldDescV, vo: Option<ValueV>) -> Result<SlotV, Seq<char>>
    decreases f.kind,
{
    match f.kind {
        FieldKindV::Sub(sub) => match vo {
            Option::None => Result::Ok(SlotV::Sub(skeleton_slots(sub))),
            Option::Some(v) => if v matches ValueV::Obj(e) {
                match fields_from_obj(sub, v->Obj_0) {
                    Result::Ok(q) => Result::Ok(SlotV::Sub(q)),
                    Result::Err(er) => Result::Err(er),
                }
            } else {
                Result::Err(f.name)
            },
        },
        _ => match vo {
            Option::None => Result::Ok(SlotV::Absent),
            Option::Some(v) => if v is Null {
                Result::Ok(SlotV::Absent)
            } else if f.load_config && !(v is Str) {
                Result::Err(f.name)
            } else {
                Result::Ok(SlotV::Scalar(v))
            },
        },
    }
}

/// The partial view a document object denotes for a field table, or the
/// first field (in table order) the document disagrees with.
pub open spec fn fields_from_obj(s: Seq<FieldDescV>, entries: Seq<(Seq<char>, ValueV)>) -> Result<
    Seq<SlotV>,
    Seq<char>,
>
    decreases s,
{
    if s.len() == 0 {
        Result::Ok(Seq::empty())
    } else {
        match fields_from_obj(s.drop_last(), entries) {
            Result::Err(e) => Result::Err(e),
            Result::Ok(rest) => match tree_slot(s.last(), obj_lookup(entries, s.last().name)) {
                Result::Err(e) => Result::Err(e),
                Result::Ok(sl) => Result::Ok(rest.push(sl)),
            },
        }
    }
}

/// The partial view a whole document denotes for a shape; a document that
/// is not an object is reported under the empty name.
pub open spec fn tree_to_slots(s: Seq<FieldDescV>, t: ValueV) -> Result<Seq<SlotV>, Seq<char>> {
    if t matches ValueV::Obj(e) {
        fields_from_obj(s, t->Obj_0)
    } else {
        Result::Err(Seq::empty())
    }
}

/// What a document denotes is a partial view of the shape it was read
/// against.
pub proof fn lemma_fields_from_obj_wf(s: Seq<FieldDescV>, entries: Seq<(Seq<char>, ValueV)>)
    requires
        wf_fields(s),
        fields_from_obj(s, entries) is Ok,
    ensures
        wf_slots(fields_from_obj(s, entries)->Ok_0, s),
    decreases s,
{
    if s.len() > 0 {
        lemma_fields_from_obj_wf(s.drop_last(), entries);
        let rest = fields_from_obj(s.drop_last(), entries)->Ok_0;
        let sl = tree_slot(s.last(), obj_lookup(entries, s.last().name))->Ok_0;
        assert(fields_from_obj(s, entries)->Ok_0 == rest.push(sl));
        assert(rest.push(sl).drop_last() =~= rest);
        assert(rest.push(sl).last() == sl);
        assert(wf_field(s.last()));
        match s.last().kind {
            FieldKindV::Sub(sub) => {
                match obj_lookup(entries, s.last().name) {
                    Option::None => {
                        lemma_skeleton_wf(sub);
                        lemma_skeleton_len(sub);
                    },
                    Option::Some(v) => {
                        lemma_fields_from_obj_wf(sub, v->Obj_0);
                    },
                }
                assert(wf_slot(sl, s.last().kind));
                assert(lc_slot_ok(sl, s.last()));
            },
            _ => {
                assert(wf_slot(sl, s.last().kind));
                assert(lc_slot_ok(sl, s.last()));
            },
        }
    }
}

/// A field table that once denoted an error keeps denoting it, whatever
/// fields follow.
pub proof fn lemma_fields_from_obj_prefix_err(
    s: Seq<FieldDescV>,
    entries: Seq<(Seq<char>, ValueV)>,
    j: int,
)
    requires
        0 <= j <= s.len(),
        fields_from_obj(s.subrange(0, j), entries) is Err,
    ensures
        fields_from_obj(s, entries) == fields_from_obj(s.subrange(0, j), entries),
    decreases s.len() - j,
{
    if j == s.len() {
        assert(s.subrange(0, j) =~= s);
    } else {
        assert(s.subrange(0, j + 1).drop_last() =~= s.subrange(0, j));
        lemma_fields_from_obj_prefix_err(s, entries, j + 1);
    }
}

pub proof fn lemma_entries_view_push_prefix(s: Seq<(String, Value)>, k: int)
    requires
        0 <= k < s.len(),
    ensures
        entries_view(s.subrange(0, k + 1)) == entries_view(s.subrange(0, k)).push(
            (s[k].0@, value_view(s[k].1)),
        ),
{
    assert(s.subrange(0, k + 1).drop_last() =~= s.subrange(0, k));
    assert(s.subrange(0, k + 1).last() == s[k]);
}

pub proof fn lemma_slots_view_prefix(s: Seq<Slot>, j: int)
    requires
        0 <= j <= s.len(),
    ensures
        slots_view(s.subrange(0, j)) == slots_view(s).subrange(0, j),
{
    lemma_slots_view_len(s);
    lemma_slots_view_len(s.subrange(0, j));
    assert forall|i: int| 0 <= i < j implies slots_view(s.subrange(0, j))[i] == slots_view(
        s,
    ).subrange(0, j)[i] by {
        lemma_slots_view_index(s.subrange(0, j), i);
        lemma_slots_view_index(s, i);
    }
    assert(slots_view(s.subrange(0, j)) =~= slots_view(s).subrange(0, j));
}

pub proof fn lemma_wf_slots_push(p: Seq<SlotV>, s: Seq<FieldDescV>, sl: SlotV, f: FieldDescV)
    ensures
        wf_slots(p.push(sl), s.push(f)) == (p.len() == s.len() && wf_slots(p, s) && wf_slot(
            sl,
            f.kind,
        ) && lc_slot_ok(sl, f)),
{
    assert(p.push(sl).drop_last() =~= p);
    assert(s.push(f).drop_last() =~= s);
    assert(p.push(sl).last() == sl);
    assert(s.push(f).last() == f);
}

/// A field table that a prefix already disagrees with stays disagreed
/// with, whatever fields follow.
pub proof fn lemma_wf_slots_prefix_false(p: Seq<SlotV>, s: Seq<FieldDescV>, j: int)
    requires
        0 <= j <= s.len(),
        p.len() == s.len(),
        !wf_slots(p.subrange(0, j), s.subrange(0, j)),
    ensures
        !wf_slots(p, s),
    decreases s.len() - j,
{
    if j == s.len() {
        assert(p.subrange(0, j) =~= p);
        assert(s.subrange(0, j) =~= s);
    } else {
        assert(s.subrange(0, j + 1).drop_last() =~= s.subrange(0, j));
        assert(p.subrange(0, j + 1).drop_last() =~= p.subrange(0, j));
        assert(!wf_slots(p.subrange(0, j + 1), s.subrange(0, j + 1)));
        lemma_wf_slots_prefix_false(p, s, j + 1);
    }
}

/// Whether a slot vector mirrors a field table.
pub(crate) fn check_slots_shape(slots: &Vec<Slot>, fields: &Vec<FieldDesc>) -> (r: bool)
    ensures
        r == wf_slots(slots_view(slots@), fields_view(fields@)),
    decreases fields@,
{
    proof {
        lemma_slots_view_len(slots@);
        lemma_fields_view_len(fields@);
    }
    if slots.len() != fields.len() {
        return false;
    }
    let ghost pv = slots_view(slots@);
    let ghost sv = fields_view(fields@);
    let n = fields.len();
    proof {
        assert(slots@.subrange(0, 0) =~= Seq::<Slot>::empty());
        assert(fields@.subrange(0, 0) =~= Seq::<FieldDesc>::empty());
        assert(slots_view(Seq::<Slot>::empty()) =~= Seq::<SlotV>::empty());
        assert(fields_view(Seq::<FieldDesc>::empty()) =~= Seq::<FieldDescV>::empty());
    }
    for k in 0..n
        invariant
            n == fields.len(),
            slots.len() == n,
            pv == slots_view(slots@),
            sv == fields_view(fields@),
            pv.len() == n,
            sv.len() == n,
            wf_slots(
                slots_view(slots@.subrange(0, k as int)),
                fields_view(fields@.subrange(0, k as int)),
            ),
    {
        proof {
            vstd::std_specs::vec::axiom_vec_index_decreases(*fields, k as int);
            lemma_slots_view_index(slots@, k as int);
            lemma_fields_view_index(fields@, k as int);
            lemma_slots_view_push_prefix(slots@, k as int);
            lemma_fields_view_push_prefix(fields@, k as int);
            lemma_wf_slots_push(
                slots_view(slots@.subrange(0, k as int)),
                fields_view(fields@.subrange(0, k as int)),
                slot_view(slots@[k as int]),
                field_view(fields@[k as int]),
            );
            lemma_slots_view_len(slots@.subrange(0, k as int));
            lemma_fields_view_len(fields@.subrange(0, k as int));
        }
        let ok: bool = match (&fields[k].kind, &slots[k]) {
            (FieldKind::Sub(sub_shape), Slot::Sub(p)) => {
                if fields[k].load_config {
                    false
                } else {
                    proof {
                        assert(decreases_to!(fields@ => fields@[k as int]));
                        assert(decreases_to!(fields@[k as int] => fields@[k as int].kind));
                        assert(decreases_to!(fields@[k as int].kind => *sub_shape));
                        assert(decreases_to!(*sub_shape => sub_shape.fields));
                    }
                    check_slots_shape(&p.slots, &sub_shape.fields)
                }
            },
            (FieldKind::Sub(_), _) => false,
            (_, Slot::Sub(_)) => false,
            (_, _) => {
                if fields[k].load_config {
                    match &slots[k] {
                        Slot::Absent => true,
                        Slot::Scalar(v) => match v {
                            Value::Str(_) => true,
                            _ => false,
                        },
                        Slot::Sub(_) => false,
                    }
                } else {
                    true
                }
            },
        };
        proof {
            assert(ok == (wf_slot(
                slot_view(slots@[k as int]),
                field_view(fields@[k as int]).kind,
            ) && lc_slot_ok(slot_view(slots@[k as int]), field_view(fields@[k as int]))));
        }
        if !ok {
            proof {
                assert(!wf_slots(
                    slots_view(slots@.subrange(0, k as int + 1)),
                    fields_view(fields@.subrange(0, k as int + 1)),
                ));
                lemma_slots_view_prefix(slots@, k as int + 1);
                lemma_fields_view_prefix(fields@, k as int + 1);
                lemma_wf_slots_prefix_false(pv, sv, k as int + 1);
            }
            return false;
        }
    }
    proof {
        assert(slots@.subrange(0, slots@.len() as int) =~= slots@);
        assert(fields@.subrange(0, fields@.len() as int) =~= fields@);
    }
    true
}

pub proof fn lemma_fields_view_prefix(s: Seq<FieldDesc>, j: int)
    requires
        0 <= j <= s.len(),
    ensures
        fields_view(s.subrange(0, j)) == fields_view(s).subrange(0, j),
{
    lemma_fields_view_len(s);
    lemma_fields_view_len(s.subrange(0, j));
    assert forall|i: int| 0 <= i < j implies fields_view(s.subrange(0, j))[i] == fields_view(
        s,
    ).subrange(0, j)[i] by {
        lemma_fields_view_index(s.subrange(0, j), i);
        lemma_fields_view_index(s, i);
    }
    assert(fields_view(s.subrange(0, j)) =~= fields_view(s).subrange(0, j));
}

/// The last binding of `name` in a document object, if any.
pub fn lookup_last<'a>(entries: &'a Vec<(String, Value)>, name: &String) -> (r: Option<&'a Value>)
    ensures
        r is Some <==> obj_lookup(entries_view(entries@), name@) is Some,
        r matches Option::Some(v) ==> Option::Some(value_view(*v)) == obj_lookup(
            entries_view(entries@),
            name@,
        ),
{
    proof {
        lemma_entries_view_len(entries@);
        assert(entries@.subrange(0, entries@.len() as int) =~= entries@);
    }
    let n = entries.len();
    let mut k = n;
    while k > 0
        invariant
            k <= n,
            n == entries.len(),
            obj_lookup(entries_view(entries@), name@) == obj_lookup(
                entries_view(entries@.subrange(0, k as int)),
                name@,
            ),
        decreases k,
    {
        k = k - 1;
        proof {
            lemma_entries_view_push_prefix(entries@, k as int);
        }
        if entries[k].0 == *name {
            proof {
                let pre = entries_view(entries@.subrange(0, k as int));
                let pair = (entries@[k as int].0@, value_view(entries@[k as int].1));
                assert(entries_view(entries@.subrange(0, k as int + 1)) == pre.push(pair));
                assert(pre.push(pair).last() == pair);
                assert(pre.push(pair).drop_last() =~= pre);
                assert(obj_lookup(pre.push(pair), name@) == Option::Some(pair.1));
            }
            return Some(&entries[k].1);
        }
        proof {
            let pre = entries_view(entries@.subrange(0, k as int));
            let pair = (entries@[k as int].0@, value_view(entries@[k as int].1));
            assert(pre.push(pair).last() == pair);
            assert(pre.push(pair).drop_last() =~= pre);
            assert(obj_lookup(pre.push(pair), name@) == obj_lookup(pre, name@));
        }
    }
    proof {
        assert(entries@.subrange(0, 0) =~= Seq::<(String, Value)>::empty());
        assert(entries_view(Seq::<(String, Value)>::empty()) =~= Seq::<(Seq<char>, ValueV)>::empty());
    }
    None
}

impl Partial {
    /// The partial view that a deserialized document contributes for a
    /// shape.  A document that does not fit the shape is refused with the
    /// name of the offending field (the empty string for a document that is
    /// not an object at all).
    pub fn from_tree(shape: &Shape, tree: &Value) -> (r: Result<Partial, String>)
        ensures
            r is Ok <==> tree_to_slots(shape@, tree@) is Ok,
            r matches Result::Ok(p) ==> Result::<Seq<SlotV>, Seq<char>>::Ok(p@) == tree_to_slots(shape@, tree@),
            r matches Result::Err(e) ==> Result::<Seq<SlotV>, Seq<char>>::Err(e@) == tree_to_slots(shape@, tree@),
    {
        match tree {
            Value::Obj(entries) => {
                match fields_from_obj_exec(&shape.fields, entries) {
                    Result::Ok(slots) => Result::Ok(Partial { slots }),
                    Result::Err(e) => Result::Err(e),
                }
            },
            _ => Result::Err(String::new()),
        }
    }
}

/// The slot vector that a document object contributes for a field table.
fn fields_from_obj_exec(fields: &Vec<FieldDesc>, entries: &Vec<(String, Value)>) -> (r: Result<
    Vec<Slot>,
    String,
>)
    ensures
        r is Ok <==> fields_from_obj(fields_view(fields@), entries_view(entries@)) is Ok,
        r matches Result::Ok(slots) ==> Result::<Seq<SlotV>, Seq<char>>::Ok(slots_view(slots@))
            == fields_from_obj(fields_view(fields@), entries_view(entries@)),
        r matches Result::Err(e) ==> Result::<Seq<SlotV>, Seq<char>>::Err(e@)
            == fields_from_obj(fields_view(fields@), entries_view(entries@)),
    decreases fields@,
{
    proof {
        lemma_fields_view_len(fields@);
    }
    let mut out: Vec<Slot> = Vec::new();
    let n = fields.len();
    let ghost sv = fields_view(fields@);
    let ghost ev = entries_view(entries@);
    proof {
        assert(fields@.subrange(0, 0) =~= Seq::<FieldDesc>::empty());
        assert(fields_view(Seq::<FieldDesc>::empty()) =~= Seq::<FieldDescV>::empty());
        assert(slots_view(Seq::<Slot>::empty()) =~= Seq::<SlotV>::empty());
    }
    for k in 0..n
        invariant
            n == fields.len(),
            out.len() == k,
            sv == fields_view(fields@),
            sv.len() == n,
            ev == entries_view(entries@),
            Result::<Seq<SlotV>, Seq<char>>::Ok(slots_view(out@)) == fields_from_obj(
                fields_view(fields@.subrange(0, k as int)),
                ev,
            ),
    {
        proof {
            vstd::std_specs::vec::axiom_vec_index_decreases(*fields, k as int);
            lemma_fields_view_index(fields@, k as int);
            lemma_fields_view_push_prefix(fields@, k as int);
            assert(fields_view(fields@.subrange(0, k as int + 1)).drop_last() =~= fields_view(
                fields@.subrange(0, k as int),
            ));
            assert(fields_view(fields@.subrange(0, k as int + 1)).last() == field_view(
                fields@[k as int],
            ));
        }
        let ghost prev = out@;
        let f = &fields[k];
        let vo = lookup_last(entries, &f.name);
        let sl: Slot = match &f.kind {
            FieldKind::Sub(shape) => match vo {
                Option::None => shape_sub_skeleton(shape),
                Option::Some(v) => match v {
                    Value::Obj(sub_entries) => {
                        proof {
                            assert(decreases_to!(fields@ => fields@[k as int]));
                            assert(decreases_to!(fields@[k as int] => fields@[k as int].kind));
                            assert(decreases_to!(fields@[k as int].kind => *shape));
                            assert(decreases_to!(*shape => shape.fields));
                        }
                        match fields_from_obj_exec(&shape.fields, sub_entries) {
                            Result::Ok(slots) => Slot::Sub(Partial { slots }),
                            Result::Err(e) => {
                                proof {
                                    lemma_fields_view_prefix(fields@, k as int + 1);
                                    assert(fields_from_obj(sv.subrange(0, k as int + 1), ev)
                                        == Result::<Seq<SlotV>, Seq<char>>::Err(e@));
                                    lemma_fields_from_obj_prefix_err(sv, ev, k as int + 1);
                                }
                                return Result::Err(e);
                            },
                        }
                    },
                    _ => {
                        proof {
                            lemma_fields_view_prefix(fields@, k as int + 1);
                            assert(fields_from_obj(sv.subrange(0, k as int + 1), ev)
                                == Result::<Seq<SlotV>, Seq<char>>::Err(
                                field_view(fields@[k as int]).name,
                            ));
                            lemma_fields_from_obj_prefix_err(sv, ev, k as int + 1);
                        }
                        return Result::Err(f.name.clone());
                    },
                },
            },
            _ => match vo {
                Option::None => Slot::Absent,
                Option::Some(v) => match v {
                    Value::Null => Slot::Absent,
                    Value::Str(_) => Slot::Scalar(v.duplicate()),
                    _ => {
                        if f.load_config {
                            proof {
                                lemma_fields_view_prefix(fields@, k as int + 1);
                                assert(fields_from_obj(sv.subrange(0, k as int + 1), ev)
                                    == Result::<Seq<SlotV>, Seq<char>>::Err(
                                    field_view(fields@[k as int]).name,
                                ));
                                lemma_fields_from_obj_prefix_err(sv, ev, k as int + 1);
                            }
                            return Result::Err(f.name.clone());
                        }
                        Slot::Scalar(v.duplicate())
                    },
                },
            },
        };
        proof {
            assert(Result::<SlotV, Seq<char>>::Ok(slot_view(sl)) == tree_slot(
                field_view(fields@[k as int]),
                obj_lookup(ev, field_view(fields@[k as int]).name),
            ));
        }
        out.push(sl);
        proof {
            assert(out@.drop_last() =~= prev);
        }
    }
    proof {
        assert(fields@.subrange(0, fields@.len() as int) =~= fields@);
    }
    Result::Ok(out)
}

/// The recursively empty slot for a nested field.
fn shape_sub_skeleton(shape: &Shape) -> (r: Slot)
    ensures
        slot_view(r) == SlotV::Sub(skeleton_slots(shape@)),
{
    Slot::Sub(shape.skeleton())
}

/// The models of a sequence of strings.
pub open spec fn strings_view(v: Seq<String>) -> Seq<Seq<char>> {
    Seq::new(v.len(), |i: int| v[i]@)
}

/// What one field contributes to the list of further configuration files to
/// load: the value of a set load-config field.
pub open spec fn lc_entry(f: FieldDescV, sl: SlotV) -> Seq<Seq<char>> {
    if f.load_config {
        match sl {
            SlotV::Scalar(ValueV::Str(t)) => seq![t],
            _ => Seq::empty(),
        }
    } else {
        Seq::empty()
    }
}

/// The further configuration files a partial view names, in field order.
/// Only the fields of the table itself are consulted, not those of nested
/// sub-configurations.
pub open spec fn lc_slots(s: Seq<FieldDescV>, p: Seq<SlotV>) -> Seq<Seq<char>>
    decreases s,
{
    if s.len() == 0 {
        Seq::empty()
    } else {
        lc_slots(s.drop_last(), p.drop_last()) + lc_entry(s.last(), p.last())
    }
}

pub proof fn lemma_lc_slots_push(s: Seq<FieldDescV>, p: Seq<SlotV>, f: FieldDescV, sl: SlotV)
    ensures
        lc_slots(s.push(f), p.push(sl)) == lc_slots(s, p) + lc_entry(f, sl),
{
    assert(s.push(f).drop_last() =~= s);
    assert(p.push(sl).drop_last() =~= p);
}

/// What one field contributes to the missing-fields report of an incomplete
/// configuration: the name of an unset required scalar field, and the
/// missing fields of a nested sub-configuration, recursively.
pub open spec fn missing_entry(f: FieldDescV, sl: SlotV) -> Seq<Seq<char>>
    decreases f.kind,
{
    match f.kind {
        FieldKindV::Required => if sl is Scalar {
            Seq::empty()
        } else {
            seq![f.name]
        },
        FieldKindV::Optional => Seq::empty(),
        FieldKindV::Sub(sub) => match sl {
            SlotV::Sub(q) => missing_slots(sub, q),
            _ => seq![f.name],
        },
    }
}

/// Every field a merged partial view leaves unset although the shape
/// requires it, in field order, nested sub-configurations included.
pub open spec fn missing_slots(s: Seq<FieldDescV>, p: Seq<SlotV>) -> Seq<Seq<char>>
    decreases s,
{
    if s.len() == 0 {
        Seq::empty()
    } else {
        missing_slots(s.drop_last(), p.drop_last()) + missing_entry(s.last(), p.last())
    }
}

pub proof fn lemma_missing_slots_push(s: Seq<FieldDescV>, p: Seq<SlotV>, f: FieldDescV, sl: SlotV)
    ensures
        missing_slots(s.push(f), p.push(sl)) == missing_slots(s, p) + missing_entry(f, sl),
{
    assert(s.push(f).drop_last() =~= s);
    assert(p.push(sl).drop_last() =~= p);
}

/// Appends the names of the missing fields of `slots` against `fields`.
pub(crate) fn missing_fields_exec(fields: &Vec<FieldDesc>, slots: &Vec<Slot>, out: &mut Vec<String>)
    requires
        wf_slots(slots_view(slots@), fields_view(fields@)),
    ensures
        strings_view(final(out)@) == strings_view(old(out)@) + missing_slots(
            fields_view(fields@),
            slots_view(slots@),
        ),
    decreases fields@,
{
    proof {
        lemma_fields_view_len(fields@);
        lemma_slots_view_len(slots@);
        assert(fields@.subrange(0, 0) =~= Seq::<FieldDesc>::empty());
        assert(slots@.subrange(0, 0) =~= Seq::<Slot>::empty());
        assert(fields_view(Seq::<FieldDesc>::empty()) =~= Seq::<FieldDescV>::empty());
        assert(slots_view(Seq::<Slot>::empty()) =~= Seq::<SlotV>::empty());
        assert(strings_view(out@) =~= strings_view(out@) + missing_slots(
            Seq::<FieldDescV>::empty(),
            Seq::<SlotV>::empty(),
        ));
    }
    let ghost base = out@;
    let n = fields.len();
    for k in 0..n
        invariant
            n == fields.len(),
            slots.len() == n,
            wf_slots(slots_view(slots@), fields_view(fields@)),
            strings_view(out@) == strings_view(base) + missing_slots(
                fields_view(fields@.subrange(0, k as int)),
                slots_view(slots@.subrange(0, k as int)),
            ),
    {
        proof {
            vstd::std_specs::vec::axiom_vec_index_decreases(*fields, k as int);
            lemma_fields_view_index(fields@, k as int);
            lemma_slots_view_index(slots@, k as int);
            lemma_fields_view_push_prefix(fields@, k as int);
            lemma_slots_view_push_prefix(slots@, k as int);
            lemma_missing_slots_push(
                fields_view(fields@.subrange(0, k as int)),
                slots_view(slots@.subrange(0, k as int)),
                field_view(fields@[k as int]),
                slot_view(slots@[k as int]),
            );
        }
        let ghost before = out@;
        match (&fields[k].kind, &slots[k]) {
            (FieldKind::Required, Slot::Scalar(_)) => {
                proof {
                    assert(strings_view(before) =~= strings_view(before) + missing_entry(
                        field_view(fields@[k as int]),
                        slot_view(slots@[k as int]),
                    ));
                }
            },
            (FieldKind::Required, _) => {
                out.push(fields[k].name.clone());
                proof {
                    assert(strings_view(out@) =~= strings_view(before).push(
                        fields@[k as int].name@,
                    ));
                    assert(strings_view(before).push(fields@[k as int].name@) =~= strings_view(
                        before,
                    ) + missing_entry(field_view(fields@[k as int]), slot_view(slots@[k as int])));
                }
            },
            (FieldKind::Optional, _) => {
                proof {
                    assert(strings_view(before) =~= strings_view(before) + missing_entry(
                        field_view(fields@[k as int]),
                        slot_view(slots@[k as int]),
                    ));
                }
            },
            (FieldKind::Sub(shape), Slot::Sub(p)) => {
                proof {
                    assert(decreases_to!(fields@ => fields@[k as int]));
                    assert(decreases_to!(fields@[k as int] => fields@[k as int].kind));
                    assert(decreases_to!(fields@[k as int].kind => *shape));
                    assert(decreases_to!(*shape => shape.fields));
                    lemma_fields_view_len(fields@);
                    lemma_slots_view_len(slots@);
                    lemma_wf_slots_index(slots_view(slots@), fields_view(fields@), k as int);
                    assert(wf_slot(slot_view(slots@[k as int]), field_view(fields@[k as int]).kind));
                    assert(wf_slots(slots_view(p.slots@), fields_view(shape.fields@)));
                }
                missing_fields_exec(&shape.fields, &p.slots, out);
            },
            (FieldKind::Sub(_), _) => {
                out.push(fields[k].name.clone());
                proof {
                    assert(strings_view(out@) =~= strings_view(before).push(
                        fields@[k as int].name@,
                    ));
                    assert(strings_view(before).push(fields@[k as int].name@) =~= strings_view(
                        before,
                    ) + missing_entry(field_view(fields@[k as int]), slot_view(slots@[k as int])));
                }
            },
        }
        proof {
            assert(strings_view(out@) =~= strings_view(base) + missing_slots(
                fields_view(fields@.subrange(0, k as int + 1)),
                slots_view(slots@.subrange(0, k as int + 1)),
            ));
        }
    }
    proof {
        assert(fields@.subrange(0, fields@.len() as int) =~= fields@);
        assert(slots@.subrange(0, slots@.len() as int) =~= slots@);
    }
}

impl Partial {
    /// The names of every required field this partial view leaves unset,
    /// nested sub-configurations included, in shape order.
    pub fn missing_fields(&self, shape: &Shape) -> (r: Vec<String>)
        requires
            wf_slots(self@, shape@),
        ensures
            strings_view(r@) == missing_slots(shape@, self@),
    {
        let mut out: Vec<String> = Vec::new();
        proof {
            assert(strings_view(out@) =~= Seq::<Seq<char>>::empty());
        }
        missing_fields_exec(&shape.fields, &self.slots, &mut out);
        proof {
            assert(strings_view(out@) =~= missing_slots(shape@, self@));
        }
        out
    }

    /// The further configuration files this partial view names in its
    /// load-config fields, in field order.
    /// Whether this partial view mirrors the shape, so that merging and
    /// solidifying against it are meaningful.  Callers that assemble a
    /// partial view by hand — an argument-parsing bridge, say — check
    /// with this before handing it to the engine.
    pub fn matches_shape(&self, shape: &Shape) -> (r: bool)
        ensures
            r == wf_slots(self@, shape@),
    {
        check_slots_shape(&self.slots, &shape.fields)
    }

    pub fn load_configs(&self, shape: &Shape) -> (r: Vec<String>)
        requires
            wf_slots(self@, shape@),
        ensures
            strings_view(r@) == lc_slots(shape@, self@),
    {
        proof {
            lemma_fields_view_len(shape.fields@);
            lemma_slots_view_len(self.slots@);
            assert(shape.fields@.subrange(0, 0) =~= Seq::<FieldDesc>::empty());
            assert(self.slots@.subrange(0, 0) =~= Seq::<Slot>::empty());
            assert(fields_view(Seq::<FieldDesc>::empty()) =~= Seq::<FieldDescV>::empty());
            assert(slots_view(Seq::<Slot>::empty()) =~= Seq::<SlotV>::empty());
        }
        let mut out: Vec<String> = Vec::new();
        let n = shape.fields.len();
        for k in 0..n
            invariant
                n == shape.fields.len(),
                self.slots.len() == n,
                strings_view(out@) == lc_slots(
                    fields_view(shape.fields@.subrange(0, k as int)),
                    slots_view(self.slots@.subrange(0, k as int)),
                ),
        {
            proof {
                lemma_fields_view_index(shape.fields@, k as int);
                lemma_slots_view_index(self.slots@, k as int);
                lemma_fields_view_push_prefix(shape.fields@, k as int);
                lemma_slots_view_push_prefix(self.slots@, k as int);
                lemma_lc_slots_push(
                    fields_view(shape.fields@.subrange(0, k as int)),
                    slots_view(self.slots@.subrange(0, k as int)),
                    field_view(shape.fields@[k as int]),
                    slot_view(self.slots@[k as int]),
                );
            }
            let ghost before = out@;
            let mut pushed = false;
            if shape.fields[k].load_config {
                match &self.slots[k] {
                    Slot::Scalar(v) => match v {
                        Value::Str(t) => {
                            out.push(t.clone());
                            pushed = true;
                        },
                        _ => {},
                    },
                    _ => {},
                }
            }
            proof {
                if pushed {
                    assert(strings_view(out@) =~= strings_view(before) + lc_entry(
                        field_view(shape.fields@[k as int]),
                        slot_view(self.slots@[k as int]),
                    ));
                } else {
                    assert(strings_view(before) =~= strings_view(before) + lc_entry(
                        field_view(shape.fields@[k as int]),
                        slot_view(self.slots@[k as int]),
                    ));
                }
            }
        }
        proof {
            assert(shape.fields@.subrange(0, shape.fields@.len() as int) =~= shape.fields@);
            assert(self.slots@.subrange(0, self.slots@.len() as int) =~= self.slots@);
        }
        out
    }
}

} // verus!
